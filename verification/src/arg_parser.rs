//! The arguments of the command line.

use crate::metadata::PDFStruct;
use crate::pdf_object::name_is;
use vstd::prelude::*;

verus! {

/// How much is said while the documents are read.
#[derive(Debug, Clone, Copy, PartialEq, Eq, Structural)]
pub enum Verbose {
    Light,
    Default,
    Full,
}

/// What a run works with: the options of the command line, the documents
/// read so far and the counts of what happened to them.
#[derive(Debug)]
pub struct PdfData {
    pub pdfs: Vec<PDFStruct>,
    pub read: u32,
    pub fails: u32,
    pub timeouts: u32,
    pub api_hits: u32,
    pub output_filepath: String,
    /// 0 for the reader of this library, 1 for the other one.
    pub reader: u8,
    pub make_api_call: bool,
    pub verbose: Verbose,
    pub recursive: bool,
    pub path: String,
}

/// Why the arguments start no run. Where an argument is at fault, its
/// number is given.
#[derive(Debug, Clone, Copy, PartialEq, Eq, Structural)]
pub enum ArgsIssue {
    /// No path was given.
    NoPath,
    /// Help was asked for.
    Help,
    /// The last argument needs a value after it.
    MissingValue(usize),
    /// The value is no reader.
    InvalidReader(usize),
    /// The value is no mode.
    InvalidMode(usize),
    /// The argument is not known.
    Unknown(usize),
}

/// The options that the arguments set.
pub struct Options {
    pub output_filepath: Seq<char>,
    pub reader: u8,
    pub make_api_call: bool,
    pub verbose: Verbose,
    pub recursive: bool,
}

/// The options before any argument is read.
pub open spec fn default_options() -> Options {
    Options {
        output_filepath: "output.json"@,
        reader: 0,
        make_api_call: true,
        verbose: Verbose::Default,
        recursive: false,
    }
}

/// The reader that a value names.
pub open spec fn reader_of(value: Seq<char>) -> Option<u8> {
    if value == "tag"@ || value == "t"@ {
        Some(0u8)
    } else if value == "lopdf"@ || value == "l"@ {
        Some(1u8)
    } else {
        None
    }
}

/// The mode that a value names.
pub open spec fn mode_of(value: Seq<char>) -> Option<Verbose> {
    if value == "full"@ || value == "f"@ {
        Some(Verbose::Full)
    } else if value == "light"@ || value == "l"@ {
        Some(Verbose::Light)
    } else if value == "default"@ || value == "d"@ {
        Some(Verbose::Default)
    } else {
        None
    }
}

/// Reading the arguments from number `i` on into the options.
pub open spec fn spec_options(args: Seq<Seq<char>>, i: int, options: Options) -> Result<
    Options,
    ArgsIssue,
>
    decreases args.len() - i,
{
    if i < 0 || i >= args.len() {
        Ok(options)
    } else if args[i] == "-h"@ || args[i] == "-help"@ {
        Err(ArgsIssue::Help)
    } else if args[i] == "-r"@ || args[i] == "-reader"@ {
        if i + 1 >= args.len() {
            Err(ArgsIssue::MissingValue(i as usize))
        } else {
            match reader_of(args[i + 1]) {
                Some(reader) => spec_options(args, i + 2, Options { reader, ..options }),
                None => Err(ArgsIssue::InvalidReader((i + 1) as usize)),
            }
        }
    } else if args[i] == "-nc"@ || args[i] == "-nocall"@ {
        spec_options(args, i + 1, Options { make_api_call: false, ..options })
    } else if args[i] == "-o"@ || args[i] == "-output"@ {
        if i + 1 >= args.len() {
            Err(ArgsIssue::MissingValue(i as usize))
        } else {
            spec_options(args, i + 2, Options { output_filepath: args[i + 1], ..options })
        }
    } else if args[i] == "-m"@ || args[i] == "-mode"@ {
        if i + 1 >= args.len() {
            Err(ArgsIssue::MissingValue(i as usize))
        } else {
            match mode_of(args[i + 1]) {
                Some(verbose) => spec_options(args, i + 2, Options { verbose, ..options }),
                None => Err(ArgsIssue::InvalidMode((i + 1) as usize)),
            }
        }
    } else if args[i] == "-rec"@ || args[i] == "-recursive"@ {
        spec_options(args, i + 1, Options { recursive: true, ..options })
    } else {
        Err(ArgsIssue::Unknown(i as usize))
    }
}

/// What the arguments ask for. The first argument is the name of the
/// program, the second the path to read, unless it asks for help; the
/// options follow.
pub open spec fn spec_args(args: Seq<Seq<char>>) -> Result<(Seq<char>, Options), ArgsIssue> {
    if args.len() < 2 {
        Err(ArgsIssue::NoPath)
    } else if args[1] == "-help"@ || args[1] == "-h"@ {
        Err(ArgsIssue::Help)
    } else {
        match spec_options(args, 2, default_options()) {
            Ok(options) => Ok((args[1], options)),
            Err(e) => Err(e),
        }
    }
}

impl PdfData {
    /// The options that the data holds.
    pub open spec fn options(&self) -> Options {
        Options {
            output_filepath: self.output_filepath@,
            reader: self.reader,
            make_api_call: self.make_api_call,
            verbose: self.verbose,
            recursive: self.recursive,
        }
    }
}

/// The texts of the arguments.
pub open spec fn texts_of_args(args: Seq<String>) -> Seq<Seq<char>> {
    Seq::new(args.len(), |i: int| args[i]@)
}

/// Reads the value of `-reader`.
pub fn parse_reader(value: &String) -> (r: Option<u8>)
    ensures
        r == reader_of(value@),
{
    if name_is(value, "tag") || name_is(value, "t") {
        Some(0)
    } else if name_is(value, "lopdf") || name_is(value, "l") {
        Some(1)
    } else {
        None
    }
}

/// Reads the value of `-mode`.
pub fn parse_verbose(value: &String) -> (r: Option<Verbose>)
    ensures
        r == mode_of(value@),
{
    if name_is(value, "full") || name_is(value, "f") {
        Some(Verbose::Full)
    } else if name_is(value, "light") || name_is(value, "l") {
        Some(Verbose::Light)
    } else if name_is(value, "default") || name_is(value, "d") {
        Some(Verbose::Default)
    } else {
        None
    }
}

/// Reads the arguments of the command line. Gives the data with which a run
/// starts: the path, the options, no documents and counts of zero.
pub fn parse_args(args: &Vec<String>) -> (r: Result<PdfData, ArgsIssue>)
    ensures
        match r {
            Ok(data) => spec_args(texts_of_args(args@)) == Ok::<(Seq<char>, Options), ArgsIssue>(
                (data.path@, data.options()),
            ) && data.pdfs.len() == 0 && data.read == 0 && data.fails == 0 && data.timeouts == 0
                && data.api_hits == 0,
            Err(e) => spec_args(texts_of_args(args@)) == Err::<(Seq<char>, Options), ArgsIssue>(
                e,
            ),
        },
{
    let ghost texts = texts_of_args(args@);
    if args.len() < 2 {
        return Err(ArgsIssue::NoPath);
    }
    proof {
        assert(texts[1] == args@[1]@);
    }
    if name_is(&args[1], "-help") || name_is(&args[1], "-h") {
        return Err(ArgsIssue::Help);
    }
    let mut pdf_data = PdfData {
        pdfs: Vec::new(),
        read: 0,
        fails: 0,
        reader: 0,
        output_filepath: String::from_str("output.json"),
        make_api_call: true,
        recursive: false,
        api_hits: 0,
        verbose: Verbose::Default,
        path: args[1].clone(),
        timeouts: 0,
    };
    let mut arg_it: usize = 2;
    while arg_it < args.len()
        invariant
            2 <= arg_it,
            texts == texts_of_args(args@),
            args.len() >= 2,
            !(texts[1] == "-help"@ || texts[1] == "-h"@),
            pdf_data.path@ == args@[1]@,
            pdf_data.pdfs.len() == 0 && pdf_data.read == 0 && pdf_data.fails == 0
                && pdf_data.timeouts == 0 && pdf_data.api_hits == 0,
            spec_options(texts, arg_it as int, pdf_data.options()) == spec_options(
                texts,
                2,
                default_options(),
            ),
        decreases args.len() + 1 - arg_it,
    {
        proof {
            assert(texts[arg_it as int] == args@[arg_it as int]@);
            if arg_it + 1 < args.len() {
                assert(texts[arg_it + 1] == args@[arg_it + 1]@);
            }
        }
        let arg: &String = &args[arg_it];
        let has_value: bool = args.len() - arg_it > 1;
        if name_is(arg, "-h") || name_is(arg, "-help") {
            return Err(ArgsIssue::Help);
        } else if name_is(arg, "-r") || name_is(arg, "-reader") {
            if !has_value {
                return Err(ArgsIssue::MissingValue(arg_it));
            }
            match parse_reader(&args[arg_it + 1]) {
                Some(reader) => {
                    pdf_data.reader = reader;
                },
                None => {
                    return Err(ArgsIssue::InvalidReader(arg_it + 1));
                },
            }
            arg_it += 1;
        } else if name_is(arg, "-nc") || name_is(arg, "-nocall") {
            pdf_data.make_api_call = false;
        } else if name_is(arg, "-o") || name_is(arg, "-output") {
            if !has_value {
                return Err(ArgsIssue::MissingValue(arg_it));
            }
            pdf_data.output_filepath = args[arg_it + 1].clone();
            arg_it += 1;
        } else if name_is(arg, "-m") || name_is(arg, "-mode") {
            if !has_value {
                return Err(ArgsIssue::MissingValue(arg_it));
            }
            match parse_verbose(&args[arg_it + 1]) {
                Some(verbose) => {
                    pdf_data.verbose = verbose;
                },
                None => {
                    return Err(ArgsIssue::InvalidMode(arg_it + 1));
                },
            }
            arg_it += 1;
        } else if name_is(arg, "-rec") || name_is(arg, "-recursive") {
            pdf_data.recursive = true;
        } else {
            return Err(ArgsIssue::Unknown(arg_it));
        }
        arg_it += 1;
    }
    Ok(pdf_data)
}

} // verus!
