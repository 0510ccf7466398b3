//! What is known of a document: its titles and its authors.

use crate::content::spec_text_from_page;
use crate::decoding::{chars_of_str, string_from_chars};
use crate::document::Document;
use crate::objects::{spec_get_object, MAX_UNPACK};
use crate::reader::{only_grew, text_under};
use crate::streams::names_of_list;
use crate::title::{get_probable_title_with, title_of_runs};
use crate::words::{copy_chars, trim_chars, trimmed};
use vstd::prelude::*;

pub use crate::title::{contains_journal, get_probable_title, is_accepted_title};

verus! {

/// What is known of one document: where it lies, the title that its
/// information dictionary gives, the title that its first page suggests,
/// and its authors.
#[derive(Debug, PartialEq)]
pub struct PDFStruct {
    pub path: String,
    pub metadata_title: String,
    pub assumed_title: String,
    pub author: Vec<String>,
}

/// Where the last part of a path starts: after the last `/` or `\` before
/// `j`, or at the start.
pub open spec fn name_start(s: Seq<char>, j: int) -> int
    decreases j,
{
    if j <= 0 || j > s.len() {
        0
    } else if s[j - 1] == '/' || s[j - 1] == '\\' {
        j
    } else {
        name_start(s, j - 1)
    }
}

/// The last part of a path: what follows its last `/` or `\`.
pub open spec fn file_name(s: Seq<char>) -> Seq<char> {
    s.subrange(name_start(s, s.len() as int), s.len() as int)
}

/// The last part of a path starts within the path.
proof fn lemma_name_start(s: Seq<char>, j: int)
    requires
        0 <= j <= s.len(),
    ensures
        0 <= name_start(s, j) <= j,
    decreases j,
{
    if j > 0 && !(s[j - 1] == '/' || s[j - 1] == '\\') {
        lemma_name_start(s, j - 1);
    }
}

/// Gives the last part of a path, the name of the file.
pub fn split_name(filepath: &str) -> (r: Option<String>)
    ensures
        r is Some,
        r->0@ == file_name(filepath@),
{
    let chars: Vec<char> = chars_of_str(filepath);
    let n: usize = chars.len();
    let mut j: usize = n;
    proof {
        lemma_name_start(chars@, n as int);
    }
    while j > 0 && chars[j - 1] != '/' && chars[j - 1] != '\\'
        invariant
            n == chars.len(),
            j <= n,
            name_start(chars@, j as int) == name_start(chars@, n as int),
        decreases j,
    {
        j -= 1;
    }
    let name: Vec<char> = copy_chars(&chars, j, n);
    Some(string_from_chars(&name))
}

/// What `regex::Regex::split` gives for a pattern and a text: the parts of
/// the text that no match of the pattern covers, in their order, as the
/// crate cuts them; nothing, where the crate does not take the pattern.
pub uninterp spec fn regex_pieces(pattern: Seq<char>, input: Seq<char>) -> Seq<Seq<char>>;

/// `regex::Regex::new` on the pattern, then `regex::Regex::split` on the
/// text: the parts of the text between the matches. Nothing is claimed of
/// where the matches are.
#[verifier::external_body]
fn regex_split(pattern: &str, input: &str) -> (r: Vec<String>)
    ensures
        names_of_list(r@) == regex_pieces(pattern@, input@),
{
    match regex::Regex::new(pattern) {
        Ok(re) => re.split(input).map(|s| s.to_string()).collect(),
        Err(_) => Vec::new(),
    }
}

/// The pattern of the separators of a list of authors: a comma, a
/// semicolon, the word `and`, or an ampersand.
pub open spec fn author_separators() -> Seq<char> {
    ",|;|\\band\\b|&"@
}

/// The pieces into which the separators of a list of authors cut a text.
pub open spec fn author_pieces(input: Seq<char>) -> Seq<Seq<char>> {
    regex_pieces(author_separators(), input)
}

/// The names among the pieces: each piece without the white space at its
/// ends, where anything is left of it.
pub open spec fn names_among(pieces: Seq<Seq<char>>) -> Seq<Seq<char>>
    decreases pieces.len(),
{
    if pieces.len() == 0 {
        Seq::empty()
    } else {
        let head = names_among(pieces.drop_last());
        if trimmed(pieces.last()).len() > 0 {
            head.push(trimmed(pieces.last()))
        } else {
            head
        }
    }
}

/// Takes the names out of the pieces of a list of authors.
pub fn collect_names(pieces: &Vec<String>) -> (r: Vec<String>)
    ensures
        names_of_list(r@) == names_among(names_of_list(pieces@)),
{
    let ghost all = names_of_list(pieces@);
    let mut names: Vec<String> = Vec::new();
    let mut i: usize = 0;
    proof {
        assert(names_of_list(names@) =~= names_among(all.take(0)));
    }
    while i < pieces.len()
        invariant
            i <= pieces.len(),
            all == names_of_list(pieces@),
            names_of_list(names@) == names_among(all.take(i as int)),
        decreases pieces.len() - i,
    {
        proof {
            assert(all.take(i + 1).drop_last() =~= all.take(i as int));
            assert(all.take(i + 1).last() == pieces@[i as int]@);
        }
        let chars: Vec<char> = chars_of_str(pieces[i].as_str());
        let kept: Vec<char> = trim_chars(&chars);
        if kept.len() > 0 {
            let name: String = string_from_chars(&kept);
            proof {
                assert(names_of_list(names@.push(name)) =~= names_of_list(names@).push(name@));
            }
            names.push(name);
        }
        i += 1;
    }
    proof {
        assert(all.take(pieces.len() as int) =~= all);
    }
    names
}

/// Splits a list of authors into the names of the authors.
pub fn split_authors(input: &str) -> (r: Vec<String>)
    ensures
        names_of_list(r@) == names_among(author_pieces(input@)),
{
    let pieces: Vec<String> = regex_split(",|;|\\band\\b|&", input);
    collect_names(&pieces)
}

/// What decoding bytes as windows-1252 gives, after a byte-order mark, if
/// the bytes start with one, has chosen another encoding.
pub uninterp spec fn windows_1252(bytes: Seq<u8>) -> Seq<char>;

/// The longest input that is decoded.
pub const MAX_DECODE: usize = 536870911;

/// `encoding_rs::WINDOWS_1252.decode`: the text that the bytes decode to.
/// The crate fails where the size of its buffer, which it reckons from three
/// times the length of the input, overflows; the bound keeps clear of that.
#[verifier::external_body]
fn decode_windows_1252(bytes: &[u8]) -> (r: String)
    requires
        bytes.len() <= MAX_DECODE,
    ensures
        r@ == windows_1252(bytes@),
{
    let (cow, _, _) = encoding_rs::WINDOWS_1252.decode(bytes);
    cow.into_owned()
}

/// The text that stands for a value that is not there.
pub open spec fn not_available() -> Seq<char> {
    "N/A"@
}

/// What `decode_bytes` gives for a decoded text.
pub open spec fn text_or_not_available(text: Seq<char>) -> Seq<char> {
    if trimmed(text).len() == 0 {
        not_available()
    } else {
        text
    }
}

/// Gives the decoded text, or `N/A` where it holds nothing but white space.
pub fn present_text(text: String) -> (r: String)
    ensures
        r@ == text_or_not_available(text@),
{
    let chars: Vec<char> = chars_of_str(text.as_str());
    if trim_chars(&chars).len() == 0 {
        String::from_str("N/A")
    } else {
        text
    }
}

/// Decodes bytes as windows-1252. Gives `N/A` where the text holds nothing
/// but white space, or the input is longer than `MAX_DECODE`.
pub fn decode_bytes(bytes: &[u8]) -> (r: String)
    ensures
        r@ == (if bytes.len() <= MAX_DECODE {
            text_or_not_available(windows_1252(bytes@))
        } else {
            not_available()
        }),
{
    if bytes.len() > MAX_DECODE {
        return String::from_str("N/A");
    }
    present_text(decode_windows_1252(bytes))
}

/// The text under `key` of the information dictionary, or the empty text.
pub open spec fn info_or_empty(found: crate::objects::Found, key: Seq<char>) -> Seq<char> {
    match found.object {
        Some(obj) => match text_under(obj, key) {
            Some(text) => text,
            None => Seq::empty(),
        },
        None => Seq::empty(),
    }
}

/// What is known of a document, and the data and table after it was
/// gathered: the title that the information dictionary gives, the probable
/// title of the first page, and the names in the information dictionary's
/// list of authors. What is missing is empty.
pub struct Gathered {
    pub metadata_title: Seq<char>,
    pub assumed_title: Seq<char>,
    pub author: Seq<Seq<char>>,
    pub store: crate::objects::Store,
}

/// Gathering what is known of a document.
pub open spec fn spec_metadata(
    store: crate::objects::Store,
    info: usize,
    root: usize,
    journals: Seq<Seq<char>>,
) -> Gathered {
    let title = spec_get_object(store, info, MAX_UNPACK as nat);
    let page = spec_text_from_page(title.store, root, 0);
    let author = spec_get_object(page.store, info, MAX_UNPACK as nat);
    Gathered {
        metadata_title: info_or_empty(title, "Title"@),
        assumed_title: title_of_runs(page.runs, journals),
        author: match author.object {
            Some(obj) => match text_under(obj, "Author"@) {
                Some(text) => names_among(author_pieces(text)),
                None => Seq::empty(),
            },
            None => Seq::empty(),
        },
        store: author.store,
    }
}

impl PDFStruct {
    /// What the record holds, with the data and table given.
    pub open spec fn gathered(&self, store: crate::objects::Store) -> Gathered {
        Gathered {
            metadata_title: self.metadata_title@,
            assumed_title: self.assumed_title@,
            author: names_of_list(self.author@),
            store,
        }
    }
}

/// Gathers what is known of a document, where the names of journals are no
/// titles.
pub fn extract_metadata_with(pdf: &mut Document, filepath: &str, journals: &Vec<String>) -> (r:
    PDFStruct)
    ensures
        r.gathered(final(pdf).store()) == spec_metadata(
            old(pdf).store(),
            old(pdf).trailer.info,
            old(pdf).trailer.root,
            names_of_list(journals@),
        ),
        r.path@ == filepath@,
        only_grew(old(pdf), final(pdf)),
{
    let meta_title: String = match pdf.get_info("Title") {
        Some(title) => title,
        None => String::new(),
    };
    let assumed_title: String = get_probable_title_with(pdf, journals);
    let meta_authors: Vec<String> = match pdf.get_info("Author") {
        Some(authors) => split_authors(authors.as_str()),
        None => {
            let none: Vec<String> = Vec::new();
            proof {
                assert(names_of_list(none@) =~= Seq::empty());
            }
            none
        },
    };
    PDFStruct {
        path: String::from_str(filepath),
        metadata_title: meta_title,
        assumed_title,
        author: meta_authors,
    }
}

/// Gathers what is known of a document: the title of its information
/// dictionary, the probable title of its first page, and its authors.
pub fn extract_metadata(pdf: &mut Document, filepath: &str) -> (r: PDFStruct)
    ensures
        r.gathered(final(pdf).store()) == spec_metadata(
            old(pdf).store(),
            old(pdf).trailer.info,
            old(pdf).trailer.root,
            Seq::empty(),
        ),
        r.path@ == filepath@,
        only_grew(old(pdf), final(pdf)),
{
    let journals: Vec<String> = Vec::new();
    proof {
        assert(names_of_list(journals@) =~= Seq::empty());
    }
    extract_metadata_with(pdf, filepath, &journals)
}

} // verus!
