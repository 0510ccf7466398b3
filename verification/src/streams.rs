//! The bytes of streams: filters and decoding parameters.

use crate::decoding::{inflate, png_decode, png_rows_are_up, png_up, zlib_inflate};
use crate::document::ObjectRef;
use crate::error::PdfError;
use crate::parser::{resolve_usize, spec_resolve, MAX_DEPTH};
use crate::pdf_object::{dict_value, lemma_value_of_object, name_is, names_of, PdfValue, PdfVar};
use crate::tokens::copy_range;
use vstd::prelude::*;

verus! {

/// The bytes after the filters from number `i` on have been applied to
/// `current`, one after the other. `FlateDecode` inflates; no other filter
/// is known.
pub open spec fn apply_filters(current: Seq<u8>, filters: Seq<Seq<char>>, i: int) -> Option<
    Seq<u8>,
>
    decreases filters.len() - i,
{
    if i < 0 || i >= filters.len() {
        Some(current)
    } else if filters[i] == "FlateDecode"@ {
        match zlib_inflate(current) {
            Some(out) => apply_filters(out, filters, i + 1),
            None => None,
        }
    } else {
        None
    }
}

/// The number under `key` in the decoding parameters, or `default` where
/// the key is missing or gives no number.
pub open spec fn parameter(
    data: Seq<u8>,
    xref: Seq<ObjectRef>,
    parms: PdfValue,
    key: Seq<char>,
    default: usize,
) -> usize {
    match dict_value(parms, key) {
        Some(v) => match spec_resolve(data, xref, v, MAX_DEPTH as nat) {
            Some(x) => x,
            None => default,
        },
        None => default,
    }
}

/// What the decoding parameters make of filtered bytes: with a predictor
/// from 10 to 15, the bytes with the "Up" predictor undone over rows of
/// `Columns` bytes; with any other predictor, an error.
pub open spec fn spec_decodeparms(
    stream: Seq<u8>,
    parms: PdfValue,
    data: Seq<u8>,
    xref: Seq<ObjectRef>,
) -> Result<Seq<u8>, PdfError> {
    let predictor = parameter(data, xref, parms, "Predictor"@, 1);
    let columns = parameter(data, xref, parms, "Columns"@, 1);
    if 10 <= predictor < 16 && png_rows_are_up(stream, columns as nat) {
        Ok(png_up(stream, columns as nat))
    } else {
        Err(PdfError::DecodeError)
    }
}

/// The names under `Filter`, or none where the entry is missing or holds
/// anything but names.
pub open spec fn filters_of(obj: PdfValue) -> Seq<Seq<char>> {
    match dict_value(obj, "Filter"@) {
        Some(f) => match names_of(f) {
            Some(names) => names,
            None => Seq::empty(),
        },
        None => Seq::empty(),
    }
}

/// The bytes of an object's stream after its filters and its decoding
/// parameters have been applied. Nothing where the value is no object with a
/// stream as its third part, the stream does not lie in the data, or a
/// filter or the predictor fails.
pub open spec fn spec_decoded_stream(data: Seq<u8>, xref: Seq<ObjectRef>, obj: PdfValue) -> Option<
    Seq<u8>,
> {
    match obj {
        PdfValue::Object { id, content } => if content.len() > 2 {
            match content[2] {
                PdfValue::Stream { start, size } => if start + size > data.len() {
                    None
                } else {
                    let raw = data.subrange(start as int, start + size);
                    match apply_filters(raw, filters_of(obj), 0) {
                        None => None,
                        Some(decoded) => match dict_value(obj, "DecodeParms"@) {
                            Some(parms) => match spec_decodeparms(decoded, parms, data, xref) {
                                Ok(out) => Some(out),
                                Err(_) => None,
                            },
                            None => Some(decoded),
                        },
                    }
                },
                _ => None,
            }
        } else {
            None
        },
        _ => None,
    }
}

/// A stream whose only filter is `FlateDecode`, and which has no decoding
/// parameters, decodes to what its bytes inflate to.
pub proof fn lemma_flate_stream(
    data: Seq<u8>,
    xref: Seq<ObjectRef>,
    id: usize,
    content: Seq<PdfValue>,
    start: usize,
    size: usize,
    out: Seq<u8>,
)
    requires
        content.len() > 2,
        content[2] == (PdfValue::Stream { start, size }),
        start + size <= data.len(),
        dict_value(PdfValue::Object { id, content }, "Filter"@) == Some(
            PdfValue::Name("FlateDecode"@),
        ),
        dict_value(PdfValue::Object { id, content }, "DecodeParms"@) is None,
        zlib_inflate(data.subrange(start as int, start + size)) == Some(out),
    ensures
        spec_decoded_stream(data, xref, PdfValue::Object { id, content }) == Some(out),
{
    let obj = PdfValue::Object { id, content };
    let raw = data.subrange(start as int, start + size);
    let filters = filters_of(obj);
    assert(filters == seq!["FlateDecode"@]);
    assert(apply_filters(out, filters, 1) == Some(out));
    assert(apply_filters(raw, filters, 0) == Some(out));
}

/// A stream whose only filter is `FlateDecode` and whose decoding
/// parameters give the predictor 12 and `columns` columns decodes to what
/// its bytes inflate to with the "Up" predictor undone, where every row is
/// an "Up" row. Where what was inflated is made of whole rows, with at most
/// one byte left over, the result is `columns / (columns + 1)` of its
/// length, rounded down.
pub proof fn lemma_predicted_stream(
    data: Seq<u8>,
    xref: Seq<ObjectRef>,
    id: usize,
    content: Seq<PdfValue>,
    start: usize,
    size: usize,
    parms: PdfValue,
    columns: usize,
    out: Seq<u8>,
)
    requires
        content.len() > 2,
        content[2] == (PdfValue::Stream { start, size }),
        start + size <= data.len(),
        dict_value(PdfValue::Object { id, content }, "Filter"@) == Some(
            PdfValue::Name("FlateDecode"@),
        ),
        dict_value(PdfValue::Object { id, content }, "DecodeParms"@) == Some(parms),
        dict_value(parms, "Predictor"@) == Some(PdfValue::Integer { value: 12, signed: false }),
        dict_value(parms, "Columns"@) == Some(
            PdfValue::Integer { value: columns as i64, signed: false },
        ),
        columns <= i64::MAX,
        zlib_inflate(data.subrange(start as int, start + size)) == Some(out),
        png_rows_are_up(out, columns as nat),
    ensures
        spec_decoded_stream(data, xref, PdfValue::Object { id, content }) == Some(
            png_up(out, columns as nat),
        ),
        out.len() % (columns as nat + 1) <= 1 ==> png_up(out, columns as nat).len() == (out.len()
            * columns) / (columns + 1),
{
    let obj = PdfValue::Object { id, content };
    let raw = data.subrange(start as int, start + size);
    let filters = filters_of(obj);
    assert(filters == seq!["FlateDecode"@]);
    assert(apply_filters(out, filters, 1) == Some(out));
    assert(apply_filters(raw, filters, 0) == Some(out));
    assert(parameter(data, xref, parms, "Predictor"@, 1) == 12);
    assert(parameter(data, xref, parms, "Columns"@, 1) == columns);
    if out.len() % (columns as nat + 1) <= 1 {
        crate::decoding::lemma_png_up_length(out, columns as nat);
    }
}

/// Reads a parameter of the decoding parameters.
fn read_parameter(
    data: &Vec<u8>,
    xref: &Vec<ObjectRef>,
    parms: &PdfVar,
    key: &str,
    default: usize,
) -> (r: usize)
    ensures
        r == parameter(data@, xref@, parms@, key@, default),
{
    match parms.get_dict_value(key) {
        Some(v) => match resolve_usize(data, xref, v, MAX_DEPTH) {
            Some(x) => x,
            None => default,
        },
        None => default,
    }
}

/// Applies the decoding parameters to filtered bytes.
pub fn apply_decodeparms(
    stream: Vec<u8>,
    decodeparms_obj: &PdfVar,
    data: &Vec<u8>,
    xref: &Vec<ObjectRef>,
) -> (r: Result<Vec<u8>, PdfError>)
    ensures
        match r {
            Ok(out) => spec_decodeparms(stream@, decodeparms_obj@, data@, xref@) == Ok::<
                Seq<u8>,
                PdfError,
            >(out@),
            Err(e) => spec_decodeparms(stream@, decodeparms_obj@, data@, xref@) == Err::<
                Seq<u8>,
                PdfError,
            >(e),
        },
{
    let predictor: usize = read_parameter(data, xref, decodeparms_obj, "Predictor", 1);
    let columns: usize = read_parameter(data, xref, decodeparms_obj, "Columns", 1);
    if 10 <= predictor && predictor < 16 {
        return png_decode(&stream, predictor, columns);
    }
    Err(PdfError::DecodeError)
}

/// Applies the filters to the raw bytes of a stream.
pub fn run_filters(raw: Vec<u8>, filters: &Vec<String>) -> (r: Option<Vec<u8>>)
    ensures
        match r {
            Some(out) => apply_filters(raw@, names_of_list(filters@), 0) == Some(out@),
            None => apply_filters(raw@, names_of_list(filters@), 0) is None,
        },
{
    let ghost names = names_of_list(filters@);
    let mut decoded: Vec<u8> = raw;
    let mut i: usize = 0;
    while i < filters.len()
        invariant
            i <= filters.len(),
            names == names_of_list(filters@),
            apply_filters(decoded@, names, i as int) == apply_filters(raw@, names, 0),
        decreases filters.len() - i,
    {
        proof {
            assert(names[i as int] == filters[i as int]@);
        }
        if name_is(&filters[i], "FlateDecode") {
            match inflate(&decoded) {
                Some(out) => {
                    decoded = out;
                },
                None => {
                    return None;
                },
            }
        } else {
            return None;
        }
        i += 1;
    }
    Some(decoded)
}

/// The texts of a list of names.
pub open spec fn names_of_list(names: Seq<String>) -> Seq<Seq<char>> {
    Seq::new(names.len(), |i: int| names[i]@)
}

/// The bytes of an object's stream, decoded.
pub fn decoded_stream(data: &Vec<u8>, xref: &Vec<ObjectRef>, obj: &PdfVar) -> (r: Option<Vec<u8>>)
    ensures
        match r {
            Some(out) => spec_decoded_stream(data@, xref@, obj@) == Some(out@),
            None => spec_decoded_stream(data@, xref@, obj@) is None,
        },
{
    let (start, size): (usize, usize) = match obj {
        PdfVar::Object { _id, content } => {
            proof {
                lemma_value_of_object(*_id, *content);
            }
            if content.len() <= 2 {
                return None;
            }
            match &content[2] {
                PdfVar::Stream { start, size } => (*start, *size),
                _ => {
                    return None;
                },
            }
        },
        _ => {
            return None;
        },
    };
    if start > data.len() || size > data.len() - start {
        return None;
    }
    let raw: Vec<u8> = copy_range(data, start, start + size);
    let mut filters: Vec<String> = Vec::new();
    match obj.get_dict_value("Filter") {
        Some(filter_obj) => {
            match filter_obj.get_names() {
                Some(fname) => {
                    filters = fname;
                },
                None => {},
            }
        },
        None => {},
    }
    proof {
        assert(names_of_list(filters@) =~= filters_of(obj@));
    }
    let decoded: Vec<u8> = match run_filters(raw, &filters) {
        Some(d) => d,
        None => {
            return None;
        },
    };
    match obj.get_dict_value("DecodeParms") {
        Some(decodeparms_obj) => {
            match apply_decodeparms(decoded, decodeparms_obj, data, xref) {
                Ok(vec) => Some(vec),
                Err(_) => None,
            }
        },
        None => Some(decoded),
    }
}

} // verus!
