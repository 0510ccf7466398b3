//! A document and its cross-reference sections: tables with their trailers,
//! streams, and the chain of older sections.

use crate::cursor::{has_tag, is_digit, is_digit_byte, next_line_from, next_line_start, skip_ws};
use crate::decoding::{be_value, checked_256_repr};
use crate::parser::{parse_object_items, parse_token, spec_object, spec_value, MAX_DEPTH};
use crate::pdf_object::{
    dict_value, index_of, indices_of, lemma_value_of_object, values_of, PdfValue, PdfVar,
};
use crate::streams::{decoded_stream, spec_decoded_stream};
use crate::tags::{at_pdf, at_trailer, tag_pdf, tag_trailer};
use crate::tokens::Parsed;
use crate::xref::{
    grow_table, grown, keeps_known, lemma_keeps_known_chain, lemma_merge_keeps_known,
    locate_start_xref, missing_entry, read_xref_table, spec_start_xref, spec_start_xref_end,
    spec_xref_table,
};
use vstd::prelude::*;
use vstd::slice::slice_subrange;

pub use crate::cursor::skip_whitespace;
pub use crate::error::PdfError;
pub use crate::reader::{get_page_ids, read_one_pdf, unpack_obj_stm};

verus! {

/// What the trailer names: the objects that hold the document information and
/// the catalogue, the number of entries, and the encryption dictionary. Zero
/// stands for a key that the trailer does not have.
#[derive(Debug, Clone, Copy, PartialEq, Eq)]
pub struct Trailer {
    pub info: usize,
    pub root: usize,
    pub size: usize,
    pub encrypt: usize,
}

/// One entry of the cross-reference table.
///
/// `compressed` is the entry's kind: 0 free, 1 an object that stands in the
/// data at offset `xref`, 2 an object inside the object stream whose number
/// is `xref`, 3 an entry that no section has filled yet.
#[derive(Debug, Clone, Copy, PartialEq, Eq)]
pub struct ObjectRef {
    pub compressed: u8,
    pub xref: usize,
    pub _version: usize,
}

/// A document: its bytes, a read position in them, the cross-reference table,
/// the trailer, and the offsets of the cross-reference sections that were
/// read, newest first.
#[derive(Debug)]
pub struct Document {
    pub xref: Vec<ObjectRef>,
    pub trailer: Trailer,
    pub data: Vec<u8>,
    pub it: usize,
    pub sections: Vec<usize>,
}

/// How many cross-reference sections one document may chain.
pub const MAX_SECTIONS: usize = 64;

/// What reading cross-reference sections builds up: the table, the trailer,
/// and the offsets of the sections that were read.
pub struct XrefState {
    pub xref: Seq<ObjectRef>,
    pub trailer: Trailer,
    pub sections: Seq<usize>,
}

/// The number under `key`, or zero where the key is missing or gives no
/// number.
pub open spec fn key_index(dict: PdfValue, key: Seq<char>) -> usize {
    match dict_value(dict, key) {
        Some(v) => match index_of(v) {
            Some(x) => x,
            None => 0,
        },
        None => 0,
    }
}

/// The trailer that a trailer dictionary, or the dictionary of a
/// cross-reference stream, gives.
pub open spec fn spec_trailer_of(dict: PdfValue) -> Trailer {
    Trailer {
        info: key_index(dict, "Info"@),
        root: key_index(dict, "Root"@),
        size: key_index(dict, "Size"@),
        encrypt: key_index(dict, "Encrypt"@),
    }
}

/// The number that `width` bytes of the decoded stream write from `from` on.
pub open spec fn field_value(decoded: Seq<u8>, from: int, width: int) -> Option<usize> {
    let v = be_value(decoded.subrange(from, from + width));
    if v <= usize::MAX {
        Some(v as usize)
    } else {
        None
    }
}

/// The rows of a cross-reference stream for `count` objects from number `i`
/// on. Each row holds the kind, the offset or the number of the containing
/// object stream, and the generation or the index in that stream. A row for
/// an object that the table knows already is passed over.
pub open spec fn spec_stream_rows(
    decoded: Seq<u8>,
    w0: int,
    w1: int,
    w2: int,
    pos: int,
    xref: Seq<ObjectRef>,
    i: int,
    count: nat,
) -> Option<(int, Seq<ObjectRef>)>
    decreases count,
{
    if count == 0 {
        Some((pos, xref))
    } else if i < 0 || i >= xref.len() || pos + w0 + w1 + w2 > decoded.len() {
        None
    } else if xref[i].compressed != 3 {
        spec_stream_rows(decoded, w0, w1, w2, pos + w0 + w1 + w2, xref, i + 1, (count - 1) as nat)
    } else {
        match (
            field_value(decoded, pos, w0),
            field_value(decoded, pos + w0, w1),
            field_value(decoded, pos + w0 + w1, w2),
        ) {
            (Some(kind), Some(location), Some(generation)) => spec_stream_rows(
                decoded,
                w0,
                w1,
                w2,
                pos + w0 + w1 + w2,
                xref.update(
                    i,
                    ObjectRef {
                        compressed: (kind % 256) as u8,
                        xref: location,
                        _version: generation,
                    },
                ),
                i + 1,
                (count - 1) as nat,
            ),
            _ => None,
        }
    }
}

/// The sections of a cross-reference stream: for each pair of `Index` from
/// number `iw` on, the rows of that many objects.
pub open spec fn spec_stream_sections(
    decoded: Seq<u8>,
    w0: int,
    w1: int,
    w2: int,
    index: Seq<usize>,
    iw: int,
    pos: int,
    xref: Seq<ObjectRef>,
) -> Option<Seq<ObjectRef>>
    decreases index.len() - iw,
{
    if iw < 0 || iw + 1 >= index.len() {
        Some(xref)
    } else {
        match spec_stream_rows(
            decoded,
            w0,
            w1,
            w2,
            pos,
            xref,
            index[iw] as int,
            index[iw + 1] as nat,
        ) {
            None => None,
            Some((next, filled)) => spec_stream_sections(
                decoded,
                w0,
                w1,
                w2,
                index,
                iw + 2,
                next,
                filled,
            ),
        }
    }
}

/// The table after a cross-reference stream has been merged into it. The
/// stream's dictionary must give three field widths under `W` and the number
/// of objects under `Size`; `Index` gives the sections, one section of all
/// objects where it is missing.
pub open spec fn spec_stream_table(data: Seq<u8>, xref: Seq<ObjectRef>, obj: PdfValue) -> Option<
    Seq<ObjectRef>,
> {
    match (
        spec_decoded_stream(data, xref, obj),
        dict_value(obj, "W"@),
        dict_value(obj, "Size"@),
    ) {
        (Some(decoded), Some(wv), Some(sv)) => match (indices_of(wv), index_of(sv)) {
            (Some(w), Some(size)) => {
                let index = match dict_value(obj, "Index"@) {
                    Some(iv) => indices_of(iv),
                    None => Some(seq![0usize, size]),
                };
                if index is Some && w.len() == 3 && index->0.len() % 2 == 0 {
                    spec_stream_sections(
                        decoded,
                        w[0] as int,
                        w[1] as int,
                        w[2] as int,
                        index->0,
                        0,
                        0,
                        grown(xref, size as int),
                    )
                } else {
                    None
                }
            },
            _ => None,
        },
        _ => None,
    }
}

/// Reading the cross-reference section at `start`, and the older sections
/// that it names under `Prev`, into the state. A section is a table with a
/// trailer, or a stream object. No offset is read twice, and no more than
/// `fuel` sections are chained. With `createtrailer`, the section's
/// dictionary gives the trailer.
pub open spec fn spec_parse_xref(
    data: Seq<u8>,
    st: XrefState,
    start: int,
    createtrailer: bool,
    fuel: nat,
) -> Result<XrefState, PdfError>
    decreases fuel, 1int,
{
    if fuel == 0 || start < 0 || start >= data.len() || st.sections.contains(start as usize) {
        Err(PdfError::XrefError)
    } else {
        let st1 = XrefState { sections: st.sections.push(start as usize), ..st };
        if is_digit(data[start]) {
            match spec_object(data, st1.xref, start, MAX_DEPTH as nat) {
                Err(e) => Err(e),
                Ok(obj) => match spec_xref_object(data, st1, obj, fuel) {
                    Err(e) => Err(e),
                    Ok(st2) => Ok(
                        if createtrailer {
                            XrefState { trailer: spec_trailer_of(obj), ..st2 }
                        } else {
                            st2
                        },
                    ),
                },
            }
        } else if data[start] == 120 {
            match spec_xref_table(data, start, st1.xref) {
                None => Err(PdfError::XrefError),
                Some((end, filled)) => spec_table_trailer(
                    data,
                    XrefState { xref: filled, ..st1 },
                    end,
                    createtrailer,
                    fuel,
                ),
            }
        } else {
            Err(PdfError::XrefError)
        }
    }
}

/// Merging a cross-reference stream into the state, then reading the section
/// that it names under `Prev`, if it names one.
pub open spec fn spec_xref_object(
    data: Seq<u8>,
    st: XrefState,
    obj: PdfValue,
    fuel: nat,
) -> Result<XrefState, PdfError>
    decreases fuel, 0int,
{
    match spec_stream_table(data, st.xref, obj) {
        None => Err(PdfError::XrefError),
        Some(filled) => {
            let st2 = XrefState { xref: filled, ..st };
            match dict_value(obj, "Prev"@) {
                Some(pv) => match index_of(pv) {
                    Some(prev) => if fuel > 0 {
                        spec_parse_xref(data, st2, prev as int, false, (fuel - 1) as nat)
                    } else {
                        Err(PdfError::XrefError)
                    },
                    None => Ok(st2),
                },
                None => Ok(st2),
            }
        },
    }
}

/// Reading the trailer that follows a table at `pos`: the keyword, one
/// dictionary, and the section that the dictionary names under `Prev`, if it
/// names one.
pub open spec fn spec_table_trailer(
    data: Seq<u8>,
    st: XrefState,
    pos: int,
    createtrailer: bool,
    fuel: nat,
) -> Result<XrefState, PdfError>
    decreases fuel, 0int,
{
    let p = skip_ws(data, pos);
    if !has_tag(data, p, tag_trailer()) {
        Err(PdfError::XrefError)
    } else {
        match spec_value(data, st.xref, p + 7, Seq::empty(), MAX_DEPTH as nat) {
            Parsed::Failed { error, pos: at } => Err(error),
            Parsed::Done { pos: end, stack } => if stack.len() != 1 {
                Err(PdfError::XrefError)
            } else {
                let after = match dict_value(stack[0], "Prev"@) {
                    Some(pv) => match index_of(pv) {
                        Some(prev) => if fuel > 0 {
                            spec_parse_xref(data, st, prev as int, false, (fuel - 1) as nat)
                        } else {
                            Err(PdfError::XrefError)
                        },
                        None => Err(PdfError::XrefError),
                    },
                    None => Ok(st),
                };
                match after {
                    Err(e) => Err(e),
                    Ok(st2) => Ok(
                        if createtrailer {
                            XrefState { trailer: spec_trailer_of(stack[0]), ..st2 }
                        } else {
                            st2
                        },
                    ),
                }
            },
        }
    }
}

/// The rows of a cross-reference stream replace no entry that the table
/// knows.
pub proof fn lemma_stream_rows_keep_known(
    decoded: Seq<u8>,
    w0: int,
    w1: int,
    w2: int,
    pos: int,
    xref: Seq<ObjectRef>,
    i: int,
    count: nat,
)
    ensures
        match spec_stream_rows(decoded, w0, w1, w2, pos, xref, i, count) {
            Some((end, filled)) => keeps_known(xref, filled),
            None => true,
        },
    decreases count,
{
    if count > 0 && !(i < 0 || i >= xref.len() || pos + w0 + w1 + w2 > decoded.len()) {
        let step = pos + w0 + w1 + w2;
        if xref[i].compressed != 3 {
            lemma_stream_rows_keep_known(decoded, w0, w1, w2, step, xref, i + 1, (count - 1) as nat);
        } else {
            match (
                field_value(decoded, pos, w0),
                field_value(decoded, pos + w0, w1),
                field_value(decoded, pos + w0 + w1, w2),
            ) {
                (Some(kind), Some(location), Some(generation)) => {
                    let next = xref.update(
                        i,
                        ObjectRef {
                            compressed: (kind % 256) as u8,
                            xref: location,
                            _version: generation,
                        },
                    );
                    lemma_stream_rows_keep_known(
                        decoded,
                        w0,
                        w1,
                        w2,
                        step,
                        next,
                        i + 1,
                        (count - 1) as nat,
                    );
                    match spec_stream_rows(decoded, w0, w1, w2, step, next, i + 1, (count - 1) as nat) {
                        Some((e, filled)) => {
                            assert(keeps_known(xref, next));
                            lemma_keeps_known_chain(xref, next, filled);
                        },
                        None => {},
                    }
                },
                _ => {},
            }
        }
    }
}

/// The sections of a cross-reference stream replace no entry that the table
/// knows.
pub proof fn lemma_stream_sections_keep_known(
    decoded: Seq<u8>,
    w0: int,
    w1: int,
    w2: int,
    index: Seq<usize>,
    iw: int,
    pos: int,
    xref: Seq<ObjectRef>,
)
    ensures
        match spec_stream_sections(decoded, w0, w1, w2, index, iw, pos, xref) {
            Some(filled) => keeps_known(xref, filled),
            None => true,
        },
    decreases index.len() - iw,
{
    if !(iw < 0 || iw + 1 >= index.len()) {
        lemma_stream_rows_keep_known(
            decoded,
            w0,
            w1,
            w2,
            pos,
            xref,
            index[iw] as int,
            index[iw + 1] as nat,
        );
        match spec_stream_rows(
            decoded,
            w0,
            w1,
            w2,
            pos,
            xref,
            index[iw] as int,
            index[iw + 1] as nat,
        ) {
            None => {},
            Some((next, filled)) => {
                lemma_stream_sections_keep_known(decoded, w0, w1, w2, index, iw + 2, next, filled);
                match spec_stream_sections(decoded, w0, w1, w2, index, iw + 2, next, filled) {
                    Some(last) => {
                        lemma_keeps_known_chain(xref, filled, last);
                    },
                    None => {},
                }
            },
        }
    }
}

/// A cross-reference stream replaces no entry that the table knows.
pub proof fn lemma_stream_table_keeps_known(data: Seq<u8>, xref: Seq<ObjectRef>, obj: PdfValue)
    ensures
        match spec_stream_table(data, xref, obj) {
            Some(filled) => keeps_known(xref, filled),
            None => true,
        },
{
    match spec_stream_table(data, xref, obj) {
        Some(filled) => {
            let decoded = spec_decoded_stream(data, xref, obj)->0;
            let w = indices_of(dict_value(obj, "W"@)->0)->0;
            let size = index_of(dict_value(obj, "Size"@)->0)->0;
            let index = match dict_value(obj, "Index"@) {
                Some(iv) => indices_of(iv),
                None => Some(seq![0usize, size]),
            };
            let wide = grown(xref, size as int);
            lemma_stream_sections_keep_known(
                decoded,
                w[0] as int,
                w[1] as int,
                w[2] as int,
                index->0,
                0,
                0,
                wide,
            );
            lemma_merge_keeps_known(xref, size as int, 0, missing_entry());
            lemma_keeps_known_chain(xref, wide, filled);
        },
        None => {},
    }
}

/// Reading a chain of cross-reference sections replaces no entry that the
/// table knows: what a newer section said of an object stays when the older
/// sections are read.
pub proof fn lemma_chain_keeps_known(
    data: Seq<u8>,
    st: XrefState,
    start: int,
    createtrailer: bool,
    fuel: nat,
)
    ensures
        match spec_parse_xref(data, st, start, createtrailer, fuel) {
            Ok(done) => keeps_known(st.xref, done.xref),
            Err(_) => true,
        },
    decreases fuel, 1int,
{
    if !(fuel == 0 || start < 0 || start >= data.len() || st.sections.contains(start as usize)) {
        let st1 = XrefState { sections: st.sections.push(start as usize), ..st };
        if is_digit(data[start]) {
            match spec_object(data, st1.xref, start, MAX_DEPTH as nat) {
                Err(e) => {},
                Ok(obj) => {
                    lemma_object_keeps_known(data, st1, obj, fuel);
                },
            }
        } else if data[start] == 120 {
            match spec_xref_table(data, start, st1.xref) {
                None => {},
                Some((end, filled)) => {
                    crate::xref::lemma_sections_keep_known(
                        data,
                        skip_ws(data, start + 4),
                        st1.xref,
                    );
                    let st2 = XrefState { xref: filled, ..st1 };
                    lemma_trailer_keeps_known(data, st2, end, createtrailer, fuel);
                    match spec_table_trailer(data, st2, end, createtrailer, fuel) {
                        Ok(done) => {
                            lemma_keeps_known_chain(st.xref, filled, done.xref);
                        },
                        Err(_) => {},
                    }
                },
            }
        }
    }
}

/// See `lemma_chain_keeps_known`.
pub proof fn lemma_object_keeps_known(data: Seq<u8>, st: XrefState, obj: PdfValue, fuel: nat)
    ensures
        match spec_xref_object(data, st, obj, fuel) {
            Ok(done) => keeps_known(st.xref, done.xref),
            Err(_) => true,
        },
    decreases fuel, 0int,
{
    lemma_stream_table_keeps_known(data, st.xref, obj);
    match spec_stream_table(data, st.xref, obj) {
        None => {},
        Some(filled) => {
            let st2 = XrefState { xref: filled, ..st };
            match dict_value(obj, "Prev"@) {
                Some(pv) => match index_of(pv) {
                    Some(prev) => if fuel > 0 {
                        lemma_chain_keeps_known(data, st2, prev as int, false, (fuel - 1) as nat);
                        match spec_parse_xref(data, st2, prev as int, false, (fuel - 1) as nat) {
                            Ok(done) => {
                                lemma_keeps_known_chain(st.xref, filled, done.xref);
                            },
                            Err(_) => {},
                        }
                    },
                    None => {},
                },
                None => {},
            }
        },
    }
}

/// See `lemma_chain_keeps_known`.
pub proof fn lemma_trailer_keeps_known(
    data: Seq<u8>,
    st: XrefState,
    pos: int,
    createtrailer: bool,
    fuel: nat,
)
    ensures
        match spec_table_trailer(data, st, pos, createtrailer, fuel) {
            Ok(done) => keeps_known(st.xref, done.xref),
            Err(_) => true,
        },
    decreases fuel, 0int,
{
    let p = skip_ws(data, pos);
    if has_tag(data, p, tag_trailer()) {
        match spec_value(data, st.xref, p + 7, Seq::empty(), MAX_DEPTH as nat) {
            Parsed::Failed { error, pos: at } => {},
            Parsed::Done { pos: end, stack } => if stack.len() == 1 {
                match dict_value(stack[0], "Prev"@) {
                    Some(pv) => match index_of(pv) {
                        Some(prev) => if fuel > 0 {
                            lemma_chain_keeps_known(data, st, prev as int, false, (fuel - 1) as nat);
                        },
                        None => {},
                    },
                    None => {},
                }
            },
        }
    }
}

/// The state before any section is read.
pub open spec fn empty_state() -> XrefState {
    XrefState {
        xref: Seq::empty(),
        trailer: Trailer { info: 0, root: 0, size: 0, encrypt: 0 },
        sections: Seq::empty(),
    }
}

/// What loading a document comes to: the data must start with `%PDF`, hold
/// `startxref` near its end, and the cross-reference sections must read.
pub open spec fn spec_load(data: Seq<u8>) -> Result<XrefState, PdfError> {
    if !has_tag(data, 0, tag_pdf()) {
        Err(PdfError::LoadError)
    } else {
        match spec_start_xref(data) {
            None => Err(PdfError::XrefError),
            Some(start) => spec_parse_xref(
                data,
                empty_state(),
                start as int,
                true,
                MAX_SECTIONS as nat,
            ),
        }
    }
}

impl Document {
    /// The state of the cross-reference structure.
    pub open spec fn state(&self) -> XrefState {
        XrefState { xref: self.xref@, trailer: self.trailer, sections: self.sections@ }
    }

    /// The number of bytes that the document holds.
    pub fn size(&self) -> (r: usize)
        ensures
            r == self.data.len(),
    {
        self.data.len()
    }

    /// The byte at the read position.
    pub fn byte(&self) -> (r: u8)
        requires
            self.it < self.data.len(),
        ensures
            r == self.data[self.it as int],
    {
        self.data[self.it]
    }

    /// Moves the read position to the first byte that is no white space.
    pub fn skip_whitespace(&mut self)
        ensures
            final(self).it == skip_ws(old(self).data@, old(self).it as int),
            final(self).data == old(self).data,
            final(self).xref == old(self).xref,
            final(self).trailer == old(self).trailer,
            final(self).sections == old(self).sections,
    {
        self.it = skip_whitespace(&self.data, self.it);
    }

    /// Moves the read position to the first byte of the next line.
    pub fn next_line(&mut self)
        ensures
            final(self).it == next_line_start(old(self).data@, old(self).it as int),
            final(self).data == old(self).data,
            final(self).xref == old(self).xref,
            final(self).trailer == old(self).trailer,
            final(self).sections == old(self).sections,
    {
        self.it = next_line_from(&self.data, self.it);
    }

    /// Whether the trailer names an encryption dictionary.
    pub fn is_encrypted(&mut self) -> (r: bool)
        ensures
            r == (old(self).trailer.encrypt != 0),
            *final(self) == *old(self),
    {
        self.trailer.encrypt != 0
    }

    /// Loads a document from its bytes: checks the header, finds the newest
    /// cross-reference section and reads it with the sections before it.
    /// The read position stays behind the offset that follows `startxref`.
    pub fn from(data: Vec<u8>) -> (r: Result<Document, PdfError>)
        ensures
            match r {
                Ok(doc) => spec_load(data@) == Ok::<XrefState, PdfError>(doc.state()) && doc.data
                    == data && doc.it == spec_start_xref_end(data@)
                    && doc.sections@.no_duplicates(),
                Err(e) => spec_load(data@) == Err::<XrefState, PdfError>(e),
            },
    {
        let mut doc = Document {
            xref: Vec::new(),
            trailer: Trailer { info: 0, root: 0, size: 0, encrypt: 0 },
            data,
            it: 0,
            sections: Vec::new(),
        };
        proof {
            assert(doc.state() =~= empty_state());
        }
        parse_pdf_version(&mut doc)?;
        let startxref = read_start_xref(&mut doc)?;
        parse_xref(&mut doc, startxref, true)?;
        Ok(doc)
    }
}

/// Checks that the data starts with `%PDF`.
pub fn parse_pdf_version(doc: &mut Document) -> (r: Result<(), PdfError>)
    ensures
        *final(doc) == *old(doc),
        r == (if has_tag(old(doc).data@, 0, tag_pdf()) {
            Ok::<(), PdfError>(())
        } else {
            Err::<(), PdfError>(PdfError::LoadError)
        }),
{
    if !at_pdf(&doc.data, 0) {
        return Err(PdfError::LoadError);
    }
    Ok(())
}

/// Reads the offset of the newest cross-reference section, which follows
/// `startxref` near the end of the data, and leaves the read position behind
/// the digits of the offset. Where the keyword is not found, the read
/// position is where the search back from the end gave up.
pub fn read_start_xref(doc: &mut Document) -> (r: Result<usize, PdfError>)
    ensures
        final(doc).data == old(doc).data,
        final(doc).xref == old(doc).xref,
        final(doc).trailer == old(doc).trailer,
        final(doc).sections == old(doc).sections,
        final(doc).it == spec_start_xref_end(old(doc).data@),
        r == (match spec_start_xref(old(doc).data@) {
            Some(start) => Ok::<usize, PdfError>(start),
            None => Err::<usize, PdfError>(PdfError::XrefError),
        }),
{
    let (found, end) = locate_start_xref(&doc.data);
    doc.it = end;
    match found {
        Some(start) => Ok(start),
        None => Err(PdfError::XrefError),
    }
}

/// Reads the cross-reference table at the read position into the table of
/// the document, and moves the read position past it. Where the table is
/// malformed, the document stays as it was.
pub fn parse_xref_table(doc: &mut Document) -> (r: Result<(), PdfError>)
    ensures
        final(doc).data == old(doc).data,
        final(doc).trailer == old(doc).trailer,
        final(doc).sections == old(doc).sections,
        match spec_xref_table(old(doc).data@, old(doc).it as int, old(doc).xref@) {
            Some((end, filled)) => r is Ok && final(doc).it == end && final(doc).xref@ == filled,
            None => r == Err::<(), PdfError>(PdfError::XrefError) && final(doc).it
                == old(doc).it && final(doc).xref@ == old(doc).xref@,
        },
{
    match read_xref_table(&doc.data, doc.it, &mut doc.xref) {
        Some(end) => {
            doc.it = end;
            Ok(())
        },
        None => Err(PdfError::XrefError),
    }
}

/// Reads a number at the read position and moves the position past it:
/// the number and the count of its digits.
pub fn read_number(doc: &mut Document) -> (r: Option<(usize, usize)>)
    ensures
        final(doc).data == old(doc).data,
        final(doc).xref == old(doc).xref,
        final(doc).trailer == old(doc).trailer,
        final(doc).sections == old(doc).sections,
        match r {
            Some((value, count)) => crate::xref::number_at(old(doc).data@, old(doc).it as int)
                == Some((value, old(doc).it + count)) && final(doc).it == old(doc).it + count,
            None => crate::xref::number_at(old(doc).data@, old(doc).it as int) is None
                && final(doc).it == old(doc).it,
        },
{
    match crate::xref::read_number_at(&doc.data, doc.it) {
        Some((value, end)) => {
            let count: usize = end - doc.it;
            doc.it = end;
            Some((value, count))
        },
        None => None,
    }
}

/// The number under `key`, or zero.
fn read_key_index(dict: &PdfVar, key: &str) -> (r: usize)
    ensures
        r == key_index(dict@, key@),
{
    match dict.get_dict_value(key) {
        Some(x) => match x.get_indirect_obj_index() {
            Some(y) => y,
            None => 0,
        },
        None => 0,
    }
}

/// Takes the trailer from a trailer dictionary or from the dictionary of a
/// cross-reference stream.
pub fn create_trailer(doc: &mut Document, xref_obj: &PdfVar)
    ensures
        final(doc).trailer == spec_trailer_of(xref_obj@),
        final(doc).data == old(doc).data,
        final(doc).xref == old(doc).xref,
        final(doc).it == old(doc).it,
        final(doc).sections == old(doc).sections,
{
    doc.trailer.info = read_key_index(xref_obj, "Info");
    doc.trailer.root = read_key_index(xref_obj, "Root");
    doc.trailer.size = read_key_index(xref_obj, "Size");
    doc.trailer.encrypt = read_key_index(xref_obj, "Encrypt");
}

/// Reads one field of a row.
fn read_field(decoded: &Vec<u8>, from: usize, width: usize) -> (r: Option<usize>)
    requires
        from + width <= decoded.len(),
    ensures
        r == field_value(decoded@, from as int, width as int),
{
    let part = slice_subrange(decoded.as_slice(), from, from + width);
    checked_256_repr(part)
}

/// Reads the rows of `count` objects from number `first` on.
fn read_stream_rows(
    decoded: &Vec<u8>,
    w0: usize,
    w1: usize,
    w2: usize,
    pos: usize,
    xref: &mut Vec<ObjectRef>,
    first: usize,
    count: usize,
) -> (r: Option<usize>)
    requires
        pos <= decoded.len(),
    ensures
        match r {
            Some(next) => spec_stream_rows(
                decoded@,
                w0 as int,
                w1 as int,
                w2 as int,
                pos as int,
                old(xref)@,
                first as int,
                count as nat,
            ) == Some((next as int, final(xref)@)) && next <= decoded.len(),
            None => spec_stream_rows(
                decoded@,
                w0 as int,
                w1 as int,
                w2 as int,
                pos as int,
                old(xref)@,
                first as int,
                count as nat,
            ) is None,
        },
{
    if count == 0 {
        return Some(pos);
    }
    let room: usize = decoded.len();
    if w0 > room || w1 > room - w0 || w2 > room - w0 - w1 {
        return None;
    }
    let cols: usize = w0 + w1 + w2;
    let mut at: usize = pos;
    let mut done: usize = 0;
    while done < count
        invariant
            cols == w0 + w1 + w2,
            cols <= decoded.len(),
            at <= decoded.len(),
            done <= count,
            first + done <= xref.len() || done == 0,
            spec_stream_rows(
                decoded@,
                w0 as int,
                w1 as int,
                w2 as int,
                at as int,
                xref@,
                first + done,
                (count - done) as nat,
            ) == spec_stream_rows(
                decoded@,
                w0 as int,
                w1 as int,
                w2 as int,
                pos as int,
                old(xref)@,
                first as int,
                count as nat,
            ),
        decreases count - done,
    {
        if first >= xref.len() || done >= xref.len() - first || cols > decoded.len() - at {
            return None;
        }
        let i: usize = first + done;
        if xref[i].compressed == 3 {
            let kind = read_field(decoded, at, w0);
            let location = read_field(decoded, at + w0, w1);
            let generation = read_field(decoded, at + w0 + w1, w2);
            match (kind, location, generation) {
                (Some(k), Some(l), Some(g)) => {
                    xref.set(i, ObjectRef { compressed: (k % 256) as u8, xref: l, _version: g });
                },
                _ => {
                    return None;
                },
            }
        }
        at += cols;
        done += 1;
    }
    Some(at)
}

/// Merges a cross-reference stream into the table.
pub(crate) fn read_stream_table(data: &Vec<u8>, xref: &mut Vec<ObjectRef>, xref_object: &PdfVar) -> (r:
    bool)
    ensures
        match spec_stream_table(data@, old(xref)@, xref_object@) {
            Some(filled) => r && final(xref)@ == filled,
            None => !r,
        },
{
    let decoded = match decoded_stream(data, xref, xref_object) {
        Some(d) => d,
        None => {
            return false;
        },
    };
    let w = match xref_object.get_dict_value("W") {
        Some(x) => match x.get_usize_array() {
            Some(x) => x,
            None => {
                return false;
            },
        },
        None => {
            return false;
        },
    };
    let size = match xref_object.get_dict_value("Size") {
        Some(x) => match x.get_indirect_obj_index() {
            Some(x) => x,
            None => {
                return false;
            },
        },
        None => {
            return false;
        },
    };
    let index: Vec<usize> = match xref_object.get_dict_value("Index") {
        Some(x) => match x.get_usize_array() {
            Some(x) => x,
            None => {
                return false;
            },
        },
        None => {
            let mut v: Vec<usize> = Vec::new();
            v.push(0);
            v.push(size);
            proof {
                assert(v@ =~= seq![0usize, size]);
            }
            v
        },
    };
    if w.len() != 3 || index.len() % 2 != 0 {
        return false;
    }
    grow_table(xref, size);
    read_stream_sections(&decoded, w[0], w[1], w[2], &index, xref)
}

/// Reads the sections of a cross-reference stream.
fn read_stream_sections(
    decoded: &Vec<u8>,
    w0: usize,
    w1: usize,
    w2: usize,
    index: &Vec<usize>,
    xref: &mut Vec<ObjectRef>,
) -> (r: bool)
    requires
        index.len() % 2 == 0,
    ensures
        match spec_stream_sections(
            decoded@,
            w0 as int,
            w1 as int,
            w2 as int,
            index@,
            0,
            0,
            old(xref)@,
        ) {
            Some(filled) => r && final(xref)@ == filled,
            None => !r,
        },
{
    let mut decoded_pos: usize = 0;
    let mut iw: usize = 0;
    while iw < index.len()
        invariant
            iw <= index.len(),
            iw % 2 == 0,
            index.len() % 2 == 0,
            decoded_pos <= decoded.len(),
            spec_stream_sections(
                decoded@,
                w0 as int,
                w1 as int,
                w2 as int,
                index@,
                iw as int,
                decoded_pos as int,
                xref@,
            ) == spec_stream_sections(
                decoded@,
                w0 as int,
                w1 as int,
                w2 as int,
                index@,
                0,
                0,
                old(xref)@,
            ),
        decreases index.len() - iw,
    {
        match read_stream_rows(decoded, w0, w1, w2, decoded_pos, xref, index[iw], index[iw + 1]) {
            Some(next) => {
                decoded_pos = next;
            },
            None => {
                return false;
            },
        }
        iw += 2;
    }
    true
}

/// Reads the cross-reference section at `start` and the sections before it.
/// On an error the document may hold part of what was read.
pub(crate) fn read_section(doc: &mut Document, start: usize, createtrailer: bool, fuel: usize) -> (r:
    Result<(), PdfError>)
    ensures
        final(doc).data == old(doc).data,
        final(doc).it == old(doc).it,
        old(doc).sections@.no_duplicates() ==> final(doc).sections@.no_duplicates(),
        r is Ok ==> keeps_known(old(doc).xref@, final(doc).xref@),
        match r {
            Ok(_) => spec_parse_xref(
                old(doc).data@,
                old(doc).state(),
                start as int,
                createtrailer,
                fuel as nat,
            ) == Ok::<XrefState, PdfError>(final(doc).state()),
            Err(e) => spec_parse_xref(
                old(doc).data@,
                old(doc).state(),
                start as int,
                createtrailer,
                fuel as nat,
            ) == Err::<XrefState, PdfError>(e),
        },
    decreases fuel, 1int,
{
    proof {
        lemma_chain_keeps_known(doc.data@, doc.state(), start as int, createtrailer, fuel as nat);
    }
    if fuel == 0 || start >= doc.data.len() || crate::objects::contains_id(&doc.sections, start) {
        return Err(PdfError::XrefError);
    }
    doc.sections.push(start);
    proof {
        if old(doc).sections@.no_duplicates() {
            assert(doc.sections@.no_duplicates());
        }
    }
    let first: u8 = doc.data[start];
    if is_digit_byte(first) {
        let xref_object = match object_at(&doc.data, &doc.xref, start) {
            Ok(x) => x,
            Err(e) => {
                return Err(e);
            },
        };
        parse_xref_object(doc, &xref_object, fuel)?;
        if createtrailer {
            create_trailer(doc, &xref_object);
        }
        Ok(())
    } else if first == 120 {
        match read_xref_table(&doc.data, start, &mut doc.xref) {
            Some(end) => parse_table_trailer(doc, end, createtrailer, fuel),
            None => Err(PdfError::XrefError),
        }
    } else {
        Err(PdfError::XrefError)
    }
}

/// Copies a list of offsets.
fn copy_offsets(list: &Vec<usize>) -> (r: Vec<usize>)
    ensures
        r@ == list@,
{
    let mut out: Vec<usize> = Vec::new();
    let mut i: usize = 0;
    while i < list.len()
        invariant
            i <= list.len(),
            out@ == list@.take(i as int),
        decreases list.len() - i,
    {
        out.push(list[i]);
        proof {
            assert(list@.take(i + 1) =~= list@.take(i as int).push(list@[i as int]));
        }
        i += 1;
    }
    proof {
        assert(list@.take(list.len() as int) =~= list@);
    }
    out
}

/// Reads the cross-reference section at `start` and the older sections that
/// it names. No offset is read twice, and no more than `MAX_SECTIONS`
/// sections are chained; an entry that the table knows is not replaced;
/// with `createtrailer`, the section's dictionary gives the trailer. On an
/// error the document stays as it was.
pub fn parse_xref(doc: &mut Document, start: usize, createtrailer: bool) -> (r: Result<
    (),
    PdfError,
>)
    ensures
        final(doc).data == old(doc).data,
        final(doc).it == old(doc).it,
        old(doc).sections@.no_duplicates() ==> final(doc).sections@.no_duplicates(),
        keeps_known(old(doc).xref@, final(doc).xref@),
        match spec_parse_xref(
            old(doc).data@,
            old(doc).state(),
            start as int,
            createtrailer,
            MAX_SECTIONS as nat,
        ) {
            Ok(state) => r is Ok && final(doc).state() == state,
            Err(e) => r == Err::<(), PdfError>(e) && final(doc).state() == old(doc).state(),
        },
{
    let saved_xref: Vec<ObjectRef> = crate::xref::copy_table(&doc.xref);
    let saved_trailer: Trailer = doc.trailer;
    let saved_sections: Vec<usize> = copy_offsets(&doc.sections);
    match read_section(doc, start, createtrailer, MAX_SECTIONS) {
        Ok(_) => Ok(()),
        Err(e) => {
            doc.xref = saved_xref;
            doc.trailer = saved_trailer;
            doc.sections = saved_sections;
            Err(e)
        },
    }
}

/// Merges a cross-reference stream into the table and reads the section that
/// it names under `Prev`.
pub(crate) fn parse_xref_object(doc: &mut Document, xref_object: &PdfVar, fuel: usize) -> (r: Result<
    (),
    PdfError,
>)
    ensures
        final(doc).data == old(doc).data,
        final(doc).it == old(doc).it,
        old(doc).sections@.no_duplicates() ==> final(doc).sections@.no_duplicates(),
        match r {
            Ok(_) => spec_xref_object(
                old(doc).data@,
                old(doc).state(),
                xref_object@,
                fuel as nat,
            ) == Ok::<XrefState, PdfError>(final(doc).state()),
            Err(e) => spec_xref_object(
                old(doc).data@,
                old(doc).state(),
                xref_object@,
                fuel as nat,
            ) == Err::<XrefState, PdfError>(e),
        },
    decreases fuel, 0int,
{
    if !read_stream_table(&doc.data, &mut doc.xref, xref_object) {
        return Err(PdfError::XrefError);
    }
    match xref_object.get_dict_value("Prev") {
        Some(prev_obj) => match prev_obj.get_indirect_obj_index() {
            Some(prev) => {
                if fuel == 0 {
                    return Err(PdfError::XrefError);
                }
                read_section(doc, prev, false, fuel - 1)
            },
            None => Ok(()),
        },
        None => Ok(()),
    }
}

/// Reads the trailer that follows a table at `pos`, and the section that it
/// names under `Prev`.
pub(crate) fn parse_table_trailer(doc: &mut Document, pos: usize, createtrailer: bool, fuel: usize) -> (r:
    Result<(), PdfError>)
    requires
        pos <= old(doc).data.len(),
    ensures
        final(doc).data == old(doc).data,
        final(doc).it == old(doc).it,
        old(doc).sections@.no_duplicates() ==> final(doc).sections@.no_duplicates(),
        match r {
            Ok(_) => spec_table_trailer(
                old(doc).data@,
                old(doc).state(),
                pos as int,
                createtrailer,
                fuel as nat,
            ) == Ok::<XrefState, PdfError>(final(doc).state()),
            Err(e) => spec_table_trailer(
                old(doc).data@,
                old(doc).state(),
                pos as int,
                createtrailer,
                fuel as nat,
            ) == Err::<XrefState, PdfError>(e),
        },
    decreases fuel, 0int,
{
    let p: usize = skip_whitespace(&doc.data, pos);
    if !at_trailer(&doc.data, p) {
        return Err(PdfError::XrefError);
    }
    let mut stack: Vec<PdfVar> = Vec::new();
    proof {
        assert(values_of(stack@) =~= Seq::empty());
    }
    let q: usize = skip_whitespace(&doc.data, p + 7);
    match parse_token(&doc.data, &doc.xref, q, &mut stack, MAX_DEPTH) {
        Ok(_) => {},
        Err((e, _)) => {
            return Err(e);
        },
    }
    if stack.len() != 1 {
        return Err(PdfError::XrefError);
    }
    let trailer_dict = &stack[0];
    match trailer_dict.get_dict_value("Prev") {
        Some(prev_obj) => {
            match prev_obj.get_indirect_obj_index() {
                Some(x) => {
                    if fuel == 0 {
                        return Err(PdfError::XrefError);
                    }
                    read_section(doc, x, false, fuel - 1)?;
                },
                None => {
                    return Err(PdfError::XrefError);
                },
            }
        },
        None => {},
    }
    if createtrailer {
        create_trailer(doc, trailer_dict);
    }
    Ok(())
}

/// Reads the object that starts at `index`.
pub fn object_at(data: &Vec<u8>, xref: &Vec<ObjectRef>, index: usize) -> (r: Result<
    PdfVar,
    PdfError,
>)
    ensures
        match r {
            Ok(obj) => spec_object(data@, xref@, index as int, MAX_DEPTH as nat) == Ok::<
                PdfValue,
                PdfError,
            >(obj@),
            Err(e) => spec_object(data@, xref@, index as int, MAX_DEPTH as nat) == Err::<
                PdfValue,
                PdfError,
            >(e),
        },
{
    if index > data.len() {
        proof {
            crate::cursor::lemma_skip_ws(data@, index as int);
        }
        return Err(PdfError::ObjectError);
    }
    let mut obj_stack: Vec<PdfVar> = Vec::new();
    proof {
        assert(values_of(obj_stack@) =~= Seq::empty());
    }
    match parse_object_items(data, xref, index, &mut obj_stack, MAX_DEPTH) {
        Ok(_) => {},
        Err((e, _)) => {
            return Err(e);
        },
    }
    if obj_stack.len() < 2 {
        return Err(PdfError::ObjectError);
    }
    let id: usize = match &obj_stack[0] {
        PdfVar::ObjectRef(obj_ref) => *obj_ref,
        _ => {
            return Err(PdfError::ObjectError);
        },
    };
    proof {
        lemma_value_of_object(id, obj_stack);
    }
    Ok(PdfVar::Object { _id: id, content: obj_stack })
}

} // verus!
