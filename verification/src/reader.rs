//! What a document offers: its objects, its pages, its information dictionary,
//! and reading at its read position.

use crate::cursor::{lemma_skip_ws, skip_whitespace};
use crate::decoding::{chars_of_codes, decoded_text, lemma_ascii_text};
use crate::document::{Document, XrefState};
use crate::document::spec_load;
use crate::error::PdfError;
use crate::objects::{
    lookup_object, lookup_page, spec_get_object, spec_page, spec_page_ids, spec_unpack, store_of,
    unpack_obj_stm_in, walk_of, walk_pages, Found, Store, MAX_PAGE_DEPTH, MAX_UNPACK,
};
use crate::parser::{
    parse_object_items, parse_token, resolve_usize, spec_object, spec_object_end, spec_resolve,
    spec_value, MAX_DEPTH,
};
use crate::pdf_object::{dict_value, lemma_value_of_object, values_of, PdfValue, PdfVar};
use crate::stability::{grows, lemma_get_object_grows, lemma_unpack_grows};
use crate::streams::{apply_decodeparms, decoded_stream, spec_decoded_stream, spec_decodeparms};
use crate::tokens::Parsed;
use crate::xref::spec_start_xref_end;
use vstd::prelude::*;

verus! {

/// The text under `key` in a dictionary or an object, where a string stands
/// there.
pub open spec fn text_under(obj: PdfValue, key: Seq<char>) -> Option<Seq<char>> {
    match dict_value(obj, key) {
        Some(PdfValue::StringLiteral(codes)) => Some(decoded_text(codes)),
        _ => None,
    }
}

/// A string of printable ASCII under a key reads as itself: the text under
/// the key has the characters of the string's codes.
pub proof fn lemma_plain_text_under(obj: PdfValue, key: Seq<char>, codes: Seq<u32>)
    requires
        dict_value(obj, key) == Some(PdfValue::StringLiteral(codes)),
        forall|i: int| 0 <= i < codes.len() ==> 32 <= #[trigger] codes[i] <= 126,
    ensures
        text_under(obj, key) == Some(chars_of_codes(codes)),
{
    lemma_ascii_text(codes);
}

/// Whether everything but the data and the table of a document stayed as it
/// was, the data only grew at its end, and the table kept its length.
pub open spec fn only_grew(before: &Document, after: &Document) -> bool {
    &&& before.data@.is_prefix_of(after.data@)
    &&& after.xref.len() == before.xref.len()
    &&& after.trailer == before.trailer
    &&& after.it == before.it
    &&& after.sections == before.sections
}

/// Whether nothing but the read position of a document changed.
pub open spec fn only_moved(before: &Document, after: &Document) -> bool {
    &&& after.data == before.data
    &&& after.xref == before.xref
    &&& after.trailer == before.trailer
    &&& after.sections == before.sections
}

impl Document {
    /// The data and the table.
    pub open spec fn store(&self) -> Store {
        store_of(self.data@, self.xref@)
    }

    /// Gives the object with number `obj_id`, or nothing where the table has
    /// no object for that number or the object does not read. An object that
    /// lies in an object stream is unpacked first: the stream's objects are
    /// written at the end of the data, so that every offset given before
    /// stays good.
    pub fn get_object_by_id(&mut self, obj_id: usize) -> (r: Option<PdfVar>)
        ensures
            spec_get_object(old(self).store(), obj_id, MAX_UNPACK as nat) == (Found {
                object: match r {
                    Some(obj) => Some(obj@),
                    None => None,
                },
                store: final(self).store(),
            }),
            r is Some ==> r->0@ is Object,
            only_grew(old(self), final(self)),
            grows(old(self).store(), final(self).store()),
    {
        proof {
            lemma_get_object_grows(self.store(), obj_id, MAX_UNPACK as nat);
        }
        lookup_object(&mut self.data, &mut self.xref, obj_id, MAX_UNPACK)
    }

    /// Gives the object of page number `page_nr`, counted from 0.
    pub fn get_page_no(&mut self, page_nr: usize) -> (r: Option<PdfVar>)
        ensures
            spec_page(old(self).store(), old(self).trailer.root, page_nr) == (Found {
                object: match r {
                    Some(obj) => Some(obj@),
                    None => None,
                },
                store: final(self).store(),
            }),
            r is Some ==> r->0@ is Object,
            only_grew(old(self), final(self)),
    {
        let root: usize = self.trailer.root;
        lookup_page(&mut self.data, &mut self.xref, root, page_nr)
    }

    /// Gives the text under `key` in the document information dictionary.
    pub fn get_info(&mut self, key: &str) -> (r: Option<String>)
        ensures
            ({
                let found = spec_get_object(
                    old(self).store(),
                    old(self).trailer.info,
                    MAX_UNPACK as nat,
                );
                &&& found.store == final(self).store()
                &&& match found.object {
                    Some(obj) => match text_under(obj, key@) {
                        Some(text) => r is Some && r->0@ == text,
                        None => r is None,
                    },
                    None => r is None,
                }
            }),
            only_grew(old(self), final(self)),
    {
        let info_ref: usize = self.trailer.info;
        let info_obj = match self.get_object_by_id(info_ref) {
            Some(x) => x,
            None => {
                return None;
            },
        };
        match info_obj.get_dict_value(key) {
            Some(info_entry_obj) => info_entry_obj.get_str(),
            None => None,
        }
    }
}

/// Unpacks the object stream with number `obj_id`.
pub fn unpack_obj_stm(doc: &mut Document, obj_id: usize)
    ensures
        final(doc).store() == spec_unpack(old(doc).store(), obj_id, MAX_UNPACK as nat),
        only_grew(old(doc), final(doc)),
        grows(old(doc).store(), final(doc).store()),
{
    proof {
        lemma_unpack_grows(doc.store(), obj_id, MAX_UNPACK as nat);
    }
    unpack_obj_stm_in(&mut doc.data, &mut doc.xref, obj_id, MAX_UNPACK);
}

/// Adds the numbers of the pages below node `obj_id` of the page tree to
/// `page_ids`, in their order. `visited` holds the nodes that were looked
/// at; no node is looked at twice.
pub fn get_page_ids(
    doc: &mut Document,
    page_ids: &mut Vec<usize>,
    visited: &mut Vec<usize>,
    obj_id: usize,
)
    ensures
        walk_of(final(doc).data@, final(doc).xref@, final(page_ids)@, final(visited)@)
            == spec_page_ids(
            walk_of(old(doc).data@, old(doc).xref@, old(page_ids)@, old(visited)@),
            obj_id,
            MAX_PAGE_DEPTH as nat,
        ),
        only_grew(old(doc), final(doc)),
{
    walk_pages(&mut doc.data, &mut doc.xref, page_ids, visited, obj_id, MAX_PAGE_DEPTH);
}

impl PdfVar {
    /// Reads the object that starts at `index`, and leaves the read position
    /// at the object's `endobj`, or where the error was found.
    pub fn from(doc: &mut Document, index: usize) -> (r: Result<PdfVar, PdfError>)
        ensures
            only_moved(old(doc), final(doc)),
            match r {
                Ok(obj) => spec_object(
                    old(doc).data@,
                    old(doc).xref@,
                    index as int,
                    MAX_DEPTH as nat,
                ) == Ok::<PdfValue, PdfError>(obj@),
                Err(e) => spec_object(
                    old(doc).data@,
                    old(doc).xref@,
                    index as int,
                    MAX_DEPTH as nat,
                ) == Err::<PdfValue, PdfError>(e),
            },
            final(doc).it == spec_object_end(
                old(doc).data@,
                old(doc).xref@,
                index as int,
                MAX_DEPTH as nat,
            ),
    {
        if index > doc.data.len() {
            proof {
                lemma_skip_ws(doc.data@, index as int);
            }
            doc.it = doc.data.len();
            return Err(PdfError::ObjectError);
        }
        let mut obj_stack: Vec<PdfVar> = Vec::new();
        proof {
            assert(values_of(obj_stack@) =~= Seq::empty());
        }
        match parse_object_items(&doc.data, &doc.xref, index, &mut obj_stack, MAX_DEPTH) {
            Ok(end) => {
                doc.it = end;
            },
            Err((e, at)) => {
                doc.it = at;
                return Err(e);
            },
        }
        if obj_stack.len() < 2 {
            return Err(PdfError::ObjectError);
        }
        let id: usize = match &obj_stack[0] {
            PdfVar::ObjectRef(obj_ref) => *obj_ref,
            _ => {
                return Err(PdfError::ObjectError);
            },
        };
        proof {
            lemma_value_of_object(id, obj_stack);
        }
        Ok(PdfVar::Object { _id: id, content: obj_stack })
    }

    /// The number that this value gives where a count or a length is needed:
    /// an unsigned integer itself; for a reference, the number that is the
    /// body of the object referred to.
    pub fn get_usize(&self, doc: &mut Document) -> (r: Option<usize>)
        ensures
            *final(doc) == *old(doc),
            r == spec_resolve(old(doc).data@, old(doc).xref@, self@, MAX_DEPTH as nat),
    {
        resolve_usize(&doc.data, &doc.xref, self, MAX_DEPTH)
    }

    /// The bytes of this object's stream after its filters and its decoding
    /// parameters have been applied.
    pub fn get_decoded_stream(&self, doc: &mut Document) -> (r: Option<Vec<u8>>)
        ensures
            *final(doc) == *old(doc),
            match r {
                Some(out) => spec_decoded_stream(old(doc).data@, old(doc).xref@, self@) == Some(
                    out@,
                ),
                None => spec_decoded_stream(old(doc).data@, old(doc).xref@, self@) is None,
            },
    {
        decoded_stream(&doc.data, &doc.xref, self)
    }
}

/// Reads one value at the read position, after any white space, puts it on
/// the stack and moves the read position past it. On an error the read
/// position is where the error was found, and the stack is as it was.
pub fn parse_object(doc: &mut Document, stack: &mut Vec<PdfVar>) -> (r: Result<(), PdfError>)
    ensures
        only_moved(old(doc), final(doc)),
        match r {
            Ok(_) => spec_value(
                old(doc).data@,
                old(doc).xref@,
                old(doc).it as int,
                values_of(old(stack)@),
                MAX_DEPTH as nat,
            ) == (Parsed::Done { pos: final(doc).it as int, stack: values_of(final(stack)@) }),
            Err(e) => spec_value(
                old(doc).data@,
                old(doc).xref@,
                old(doc).it as int,
                values_of(old(stack)@),
                MAX_DEPTH as nat,
            ) == (Parsed::Failed { error: e, pos: final(doc).it as int }) && final(stack)@ == old(
                stack,
            )@,
        },
{
    if doc.it > doc.data.len() {
        proof {
            lemma_skip_ws(doc.data@, doc.it as int);
        }
        return Err(PdfError::UnmatchedChar);
    }
    let p: usize = skip_whitespace(&doc.data, doc.it);
    match parse_token(&doc.data, &doc.xref, p, stack, MAX_DEPTH) {
        Ok(end) => {
            doc.it = end;
            Ok(())
        },
        Err((e, at)) => {
            doc.it = at;
            Err(e)
        },
    }
}

/// Applies decoding parameters to the filtered bytes of a stream: see
/// `spec_decodeparms`.
pub fn handle_decodeparms(stream: Vec<u8>, decodeparms_obj: &PdfVar, doc: &mut Document) -> (r:
    Result<Vec<u8>, PdfError>)
    ensures
        *final(doc) == *old(doc),
        match r {
            Ok(out) => spec_decodeparms(
                stream@,
                decodeparms_obj@,
                old(doc).data@,
                old(doc).xref@,
            ) == Ok::<Seq<u8>, PdfError>(out@),
            Err(e) => spec_decodeparms(
                stream@,
                decodeparms_obj@,
                old(doc).data@,
                old(doc).xref@,
            ) == Err::<Seq<u8>, PdfError>(e),
        },
{
    apply_decodeparms(stream, decodeparms_obj, &doc.data, &doc.xref)
}

/// Loads one document from its bytes.
pub fn read_one_pdf(data: Vec<u8>) -> (r: Result<Document, PdfError>)
    ensures
        match r {
            Ok(doc) => spec_load(data@) == Ok::<XrefState, PdfError>(doc.state()) && doc.data
                == data && doc.it == spec_start_xref_end(data@) && doc.sections@.no_duplicates(),
            Err(e) => spec_load(data@) == Err::<XrefState, PdfError>(e),
        },
{
    Document::from(data)
}

} // verus!
