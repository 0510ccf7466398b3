//! Reads PDF documents without any help: finds the objects of a document
//! through its cross-reference sections, reads their values, decodes their
//! streams, and turns the content of a page into runs of text, among which
//! it picks the probable title of the document.
//!
//! Sizes and positions on a page are held in millionths of a unit.

use vstd::prelude::*;

pub mod arg_parser;
pub mod call;
pub mod cmap;
pub mod content;
pub mod cursor;
pub mod decoding;
pub mod document;
pub mod encoding;
pub mod error;
pub mod file_manager;
pub mod fixed;
pub mod fonts;
pub mod metadata;
pub mod objects;
pub mod parser;
pub mod pdf_object;
pub mod reader;
pub mod shown_text;
pub mod stability;
pub mod streams;
pub mod tags;
pub mod text_parser;
pub mod title;
pub mod words;
pub mod written_object;
pub mod tokens;
pub mod xref;

verus! {

/// Loads a document from its bytes: see `Document::from`.
pub fn load_pdf_doc(data: Vec<u8>) -> (r: Result<document::Document, error::PdfError>)
    ensures
        match r {
            Ok(doc) => document::spec_load(data@) == Ok::<document::XrefState, error::PdfError>(
                doc.state(),
            ) && doc.data == data && doc.it == xref::spec_start_xref_end(data@)
                && doc.sections@.no_duplicates(),
            Err(e) => document::spec_load(data@) == Err::<document::XrefState, error::PdfError>(e),
        },
{
    reader::read_one_pdf(data)
}

} // verus!
