//! The errors of reading a document.

use vstd::prelude::*;

verus! {

/// Why a document, or one object of it, could not be read.
#[derive(Debug, Clone, Copy, PartialEq, Eq, Structural)]
pub enum PdfError {
    /// A stream filter or a predictor failed.
    DecodeError,
    /// A dictionary holds a key that is not a name, or a key without a value.
    DictionaryError,
    /// A character that is no hexadecimal digit stands where one is needed.
    HexError,
    /// The bytes of the document could not be had, or do not start with
    /// `%PDF`.
    LoadError,
    /// An object is malformed, cut short or nested too deeply.
    ObjectError,
    /// `R` or `obj` does not follow two unsigned integers.
    ObjectRefError,
    /// A stream has no usable length or no `endstream`.
    StreamError,
    /// A byte that starts no value.
    UnmatchedChar,
    /// The cross-reference structure is missing or malformed.
    XrefError,
}

} // verus!
