//! Why a caption could not be rendered.

use vstd::prelude::*;

verus! {

/// The ways in which rendering a caption request fails.
#[derive(Clone, Debug, PartialEq, Eq)]
pub enum RenderError {
    /// No format is registered under the requested identifier.
    UnknownFormat(String),
    /// The base image of the format could not be had; the loader's words.
    ImageUnreadable(String),
    /// The inserts of the request do not map names to texts.
    InsertsNotObject,
    /// The request names an insert that the format does not have.
    UnknownInsert(String),
    /// The request gives an insert something that is no text.
    InsertNotText,
    /// The finished image could not be encoded.
    EncodingFailure,
}

} // verus!
