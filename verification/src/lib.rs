//! Scanner for inline source-code annotations.
//!
//! The library recognizes comment lines that carry a `TODO:` or `FIXME:`
//! marker, extracts a title from the rest of the marker line, absorbs the
//! immediately following comment lines as a continuation message, and records
//! the 1-based line number of each marker. Around the scanner it offers the
//! issue record built from a token and the ignore-list rules used by the
//! surrounding tool.

use vstd::prelude::*;

pub mod arguments;
pub mod ignore;
pub mod parser;
pub mod posting;
pub mod render;
pub mod text;

verus! {

/// A character that counts as in-line whitespace: space, tab, or the
/// carriage return left behind by CRLF line endings.
pub open spec fn is_space(c: char) -> bool {
    c == ' ' || c == '\t' || c == '\r'
}

} // verus!
