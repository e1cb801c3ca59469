//! A lossless concrete syntax tree for a relaxed, JSON-like text.
//!
//! [`parse`] never fails. It turns any text into a tree that records, for
//! every node, how many bytes of the text the node took. Text that the
//! grammar does not accept is kept in the tree as `Invalid` values, so that
//! the tokens of the tree always spell out the text again.
use vstd::prelude::*;
use crate::source::{spec_parse, Source};

pub use crate::linearize::{Linearize, LinearizeBuffer};

pub mod buffer;
pub mod grammar;
pub mod laws;
pub mod layout;
pub mod linearize;
pub mod parse;
pub mod source;
pub mod tokens;
pub mod width;

verus! {

/// Parses `content`. Every text parses: see `Source::has_error` for whether
/// the grammar accepted all of it.
pub fn parse(content: String) -> (r: Source)
    ensures
        r@ == spec_parse(content@),
{
    Source::new(content)
}

} // verus!
