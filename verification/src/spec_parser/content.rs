use vstd::prelude::*;
use vstd::slice::slice_subrange;

use super::tokens::DoubleQuote;
use super::tokens::Identifier;
use super::tokens::SingleQuote;

verus! {

/// The text inside a delimited token: its span without the first and
/// the last byte.
pub open spec fn inner(span: Seq<u8>) -> Seq<u8> {
    span.subrange(1, span.len() - 1)
}

impl<'a> Identifier<'a> {
    /// The name between the angle brackets.
    pub fn content(&self) -> (r: &'a [u8])
        requires
            self@.len() >= 2,
        ensures
            r@ == inner(self@),
    {
        slice_subrange(self.0, 1, self.0.len() - 1)
    }
}

impl<'a> SingleQuote<'a> {
    /// The text between the quotes.
    pub fn content(&self) -> (r: &'a [u8])
        requires
            self@.len() >= 2,
        ensures
            r@ == inner(self@),
    {
        slice_subrange(self.0, 1, self.0.len() - 1)
    }
}

impl<'a> DoubleQuote<'a> {
    /// The text between the quotes.
    pub fn content(&self) -> (r: &'a [u8])
        requires
            self@.len() >= 2,
        ensures
            r@ == inner(self@),
    {
        slice_subrange(self.0, 1, self.0.len() - 1)
    }
}

} // verus!
