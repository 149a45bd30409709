use vstd::prelude::*;

verus! {

/// A failure while reading the grammar-specification text. `found` is a
/// bounded snippet of the input at the point of failure, for diagnostics.
#[derive(Debug, PartialEq)]
pub enum ParseError<'a> {
    UnexpectedWhile { parsing: &'static str, input: &'a [u8], line: usize },
    ExpectedWhile { parsing: &'static str, expected: &'static str, found: &'a [u8], line: usize },
}

} // verus!
