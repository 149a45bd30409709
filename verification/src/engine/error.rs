use vstd::prelude::*;

verus! {

/// A match-time failure. `Expected` says which rule or terminal found no
/// match, with a bounded preview of the unmatched input, for diagnostics.
/// `DepthLimit` reports that the recursion budget ran out: a grammar
/// whose rules can recurse without consuming input has no bound on its
/// call depth, and the engine stops instead of exhausting the stack.
#[derive(Debug, PartialEq)]
pub enum ParseError<'grammar, 'input> {
    Expected { parsing: &'grammar [u8], expected: Vec<u8>, got: &'input [u8] },
    DepthLimit,
}

/// Mathematical model of a match-time failure.
pub enum ErrV {
    Expected { parsing: Seq<u8>, expected: Seq<u8>, got: Seq<u8> },
    DepthLimit,
}

impl<'g, 'i> View for ParseError<'g, 'i> {
    type V = ErrV;

    open spec fn view(&self) -> ErrV {
        match self {
            ParseError::Expected { parsing, expected, got } => ErrV::Expected {
                parsing: parsing@,
                expected: expected@,
                got: got@,
            },
            ParseError::DepthLimit => ErrV::DepthLimit,
        }
    }
}

} // verus!
