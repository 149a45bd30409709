use vstd::prelude::*;
use vstd::slice::slice_subrange;

verus! {

/// The front of `input` that remains when the suffix `end` is dropped.
/// `end` is expected to be a tail of `input`; only its length matters.
pub fn trim_end<'a>(input: &'a [u8], end: &[u8]) -> (r: &'a [u8])
    requires
        end@.len() <= input@.len(),
    ensures
        r@ == input@.take(input@.len() - end@.len()),
{
    let diff = input.len() - end.len();
    slice_subrange(input, 0, diff)
}

} // verus!
