use vstd::prelude::*;
use vstd::slice::slice_subrange;

use crate::utils::is_pre;
use crate::utils::run_len;
use crate::utils::starts_with;
use crate::utils::take_while_ws;
use crate::utils::ws_pred;

verus! {

/// Length of the leading whitespace run of `t`.
pub open spec fn ws_run(t: Seq<u8>) -> int {
    run_len(t, ws_pred()) as int
}

/// Drops the leading whitespace run of `t`, if any.
pub fn skip_ws<'a>(t: &'a [u8]) -> (r: &'a [u8])
    ensures
        r@ == t@.skip(ws_run(t@)),
        r@.len() <= t@.len(),
{
    let n = take_while_ws(t);
    slice_subrange(t, n, t.len())
}

/// The front of `input` that remains when the suffix `end` is dropped.
/// `end` is expected to be a tail of `input`; only its length matters.
pub fn trim_end<'a>(input: &'a [u8], end: &[u8]) -> (r: &'a [u8])
    requires
        end@.len() <= input@.len(),
    ensures
        r@ == input@.take(input@.len() - end@.len()),
{
    let diff = input.len() - end.len();
    slice_subrange(input, 0, diff)
}

/// What follows the prefix `start` of `input`, when `input` does begin with it.
pub fn trim_start<'a>(input: &'a [u8], start: &[u8]) -> (r: Option<&'a [u8]>)
    ensures
        match r {
            Some(rest) => is_pre(start@, input@) && rest@ == input@.skip(start@.len() as int),
            None => !is_pre(start@, input@),
        },
{
    if starts_with(input, start) {
        Some(slice_subrange(input, start.len(), input.len()))
    } else {
        None
    }
}

} // verus!
