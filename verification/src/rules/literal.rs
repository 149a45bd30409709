use vstd::prelude::*;
use vstd::slice::slice_subrange;
use vstd::utf8::decode_first_scalar;
use vstd::utf8::length_of_first_scalar;
use vstd::utf8::valid_first_scalar;

use crate::chars::decode_front;
use crate::spec_parser::char_range::CharRange;
use crate::utils::is_pre;
use crate::utils::starts_with;
use crate::utils::strip_rep;
use crate::utils::strip_repeats_len;

verus! {

/// A terminal matcher of the compiled grammar: an exact byte string, or
/// an inclusive character range.
#[derive(Debug, PartialEq, Clone)]
pub struct Literal<'a> {
    pub content: LiteralContent<'a>,
}

/// What a literal matches against the input.
#[derive(Debug, PartialEq, Clone)]
pub enum LiteralContent<'a> {
    Str(&'a [u8]),
    Range { from: char, to: char },
}

/// Mathematical model of a literal.
pub enum LiteralV {
    Str(Seq<u8>),
    Range(char, char),
}

impl<'a> View for LiteralContent<'a> {
    type V = LiteralV;

    open spec fn view(&self) -> LiteralV {
        match self {
            LiteralContent::Str(s) => LiteralV::Str(s@),
            LiteralContent::Range { from, to } => LiteralV::Range(*from, *to),
        }
    }
}

impl<'a> View for Literal<'a> {
    type V = LiteralV;

    open spec fn view(&self) -> LiteralV {
        self.content@
    }
}

/// Whether the scalar `c` lies in the inclusive range `from ..= to`.
pub open spec fn scalar_in_range(c: u32, from: char, to: char) -> bool {
    (from as u32) <= c && c <= (to as u32)
}

/// Bytes taken up by the longest run of scalars at the front of `inp`
/// that all lie in `from ..= to`.
pub open spec fn range_run(inp: Seq<u8>, from: char, to: char) -> int
    decreases inp.len(),
{
    if valid_first_scalar(inp) && scalar_in_range(decode_first_scalar(inp), from, to) {
        let w = length_of_first_scalar(inp);
        w + range_run(inp.skip(w), from, to)
    } else {
        0
    }
}

/// How a literal matches the front of `inp`: the bytes consumed by one
/// match, or by a greedy run of one-or-more matches when `repeated`;
/// nothing when not even one match stands at the front. A range matches
/// one decoded character; a byte string matches byte for byte.
pub open spec fn lit_match(lit: LiteralV, inp: Seq<u8>, repeated: bool) -> Option<int> {
    match lit {
        LiteralV::Str(s) => if !is_pre(s, inp) {
            None
        } else if !repeated {
            Some(s.len() as int)
        } else {
            Some(inp.len() - strip_rep(inp, s).len())
        },
        LiteralV::Range(f, t) => if !(valid_first_scalar(inp) && scalar_in_range(
            decode_first_scalar(inp),
            f,
            t,
        )) {
            None
        } else if !repeated {
            Some(length_of_first_scalar(inp))
        } else {
            Some(range_run(inp, f, t))
        },
    }
}

/// Whether `input` lies in the inclusive range `from ..= to`, by scalar
/// value.
pub fn in_range(input: char, from: char, to: char) -> (r: bool)
    ensures
        r == scalar_in_range(input as u32, from, to),
{
    (from as u32) <= (input as u32) && (input as u32) <= (to as u32)
}

impl<'a> Literal<'a> {
    /// A repeated match of an empty byte string would never advance; it
    /// is the one excluded case.
    pub open spec fn rep_ok(&self, repeated: bool) -> bool {
        repeated ==> match self@ {
            LiteralV::Str(s) => s.len() > 0,
            LiteralV::Range(_, _) => true,
        }
    }

    /// Matches this literal against the front of `input`: the matched
    /// front, once or greedily one-or-more times when `repeated`.
    pub fn match_str<'b>(&self, input: &'b [u8], repeated: bool) -> (r: Option<&'b [u8]>)
        requires
            self.rep_ok(repeated),
        ensures
            match r {
                Some(m) => m@.len() <= input@.len() && lit_match(self@, input@, repeated) == Some(
                    m@.len() as int,
                ) && m@ == input@.take(m@.len() as int),
                None => lit_match(self@, input@, repeated) is None,
            },
    {
        match &self.content {
            LiteralContent::Range { from, to } => {
                let f = *from;
                let t = *to;
                match decode_front(input) {
                    None => None,
                    Some((c, w)) => {
                        if !in_range(c, f, t) {
                            return None;
                        }
                        if !repeated {
                            return Some(slice_subrange(input, 0, w));
                        }
                        let mut i: usize = w;
                        proof {
                            assert(range_run(input@, f, t) == w + range_run(input@.skip(w as int), f, t));
                        }
                        loop
                            invariant
                                i <= input@.len(),
                                range_run(input@, f, t) == i + range_run(input@.skip(i as int), f, t),
                                valid_first_scalar(input@),
                                scalar_in_range(decode_first_scalar(input@), f, t),
                                self@ == LiteralV::Range(f, t),
                                repeated,
                            decreases input@.len() - i,
                        {
                            let rest = slice_subrange(input, i, input.len());
                            match decode_front(rest) {
                                None => {
                                    proof {
                                        assert(range_run(rest@, f, t) == 0);
                                    }
                                    return Some(slice_subrange(input, 0, i));
                                },
                                Some((c2, w2)) => {
                                    if in_range(c2, f, t) {
                                        proof {
                                            assert(range_run(rest@, f, t) == w2 + range_run(
                                                rest@.skip(w2 as int),
                                                f,
                                                t,
                                            ));
                                            assert(rest@.skip(w2 as int) =~= input@.skip(
                                                i + w2,
                                            ));
                                        }
                                        i += w2;
                                    } else {
                                        proof {
                                            assert(range_run(rest@, f, t) == 0);
                                        }
                                        return Some(slice_subrange(input, 0, i));
                                    }
                                },
                            }
                        }
                    },
                }
            },
            LiteralContent::Str(s) => {
                if !repeated {
                    if starts_with(input, s) {
                        Some(slice_subrange(input, 0, s.len()))
                    } else {
                        None
                    }
                } else {
                    let n = strip_repeats_len(input, s);
                    if n == 0 {
                        proof {
                            if is_pre(s@, input@) {
                                assert(strip_rep(input@, s@) == strip_rep(
                                    input@.skip(s@.len() as int),
                                    s@,
                                ));
                                crate::utils::lemma_strip_rep_len(input@.skip(s@.len() as int), s@);
                            }
                        }
                        None
                    } else {
                        Some(slice_subrange(input, 0, n))
                    }
                }
            },
        }
    }
}

impl<'a> From<LiteralContent<'a>> for Literal<'a> {
    fn from(content: LiteralContent<'a>) -> (r: Self) {
        Literal { content }
    }
}

impl<'a> vstd::std_specs::convert::FromSpecImpl<LiteralContent<'a>> for Literal<'a> {
    open spec fn obeys_from_spec() -> bool {
        true
    }

    open spec fn from_spec(content: LiteralContent<'a>) -> Self {
        Literal { content }
    }
}

impl<'a> From<&'a [u8]> for Literal<'a> {
    fn from(string: &'a [u8]) -> (r: Self) {
        Literal { content: LiteralContent::Str(string) }
    }
}

impl<'a> vstd::std_specs::convert::FromSpecImpl<&'a [u8]> for Literal<'a> {
    open spec fn obeys_from_spec() -> bool {
        true
    }

    open spec fn from_spec(string: &'a [u8]) -> Self {
        Literal { content: LiteralContent::Str(string) }
    }
}

impl<'a> From<&CharRange> for LiteralContent<'a> {
    fn from(range: &CharRange) -> (r: Self) {
        LiteralContent::Range { from: range.from, to: range.to }
    }
}

impl<'a> vstd::std_specs::convert::FromSpecImpl<&CharRange> for LiteralContent<'a> {
    open spec fn obeys_from_spec() -> bool {
        true
    }

    open spec fn from_spec(range: &CharRange) -> Self {
        LiteralContent::Range { from: range.from, to: range.to }
    }
}

impl<'a> From<&CharRange> for Literal<'a> {
    fn from(range: &CharRange) -> (r: Self) {
        Literal { content: LiteralContent::Range { from: range.from, to: range.to } }
    }
}

impl<'a> vstd::std_specs::convert::FromSpecImpl<&CharRange> for Literal<'a> {
    open spec fn obeys_from_spec() -> bool {
        true
    }

    open spec fn from_spec(range: &CharRange) -> Self {
        Literal { content: LiteralContent::Range { from: range.from, to: range.to } }
    }
}

} // verus!
