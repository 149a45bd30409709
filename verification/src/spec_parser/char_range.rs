use vstd::prelude::*;
use vstd::slice::slice_subrange;
use vstd::utf8::decode_first_scalar;
use vstd::utf8::length_of_first_scalar;
use vstd::utf8::valid_first_scalar;

use super::error::ParseError;
use crate::chars::decode_front;
use crate::utils::take_n;

verus! {

pub const START_MATCH: u8 = 91;

pub const END_MATCH: u8 = 93;

pub const MATCH_SEPARATOR: u8 = 45;

/// An inclusive character class `[from-to]`.
#[derive(Debug, PartialEq, Clone, Copy)]
pub struct CharRange {
    pub from: char,
    pub to: char,
}

/// Bytes of the first scalar at the front of `s`: its encoded width when it
/// is well formed, one lone byte when it is not, none when `s` is empty.
pub open spec fn sw1(s: Seq<u8>) -> int {
    if valid_first_scalar(s) {
        length_of_first_scalar(s)
    } else if s.len() == 0 {
        0int
    } else {
        1int
    }
}

/// The bounded diagnostic preview of the front of `t`.
pub open spec fn snip(t: Seq<u8>) -> Seq<u8> {
    t.take(
        if t.len() <= 21 {
            t.len() as int
        } else {
            21int
        },
    )
}

/// What failed while reading a character range: the token that was
/// expected, and the preview of the input just past the point of failure.
pub struct RangeFail {
    pub expected: Seq<char>,
    pub found: Seq<u8>,
}

/// How a character range reads from the front of `s`: the two bounds and
/// the bytes consumed, or what failed. The bounds are decoded scalars; the
/// surrounding brackets and the dash are single bytes.
pub open spec fn range_parse(s: Seq<u8>) -> Result<(char, char, int), RangeFail> {
    if s.len() == 0 || s[0] != START_MATCH {
        Result::Err(RangeFail { expected: "["@, found: snip(s.skip(sw1(s))) })
    } else {
        let r1 = s.skip(1);
        if !valid_first_scalar(r1) {
            Result::Err(RangeFail { expected: "eof"@, found: snip(r1.skip(sw1(r1))) })
        } else {
            let cfrom = decode_first_scalar(r1) as char;
            let r2 = r1.skip(length_of_first_scalar(r1));
            if r2.len() == 0 || r2[0] != MATCH_SEPARATOR {
                Result::Err(RangeFail { expected: "-"@, found: snip(r2.skip(sw1(r2))) })
            } else {
                let r3 = r2.skip(1);
                if !valid_first_scalar(r3) {
                    Result::Err(RangeFail { expected: "eof"@, found: snip(r3.skip(sw1(r3))) })
                } else {
                    let cto = decode_first_scalar(r3) as char;
                    let r4 = r3.skip(length_of_first_scalar(r3));
                    if r4.len() == 0 || r4[0] != END_MATCH {
                        Result::Err(RangeFail { expected: "]"@, found: snip(r4.skip(sw1(r4))) })
                    } else {
                        Result::Ok((cfrom, cto, s.len() - r4.len() + 1))
                    }
                }
            }
        }
    }
}

/// Drops the first scalar of `s`: its whole encoding when well formed, one
/// byte when not, nothing when `s` is empty.
fn scalar_skip<'a>(s: &'a [u8]) -> (r: &'a [u8])
    ensures
        r@ == s@.skip(sw1(s@)),
{
    match decode_front(s) {
        Some((_, w)) => slice_subrange(s, w, s.len()),
        None => {
            if s.len() == 0 {
                s
            } else {
                slice_subrange(s, 1, s.len())
            }
        },
    }
}

impl CharRange {
    /// Reads `[from-to]` from the front of `input`, returning the range and
    /// the bytes consumed, or a labelled failure with a bounded preview of
    /// the input past the point of failure.
    pub fn parse_len<'a>(input: &'a [u8]) -> (r: Result<(CharRange, usize), ParseError<'a>>)
        ensures
            match r {
                Ok((cr, len)) => len <= input@.len() && range_parse(input@) == Result::<
                    (char, char, int),
                    RangeFail,
                >::Ok((cr.from, cr.to, len as int)),
                Err(e) => range_parse(input@) is Err && (e matches ParseError::ExpectedWhile {
                    parsing,
                    expected,
                    found,
                    line,
                } && parsing@ == "char range"@ && expected@ == range_parse(
                    input@,
                )->Err_0.expected && found@ == range_parse(input@)->Err_0.found && line == 0),
            },
    {
        if input.len() == 0 || input[0] != START_MATCH {
            return Err(
                ParseError::ExpectedWhile {
                    parsing: "char range",
                    expected: "[",
                    found: take_n(scalar_skip(input), 20),
                    line: 0,
                },
            );
        }
        let r1 = slice_subrange(input, 1, input.len());
        proof {
            assert(r1@ =~= input@.skip(1));
        }
        match decode_front(r1) {
            None => Err(
                ParseError::ExpectedWhile {
                    parsing: "char range",
                    expected: "eof",
                    found: take_n(scalar_skip(r1), 20),
                    line: 0,
                },
            ),
            Some((cfrom, w1)) => {
                let r2 = slice_subrange(r1, w1, r1.len());
                proof {
                    assert(r2@ =~= r1@.skip(w1 as int));
                }
                if r2.len() == 0 || r2[0] != MATCH_SEPARATOR {
                    return Err(
                        ParseError::ExpectedWhile {
                            parsing: "char range",
                            expected: "-",
                            found: take_n(scalar_skip(r2), 20),
                            line: 0,
                        },
                    );
                }
                let r3 = slice_subrange(r2, 1, r2.len());
                proof {
                    assert(r3@ =~= r2@.skip(1));
                }
                match decode_front(r3) {
                    None => Err(
                        ParseError::ExpectedWhile {
                            parsing: "char range",
                            expected: "eof",
                            found: take_n(scalar_skip(r3), 20),
                            line: 0,
                        },
                    ),
                    Some((cto, w2)) => {
                        let r4 = slice_subrange(r3, w2, r3.len());
                        proof {
                            assert(r4@ =~= r3@.skip(w2 as int));
                        }
                        if r4.len() == 0 || r4[0] != END_MATCH {
                            return Err(
                                ParseError::ExpectedWhile {
                                    parsing: "char range",
                                    expected: "]",
                                    found: take_n(scalar_skip(r4), 20),
                                    line: 0,
                                },
                            );
                        }
                        let len = input.len() - r4.len() + 1;
                        proof {
                            vstd::utf8::char_u32_cast(cfrom, decode_first_scalar(r1@));
                            vstd::utf8::char_u32_cast(cto, decode_first_scalar(r3@));
                        }
                        Ok((CharRange { from: cfrom, to: cto }, len))
                    },
                }
            },
        }
    }

    /// Reads `[from-to]` and also hands back what follows it.
    pub fn parse_and_skip<'a>(input: &'a [u8]) -> (r: Result<
        (CharRange, &'a [u8]),
        ParseError<'a>,
    >)
        ensures
            match r {
                Ok((cr, rest)) => range_parse(input@) is Ok && {
                    let (f, t, len) = range_parse(input@)->Ok_0;
                    cr.from == f && cr.to == t && rest@ == input@.skip(len)
                },
                Err(e) => range_parse(input@) is Err && (e matches ParseError::ExpectedWhile {
                    parsing,
                    expected,
                    found,
                    line,
                } && parsing@ == "char range"@ && expected@ == range_parse(
                    input@,
                )->Err_0.expected && found@ == range_parse(input@)->Err_0.found && line == 0),
            },
    {
        match Self::parse_len(input) {
            Ok((cr, len)) => {
                proof {
                    assert(range_parse(input@)->Ok_0.2 == len as int);
                }
                Ok((cr, slice_subrange(input, len, input.len())))
            },
            Err(e) => Err(e),
        }
    }
}

} // verus!
