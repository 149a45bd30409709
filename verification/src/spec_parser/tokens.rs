use vstd::prelude::*;
use vstd::slice::slice_subrange;

use crate::utils::eq_byte_pred;
use crate::utils::ident_pred;
use crate::utils::not_byte_pred;
use crate::utils::run_len;
use crate::utils::strip_rep;
use crate::utils::strip_repeats_len;
use crate::utils::take_while_byte;
use crate::utils::take_while_ident;
use crate::utils::take_while_not_byte;
use crate::utils::take_while_ws;
use crate::utils::ws_pred;

verus! {

pub const SINGLE_QUOTE: u8 = 39;

pub const DOUBLE_QUOTE: u8 = 34;

pub const START_IDENT: u8 = 60;

pub const STOP_IDENT: u8 = 62;

pub const SEPARATOR: u8 = 124;

pub const COLUMN: u8 = 58;

pub const SEMICOLUMN: u8 = 59;

/// The two bytes of the assignment arrow.
pub open spec fn arrow() -> Seq<u8> {
    seq![45u8, 62u8]
}

/// The assignment arrow as a byte slice.
pub fn arrow_bytes() -> (r: &'static [u8])
    ensures
        r@ == arrow(),
{
    let a: &'static [u8] = &[45u8, 62u8];
    proof {
        assert(a@ =~= arrow());
    }
    a
}

/// Bytes consumed by a token made of one `open` byte, a run of bytes
/// satisfying `p`, and one `close` byte; nothing when that shape is absent.
pub open spec fn delim_parse(s: Seq<u8>, open: u8, close: u8, p: spec_fn(u8) -> bool) -> Option<
    nat,
> {
    if s.len() == 0 || s[0] != open {
        None
    } else {
        let c = run_len(s.skip(1), p);
        if c + 1 < s.len() && s[(c + 1) as int] == close {
            Some(c + 2)
        } else {
            None
        }
    }
}

/// Bytes consumed by a leading whitespace token; nothing when there is none.
pub open spec fn space_parse(s: Seq<u8>) -> Option<nat> {
    let k = run_len(s, ws_pred());
    if k == 0 {
        None
    } else {
        Some(k)
    }
}

/// Bytes consumed by a leading run of separator bars; nothing when there is none.
pub open spec fn separator_parse(s: Seq<u8>) -> Option<nat> {
    let k = run_len(s, eq_byte_pred(SEPARATOR));
    if k == 0 {
        None
    } else {
        Some(k)
    }
}

/// Bytes consumed by a leading run of assignment arrows; nothing when there is none.
pub open spec fn assign_parse(s: Seq<u8>) -> Option<nat> {
    let k = s.len() - strip_rep(s, arrow()).len();
    if k == 0 {
        None
    } else {
        Some(k as nat)
    }
}

/// Bytes consumed by a leading single-quoted literal; nothing when there is none.
pub open spec fn single_quote_parse(s: Seq<u8>) -> Option<nat> {
    delim_parse(s, SINGLE_QUOTE, SINGLE_QUOTE, not_byte_pred(SINGLE_QUOTE))
}

/// Bytes consumed by a leading double-quoted literal; nothing when there is none.
pub open spec fn double_quote_parse(s: Seq<u8>) -> Option<nat> {
    delim_parse(s, DOUBLE_QUOTE, DOUBLE_QUOTE, not_byte_pred(DOUBLE_QUOTE))
}

/// Bytes consumed by a leading angle-bracket identifier; nothing when there is none.
pub open spec fn identifier_parse(s: Seq<u8>) -> Option<nat> {
    delim_parse(s, START_IDENT, STOP_IDENT, ident_pred())
}

#[derive(Debug, PartialEq)]
pub struct Assign<'a>(pub &'a [u8]);

#[derive(Debug, PartialEq)]
pub struct Separator<'a>(pub &'a [u8]);

#[derive(Debug, PartialEq)]
pub struct SingleQuote<'a>(pub &'a [u8]);

#[derive(Debug, PartialEq)]
pub struct DoubleQuote<'a>(pub &'a [u8]);

#[derive(Debug, PartialEq)]
pub struct Identifier<'a>(pub &'a [u8]);

#[derive(Debug, PartialEq)]
pub struct Space<'a>(pub &'a [u8]);

impl<'a> View for Assign<'a> {
    type V = Seq<u8>;

    open spec fn view(&self) -> Seq<u8> {
        self.0@
    }
}

impl<'a> View for Separator<'a> {
    type V = Seq<u8>;

    open spec fn view(&self) -> Seq<u8> {
        self.0@
    }
}

impl<'a> View for SingleQuote<'a> {
    type V = Seq<u8>;

    open spec fn view(&self) -> Seq<u8> {
        self.0@
    }
}

impl<'a> View for DoubleQuote<'a> {
    type V = Seq<u8>;

    open spec fn view(&self) -> Seq<u8> {
        self.0@
    }
}

impl<'a> View for Identifier<'a> {
    type V = Seq<u8>;

    open spec fn view(&self) -> Seq<u8> {
        self.0@
    }
}

impl<'a> View for Space<'a> {
    type V = Seq<u8>;

    open spec fn view(&self) -> Seq<u8> {
        self.0@
    }
}

impl<'a> Assign<'a> {
    pub fn parse_len(input: &'a [u8]) -> (r: Option<(Assign<'a>, usize)>)
        ensures
            match r {
                Some((t, len)) => len <= input@.len() && assign_parse(input@) == Some(len as nat)
                    && t@ == input@.take(len as int),
                None => assign_parse(input@) is None,
            },
    {
        let n = strip_repeats_len(input, arrow_bytes());
        if n == 0 {
            None
        } else {
            Some((Assign(slice_subrange(input, 0, n)), n))
        }
    }

    pub fn parse_and_skip(input: &'a [u8]) -> (r: Option<(Assign<'a>, &'a [u8])>)
        ensures
            match r {
                Some((t, rest)) => assign_parse(input@) is Some && t@ == input@.take(
                    assign_parse(input@).unwrap() as int,
                ) && rest@ == input@.skip(assign_parse(input@).unwrap() as int),
                None => assign_parse(input@) is None,
            },
    {
        match Self::parse_len(input) {
            Some((t, len)) => Some((t, slice_subrange(input, len, input.len()))),
            None => None,
        }
    }
}

impl<'a> Separator<'a> {
    pub fn parse_len(input: &'a [u8]) -> (r: Option<(Separator<'a>, usize)>)
        ensures
            match r {
                Some((t, len)) => len <= input@.len() && separator_parse(input@) == Some(
                    len as nat,
                ) && t@ == input@.take(len as int),
                None => separator_parse(input@) is None,
            },
    {
        let n = take_while_byte(input, SEPARATOR);
        if n == 0 {
            None
        } else {
            Some((Separator(slice_subrange(input, 0, n)), n))
        }
    }

    pub fn parse_and_skip(input: &'a [u8]) -> (r: Option<(Separator<'a>, &'a [u8])>)
        ensures
            match r {
                Some((t, rest)) => separator_parse(input@) is Some && t@ == input@.take(
                    separator_parse(input@).unwrap() as int,
                ) && rest@ == input@.skip(separator_parse(input@).unwrap() as int),
                None => separator_parse(input@) is None,
            },
    {
        match Self::parse_len(input) {
            Some((t, len)) => Some((t, slice_subrange(input, len, input.len()))),
            None => None,
        }
    }
}

impl<'a> Space<'a> {
    pub fn parse_len(input: &'a [u8]) -> (r: Option<(Space<'a>, usize)>)
        ensures
            match r {
                Some((t, len)) => len <= input@.len() && space_parse(input@) == Some(len as nat)
                    && t@ == input@.take(len as int),
                None => space_parse(input@) is None,
            },
    {
        let n = take_while_ws(input);
        if n == 0 {
            None
        } else {
            Some((Space(slice_subrange(input, 0, n)), n))
        }
    }

    pub fn parse_and_skip(input: &'a [u8]) -> (r: Option<(Space<'a>, &'a [u8])>)
        ensures
            match r {
                Some((t, rest)) => space_parse(input@) is Some && t@ == input@.take(
                    space_parse(input@).unwrap() as int,
                ) && rest@ == input@.skip(space_parse(input@).unwrap() as int),
                None => space_parse(input@) is None,
            },
    {
        match Self::parse_len(input) {
            Some((t, len)) => Some((t, slice_subrange(input, len, input.len()))),
            None => None,
        }
    }
}

impl<'a> SingleQuote<'a> {
    pub fn parse_len(input: &'a [u8]) -> (r: Option<(SingleQuote<'a>, usize)>)
        ensures
            match r {
                Some((t, len)) => single_quote_parse(input@) == Some(len as nat) && t@
                    == input@.take(len as int),
                None => single_quote_parse(input@) is None,
            },
    {
        if input.len() == 0 || input[0] != SINGLE_QUOTE {
            return None;
        }
        let tail = slice_subrange(input, 1, input.len());
        proof {
            assert(tail@ =~= input@.skip(1));
        }
        let c = take_while_not_byte(tail, SINGLE_QUOTE);
        let t = c + 1;
        if t < input.len() && input[t] == SINGLE_QUOTE {
            Some((SingleQuote(slice_subrange(input, 0, t + 1)), t + 1))
        } else {
            None
        }
    }

    pub fn parse_and_skip(input: &'a [u8]) -> (r: Option<(SingleQuote<'a>, &'a [u8])>)
        ensures
            match r {
                Some((t, rest)) => single_quote_parse(input@) is Some && t@ == input@.take(
                    single_quote_parse(input@).unwrap() as int,
                ) && rest@ == input@.skip(single_quote_parse(input@).unwrap() as int),
                None => single_quote_parse(input@) is None,
            },
    {
        match Self::parse_len(input) {
            Some((t, len)) => Some((t, slice_subrange(input, len, input.len()))),
            None => None,
        }
    }
}

impl<'a> DoubleQuote<'a> {
    pub fn parse_len(input: &'a [u8]) -> (r: Option<(DoubleQuote<'a>, usize)>)
        ensures
            match r {
                Some((t, len)) => double_quote_parse(input@) == Some(len as nat) && t@
                    == input@.take(len as int),
                None => double_quote_parse(input@) is None,
            },
    {
        if input.len() == 0 || input[0] != DOUBLE_QUOTE {
            return None;
        }
        let tail = slice_subrange(input, 1, input.len());
        proof {
            assert(tail@ =~= input@.skip(1));
        }
        let c = take_while_not_byte(tail, DOUBLE_QUOTE);
        let t = c + 1;
        if t < input.len() && input[t] == DOUBLE_QUOTE {
            Some((DoubleQuote(slice_subrange(input, 0, t + 1)), t + 1))
        } else {
            None
        }
    }

    pub fn parse_and_skip(input: &'a [u8]) -> (r: Option<(DoubleQuote<'a>, &'a [u8])>)
        ensures
            match r {
                Some((t, rest)) => double_quote_parse(input@) is Some && t@ == input@.take(
                    double_quote_parse(input@).unwrap() as int,
                ) && rest@ == input@.skip(double_quote_parse(input@).unwrap() as int),
                None => double_quote_parse(input@) is None,
            },
    {
        match Self::parse_len(input) {
            Some((t, len)) => Some((t, slice_subrange(input, len, input.len()))),
            None => None,
        }
    }
}

impl<'a> Identifier<'a> {
    pub fn parse_len(input: &'a [u8]) -> (r: Option<(Identifier<'a>, usize)>)
        ensures
            match r {
                Some((t, len)) => identifier_parse(input@) == Some(len as nat) && t@
                    == input@.take(len as int),
                None => identifier_parse(input@) is None,
            },
    {
        if input.len() == 0 || input[0] != START_IDENT {
            return None;
        }
        let tail = slice_subrange(input, 1, input.len());
        proof {
            assert(tail@ =~= input@.skip(1));
        }
        let c = take_while_ident(tail);
        let t = c + 1;
        if t < input.len() && input[t] == STOP_IDENT {
            Some((Identifier(slice_subrange(input, 0, t + 1)), t + 1))
        } else {
            None
        }
    }

    pub fn parse_and_skip(input: &'a [u8]) -> (r: Option<(Identifier<'a>, &'a [u8])>)
        ensures
            match r {
                Some((t, rest)) => identifier_parse(input@) is Some && t@ == input@.take(
                    identifier_parse(input@).unwrap() as int,
                ) && rest@ == input@.skip(identifier_parse(input@).unwrap() as int),
                None => identifier_parse(input@) is None,
            },
    {
        match Self::parse_len(input) {
            Some((t, len)) => Some((t, slice_subrange(input, len, input.len()))),
            None => None,
        }
    }
}

} // verus!
