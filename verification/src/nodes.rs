use vstd::prelude::*;
use vstd::slice::slice_subrange;

use crate::bnf::bnf_name_len;
use crate::bnf::bnf_quoted_len;
use crate::utils::alpha_pred;
use crate::utils::is_pre;
use crate::utils::not_nl_pred;
use crate::utils::run_len;
use crate::utils::strip_rep;
use crate::utils::strip_repeats_len;
use crate::utils::take_while_alpha;
use crate::utils::take_while_byte;
use crate::utils::take_while_not_nl;
use crate::utils::take_while_ws;
use crate::utils::ws_pred;

verus! {

pub const SINGLE_QUOTE: u8 = 39;

pub const DOUBLE_QUOTE: u8 = 34;

pub const START_IDENT: u8 = 60;

pub const STOP_IDENT: u8 = 62;

pub const SEPARATOR: u8 = 124;

#[derive(Debug, PartialEq)]
pub struct Space<'a>(pub &'a [u8]);

#[derive(Debug, PartialEq)]
pub struct SingleQuote<'a>(pub &'a [u8]);

#[derive(Debug, PartialEq)]
pub struct DoubleQuote<'a>(pub &'a [u8]);

#[derive(Debug, PartialEq)]
pub struct Identifier<'a>(pub &'a [u8]);

#[derive(Debug, PartialEq)]
pub struct Comment<'a>(pub &'a [u8]);

#[derive(Debug, PartialEq)]
pub struct Assign<'a>(pub &'a [u8]);

#[derive(Debug, PartialEq)]
pub struct Separator<'a>(pub &'a [u8]);

#[derive(Debug, PartialEq)]
pub struct Word<'a>(pub &'a [u8]);

/// What follows `input`'s front once the leading repetitions of `span`
/// are dropped; nothing when not even one copy stands there.
fn skip_span<'a>(span: &[u8], input: &'a [u8]) -> (r: Option<&'a [u8]>)
    ensures
        match r {
            Some(rest) => rest@ == strip_rep(input@, span@) && rest@.len() < input@.len(),
            None => strip_rep(input@, span@) == input@,
        },
{
    let n = strip_repeats_len(input, span);
    if n != 0 {
        Some(slice_subrange(input, n, input.len()))
    } else {
        None
    }
}

impl<'a> Space<'a> {
    /// Reads a whitespace run.
    pub fn parse_len(input: &'a [u8]) -> (r: Option<(Space<'a>, usize)>)
        ensures
            match r {
                Some((t, len)) => run_len(input@, ws_pred()) == len && len > 0 && t.0@
                    == input@.take(len as int),
                None => run_len(input@, ws_pred()) == 0,
            },
    {
        let n = take_while_ws(input);
        if n == 0 {
            None
        } else {
            Some((Space(slice_subrange(input, 0, n)), n))
        }
    }

    /// Reads a whitespace run, keeping only the token.
    pub fn parse(input: &'a [u8]) -> (r: Option<Space<'a>>)
        ensures
            match r {
                Some(t) => run_len(input@, ws_pred()) > 0 && t.0@ == input@.take(
                    run_len(input@, ws_pred()) as int,
                ),
                None => run_len(input@, ws_pred()) == 0,
            },
    {
        match Self::parse_len(input) {
            Some((t, _)) => Some(t),
            None => None,
        }
    }

    /// The matched span.
    pub fn as_str(&self) -> (r: &'a [u8])
        ensures
            r@ == self.0@,
    {
        self.0
    }

    /// Drops this token's span, repeated, from the front of `input`.
    pub fn skip_source(&self, input: &'a [u8]) -> (r: Option<&'a [u8]>)
        ensures
            match r {
                Some(rest) => rest@ == strip_rep(input@, self.0@) && rest@.len() < input@.len(),
                None => strip_rep(input@, self.0@) == input@,
            },
    {
        skip_span(self.0, input)
    }
}

impl<'a> SingleQuote<'a> {
    /// Reads a single-quoted literal of the early shape.
    pub fn parse_len(input: &'a [u8]) -> (r: Option<(SingleQuote<'a>, usize)>)
        ensures
            match r {
                Some((t, len)) => bnf_quoted_len(input@, SINGLE_QUOTE) == Some(len as int) && t.0@
                    == input@.take(len as int),
                None => bnf_quoted_len(input@, SINGLE_QUOTE) is None,
            },
    {
        match crate::bnf::single_quoted(input) {
            Some(m) => {
                proof {
                    let k = run_len(input@, crate::utils::eq_byte_pred(39)) as int;
                    crate::utils::lemma_run_len_bytes(input@, crate::utils::eq_byte_pred(39));
                    crate::utils::lemma_run_len_bytes(
                        input@.skip(k),
                        crate::utils::not_byte_pred(39),
                    );
                }
                Some((SingleQuote(m), m.len()))
            },
            None => None,
        }
    }

    /// Reads the literal, keeping only the token.
    pub fn parse(input: &'a [u8]) -> (r: Option<SingleQuote<'a>>)
        ensures
            match r {
                Some(t) => bnf_quoted_len(input@, SINGLE_QUOTE) is Some && t.0@ == input@.take(
                    bnf_quoted_len(input@, SINGLE_QUOTE).unwrap(),
                ),
                None => bnf_quoted_len(input@, SINGLE_QUOTE) is None,
            },
    {
        match Self::parse_len(input) {
            Some((t, _)) => Some(t),
            None => None,
        }
    }

    /// The matched span.
    pub fn as_str(&self) -> (r: &'a [u8])
        ensures
            r@ == self.0@,
    {
        self.0
    }

    /// Drops this token's span, repeated, from the front of `input`.
    pub fn skip_source(&self, input: &'a [u8]) -> (r: Option<&'a [u8]>)
        ensures
            match r {
                Some(rest) => rest@ == strip_rep(input@, self.0@) && rest@.len() < input@.len(),
                None => strip_rep(input@, self.0@) == input@,
            },
    {
        skip_span(self.0, input)
    }
}

impl<'a> DoubleQuote<'a> {
    /// Reads a double-quoted literal of the early shape.
    pub fn parse_len(input: &'a [u8]) -> (r: Option<(DoubleQuote<'a>, usize)>)
        ensures
            match r {
                Some((t, len)) => bnf_quoted_len(input@, DOUBLE_QUOTE) == Some(len as int) && t.0@
                    == input@.take(len as int),
                None => bnf_quoted_len(input@, DOUBLE_QUOTE) is None,
            },
    {
        match crate::bnf::double_quoted(input) {
            Some(m) => {
                proof {
                    let k = run_len(input@, crate::utils::eq_byte_pred(34)) as int;
                    crate::utils::lemma_run_len_bytes(input@, crate::utils::eq_byte_pred(34));
                    crate::utils::lemma_run_len_bytes(
                        input@.skip(k),
                        crate::utils::not_byte_pred(34),
                    );
                }
                Some((DoubleQuote(m), m.len()))
            },
            None => None,
        }
    }

    /// Reads the literal, keeping only the token.
    pub fn parse(input: &'a [u8]) -> (r: Option<DoubleQuote<'a>>)
        ensures
            match r {
                Some(t) => bnf_quoted_len(input@, DOUBLE_QUOTE) is Some && t.0@ == input@.take(
                    bnf_quoted_len(input@, DOUBLE_QUOTE).unwrap(),
                ),
                None => bnf_quoted_len(input@, DOUBLE_QUOTE) is None,
            },
    {
        match Self::parse_len(input) {
            Some((t, _)) => Some(t),
            None => None,
        }
    }

    /// The matched span.
    pub fn as_str(&self) -> (r: &'a [u8])
        ensures
            r@ == self.0@,
    {
        self.0
    }

    /// Drops this token's span, repeated, from the front of `input`.
    pub fn skip_source(&self, input: &'a [u8]) -> (r: Option<&'a [u8]>)
        ensures
            match r {
                Some(rest) => rest@ == strip_rep(input@, self.0@) && rest@.len() < input@.len(),
                None => strip_rep(input@, self.0@) == input@,
            },
    {
        skip_span(self.0, input)
    }
}

impl<'a> Identifier<'a> {
    /// Reads an angle-bracket identifier of the early shape.
    pub fn parse_len(input: &'a [u8]) -> (r: Option<(Identifier<'a>, usize)>)
        ensures
            match r {
                Some((t, len)) => bnf_name_len(input@) == Some(len as int) && t.0@ == input@.take(
                    len as int,
                ),
                None => bnf_name_len(input@) is None,
            },
    {
        match crate::bnf::name(input) {
            Some(m) => {
                proof {
                    assert(is_pre(seq![60u8], input@)) by {
                        assert(input@.subrange(0, 1) =~= seq![60u8]);
                    }
                    assert(strip_rep(input@, seq![60u8]) == strip_rep(
                        input@.skip(1),
                        seq![60u8],
                    ));
                    crate::utils::lemma_strip_rep_len(input@.skip(1), seq![60u8]);
                    crate::utils::lemma_run_len_bytes(
                        strip_rep(input@, seq![60u8]),
                        crate::utils::not_byte_pred(62),
                    );
                }
                Some((Identifier(m), m.len()))
            },
            None => None,
        }
    }

    /// Reads the identifier, keeping only the token.
    pub fn parse(input: &'a [u8]) -> (r: Option<Identifier<'a>>)
        ensures
            match r {
                Some(t) => bnf_name_len(input@) is Some && t.0@ == input@.take(
                    bnf_name_len(input@).unwrap(),
                ),
                None => bnf_name_len(input@) is None,
            },
    {
        match Self::parse_len(input) {
            Some((t, _)) => Some(t),
            None => None,
        }
    }

    /// The matched span.
    pub fn as_str(&self) -> (r: &'a [u8])
        ensures
            r@ == self.0@,
    {
        self.0
    }

    /// Drops this token's span, repeated, from the front of `input`.
    pub fn skip_source(&self, input: &'a [u8]) -> (r: Option<&'a [u8]>)
        ensures
            match r {
                Some(rest) => rest@ == strip_rep(input@, self.0@) && rest@.len() < input@.len(),
                None => strip_rep(input@, self.0@) == input@,
            },
    {
        skip_span(self.0, input)
    }
}

impl<'a> Comment<'a> {
    /// Reads a semicolon comment running to the end of the line.
    pub fn parse_len(input: &'a [u8]) -> (r: Option<(Comment<'a>, usize)>)
        ensures
            match r {
                Some((t, len)) => input@.len() > 0 && input@[0] == 59 && len == run_len(
                    input@,
                    not_nl_pred(),
                ) && t.0@ == input@.take(len as int),
                None => input@.len() == 0 || input@[0] != 59,
            },
    {
        if input.len() == 0 || input[0] != 59 {
            return None;
        }
        let n = take_while_not_nl(input);
        Some((Comment(slice_subrange(input, 0, n)), n))
    }

    /// The matched span.
    pub fn as_str(&self) -> (r: &'a [u8])
        ensures
            r@ == self.0@,
    {
        self.0
    }

    /// Drops this token's span, repeated, from the front of `input`.
    pub fn skip_source(&self, input: &'a [u8]) -> (r: Option<&'a [u8]>)
        ensures
            match r {
                Some(rest) => rest@ == strip_rep(input@, self.0@) && rest@.len() < input@.len(),
                None => strip_rep(input@, self.0@) == input@,
            },
    {
        skip_span(self.0, input)
    }
}

impl<'a> Assign<'a> {
    /// Reads the early-style assignment arrow.
    pub fn parse_len(input: &'a [u8]) -> (r: Option<(Assign<'a>, usize)>)
        ensures
            match r {
                Some((t, len)) => is_pre(seq![45u8, 62u8], input@) && len == 2 && t.0@
                    == input@.take(2),
                None => !is_pre(seq![45u8, 62u8], input@),
            },
    {
        match crate::bnf::assign(input) {
            Some(m) => Some((Assign(m), 2)),
            None => None,
        }
    }

    /// The matched span.
    pub fn as_str(&self) -> (r: &'a [u8])
        ensures
            r@ == self.0@,
    {
        self.0
    }

    /// Drops this token's span, repeated, from the front of `input`.
    pub fn skip_source(&self, input: &'a [u8]) -> (r: Option<&'a [u8]>)
        ensures
            match r {
                Some(rest) => rest@ == strip_rep(input@, self.0@) && rest@.len() < input@.len(),
                None => strip_rep(input@, self.0@) == input@,
            },
    {
        skip_span(self.0, input)
    }
}

impl<'a> Separator<'a> {
    /// Reads one alternation bar.
    pub fn parse_len(input: &'a [u8]) -> (r: Option<(Separator<'a>, usize)>)
        ensures
            match r {
                Some((t, len)) => input@.len() > 0 && input@[0] == SEPARATOR && len == 1 && t.0@
                    == input@.take(1),
                None => input@.len() == 0 || input@[0] != SEPARATOR,
            },
    {
        if input.len() > 0 && input[0] == SEPARATOR {
            Some((Separator(slice_subrange(input, 0, 1)), 1))
        } else {
            None
        }
    }

    /// Reads one alternation bar, keeping only the token.
    pub fn parse(input: &'a [u8]) -> (r: Option<Separator<'a>>)
        ensures
            match r {
                Some(t) => input@.len() > 0 && input@[0] == SEPARATOR && t.0@ == input@.take(1),
                None => input@.len() == 0 || input@[0] != SEPARATOR,
            },
    {
        match Self::parse_len(input) {
            Some((t, _)) => Some(t),
            None => None,
        }
    }

    /// The matched span.
    pub fn as_str(&self) -> (r: &'a [u8])
        ensures
            r@ == self.0@,
    {
        self.0
    }

    /// Drops this token's span, repeated, from the front of `input`.
    pub fn skip_source(&self, input: &'a [u8]) -> (r: Option<&'a [u8]>)
        ensures
            match r {
                Some(rest) => rest@ == strip_rep(input@, self.0@) && rest@.len() < input@.len(),
                None => strip_rep(input@, self.0@) == input@,
            },
    {
        skip_span(self.0, input)
    }
}

impl<'a> Word<'a> {
    /// Reads a run of letters.
    pub fn parse_len(input: &'a [u8]) -> (r: Option<(Word<'a>, usize)>)
        ensures
            match r {
                Some((t, len)) => run_len(input@, alpha_pred()) == len && len > 0 && t.0@
                    == input@.take(len as int),
                None => run_len(input@, alpha_pred()) == 0,
            },
    {
        let n = take_while_alpha(input);
        if n == 0 {
            None
        } else {
            Some((Word(slice_subrange(input, 0, n)), n))
        }
    }

    /// The matched span.
    pub fn as_str(&self) -> (r: &'a [u8])
        ensures
            r@ == self.0@,
    {
        self.0
    }
}

/// Mathematical model of one early-style primitive token: the kind and
/// its span.
pub enum PrimV {
    PSpace(Seq<u8>),
    PSingle(Seq<u8>),
    PDouble(Seq<u8>),
    PIdent(Seq<u8>),
    PComment(Seq<u8>),
    PAssign(Seq<u8>),
    PSeparator(Seq<u8>),
}

/// Which early-style primitive starts `s`, trying whitespace, single
/// quote, double quote, identifier, comment, arrow and bar in that
/// order.
pub open spec fn prim_parse(s: Seq<u8>) -> Option<PrimV> {
    if run_len(s, ws_pred()) > 0 {
        Some(PrimV::PSpace(s.take(run_len(s, ws_pred()) as int)))
    } else if bnf_quoted_len(s, SINGLE_QUOTE) is Some {
        Some(PrimV::PSingle(s.take(bnf_quoted_len(s, SINGLE_QUOTE).unwrap())))
    } else if bnf_quoted_len(s, DOUBLE_QUOTE) is Some {
        Some(PrimV::PDouble(s.take(bnf_quoted_len(s, DOUBLE_QUOTE).unwrap())))
    } else if bnf_name_len(s) is Some {
        Some(PrimV::PIdent(s.take(bnf_name_len(s).unwrap())))
    } else if s.len() > 0 && s[0] == 59 {
        Some(PrimV::PComment(s.take(run_len(s, not_nl_pred()) as int)))
    } else if is_pre(seq![45u8, 62u8], s) {
        Some(PrimV::PAssign(s.take(2)))
    } else if s.len() > 0 && s[0] == SEPARATOR {
        Some(PrimV::PSeparator(s.take(1)))
    } else {
        None
    }
}

/// One early-style primitive token.
#[derive(Debug, PartialEq)]
pub enum Primitive<'a> {
    Space(Space<'a>),
    SingleQuote(SingleQuote<'a>),
    DoubleQuote(DoubleQuote<'a>),
    Identifier(Identifier<'a>),
    Comment(Comment<'a>),
    Assign(Assign<'a>),
    Separator(Separator<'a>),
}

impl<'a> View for Primitive<'a> {
    type V = PrimV;

    open spec fn view(&self) -> PrimV {
        match self {
            Primitive::Space(t) => PrimV::PSpace(t.0@),
            Primitive::SingleQuote(t) => PrimV::PSingle(t.0@),
            Primitive::DoubleQuote(t) => PrimV::PDouble(t.0@),
            Primitive::Identifier(t) => PrimV::PIdent(t.0@),
            Primitive::Comment(t) => PrimV::PComment(t.0@),
            Primitive::Assign(t) => PrimV::PAssign(t.0@),
            Primitive::Separator(t) => PrimV::PSeparator(t.0@),
        }
    }
}

impl<'a> Primitive<'a> {
    /// Reads whichever primitive token starts `input`.
    pub fn parse(input: &'a [u8]) -> (r: Option<Primitive<'a>>)
        ensures
            match r {
                Some(t) => prim_parse(input@) == Some(t@),
                None => prim_parse(input@) is None,
            },
    {
        if let Some(n) = Space::parse(input) {
            return Some(Primitive::Space(n));
        }
        if let Some(n) = SingleQuote::parse(input) {
            return Some(Primitive::SingleQuote(n));
        }
        if let Some(n) = DoubleQuote::parse(input) {
            return Some(Primitive::DoubleQuote(n));
        }
        if let Some(n) = Identifier::parse(input) {
            return Some(Primitive::Identifier(n));
        }
        if let Some((n, _)) = Comment::parse_len(input) {
            return Some(Primitive::Comment(n));
        }
        if let Some((n, _)) = Assign::parse_len(input) {
            return Some(Primitive::Assign(n));
        }
        if let Some(n) = Separator::parse(input) {
            return Some(Primitive::Separator(n));
        }
        None
    }

    /// The matched span, whichever kind the token is.
    pub fn as_str(&self) -> (r: &'a [u8])
        ensures
            match self@ {
                PrimV::PSpace(s) => r@ == s,
                PrimV::PSingle(s) => r@ == s,
                PrimV::PDouble(s) => r@ == s,
                PrimV::PIdent(s) => r@ == s,
                PrimV::PComment(s) => r@ == s,
                PrimV::PAssign(s) => r@ == s,
                PrimV::PSeparator(s) => r@ == s,
            },
    {
        match self {
            Primitive::Space(n) => n.as_str(),
            Primitive::SingleQuote(n) => n.as_str(),
            Primitive::DoubleQuote(n) => n.as_str(),
            Primitive::Identifier(n) => n.as_str(),
            Primitive::Comment(n) => n.as_str(),
            Primitive::Assign(n) => n.as_str(),
            Primitive::Separator(n) => n.as_str(),
        }
    }
}


/// Mathematical model of one early-style rule piece.
pub enum RPieceV {
    RIdent(Seq<u8>),
    RSingle(Seq<u8>),
    RDouble(Seq<u8>),
}

/// Which early-style rule piece starts `s`: an identifier, a
/// single-quoted or a double-quoted literal, tried in that order.
pub open spec fn rpiece_parse(s: Seq<u8>) -> Option<(RPieceV, int)> {
    if bnf_name_len(s) is Some {
        Some((RPieceV::RIdent(s.take(bnf_name_len(s).unwrap())), bnf_name_len(s).unwrap()))
    } else if bnf_quoted_len(s, SINGLE_QUOTE) is Some {
        Some(
            (
                RPieceV::RSingle(s.take(bnf_quoted_len(s, SINGLE_QUOTE).unwrap())),
                bnf_quoted_len(s, SINGLE_QUOTE).unwrap(),
            ),
        )
    } else if bnf_quoted_len(s, DOUBLE_QUOTE) is Some {
        Some(
            (
                RPieceV::RDouble(s.take(bnf_quoted_len(s, DOUBLE_QUOTE).unwrap())),
                bnf_quoted_len(s, DOUBLE_QUOTE).unwrap(),
            ),
        )
    } else {
        None
    }
}

/// One early-style rule piece.
#[derive(Debug, PartialEq)]
pub enum RulePiece<'a> {
    Identifier(Identifier<'a>),
    SingleQuote(SingleQuote<'a>),
    DoubleQuote(DoubleQuote<'a>),
}

impl<'a> View for RulePiece<'a> {
    type V = RPieceV;

    open spec fn view(&self) -> RPieceV {
        match self {
            RulePiece::Identifier(t) => RPieceV::RIdent(t.0@),
            RulePiece::SingleQuote(t) => RPieceV::RSingle(t.0@),
            RulePiece::DoubleQuote(t) => RPieceV::RDouble(t.0@),
        }
    }
}

/// The models of a list of early-style rule pieces.
pub open spec fn rpieces_view<'a>(v: Seq<RulePiece<'a>>) -> Seq<RPieceV> {
    v.map_values(|p: RulePiece<'a>| p@)
}

impl<'a> RulePiece<'a> {
    /// The matched span, whichever kind the piece is.
    pub fn as_str(&self) -> (r: &'a [u8])
        ensures
            match self@ {
                RPieceV::RIdent(s) => r@ == s,
                RPieceV::RSingle(s) => r@ == s,
                RPieceV::RDouble(s) => r@ == s,
            },
    {
        match self {
            RulePiece::Identifier(n) => n.as_str(),
            RulePiece::SingleQuote(n) => n.as_str(),
            RulePiece::DoubleQuote(n) => n.as_str(),
        }
    }

    /// Reads whichever rule piece starts `input`, and its length.
    pub fn parse_len(input: &'a [u8]) -> (r: Option<(RulePiece<'a>, usize)>)
        ensures
            match r {
                Some((p, len)) => 1 <= len <= input@.len() && rpiece_parse(input@) == Some(
                    (p@, len as int),
                ),
                None => rpiece_parse(input@) is None,
            },
    {
        proof {
            lemma_rpiece_len(input@);
        }
        if let Some((ident, len)) = Identifier::parse_len(input) {
            return Some((RulePiece::Identifier(ident), len));
        }
        if let Some((quote, len)) = SingleQuote::parse_len(input) {
            return Some((RulePiece::SingleQuote(quote), len));
        }
        if let Some((quote, len)) = DoubleQuote::parse_len(input) {
            return Some((RulePiece::DoubleQuote(quote), len));
        }
        None
    }

    /// Reads whichever rule piece starts `input`, keeping only the piece.
    pub fn parse(input: &'a [u8]) -> (r: Option<RulePiece<'a>>)
        ensures
            match r {
                Some(p) => rpiece_parse(input@) is Some && rpiece_parse(input@).unwrap().0 == p@,
                None => rpiece_parse(input@) is None,
            },
    {
        match Self::parse_len(input) {
            Some((p, _)) => Some(p),
            None => None,
        }
    }
}

/// An unconsumed gathering of early-style rule pieces.
#[derive(Debug, PartialEq)]
pub struct RulePieces<'a>(pub Vec<RulePiece<'a>>);

/// An early-style rule body: pieces separated by bars.
#[derive(Debug, PartialEq)]
pub struct RuleSpec<'a>(pub Vec<RulePiece<'a>>);

impl<'a> View for RuleSpec<'a> {
    type V = Seq<RPieceV>;

    open spec fn view(&self) -> Seq<RPieceV> {
        rpieces_view(self.0@)
    }
}

/// Bytes consumed by a separator between pieces: optional whitespace, a
/// run of bars, then optional whitespace. Nothing without a bar.
pub open spec fn rsep_parse(s: Seq<u8>) -> Option<int> {
    let a = run_len(s, ws_pred()) as int;
    let s1 = s.skip(a);
    if s1.len() == 0 || s1[0] != SEPARATOR {
        None
    } else {
        let b = run_len(s1, crate::utils::eq_byte_pred(SEPARATOR)) as int;
        let s2 = s1.skip(b);
        let c = run_len(s2, ws_pred()) as int;
        Some(a + b + c)
    }
}

/// The separator, when one reads, spans at least one byte and at most
/// the whole input.
pub proof fn lemma_rsep_len(s: Seq<u8>)
    ensures
        rsep_parse(s) is Some ==> 1 <= rsep_parse(s).unwrap() <= s.len(),
{
    crate::utils::lemma_run_len_bytes(s, ws_pred());
    let a = run_len(s, ws_pred()) as int;
    let s1 = s.skip(a);
    crate::utils::lemma_run_len_bytes(s1, crate::utils::eq_byte_pred(SEPARATOR));
    let b = run_len(s1, crate::utils::eq_byte_pred(SEPARATOR)) as int;
    let s2 = s1.skip(b);
    crate::utils::lemma_run_len_bytes(s2, ws_pred());
}

/// A piece, when it reads, spans at least one byte and at most the
/// whole input.
pub proof fn lemma_rpiece_len(s: Seq<u8>)
    ensures
        rpiece_parse(s) is Some ==> 1 <= rpiece_parse(s).unwrap().1 <= s.len(),
{
    if bnf_name_len(s) is Some {
        assert(is_pre(seq![60u8], s)) by {
            assert(s.subrange(0, 1) =~= seq![60u8]);
        }
        assert(strip_rep(s, seq![60u8]) == strip_rep(s.skip(1), seq![60u8]));
        crate::utils::lemma_strip_rep_len(s.skip(1), seq![60u8]);
        crate::utils::lemma_run_len_bytes(
            strip_rep(s, seq![60u8]),
            crate::utils::not_byte_pred(62),
        );
    } else {
        crate::utils::lemma_run_len_bytes(s, crate::utils::eq_byte_pred(SINGLE_QUOTE));
        crate::utils::lemma_run_len_bytes(
            s.skip(run_len(s, crate::utils::eq_byte_pred(SINGLE_QUOTE)) as int),
            crate::utils::not_byte_pred(SINGLE_QUOTE),
        );
        crate::utils::lemma_run_len_bytes(s, crate::utils::eq_byte_pred(DOUBLE_QUOTE));
        crate::utils::lemma_run_len_bytes(
            s.skip(run_len(s, crate::utils::eq_byte_pred(DOUBLE_QUOTE)) as int),
            crate::utils::not_byte_pred(DOUBLE_QUOTE),
        );
    }
}

/// A stripped whole prefix leaves a strictly shorter tail when the
/// prefix is nonempty.
proof fn lemma_strip_own_prefix(t: Seq<u8>, d: int)
    requires
        1 <= d <= t.len(),
    ensures
        strip_rep(t, t.take(d)).len() <= t.len() - d,
{
    assert(is_pre(t.take(d), t));
    assert(strip_rep(t, t.take(d)) == strip_rep(t.skip(d), t.take(d)));
    crate::utils::lemma_strip_rep_len(t.skip(d), t.take(d));
}

/// Reads the pieces after the first one: each behind a separator, the
/// separator span and then the piece span being stripped, repeated, from
/// the front. Stops when no separator follows; fails when a separator is
/// not followed by a piece, as the early parser then gave up.
pub open spec fn rs_loop(t: Seq<u8>) -> Result<(Seq<RPieceV>, Seq<u8>), ()>
    decreases t.len(),
    via rs_loop_dec
{
    match rsep_parse(t) {
        None => Result::Ok((Seq::empty(), t)),
        Some(d) => {
            let t1 = strip_rep(t, t.take(d));
            match rpiece_parse(t1) {
                None => Result::Err(()),
                Some((p, len)) => {
                    let t2 = strip_rep(t1, t1.take(len));
                    match rs_loop(t2) {
                        Result::Err(e) => Result::Err(e),
                        Result::Ok((ps, rest)) => Result::Ok((seq![p].add(ps), rest)),
                    }
                },
            }
        },
    }
}

#[via_fn]
proof fn rs_loop_dec(t: Seq<u8>) {
    lemma_rsep_len(t);
    if rsep_parse(t) is Some {
        let d = rsep_parse(t).unwrap();
        lemma_strip_own_prefix(t, d);
        let t1 = strip_rep(t, t.take(d));
        lemma_rpiece_len(t1);
        if rpiece_parse(t1) is Some {
            let len = rpiece_parse(t1).unwrap().1;
            if len <= t1.len() && len >= 1 {
                lemma_strip_own_prefix(t1, len);
            }
        }
    }
}

/// How an early-style rule body reads: a first piece, then pieces behind
/// separators; nothing when no piece starts the input; a separate
/// outcome marks the input on which the early parser gave up outright.
pub enum RsOut {
    RsNone,
    RsPanic,
    RsOk(Seq<RPieceV>, int),
}

/// The whole early rule-body parse.
pub open spec fn rulespec_parse(s: Seq<u8>) -> RsOut {
    match rpiece_parse(s) {
        None => RsOut::RsNone,
        Some((p, len)) => {
            let t = strip_rep(s, s.take(len));
            match rs_loop(t) {
                Result::Err(_) => RsOut::RsPanic,
                Result::Ok((ps, rest)) => RsOut::RsOk(seq![p].add(ps), s.len() - rest.len()),
            }
        },
    }
}

impl<'a> RuleSpec<'a> {
    /// Reads one separator between pieces: optional whitespace around a
    /// run of bars; the consumed span.
    pub fn parse_separator(input: &'a [u8]) -> (r: Option<&'a [u8]>)
        ensures
            match r {
                Some(m) => rsep_parse(input@) is Some && m@ == input@.take(
                    rsep_parse(input@).unwrap(),
                ),
                None => rsep_parse(input@) is None,
            },
    {
        proof {
            lemma_rsep_len(input@);
        }
        let a = take_while_ws(input);
        let s1 = slice_subrange(input, a, input.len());
        proof {
            assert(s1@ =~= input@.skip(a as int));
        }
        if s1.len() == 0 || s1[0] != SEPARATOR {
            return None;
        }
        let b = take_while_byte(s1, SEPARATOR);
        let s2 = slice_subrange(s1, b, s1.len());
        proof {
            assert(s2@ =~= s1@.skip(b as int));
        }
        let c = take_while_ws(s2);
        Some(slice_subrange(input, 0, a + b + c))
    }

    /// Reads the pieces behind separators, as `rs_loop` describes.
    fn parse_rest(t: &'a [u8]) -> (r: (Vec<RulePiece<'a>>, &'a [u8]))
        requires
            rs_loop(t@) is Ok,
        ensures
            ({
                let (ps, rest) = rs_loop(t@).unwrap();
                rpieces_view(r.0@) == ps && r.1@ == rest && rest.len() <= t@.len()
            }),
        decreases t@.len(),
    {
        proof {
            lemma_rsep_len(t@);
        }
        match Self::parse_separator(t) {
            None => {
                let empty: Vec<RulePiece<'a>> = Vec::new();
                proof {
                    assert(rpieces_view(empty@) =~= Seq::<RPieceV>::empty());
                }
                (empty, t)
            },
            Some(sep) => {
                let t1 = match crate::bnf::skip(t, sep) {
                    Some(rest) => rest,
                    None => {
                        proof {
                            assert(false);
                        }
                        t
                    },
                };
                proof {
                    assert(t1@ == strip_rep(t@, t@.take(rsep_parse(t@).unwrap())));
                    lemma_strip_own_prefix(t@, rsep_parse(t@).unwrap());
                    lemma_rpiece_len(t1@);
                }
                match RulePiece::parse_len(t1) {
                    None => {
                        proof {
                            assert(false);
                        }
                        (Vec::new(), t)
                    },
                    Some((p, len)) => {
                        let span = p.as_str();
                        proof {
                            assert(span@ == t1@.take(len as int));
                        }
                        let t2 = match crate::bnf::skip(t1, span) {
                            Some(rest) => rest,
                            None => {
                                proof {
                                    assert(false);
                                }
                                t1
                            },
                        };
                        proof {
                            assert(t2@ == strip_rep(t1@, t1@.take(len as int)));
                            lemma_strip_own_prefix(t1@, len as int);
                        }
                        let (mut ps, rest) = Self::parse_rest(t2);
                        let ghost ps_before = ps@;
                        ps.insert(0, p);
                        proof {
                            assert(rpieces_view(ps@) =~= seq![p@].add(rpieces_view(ps_before)));
                        }
                        (ps, rest)
                    },
                }
            },
        }
    }

    /// Reads a whole early-style rule body: the pieces and the bytes
    /// consumed. The input must not be one on which the early parser
    /// gave up outright: a separator there is always followed by a
    /// piece.
    pub fn parse_len(input: &'a [u8]) -> (r: Option<(RuleSpec<'a>, usize)>)
        requires
            !(rulespec_parse(input@) is RsPanic),
        ensures
            match r {
                Some((rs, len)) => rulespec_parse(input@) is RsOk && ({
                    let (ps, l) = match rulespec_parse(input@) {
                        RsOut::RsOk(ps, l) => (ps, l),
                        _ => (Seq::empty(), 0int),
                    };
                    rs@ == ps && len == l && len <= input@.len()
                }),
                None => rulespec_parse(input@) is RsNone,
            },
    {
        proof {
            lemma_rpiece_len(input@);
        }
        match RulePiece::parse_len(input) {
            None => None,
            Some((p, len)) => {
                let span = p.as_str();
                proof {
                    assert(span@ == input@.take(len as int));
                }
                let t = match crate::bnf::skip(input, span) {
                    Some(rest) => rest,
                    None => {
                        proof {
                            assert(false);
                        }
                        input
                    },
                };
                proof {
                    assert(t@ == strip_rep(input@, input@.take(len as int)));
                    lemma_strip_own_prefix(input@, len as int);
                }
                let (mut ps, rest) = Self::parse_rest(t);
                let ghost ps_before = ps@;
                ps.insert(0, p);
                proof {
                    assert(rpieces_view(ps@) =~= seq![p@].add(rpieces_view(ps_before)));
                }
                let total = input.len() - rest.len();
                Some((RuleSpec(ps), total))
            },
        }
    }

    /// Reads a whole early-style rule body, keeping only the pieces.
    pub fn parse(input: &'a [u8]) -> (r: Option<RuleSpec<'a>>)
        requires
            !(rulespec_parse(input@) is RsPanic),
        ensures
            match r {
                Some(rs) => rulespec_parse(input@) is RsOk && (match rulespec_parse(input@) {
                    RsOut::RsOk(ps, _) => rs@ == ps,
                    _ => false,
                }),
                None => rulespec_parse(input@) is RsNone,
            },
    {
        match Self::parse_len(input) {
            Some((rs, _)) => Some(rs),
            None => None,
        }
    }
}

} // verus!
