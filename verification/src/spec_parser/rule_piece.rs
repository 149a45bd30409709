use vstd::prelude::*;
use vstd::slice::slice_subrange;

use super::char_range::range_parse;
use super::char_range::snip;
use super::char_range::CharRange;
use super::error::ParseError;
use super::tokens::double_quote_parse;
use super::tokens::identifier_parse;
use super::tokens::single_quote_parse;
use super::tokens::DoubleQuote;
use super::tokens::Identifier;
use super::tokens::SingleQuote;
use crate::utils::take_n;

verus! {

pub const REPEAT_TOGETHER: u8 = 43;

pub const REPEAT_SEPARATE: u8 = 42;

/// How often one piece of an alternative must match, and how repeated
/// matches are reported: one flat literal, or one child node each.
#[derive(Debug, PartialEq, Eq, Structural, Clone, Copy)]
pub enum Repetition {
    Single,
    RepeatTogether,
    RepeatSeparate,
}

/// One matching unit of a grammar alternative, before compilation.
#[derive(Debug, PartialEq)]
pub struct RulePiece<'a> {
    pub content: RulePieceContent<'a>,
    pub repetition: Repetition,
}

/// What a piece matches: a quoted literal, a rule reference by name,
/// or a character range.
#[derive(Debug, PartialEq)]
pub enum RulePieceContent<'a> {
    Single(SingleQuote<'a>),
    Double(DoubleQuote<'a>),
    Ident(Identifier<'a>),
    Range(CharRange),
}

/// Mathematical model of a piece's content: the token's whole span, or the
/// two bounds of a range.
pub enum PieceContentV {
    Single(Seq<u8>),
    Double(Seq<u8>),
    Ident(Seq<u8>),
    Range(char, char),
}

/// Mathematical model of one piece.
pub struct PieceV {
    pub content: PieceContentV,
    pub rep: Repetition,
}

impl<'a> View for RulePieceContent<'a> {
    type V = PieceContentV;

    open spec fn view(&self) -> PieceContentV {
        match self {
            RulePieceContent::Single(t) => PieceContentV::Single(t@),
            RulePieceContent::Double(t) => PieceContentV::Double(t@),
            RulePieceContent::Ident(t) => PieceContentV::Ident(t@),
            RulePieceContent::Range(cr) => PieceContentV::Range(cr.from, cr.to),
        }
    }
}

impl<'a> View for RulePiece<'a> {
    type V = PieceV;

    open spec fn view(&self) -> PieceV {
        PieceV { content: self.content@, rep: self.repetition }
    }
}

/// The spans a parsed piece carries are well formed: a delimited token is
/// at least its two delimiters long.
pub open spec fn piece_wf(p: PieceV) -> bool {
    match p.content {
        PieceContentV::Single(sp) => sp.len() >= 2,
        PieceContentV::Double(sp) => sp.len() >= 2,
        PieceContentV::Ident(sp) => sp.len() >= 2,
        PieceContentV::Range(_, _) => true,
    }
}

/// How a piece reads from the front of `s`: a quoted literal, an
/// identifier or a character range, then an optional repetition suffix.
/// Nothing when none of the four shapes is present.
pub open spec fn piece_parse(s: Seq<u8>) -> Option<(PieceV, int)> {
    let head: Option<(PieceContentV, int)> = if single_quote_parse(s) is Some {
        Some(
            (PieceContentV::Single(s.take(single_quote_parse(s).unwrap() as int)), single_quote_parse(
                s,
            ).unwrap() as int),
        )
    } else if double_quote_parse(s) is Some {
        Some(
            (PieceContentV::Double(s.take(double_quote_parse(s).unwrap() as int)), double_quote_parse(
                s,
            ).unwrap() as int),
        )
    } else if identifier_parse(s) is Some {
        Some(
            (PieceContentV::Ident(s.take(identifier_parse(s).unwrap() as int)), identifier_parse(
                s,
            ).unwrap() as int),
        )
    } else if range_parse(s) is Ok {
        Some(
            (PieceContentV::Range(range_parse(s)->Ok_0.0, range_parse(s)->Ok_0.1), range_parse(
                s,
            )->Ok_0.2),
        )
    } else {
        None
    };
    match head {
        None => None,
        Some((content, len)) => {
            let rest = s.skip(len);
            if rest.len() > 0 && rest[0] == REPEAT_TOGETHER {
                Some((PieceV { content, rep: Repetition::RepeatTogether }, len + 1))
            } else if rest.len() > 0 && rest[0] == REPEAT_SEPARATE {
                Some((PieceV { content, rep: Repetition::RepeatSeparate }, len + 1))
            } else {
                Some((PieceV { content, rep: Repetition::Single }, len))
            }
        },
    }
}

impl<'a> RulePiece<'a> {
    /// Reads one piece from the front of `input`, returning it and the
    /// bytes consumed; fails when no literal, identifier or range starts
    /// the input.
    pub fn parse_len(input: &'a [u8]) -> (r: Result<(RulePiece<'a>, usize), ParseError<'a>>)
        ensures
            match r {
                Ok((p, len)) => 1 <= len <= input@.len() && piece_parse(input@) == Some(
                    (p@, len as int),
                ) && piece_wf(p@),
                Err(e) => piece_parse(input@) is None && (e matches ParseError::ExpectedWhile {
                    parsing,
                    expected,
                    found,
                    line,
                } && parsing@ == "rule piece"@ && expected@ == "identifier or quote"@ && found@
                    == snip(input@) && line == 0),
            },
    {
        let parsed: Option<(RulePieceContent<'a>, usize)> = if let Some((t, len)) =
            SingleQuote::parse_len(input) {
            Some((RulePieceContent::Single(t), len))
        } else if let Some((t, len)) = DoubleQuote::parse_len(input) {
            Some((RulePieceContent::Double(t), len))
        } else if let Some((t, len)) = Identifier::parse_len(input) {
            Some((RulePieceContent::Ident(t), len))
        } else if let Ok((cr, len)) = CharRange::parse_len(input) {
            Some((RulePieceContent::Range(cr), len))
        } else {
            None
        };
        match parsed {
            None => Err(
                ParseError::ExpectedWhile {
                    parsing: "rule piece",
                    expected: "identifier or quote",
                    found: take_n(input, 20),
                    line: 0,
                },
            ),
            Some((content, len)) => {
                let rest = slice_subrange(input, len, input.len());
                proof {
                    assert(rest@ =~= input@.skip(len as int));
                }
                if rest.len() > 0 && rest[0] == REPEAT_TOGETHER {
                    Ok((RulePiece { content, repetition: Repetition::RepeatTogether }, len + 1))
                } else if rest.len() > 0 && rest[0] == REPEAT_SEPARATE {
                    Ok((RulePiece { content, repetition: Repetition::RepeatSeparate }, len + 1))
                } else {
                    Ok((RulePiece { content, repetition: Repetition::Single }, len))
                }
            },
        }
    }

    /// Reads one piece and also hands back what follows it.
    pub fn parse_and_skip(input: &'a [u8]) -> (r: Result<(RulePiece<'a>, &'a [u8]), ParseError<'a>>)
        ensures
            match r {
                Ok((p, rest)) => piece_parse(input@) is Some && ({
                    let (pv, l) = piece_parse(input@).unwrap();
                    p@ == pv && rest@ == input@.skip(l)
                }) && piece_wf(p@),
                Err(e) => piece_parse(input@) is None && (e matches ParseError::ExpectedWhile {
                    parsing,
                    expected,
                    found,
                    line,
                } && parsing@ == "rule piece"@ && expected@ == "identifier or quote"@ && found@
                    == snip(input@) && line == 0),
            },
    {
        match Self::parse_len(input) {
            Ok((p, len)) => Ok((p, slice_subrange(input, len, input.len()))),
            Err(e) => Err(e),
        }
    }
}

impl<'a> From<RulePieceContent<'a>> for RulePiece<'a> {
    /// Wraps a bare content as a piece matched exactly once.
    fn from(content: RulePieceContent<'a>) -> (r: Self) {
        RulePiece { content, repetition: Repetition::Single }
    }
}

impl<'a> vstd::std_specs::convert::FromSpecImpl<RulePieceContent<'a>> for RulePiece<'a> {
    open spec fn obeys_from_spec() -> bool {
        true
    }

    open spec fn from_spec(content: RulePieceContent<'a>) -> Self {
        RulePiece { content, repetition: Repetition::Single }
    }
}

impl<'a> From<SingleQuote<'a>> for RulePieceContent<'a> {
    fn from(quote: SingleQuote<'a>) -> (r: Self) {
        RulePieceContent::Single(quote)
    }
}

impl<'a> vstd::std_specs::convert::FromSpecImpl<SingleQuote<'a>> for RulePieceContent<'a> {
    open spec fn obeys_from_spec() -> bool {
        true
    }

    open spec fn from_spec(quote: SingleQuote<'a>) -> Self {
        RulePieceContent::Single(quote)
    }
}

impl<'a> From<DoubleQuote<'a>> for RulePieceContent<'a> {
    fn from(quote: DoubleQuote<'a>) -> (r: Self) {
        RulePieceContent::Double(quote)
    }
}

impl<'a> vstd::std_specs::convert::FromSpecImpl<DoubleQuote<'a>> for RulePieceContent<'a> {
    open spec fn obeys_from_spec() -> bool {
        true
    }

    open spec fn from_spec(quote: DoubleQuote<'a>) -> Self {
        RulePieceContent::Double(quote)
    }
}

impl<'a> From<Identifier<'a>> for RulePieceContent<'a> {
    fn from(ident: Identifier<'a>) -> (r: Self) {
        RulePieceContent::Ident(ident)
    }
}

impl<'a> vstd::std_specs::convert::FromSpecImpl<Identifier<'a>> for RulePieceContent<'a> {
    open spec fn obeys_from_spec() -> bool {
        true
    }

    open spec fn from_spec(ident: Identifier<'a>) -> Self {
        RulePieceContent::Ident(ident)
    }
}

impl<'a> From<CharRange> for RulePieceContent<'a> {
    fn from(range: CharRange) -> (r: Self) {
        RulePieceContent::Range(range)
    }
}

impl<'a> vstd::std_specs::convert::FromSpecImpl<CharRange> for RulePieceContent<'a> {
    open spec fn obeys_from_spec() -> bool {
        true
    }

    open spec fn from_spec(range: CharRange) -> Self {
        RulePieceContent::Range(range)
    }
}

} // verus!
