use vstd::prelude::*;
use vstd::slice::slice_subrange;

use super::char_range::snip;
use super::content::inner;
use super::error::ParseError;
use super::rule_ors::ors_parse;
use super::rule_ors::ors_wf;
use super::rule_ors::OrsFail;
use super::rule_ors::RuleOrs;
use super::rule_piece::PieceV;
use super::strings::skip_ws;
use super::strings::ws_run;
use super::tokens::identifier_parse;
use super::tokens::Identifier;
use super::tokens::COLUMN;
use super::tokens::SEMICOLUMN;
use crate::utils::eq_byte_pred;
use crate::utils::not_byte_pred;
use crate::utils::run_len;
use crate::utils::take_n;
use crate::utils::take_while_byte;
use crate::utils::take_while_not_byte;
use crate::utils::trim_ws;
use crate::utils::trim_ws_slice;

verus! {

/// One named production: a rule name and its alternatives.
#[derive(Debug, PartialEq)]
pub struct RuleLine<'a> {
    pub name: &'a [u8],
    pub rules: RuleOrs<'a>,
}

/// Mathematical model of one production.
pub struct RuleLineV {
    pub name: Seq<u8>,
    pub ors: Seq<Seq<PieceV>>,
}

impl<'a> View for RuleLine<'a> {
    type V = RuleLineV;

    open spec fn view(&self) -> RuleLineV {
        RuleLineV { name: self.name@, ors: self.rules@ }
    }
}

/// Which step of reading a production failed.
#[derive(Debug)]
pub enum LineFail {
    Colon,
    Ident,
    Ors(OrsFail),
    Semicolon,
}

/// Index of the first colon of `s`; the length of `s` when there is none.
pub open spec fn colon_ix(s: Seq<u8>) -> int {
    run_len(s, not_byte_pred(COLUMN)) as int
}

/// What follows the first colon of `s`.
pub open spec fn line_rest0(s: Seq<u8>) -> Seq<u8> {
    s.skip(colon_ix(s) + 1)
}

/// What follows the first colon of `s` and the whitespace after it: the
/// start of the rule's alternatives.
pub open spec fn line_rest1(s: Seq<u8>) -> Seq<u8> {
    line_rest0(s).skip(ws_run(line_rest0(s)))
}

/// How one production reads from the front of `s`: a name before the first
/// colon, an alternative list, and a closing semicolon run; the name, the
/// alternatives and the bytes consumed, or which step failed.
pub open spec fn line_parse(s: Seq<u8>) -> Result<(Seq<u8>, Seq<Seq<PieceV>>, int), LineFail> {
    if colon_ix(s) == s.len() {
        Result::Err(LineFail::Colon)
    } else {
        let trimmed = trim_ws(s.take(colon_ix(s)));
        match identifier_parse(trimmed) {
            None => Result::Err(LineFail::Ident),
            Some(ilen) => {
                let name = inner(trimmed.take(ilen as int));
                match ors_parse(line_rest1(s)) {
                    Result::Err(k) => Result::Err(LineFail::Ors(k)),
                    Result::Ok((oss, olen)) => {
                        let rest2 = line_rest1(s).skip(olen);
                        let rest3 = rest2.skip(ws_run(rest2));
                        if rest3.len() == 0 || rest3[0] != SEMICOLUMN {
                            Result::Err(LineFail::Semicolon)
                        } else {
                            let rest4 = rest3.skip(run_len(rest3, eq_byte_pred(SEMICOLUMN)) as int);
                            Result::Ok((name, oss, s.len() - rest4.len()))
                        }
                    },
                }
            },
        }
    }
}

impl<'a> RuleLine<'a> {
    /// Reads one production from the front of `input`, returning it and the
    /// bytes consumed, or a labelled failure.
    pub fn parse_len(input: &'a [u8]) -> (r: Result<(RuleLine<'a>, usize), ParseError<'a>>)
        ensures
            match r {
                Ok((rl, len)) => line_parse(input@) is Ok && ({
                    let (nm, oss, l) = line_parse(input@).unwrap();
                    rl@.name == nm && rl@.ors == oss && len == l && 1 <= len <= input@.len()
                        && ors_wf(oss)
                }),
                Err(e) => line_parse(input@) is Err && (e matches ParseError::ExpectedWhile {
                    parsing,
                    expected,
                    found,
                    line,
                } && line == 0 && (match line_parse(input@)->Err_0 {
                    LineFail::Colon => parsing@ == "rule line"@ && expected@ == "colon"@ && found@
                        == snip(input@),
                    LineFail::Ident => parsing@ == "rule line"@ && expected@ == "identifier"@
                        && found@ == snip(input@),
                    LineFail::Ors(OrsFail::Piece) => parsing@ == "rule piece"@ && expected@
                        == "identifier or quote"@ && found@ == snip(line_rest1(input@)),
                    LineFail::Ors(OrsFail::Series) => parsing@ == "rule ors"@ && expected@
                        == "rule series"@ && found@ == snip(line_rest1(input@)),
                    LineFail::Semicolon => parsing@ == "rule line"@ && expected@ == "semicolon"@
                        && found@ == snip(input@),
                })),
            },
    {
        let ci = take_while_not_byte(input, COLUMN);
        if ci == input.len() {
            return Err(
                ParseError::ExpectedWhile {
                    parsing: "rule line",
                    expected: "colon",
                    found: take_n(input, 20),
                    line: 0,
                },
            );
        }
        let name_part = slice_subrange(input, 0, ci);
        let rest0 = slice_subrange(input, ci + 1, input.len());
        proof {
            assert(name_part@ =~= input@.take(colon_ix(input@)));
            assert(rest0@ =~= line_rest0(input@));
        }
        let trimmed = trim_ws_slice(name_part);
        match Identifier::parse_len(trimmed) {
            None => Err(
                ParseError::ExpectedWhile {
                    parsing: "rule line",
                    expected: "identifier",
                    found: take_n(input, 20),
                    line: 0,
                },
            ),
            Some((ident, _)) => {
                let name = ident.content();
                let rest1 = skip_ws(rest0);
                match RuleOrs::parse_len(rest1) {
                    Err(e) => Err(e),
                    Ok((ors, olen)) => {
                        let rest2 = slice_subrange(rest1, olen, rest1.len());
                        proof {
                            assert(rest2@ =~= rest1@.skip(olen as int));
                        }
                        let rest3 = skip_ws(rest2);
                        if rest3.len() == 0 || rest3[0] != SEMICOLUMN {
                            return Err(
                                ParseError::ExpectedWhile {
                                    parsing: "rule line",
                                    expected: "semicolon",
                                    found: take_n(input, 20),
                                    line: 0,
                                },
                            );
                        }
                        let semis = take_while_byte(rest3, SEMICOLUMN);
                        let rest4 = slice_subrange(rest3, semis, rest3.len());
                        proof {
                            assert(rest4@ =~= rest3@.skip(
                                run_len(rest3@, eq_byte_pred(SEMICOLUMN)) as int,
                            ));
                        }
                        let total = input.len() - rest4.len();
                        Ok((RuleLine { name, rules: ors }, total))
                    },
                }
            },
        }
    }

    /// Reads one production and also hands back what follows it.
    pub fn parse_and_skip(input: &'a [u8]) -> (r: Result<
        (RuleLine<'a>, &'a [u8]),
        ParseError<'a>,
    >)
        ensures
            match r {
                Ok((rl, rest)) => line_parse(input@) is Ok && ({
                    let (nm, oss, l) = line_parse(input@).unwrap();
                    rl@.name == nm && rl@.ors == oss && rest@ == input@.skip(l) && 1 <= l
                        && ors_wf(oss)
                }),
                Err(e) => line_parse(input@) is Err && (e matches ParseError::ExpectedWhile {
                    parsing,
                    expected,
                    found,
                    line,
                } && line == 0 && (match line_parse(input@)->Err_0 {
                    LineFail::Colon => parsing@ == "rule line"@ && expected@ == "colon"@ && found@
                        == snip(input@),
                    LineFail::Ident => parsing@ == "rule line"@ && expected@ == "identifier"@
                        && found@ == snip(input@),
                    LineFail::Ors(OrsFail::Piece) => parsing@ == "rule piece"@ && expected@
                        == "identifier or quote"@ && found@ == snip(line_rest1(input@)),
                    LineFail::Ors(OrsFail::Series) => parsing@ == "rule ors"@ && expected@
                        == "rule series"@ && found@ == snip(line_rest1(input@)),
                    LineFail::Semicolon => parsing@ == "rule line"@ && expected@ == "semicolon"@
                        && found@ == snip(input@),
                })),
            },
    {
        match Self::parse_len(input) {
            Ok((rl, len)) => Ok((rl, slice_subrange(input, len, input.len()))),
            Err(e) => Err(e),
        }
    }
}

} // verus!
