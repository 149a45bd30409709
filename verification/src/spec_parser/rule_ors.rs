use vstd::prelude::*;
use vstd::slice::slice_subrange;

use super::char_range::snip;
use super::error::ParseError;
use super::rule_piece::PieceV;
use super::rule_series::lemma_piece_parse_len;
use super::rule_series::lemma_series_loop_rest;
use super::rule_series::series_loop;
use super::rule_series::series_parse;
use super::rule_series::series_wf;
use super::rule_series::RuleSeries;
use super::strings::skip_ws;
use super::strings::ws_run;
use super::tokens::separator_parse;
use super::tokens::Separator;
use crate::utils::lemma_run_len_bytes;
use crate::utils::take_n;

verus! {

/// The ordered alternatives of one rule.
#[derive(Debug, PartialEq)]
pub struct RuleOrs<'a>(pub Vec<RuleSeries<'a>>);

impl<'a> View for RuleOrs<'a> {
    type V = Seq<Seq<PieceV>>;

    open spec fn view(&self) -> Seq<Seq<PieceV>> {
        self.0@.map_values(|s: RuleSeries<'a>| s@)
    }
}

/// Which step of reading an alternative list failed: its very first
/// alternative, or an alternative owed after a separator.
#[derive(Debug)]
pub enum OrsFail {
    Piece,
    Series,
}

/// An alternative, when it reads at all, consumes between one byte and
/// the whole input.
pub proof fn lemma_series_parse_len(s: Seq<u8>)
    ensures
        series_parse(s) is Some ==> 1 <= series_parse(s).unwrap().1 <= s.len(),
{
    lemma_piece_parse_len(s);
    if series_parse(s) is Some {
        let (p, len) = piece_parse_some(s);
        lemma_series_loop_rest(s.skip(len));
    }
}

/// The first piece of `s` and its length, assuming one reads.
spec fn piece_parse_some(s: Seq<u8>) -> (PieceV, int) {
    super::rule_piece::piece_parse(s).unwrap()
}

/// Zero or more further alternatives, each announced by a separator bar
/// surrounded by optional whitespace. Stops, leaving `t` untouched, when
/// no separator follows; fails when a separator is not followed by an
/// alternative.
pub open spec fn ors_loop(t: Seq<u8>) -> Result<(Seq<Seq<PieceV>>, Seq<u8>), ()>
    decreases t.len(),
    via ors_loop_dec
{
    let t1 = t.skip(ws_run(t));
    match separator_parse(t1) {
        None => Result::Ok((Seq::empty(), t)),
        Some(k) => {
            let t2 = t1.skip(k as int);
            let t3 = t2.skip(ws_run(t2));
            match series_parse(t3) {
                None => Result::Err(()),
                Some((ps, len)) => match ors_loop(t3.skip(len)) {
                    Result::Err(e) => Result::Err(e),
                    Result::Ok((more, rest)) => Result::Ok((seq![ps].add(more), rest)),
                },
            }
        },
    }
}

#[via_fn]
proof fn ors_loop_dec(t: Seq<u8>) {
    lemma_run_len_bytes(t, crate::utils::ws_pred());
    let t1 = t.skip(ws_run(t));
    lemma_run_len_bytes(t1, crate::utils::eq_byte_pred(super::tokens::SEPARATOR));
    if separator_parse(t1) is Some {
        let k = separator_parse(t1).unwrap();
        let t2 = t1.skip(k as int);
        lemma_run_len_bytes(t2, crate::utils::ws_pred());
        let t3 = t2.skip(ws_run(t2));
        lemma_series_parse_len(t3);
    }
}

/// The leftover of `ors_loop`, when it succeeds, is a tail no longer
/// than its input.
pub proof fn lemma_ors_loop_rest(t: Seq<u8>)
    ensures
        ors_loop(t) is Ok ==> ors_loop(t).unwrap().1.len() <= t.len(),
    decreases t.len(),
{
    lemma_run_len_bytes(t, crate::utils::ws_pred());
    let t1 = t.skip(ws_run(t));
    lemma_run_len_bytes(t1, crate::utils::eq_byte_pred(super::tokens::SEPARATOR));
    if separator_parse(t1) is Some {
        let k = separator_parse(t1).unwrap();
        let t2 = t1.skip(k as int);
        lemma_run_len_bytes(t2, crate::utils::ws_pred());
        let t3 = t2.skip(ws_run(t2));
        lemma_series_parse_len(t3);
        if series_parse(t3) is Some {
            let (ps, len) = series_parse(t3).unwrap();
            lemma_ors_loop_rest(t3.skip(len));
        }
    }
}

/// An alternative list, when it reads at all, consumes between one byte
/// and the whole input.
pub proof fn lemma_ors_parse_len(s: Seq<u8>)
    ensures
        ors_parse(s) is Ok ==> 1 <= ors_parse(s).unwrap().1 <= s.len(),
{
    lemma_series_parse_len(s);
    if series_parse(s) is Some {
        let (ps, len) = series_parse(s).unwrap();
        lemma_ors_loop_rest(s.skip(len));
    }
}

/// How a whole alternative list reads from the front of `s`: a first
/// alternative, then any further ones behind separators, and the bytes
/// consumed; or which step failed.
pub open spec fn ors_parse(s: Seq<u8>) -> Result<(Seq<Seq<PieceV>>, int), OrsFail> {
    match series_parse(s) {
        None => Result::Err(OrsFail::Piece),
        Some((ps, len)) => match ors_loop(s.skip(len)) {
            Result::Err(_) => Result::Err(OrsFail::Series),
            Result::Ok((more, rest)) => Result::Ok((seq![ps].add(more), s.len() - rest.len())),
        },
    }
}

/// Every alternative of a parsed list is nonempty and carries
/// well-formed spans.
pub open spec fn ors_wf(oss: Seq<Seq<PieceV>>) -> bool {
    forall|i: int|
        0 <= i < oss.len() ==> series_wf(#[trigger] oss[i]) && oss[i].len() >= 1
}

/// Reads the alternatives after the first one, as `ors_loop` describes.
fn ors_rest<'a>(t: &'a [u8]) -> (r: Result<(Vec<RuleSeries<'a>>, &'a [u8]), ()>)
    ensures
        match r {
            Ok((vs, rest)) => ors_loop(t@) is Ok && ({
                let (oss, srest) = ors_loop(t@).unwrap();
                vs@.map_values(|x: RuleSeries<'a>| x@) == oss && rest@ == srest && srest.len()
                    <= t@.len() && ors_wf(oss)
            }),
            Err(_) => ors_loop(t@) is Err,
        },
    decreases t@.len(),
{
    let t1 = skip_ws(t);
    proof {
        lemma_run_len_bytes(t1@, crate::utils::eq_byte_pred(super::tokens::SEPARATOR));
    }
    match Separator::parse_and_skip(t1) {
        None => {
            let empty: Vec<RuleSeries<'a>> = Vec::new();
            proof {
                assert(empty@.map_values(|x: RuleSeries<'a>| x@) =~= Seq::<Seq<PieceV>>::empty());
            }
            Ok((empty, t))
        },
        Some((_, t2)) => {
            let t3 = skip_ws(t2);
            match RuleSeries::parse_len(t3) {
                Err(_) => Err(()),
                Ok((sr, len)) => {
                    let t4 = slice_subrange(t3, len, t3.len());
                    proof {
                        assert(t4@ =~= t3@.skip(len as int));
                    }
                    match ors_rest(t4) {
                        Err(e) => Err(e),
                        Ok((mut vs, rest)) => {
                            let ghost vs_before = vs@;
                            vs.insert(0, sr);
                            proof {
                                let f = |x: RuleSeries<'a>| x@;
                                assert(vs@.map_values(f) =~= seq![sr@].add(
                                    vs_before.map_values(f),
                                ));
                            }
                            Ok((vs, rest))
                        },
                    }
                },
            }
        },
    }
}

impl<'a> RuleOrs<'a> {
    /// Reads a whole alternative list from the front of `input`, returning
    /// it and the bytes consumed; fails when no alternative starts the
    /// input, or a separator is not followed by one.
    pub fn parse_len(input: &'a [u8]) -> (r: Result<(RuleOrs<'a>, usize), ParseError<'a>>)
        ensures
            match r {
                Ok((o, len)) => ors_parse(input@) is Ok && ({
                    let (oss, l) = ors_parse(input@).unwrap();
                    o@ == oss && len == l && 1 <= len <= input@.len() && ors_wf(oss)
                }),
                Err(e) => ors_parse(input@) is Err && (e matches ParseError::ExpectedWhile {
                    parsing,
                    expected,
                    found,
                    line,
                } && found@ == snip(input@) && line == 0 && (match ors_parse(input@)->Err_0 {
                    OrsFail::Piece => parsing@ == "rule piece"@ && expected@
                        == "identifier or quote"@,
                    OrsFail::Series => parsing@ == "rule ors"@ && expected@ == "rule series"@,
                })),
            },
    {
        match RuleSeries::parse_len(input) {
            Err(e) => Err(e),
            Ok((sr, len)) => {
                let t2 = slice_subrange(input, len, input.len());
                proof {
                    assert(t2@ =~= input@.skip(len as int));
                }
                match ors_rest(t2) {
                    Err(_) => Err(
                        ParseError::ExpectedWhile {
                            parsing: "rule ors",
                            expected: "rule series",
                            found: take_n(input, 20),
                            line: 0,
                        },
                    ),
                    Ok((mut vs, rest)) => {
                        let ghost vs_before = vs@;
                        vs.insert(0, sr);
                        proof {
                            let f = |x: RuleSeries<'a>| x@;
                            assert(vs@.map_values(f) =~= seq![sr@].add(vs_before.map_values(f)));
                        }
                        let total = input.len() - rest.len();
                        Ok((RuleOrs(vs), total))
                    },
                }
            },
        }
    }

    /// Reads a whole alternative list and also hands back what follows it.
    pub fn parse_and_skip(input: &'a [u8]) -> (r: Result<
        (RuleOrs<'a>, &'a [u8]),
        ParseError<'a>,
    >)
        ensures
            match r {
                Ok((o, rest)) => ors_parse(input@) is Ok && ({
                    let (oss, l) = ors_parse(input@).unwrap();
                    o@ == oss && rest@ == input@.skip(l) && 1 <= l && ors_wf(oss)
                }),
                Err(e) => ors_parse(input@) is Err && (e matches ParseError::ExpectedWhile {
                    parsing,
                    expected,
                    found,
                    line,
                } && found@ == snip(input@) && line == 0 && (match ors_parse(input@)->Err_0 {
                    OrsFail::Piece => parsing@ == "rule piece"@ && expected@
                        == "identifier or quote"@,
                    OrsFail::Series => parsing@ == "rule ors"@ && expected@ == "rule series"@,
                })),
            },
    {
        match Self::parse_len(input) {
            Ok((o, len)) => Ok((o, slice_subrange(input, len, input.len()))),
            Err(e) => Err(e),
        }
    }
}

} // verus!
