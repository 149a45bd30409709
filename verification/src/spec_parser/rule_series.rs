use vstd::prelude::*;
use vstd::slice::slice_subrange;

use super::char_range::snip;
use super::error::ParseError;
use super::rule_piece::piece_parse;
use super::rule_piece::piece_wf;
use super::rule_piece::PieceV;
use super::rule_piece::RulePiece;
use super::strings::skip_ws;
use super::strings::ws_run;

verus! {

/// One alternative of a rule: an ordered sequence of pieces that must
/// match consecutively.
#[derive(Debug, PartialEq)]
pub struct RuleSeries<'a>(pub Vec<RulePiece<'a>>);

impl<'a> View for RuleSeries<'a> {
    type V = Seq<PieceV>;

    open spec fn view(&self) -> Seq<PieceV> {
        self.0@.map_values(|p: RulePiece<'a>| p@)
    }
}

/// A piece, when it reads at all, consumes between one byte and the
/// whole input.
pub proof fn lemma_piece_parse_len(s: Seq<u8>)
    ensures
        piece_parse(s) is Some ==> 1 <= piece_parse(s).unwrap().1 <= s.len(),
{
}

/// Zero or more further pieces, each surrounded by optional whitespace,
/// read from the front of `t`: the pieces and the input left after them.
/// Stops, leaving `t` untouched, as soon as no piece follows.
pub open spec fn series_loop(t: Seq<u8>) -> (Seq<PieceV>, Seq<u8>)
    decreases t.len(),
    via series_loop_dec
{
    let t1 = t.skip(ws_run(t));
    match piece_parse(t1) {
        None => (Seq::empty(), t),
        Some((p, len)) => {
            let t2 = t1.skip(len);
            let t3 = t2.skip(ws_run(t2));
            let (ps, rest) = series_loop(t3);
            (seq![p].add(ps), rest)
        },
    }
}

#[via_fn]
proof fn series_loop_dec(t: Seq<u8>) {
    crate::utils::lemma_run_len_bytes(t, crate::utils::ws_pred());
    let t1 = t.skip(ws_run(t));
    lemma_piece_parse_len(t1);
    if piece_parse(t1) is Some {
        let (p, len) = piece_parse(t1).unwrap();
        let t2 = t1.skip(len);
        crate::utils::lemma_run_len_bytes(t2, crate::utils::ws_pred());
    }
}

/// The leftover of `series_loop` is a tail no longer than its input.
pub proof fn lemma_series_loop_rest(t: Seq<u8>)
    ensures
        series_loop(t).1.len() <= t.len(),
    decreases t.len(),
{
    crate::utils::lemma_run_len_bytes(t, crate::utils::ws_pred());
    let t1 = t.skip(ws_run(t));
    match piece_parse(t1) {
        None => {},
        Some((p, len)) => {
            lemma_piece_parse_len(t1);
            let t2 = t1.skip(len);
            crate::utils::lemma_run_len_bytes(t2, crate::utils::ws_pred());
            let t3 = t2.skip(ws_run(t2));
            lemma_series_loop_rest(t3);
        },
    }
}

/// How an alternative reads from the front of `s`: a first piece, then
/// any further pieces separated by whitespace, and the bytes consumed.
/// Nothing when not even the first piece is present.
pub open spec fn series_parse(s: Seq<u8>) -> Option<(Seq<PieceV>, int)> {
    match piece_parse(s) {
        None => None,
        Some((p, len)) => {
            let (ps, rest) = series_loop(s.skip(len));
            Some((seq![p].add(ps), s.len() - rest.len()))
        },
    }
}

/// All pieces of a parsed alternative carry well-formed spans.
pub open spec fn series_wf(ps: Seq<PieceV>) -> bool {
    forall|i: int| 0 <= i < ps.len() ==> piece_wf(#[trigger] ps[i])
}

/// Reads the pieces after the first one, as `series_loop` describes.
fn series_rest<'a>(t: &'a [u8]) -> (r: (Vec<RulePiece<'a>>, &'a [u8]))
    ensures
        ({
            let (ps, rest) = series_loop(t@);
            r.0@.map_values(|p: RulePiece<'a>| p@) == ps && r.1@ == rest && rest.len() <= t@.len()
                && series_wf(ps)
        }),
    decreases t@.len(),
{
    let t1 = skip_ws(t);
    match RulePiece::parse_len(t1) {
        Err(_) => {
            let empty: Vec<RulePiece<'a>> = Vec::new();
            proof {
                assert(empty@.map_values(|p: RulePiece<'a>| p@) =~= Seq::<PieceV>::empty());
            }
            (empty, t)
        },
        Ok((p, len)) => {
            let t2 = slice_subrange(t1, len, t1.len());
            proof {
                assert(t2@ =~= t1@.skip(len as int));
            }
            let t3 = skip_ws(t2);
            let (mut ps, rest) = series_rest(t3);
            let ghost ps_before = ps@;
            ps.insert(0, p);
            proof {
                let f = |q: RulePiece<'a>| q@;
                assert(ps@.map_values(f) =~= seq![p@].add(ps_before.map_values(f)));
            }
            (ps, rest)
        },
    }
}

impl<'a> RuleSeries<'a> {
    /// Reads one whole alternative from the front of `input`, returning it
    /// and the bytes consumed; fails when no piece starts the input.
    pub fn parse_len(input: &'a [u8]) -> (r: Result<(RuleSeries<'a>, usize), ParseError<'a>>)
        ensures
            match r {
                Ok((sr, len)) => series_parse(input@) is Some && ({
                    let (ps, l) = series_parse(input@).unwrap();
                    sr@ == ps && len == l && 1 <= len <= input@.len() && series_wf(ps)
                }),
                Err(e) => series_parse(input@) is None && (e matches ParseError::ExpectedWhile {
                    parsing,
                    expected,
                    found,
                    line,
                } && parsing@ == "rule piece"@ && expected@ == "identifier or quote"@ && found@
                    == snip(input@) && line == 0),
            },
    {
        match RulePiece::parse_len(input) {
            Err(e) => Err(e),
            Ok((p, len)) => {
                let t2 = slice_subrange(input, len, input.len());
                proof {
                    assert(t2@ =~= input@.skip(len as int));
                }
                let (mut ps, rest) = series_rest(t2);
                let ghost ps_before = ps@;
                ps.insert(0, p);
                proof {
                    let f = |q: RulePiece<'a>| q@;
                    assert(ps@.map_values(f) =~= seq![p@].add(ps_before.map_values(f)));
                }
                let total = input.len() - rest.len();
                Ok((RuleSeries(ps), total))
            },
        }
    }

    /// Reads one whole alternative and also hands back what follows it.
    pub fn parse_and_skip(input: &'a [u8]) -> (r: Result<
        (RuleSeries<'a>, &'a [u8]),
        ParseError<'a>,
    >)
        ensures
            match r {
                Ok((sr, rest)) => series_parse(input@) is Some && ({
                    let (ps, l) = series_parse(input@).unwrap();
                    sr@ == ps && rest@ == input@.skip(l) && 1 <= l && series_wf(ps)
                }),
                Err(e) => series_parse(input@) is None && (e matches ParseError::ExpectedWhile {
                    parsing,
                    expected,
                    found,
                    line,
                } && parsing@ == "rule piece"@ && expected@ == "identifier or quote"@ && found@
                    == snip(input@) && line == 0),
            },
    {
        match Self::parse_len(input) {
            Ok((sr, len)) => Ok((sr, slice_subrange(input, len, input.len()))),
            Err(e) => Err(e),
        }
    }
}

} // verus!
