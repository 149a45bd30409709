use vstd::prelude::*;
use vstd::slice::slice_subrange;

use super::char_range::snip;
use super::error::ParseError;
use super::rule_line::line_parse;
use super::rule_line::line_rest1;
use super::rule_line::LineFail;
use super::rule_line::RuleLine;
use super::rule_line::RuleLineV;
use super::rule_ors::lemma_ors_parse_len;
use super::rule_ors::ors_parse;
use super::rule_ors::ors_wf;
use super::rule_ors::OrsFail;
use super::strings::ws_run;
use super::tokens::COLUMN;
use super::tokens::SEMICOLUMN;
use crate::utils::bytes_eq;
use crate::utils::eq_byte_pred;
use crate::utils::lemma_run_len_bytes;
use crate::utils::not_byte_pred;
use crate::utils::ws_pred;

verus! {

/// A whole parsed grammar specification: the name of the start rule (the
/// first rule in document order) and the productions, each name held once,
/// a later definition replacing an earlier one.
#[derive(Debug)]
pub struct Grammar<'a> {
    pub main: &'a [u8],
    pub rules: Vec<RuleLine<'a>>,
}

/// Mathematical model of a parsed grammar specification.
pub struct GrammarV {
    pub main: Seq<u8>,
    pub lines: Seq<RuleLineV>,
}

impl<'a> View for Grammar<'a> {
    type V = GrammarV;

    open spec fn view(&self) -> GrammarV {
        GrammarV { main: self.main@, lines: self.rules@.map_values(|l: RuleLine<'a>| l@) }
    }
}

/// Index of the first production named `name`, or -1 when there is none.
pub open spec fn find_name(lines: Seq<RuleLineV>, name: Seq<u8>) -> int
    decreases lines.len(),
{
    if lines.len() == 0 {
        -1
    } else if lines[0].name == name {
        0
    } else {
        let r = find_name(lines.skip(1), name);
        if r == -1 {
            -1
        } else {
            r + 1
        }
    }
}

/// What `find_name` finds: either no production carries the name, or the
/// index points at the first one that does.
pub proof fn lemma_find_name(lines: Seq<RuleLineV>, name: Seq<u8>)
    ensures
        find_name(lines, name) == -1 <==> (forall|i: int|
            0 <= i < lines.len() ==> (#[trigger] lines[i]).name != name),
        find_name(lines, name) >= 0 ==> 0 <= find_name(lines, name) < lines.len() && lines[find_name(
            lines,
            name,
        )].name == name,
        find_name(lines, name) >= -1,
        find_name(lines, name) >= 0 ==> (forall|j: int|
            0 <= j < find_name(lines, name) ==> (#[trigger] lines[j]).name != name),
    decreases lines.len(),
{
    if lines.len() > 0 {
        lemma_find_name(lines.skip(1), name);
        if lines[0].name != name {
            assert forall|i: int| 0 <= i < lines.len() && (#[trigger] lines[i]).name == name
                implies find_name(lines, name) >= 0 by {
                if i > 0 {
                    assert(lines.skip(1)[i - 1].name == name);
                }
            }
            if find_name(lines, name) >= 0 {
                assert forall|j: int| 0 <= j < find_name(lines, name) implies (
                #[trigger] lines[j]).name != name by {
                    if j > 0 {
                        assert(lines.skip(1)[j - 1].name != name);
                        assert(lines[j] == lines.skip(1)[j - 1]);
                    }
                }
            }
        }
    }
}

/// `lines` with `l` added: in place of the production of the same name
/// when there is one, appended otherwise.
pub open spec fn upsert(lines: Seq<RuleLineV>, l: RuleLineV) -> Seq<RuleLineV> {
    let ix = find_name(lines, l.name);
    if ix >= 0 {
        lines.update(ix, l)
    } else {
        lines.push(l)
    }
}

/// Every production holds a nonempty, well-formed alternative list.
pub open spec fn lines_wf(lines: Seq<RuleLineV>) -> bool {
    forall|i: int|
        0 <= i < lines.len() ==> ors_wf(#[trigger] lines[i].ors) && lines[i].ors.len() >= 1
}

/// No two productions carry the same name.
pub open spec fn names_unique(lines: Seq<RuleLineV>) -> bool {
    forall|i: int, j: int|
        0 <= i < j < lines.len() ==> (#[trigger] lines[i]).name != (#[trigger] lines[j]).name
}

/// A parsed grammar's productions are well formed and uniquely named.
pub open spec fn grammar_wf(g: GrammarV) -> bool {
    lines_wf(g.lines) && names_unique(g.lines) && g.lines.len() >= 1
}

/// A production, when it reads at all, consumes between one byte and the
/// whole input.
pub proof fn lemma_line_parse_len(s: Seq<u8>)
    ensures
        line_parse(s) is Ok ==> 1 <= line_parse(s).unwrap().2 <= s.len(),
{
    if line_parse(s) is Ok {
        lemma_run_len_bytes(s, not_byte_pred(COLUMN));
        let r0 = s.skip(super::rule_line::colon_ix(s) + 1);
        lemma_run_len_bytes(r0, ws_pred());
        let r1 = line_rest1(s);
        lemma_ors_parse_len(r1);
        let olen = ors_parse(r1).unwrap().1;
        let r2 = r1.skip(olen);
        lemma_run_len_bytes(r2, ws_pred());
        let r3 = r2.skip(ws_run(r2));
        lemma_run_len_bytes(r3, eq_byte_pred(SEMICOLUMN));
    }
}

/// Reads productions from the front of `t` one after the other, replacing
/// same-named earlier ones, until no further production parses; the
/// collected productions and the input left over.
pub open spec fn grammar_loop(t: Seq<u8>, acc: Seq<RuleLineV>) -> (Seq<RuleLineV>, Seq<u8>)
    decreases t.len(),
    via grammar_loop_dec
{
    match line_parse(t) {
        Result::Err(_) => (acc, t),
        Result::Ok((nm, oss, len)) => grammar_loop(
            t.skip(len),
            upsert(acc, RuleLineV { name: nm, ors: oss }),
        ),
    }
}

#[via_fn]
proof fn grammar_loop_dec(t: Seq<u8>, acc: Seq<RuleLineV>) {
    lemma_line_parse_len(t);
}

/// The leftover of `grammar_loop` is a tail no longer than its input.
pub proof fn lemma_grammar_loop_rest(t: Seq<u8>, acc: Seq<RuleLineV>)
    ensures
        grammar_loop(t, acc).1.len() <= t.len(),
    decreases t.len(),
{
    lemma_line_parse_len(t);
    match line_parse(t) {
        Result::Err(_) => {},
        Result::Ok((nm, oss, len)) => {
            lemma_grammar_loop_rest(t.skip(len), upsert(acc, RuleLineV { name: nm, ors: oss }));
        },
    }
}

/// How a whole grammar reads from the front of `s`: at least one
/// production, then as many more as parse, and the bytes consumed; the
/// start rule is the first production's name. Fails as the first
/// production fails.
pub open spec fn grammar_parse(s: Seq<u8>) -> Result<(GrammarV, int), LineFail> {
    match line_parse(s) {
        Result::Err(e) => Result::Err(e),
        Result::Ok((nm, oss, len)) => {
            let first = RuleLineV { name: nm, ors: oss };
            let (lines, rest) = grammar_loop(s.skip(len), seq![first]);
            Result::Ok((GrammarV { main: nm, lines }, s.len() - rest.len()))
        },
    }
}

/// Puts `line` into `lines`: in place of the same-named production when
/// there is one, at the end otherwise.
fn upsert_line<'a>(lines: &mut Vec<RuleLine<'a>>, line: RuleLine<'a>)
    ensures
        final(lines)@.map_values(|l: RuleLine<'a>| l@) == upsert(
            old(lines)@.map_values(|l: RuleLine<'a>| l@),
            line@,
        ),
{
    let ghost lv = old(lines)@.map_values(|l: RuleLine<'a>| l@);
    let mut i: usize = 0;
    while i < lines.len()
        invariant
            i <= lines@.len(),
            lines@ == old(lines)@,
            lv == lines@.map_values(|l: RuleLine<'a>| l@),
            forall|j: int| 0 <= j < i ==> (#[trigger] lv[j]).name != line@.name,
        decreases lines@.len() - i,
    {
        if bytes_eq(lines[i].name, line.name) {
            proof {
                lemma_find_name(lv, line@.name);
                assert(lv[i as int].name == line@.name);
                assert(find_name(lv, line@.name) >= 0);
                let ix = find_name(lv, line@.name);
                assert(lv[ix].name == line@.name);
                assert(ix == i);
            }
            lines.set(i, line);
            proof {
                assert(lines@.map_values(|l: RuleLine<'a>| l@) =~= lv.update(i as int, line@));
            }
            return ;
        }
        i += 1;
    }
    proof {
        lemma_find_name(lv, line@.name);
        assert(find_name(lv, line@.name) == -1);
    }
    lines.push(line);
    proof {
        assert(lines@.map_values(|l: RuleLine<'a>| l@) =~= lv.push(line@));
    }
}

/// `upsert` keeps productions well formed and names unique when the added
/// production is itself well formed.
pub proof fn lemma_upsert_wf(lines: Seq<RuleLineV>, l: RuleLineV)
    requires
        lines_wf(lines),
        names_unique(lines),
        ors_wf(l.ors),
        l.ors.len() >= 1,
    ensures
        lines_wf(upsert(lines, l)),
        names_unique(upsert(lines, l)),
        upsert(lines, l).len() >= 1,
{
    lemma_find_name(lines, l.name);
    let ix = find_name(lines, l.name);
    if ix >= 0 {
        let up = lines.update(ix, l);
        assert(lines[ix].name == l.name);
        assert forall|i: int, j: int| 0 <= i < j < up.len() implies (#[trigger] up[i]).name != (
        #[trigger] up[j]).name by {
            if i != ix && j != ix {
                assert(up[i] == lines[i] && up[j] == lines[j]);
            } else if i == ix {
                assert(up[j] == lines[j]);
                assert(lines[ix].name != lines[j].name);
            } else {
                assert(up[i] == lines[i]);
                assert(lines[i].name != lines[ix].name);
            }
        }
    } else {
        let up = lines.push(l);
        assert forall|i: int, j: int| 0 <= i < j < up.len() implies (#[trigger] up[i]).name != (
        #[trigger] up[j]).name by {
            if j == lines.len() {
                assert(up[i] == lines[i]);
                assert(lines[i].name != l.name);
            } else {
                assert(up[i] == lines[i] && up[j] == lines[j]);
            }
        }
    }
}

/// Reads the productions after the first, as `grammar_loop` describes,
/// keeping the collection well formed.
fn more_lines<'a>(t: &'a [u8], acc: Vec<RuleLine<'a>>) -> (r: (Vec<RuleLine<'a>>, &'a [u8]))
    requires
        lines_wf(acc@.map_values(|l: RuleLine<'a>| l@)),
        names_unique(acc@.map_values(|l: RuleLine<'a>| l@)),
        acc@.len() >= 1,
    ensures
        ({
            let (lines, rest) = grammar_loop(t@, acc@.map_values(|l: RuleLine<'a>| l@));
            r.0@.map_values(|l: RuleLine<'a>| l@) == lines && r.1@ == rest && rest.len()
                <= t@.len() && lines_wf(lines) && names_unique(lines) && lines.len() >= 1
        }),
    decreases t@.len(),
{
    match RuleLine::parse_len(t) {
        Err(_) => (acc, t),
        Ok((rl, len)) => {
            let ghost f = |l: RuleLine<'a>| l@;
            let ghost accv = acc@.map_values(f);
            let mut acc2 = acc;
            proof {
                lemma_upsert_wf(accv, rl@);
                assert(upsert(accv, rl@).len() >= 1) by {
                    if find_name(accv, rl@.name) >= 0 {
                        lemma_find_name(accv, rl@.name);
                    }
                }
            }
            upsert_line(&mut acc2, rl);
            let t2 = slice_subrange(t, len, t.len());
            proof {
                assert(t2@ =~= t@.skip(len as int));
            }
            more_lines(t2, acc2)
        },
    }
}

impl<'a> Grammar<'a> {
    /// Reads a whole grammar from the front of `input`, returning it and
    /// the bytes consumed; fails as its first production fails.
    pub fn parse_len(input: &'a [u8]) -> (r: Result<(Grammar<'a>, usize), ParseError<'a>>)
        ensures
            match r {
                Ok((g, len)) => grammar_parse(input@) is Ok && ({
                    let (gv, l) = grammar_parse(input@).unwrap();
                    g@ == gv && len == l && 1 <= len <= input@.len() && grammar_wf(gv)
                }),
                Err(e) => grammar_parse(input@) is Err && (e matches ParseError::ExpectedWhile {
                    parsing,
                    expected,
                    found,
                    line,
                } && line == 0 && (match grammar_parse(input@)->Err_0 {
                    LineFail::Colon => parsing@ == "rule line"@ && expected@ == "colon"@ && found@
                        == snip(input@),
                    LineFail::Ident => parsing@ == "rule line"@ && expected@ == "identifier"@
                        && found@ == snip(input@),
                    LineFail::Ors(OrsFail::Piece) => parsing@ == "rule piece"@ && expected@
                        == "identifier or quote"@ && found@ == snip(line_rest1(input@)),
                    LineFail::Ors(OrsFail::Series) => parsing@ == "rule ors"@ && expected@
                        == "rule series"@ && found@ == snip(line_rest1(input@)),
                    LineFail::Semicolon => parsing@ == "rule line"@ && expected@ == "semicolon"@
                        && found@ == snip(input@),
                })),
            },
    {
        match RuleLine::parse_len(input) {
            Err(e) => Err(e),
            Ok((first, len)) => {
                let main = first.name;
                let mut acc: Vec<RuleLine<'a>> = Vec::new();
                acc.push(first);
                proof {
                    let f = |l: RuleLine<'a>| l@;
                    assert(acc@.map_values(f) =~= seq![first@]);
                }
                let t2 = slice_subrange(input, len, input.len());
                proof {
                    assert(t2@ =~= input@.skip(len as int));
                }
                let (lines, rest) = more_lines(t2, acc);
                let total = input.len() - rest.len();
                Ok((Grammar { main, rules: lines }, total))
            },
        }
    }

    /// The production named `name`, when the grammar defines one.
    pub fn get_rule(&self, name: &[u8]) -> (r: Option<&RuleLine<'a>>)
        ensures
            match r {
                Some(rl) => find_name(self@.lines, name@) >= 0 && rl@ == self@.lines[find_name(
                    self@.lines,
                    name@,
                )],
                None => find_name(self@.lines, name@) == -1,
            },
    {
        let ghost f = |l: RuleLine<'a>| l@;
        let ghost lv = self@.lines;
        let mut i: usize = 0;
        while i < self.rules.len()
            invariant
                i <= self.rules@.len(),
                lv == self.rules@.map_values(|l: RuleLine<'a>| l@),
                forall|j: int| 0 <= j < i ==> (#[trigger] lv[j]).name != name@,
            decreases self.rules@.len() - i,
        {
            if bytes_eq(self.rules[i].name, name) {
                proof {
                    lemma_find_name(lv, name@);
                    let ix = find_name(lv, name@);
                    assert(lv[i as int].name == name@);
                    assert(ix >= 0);
                    assert(ix == i) by {
                        if ix < i {
                            assert(lv[ix].name == name@);
                        }
                    }
                }
                return Some(&self.rules[i]);
            }
            i += 1;
        }
        proof {
            lemma_find_name(lv, name@);
        }
        None
    }
}

} // verus!
