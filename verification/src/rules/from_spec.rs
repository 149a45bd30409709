use vstd::prelude::*;

use super::grammar::piece_ref_ok;
use super::grammar::rule_refs_ok;
use super::grammar::table_wf;
use super::grammar::rules_view;
use super::grammar::Grammar;
use super::literal::Literal;
use super::literal::LiteralContent;
use super::literal::LiteralV;
use super::rule::Rule;
use super::rule::RuleList;
use super::rule::RuleOrs;
use super::rule::RulePiece;
use super::rule::RulePieceContent;
use super::rule::RulePieceContentV;
use super::rule::RulePieceV;
use super::rule::RuleV;

use crate::spec_parser::content::inner;
use crate::spec_parser::grammar::find_name;
use crate::spec_parser::grammar::grammar_wf;
use crate::spec_parser::grammar::lemma_find_name;
use crate::spec_parser::grammar::Grammar as SpecGrammar;
use crate::spec_parser::grammar::GrammarV;
use crate::spec_parser::rule_line::RuleLine as SpecRuleLine;
use crate::spec_parser::rule_line::RuleLineV;
use crate::spec_parser::rule_ors::RuleOrs as SpecRuleOrs;
use crate::spec_parser::rule_piece::PieceContentV;
use crate::spec_parser::rule_piece::PieceV;
use crate::spec_parser::rule_piece::RulePiece as SpecRulePiece;
use crate::spec_parser::rule_piece::RulePieceContent as SpecRulePieceContent;
use crate::spec_parser::rule_series::RuleSeries as SpecRuleSeries;

use crate::structures::id::keys_distinct;
use crate::structures::id::Id;

verus! {

/// A compile-time failure: a reachable rule references a name that the
/// specification does not define.
#[derive(Debug, PartialEq)]
pub enum CompileError<'a> {
    UnknownRule(&'a [u8]),
}

/// The name a piece references, when it is a rule reference.
pub open spec fn piece_ident_name(sp: PieceV) -> Option<Seq<u8>> {
    match sp.content {
        PieceContentV::Ident(span) => Some(inner(span)),
        _ => None,
    }
}

/// Whether some piece of the alternatives `oss` references the name `n`.
pub open spec fn is_line_ref(oss: Seq<Seq<PieceV>>, n: Seq<u8>) -> bool {
    exists|i: int, j: int|
        0 <= i < oss.len() && 0 <= j < (#[trigger] oss[i]).len() && piece_ident_name(
            #[trigger] oss[i][j],
        ) == Some(n)
}

/// Every name interned while translating the alternative `ss` (the names
/// of `names1` past the front `names0`) is one that `ss` references.
pub open spec fn new_names_are_refs(
    ss: Seq<PieceV>,
    names0: Seq<Seq<u8>>,
    names1: Seq<Seq<u8>>,
) -> bool {
    forall|k: int|
        names0.len() <= k < names1.len() ==> (exists|j: int|
            0 <= j < ss.len() && piece_ident_name(#[trigger] ss[j]) == Some(
                #[trigger] names1[k],
            ))
}

/// The compiled piece `cp` renders the specification piece `sp`, rule
/// references resolved against the interned `names`: a quoted literal
/// becomes its inner text, a range stays a range, an identifier becomes
/// the identifier's interned index, and the repetition mode is kept.
pub open spec fn piece_corresponds(sp: PieceV, cp: RulePieceV, names: Seq<Seq<u8>>) -> bool {
    cp.rep == sp.rep && match sp.content {
        PieceContentV::Single(span) => cp.content == RulePieceContentV::Literal(
            LiteralV::Str(inner(span)),
        ),
        PieceContentV::Double(span) => cp.content == RulePieceContentV::Literal(
            LiteralV::Str(inner(span)),
        ),
        PieceContentV::Range(f, t) => cp.content == RulePieceContentV::Literal(
            LiteralV::Range(f, t),
        ),
        PieceContentV::Ident(span) => match cp.content {
            RulePieceContentV::Rule(k) => 0 <= k < names.len() && names[k] == inner(span),
            _ => false,
        },
    }
}

/// The compiled alternative renders the specification alternative piece
/// by piece.
pub open spec fn series_corresponds(
    ss: Seq<PieceV>,
    cs: Seq<RulePieceV>,
    names: Seq<Seq<u8>>,
) -> bool {
    cs.len() == ss.len() && forall|j: int|
        0 <= j < ss.len() ==> piece_corresponds(#[trigger] ss[j], #[trigger] cs[j], names)
}

/// The compiled alternative list renders the specification's, list by
/// list.
pub open spec fn ors_corresponds(
    so: Seq<Seq<PieceV>>,
    co: Seq<Seq<RulePieceV>>,
    names: Seq<Seq<u8>>,
) -> bool {
    co.len() == so.len() && forall|i: int|
        0 <= i < so.len() ==> series_corresponds(#[trigger] so[i], #[trigger] co[i], names)
}

/// The compiled rule renders the specification production: same name,
/// corresponding alternatives.
pub open spec fn rule_corresponds(l: RuleLineV, r: RuleV, names: Seq<Seq<u8>>) -> bool {
    r.name == l.name && ors_corresponds(l.ors, r.ors, names)
}

/// Interned names only grow at the end: the old table is a prefix of the
/// new one.
pub open spec fn names_extend(pre: Seq<Seq<u8>>, post: Seq<Seq<u8>>) -> bool {
    pre.len() <= post.len() && forall|i: int| 0 <= i < pre.len() ==> post[i] == #[trigger] pre[i]
}

/// Correspondence is stable when the name table grows at the end.
pub proof fn lemma_piece_corr_extend(
    sp: PieceV,
    cp: RulePieceV,
    names: Seq<Seq<u8>>,
    names2: Seq<Seq<u8>>,
)
    requires
        piece_corresponds(sp, cp, names),
        names_extend(names, names2),
    ensures
        piece_corresponds(sp, cp, names2),
{
}

/// Correspondence of whole alternative lists is stable when the name
/// table grows at the end.
pub proof fn lemma_ors_corr_extend(
    so: Seq<Seq<PieceV>>,
    co: Seq<Seq<RulePieceV>>,
    names: Seq<Seq<u8>>,
    names2: Seq<Seq<u8>>,
)
    requires
        ors_corresponds(so, co, names),
        names_extend(names, names2),
    ensures
        ors_corresponds(so, co, names2),
{
    assert forall|i: int| 0 <= i < so.len() implies series_corresponds(
        #[trigger] so[i],
        #[trigger] co[i],
        names2,
    ) by {
        assert(series_corresponds(so[i], co[i], names));
        assert forall|j: int| 0 <= j < so[i].len() implies piece_corresponds(
            #[trigger] so[i][j],
            #[trigger] co[i][j],
            names2,
        ) by {
            assert(piece_corresponds(so[i][j], co[i][j], names));
            lemma_piece_corr_extend(so[i][j], co[i][j], names, names2);
        }
    }
}

impl<'a> RulePiece<'a> {
    /// Translates one specification piece: literals and ranges are copied,
    /// an identifier is interned to its dense rule identifier.
    pub fn from_spec(elem: &SpecRulePiece<'a>, id_gen: &mut Id<'a>) -> (r: RulePiece<'a>)
        requires
            crate::spec_parser::rule_piece::piece_wf(elem@),
            old(id_gen).wf(),
        ensures
            final(id_gen).wf(),
            names_extend(old(id_gen)@, final(id_gen)@),
            piece_corresponds(elem@, r@, final(id_gen)@),
            forall|k: int|
                old(id_gen)@.len() <= k < final(id_gen)@.len() ==> piece_ident_name(elem@)
                    == Some(#[trigger] final(id_gen)@[k]),
    {
        let content = match &elem.content {
            SpecRulePieceContent::Single(quote) => RulePieceContent::Literal(
                Literal { content: LiteralContent::Str(quote.content()) },
            ),
            SpecRulePieceContent::Double(quote) => RulePieceContent::Literal(
                Literal { content: LiteralContent::Str(quote.content()) },
            ),
            SpecRulePieceContent::Ident(ident) => {
                let (k, _) = id_gen.get(ident.content());
                RulePieceContent::Rule(k)
            },
            SpecRulePieceContent::Range(range) => RulePieceContent::Literal(
                Literal { content: LiteralContent::Range { from: range.from, to: range.to } },
            ),
        };
        RulePiece { repetition: elem.repetition, content }
    }
}

impl<'a> RuleList<'a> {
    /// Translates one specification alternative piece by piece.
    pub fn from_spec(elem: &SpecRuleSeries<'a>, id_gen: &mut Id<'a>) -> (r: RuleList<'a>)
        requires
            crate::spec_parser::rule_series::series_wf(elem@),
            old(id_gen).wf(),
        ensures
            final(id_gen).wf(),
            names_extend(old(id_gen)@, final(id_gen)@),
            series_corresponds(elem@, r@, final(id_gen)@),
            new_names_are_refs(elem@, old(id_gen)@, final(id_gen)@),
    {
        let ghost names0 = id_gen@;
        let mut pieces: Vec<RulePiece<'a>> = Vec::new();
        let n = elem.0.len();
        let mut i: usize = 0;
        while i < n
            invariant
                n == elem.0@.len(),
                i <= n,
                crate::spec_parser::rule_series::series_wf(elem@),
                id_gen.wf(),
                names_extend(names0, id_gen@),
                pieces@.len() == i,
                series_corresponds(elem@.take(i as int), pieces@.map_values(|p: RulePiece<'a>| p@), id_gen@),
                new_names_are_refs(elem@, names0, id_gen@),
            decreases n - i,
    {
            let ghost names_before = id_gen@;
            let ghost pieces_before = pieces@;
            assert(elem@[i as int] == elem.0@[i as int]@);
            let p = RulePiece::from_spec(&elem.0[i], id_gen);
            pieces.push(p);
            proof {
                let f = |q: RulePiece<'a>| q@;
                let cs_prev = pieces_before.map_values(f);
                let cs = pieces@.map_values(f);
                assert(cs =~= cs_prev.push(p@));
                let ss = elem@.take(i + 1);
                assert forall|j: int| 0 <= j < ss.len() implies piece_corresponds(
                    #[trigger] ss[j],
                    #[trigger] cs[j],
                    id_gen@,
                ) by {
                    if j < i {
                        assert(elem@.take(i as int)[j] == ss[j]);
                        assert(cs_prev[j] == cs[j]);
                        assert(piece_corresponds(ss[j], cs[j], names_before));
                        lemma_piece_corr_extend(ss[j], cs[j], names_before, id_gen@);
                    } else {
                        assert(ss[j] == elem@[i as int]);
                        assert(cs[j] == p@);
                    }
                }
                assert forall|k: int| #![trigger id_gen@[k]] names0.len() <= k < id_gen@.len()
                    implies (exists|j: int|
                    0 <= j < elem@.len() && piece_ident_name(#[trigger] elem@[j]) == Some(
                        id_gen@[k],
                    )) by {
                    if k >= names_before.len() {
                        assert(piece_ident_name(elem@[i as int]) == Some(id_gen@[k]));
                    } else {
                        assert(new_names_are_refs(elem@, names0, names_before));
                        let j0 = choose|j: int|
                            0 <= j < elem@.len() && piece_ident_name(#[trigger] elem@[j]) == Some(
                                names_before[k],
                            );
                        assert(id_gen@[k] == names_before[k]);
                        assert(piece_ident_name(elem@[j0]) == Some(id_gen@[k]));
                    }
                }
                assert(new_names_are_refs(elem@, names0, id_gen@));
            }
            i += 1;
        }
        proof {
            assert(elem@.take(n as int) =~= elem@);
        }
        RuleList(pieces)
    }
}


/// Every name interned while translating the alternatives `oss` is one
/// that `oss` references.
pub open spec fn new_names_are_ors_refs(
    oss: Seq<Seq<PieceV>>,
    names0: Seq<Seq<u8>>,
    names1: Seq<Seq<u8>>,
) -> bool {
    forall|k: int|
        names0.len() <= k < names1.len() ==> is_line_ref(oss, #[trigger] names1[k])
}

impl<'a> RuleOrs<'a> {
    /// Translates a whole alternative list, alternative by alternative.
    pub fn from_spec(elem: &SpecRuleOrs<'a>, id_gen: &mut Id<'a>) -> (r: RuleOrs<'a>)
        requires
            crate::spec_parser::rule_ors::ors_wf(elem@),
            old(id_gen).wf(),
        ensures
            final(id_gen).wf(),
            names_extend(old(id_gen)@, final(id_gen)@),
            ors_corresponds(elem@, r@, final(id_gen)@),
            new_names_are_ors_refs(elem@, old(id_gen)@, final(id_gen)@),
    {
        let ghost names0 = id_gen@;
        let mut lists: Vec<RuleList<'a>> = Vec::new();
        let n = elem.0.len();
        let mut i: usize = 0;
        while i < n
            invariant
                n == elem.0@.len(),
                i <= n,
                crate::spec_parser::rule_ors::ors_wf(elem@),
                id_gen.wf(),
                names_extend(names0, id_gen@),
                lists@.len() == i,
                ors_corresponds(
                    elem@.take(i as int),
                    lists@.map_values(|l: RuleList<'a>| l@),
                    id_gen@,
                ),
                new_names_are_ors_refs(elem@, names0, id_gen@),
            decreases n - i,
        {
            let ghost names_before = id_gen@;
            let ghost lists_before = lists@;
            assert(elem@[i as int] == elem.0@[i as int]@);
            let cl = RuleList::from_spec(&elem.0[i], id_gen);
            lists.push(cl);
            proof {
                let f = |l: RuleList<'a>| l@;
                let cs_prev = lists_before.map_values(f);
                let cs = lists@.map_values(f);
                assert(cs =~= cs_prev.push(cl@));
                let ss = elem@.take(i + 1);
                assert forall|j: int| 0 <= j < ss.len() implies series_corresponds(
                    #[trigger] ss[j],
                    #[trigger] cs[j],
                    id_gen@,
                ) by {
                    if j < i {
                        assert(elem@.take(i as int)[j] == ss[j]);
                        assert(cs_prev[j] == cs[j]);
                        assert(series_corresponds(ss[j], cs_prev[j], names_before));
                        assert forall|m: int| 0 <= m < ss[j].len() implies piece_corresponds(
                            #[trigger] ss[j][m],
                            #[trigger] cs[j][m],
                            id_gen@,
                        ) by {
                            lemma_piece_corr_extend(ss[j][m], cs[j][m], names_before, id_gen@);
                        }
                    } else {
                        assert(ss[j] == elem@[i as int]);
                        assert(cs[j] == cl@);
                    }
                }
                assert forall|k: int| #![trigger id_gen@[k]] names0.len() <= k < id_gen@.len()
                    implies is_line_ref(elem@, id_gen@[k]) by {
                    if k >= names_before.len() {
                        assert(new_names_are_refs(elem@[i as int], names_before, id_gen@));
                        let j0 = choose|j: int|
                            0 <= j < elem@[i as int].len() && piece_ident_name(
                                #[trigger] elem@[i as int][j],
                            ) == Some(id_gen@[k]);
                        assert(piece_ident_name(elem@[i as int][j0]) == Some(id_gen@[k]));
                        assert(is_line_ref(elem@, id_gen@[k]));
                    } else {
                        assert(is_line_ref(elem@, names_before[k]));
                        assert(id_gen@[k] == names_before[k]);
                    }
                }
            }
            i += 1;
        }
        proof {
            assert(elem@.take(n as int) =~= elem@);
        }
        RuleOrs(lists)
    }
}

impl<'a> Rule<'a> {
    /// Translates one whole production into a compiled rule.
    pub fn from_spec(elem: &SpecRuleLine<'a>, id_gen: &mut Id<'a>) -> (r: Rule<'a>)
        requires
            crate::spec_parser::rule_ors::ors_wf(elem@.ors),
            old(id_gen).wf(),
        ensures
            final(id_gen).wf(),
            names_extend(old(id_gen)@, final(id_gen)@),
            rule_corresponds(elem@, r@, final(id_gen)@),
            new_names_are_ors_refs(elem@.ors, old(id_gen)@, final(id_gen)@),
    {
        let ors = RuleOrs::from_spec(&elem.rules, id_gen);
        Rule { name: elem.name, rule: ors }
    }
}


/// The specification defines a production named `n`.
pub open spec fn defined(g: GrammarV, n: Seq<u8>) -> bool {
    find_name(g.lines, n) >= 0
}

/// The production named `n`, for a defined name.
pub open spec fn line_of(g: GrammarV, n: Seq<u8>) -> RuleLineV {
    g.lines[find_name(g.lines, n)]
}

/// The rule names reachable from the start rule in at most `k` steps:
/// the start rule itself, and every name referenced by a defined rule
/// already reached.
pub open spec fn reach_n(g: GrammarV, k: nat) -> Set<Seq<u8>>
    decreases k,
{
    if k == 0 {
        Set::empty().insert(g.main)
    } else {
        reach_n(g, (k - 1) as nat).union(
            Set::new(
                |r: Seq<u8>|
                    exists|m: Seq<u8>|
                        #[trigger] reach_n(g, (k - 1) as nat).contains(m) && defined(g, m)
                            && is_line_ref(line_of(g, m).ors, r),
            ),
        )
    }
}

/// A rule name is reachable when some number of steps reaches it.
pub open spec fn reachable(g: GrammarV, n: Seq<u8>) -> bool {
    exists|k: nat| reach_n(g, k).contains(n)
}

/// The start rule is reachable.
pub proof fn lemma_reach_main(g: GrammarV)
    ensures
        reachable(g, g.main),
{
    assert(reach_n(g, 0).contains(g.main));
}

/// A name referenced by a reachable, defined rule is itself reachable.
pub proof fn lemma_reach_step(g: GrammarV, m: Seq<u8>, r: Seq<u8>)
    requires
        reachable(g, m),
        defined(g, m),
        is_line_ref(line_of(g, m).ors, r),
    ensures
        reachable(g, r),
{
    let k = choose|k: nat| reach_n(g, k).contains(m);
    assert(reach_n(g, k).contains(m));
    assert(reach_n(g, k + 1).contains(r));
}

/// The name `n` stands somewhere in the queue `q`.
pub open spec fn in_queue(q: Seq<Seq<u8>>, n: Seq<u8>) -> bool {
    exists|j: int| 0 <= j < q.len() && q[j] == n
}

/// A queued name stays queued as the queue grows at the end.
pub proof fn lemma_in_queue_extend(q1: Seq<Seq<u8>>, q2: Seq<Seq<u8>>, n: Seq<u8>)
    requires
        in_queue(q1, n),
        q1.len() <= q2.len(),
        forall|j: int| 0 <= j < q1.len() ==> q2[j] == #[trigger] q1[j],
    ensures
        in_queue(q2, n),
{
    let j = choose|j: int| 0 <= j < q1.len() && q1[j] == n;
    assert(q2[j] == n);
}

/// The name `n` has been compiled: some interned identifier carries it
/// and its table slot is filled.
pub open spec fn compiled_name(names: Seq<Seq<u8>>, tv: Seq<Option<RuleV>>, n: Seq<u8>) -> bool {
    exists|id: int|
        0 <= id < names.len() && #[trigger] names[id] == n && id < tv.len() && tv[id] is Some
}

/// How many of the first `k` productions still await compilation.
pub open spec fn count_todo(
    lines: Seq<RuleLineV>,
    names: Seq<Seq<u8>>,
    tv: Seq<Option<RuleV>>,
    k: int,
) -> nat
    decreases k,
{
    if k <= 0 {
        0
    } else {
        count_todo(lines, names, tv, k - 1) + if compiled_name(names, tv, lines[k - 1].name) {
            0nat
        } else {
            1nat
        }
    }
}

/// Compiling never un-compiles: when every name compiled before stays
/// compiled, the count of waiting productions cannot grow.
pub proof fn lemma_count_todo_le(
    lines: Seq<RuleLineV>,
    names1: Seq<Seq<u8>>,
    tv1: Seq<Option<RuleV>>,
    names2: Seq<Seq<u8>>,
    tv2: Seq<Option<RuleV>>,
    k: int,
)
    requires
        forall|i: int|
            0 <= i < k ==> (compiled_name(names1, tv1, (#[trigger] lines[i]).name)
                ==> compiled_name(names2, tv2, lines[i].name)),
    ensures
        count_todo(lines, names2, tv2, k) <= count_todo(lines, names1, tv1, k),
    decreases k,
{
    if k > 0 {
        lemma_count_todo_le(lines, names1, tv1, names2, tv2, k - 1);
    }
}

/// When moreover some production compiled just now was waiting before,
/// the count of waiting productions strictly falls.
pub proof fn lemma_count_todo_lt(
    lines: Seq<RuleLineV>,
    names1: Seq<Seq<u8>>,
    tv1: Seq<Option<RuleV>>,
    names2: Seq<Seq<u8>>,
    tv2: Seq<Option<RuleV>>,
    k: int,
    i0: int,
)
    requires
        forall|i: int|
            0 <= i < k ==> (compiled_name(names1, tv1, (#[trigger] lines[i]).name)
                ==> compiled_name(names2, tv2, lines[i].name)),
        0 <= i0 < k,
        !compiled_name(names1, tv1, lines[i0].name),
        compiled_name(names2, tv2, lines[i0].name),
    ensures
        count_todo(lines, names2, tv2, k) < count_todo(lines, names1, tv1, k),
    decreases k,
{
    if i0 == k - 1 {
        lemma_count_todo_le(lines, names1, tv1, names2, tv2, k - 1);
    } else {
        lemma_count_todo_lt(lines, names1, tv1, names2, tv2, k - 1, i0);
    }
}

/// An extension of the interner and the table keeps every compiled name
/// compiled, as long as filled slots stay filled.
pub proof fn lemma_compiled_mono(
    names1: Seq<Seq<u8>>,
    tv1: Seq<Option<RuleV>>,
    names2: Seq<Seq<u8>>,
    tv2: Seq<Option<RuleV>>,
    n: Seq<u8>,
)
    requires
        names_extend(names1, names2),
        tv1.len() <= tv2.len(),
        forall|id: int| 0 <= id < tv1.len() ==> ((#[trigger] tv1[id]) is Some ==> tv2[id] is Some),
        compiled_name(names1, tv1, n),
    ensures
        compiled_name(names2, tv2, n),
{
    let id = choose|id: int|
        0 <= id < names1.len() && #[trigger] names1[id] == n && id < tv1.len() && tv1[id] is Some;
    assert(names2[id] == n);
    assert(compiled_name(names2, tv2, n));
}

/// The names of the compiled rules, in identifier order.
pub open spec fn table_names(g: Seq<RuleV>) -> Seq<Seq<u8>> {
    g.map_values(|r: RuleV| r.name)
}

/// What compilation promises of a rule table built from the
/// specification `sg`: the table is closed under its own references; its
/// rules carry exactly the names reachable from the start rule, each
/// once, the start rule at identifier zero; and each rule renders its
/// defining production, references resolved to the identifiers of the
/// named rules.
pub open spec fn compiled_ok(sg: GrammarV, g: Seq<RuleV>) -> bool {
    &&& table_wf(g)
    &&& g[0].name == sg.main
    &&& keys_distinct(table_names(g))
    &&& (forall|id: int|
        0 <= id < g.len() ==> {
            &&& reachable(sg, (#[trigger] g[id]).name)
            &&& defined(sg, g[id].name)
            &&& rule_corresponds(line_of(sg, g[id].name), g[id], table_names(g))
        })
    &&& (forall|n: Seq<u8>|
        #[trigger] reachable(sg, n) ==> defined(sg, n) && (exists|id: int|
            0 <= id < g.len() && (#[trigger] g[id]).name == n))
}

/// A rule whose pieces correspond to a production has all its references
/// inside a table of `names.len()` rules.
pub proof fn lemma_corr_refs_ok(l: RuleLineV, r: RuleV, names: Seq<Seq<u8>>)
    requires
        rule_corresponds(l, r, names),
    ensures
        rule_refs_ok(r, names.len() as int),
{
    assert forall|i: int| 0 <= i < r.ors.len() implies super::grammar::series_refs_ok(
        #[trigger] r.ors[i],
        names.len() as int,
    ) by {
        assert(series_corresponds(l.ors[i], r.ors[i], names));
        assert forall|j: int| 0 <= j < r.ors[i].len() implies piece_ref_ok(
            #[trigger] r.ors[i][j],
            names.len() as int,
        ) by {
            assert(piece_corresponds(l.ors[i][j], r.ors[i][j], names));
        }
    }
}

/// The queued names as mathematical byte strings.
pub open spec fn q_view<'a>(q: Seq<&'a [u8]>) -> Seq<Seq<u8>> {
    q.map_values(|x: &'a [u8]| x@)
}

/// The mathematical contents of the slot table.
pub open spec fn slots_view<'a>(t: Seq<Option<Rule<'a>>>) -> Seq<Option<RuleV>> {
    t.map_values(
        |o: Option<Rule<'a>>|
            match o {
                Option::Some(r) => Option::Some(r@),
                Option::None => Option::None,
            },
    )
}

/// One filled slot of the working table is sound: its name is defined
/// and reachable, its rule renders that production against the interned
/// names, and every name its production references has been queued.
pub open spec fn slot_ok(
    sg: GrammarV,
    names: Seq<Seq<u8>>,
    qv: Seq<Seq<u8>>,
    tv: Seq<Option<RuleV>>,
    id: int,
) -> bool {
    tv[id] is Some ==> {
        &&& defined(sg, names[id])
        &&& reachable(sg, names[id])
        &&& rule_corresponds(line_of(sg, names[id]), tv[id].unwrap(), names)
        &&& (forall|n: Seq<u8>|
            #[trigger] is_line_ref(line_of(sg, names[id]).ors, n) ==> in_queue(qv, n))
    }
}

impl<'a> Grammar<'a> {
    /// Compiles a parsed grammar specification into the Rule Table:
    /// breadth-first from the start rule, interning each newly referenced
    /// name to a fresh dense identifier and dropping rules no reference
    /// reaches. Fails with the name of the first reachable rule that the
    /// specification does not define.
    pub fn try_from(gram: &SpecGrammar<'a>) -> (r: Result<Grammar<'a>, CompileError<'a>>)
        requires
            grammar_wf(gram@),
        ensures
            match r {
                Ok(g) => compiled_ok(gram@, g@),
                Err(e) => e matches CompileError::UnknownRule(n) && reachable(gram@, n@)
                    && !defined(gram@, n@),
            },
    {
        let ghost sg = gram@;
        let mut table: Vec<Option<Rule<'a>>> = Vec::new();
        let mut id_gen: Id<'a> = Default::default();
        let mut queue: Vec<&'a [u8]> = Vec::new();
        queue.push(gram.main);
        let mut head: usize = 0;
        proof {
            lemma_reach_main(sg);
            assert(q_view(queue@) =~= seq![sg.main]);
            assert(slots_view(table@) =~= Seq::<Option<RuleV>>::empty());
            assert(id_gen@ =~= Seq::<Seq<u8>>::empty());
        }
        while head < queue.len()
            invariant
                grammar_wf(sg),
                sg == gram@,
                id_gen.wf(),
                slots_view(table@).len() == id_gen@.len(),
                head <= queue@.len(),
                queue@.len() >= 1,
                q_view(queue@)[0] == sg.main,
                forall|j: int|
                    0 <= j < queue@.len() ==> reachable(
                        sg,
                        #[trigger] q_view(queue@)[j],
                    ),
                forall|id: int|
                    0 <= id < slots_view(table@).len() ==> slot_ok(
                        sg,
                        id_gen@,
                        q_view(queue@),
                        slots_view(table@),
                        id,
                    ),
                forall|j: int|
                    0 <= j < head ==> compiled_name(
                        id_gen@,
                        slots_view(table@),
                        #[trigger] q_view(queue@)[j],
                    ),
                forall|id: int|
                    0 <= id < id_gen@.len() ==> in_queue(
                        q_view(queue@),
                        #[trigger] id_gen@[id],
                    ),
                head > 0 ==> id_gen@.len() >= 1 && id_gen@[0] == sg.main,
                head == 0 ==> id_gen@.len() == 0,
            decreases count_todo(sg.lines, id_gen@, slots_view(table@), sg.lines.len() as int), queue@.len() - head,
        {
            let ghost qv = q_view(queue@);
            let ghost names0 = id_gen@;
            let ghost tv0 = slots_view(table@);
            let name = queue[head];
            proof {
                assert(name@ == qv[head as int]);
            }
            head += 1;
            let (id, _existed) = id_gen.get(name);
            let ghost names1 = id_gen@;
            while table.len() < id_gen.len()
                invariant
                    id_gen@ == names1,
                    slots_view(table@).len() <= names1.len(),
                    slots_view(table@).len() >= tv0.len(),
                    forall|k: int|
                        0 <= k < tv0.len() ==> slots_view(table@)[k] == #[trigger] tv0[k],
                    forall|k: int|
                        tv0.len() <= k < slots_view(table@).len() ==> (#[trigger] slots_view(
                            table@,
                        )[k]) is None,
                decreases id_gen@.len() - table@.len(),
            {
                let ghost tb = table@;
                table.push(None);
                proof {
                    assert(slots_view(table@) =~= slots_view(tb).push(Option::None));
                }
            }
            let ghost tv1 = slots_view(table@);
            proof {
                assert(tv1.len() == names1.len());
            }
            let compiled_already = table[id].is_some();
            if compiled_already {
                proof {
                    assert(tv1[id as int] is Some);
                    assert(id < tv0.len()) by {
                        if id >= tv0.len() {
                            assert(tv1[id as int] is None);
                        }
                    }
                    assert(names_extend(names0, names1));
                    assert(forall|k: int|
                        0 <= k < tv0.len() ==> ((#[trigger] tv0[k]) is Some ==> tv1[k] is Some));
                    assert forall|i: int| 0 <= i < sg.lines.len() implies (compiled_name(
                        names0,
                        tv0,
                        (#[trigger] sg.lines[i]).name,
                    ) ==> compiled_name(names1, tv1, sg.lines[i].name)) by {
                        if compiled_name(names0, tv0, sg.lines[i].name) {
                            lemma_compiled_mono(names0, tv0, names1, tv1, sg.lines[i].name);
                        }
                    }
                    assert forall|i: int| 0 <= i < sg.lines.len() implies (compiled_name(
                        names1,
                        tv1,
                        (#[trigger] sg.lines[i]).name,
                    ) ==> compiled_name(names0, tv0, sg.lines[i].name)) by {
                        if compiled_name(names1, tv1, sg.lines[i].name) {
                            let w = choose|w: int|
                                0 <= w < names1.len() && #[trigger] names1[w] == sg.lines[i].name
                                    && w < tv1.len() && tv1[w] is Some;
                            assert(w < tv0.len()) by {
                                if w >= tv0.len() {
                                    assert(tv1[w] is None);
                                }
                            }
                            assert(names0[w] == names1[w]);
                            assert(compiled_name(names0, tv0, sg.lines[i].name));
                        }
                    }
                    lemma_count_todo_le(sg.lines, names0, tv0, names1, tv1, sg.lines.len() as int);
                    lemma_count_todo_le(sg.lines, names1, tv1, names0, tv0, sg.lines.len() as int);
                    // slot and queue facts carry over unchanged
                    assert forall|sid: int| 0 <= sid < tv1.len() implies slot_ok(
                        sg,
                        names1,
                        qv,
                        tv1,
                        sid,
                    ) by {
                        if tv1[sid] is Some {
                            assert(sid < tv0.len()) by {
                                if sid >= tv0.len() {
                                    assert(tv1[sid] is None);
                                }
                            }
                            assert(slot_ok(sg, names0, qv, tv0, sid));
                            assert(names1[sid] == names0[sid]);
                            lemma_ors_corr_extend(
                                line_of(sg, names0[sid]).ors,
                                tv0[sid].unwrap().ors,
                                names0,
                                names1,
                            );
                        }
                    }
                    assert forall|j: int| 0 <= j < head implies compiled_name(
                        names1,
                        tv1,
                        #[trigger] qv[j],
                    ) by {
                        if j < head - 1 {
                            lemma_compiled_mono(names0, tv0, names1, tv1, qv[j]);
                        } else {
                            assert(names1[id as int] == name@);
                            assert(compiled_name(names1, tv1, qv[j]));
                        }
                    }
                    assert forall|nid: int| 0 <= nid < names1.len() implies in_queue(
                        qv,
                        #[trigger] names1[nid],
                    ) by {
                        if nid < names0.len() {
                            assert(names1[nid] == names0[nid]);
                        } else {
                            assert(names1[nid] == name@);
                            assert(qv[head - 1] == name@);
                        }
                    }
                    assert(head > 0 ==> names1.len() >= 1);
                    if head == 1 {
                        assert(names0.len() == 0);
                        assert(!_existed);
                        assert(id == 0);
                        assert(names1[0] == name@);
                        assert(qv[0] == sg.main);
                    } else {
                        assert(names0[0] == sg.main);
                    }
                }
            } else {
                let line = match gram.get_rule(name) {
                    Some(l) => l,
                    None => {
                        proof {
                            crate::spec_parser::grammar::lemma_find_name(sg.lines, name@);
                        }
                        return Err(CompileError::UnknownRule(name));
                    },
                };
                proof {
                    lemma_find_name(sg.lines, name@);
                    let ix = find_name(sg.lines, name@);
                    assert(line@ == sg.lines[ix]);
                    assert(crate::spec_parser::grammar::lines_wf(sg.lines));
                    assert(crate::spec_parser::rule_ors::ors_wf(sg.lines[ix].ors));
                }
                let rule = Rule::from_spec(line, &mut id_gen);
                let ghost names2 = id_gen@;
                proof {
                    assert(names_extend(names0, names1));
                    assert(names_extend(names0, names2));
                }
                while table.len() < id_gen.len()
                    invariant
                        id_gen@ == names2,
                        slots_view(table@).len() <= names2.len(),
                        slots_view(table@).len() >= tv1.len(),
                        forall|k: int|
                            0 <= k < tv1.len() ==> slots_view(table@)[k] == #[trigger] tv1[k],
                        forall|k: int|
                            tv1.len() <= k < slots_view(table@).len() ==> (#[trigger] slots_view(
                                table@,
                            )[k]) is None,
                    decreases id_gen@.len() - table@.len(),
                {
                    let ghost tb = table@;
                    table.push(None);
                    proof {
                        assert(slots_view(table@) =~= slots_view(tb).push(Option::None));
                    }
                }
                let ghost tv2 = slots_view(table@);
                let ghost tb2 = table@;
                table.set(id, Some(rule));
                proof {
                    assert(slots_view(table@) =~= tv2.update(id as int, Option::Some(rule@)));
                }
                let ghost tv3 = slots_view(table@);
                // queue every name this production references
                let ghost q_before = q_view(queue@);
                let n_series = line.rules.0.len();
                let mut si: usize = 0;
                while si < n_series
                    invariant
                        n_series == line.rules.0@.len(),
                        si <= n_series,
                        crate::spec_parser::rule_ors::ors_wf(line@.ors),
                        q_view(queue@).len() >= q_before.len(),
                        forall|j: int|
                            0 <= j < q_before.len() ==> q_view(queue@)[j]
                                == #[trigger] q_before[j],
                        forall|j: int|
                            q_before.len() <= j < q_view(queue@).len()
                                ==> is_line_ref(
                                line@.ors,
                                #[trigger] q_view(queue@)[j],
                            ),
                        forall|i2: int, j2: int|
                            0 <= i2 < si && 0 <= j2 < (#[trigger] line@.ors[i2]).len()
                                ==> (piece_ident_name(#[trigger] line@.ors[i2][j2]) is Some
                                ==> in_queue(
                                q_view(queue@),
                                piece_ident_name(line@.ors[i2][j2]).unwrap(),
                            )),
                    decreases n_series - si,
                {
                    let series = &line.rules.0[si];
                    proof {
                        assert(line@.ors[si as int] == line.rules.0@[si as int]@);
                    }
                    let n_pieces = series.0.len();
                    let mut pi: usize = 0;
                    while pi < n_pieces
                        invariant
                            n_pieces == series.0@.len(),
                            series@ == line@.ors[si as int],
                            0 <= si < line@.ors.len(),
                            crate::spec_parser::rule_ors::ors_wf(line@.ors),
                            pi <= n_pieces,
                            q_view(queue@).len() >= q_before.len(),
                            forall|j: int|
                                0 <= j < q_before.len() ==> q_view(queue@)[j]
                                    == #[trigger] q_before[j],
                            forall|j: int|
                                q_before.len() <= j < q_view(queue@).len()
                                    ==> is_line_ref(
                                    line@.ors,
                                    #[trigger] q_view(queue@)[j],
                                ),
                            forall|i2: int, j2: int|
                                0 <= i2 < si && 0 <= j2 < (#[trigger] line@.ors[i2]).len()
                                    ==> (piece_ident_name(#[trigger] line@.ors[i2][j2]) is Some
                                    ==> in_queue(
                                    q_view(queue@),
                                    piece_ident_name(line@.ors[i2][j2]).unwrap(),
                                )),
                            forall|j2: int|
                                0 <= j2 < pi ==> (piece_ident_name(
                                    #[trigger] line@.ors[si as int][j2],
                                ) is Some ==> in_queue(
                                    q_view(queue@),
                                    piece_ident_name(line@.ors[si as int][j2]).unwrap(),
                                )),
                        decreases n_pieces - pi,
                    {
                        proof {
                            assert(series@[pi as int] == series.0@[pi as int]@);
                            assert(crate::spec_parser::rule_series::series_wf(
                                line@.ors[si as int],
                            ));
                            assert(crate::spec_parser::rule_piece::piece_wf(
                                line@.ors[si as int][pi as int],
                            ));
                        }
                        match &series.0[pi].content {
                            SpecRulePieceContent::Ident(ident) => {
                                let ghost qb = q_view(queue@);
                                let refname = ident.content();
                                queue.push(refname);
                                proof {
                                    assert(q_view(queue@) =~= qb.push(refname@));
                                    assert(piece_ident_name(line@.ors[si as int][pi as int])
                                        == Some(refname@));
                                    assert(is_line_ref(line@.ors, refname@));
                                    assert forall|i2: int, j2: int|
                                        0 <= i2 < si && 0 <= j2 < (#[trigger] line@.ors[i2]).len()
                                            && piece_ident_name(#[trigger] line@.ors[i2][j2])
                                            is Some implies in_queue(
                                        q_view(queue@),
                                        piece_ident_name(line@.ors[i2][j2]).unwrap(),
                                    ) by {
                                        lemma_in_queue_extend(
                                            qb,
                                            q_view(queue@),
                                            piece_ident_name(line@.ors[i2][j2]).unwrap(),
                                        );
                                    }
                                    assert forall|j2: int|
                                        0 <= j2 < pi + 1 && piece_ident_name(
                                            #[trigger] line@.ors[si as int][j2],
                                        ) is Some implies in_queue(
                                        q_view(queue@),
                                        piece_ident_name(line@.ors[si as int][j2]).unwrap(),
                                    ) by {
                                        if j2 < pi {
                                            lemma_in_queue_extend(
                                                qb,
                                                q_view(queue@),
                                                piece_ident_name(
                                                    line@.ors[si as int][j2],
                                                ).unwrap(),
                                            );
                                        } else {
                                            assert(q_view(queue@)[q_view(queue@).len() - 1]
                                                == refname@);
                                        }
                                    }
                                }
                            },
                            _ => {
                                proof {
                                    assert(piece_ident_name(line@.ors[si as int][pi as int])
                                        is None);
                                }
                            },
                        }
                        pi += 1;
                    }
                    si += 1;
                }
                proof {
                    let qv2 = q_view(queue@);
                    // every reference of this production is queued
                    assert forall|n: Seq<u8>|
                        #[trigger] is_line_ref(line@.ors, n) implies in_queue(qv2, n) by {
                        let (i2, j2) = choose|i2: int, j2: int|
                            0 <= i2 < line@.ors.len() && 0 <= j2 < (#[trigger] line@.ors[i2]).len()
                                && piece_ident_name(#[trigger] line@.ors[i2][j2]) == Some(n);
                        assert(piece_ident_name(line@.ors[i2][j2]) is Some);
                        assert(in_queue(qv2, piece_ident_name(line@.ors[i2][j2]).unwrap()));
                    }
                    // the measure fell: this production's name is now compiled
                    let i0 = find_name(sg.lines, name@);
                    lemma_find_name(sg.lines, name@);
                    assert(names2[id as int] == name@);
                    assert(tv3[id as int] is Some);
                    assert(compiled_name(names2, tv3, sg.lines[i0].name));
                    assert(!compiled_name(names0, tv0, sg.lines[i0].name)) by {
                        if compiled_name(names0, tv0, sg.lines[i0].name) {
                            let w = choose|w: int|
                                0 <= w < names0.len() && #[trigger] names0[w] == sg.lines[i0].name
                                    && w < tv0.len() && tv0[w] is Some;
                            assert(names2[w] == names0[w]);
                            assert(names2[w] == names2[id as int]);
                            assert(w == id);
                            assert(tv1[w] == tv0[w]);
                            assert(tv1[id as int] is None);
                        }
                    }
                    assert forall|i: int| 0 <= i < sg.lines.len() implies (compiled_name(
                        names0,
                        tv0,
                        (#[trigger] sg.lines[i]).name,
                    ) ==> compiled_name(names2, tv3, sg.lines[i].name)) by {
                        if compiled_name(names0, tv0, sg.lines[i].name) {
                            assert(forall|w: int|
                                0 <= w < tv0.len() ==> ((#[trigger] tv0[w]) is Some ==> tv3[w]
                                    is Some));
                            lemma_compiled_mono(names0, tv0, names2, tv3, sg.lines[i].name);
                        }
                    }
                    lemma_count_todo_lt(
                        sg.lines,
                        names0,
                        tv0,
                        names2,
                        tv3,
                        sg.lines.len() as int,
                        i0,
                    );
                    // restore the loop invariants
                    assert(reachable(sg, name@));
                    assert forall|j: int| 0 <= j < qv2.len() implies reachable(
                        sg,
                        #[trigger] qv2[j],
                    ) by {
                        if j < q_before.len() {
                            assert(qv2[j] == qv[j]);
                        } else {
                            assert(is_line_ref(line@.ors, qv2[j]));
                            assert(line_of(sg, name@) == line@);
                            lemma_reach_step(sg, name@, qv2[j]);
                        }
                    }
                    assert forall|sid: int| 0 <= sid < tv3.len() implies slot_ok(
                        sg,
                        names2,
                        qv2,
                        tv3,
                        sid,
                    ) by {
                        if tv3[sid] is Some {
                            if sid == id {
                                assert(rule_corresponds(line@, rule@, names2));
                                assert(line_of(sg, names2[id as int]) == line@);
                                assert forall|n: Seq<u8>|
                                    #[trigger] is_line_ref(line_of(sg, names2[id as int]).ors, n)
                                        implies in_queue(qv2, n) by {}
                            } else if sid < tv0.len() {
                                assert(tv3[sid] == tv0[sid]);
                                assert(slot_ok(sg, names0, qv, tv0, sid));
                                assert(names2[sid] == names0[sid]);
                                lemma_ors_corr_extend(
                                    line_of(sg, names0[sid]).ors,
                                    tv0[sid].unwrap().ors,
                                    names0,
                                    names2,
                                );
                                assert forall|n: Seq<u8>|
                                    #[trigger] is_line_ref(line_of(sg, names2[sid]).ors, n)
                                    implies in_queue(qv2, n) by {
                                    assert(in_queue(qv, n));
                                    let w = choose|w: int| 0 <= w < qv.len() && qv[w] == n;
                                    assert(qv2[w] == n);
                                }
                            } else {
                                assert(tv3[sid] is None);
                            }
                        }
                    }
                    assert forall|j: int| 0 <= j < head implies compiled_name(
                        names2,
                        tv3,
                        #[trigger] qv2[j],
                    ) by {
                        assert(qv2[j] == qv[j]);
                        if j < head - 1 {
                            assert(compiled_name(names0, tv0, qv[j]));
                            assert(forall|w: int|
                                0 <= w < tv0.len() ==> ((#[trigger] tv0[w]) is Some ==> tv3[w]
                                    is Some));
                            lemma_compiled_mono(names0, tv0, names2, tv3, qv[j]);
                        } else {
                            assert(qv[j] == name@);
                            assert(compiled_name(names2, tv3, name@));
                        }
                    }
                    assert forall|nid: int| 0 <= nid < names2.len() implies in_queue(
                        qv2,
                        #[trigger] names2[nid],
                    ) by {
                        if nid < names0.len() {
                            assert(names2[nid] == names0[nid]);
                            assert(in_queue(qv, names0[nid]));
                            let w = choose|w: int| 0 <= w < qv.len() && qv[w] == names0[nid];
                            assert(qv2[w] == names0[nid]);
                        } else if nid == id {
                            assert(names2[nid] == name@);
                            assert(qv2[head - 1] == name@);
                        } else {
                            // a name interned while translating: a reference of this production
                            assert(nid >= names1.len()) by {
                                if nid < names1.len() {
                                    assert(!_existed);
                                    assert(id == names0.len());
                                }
                            }
                            assert(new_names_are_ors_refs(line@.ors, names1, names2));
                            assert(is_line_ref(line@.ors, names2[nid]));
                            assert(in_queue(qv2, names2[nid]));
                        }
                    }
                }
            }
        }
        // every interned name is compiled; unwrap the slots in identifier order
        let ghost namesf = id_gen@;
        let ghost tvf = slots_view(table@);
        let ghost qvf = q_view(queue@);
        proof {
            assert forall|id: int| 0 <= id < tvf.len() implies (#[trigger] tvf[id]) is Some by {
                assert(in_queue(qvf, namesf[id]));
                let j = choose|j: int| 0 <= j < qvf.len() && qvf[j] == namesf[id];
                assert(compiled_name(namesf, tvf, qvf[j]));
                let w = choose|w: int|
                    0 <= w < namesf.len() && #[trigger] namesf[w] == qvf[j] && w < tvf.len()
                        && tvf[w] is Some;
                assert(w == id);
            }
        }
        let mut rules: Vec<Rule<'a>> = Vec::new();
        while table.len() > 0
            invariant
                slots_view(table@) =~= tvf.take(table@.len() as int),
                forall|w: int| 0 <= w < tvf.len() ==> (#[trigger] tvf[w]) is Some,
                rules@.len() == tvf.len() - table@.len(),
                forall|w: int|
                    0 <= w < rules@.len() ==> (#[trigger] rules_view(rules@)[w]) == tvf[table@.len()
                        + w].unwrap(),
            decreases table@.len(),
        {
            let ghost tb = table@;
            let ghost rb = rules@;
            match table.pop() {
                Some(slot) => match slot {
                    Some(r) => {
                        let ghost rv = r@;
                        rules.insert(0, r);
                        proof {
                            assert(slots_view(table@) =~= slots_view(tb).take(tb.len() - 1));
                            assert(slots_view(table@) =~= tvf.take(table@.len() as int));
                            assert(rules_view(rules@) =~= rules_view(rb).insert(0, rv));
                            assert(slots_view(tb)[tb.len() - 1] == tvf[tb.len() - 1]);
                            assert(rv == tvf[tb.len() - 1].unwrap());
                            assert forall|w: int| 0 <= w < rules@.len() implies (
                            #[trigger] rules_view(rules@)[w]) == tvf[table@.len() + w].unwrap() by {
                                if w > 0 {
                                    assert(rules_view(rules@)[w] == rules_view(rb)[w - 1]);
                                }
                            }
                        }
                    },
                    None => {
                        proof {
                            assert(slots_view(tb)[tb.len() - 1] == tvf[tb.len() - 1]);
                            assert(false);
                        }
                    },
                },
                None => {
                    proof {
                        assert(false);
                    }
                },
            }
        }
        let g = Grammar { rules };
        proof {
            let gv = g@;
            assert(gv.len() == tvf.len());
            assert(head >= 1);
            assert(namesf.len() >= 1);
            assert forall|w: int| 0 <= w < gv.len() implies #[trigger] gv[w] == tvf[w].unwrap() by {
                assert(gv[w] == rules_view(g.rules@)[w]);
                assert(tvf[0 + w].unwrap() == tvf[w].unwrap());
            }
            // the table's names are exactly the interned names
            assert forall|w: int| 0 <= w < gv.len() implies (#[trigger] gv[w]).name
                == namesf[w] by {
                assert(slot_ok(sg, namesf, qvf, tvf, w));
                lemma_find_name(sg.lines, namesf[w]);
            }
            assert(table_names(gv) =~= namesf);
            assert(keys_distinct(table_names(gv)));
            // each rule is sound and renders its production
            assert forall|w: int| 0 <= w < gv.len() implies reachable(sg, (#[trigger] gv[w]).name)
                && defined(sg, gv[w].name) && rule_corresponds(
                line_of(sg, gv[w].name),
                gv[w],
                table_names(gv),
            ) by {
                assert(slot_ok(sg, namesf, qvf, tvf, w));
            }
            // the table is closed under its own references
            assert forall|w: int| 0 <= w < gv.len() implies rule_refs_ok(
                #[trigger] gv[w],
                gv.len() as int,
            ) by {
                assert(slot_ok(sg, namesf, qvf, tvf, w));
                lemma_corr_refs_ok(line_of(sg, gv[w].name), gv[w], namesf);
            }
            assert(table_wf(gv));
            // completeness: every reachable name has a compiled rule
            assert forall|n: Seq<u8>| #[trigger] reachable(sg, n) implies defined(sg, n) && (
            exists|id: int| 0 <= id < gv.len() && (#[trigger] gv[id]).name == n) by {
                let k0 = choose|k0: nat| reach_n(sg, k0).contains(n);
                lemma_reach_compiled(sg, namesf, tvf, qvf, k0);
                assert(compiled_name(namesf, tvf, n));
                let w = choose|w: int|
                    0 <= w < namesf.len() && #[trigger] namesf[w] == n && w < tvf.len() && tvf[w]
                        is Some;
                assert(slot_ok(sg, namesf, qvf, tvf, w));
                assert(gv[w].name == n);
            }
            assert(gv[0].name == sg.main);
        }
        Ok(g)
    }
}

/// Every name reachable in `k` steps is compiled, once the queue has been
/// worked off: the start rule was queued, every queued name is compiled,
/// and every compiled rule's references were queued in turn.
pub proof fn lemma_reach_compiled(
    sg: GrammarV,
    namesf: Seq<Seq<u8>>,
    tvf: Seq<Option<RuleV>>,
    qvf: Seq<Seq<u8>>,
    k: nat,
)
    requires
        qvf.len() >= 1,
        qvf[0] == sg.main,
        forall|j: int| 0 <= j < qvf.len() ==> compiled_name(namesf, tvf, #[trigger] qvf[j]),
        forall|id: int|
            0 <= id < tvf.len() ==> #[trigger] slot_ok(sg, namesf, qvf, tvf, id),
        tvf.len() == namesf.len(),
    ensures
        forall|n: Seq<u8>|
            #[trigger] reach_n(sg, k).contains(n) ==> compiled_name(namesf, tvf, n),
    decreases k,
{
    if k == 0 {
        assert forall|n: Seq<u8>|
            #[trigger] reach_n(sg, k).contains(n) implies compiled_name(namesf, tvf, n) by {
            assert(n == sg.main);
            assert(compiled_name(namesf, tvf, qvf[0]));
        }
    } else {
        lemma_reach_compiled(sg, namesf, tvf, qvf, (k - 1) as nat);
        assert forall|n: Seq<u8>|
            #[trigger] reach_n(sg, k).contains(n) implies compiled_name(namesf, tvf, n) by {
            if reach_n(sg, (k - 1) as nat).contains(n) {
            } else {
                let m = choose|m: Seq<u8>|
                    #[trigger] reach_n(sg, (k - 1) as nat).contains(m) && defined(sg, m)
                        && is_line_ref(line_of(sg, m).ors, n);
                assert(compiled_name(namesf, tvf, m));
                let w = choose|w: int|
                    0 <= w < namesf.len() && #[trigger] namesf[w] == m && w < tvf.len() && tvf[w]
                        is Some;
                assert(slot_ok(sg, namesf, qvf, tvf, w));
                assert(in_queue(qvf, n));
                let j = choose|j: int| 0 <= j < qvf.len() && qvf[j] == n;
                assert(compiled_name(namesf, tvf, qvf[j]));
            }
        }
    }
}

} // verus!
