use vstd::prelude::*;

use super::error::ErrV;
use super::error::ParseError;
use crate::rules::grammar::content_ref_ok;
use crate::rules::grammar::Grammar;
use crate::rules::literal::LiteralContent;
use crate::rules::rule::Rule;
use crate::rules::rule::RuleList;
use crate::rules::rule::RuleOrs;
use crate::rules::rule::RulePiece;
use crate::rules::rule::RulePieceContent;
use crate::rules::rule::RuleRef;
use crate::rules::grammar::rule_refs_ok;
use crate::rules::grammar::table_wf;
use crate::rules::literal::lit_match;
use crate::rules::literal::LiteralV;
use crate::rules::rule::RulePieceContentV;
use crate::rules::rule::RulePieceV;
use crate::rules::rule::RuleV;
use crate::spec_parser::char_range::snip;
use crate::spec_parser::rule_piece::Repetition;

verus! {

broadcast use vstd::std_specs::vec::axiom_vec_index_decreases;

/// The diagnostic pseudo-name of a character-range terminal.
pub const CHAR_RANGE_NAME: [u8; 10] = [99, 104, 97, 114, 32, 114, 97, 110, 103, 101];

/// The diagnostic label of a failed terminal match.
pub const TERMINAL_NAME: [u8; 8] = [116, 101, 114, 109, 105, 110, 97, 108];

/// One element of a parse tree: an optional name (the producing rule's,
/// absent for structural wrapper nodes) and either a matched span of the
/// input or an ordered list of children. All spans borrow from the
/// original input buffer.
#[derive(Debug, PartialEq)]
pub struct Node<'grammar, 'input> {
    pub name: Option<&'grammar [u8]>,
    pub content: NodeContent<'grammar, 'input>,
}

/// What a parse-tree node holds.
#[derive(Debug, PartialEq)]
pub enum NodeContent<'grammar, 'input> {
    Literal(&'input [u8]),
    Cons(Vec<Node<'grammar, 'input>>),
}

/// Mathematical model of a parse-tree node.
pub struct NodeV {
    pub name: Option<Seq<u8>>,
    pub content: NodeContentV,
}

/// Mathematical model of a node's content.
pub enum NodeContentV {
    Literal(Seq<u8>),
    Cons(Seq<NodeV>),
}

/// The model of one node.
pub open spec fn node_view(n: Node) -> NodeV
    decreases n, 0int,
{
    NodeV {
        name: match n.name {
            Some(s) => Some(s@),
            None => None,
        },
        content: match n.content {
            NodeContent::Literal(s) => NodeContentV::Literal(s@),
            NodeContent::Cons(v) => NodeContentV::Cons(nodes_view_from(v, 0)),
        },
    }
}

/// The models of the nodes of `v` from position `i` on.
pub open spec fn nodes_view_from(v: Vec<Node>, i: int) -> Seq<NodeV>
    decreases v, v@.len() - i,
{
    if i < 0 || i >= v@.len() {
        Seq::empty()
    } else {
        seq![node_view(v[i])].add(nodes_view_from(v, i + 1))
    }
}

/// The models of a list of nodes.
pub open spec fn nodes_view(v: Vec<Node>) -> Seq<NodeV> {
    nodes_view_from(v, 0)
}

/// `nodes_view` is the element-wise model of the list.
pub proof fn lemma_nodes_view_from(v: Vec<Node>, i: int)
    ensures
        0 <= i <= v@.len() ==> nodes_view_from(v, i).len() == v@.len() - i,
        forall|j: int|
            0 <= i && 0 <= j < nodes_view_from(v, i).len() ==> #[trigger] nodes_view_from(v, i)[j]
                == node_view(v[i + j]),
    decreases v@.len() - i,
{
    if 0 <= i < v@.len() {
        lemma_nodes_view_from(v, i + 1);
        assert forall|j: int| 0 <= j < nodes_view_from(v, i).len() implies #[trigger] nodes_view_from(
            v,
            i,
        )[j] == node_view(v[i + j]) by {
            if j > 0 {
                assert(nodes_view_from(v, i)[j] == nodes_view_from(v, i + 1)[j - 1]);
                assert(nodes_view_from(v, i + 1)[j - 1] == node_view(v[i + 1 + (j - 1)]));
            }
        }
    }
}

impl<'g, 'i> View for Node<'g, 'i> {
    type V = NodeV;

    open spec fn view(&self) -> NodeV {
        node_view(*self)
    }
}

/// The outcome of one matching operation: a parse tree and the bytes it
/// consumed, or a failure.
pub enum MatchOut {
    Found(NodeV, int),
    Failed(ErrV),
}

/// The outcome of a repetition: the per-repetition trees and the total
/// bytes consumed, or a failure.
pub enum RepOut {
    RFound(Seq<NodeV>, int),
    RFailed(ErrV),
}

/// The name a piece carries into the tree: a string literal names
/// itself, a range bears the fixed pseudo-name, a rule reference bears
/// the referenced rule's name.
pub open spec fn sget_name(g: Seq<RuleV>, c: RulePieceContentV) -> Seq<u8> {
    match c {
        RulePieceContentV::Literal(LiteralV::Str(s)) => s,
        RulePieceContentV::Literal(LiteralV::Range(_, _)) => CHAR_RANGE_NAME@,
        RulePieceContentV::Rule(k) => g[k].name,
    }
}

/// What a failed terminal announces as expected: the literal itself, or
/// the range pseudo-name.
pub open spec fn slit_expected(lit: LiteralV) -> Seq<u8> {
    match lit {
        LiteralV::Str(s) => s,
        LiteralV::Range(_, _) => CHAR_RANGE_NAME@,
    }
}

/// How a rule matches the front of `inp`: its alternatives are all tried
/// at the same offset, and the successful one consuming strictly the
/// most bytes wins, earliest first on ties; the winning tree is wrapped
/// under the rule's name. Each nested rule entry spends one unit of
/// `fuel`; a spent budget reports `DepthLimit`.
pub open spec fn smatch_rule(g: Seq<RuleV>, id: int, inp: Seq<u8>, fuel: nat) -> MatchOut
    decreases fuel, 5int, 0int,
{
    if !(0 <= id < g.len()) {
        MatchOut::Failed(ErrV::DepthLimit)
    } else {
        let rule = g[id];
        match smatch_ors_from(g, rule.ors, rule.name, inp, 0, None, fuel) {
            MatchOut::Found(n, l) => MatchOut::Found(
                NodeV { name: Some(rule.name), content: n.content },
                l,
            ),
            MatchOut::Failed(e) => MatchOut::Failed(e),
        }
    }
}

/// Tries the alternatives from `i` on, carrying the best success so far:
/// a later alternative replaces it only by consuming strictly more. When
/// none succeeded, the rule's name is reported with a preview of the
/// unmatched input. A depth failure anywhere aborts the whole search.
pub open spec fn smatch_ors_from(
    g: Seq<RuleV>,
    ors: Seq<Seq<RulePieceV>>,
    name: Seq<u8>,
    inp: Seq<u8>,
    i: int,
    best: Option<(NodeV, int)>,
    fuel: nat,
) -> MatchOut
    decreases fuel, 4int, ors.len() - i,
{
    if i < 0 || i >= ors.len() {
        match best {
            Some((n, l)) => MatchOut::Found(n, l),
            None => MatchOut::Failed(
                ErrV::Expected { parsing: name, expected: name, got: snip(inp) },
            ),
        }
    } else {
        match smatch_list(g, ors[i], inp, fuel) {
            MatchOut::Found(n, l) => {
                let best2 = match best {
                    None => Some((n, l)),
                    Some((bn, bl)) => if l > bl {
                        Some((n, l))
                    } else {
                        best
                    },
                };
                smatch_ors_from(g, ors, name, inp, i + 1, best2, fuel)
            },
            MatchOut::Failed(e) => match e {
                ErrV::DepthLimit => MatchOut::Failed(ErrV::DepthLimit),
                _ => smatch_ors_from(g, ors, name, inp, i + 1, best, fuel),
            },
        }
    }
}

/// How one alternative matches: its pieces in order, each starting
/// exactly where the previous ended; the children are gathered under an
/// unnamed node. Any piece failure aborts the alternative.
pub open spec fn smatch_list(
    g: Seq<RuleV>,
    pieces: Seq<RulePieceV>,
    inp: Seq<u8>,
    fuel: nat,
) -> MatchOut
    decreases fuel, 3int, pieces.len() + 1,
{
    smatch_list_from(g, pieces, inp, 0, Seq::empty(), 0, fuel)
}

/// Matches the pieces from `i` on, `used` bytes already consumed by the
/// earlier ones and their trees in `acc`.
pub open spec fn smatch_list_from(
    g: Seq<RuleV>,
    pieces: Seq<RulePieceV>,
    inp: Seq<u8>,
    i: int,
    acc: Seq<NodeV>,
    used: int,
    fuel: nat,
) -> MatchOut
    decreases fuel, 3int, pieces.len() - i,
{
    if i < 0 || i >= pieces.len() {
        MatchOut::Found(NodeV { name: None, content: NodeContentV::Cons(acc) }, used)
    } else {
        match smatch_piece(g, pieces[i], inp.skip(used), fuel) {
            MatchOut::Found(n, l) => smatch_list_from(
                g,
                pieces,
                inp,
                i + 1,
                acc.push(n),
                used + l,
                fuel,
            ),
            MatchOut::Failed(e) => MatchOut::Failed(e),
        }
    }
}

/// How one piece matches, by content and repetition mode. A repeated
/// terminal matches greedily as one flat span; a repeated rule matches
/// one-or-more times, flattened to one unnamed span or kept as separate
/// children under the rule's name, by the mode. A repeated empty literal could never advance and fails
/// with the depth report, where recursion without progress would
/// otherwise never end.
pub open spec fn smatch_piece(g: Seq<RuleV>, p: RulePieceV, inp: Seq<u8>, fuel: nat) -> MatchOut
    decreases fuel, 2int, 0int,
{
    match p.rep {
        Repetition::Single => smatch_piece_content(g, p.content, inp, fuel),
        _ => match p.content {
            RulePieceContentV::Literal(lit) => if (lit matches LiteralV::Str(s) && s.len() == 0) {
                MatchOut::Failed(ErrV::DepthLimit)
            } else {
                match lit_match(lit, inp, true) {
                    Some(l) => MatchOut::Found(
                        NodeV {
                            name: Some(sget_name(g, p.content)),
                            content: NodeContentV::Literal(inp.take(l)),
                        },
                        l,
                    ),
                    None => MatchOut::Failed(
                        ErrV::Expected {
                            parsing: sget_name(g, p.content),
                            expected: sget_name(g, p.content),
                            got: snip(inp),
                        },
                    ),
                }
            },
            RulePieceContentV::Rule(k) => match smatch_rep_rule(g, k, inp, fuel) {
                RepOut::RFailed(e) => MatchOut::Failed(e),
                RepOut::RFound(ns, t) => match p.rep {
                    Repetition::RepeatTogether => MatchOut::Found(
                        NodeV { name: None, content: NodeContentV::Literal(inp.take(t)) },
                        t,
                    ),
                    _ => MatchOut::Found(
                        NodeV {
                            name: Some(sget_name(g, p.content)),
                            content: NodeContentV::Cons(ns),
                        },
                        t,
                    ),
                },
            },
        },
    }
}

/// How a piece's bare content matches once: a terminal byte-exactly or
/// by character class, a rule reference by entering the rule.
pub open spec fn smatch_piece_content(
    g: Seq<RuleV>,
    c: RulePieceContentV,
    inp: Seq<u8>,
    fuel: nat,
) -> MatchOut
    decreases fuel, 1int, 0int,
{
    match c {
        RulePieceContentV::Literal(lit) => match lit_match(lit, inp, false) {
            Some(l) => MatchOut::Found(
                NodeV { name: Some(sget_name(g, c)), content: NodeContentV::Literal(inp.take(l)) },
                l,
            ),
            None => MatchOut::Failed(
                ErrV::Expected {
                    parsing: TERMINAL_NAME@,
                    expected: slit_expected(lit),
                    got: snip(inp),
                },
            ),
        },
        RulePieceContentV::Rule(k) => if fuel == 0 {
            MatchOut::Failed(ErrV::DepthLimit)
        } else {
            smatch_rule(g, k, inp, (fuel - 1) as nat)
        },
    }
}

/// One-or-more matches of the rule `k`: the first must succeed and its
/// failure propagates; afterwards `smatch_rep_more` gathers the rest.
pub open spec fn smatch_rep_rule(g: Seq<RuleV>, k: int, inp: Seq<u8>, fuel: nat) -> RepOut
    decreases fuel, 1int, 1int,
{
    if fuel == 0 {
        RepOut::RFailed(ErrV::DepthLimit)
    } else {
        match smatch_rule(g, k, inp, (fuel - 1) as nat) {
            MatchOut::Failed(e) => RepOut::RFailed(e),
            MatchOut::Found(n, l) => match smatch_rep_more(g, k, inp.skip(l), (fuel - 1) as nat) {
                RepOut::RFailed(e) => RepOut::RFailed(e),
                RepOut::RFound(ns, t) => RepOut::RFound(seq![n].add(ns), l + t),
            },
        }
    }
}

/// Zero-or-more further matches of the rule `k`, greedily: an ordinary
/// failure ends the run; only a depth failure aborts it.
pub open spec fn smatch_rep_more(g: Seq<RuleV>, k: int, inp: Seq<u8>, fuel: nat) -> RepOut
    decreases fuel, 1int, 0int,
{
    if fuel == 0 {
        RepOut::RFailed(ErrV::DepthLimit)
    } else {
        match smatch_rule(g, k, inp, (fuel - 1) as nat) {
            MatchOut::Failed(e) => match e {
                ErrV::DepthLimit => RepOut::RFailed(ErrV::DepthLimit),
                _ => RepOut::RFound(Seq::empty(), 0),
            },
            MatchOut::Found(n, l) => match smatch_rep_more(g, k, inp.skip(l), (fuel - 1) as nat) {
                RepOut::RFailed(e) => RepOut::RFailed(e),
                RepOut::RFound(ns, t) => RepOut::RFound(seq![n].add(ns), l + t),
            },
        }
    }
}

/// The rule entered with a rule's own alternatives in place: what
/// `smatch_rule` does after looking its rule up.
pub open spec fn smatch_rule_with(g: Seq<RuleV>, rule: RuleV, inp: Seq<u8>, fuel: nat) -> MatchOut {
    match smatch_ors_from(g, rule.ors, rule.name, inp, 0, None, fuel) {
        MatchOut::Found(n, l) => MatchOut::Found(
            NodeV { name: Some(rule.name), content: n.content },
            l,
        ),
        MatchOut::Failed(e) => MatchOut::Failed(e),
    }
}

/// The recursion budget a whole parse starts with: generous enough that
/// only a grammar able to recurse without consuming input can spend it.
pub open spec fn default_fuel(g: Seq<RuleV>, inp: Seq<u8>) -> nat {
    if inp.len() <= 0x7fffffff && g.len() <= 0x7fffffff {
        ((inp.len() + 2) * (g.len() + 2)) as nat
    } else {
        u64::MAX as nat
    }
}


/// A pushed node extends the list's model at the end.
pub proof fn lemma_nodes_view_push(v1: Vec<Node>, v2: Vec<Node>, n: Node)
    requires
        v2@ == v1@.push(n),
    ensures
        nodes_view(v2) == nodes_view(v1).push(node_view(n)),
{
    lemma_nodes_view_from(v1, 0);
    lemma_nodes_view_from(v2, 0);
    assert forall|j: int| 0 <= j < nodes_view(v2).len() implies #[trigger] nodes_view(v2)[j]
        == nodes_view(v1).push(node_view(n))[j] by {
        assert(nodes_view(v2)[j] == node_view(v2[0 + j]));
        if j < v1@.len() {
            assert(nodes_view(v1)[j] == node_view(v1[0 + j]));
            assert(v2@[j] == v1@[j]);
        } else {
            assert(v2@[j] == n);
        }
    }
    assert(nodes_view(v2) =~= nodes_view(v1).push(node_view(n)));
}

/// A node put at the front extends the list's model at the front.
pub proof fn lemma_nodes_view_cons(v1: Vec<Node>, v2: Vec<Node>, n: Node)
    requires
        v2@ == v1@.insert(0, n),
    ensures
        nodes_view(v2) == seq![node_view(n)].add(nodes_view(v1)),
{
    lemma_nodes_view_from(v1, 0);
    lemma_nodes_view_from(v2, 0);
    assert forall|j: int| 0 <= j < nodes_view(v2).len() implies #[trigger] nodes_view(v2)[j]
        == seq![node_view(n)].add(nodes_view(v1))[j] by {
        assert(nodes_view(v2)[j] == node_view(v2[0 + j]));
        if j == 0 {
            assert(v2@[0] == n);
        } else {
            assert(nodes_view(v1)[j - 1] == node_view(v1[0 + (j - 1)]));
            assert(v2@[j] == v1@[j - 1]);
        }
    }
    assert(nodes_view(v2) =~= seq![node_view(n)].add(nodes_view(v1)));
}

/// The model of the best alternative seen so far.
pub open spec fn best_view(b: Option<(Node, usize)>) -> Option<(NodeV, int)> {
    match b {
        None => None,
        Some((n, l)) => Some((node_view(n), l as int)),
    }
}

/// The fixed pseudo-name of character-range terminals.
fn range_name() -> (r: &'static [u8])
    ensures
        r@ == CHAR_RANGE_NAME@,
{
    vstd::array::array_as_slice(&CHAR_RANGE_NAME)
}

/// The fixed label of failed terminal matches.
fn terminal_name() -> (r: &'static [u8])
    ensures
        r@ == TERMINAL_NAME@,
{
    vstd::array::array_as_slice(&TERMINAL_NAME)
}

/// The name a piece carries into the tree, as `sget_name` describes.
fn get_name<'g>(gram: &Grammar<'g>, content: &RulePieceContent<'g>) -> (r: &'g [u8])
    requires
        content_ref_ok(content@, gram@.len() as int),
    ensures
        r@ == sget_name(gram@, content@),
{
    match content {
        RulePieceContent::Literal(lit) => match &lit.content {
            LiteralContent::Str(s) => s,
            LiteralContent::Range { .. } => range_name(),
        },
        RulePieceContent::Rule(k) => match gram.get(*k) {
            Some(rule) => rule.name,
            None => {
                proof {
                    assert(false);
                }
                range_name()
            },
        },
    }
}

impl<'g, 'i> Node<'g, 'i> {
    /// Parses `input` against the whole grammar, from its start rule: the
    /// parse tree and the bytes consumed, as the matching specification
    /// describes for the default recursion budget.
    pub fn from_grammar(gram: &Grammar<'g>, input: &'i [u8]) -> (r: Result<
        (Node<'g, 'i>, usize),
        ParseError<'g, 'i>,
    >)
        requires
            table_wf(gram@),
        ensures
            match r {
                Ok((n, len)) => len <= input@.len() && smatch_rule(
                    gram@,
                    0,
                    input@,
                    default_fuel(gram@, input@),
                ) == MatchOut::Found(n@, len as int),
                Err(e) => smatch_rule(gram@, 0, input@, default_fuel(gram@, input@))
                    == MatchOut::Failed(e@),
            },
    {
        let rule = match gram.main() {
            Some(rule) => rule,
            None => {
                proof {
                    assert(false);
                }
                return Err(ParseError::DepthLimit);
            },
        };
        let r = Self::from_rule(gram, rule, input);
        proof {
            assert(smatch_rule(gram@, 0, input@, default_fuel(gram@, input@))
                == smatch_rule_with(gram@, gram@[0], input@, default_fuel(gram@, input@)));
        }
        r
    }

    /// Parses `input` against one rule of the grammar, under the default
    /// recursion budget derived from the input and table sizes.
    pub fn from_rule(gram: &Grammar<'g>, rule: &Rule<'g>, input: &'i [u8]) -> (r: Result<
        (Node<'g, 'i>, usize),
        ParseError<'g, 'i>,
    >)
        requires
            table_wf(gram@),
            rule_refs_ok(rule@, gram@.len() as int),
        ensures
            match r {
                Ok((n, len)) => len <= input@.len() && smatch_rule_with(
                    gram@,
                    rule@,
                    input@,
                    default_fuel(gram@, input@),
                ) == MatchOut::Found(n@, len as int),
                Err(e) => smatch_rule_with(gram@, rule@, input@, default_fuel(gram@, input@))
                    == MatchOut::Failed(e@),
            },
    {
        let a: u64 = input.len() as u64;
        let b: u64 = gram.rules.len() as u64;
        let fuel: u64 = if a <= 0x7fffffff && b <= 0x7fffffff {
            proof {
                assert((a + 2) * (b + 2) <= 0x80000001u64 * 0x80000001u64) by (nonlinear_arith)
                    requires
                        a <= 0x7fffffff && b <= 0x7fffffff,
                ;
            }
            (a + 2) * (b + 2)
        } else {
            u64::MAX
        };
        proof {
            assert(fuel as nat == default_fuel(gram@, input@));
        }
        Self::from_rule_at(gram, rule, input, fuel)
    }

    /// Parses `input` against one rule under an explicit recursion budget.
    fn from_rule_at(gram: &Grammar<'g>, rule: &Rule<'g>, input: &'i [u8], fuel: u64) -> (r:
        Result<(Node<'g, 'i>, usize), ParseError<'g, 'i>>)
        requires
            table_wf(gram@),
            rule_refs_ok(rule@, gram@.len() as int),
        ensures
            match r {
                Ok((n, len)) => len <= input@.len() && smatch_rule_with(
                    gram@,
                    rule@,
                    input@,
                    fuel as nat,
                ) == MatchOut::Found(n@, len as int),
                Err(e) => smatch_rule_with(gram@, rule@, input@, fuel as nat) == MatchOut::Failed(
                    e@,
                ),
            },
        decreases fuel, 5int, 0int,
    {
        match Self::from_rule_ors_from(gram, &rule.rule, rule.name, input, 0, None, fuel) {
            Ok((n, l)) => {
                let Node { name: _, content } = n;
                Ok((Node { name: Some(rule.name), content }, l))
            },
            Err(e) => Err(e),
        }
    }

    /// Tries the alternatives from `i` on, keeping the best success, as
    /// the specification describes.
    fn from_rule_ors_from(
        gram: &Grammar<'g>,
        ors: &RuleOrs<'g>,
        name: &'g [u8],
        input: &'i [u8],
        i: usize,
        best: Option<(Node<'g, 'i>, usize)>,
        fuel: u64,
    ) -> (r: Result<(Node<'g, 'i>, usize), ParseError<'g, 'i>>)
        requires
            table_wf(gram@),
            crate::rules::grammar::ors_refs_ok(ors@, gram@.len() as int),
            match best {
                Some((_, l)) => l <= input@.len(),
                None => true,
            },
        ensures
            match r {
                Ok((n, len)) => len <= input@.len() && smatch_ors_from(
                    gram@,
                    ors@,
                    name@,
                    input@,
                    i as int,
                    best_view(best),
                    fuel as nat,
                ) == MatchOut::Found(n@, len as int),
                Err(e) => smatch_ors_from(
                    gram@,
                    ors@,
                    name@,
                    input@,
                    i as int,
                    best_view(best),
                    fuel as nat,
                ) == MatchOut::Failed(e@),
            },
        decreases fuel, 4int, ors.0.len() - i,
    {
        if i >= ors.0.len() {
            match best {
                Some((n, l)) => Ok((n, l)),
                None => Err(
                    ParseError::Expected {
                        parsing: name,
                        expected: vstd::slice::slice_to_vec(name),
                        got: crate::utils::take_n(input, 20),
                    },
                ),
            }
        } else {
            proof {
                assert(ors@[i as int] == ors.0@[i as int]@);
            }
            match Self::from_rule_list(gram, &ors.0[i], input, fuel) {
                Ok((n, l)) => {
                    let best2 = match best {
                        None => Some((n, l)),
                        Some((bn, bl)) => if l > bl {
                            Some((n, l))
                        } else {
                            Some((bn, bl))
                        },
                    };
                    Self::from_rule_ors_from(gram, ors, name, input, i + 1, best2, fuel)
                },
                Err(e) => match e {
                    ParseError::DepthLimit => Err(ParseError::DepthLimit),
                    _ => Self::from_rule_ors_from(gram, ors, name, input, i + 1, best, fuel),
                },
            }
        }
    }

    /// Matches one whole alternative, as the specification describes.
    fn from_rule_list(gram: &Grammar<'g>, list: &RuleList<'g>, input: &'i [u8], fuel: u64) -> (r:
        Result<(Node<'g, 'i>, usize), ParseError<'g, 'i>>)
        requires
            table_wf(gram@),
            crate::rules::grammar::series_refs_ok(list@, gram@.len() as int),
        ensures
            match r {
                Ok((n, len)) => len <= input@.len() && smatch_list(
                    gram@,
                    list@,
                    input@,
                    fuel as nat,
                ) == MatchOut::Found(n@, len as int),
                Err(e) => smatch_list(gram@, list@, input@, fuel as nat) == MatchOut::Failed(e@),
            },
        decreases fuel, 3int, list.0.len() + 1,
    {
        let nodes: Vec<Node<'g, 'i>> = Vec::new();
        proof {
            lemma_nodes_view_from(nodes, 0);
            assert(nodes_view(nodes) =~= Seq::<NodeV>::empty());
        }
        Self::from_rule_list_from(gram, list, input, 0, nodes, 0, fuel)
    }

    /// Matches the pieces from `i` on, `used` bytes being consumed by the
    /// pieces before them and `nodes` holding their trees.
    fn from_rule_list_from(
        gram: &Grammar<'g>,
        list: &RuleList<'g>,
        input: &'i [u8],
        i: usize,
        nodes: Vec<Node<'g, 'i>>,
        used: usize,
        fuel: u64,
    ) -> (r: Result<(Node<'g, 'i>, usize), ParseError<'g, 'i>>)
        requires
            table_wf(gram@),
            crate::rules::grammar::series_refs_ok(list@, gram@.len() as int),
            used <= input@.len(),
        ensures
            match r {
                Ok((n, len)) => len <= input@.len() && smatch_list_from(
                    gram@,
                    list@,
                    input@,
                    i as int,
                    nodes_view(nodes),
                    used as int,
                    fuel as nat,
                ) == MatchOut::Found(n@, len as int),
                Err(e) => smatch_list_from(
                    gram@,
                    list@,
                    input@,
                    i as int,
                    nodes_view(nodes),
                    used as int,
                    fuel as nat,
                ) == MatchOut::Failed(e@),
            },
        decreases fuel, 3int, list.0.len() - i,
    {
        if i >= list.0.len() {
            Ok((Node { name: None, content: NodeContent::Cons(nodes) }, used))
        } else {
            proof {
                assert(list@[i as int] == list.0@[i as int]@);
            }
            let rest = vstd::slice::slice_subrange(input, used, input.len());
            proof {
                assert(rest@ =~= input@.skip(used as int));
            }
            match Self::from_rule_piece(gram, &list.0[i], rest, fuel) {
                Err(e) => Err(e),
                Ok((n, l)) => {
                    let ghost nodes_before = nodes;
                    let mut nodes2 = nodes;
                    nodes2.push(n);
                    proof {
                        lemma_nodes_view_push(nodes_before, nodes2, n);
                    }
                    Self::from_rule_list_from(gram, list, input, i + 1, nodes2, used + l, fuel)
                },
            }
        }
    }

    /// Matches one piece by its content and repetition mode, as the
    /// specification describes.
    fn from_rule_piece(gram: &Grammar<'g>, piece: &RulePiece<'g>, input: &'i [u8], fuel: u64) -> (r:
        Result<(Node<'g, 'i>, usize), ParseError<'g, 'i>>)
        requires
            table_wf(gram@),
            content_ref_ok(piece@.content, gram@.len() as int),
        ensures
            match r {
                Ok((n, len)) => len <= input@.len() && smatch_piece(
                    gram@,
                    piece@,
                    input@,
                    fuel as nat,
                ) == MatchOut::Found(n@, len as int),
                Err(e) => smatch_piece(gram@, piece@, input@, fuel as nat) == MatchOut::Failed(e@),
            },
        decreases fuel, 2int, 0int,
    {
        match piece.repetition {
            Repetition::Single => Self::from_rule_piece_content(gram, &piece.content, input, fuel),
            _ => match &piece.content {
                RulePieceContent::Literal(lit) => {
                    let empty_str = match &lit.content {
                        LiteralContent::Str(s) => s.len() == 0,
                        _ => false,
                    };
                    if empty_str {
                        return Err(ParseError::DepthLimit);
                    }
                    let name = get_name(gram, &piece.content);
                    match lit.match_str(input, true) {
                        Some(m) => Ok(
                            (Node { name: Some(name), content: NodeContent::Literal(m) }, m.len()),
                        ),
                        None => Err(
                            ParseError::Expected {
                                parsing: name,
                                expected: vstd::slice::slice_to_vec(name),
                                got: crate::utils::take_n(input, 20),
                            },
                        ),
                    }
                },
                RulePieceContent::Rule(k) => {
                    let name = get_name(gram, &piece.content);
                    match Self::from_rep_rule(gram, *k, input, fuel) {
                        Err(e) => Err(e),
                        Ok((ns, t)) => match piece.repetition {
                            Repetition::RepeatTogether => {
                                let span = vstd::slice::slice_subrange(input, 0, t);
                                proof {
                                    assert(span@ =~= input@.take(t as int));
                                }
                                Ok((Node { name: None, content: NodeContent::Literal(span) }, t))
                            },
                            _ => Ok(
                                (Node { name: Some(name), content: NodeContent::Cons(ns) }, t),
                            ),
                        },
                    }
                },
            },
        }
    }

    /// Matches a piece's bare content once, as the specification
    /// describes.
    fn from_rule_piece_content(
        gram: &Grammar<'g>,
        content: &RulePieceContent<'g>,
        input: &'i [u8],
        fuel: u64,
    ) -> (r: Result<(Node<'g, 'i>, usize), ParseError<'g, 'i>>)
        requires
            table_wf(gram@),
            content_ref_ok(content@, gram@.len() as int),
        ensures
            match r {
                Ok((n, len)) => len <= input@.len() && smatch_piece_content(
                    gram@,
                    content@,
                    input@,
                    fuel as nat,
                ) == MatchOut::Found(n@, len as int),
                Err(e) => smatch_piece_content(gram@, content@, input@, fuel as nat)
                    == MatchOut::Failed(e@),
            },
        decreases fuel, 1int, 0int,
    {
        match content {
            RulePieceContent::Literal(lit) => match lit.match_str(input, false) {
                Some(m) => {
                    let name = get_name(gram, content);
                    Ok((Node { name: Some(name), content: NodeContent::Literal(m) }, m.len()))
                },
                None => {
                    let expected = match &lit.content {
                        LiteralContent::Str(s) => vstd::slice::slice_to_vec(s),
                        LiteralContent::Range { .. } => vstd::slice::slice_to_vec(range_name()),
                    };
                    Err(
                        ParseError::Expected {
                            parsing: terminal_name(),
                            expected,
                            got: crate::utils::take_n(input, 20),
                        },
                    )
                },
            },
            RulePieceContent::Rule(k) => {
                if fuel == 0 {
                    return Err(ParseError::DepthLimit);
                }
                let rule = match gram.get(*k) {
                    Some(rule) => rule,
                    None => {
                        proof {
                            assert(false);
                        }
                        return Err(ParseError::DepthLimit);
                    },
                };
                let r = Self::from_rule_at(gram, rule, input, fuel - 1);
                proof {
                    assert(smatch_rule(gram@, *k as int, input@, (fuel - 1) as nat)
                        == smatch_rule_with(gram@, gram@[*k as int], input@, (fuel - 1) as nat));
                }
                r
            },
        }
    }

    /// One-or-more matches of the rule `k`, as the specification
    /// describes.
    fn from_rep_rule(gram: &Grammar<'g>, k: RuleRef, input: &'i [u8], fuel: u64) -> (r: Result<
        (Vec<Node<'g, 'i>>, usize),
        ParseError<'g, 'i>,
    >)
        requires
            table_wf(gram@),
            (k as int) < gram@.len(),
        ensures
            match r {
                Ok((ns, t)) => t <= input@.len() && smatch_rep_rule(
                    gram@,
                    k as int,
                    input@,
                    fuel as nat,
                ) == RepOut::RFound(nodes_view(ns), t as int),
                Err(e) => smatch_rep_rule(gram@, k as int, input@, fuel as nat) == RepOut::RFailed(
                    e@,
                ),
            },
        decreases fuel, 1int, 1int,
    {
        if fuel == 0 {
            return Err(ParseError::DepthLimit);
        }
        let rule = match gram.get(k) {
            Some(rule) => rule,
            None => {
                proof {
                    assert(false);
                }
                return Err(ParseError::DepthLimit);
            },
        };
        proof {
            assert(smatch_rule(gram@, k as int, input@, (fuel - 1) as nat) == smatch_rule_with(
                gram@,
                gram@[k as int],
                input@,
                (fuel - 1) as nat,
            ));
        }
        match Self::from_rule_at(gram, rule, input, fuel - 1) {
            Err(e) => Err(e),
            Ok((n, l)) => {
                let rest = vstd::slice::slice_subrange(input, l, input.len());
                proof {
                    assert(rest@ =~= input@.skip(l as int));
                }
                match Self::from_rep_more(gram, k, rest, fuel - 1) {
                    Err(e) => Err(e),
                    Ok((ns, t)) => {
                        let ghost ns_before = ns;
                        let mut ns2 = ns;
                        ns2.insert(0, n);
                        proof {
                            lemma_nodes_view_cons(ns_before, ns2, n);
                        }
                        Ok((ns2, l + t))
                    },
                }
            },
        }
    }

    /// Zero-or-more further matches of the rule `k`, as the specification
    /// describes.
    fn from_rep_more(gram: &Grammar<'g>, k: RuleRef, input: &'i [u8], fuel: u64) -> (r: Result<
        (Vec<Node<'g, 'i>>, usize),
        ParseError<'g, 'i>,
    >)
        requires
            table_wf(gram@),
            (k as int) < gram@.len(),
        ensures
            match r {
                Ok((ns, t)) => t <= input@.len() && smatch_rep_more(
                    gram@,
                    k as int,
                    input@,
                    fuel as nat,
                ) == RepOut::RFound(nodes_view(ns), t as int),
                Err(e) => smatch_rep_more(gram@, k as int, input@, fuel as nat) == RepOut::RFailed(
                    e@,
                ),
            },
        decreases fuel, 1int, 0int,
    {
        if fuel == 0 {
            return Err(ParseError::DepthLimit);
        }
        let rule = match gram.get(k) {
            Some(rule) => rule,
            None => {
                proof {
                    assert(false);
                }
                return Err(ParseError::DepthLimit);
            },
        };
        proof {
            assert(smatch_rule(gram@, k as int, input@, (fuel - 1) as nat) == smatch_rule_with(
                gram@,
                gram@[k as int],
                input@,
                (fuel - 1) as nat,
            ));
        }
        match Self::from_rule_at(gram, rule, input, fuel - 1) {
            Err(e) => match e {
                ParseError::DepthLimit => Err(ParseError::DepthLimit),
                _ => {
                    let empty: Vec<Node<'g, 'i>> = Vec::new();
                    proof {
                        lemma_nodes_view_from(empty, 0);
                        assert(nodes_view(empty) =~= Seq::<NodeV>::empty());
                    }
                    Ok((empty, 0))
                },
            },
            Ok((n, l)) => {
                let rest = vstd::slice::slice_subrange(input, l, input.len());
                proof {
                    assert(rest@ =~= input@.skip(l as int));
                }
                match Self::from_rep_more(gram, k, rest, fuel - 1) {
                    Err(e) => Err(e),
                    Ok((ns, t)) => {
                        let ghost ns_before = ns;
                        let mut ns2 = ns;
                        ns2.insert(0, n);
                        proof {
                            lemma_nodes_view_cons(ns_before, ns2, n);
                        }
                        Ok((ns2, l + t))
                    },
                }
            },
        }
    }
}


/// The length of a successful match outcome.
pub open spec fn found_len(m: MatchOut) -> int {
    match m {
        MatchOut::Found(_, l) => l,
        MatchOut::Failed(_) => -1,
    }
}

/// Longest match, generalized over the alternatives already tried: when
/// the search from `i` with `best` in hand succeeds, no alternative from
/// `i` on beats the winning length, and the winner is either the carried
/// best or the first alternative from `i` on to reach that length.
pub proof fn lemma_ors_from_longest(
    g: Seq<RuleV>,
    ors: Seq<Seq<RulePieceV>>,
    name: Seq<u8>,
    inp: Seq<u8>,
    i: int,
    best: Option<(NodeV, int)>,
    fuel: nat,
)
    requires
        0 <= i <= ors.len(),
        smatch_ors_from(g, ors, name, inp, i, best, fuel) is Found,
    ensures
        forall|j: int|
            i <= j < ors.len() && #[trigger] smatch_list(g, ors[j], inp, fuel) is Found
                ==> found_len(smatch_list(g, ors[j], inp, fuel)) <= found_len(
                smatch_ors_from(g, ors, name, inp, i, best, fuel),
            ),
        (best is Some && best.unwrap().0 == smatch_ors_from(g, ors, name, inp, i, best, fuel)->Found_0
            && best.unwrap().1 == found_len(smatch_ors_from(g, ors, name, inp, i, best, fuel)))
            || (exists|j: int|
            i <= j < ors.len() && #[trigger] smatch_list(g, ors[j], inp, fuel) == MatchOut::Found(
                smatch_ors_from(g, ors, name, inp, i, best, fuel)->Found_0,
                found_len(smatch_ors_from(g, ors, name, inp, i, best, fuel)),
            )),
        best is Some ==> best.unwrap().1 <= found_len(
            smatch_ors_from(g, ors, name, inp, i, best, fuel),
        ),
    decreases ors.len() - i,
{
    if i < ors.len() {
        let res = smatch_ors_from(g, ors, name, inp, i, best, fuel);
        match smatch_list(g, ors[i], inp, fuel) {
            MatchOut::Found(n, l) => {
                let best2 = match best {
                    None => Some((n, l)),
                    Some((bn, bl)) => if l > bl {
                        Some((n, l))
                    } else {
                        best
                    },
                };
                lemma_ors_from_longest(g, ors, name, inp, i + 1, best2, fuel);
            },
            MatchOut::Failed(e) => match e {
                ErrV::DepthLimit => {},
                _ => {
                    lemma_ors_from_longest(g, ors, name, inp, i + 1, best, fuel);
                },
            },
        }
    }
}

/// Longest match: when a rule matches, every alternative that succeeds
/// at the same offset consumes no more than the winner, and the winner
/// is the first alternative to reach that length. A later alternative
/// replaces an earlier success only by consuming strictly more bytes.
pub proof fn lemma_longest_match(
    g: Seq<RuleV>,
    ors: Seq<Seq<RulePieceV>>,
    name: Seq<u8>,
    inp: Seq<u8>,
    fuel: nat,
)
    requires
        smatch_ors_from(g, ors, name, inp, 0, None, fuel) is Found,
    ensures
        forall|j: int|
            0 <= j < ors.len() && #[trigger] smatch_list(g, ors[j], inp, fuel) is Found
                ==> found_len(smatch_list(g, ors[j], inp, fuel)) <= found_len(
                smatch_ors_from(g, ors, name, inp, 0, None, fuel),
            ),
        exists|j: int|
            0 <= j < ors.len() && #[trigger] smatch_list(g, ors[j], inp, fuel) == MatchOut::Found(
                smatch_ors_from(g, ors, name, inp, 0, None, fuel)->Found_0,
                found_len(smatch_ors_from(g, ors, name, inp, 0, None, fuel)),
            ),
{
    lemma_ors_from_longest(g, ors, name, inp, 0, None, fuel);
}

/// At-least-one repetition, terminal side: a repeated literal piece
/// fails exactly when not even one match stands at the front, and
/// otherwise consumes the whole greedy run.
pub proof fn lemma_repeat_literal(g: Seq<RuleV>, p: RulePieceV, inp: Seq<u8>, fuel: nat)
    requires
        p.rep != Repetition::Single,
        p.content matches RulePieceContentV::Literal(lit) && !(lit matches LiteralV::Str(s)
            && s.len() == 0),
    ensures
        lit_match(p.content->Literal_0, inp, true) is None ==> smatch_piece(g, p, inp, fuel)
            is Failed,
        lit_match(p.content->Literal_0, inp, true) matches Some(l) ==> smatch_piece(
            g,
            p,
            inp,
            fuel,
        ) == MatchOut::Found(
            NodeV {
                name: Some(sget_name(g, p.content)),
                content: NodeContentV::Literal(inp.take(l)),
            },
            l,
        ),
{
}

/// At-least-one repetition, rule side: when the referenced rule does not
/// match even once, the repeated piece fails with that failure; when it
/// matches once and a second try fails ordinarily, the piece succeeds
/// consuming exactly that one occurrence.
pub proof fn lemma_repeat_rule(g: Seq<RuleV>, p: RulePieceV, k: int, inp: Seq<u8>, fuel: nat)
    requires
        p.rep != Repetition::Single,
        p.content == RulePieceContentV::Rule(k),
        fuel >= 2,
    ensures
        smatch_rule(g, k, inp, (fuel - 1) as nat) matches MatchOut::Failed(e) ==> smatch_piece(
            g,
            p,
            inp,
            fuel,
        ) == MatchOut::Failed(e),
        (smatch_rule(g, k, inp, (fuel - 1) as nat) matches MatchOut::Found(n, l) && smatch_rule(
            g,
            k,
            inp.skip(l),
            (fuel - 2) as nat,
        ) matches MatchOut::Failed(e2) && !(e2 is DepthLimit)) ==> found_len(
            smatch_piece(g, p, inp, fuel),
        ) == smatch_rule(g, k, inp, (fuel - 1) as nat)->Found_1,
{
    if smatch_rule(g, k, inp, (fuel - 1) as nat) is Found {
        let (n, l) = (
            smatch_rule(g, k, inp, (fuel - 1) as nat)->Found_0,
            smatch_rule(g, k, inp, (fuel - 1) as nat)->Found_1,
        );
        if smatch_rule(g, k, inp.skip(l), (fuel - 2) as nat) is Failed && !(smatch_rule(
            g,
            k,
            inp.skip(l),
            (fuel - 2) as nat,
        )->Failed_0 is DepthLimit) {
            assert(smatch_rep_more(g, k, inp.skip(l), (fuel - 1) as nat) == RepOut::RFound(
                Seq::empty(),
                0,
            ));
            assert(smatch_rep_rule(g, k, inp, fuel) == RepOut::RFound(seq![n], l + 0));
        }
    }
}

/// Repetition flattening: the two repeat modes gather the same matches
/// and consume the same bytes; they differ only in the reported tree.
/// Flattened-together reports one unnamed span of everything consumed;
/// kept-separate reports each occurrence's whole tree as a child.
pub proof fn lemma_flatten_modes(g: Seq<RuleV>, k: int, inp: Seq<u8>, fuel: nat)
    requires
        smatch_rep_rule(g, k, inp, fuel) matches RepOut::RFound(ns, t),
    ensures
        ({
            let together = RulePieceV {
                rep: Repetition::RepeatTogether,
                content: RulePieceContentV::Rule(k),
            };
            let separate = RulePieceV {
                rep: Repetition::RepeatSeparate,
                content: RulePieceContentV::Rule(k),
            };
            let ns = smatch_rep_rule(g, k, inp, fuel)->RFound_0;
            let t = smatch_rep_rule(g, k, inp, fuel)->RFound_1;
            smatch_piece(g, together, inp, fuel) == MatchOut::Found(
                NodeV { name: None, content: NodeContentV::Literal(inp.take(t)) },
                t,
            ) && smatch_piece(g, separate, inp, fuel) == MatchOut::Found(
                NodeV { name: Some(g[k].name), content: NodeContentV::Cons(ns) },
                t,
            )
        }),
{
}


/// Round-trip determinism: a whole parse is a mathematical function of
/// the rule table and the input alone, so two runs over the same pair
/// return one and the same outcome, tree and byte count alike.
pub proof fn lemma_parse_deterministic(g: Seq<RuleV>, inp: Seq<u8>, m1: MatchOut, m2: MatchOut)
    requires
        m1 == smatch_rule(g, 0, inp, default_fuel(g, inp)),
        m2 == smatch_rule(g, 0, inp, default_fuel(g, inp)),
    ensures
        m1 == m2,
{
}

} // verus!
