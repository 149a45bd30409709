use vstd::prelude::*;

use super::rule::Rule;
use super::rule::RulePieceContentV;
use super::rule::RulePieceV;
use super::rule::RuleRef;
use super::rule::RuleV;

verus! {

/// The compiled Rule Table: rules indexed by their dense identifiers,
/// the start rule at identifier zero.
#[derive(Debug, PartialEq)]
pub struct Grammar<'a> {
    pub rules: Vec<Rule<'a>>,
}

/// The compiled rules as their mathematical models.
pub open spec fn rules_view<'a>(v: Seq<Rule<'a>>) -> Seq<RuleV> {
    v.map_values(|r: Rule<'a>| r@)
}

impl<'a> View for Grammar<'a> {
    type V = Seq<RuleV>;

    open spec fn view(&self) -> Seq<RuleV> {
        rules_view(self.rules@)
    }
}

/// A rule reference, when the content is one, points inside a table of
/// `n` rules.
pub open spec fn content_ref_ok(c: RulePieceContentV, n: int) -> bool {
    match c {
        RulePieceContentV::Rule(k) => 0 <= k < n,
        RulePieceContentV::Literal(_) => true,
    }
}

/// A piece's rule reference, when it has one, points inside a table of
/// `n` rules.
pub open spec fn piece_ref_ok(p: RulePieceV, n: int) -> bool {
    content_ref_ok(p.content, n)
}

/// Every reference in the alternative points inside a table of `n` rules.
pub open spec fn series_refs_ok(s: Seq<RulePieceV>, n: int) -> bool {
    forall|j: int| 0 <= j < s.len() ==> piece_ref_ok(#[trigger] s[j], n)
}

/// Every reference in the alternative list points inside a table of `n`
/// rules.
pub open spec fn ors_refs_ok(oss: Seq<Seq<RulePieceV>>, n: int) -> bool {
    forall|i: int| 0 <= i < oss.len() ==> series_refs_ok(#[trigger] oss[i], n)
}

/// Every reference in the rule points inside a table of `n` rules.
pub open spec fn rule_refs_ok(r: RuleV, n: int) -> bool {
    ors_refs_ok(r.ors, n)
}

/// The compiled table is closed: it holds at least the start rule, and
/// every rule reference anywhere in it resolves to a rule it holds.
pub open spec fn table_wf(g: Seq<RuleV>) -> bool {
    g.len() >= 1 && forall|k: int|
        0 <= k < g.len() ==> rule_refs_ok(#[trigger] g[k], g.len() as int)
}

impl<'a> Grammar<'a> {
    /// The start rule, when the table is not empty.
    pub fn main(&self) -> (r: Option<&Rule<'a>>)
        ensures
            match r {
                Some(rule) => self@.len() > 0 && rule@ == self@[0],
                None => self@.len() == 0,
            },
    {
        if self.rules.len() > 0 {
            Some(&self.rules[0])
        } else {
            None
        }
    }

    /// The rule with identifier `rf`, when the table holds one.
    pub fn get(&self, rf: RuleRef) -> (r: Option<&Rule<'a>>)
        ensures
            match r {
                Some(rule) => rf < self@.len() && rule@ == self@[rf as int],
                None => rf >= self@.len(),
            },
    {
        if rf < self.rules.len() {
            Some(&self.rules[rf])
        } else {
            None
        }
    }
}

} // verus!
