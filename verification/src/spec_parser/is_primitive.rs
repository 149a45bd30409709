use vstd::prelude::*;

use super::rule_line::RuleLine;
use super::rule_ors::RuleOrs;
use super::rule_piece::PieceContentV;
use super::rule_piece::RulePiece;
use super::rule_series::RuleSeries;

verus! {

/// A piece is primitive when it matches text directly: a quoted literal
/// or a character range, not a rule reference.
pub open spec fn spec_is_primitive(c: PieceContentV) -> bool {
    !(c is Ident)
}

impl<'a> RulePiece<'a> {
    /// Whether this piece matches text directly.
    pub fn is_primitive(&self) -> (r: bool)
        ensures
            r == spec_is_primitive(self@.content),
    {
        match &self.content {
            super::rule_piece::RulePieceContent::Double(_) => true,
            super::rule_piece::RulePieceContent::Single(_) => true,
            super::rule_piece::RulePieceContent::Ident(_) => false,
            super::rule_piece::RulePieceContent::Range(_) => true,
        }
    }
}

impl<'a> RuleSeries<'a> {
    /// Whether some piece of this alternative matches text directly.
    pub fn is_primitive(&self) -> (r: bool)
        ensures
            r == exists|i: int|
                0 <= i < self@.len() && spec_is_primitive(#[trigger] self@[i].content),
    {
        let mut i: usize = 0;
        while i < self.0.len()
            invariant
                i <= self.0@.len(),
                forall|j: int| 0 <= j < i ==> !spec_is_primitive(#[trigger] self@[j].content),
                self@.len() == self.0@.len(),
                forall|j: int| 0 <= j < self@.len() ==> #[trigger] self@[j] == self.0@[j]@,
            decreases self.0@.len() - i,
        {
            if self.0[i].is_primitive() {
                proof {
                    assert(spec_is_primitive(self@[i as int].content));
                }
                return true;
            }
            i += 1;
        }
        false
    }
}

impl<'a> RuleOrs<'a> {
    /// Whether some alternative of this list holds a directly matching
    /// piece.
    pub fn is_primitive(&self) -> (r: bool)
        ensures
            r == exists|i: int, j: int|
                0 <= i < self@.len() && 0 <= j < (#[trigger] self@[i]).len() && spec_is_primitive(
                    (#[trigger] self@[i][j]).content,
                ),
    {
        let mut i: usize = 0;
        while i < self.0.len()
            invariant
                i <= self.0@.len(),
                forall|j: int, k: int|
                    0 <= j < i && 0 <= k < (#[trigger] self@[j]).len() ==> !spec_is_primitive(
                        (#[trigger] self@[j][k]).content,
                    ),
                self@.len() == self.0@.len(),
                forall|j: int| 0 <= j < self@.len() ==> #[trigger] self@[j] == self.0@[j]@,
            decreases self.0@.len() - i,
        {
            if self.0[i].is_primitive() {
                proof {
                    let sv = self.0@[i as int]@;
                    let j0 = choose|j: int|
                        0 <= j < sv.len() && spec_is_primitive(#[trigger] sv[j].content);
                    assert(spec_is_primitive(self@[i as int][j0].content));
                }
                return true;
            }
            i += 1;
        }
        false
    }
}

impl<'a> RuleLine<'a> {
    /// Whether some alternative of this production holds a directly
    /// matching piece.
    pub fn is_primitive(&self) -> (r: bool)
        ensures
            r == exists|i: int, j: int|
                0 <= i < self@.ors.len() && 0 <= j < (#[trigger] self@.ors[i]).len()
                    && spec_is_primitive((#[trigger] self@.ors[i][j]).content),
    {
        self.rules.is_primitive()
    }
}

/// Whether `func` accepts some element of `items`: the early helper kept
/// its name, and its answer is the existence of an accepted element.
pub fn all_true<T, F: Fn(&T) -> bool>(items: &[T], func: F) -> (r: bool)
    requires
        forall|t: &T| #[trigger] call_requires(func, (t,)),
    ensures
        r ==> exists|i: int|
            0 <= i < items@.len() && call_ensures(func, (&items@[i], ), true),
        !r ==> forall|i: int|
            0 <= i < items@.len() ==> !call_ensures(func, (&items@[i], ), true) || call_ensures(
                func,
                (&items@[i], ),
                false,
            ),
{
    let mut i: usize = 0;
    while i < items.len()
        invariant
            i <= items@.len(),
            forall|t: &T| #[trigger] call_requires(func, (t,)),
            forall|j: int| 0 <= j < i ==> call_ensures(func, (&items@[j], ), false),
        decreases items@.len() - i,
    {
        if func(&items[i]) {
            return true;
        }
        i += 1;
    }
    false
}

} // verus!
