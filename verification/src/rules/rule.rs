use vstd::prelude::*;

use super::literal::Literal;
use super::literal::LiteralV;
use crate::spec_parser::rule_piece::Repetition;

verus! {

/// A dense identifier of a compiled rule: its index in the rule table.
pub type RuleRef = usize;

/// One compiled rule: its name and its alternatives, references resolved
/// to dense identifiers.
#[derive(Debug, PartialEq)]
pub struct Rule<'a> {
    pub name: &'a [u8],
    pub rule: RuleOrs<'a>,
}

/// One compiled matching unit with its repetition mode.
#[derive(Debug, PartialEq, Clone)]
pub struct RulePiece<'a> {
    pub repetition: Repetition,
    pub content: RulePieceContent<'a>,
}

/// What a compiled piece matches: a terminal literal, or another rule.
#[derive(Debug, PartialEq, Clone)]
pub enum RulePieceContent<'a> {
    Literal(Literal<'a>),
    Rule(RuleRef),
}

/// One compiled alternative: pieces that must match consecutively.
#[derive(Debug, PartialEq, Clone)]
pub struct RuleList<'a>(pub Vec<RulePiece<'a>>);

/// The ordered alternatives of one compiled rule.
#[derive(Debug, PartialEq, Clone)]
pub struct RuleOrs<'a>(pub Vec<RuleList<'a>>);

/// Mathematical model of a compiled piece's content.
pub enum RulePieceContentV {
    Literal(LiteralV),
    Rule(int),
}

/// Mathematical model of a compiled piece.
pub struct RulePieceV {
    pub rep: Repetition,
    pub content: RulePieceContentV,
}

/// Mathematical model of a compiled rule.
pub struct RuleV {
    pub name: Seq<u8>,
    pub ors: Seq<Seq<RulePieceV>>,
}

impl<'a> View for RulePieceContent<'a> {
    type V = RulePieceContentV;

    open spec fn view(&self) -> RulePieceContentV {
        match self {
            RulePieceContent::Literal(l) => RulePieceContentV::Literal(l@),
            RulePieceContent::Rule(rf) => RulePieceContentV::Rule(*rf as int),
        }
    }
}

impl<'a> View for RulePiece<'a> {
    type V = RulePieceV;

    open spec fn view(&self) -> RulePieceV {
        RulePieceV { rep: self.repetition, content: self.content@ }
    }
}

impl<'a> View for RuleList<'a> {
    type V = Seq<RulePieceV>;

    open spec fn view(&self) -> Seq<RulePieceV> {
        self.0@.map_values(|p: RulePiece<'a>| p@)
    }
}

impl<'a> View for RuleOrs<'a> {
    type V = Seq<Seq<RulePieceV>>;

    open spec fn view(&self) -> Seq<Seq<RulePieceV>> {
        self.0@.map_values(|l: RuleList<'a>| l@)
    }
}

impl<'a> View for Rule<'a> {
    type V = RuleV;

    open spec fn view(&self) -> RuleV {
        RuleV { name: self.name@, ors: self.rule@ }
    }
}

impl<'a> From<RulePieceContent<'a>> for RulePiece<'a> {
    /// Wraps a bare content as a piece matched exactly once.
    fn from(content: RulePieceContent<'a>) -> (r: Self) {
        RulePiece { repetition: Repetition::Single, content }
    }
}

impl<'a> vstd::std_specs::convert::FromSpecImpl<RulePieceContent<'a>> for RulePiece<'a> {
    open spec fn obeys_from_spec() -> bool {
        true
    }

    open spec fn from_spec(content: RulePieceContent<'a>) -> Self {
        RulePiece { repetition: Repetition::Single, content }
    }
}

impl<'a> From<&'a [u8]> for RulePieceContent<'a> {
    fn from(string: &'a [u8]) -> (r: Self) {
        RulePieceContent::Literal(Literal::from(string))
    }
}

impl<'a> vstd::std_specs::convert::FromSpecImpl<&'a [u8]> for RulePieceContent<'a> {
    open spec fn obeys_from_spec() -> bool {
        true
    }

    open spec fn from_spec(string: &'a [u8]) -> Self {
        RulePieceContent::Literal(
            Literal { content: super::literal::LiteralContent::Str(string) },
        )
    }
}

} // verus!
