use vstd::prelude::*;

use super::tokens::Assign;
use super::tokens::DoubleQuote;
use super::tokens::Identifier;
use super::tokens::Separator;
use super::tokens::SingleQuote;
use super::tokens::Space;

verus! {

/// One lexical token of the grammar-specification text.
pub enum Token<'a> {
    Assign(Assign<'a>),
    Separator(Separator<'a>),
    SingleQuote(SingleQuote<'a>),
    DoubleQuote(DoubleQuote<'a>),
    Identifier(Identifier<'a>),
    Space(Space<'a>),
}

} // verus!
