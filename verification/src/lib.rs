//! A grammar compiler and matching engine: a BNF-like grammar text is
//! read into productions, compiled into a dense, reference-resolved rule
//! table, and interpreted against input bytes to give a parse tree,
//! ambiguity resolved by longest match.

pub mod bnf;
pub mod chars;
pub mod engine;
pub mod nodes;
pub mod rules;
pub mod spec_parser;
pub mod strings;
pub mod structures;
pub mod utils;
