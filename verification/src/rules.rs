pub mod from_spec;
pub mod grammar;
pub mod literal;
pub mod rule;
