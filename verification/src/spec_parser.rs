pub mod char_range;
pub mod content;
pub mod error;
pub mod grammar;
pub mod is_primitive;
pub mod rule_line;
pub mod rule_ors;
pub mod rule_piece;
pub mod rule_series;
pub mod strings;
pub mod token_enum;
pub mod tokens;
