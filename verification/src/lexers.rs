//! The two character-level parsers.

pub mod csv_lexer;
pub mod json_lexer;
