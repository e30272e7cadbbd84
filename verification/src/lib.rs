//! Front end of the `lpp` language: a lexer that turns source text into
//! tokens with their positions, and the beginnings of a parser over them.
//!
//! `lex_spec` holds the mathematical model of the lexer; `lexer` holds the
//! executable lexer, whose contracts are stated over that model.

pub mod lex_cases;
pub mod lex_laws;
pub mod lex_spec;
pub mod lexer;
pub mod parser;
pub mod text;
