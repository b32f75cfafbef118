//! Front end for a Structured Text dialect: a lexer that turns source text into
//! marked tokens, and a parser that builds the blocks of a program with positioned
//! diagnostics. Each step is stated as a model over sequences and proved against it.

pub mod text;
pub mod token;
pub mod numeral;
pub mod lexer;
pub mod ast;
pub mod parser;
pub mod laws;
