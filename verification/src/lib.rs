//! A small mathematical-expression language: a lexer that turns source text
//! into positioned tokens, a backtracking cursor over those tokens, and a
//! recursive-descent parser that builds an expression tree honouring operator
//! precedence, with numeric literals carried as text and function names
//! resolved against a registry of known names at parse time.
//!
//! Evaluation of a parsed tree is numeric work over floating-point values and
//! lives with the embedding application; everything here is free of it.

pub mod ast;
pub mod chars;
pub mod laws;
pub mod lexer;
pub mod parser;
pub mod token;
pub mod utils;

pub use chars::is_alnum_char;
pub use chars::is_alpha_char;
pub use chars::is_digit_char;
pub use chars::is_digit_or_sep;
pub use ast::Expression;
pub use ast::Function;
pub use ast::Primitive;
pub use ast::Program;
pub use chars::is_whitespace_char;
pub use lexer::Tokenizer;
pub use parser::Moo;
pub use parser::ParseError;
pub use token::Token;
pub use token::TokenV;
pub use utils::IIter;
pub use utils::Iter;
