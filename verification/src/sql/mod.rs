//! The SQL front end: tokens, the syntax tree, the lexer and the parser.

pub mod ast;
pub mod lexer;
pub mod parser;
pub mod token;

pub use ast::Statement;
pub use parser::{parse_sql, Parser, ParserError};
