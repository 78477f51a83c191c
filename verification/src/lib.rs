pub mod error_handler;
pub mod lexer;
pub mod parser;
pub mod pipeline;
pub mod tokens;
pub mod visitor;
