//! coffeeql-parser
//!
//! Converts a CoffeeQL token stream into a typed AST (QueryNode).

pub mod ast;
pub mod error;
pub mod laws;
pub mod parser;
pub mod pratt;
pub mod recursive;
pub mod token;

pub use ast::{ChainOp, Expression, QueryNode, Statement};
pub use error::ParseError;
pub use parser::Parser;
pub use recursive::RecursiveParser;
