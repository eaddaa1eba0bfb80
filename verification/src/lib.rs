//! The front end of the Jasmine query language: temporal literal parsing,
//! literal classification, the literal value model, the abstract syntax
//! tree, and the walker that builds it from the concrete syntax.

pub mod ast;
pub mod chars;
pub mod classify;
pub mod dec;
pub mod errors;
pub mod grammar;
pub mod j;
pub mod render;
pub mod series;
pub mod syntax;
pub mod temporal;
pub mod walker;

pub use ast::AstNode;
pub use errors::trace;
pub use grammar::JParser;
pub use temporal::{NS_IN_DAY, UNIX_EPOCH_DAY};
pub use walker::parse;
