//! A recursive-descent parser for a small calculator language.
//!
//! The parser reads a finished token sequence and builds a syntax tree of
//! newline-separated statements: assignments and arithmetic expressions with
//! exponents, root functions, factorial and degree marks, and bracketed
//! groups. The grammar is written down twice: once as mathematical functions
//! over token sequences ([`grammar`]), and once as the executable [`Parser`],
//! which is proved to compute exactly what the grammar says. What holds of
//! the grammar on every token sequence is proved in [`laws`].

pub mod ast;
pub mod error;
pub mod grammar;
pub mod laws;
pub mod parser;
pub mod token;

pub use ast::{BinaryOp, Node, NodeType, NodeTypeView, NodeView, UnaryOp};
pub use error::{AmiError, AmiErrorView};
pub use parser::Parser;
pub use token::{Span, Token, TokenType, TokenTypeView, TokenView};
