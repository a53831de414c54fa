//! An optimising front end, an interpreter and a code generator for the
//! eight-instruction tape language.
//!
//! Program text is reduced to its instruction characters, parsed into a tree
//! of fused nodes ([`Ast`]), and the tree is either run on a [`Machine`] or
//! written out as the text of a Rust program. Every function carries a
//! contract over the mathematical model of its data: token sequences
//! (`Seq<char>`), trees ([`Node`]) and machine states ([`State`]).

pub mod ast;
pub mod tokens;
pub mod runs;
pub mod nesting;
pub mod parser;
pub mod machine;
pub mod codegen;
pub mod laws;

pub use ast::{Ast, Node};
pub use parser::ParseError;
pub use machine::{Fault, Machine, State};
