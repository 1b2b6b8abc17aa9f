//! A small text-templating language: lexer, parser with macro expansion,
//! bytecode generation, and a stack virtual machine that renders templates
//! against externally supplied string and array bindings.
//!
//! All indices in tokens, nodes and diagnostics count grapheme clusters
//! (user-perceived characters), never bytes.

pub mod decimal;
pub mod error;
pub mod ir;
pub mod laws;
pub mod seg;
pub mod syntax;
pub mod table;
pub mod vm;
