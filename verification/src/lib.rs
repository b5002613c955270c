//! Lexer, parser, syntax tree, diagram layout and editor services
//! (completion, references, outline, folding, semantic tokens) for the
//! PseudoScript architecture-modelling language.

pub mod span;
pub mod strs;
pub mod token;
pub mod diagnostic;
pub mod lexer;
pub mod ast;
pub mod parser;
pub mod layout;
pub mod model;
pub mod project;
pub mod convert;
pub mod outline;
pub mod refs;
pub mod complete;
pub mod analysis;
