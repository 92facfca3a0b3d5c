//! Front end for a small indentation-sensitive scripting language: a layout
//! tokenizer that turns lines of text into tokens (with synthesized indent,
//! dedent and newline tokens), a grammar parser that builds a typed tree, and
//! a pre-order rendering of that tree as numbered graph nodes.

pub mod token;
pub mod scan;
pub mod lexer;
pub mod ast;
pub mod parser;
pub mod layout_laws;
pub mod front;
pub mod render;
