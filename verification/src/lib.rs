//! Converts ignore-file rule syntax into equivalent shell-glob expressions,
//! preserving negation and anchoring semantics: a line classifier splits raw
//! lines into blank, comment, and pattern entries; a segment tokenizer
//! decomposes each pattern body into typed tokens; and a renderer reassembles
//! the tokens into glob strings.

pub mod glob;
pub mod parser;
pub mod pattern;
pub mod text;
