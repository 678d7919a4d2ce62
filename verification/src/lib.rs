//! A deterministic XML canonicalizer.
//!
//! The crate parses an XML document into a tree model ([`model::Document`])
//! and re-serializes it under a fixed, configurable set of formatting rules
//! ([`config::Config`]), so that two semantically identical documents
//! collapse to byte-identical output.

pub mod chars;
pub mod config;
pub mod model;
pub mod error;
pub mod lexer;
pub mod parser;
pub mod escape;
pub mod render;
pub mod laws;
