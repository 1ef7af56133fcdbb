//! Extracts a hierarchical help listing from the comment structure of a
//! makefile-like text, and renders it as aligned, CLI-ready text.
//!
//! Lines beginning with `## ` (or exactly `##`) are structural comments; a
//! pair of such lines whose second member is an underline of `=` marks a
//! module heading, an underline of `-` a submodule heading, and any other
//! commented line followed by a rule line `name: ...` documents the target
//! `name`. Parsing builds a [`Document`]; rendering produces one text block
//! per module or submodule that owns at least one target.

pub mod doc;
pub mod grammar;
pub mod laws;
pub mod lines;
pub mod render;

pub use doc::Document;
