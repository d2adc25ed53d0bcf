//! Whitespace tokenizer with positional metadata.
//!
//! The library splits a finite sequence of characters into
//! whitespace-delimited tokens, annotating each token with its position in
//! three coordinate systems: byte offset, character offset and token index.
//! It is built from two pull-based stages: a positional character annotator
//! (`annotator`) and a two-state tokenizer (`tokenizer`). The mathematical
//! model of the whole pipeline lives in `model`, and the laws that hold of
//! every emitted token are proved in `laws`.

pub mod unicode;
pub mod model;
pub mod annotator;
pub mod tokenizer;
pub mod laws;
