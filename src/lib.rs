//! Finds the dependency declarations of a manifest, decides the newest version of each
//! from the manifest at its local path, and puts those versions into the manifest text
//! without touching anything else.
pub mod text;
pub mod tokenizer;
pub mod manifest;
pub mod resolver;
pub mod rewriter;
pub mod laws;
