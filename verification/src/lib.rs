//! An embeddable vector similarity store: identifier bookkeeping, metadata
//! filters, the collection engine, its on-disk encoding and the namespace
//! registry, together with the document loaders that feed it.

pub mod text;
pub mod ident;
pub mod backend;
pub mod value;
pub mod filter;
pub mod score;
pub mod collection;
pub mod codec;
pub mod persist;
pub mod manifest;
pub mod backup;
pub mod disk;
pub mod namespace;
pub mod document;
pub mod loaders;
pub mod cli;
pub mod eval;
