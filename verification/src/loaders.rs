//! Document loaders: each turns the content of one kind of file into a
//! [`crate::document::Document`].
//!
//! A loader never opens a file. It is handed what was read and does the
//! rest: parsing, stripping, assembling the text and the metadata.

pub mod common;
pub mod extended;
pub mod code;
pub mod markdown;
pub mod epub_loader;
pub mod docx_loader;
pub mod pdf;
pub mod pptx_loader;
pub mod csv_loader;
pub mod json_loader;
pub mod text;
pub mod web;
