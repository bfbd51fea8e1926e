//! Content pipeline and template rewrite engine of a static site generator.
//!
//! All text is handled as UTF-8 bytes: a buffer is a `Vec<u8>`, a position is
//! a byte offset, and every contract is stated over `Seq<u8>`.

pub mod cache;
pub mod content;
pub mod context;
pub mod markup;
pub mod path;
pub mod server;
pub mod static_files;
pub mod template;
pub mod template_repository;
pub mod text;
