//! vnote: a verified core for a personal micro-note manager.
//!
//! Notes are short pieces of text filed under named topics in a
//! [`book::Notebook`].  The crate provides the notebook data model, a
//! textual codec for durable storage with a proved round-trip, a fuzzy
//! topic matcher based on normalized edit distance, and a case-insensitive
//! content search.  File and terminal I/O live outside this crate; the
//! [`book::NotebookStore`] and [`config::ConfigStore`] traits are the
//! interfaces a storage backend implements.
pub mod book;
pub mod codec;
pub mod config;
pub mod distance;
pub mod errors;
pub mod search;
