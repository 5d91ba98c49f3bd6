//! Notes kept as files, each with a header block and a body, and a
//! full-text index that mirrors them.
//!
//! The crate holds what the store, the index and the watcher decide. It
//! reads no file and opens no index itself: each operation takes what was
//! read, and returns what is to be written.

pub mod clock;
pub mod diagnostics;
pub mod filename;
pub mod frontmatter;
pub mod indexer;
pub mod listing;
pub mod models;
pub mod note_id;
pub mod notes_fs;
pub mod paths;
pub mod pattern;
pub mod search;
pub mod store_laws;
pub mod text;
pub mod watcher;
