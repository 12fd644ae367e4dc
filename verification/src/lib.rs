//! A verified reader and writer for a zip-and-XML task-document format.
//!
//! A document is a directory of immutable "archive" files, each a zip
//! container holding one XML fragment of task records.  Archives form a
//! chain linked by identifiers embedded in their file names; folding the
//! chain from its root to its head yields the document's current state.

pub mod codec;
pub mod content;
pub mod encode;
pub mod db;
pub mod digits;
pub mod error;
pub mod events;
pub mod filter;
pub mod laws;
pub mod names;
pub mod perspective;
pub mod plist;
pub mod task;
pub mod update;
pub mod time;
pub mod util;
pub mod xmlio;
pub mod zipio;
