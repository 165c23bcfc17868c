//! Staging, ordering and indexing logic for single-file "pak" archives.
//!
//! `memory` holds the in-memory builder whose entries are kept in byte-wise
//! lexicographic order, `index` the metadata and entry names of an opened
//! archive, `version` the format revisions and the layout decisions they
//! imply, and `order` the name order that both sides share.
pub mod error;
pub mod index;
pub mod memory;
pub mod order;
pub mod version;
