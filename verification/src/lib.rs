//! The physical layout of a columnar container file.
//!
//! A file is a start magic, data regions, a footer with structured metadata,
//! the length of the footer, and an end magic. The library checks that
//! frame, and rebuilds from the decoded footer and from the page headers
//! decoded from the file the tree of regions: row groups, column chunks and
//! pages, each keyed by the bytes it covers. The records themselves are
//! decoded by the caller, with the `parquet` and `thrift` crates: the
//! library says where each lies. The bytes of a leaf are read on request
//! into a cell that the leaf shares with the region reader.
//!
//! - `interval`: byte ranges and their relations.
//! - `section`: the tree, and the rule that places a region in it.
//! - `containment`: the invariants of a tree, and what placing keeps.
//! - `indexer`: the walk over the metadata that builds the tree.
//! - `tiling`: what holds of every tree that the indexer builds.
//! - `metadata`: what the footer says of byte ranges, in plain values.
//! - `file`: the frame, the footer, and a file as a whole.
//! - `slot`, `reader`: the cells of the leaves, and the region reader.
//! - `views`: what the views show, as values.
//! - `wire`: the records as `parquet` holds them, and what is taken from them.

pub mod cli;
pub mod containment;
pub mod error;
pub mod file;
pub mod indexer;
pub mod interval;
pub mod metadata;
pub mod reader;
pub mod section;
pub mod slot;
pub mod tiling;
pub mod views;
pub mod wire;

pub use crate::cli::ParkhayCli;
pub use crate::file::ParkhayFile;
