//! Transaction layer of an embedded, encrypted, page-based database.
//!
//! The library holds the decisions of the layer: what a header records, when a
//! handle may act, which pages and rows a commit touches, and how an
//! interrupted protocol resumes. Reading and writing files is left to the
//! embedder, who hands in what was read and performs what is asked for.

pub mod catalog;
pub mod clock;
pub mod codec;
pub mod db;
pub mod errors;
pub mod header;
pub mod ids;
pub mod laws;
pub mod mode;
pub mod options;
pub mod order;
pub mod paths;
pub mod policy;
pub mod read;
pub mod sets;
pub mod tree;
pub mod write;

