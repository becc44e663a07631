//! Opening a store: which mode may do what, what a header says before a key is
//! trusted, and the state a handle starts from.

pub mod create;
pub mod existing;
pub mod header_probe;
pub mod modes;
pub mod recovery;
