//! The state of an open handle and the operations on it.

pub mod apply;
pub mod apply_journal;
pub mod catalog_commit;
pub mod gc;
pub mod handle;
pub mod history;
pub mod history_carry;
pub mod manifest_validation;
pub mod misc;
pub mod open;
pub mod pending;
pub mod pins;
pub mod reader;
pub mod reclaim;
pub mod rekey;
pub mod restore;
pub mod segment;
pub mod snapshot;
