//! What the operations of the library promise, stated over calls of them: what
//! a call that returned left behind, and how several calls relate.

pub mod apply;
pub mod bytes;
pub mod commit;
pub mod frames;
pub mod history;
pub mod open;
pub mod readers;
pub mod rekey;
pub mod segments;
pub mod session;
pub mod snapshot;
pub mod store;
