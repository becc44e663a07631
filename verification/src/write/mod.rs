//! Write transactions: an exclusive session over the data and catalog trees,
//! its counters, its segments, its spill file, and its commit.

pub mod commit;
pub mod counter;
pub mod segments;
pub mod spill;
pub mod txn;

pub use counter::CounterRef;
pub use spill::{ScratchOffset, SpillScope};
pub use txn::{SegmentSideEffect, WriteTxn};
