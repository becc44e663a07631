//! Carrying the follower's commit-history tree across an incremental apply.
//!
//! The producer cannot see the tree, so its delta may claim the pages that
//! hold it. The tree is moved out of the way then, and only then.

use vstd::prelude::*;

use crate::sets::PageSet;
use crate::tree::TreePages;

use super::handle::{Db, WriterState};

verus! {

/// Where the commit-history tree lives once the apply's target image is built.
pub struct CarriedHistory {
    pub root_page_id: u64,
    pub root_version: u64,
    pub entry_count: Option<u64>,
    /// Allocation cursor after any relocation. Never below the caller's input.
    pub next_page_id: u64,
    /// Pages the previous copy occupied and the target does not claim.
    pub released_page_ids: PageSet,
}

/// Whether the tree stays where it is.
pub enum CarryDecision {
    Unmoved(CarriedHistory),
    /// The rows are to be loaded onto fresh pages from the allocation cursor
    /// on; the pages released are known already.
    Relocate { released_page_ids: PageSet },
}

/// Whether the delta claims a page that holds the history.
pub open spec fn history_displaced(
    state: WriterState,
    occupied: Set<u64>,
    delta: Set<u64>,
) -> bool {
    state.commit_history_root_page_id != 0 && !occupied.disjoint(delta)
}

/// What is decided about the tree, and where it goes on when it stays.
pub open spec fn carry_decision(
    state: WriterState,
    occupied: Set<u64>,
    delta: Set<u64>,
    target: Set<u64>,
    alloc_cursor: u64,
    decision: CarryDecision,
) -> bool {
    match decision {
        CarryDecision::Unmoved(c) => {
            &&& !history_displaced(state, occupied, delta)
            &&& c.root_page_id == state.commit_history_root_page_id
            &&& c.root_version == state.commit_history_root_version
            &&& c.entry_count == state.commit_history_count
            &&& c.next_page_id == alloc_cursor
            &&& c.released_page_ids.wf()
            &&& c.released_page_ids@ == Set::<u64>::empty()
        },
        CarryDecision::Relocate { released_page_ids } => {
            &&& history_displaced(state, occupied, delta)
            &&& released_page_ids.wf()
            &&& released_page_ids@ == occupied.difference(target)
        },
    }
}

impl Db {
    /// Decides where this handle's commit-history tree lives in the staged
    /// image. `occupied` are the pages of the tree, `delta` the pages that the
    /// delta writes, `target` those that the target reaches.
    pub fn carry_commit_history(
        &self,
        state: &WriterState,
        occupied: &PageSet,
        delta: &PageSet,
        target: &PageSet,
        alloc_cursor: u64,
    ) -> (decision: CarryDecision)
        requires
            occupied.wf(),
            delta.wf(),
            target.wf(),
        ensures
            carry_decision(*state, occupied@, delta@, target@, alloc_cursor, decision),
    {
        if state.commit_history_root_page_id == 0 || occupied.is_disjoint(delta) {
            return CarryDecision::Unmoved(
                CarriedHistory {
                    root_page_id: state.commit_history_root_page_id,
                    root_version: state.commit_history_root_version,
                    entry_count: state.commit_history_count,
                    next_page_id: alloc_cursor,
                    released_page_ids: PageSet::new(),
                },
            );
        }
        CarryDecision::Relocate { released_page_ids: occupied.difference(target) }
    }
}

/// Where a tree lives that was loaded onto new pages.
pub open spec fn relocated(
    pages: TreePages,
    history_version: u64,
    row_count: u64,
    alloc_cursor: u64,
    released_page_ids: PageSet,
) -> CarriedHistory {
    CarriedHistory {
        root_page_id: pages.root_page_id,
        root_version: history_version,
        entry_count: Some(row_count),
        next_page_id: if pages.next_page_id >= alloc_cursor {
            pages.next_page_id
        } else {
            alloc_cursor
        },
        released_page_ids,
    }
}

/// Ends a relocation once the rows are loaded onto their new pages.
pub fn adopt_relocated_history(
    pages: &TreePages,
    history_version: u64,
    row_count: u64,
    alloc_cursor: u64,
    released_page_ids: PageSet,
) -> (c: CarriedHistory)
    ensures
        c == relocated(*pages, history_version, row_count, alloc_cursor, released_page_ids),
{
    CarriedHistory {
        root_page_id: pages.root_page_id,
        root_version: history_version,
        entry_count: Some(row_count),
        next_page_id: if pages.next_page_id >= alloc_cursor {
            pages.next_page_id
        } else {
            alloc_cursor
        },
        released_page_ids,
    }
}

/// When the history stays where it is, the delta writes none of its pages: the
/// root that the new header names is still the root it was.
pub proof fn law_unmoved_history_is_not_overwritten(
    state: WriterState,
    occupied: Set<u64>,
    delta: Set<u64>,
    page: u64,
)
    requires
        state.commit_history_root_page_id != 0,
        !history_displaced(state, occupied, delta),
        occupied.contains(page),
    ensures
        !delta.contains(page),
{
}

} // verus!
