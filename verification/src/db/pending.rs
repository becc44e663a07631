//! The shared writer fields a candidate commit advances, held aside until the
//! header that makes them durable has been written.

use vstd::prelude::*;

use super::handle::WriterState;

verus! {

/// The part of [`WriterState`] that a commit advances before it can know
/// whether it will succeed: the allocation cursor, and the commit-history root
/// with its version and row count.
///
/// A candidate commit that does not become durable must leave no trace in
/// shared state. So the commit path advances this copy and calls
/// [`Self::publish`] only once the header naming these values is durable.
#[derive(Debug, Clone, Copy, PartialEq, Eq, Structural)]
pub struct PendingWriterState {
    pub next_page_id: u64,
    pub commit_history_root_page_id: u64,
    pub commit_history_root_version: u64,
    pub commit_history_count: Option<u64>,
}

/// The writer state with the candidate's advances folded in.
pub open spec fn published(pending: PendingWriterState, state: WriterState) -> WriterState {
    WriterState {
        next_page_id: pending.next_page_id,
        commit_history_root_page_id: pending.commit_history_root_page_id,
        commit_history_root_version: pending.commit_history_root_version,
        commit_history_count: pending.commit_history_count,
        ..state
    }
}

/// The candidate that a writer state starts from.
pub open spec fn captured(state: WriterState) -> PendingWriterState {
    PendingWriterState {
        next_page_id: state.next_page_id,
        commit_history_root_page_id: state.commit_history_root_page_id,
        commit_history_root_version: state.commit_history_root_version,
        commit_history_count: state.commit_history_count,
    }
}

impl PendingWriterState {
    /// Start from what the still-durable header describes.
    pub fn capture(state: &WriterState) -> (pending: Self)
        ensures
            pending == captured(*state),
    {
        PendingWriterState {
            next_page_id: state.next_page_id,
            commit_history_root_page_id: state.commit_history_root_page_id,
            commit_history_root_version: state.commit_history_root_version,
            commit_history_count: state.commit_history_count,
        }
    }

    /// Fold the candidate's advances into the shared writer state. Call only
    /// after the header carrying these values is durable.
    pub fn publish(self, state: &mut WriterState)
        ensures
            *final(state) == published(self, *old(state)),
    {
        state.next_page_id = self.next_page_id;
        state.commit_history_root_page_id = self.commit_history_root_page_id;
        state.commit_history_root_version = self.commit_history_root_version;
        state.commit_history_count = self.commit_history_count;
    }
}

/// Publishing a candidate that nothing advanced changes nothing, and what is
/// published is what a later capture finds.
pub proof fn law_capture_publish(state: WriterState, pending: PendingWriterState)
    ensures
        published(captured(state), state) == state,
        captured(published(pending, state)) == pending,
{
}

} // verus!
