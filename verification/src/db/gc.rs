//! Garbage collection: its steps, and what a run of it reclaimed.

use vstd::prelude::*;

use crate::errors::{PagedbError, Result};

use super::handle::Db;
use super::segment::DrainOutcome;

verus! {

/// What a collection reclaimed.
#[derive(Debug, Clone, Copy, PartialEq, Eq, Structural)]
pub struct GcStats {
    pub reclaimed_segments: u64,
    pub reclaimed_bytes: u64,
}

/// What a collection does next.
#[derive(Debug, Clone, Copy, PartialEq, Eq, Structural)]
pub enum GcStep {
    /// Complete the journal of an earlier apply, if one is pending.
    RetryJournal,
    /// With the writer's turn and no further readers let in, attempt every
    /// deferred tombstone.
    DrainTombstones,
    /// Remove what an interrupted retirement left parked. The drain reclaimed
    /// this much.
    SweepParked { segments: u64, bytes: u64 },
    /// The collection is over.
    Done(GcStats),
}

/// The step that follows, or the error that ends the collection.
pub open spec fn after_gc(step: GcStep, outcome: Result<(u64, u64)>) -> Result<GcStep> {
    match outcome {
        Err(e) => Err(e),
        Ok((segments, bytes)) => Ok(
            match step {
                GcStep::RetryJournal => GcStep::DrainTombstones,
                GcStep::DrainTombstones => GcStep::SweepParked { segments, bytes },
                GcStep::SweepParked { segments: s, bytes: b } => GcStep::Done(
                    GcStats {
                        reclaimed_segments: capped_sum(s, segments),
                        reclaimed_bytes: capped_sum(b, bytes),
                    },
                ),
                GcStep::Done(stats) => GcStep::Done(stats),
            },
        ),
    }
}

/// The sum, or the largest number there is.
pub open spec fn capped_sum(a: u64, b: u64) -> u64 {
    if a + b > u64::MAX {
        u64::MAX
    } else {
        (a + b) as u64
    }
}

impl Db {
    /// What became of one deferred tombstone: still pinned, or attempted with
    /// its live file measured beforehand. A file that was gone already was not
    /// reclaimed here.
    pub fn reclaim_pending_tombstone(pinned: bool, measured: Option<u64>, reclaimed: bool) -> (o:
        DrainOutcome)
        ensures
            o == if pinned {
                DrainOutcome::Pinned
            } else if !reclaimed {
                DrainOutcome::Failed
            } else {
                match measured {
                    Some(len) => DrainOutcome::Reclaimed(len),
                    None => DrainOutcome::Gone,
                }
            },
    {
        if pinned {
            DrainOutcome::Pinned
        } else if !reclaimed {
            DrainOutcome::Failed
        } else {
            match measured {
                Some(len) => DrainOutcome::Reclaimed(len),
                None => DrainOutcome::Gone,
            }
        }
    }

    /// Begins a collection. Refused on a poisoned handle.
    pub fn gc_now(&self) -> (r: Result<GcStep>)
        ensures
            r == if self.poisoned_commit is Some {
                Err::<GcStep, PagedbError>(
                    PagedbError::DurablyCommittedButUnpublished { commit: self.poisoned_commit->0 },
                )
            } else {
                Ok::<GcStep, PagedbError>(GcStep::RetryJournal)
            },
    {
        match self.ensure_usable() {
            Ok(()) => Ok(GcStep::RetryJournal),
            Err(e) => Err(e),
        }
    }

    /// Takes what a step of a collection came to, and says what follows. What a
    /// step reclaimed is counted in segments and bytes; what the journal freed is
    /// not counted. The first step that fails ends the collection with its error.
    pub fn collect(step: GcStep, outcome: Result<(u64, u64)>) -> (r: Result<GcStep>)
        ensures
            r == after_gc(step, outcome),
    {
        let reclaimed: (u64, u64) = match outcome {
            Ok(reclaimed) => reclaimed,
            Err(e) => return Err(e),
        };
        Ok(
            match step {
                GcStep::RetryJournal => GcStep::DrainTombstones,
                GcStep::DrainTombstones => GcStep::SweepParked {
                    segments: reclaimed.0,
                    bytes: reclaimed.1,
                },
                GcStep::SweepParked { segments, bytes } => GcStep::Done(
                    GcStats {
                        reclaimed_segments: segments.saturating_add(reclaimed.0),
                        reclaimed_bytes: bytes.saturating_add(reclaimed.1),
                    },
                ),
                GcStep::Done(stats) => GcStep::Done(stats),
            },
        )
    }
}

/// What a collection comes to by its three steps: the error of the first that
/// fails, or the sum of what the drain and the sweep reclaimed.
pub open spec fn collected(
    journal: Result<(u64, u64)>,
    drained: Result<(u64, u64)>,
    swept: Result<(u64, u64)>,
) -> Result<GcStats> {
    if journal is Err {
        Err(journal->Err_0)
    } else if drained is Err {
        Err(drained->Err_0)
    } else if swept is Err {
        Err(swept->Err_0)
    } else {
        Ok(
            GcStats {
                reclaimed_segments: capped_sum(drained->Ok_0.0, swept->Ok_0.0),
                reclaimed_bytes: capped_sum(drained->Ok_0.1, swept->Ok_0.1),
            },
        )
    }
}

/// A collection completes a pending journal before it drains anything, drains
/// before it sweeps, and reports what the last two reclaimed together.
pub proof fn law_collection_runs_in_order(
    journal: Result<(u64, u64)>,
    drained: Result<(u64, u64)>,
    swept: Result<(u64, u64)>,
)
    ensures
        match after_gc(GcStep::RetryJournal, journal) {
            Err(e) => collected(journal, drained, swept) == Err::<GcStats, PagedbError>(e),
            Ok(second) => second == GcStep::DrainTombstones && match after_gc(second, drained) {
                Err(e) => collected(journal, drained, swept) == Err::<GcStats, PagedbError>(e),
                Ok(third) => third is SweepParked && match after_gc(third, swept) {
                    Err(e) => collected(journal, drained, swept) == Err::<GcStats, PagedbError>(e),
                    Ok(last) => last is Done && collected(journal, drained, swept) == Ok::<
                        GcStats,
                        PagedbError,
                    >(last->Done_0),
                },
            },
        },
{
}

} // verus!
