//! Mode-authorized recovery once a handle stands on an authenticated header.

use vstd::prelude::*;

use crate::db::open::modes::{capabilities_of, DbModeCapabilities};
use crate::errors::{IoKind, PagedbError, Result};
use crate::header::MainDbHeaderFields;
use crate::mode::DbMode;

verus! {

/// What recovery does next.
#[derive(Debug, Clone, Copy, PartialEq, Eq, Structural)]
pub enum RecoveryStep {
    /// Complete the apply journal that the header names.
    RetryApplyJournal,
    /// Remove what an interrupted compaction left behind.
    RemoveCompaction,
    /// Repair the segment files by the catalog.
    RepairCatalog,
    /// Check the segment files against the catalog, changing nothing.
    VerifyCatalog,
    /// Read whether a rekey was interrupted.
    LoadRekey,
    /// Resume the interrupted rekey.
    ResumeRekey { target_epoch: u64 },
    /// Nothing is left to recover.
    Done,
}

/// What came of a recovery step.
#[derive(Debug, PartialEq, Eq)]
pub enum RecoveryEvent {
    /// The step was performed.
    Finished,
    /// The target epoch of an interrupted rekey, if there is one.
    Rekey(Option<u64>),
    /// The step failed.
    Failed(PagedbError),
}

/// Whether a header names an apply journal.
pub open spec fn names_journal(f: MainDbHeaderFields) -> bool {
    f.apply_journal_root_page_id != 0 || f.apply_journal_root_version != 0
}

/// The step after the apply journal is out of the way.
pub open spec fn after_journal(mode: DbMode) -> RecoveryStep {
    if capabilities_of(mode).recovery_authority is Standalone {
        RecoveryStep::RemoveCompaction
    } else {
        RecoveryStep::VerifyCatalog
    }
}

/// The first recovery step; a handle that may not complete the journal that
/// the header names is refused.
pub open spec fn first_recovery(mode: DbMode, f: MainDbHeaderFields) -> Result<RecoveryStep> {
    if names_journal(f) {
        if capabilities_of(mode).recovery_authority is VerifyOnly {
            Err(PagedbError::Unsupported)
        } else {
            Ok(RecoveryStep::RetryApplyJournal)
        }
    } else {
        Ok(after_journal(mode))
    }
}

/// The step that follows, or the error that ends the open. `None` where the
/// event does not answer the step.
pub open spec fn next_recovery(mode: DbMode, step: RecoveryStep, event: RecoveryEvent) -> Option<
    Result<RecoveryStep>,
> {
    let standalone = capabilities_of(mode).recovery_authority is Standalone;
    match (step, event) {
        (RecoveryStep::RetryApplyJournal, RecoveryEvent::Finished) => Some(Ok(after_journal(mode))),
        (RecoveryStep::RemoveCompaction, RecoveryEvent::Finished) => Some(
            Ok(RecoveryStep::RepairCatalog),
        ),
        (
            RecoveryStep::RemoveCompaction,
            RecoveryEvent::Failed(PagedbError::Io(IoKind::NotFound)),
        ) => Some(Ok(RecoveryStep::RepairCatalog)),
        (RecoveryStep::RepairCatalog, RecoveryEvent::Finished) => Some(Ok(RecoveryStep::LoadRekey)),
        (RecoveryStep::VerifyCatalog, RecoveryEvent::Finished) => Some(Ok(RecoveryStep::LoadRekey)),
        (RecoveryStep::LoadRekey, RecoveryEvent::Rekey(None)) => Some(Ok(RecoveryStep::Done)),
        (RecoveryStep::LoadRekey, RecoveryEvent::Rekey(Some(target_epoch))) => if standalone {
            Some(Ok(RecoveryStep::ResumeRekey { target_epoch }))
        } else {
            Some(Err(PagedbError::Unsupported))
        },
        (RecoveryStep::ResumeRekey { target_epoch }, RecoveryEvent::Finished) => Some(
            Ok(RecoveryStep::Done),
        ),
        (RecoveryStep::Done, _) => None,
        (_, RecoveryEvent::Failed(e)) => Some(Err(e)),
        _ => None,
    }
}

/// The first recovery step of a handle on a header.
pub fn recovery_start(mode: DbMode, fields: &MainDbHeaderFields) -> (r: Result<RecoveryStep>)
    ensures
        r == first_recovery(mode, *fields),
{
    let caps: DbModeCapabilities = mode.open_capabilities();
    if fields.apply_journal_root_page_id != 0 || fields.apply_journal_root_version != 0 {
        if !caps.applies_interrupted_apply() {
            return Err(PagedbError::Unsupported);
        }
        return Ok(RecoveryStep::RetryApplyJournal);
    }
    if caps.runs_standalone_recovery() {
        Ok(RecoveryStep::RemoveCompaction)
    } else {
        Ok(RecoveryStep::VerifyCatalog)
    }
}

/// The recovery step that follows, or the error that ends the open. `None`
/// where the event does not answer the step.
pub fn recover_open_state(mode: DbMode, step: RecoveryStep, event: RecoveryEvent) -> (next: Option<
    Result<RecoveryStep>,
>)
    ensures
        next == next_recovery(mode, step, event),
{
    let standalone: bool = mode.open_capabilities().runs_standalone_recovery();
    match (step, event) {
        (RecoveryStep::RetryApplyJournal, RecoveryEvent::Finished) => {
            Some(
                Ok(
                    if standalone {
                        RecoveryStep::RemoveCompaction
                    } else {
                        RecoveryStep::VerifyCatalog
                    },
                ),
            )
        },
        (RecoveryStep::RemoveCompaction, RecoveryEvent::Finished) => {
            Some(Ok(RecoveryStep::RepairCatalog))
        },
        (
            RecoveryStep::RemoveCompaction,
            RecoveryEvent::Failed(PagedbError::Io(IoKind::NotFound)),
        ) => Some(Ok(RecoveryStep::RepairCatalog)),
        (RecoveryStep::RepairCatalog, RecoveryEvent::Finished) => Some(Ok(RecoveryStep::LoadRekey)),
        (RecoveryStep::VerifyCatalog, RecoveryEvent::Finished) => Some(Ok(RecoveryStep::LoadRekey)),
        (RecoveryStep::LoadRekey, RecoveryEvent::Rekey(None)) => Some(Ok(RecoveryStep::Done)),
        (RecoveryStep::LoadRekey, RecoveryEvent::Rekey(Some(target_epoch))) => {
            if standalone {
                Some(Ok(RecoveryStep::ResumeRekey { target_epoch }))
            } else {
                Some(Err(PagedbError::Unsupported))
            }
        },
        (RecoveryStep::ResumeRekey { target_epoch }, RecoveryEvent::Finished) => {
            Some(Ok(RecoveryStep::Done))
        },
        (RecoveryStep::Done, _) => None,
        (_, RecoveryEvent::Failed(e)) => Some(Err(e)),
        _ => None,
    }
}

/// Where recovery stands after the events so far; `None` once it has failed.
pub open spec fn recovery_run(
    mode: DbMode,
    f: MainDbHeaderFields,
    events: Seq<RecoveryEvent>,
) -> Option<RecoveryStep>
    decreases events.len(),
{
    if events.len() == 0 {
        match first_recovery(mode, f) {
            Ok(step) => Some(step),
            Err(_) => None,
        }
    } else {
        match recovery_run(mode, f, events.drop_last()) {
            None => None,
            Some(step) => match next_recovery(mode, step, events.last()) {
                Some(Ok(next)) => Some(next),
                _ => None,
            },
        }
    }
}

/// Whether a step writes to the store.
pub open spec fn mutates(step: RecoveryStep) -> bool {
    step is RetryApplyJournal || step is RemoveCompaction || step is RepairCatalog || step
        is ResumeRekey
}

/// A read-only handle recovers nothing: no step of its recovery writes to the
/// store. Of the writing steps a follower takes only the completion of an
/// interrupted apply.
pub proof fn law_recovery_respects_authority(
    mode: DbMode,
    f: MainDbHeaderFields,
    events: Seq<RecoveryEvent>,
)
    requires
        recovery_run(mode, f, events) is Some,
    ensures
        mode is ReadOnly || mode is Observer ==> !mutates(recovery_run(mode, f, events)->0),
        mode is Follower && mutates(recovery_run(mode, f, events)->0) ==> recovery_run(
            mode,
            f,
            events,
        )->0 is RetryApplyJournal,
    decreases events.len(),
{
    if events.len() > 0 {
        law_recovery_respects_authority(mode, f, events.drop_last());
    }
}

} // verus!
