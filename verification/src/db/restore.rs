//! Restoring a full snapshot into an empty directory.

use vstd::prelude::*;

use crate::catalog::SegmentMeta;
use crate::errors::{IoKind, PagedbError, Result};
use crate::header::MainDbHeaderFields;
use crate::read::ReadTxn;

use super::handle::{snapshot_of, Db, WriterState};
use super::manifest_validation::{SnapshotManifest, KIND_FULL};
use super::open::existing::{is_writer_of, law_reopen_restores_committed_state, records_state};
use super::snapshot::{
    check_restore_kind, claim_empty_destination, copy_fault, ids_of, is_full_export,
    screen_snapshot_segments, screened, segment_directory_may_be_missing, spelled_ids,
    validate_restored_snapshot, DestinationOwnership, FullExport, RestoredCopy,
};

verus! {

/// What a restore does next.
#[derive(Debug, Clone, Copy, PartialEq, Eq, Structural)]
pub enum RestoreStep {
    /// Look whether the destination is empty.
    ClaimDestination,
    /// Create the destination and its segment directory.
    CreateDirectories(DestinationOwnership),
    /// Copy the authenticated manifest.
    CopyManifest(DestinationOwnership),
    /// Copy the main file.
    CopyMainFile(DestinationOwnership),
    /// Copy the segment files, screening their names.
    CopySegments(DestinationOwnership),
    /// Open what was copied, read-only.
    OpenCopy(DestinationOwnership),
    /// Hold what was opened against the manifest.
    Validate(DestinationOwnership),
    /// The restored handle is usable.
    Done(ValidRestore),
}

/// A restored copy that was held against its manifest.
#[derive(Debug, Clone, Copy, PartialEq, Eq, Structural)]
pub struct ValidRestore {
    commit_id: u64,
}

impl ValidRestore {
    /// The commit that was restored.
    pub closed spec fn commit(&self) -> u64 {
        self.commit_id
    }

    /// The commit that was restored.
    pub fn commit_id(&self) -> (commit_id: u64)
        ensures
            commit_id == self.commit(),
    {
        self.commit_id
    }
}

/// A failed restore: the error to report, and what to remove first.
#[derive(Debug, PartialEq, Eq)]
pub struct RestoreFailure {
    pub error: PagedbError,
    /// What the restore claimed; `None` when nothing was touched.
    pub remove: Option<DestinationOwnership>,
}

/// What a step of a restore had claimed.
pub open spec fn claimed(step: RestoreStep) -> Option<DestinationOwnership> {
    match step {
        RestoreStep::ClaimDestination => None,
        RestoreStep::CreateDirectories(o) => Some(o),
        RestoreStep::CopyManifest(o) => Some(o),
        RestoreStep::CopyMainFile(o) => Some(o),
        RestoreStep::CopySegments(o) => Some(o),
        RestoreStep::OpenCopy(o) => Some(o),
        RestoreStep::Validate(o) => Some(o),
        RestoreStep::Done(_) => None,
    }
}

/// The step that follows one that succeeded. The claim and the validation have
/// functions of their own, and are not passed here.
pub open spec fn next_restore(step: RestoreStep) -> RestoreStep {
    match step {
        RestoreStep::CreateDirectories(o) => RestoreStep::CopyManifest(o),
        RestoreStep::CopyManifest(o) => RestoreStep::CopyMainFile(o),
        RestoreStep::CopyMainFile(o) => RestoreStep::CopySegments(o),
        RestoreStep::CopySegments(o) => RestoreStep::OpenCopy(o),
        RestoreStep::OpenCopy(o) => RestoreStep::Validate(o),
        RestoreStep::Validate(_) => step,
        RestoreStep::ClaimDestination => step,
        RestoreStep::Done(_) => step,
    }
}

/// What copying the segment files comes to. A missing directory is no segment
/// at all, which only a manifest that declares none accepts.
pub open spec fn segments_copied(
    listed: core::result::Result<Seq<Option<[u8; 16]>>, IoKind>,
    declared: u32,
) -> Result<()> {
    match listed {
        Ok(names) => screened(names, declared),
        Err(kind) => if kind is NotFound && declared == 0 {
            Ok(())
        } else {
            Err(PagedbError::Io(kind))
        },
    }
}

/// What copying the segment files comes to, from the names that the directory
/// lists.
pub fn restore_segments(
    listed: &core::result::Result<Vec<Option<[u8; 16]>>, IoKind>,
    manifest: &SnapshotManifest,
) -> (r: Result<()>)
    ensures
        r == segments_copied(
            match *listed {
                Ok(names) => Ok::<Seq<Option<[u8; 16]>>, IoKind>(names@),
                Err(kind) => Err::<Seq<Option<[u8; 16]>>, IoKind>(kind),
            },
            manifest.segments_count,
        ),
{
    match listed {
        Ok(names) => screen_snapshot_segments(names, manifest.segments_count),
        Err(kind) => if segment_directory_may_be_missing(*kind, manifest.segments_count) {
            Ok(())
        } else {
            Err(PagedbError::Io(*kind))
        },
    }
}

impl Db {
    /// Begins a restore with what reading and authenticating the manifest came
    /// to. Only a full snapshot is restored.
    pub fn restore_from(manifest: Result<SnapshotManifest>) -> (r: core::result::Result<
        RestoreStep,
        RestoreFailure,
    >)
        ensures
            r == match manifest {
                Err(e) => Err::<RestoreStep, RestoreFailure>(
                    RestoreFailure { error: e, remove: None },
                ),
                Ok(m) => if m.kind == KIND_FULL {
                    Ok::<RestoreStep, RestoreFailure>(RestoreStep::ClaimDestination)
                } else {
                    Err::<RestoreStep, RestoreFailure>(
                        RestoreFailure {
                            error: PagedbError::SnapshotIncompatible { field: "kind" },
                            remove: None,
                        },
                    )
                },
            },
    {
        match manifest {
            Err(error) => Err(RestoreFailure { error, remove: None }),
            Ok(m) => match check_restore_kind(&m) {
                Ok(()) => Ok(RestoreStep::ClaimDestination),
                Err(error) => Err(RestoreFailure { error, remove: None }),
            },
        }
    }

    /// Claims the destination, by what listing it came to.
    pub fn claim_restore(listed: core::result::Result<bool, IoKind>) -> (r: core::result::Result<
        RestoreStep,
        RestoreFailure,
    >)
        ensures
            r == match listed {
                Ok(true) => Err::<RestoreStep, RestoreFailure>(
                    RestoreFailure {
                        error: PagedbError::Io(IoKind::AlreadyExists),
                        remove: None,
                    },
                ),
                Ok(false) => Ok::<RestoreStep, RestoreFailure>(
                    RestoreStep::CreateDirectories(DestinationOwnership::PreExisting),
                ),
                Err(IoKind::NotFound) => Ok::<RestoreStep, RestoreFailure>(
                    RestoreStep::CreateDirectories(DestinationOwnership::Created),
                ),
                Err(kind) => Err::<RestoreStep, RestoreFailure>(
                    RestoreFailure { error: PagedbError::Io(kind), remove: None },
                ),
            },
    {
        match claim_empty_destination(listed) {
            Ok(ownership) => Ok(RestoreStep::CreateDirectories(ownership)),
            Err(error) => Err(RestoreFailure { error, remove: None }),
        }
    }

    /// Takes what a step of a restore came to and says what follows. From the
    /// claim on, a failure says what to remove before it is reported.
    pub fn advance_restore(step: RestoreStep, outcome: Result<()>) -> (r: core::result::Result<
        RestoreStep,
        RestoreFailure,
    >)
        ensures
            r == match outcome {
                Ok(()) => Ok::<RestoreStep, RestoreFailure>(next_restore(step)),
                Err(e) => Err::<RestoreStep, RestoreFailure>(
                    RestoreFailure { error: e, remove: claimed(step) },
                ),
            },
    {
        match outcome {
            Ok(()) => Ok(
                match step {
                    RestoreStep::ClaimDestination => step,
                    RestoreStep::CreateDirectories(o) => RestoreStep::CopyManifest(o),
                    RestoreStep::CopyManifest(o) => RestoreStep::CopyMainFile(o),
                    RestoreStep::CopyMainFile(o) => RestoreStep::CopySegments(o),
                    RestoreStep::CopySegments(o) => RestoreStep::OpenCopy(o),
                    RestoreStep::OpenCopy(o) => RestoreStep::Validate(o),
                    RestoreStep::Validate(_) => step,
                    RestoreStep::Done(_) => step,
                },
            ),
            Err(error) => {
                let remove: Option<DestinationOwnership> = match step {
                    RestoreStep::ClaimDestination => None,
                    RestoreStep::CreateDirectories(o) => Some(o),
                    RestoreStep::CopyManifest(o) => Some(o),
                    RestoreStep::CopyMainFile(o) => Some(o),
                    RestoreStep::CopySegments(o) => Some(o),
                    RestoreStep::OpenCopy(o) => Some(o),
                    RestoreStep::Validate(o) => Some(o),
                    RestoreStep::Done(_) => None,
                };
                Err(RestoreFailure { error, remove })
            },
        }
    }

    /// Holds the opened copy against its manifest. Nothing else ends a restore
    /// well.
    pub fn validate_restore(
        ownership: DestinationOwnership,
        manifest: &SnapshotManifest,
        copy: RestoredCopy,
    ) -> (r: core::result::Result<RestoreStep, RestoreFailure>)
        ensures
            match copy_fault(*manifest, copy) {
                Some(e) => r == Err::<RestoreStep, RestoreFailure>(
                    RestoreFailure { error: e, remove: Some(ownership) },
                ),
                None => {
                    &&& r is Ok
                    &&& r->Ok_0 is Done
                    &&& r->Ok_0->Done_0.commit() == manifest.target_commit
                },
            },
    {
        match validate_restored_snapshot(manifest, copy) {
            Ok(()) => Ok(RestoreStep::Done(ValidRestore { commit_id: manifest.target_commit })),
            Err(error) => Err(RestoreFailure { error, remove: Some(ownership) }),
        }
    }
}

/// The step that `n` successes lead to from the claim.
pub open spec fn restore_after(ownership: DestinationOwnership, n: nat) -> RestoreStep
    decreases n,
{
    if n == 0 {
        RestoreStep::CreateDirectories(ownership)
    } else {
        next_restore(restore_after(ownership, (n - 1) as nat))
    }
}

/// A restore goes through its copies to the validation, which no success of a
/// step passes over: a handle is handed out only where the copy was held against
/// the manifest. Whatever fails before that removes exactly what was claimed: the
/// directory that it made, or the contents of the one it found.
pub proof fn law_failed_restore_leaves_nothing(ownership: DestinationOwnership, n: nat)
    ensures
        claimed(restore_after(ownership, n)) == Some(ownership),
        n >= 5 ==> restore_after(ownership, n) == RestoreStep::Validate(ownership),
        !(restore_after(ownership, n) is Done),
    decreases n,
{
    reveal_with_fuel(restore_after, 7);
    if n > 5 {
        law_failed_restore_leaves_nothing(ownership, (n - 1) as nat);
    }
}

/// A full export restores: what it writes down of a pinned state is what a
/// restore asks of the copy. The manifest is one that is restored, the segment
/// files pass the screen, and the copy that is opened passes the validation, so
/// the restore ends well.
///
/// `header` records the state that was pinned and is the live one of the copied
/// main file, `reopened` is the state of a handle opened on the copy. The copy's
/// files are the exported segments, no two of which have one id, and its trees and
/// segments can be read.
pub proof fn law_full_export_restores(
    db: Db,
    pinned: WriterState,
    txn: ReadTxn,
    segments: Seq<SegmentMeta>,
    export: FullExport,
    header: MainDbHeaderFields,
    reopened: WriterState,
    names: Seq<Option<[u8; 16]>>,
    copy: RestoredCopy,
)
    requires
        txn.commit_id.0 == pinned.latest_commit_id,
        txn.root_page_id == pinned.root_page_id,
        txn.next_page_id == pinned.next_page_id,
        txn.catalog_root_page_id == pinned.catalog_root_page_id,
        is_full_export(db, txn, segments, export),
        segments.len() <= u32::MAX,
        segments.map_values(|m: SegmentMeta| m.segment_id).no_duplicates(),
        records_state(header, pinned),
        is_writer_of(reopened, header),
        names == export.segment_ids@.map_values(|id: [u8; 16]| Some(id)),
        copy.snapshot == snapshot_of(reopened),
        copy.walked is Ok,
        copy.segments is Ok && copy.segments->Ok_0@ == segments,
        copy.files is Ok && copy.files->Ok_0@ == names,
        copy.read_through is Ok,
    ensures
        export.manifest.kind == KIND_FULL,
        segments_copied(Ok(names), export.manifest.segments_count) == Ok::<(), PagedbError>(()),
        copy_fault(export.manifest, copy) is None,
{
    law_reopen_restores_committed_state(pinned, header, reopened);
    let ids = segments.map_values(|m: SegmentMeta| m.segment_id);
    assert(export.segment_ids@ == ids);
    assert(names.len() == segments.len());
    assert forall|i: int| 0 <= i < names.len() implies (#[trigger] names[i]) is Some by {}
    assert(spelled_ids(names) =~= ids_of(segments)) by {
        assert forall|id: [u8; 16]| spelled_ids(names).contains(id) <==> ids_of(
            segments,
        ).contains(id) by {
            if names.contains(Some(id)) {
                let i = names.index_of(Some(id));
                assert(ids[i] == id);
            }
            if ids.contains(id) {
                let i = ids.index_of(id);
                assert(names[i] == Some(id));
            }
        }
    }
    ids.unique_seq_to_set();
}

} // verus!
