//! The course of an incremental apply.
//!
//! The target state is assembled in a staged copy of the main file and renamed
//! over it. That rename is the only commit point: an apply interrupted before
//! it leaves the follower wholly at its base commit, and one interrupted after
//! it leaves the follower wholly at the target.

use vstd::prelude::*;

use crate::catalog::SegmentMeta;
use crate::errors::{PagedbError, Result};
use crate::header::MainDbHeaderFields;
use crate::ids::ActiveSlot;
use crate::mode::DbMode;
use crate::sets::{PageSet, SegmentSet};
use crate::tree::{BTree, TreePages};

use super::handle::{poison_kept, snapshot_of, Db};
use super::history_carry::{
    adopt_relocated_history, carry_decision, relocated, CarriedHistory, CarryDecision,
};
use super::manifest_validation::{
    all_zero, check_manifest_length, manifest_fault, AdmittedManifest, MeasuredManifest,
    SnapshotManifest, MANIFEST_LEN,
};
use super::reclaim::{entries_kept, fold_outcome, folded_entries, tagged, FreeListFold};
use super::segment::JournalAction;
use super::snapshot::{
    apply_actions, apply_alloc_cursor, delta_fault, delta_pages, ids_of, installed, is_apply_header, plan_apply,
    planned_actions, size_of_difference, staged_target, swapped, target_image, ApplyPlan,
    ApplyTail, StagedTarget, SwapOutcome,
};

verus! {

/// What an apply came to.
#[derive(Debug, Clone, Copy, PartialEq, Eq, Structural)]
pub struct ApplyStats {
    pub pages_applied: u64,
    pub segments_promoted: u32,
    pub segments_tombstoned: u32,
}

/// The base that an apply starts from, as its readers see it.
pub struct ApplyBase {
    pub manifest: AdmittedManifest,
    /// The pages that a reader of the base reaches.
    pub visible: PageSet,
    /// The segments that the base's catalog names.
    pub segments: SegmentSet,
}

/// A target whose staged image is what its delta claims.
pub struct ApplyTarget {
    pub manifest: AdmittedManifest,
    /// The pages that the delta writes.
    pub delta: PageSet,
    /// The pages that the target's roots reach.
    pub target: PageSet,
    pub plan: ApplyPlan,
}

/// A target whose new segments are staged too.
pub struct StagedApply {
    pub manifest: AdmittedManifest,
    pub delta: PageSet,
    pub target: PageSet,
    /// The pages that the target no longer needs.
    pub reclaimed: PageSet,
    /// What is left to do with the segments once the target is installed.
    pub actions: Vec<JournalAction>,
    pub stats: ApplyStats,
}

/// What an incremental apply does next, with what it has come to so far.
pub enum ApplyStep {
    /// Reconcile the journal of an earlier apply, if one is pending.
    RetryJournal,
    /// Remove the image that an interrupted apply may have left. It is never
    /// resumed: its base may predate the commit this one starts from.
    DiscardStagedImage,
    /// Say how long the manifest's file is.
    MeasureManifest,
    /// Read and authenticate the manifest.
    ReadManifest(MeasuredManifest),
    /// Walk the trees of the published base.
    WalkBase(AdmittedManifest),
    /// Count the segment files that came with the delta.
    CountSegments(ApplyBase),
    /// Frame and screen the whole delta before a byte of it is copied.
    PlanDelta(ApplyBase),
    /// Copy the main file beside itself and write the delta into the copy.
    StageImage { base: ApplyBase, delta: PageSet },
    /// Walk the target's trees in the staged image.
    WalkTarget { base: ApplyBase, delta: PageSet, pages_applied: u64 },
    /// Copy the new segment files to where they can be promoted from, and read
    /// them through.
    StageSegments { target: ApplyTarget, pages_applied: u64 },
    /// Take the writer, let no further readers in, and walk the history.
    LockWriter(StagedApply),
    /// Load the history onto fresh pages, from the cursor on: the delta writes
    /// over those it is on.
    MoveHistory { staged: StagedApply, released: PageSet, next_page_id: u64 },
    /// Read the free-list chain.
    ReadChain { staged: StagedApply, carried: CarriedHistory },
    /// Write the free-list chain anew.
    WriteChain {
        staged: StagedApply,
        carried: CarriedHistory,
        entries: Vec<(u64, u64)>,
        host_candidates: Vec<u64>,
        next_page_id: u64,
    },
    /// Say how long the staged image is.
    MeasureImage {
        staged: StagedApply,
        carried: CarriedHistory,
        free_list_root_page_id: u64,
        next_page_id: u64,
    },
    /// Give the staged image its extent and write what was moved into it.
    FlushImage {
        staged: StagedApply,
        carried: CarriedHistory,
        free_list_root_page_id: u64,
        next_page_id: u64,
        grow_to: Option<u64>,
    },
    /// Write the journal of what is left to do with the segments.
    WriteJournal {
        staged: StagedApply,
        carried: CarriedHistory,
        free_list_root_page_id: u64,
        next_page_id: u64,
    },
    /// Say which nonce anchor is pending.
    ReadAnchor { staged: StagedApply, image: StagedTarget },
    /// Write the target's header into the staged image.
    WriteHeader { staged: StagedApply, image: StagedTarget, fields: MainDbHeaderFields },
    /// Rename the staged image over the main file, and what follows that.
    Swap { staged: StagedApply, image: StagedTarget, slot: ActiveSlot, seq: u64 },
    /// Reconcile the segments with the target, by the journal.
    ReconcileJournal(ApplyStats),
    /// The target is published.
    Done(ApplyStats),
}

/// What a step of an apply came to.
pub enum ApplyEvent {
    /// It failed.
    Failed(PagedbError),
    /// It is done, and there is nothing to say of it.
    Finished,
    ManifestMeasured(u64),
    /// The manifest and its reserved bytes.
    ManifestDecoded(SnapshotManifest, Vec<u8>),
    BaseWalked(PageSet, SegmentSet),
    /// The pages that the delta writes.
    DeltaPlanned(PageSet),
    /// How many pages were written into the image.
    ImageStaged(u64),
    TargetWalked(PageSet, Vec<SegmentMeta>),
    SegmentsStaged(Vec<[u8; 16]>),
    /// The pages that hold the history.
    WriterLocked(PageSet),
    /// Where the history went, and how many rows it has.
    HistoryMoved(TreePages, u64),
    /// The entries of the chain, the pages that hold it, and the rows of the
    /// history.
    ChainRead(Vec<(u64, u64)>, Vec<u64>, BTree<Vec<u8>>),
    ChainWritten { free_list_root_page_id: u64, next_page_id: u64 },
    ImageMeasured(u64),
    JournalWritten([u8; 16]),
    AnchorRead(u64),
    HeaderWritten(ActiveSlot),
    Swapped { renamed: bool, directory_synced: bool, anchored: bool },
}

/// A failed apply: the error to report, and whether what was staged is to be
/// discarded first, cached pages included.
#[derive(Debug, PartialEq, Eq)]
pub struct ApplyFailure {
    pub error: PagedbError,
    pub discard: bool,
}

/// An incremental apply that is under way. It is begun by
/// [`Db::apply_incremental`] and goes on by [`Db::stage_and_swap_incremental`]
/// alone.
pub struct Apply {
    step: ApplyStep,
}

impl View for Apply {
    type V = ApplyStep;

    closed spec fn view(&self) -> ApplyStep {
        self.step
    }
}

/// The cursor that an apply allocates from: past the target's pages and past
/// the follower's own.
pub open spec fn alloc_cursor(db: Db, m: SnapshotManifest) -> u64 {
    if m.next_page_id_at_target >= db.writer.next_page_id {
        m.next_page_id_at_target
    } else {
        db.writer.next_page_id
    }
}

/// Whether an event is an answer to a step. The rename has no failure but those
/// that its own answer tells of, and a history is moved nowhere but to the pages
/// from the cursor on.
pub open spec fn answers(step: ApplyStep, event: ApplyEvent) -> bool {
    match event {
        ApplyEvent::Failed(_) => !(step is Swap || step is Done),
        ApplyEvent::Finished => step is RetryJournal || step is DiscardStagedImage
            || step is CountSegments || step is FlushImage || step is ReconcileJournal,
        ApplyEvent::ManifestMeasured(_) => step is MeasureManifest,
        ApplyEvent::ManifestDecoded(_, _) => step is ReadManifest,
        ApplyEvent::BaseWalked(_, _) => step is WalkBase,
        ApplyEvent::DeltaPlanned(_) => step is PlanDelta,
        ApplyEvent::ImageStaged(_) => step is StageImage,
        ApplyEvent::TargetWalked(_, _) => step is WalkTarget,
        ApplyEvent::SegmentsStaged(_) => step is StageSegments,
        ApplyEvent::WriterLocked(_) => step is LockWriter,
        ApplyEvent::HistoryMoved(pages, _) => step is MoveHistory && (pages.root_page_id == 0
            || pages.root_page_id >= step->MoveHistory_next_page_id),
        ApplyEvent::ChainRead(_, _, _) => step is ReadChain,
        ApplyEvent::ChainWritten { .. } => step is WriteChain,
        ApplyEvent::ImageMeasured(_) => step is MeasureImage,
        ApplyEvent::JournalWritten(_) => step is WriteJournal,
        ApplyEvent::AnchorRead(_) => step is ReadAnchor,
        ApplyEvent::HeaderWritten(_) => step is WriteHeader,
        ApplyEvent::Swapped { .. } => step is Swap,
    }
}

/// Whether what an event brings are sets, and the history is the handle's.
pub open spec fn event_wf(db: Db, event: ApplyEvent) -> bool {
    match event {
        ApplyEvent::BaseWalked(visible, segments) => visible.wf() && segments.wf(),
        ApplyEvent::DeltaPlanned(delta) => delta.wf(),
        ApplyEvent::TargetWalked(target, _) => target.wf(),
        ApplyEvent::WriterLocked(occupied) => occupied.wf(),
        ApplyEvent::ChainRead(_, _, history) => {
            &&& history.wf()
            &&& db.writer.commit_history_root_page_id != 0 ==> history.root()
                == db.writer.commit_history_root_page_id
        },
        _ => true,
    }
}

impl ApplyBase {
    /// The sets are sets.
    pub open spec fn wf(&self) -> bool {
        self.visible.wf() && self.segments.wf()
    }
}

impl ApplyTarget {
    /// The sets are sets, and as many segments are retired as are counted.
    pub open spec fn wf(&self) -> bool {
        &&& self.delta.wf()
        &&& self.target.wf()
        &&& self.plan.reclaimed.wf()
        &&& self.plan.promoted.wf()
        &&& self.plan.tombstoned.wf()
        &&& self.plan.segments_tombstoned == self.plan.tombstoned.list().len()
    }
}

impl StagedApply {
    /// The sets are sets.
    pub open spec fn wf(&self) -> bool {
        self.delta.wf() && self.target.wf() && self.reclaimed.wf()
    }

    /// Whether anything is left to do with segments once the target is
    /// installed.
    pub open spec fn leaves_work(&self) -> bool {
        self.actions@.len() != 0
    }

    /// Whether an image is the one that the manifest names, with a journal
    /// exactly where something is left to do.
    pub open spec fn is_image(&self, image: StagedTarget) -> bool {
        &&& image.commit_id == self.manifest@.target_commit
        &&& image.root_page_id == self.manifest@.target_active_root_page_id
        &&& image.catalog_root_page_id == self.manifest@.target_catalog_root_page_id
        &&& !self.leaves_work() ==> all_zero(image.journal_id@)
    }
}

/// What holds of every step: its sets are sets, and an image is that of its
/// manifest.
pub open spec fn step_wf(step: ApplyStep) -> bool {
    match step {
        ApplyStep::ReadManifest(m) => m.len() == MANIFEST_LEN,
        ApplyStep::CountSegments(base) => base.wf(),
        ApplyStep::PlanDelta(base) => base.wf(),
        ApplyStep::StageImage { base, delta } => base.wf() && delta.wf(),
        ApplyStep::WalkTarget { base, delta, .. } => base.wf() && delta.wf(),
        ApplyStep::StageSegments { target, .. } => target.wf(),
        ApplyStep::LockWriter(staged) => staged.wf(),
        ApplyStep::MoveHistory { staged, released, .. } => staged.wf() && released.wf(),
        ApplyStep::ReadChain { staged, carried } => staged.wf() && carried.released_page_ids.wf(),
        ApplyStep::WriteChain { staged, .. } => staged.wf(),
        ApplyStep::MeasureImage { staged, .. } => staged.wf(),
        ApplyStep::FlushImage { staged, .. } => staged.wf(),
        ApplyStep::WriteJournal { staged, .. } => staged.wf() && staged.leaves_work(),
        ApplyStep::ReadAnchor { staged, image } => staged.wf() && staged.is_image(image),
        ApplyStep::WriteHeader { staged, image, .. } => staged.wf() && staged.is_image(image),
        ApplyStep::Swap { staged, image, .. } => staged.wf() && staged.is_image(image),
        _ => true,
    }
}

/// Whether an apply ends with `error`, and what was staged is discarded.
pub open spec fn ends_with(
    r: core::result::Result<ApplyStep, ApplyFailure>,
    error: PagedbError,
) -> bool {
    r == Err::<ApplyStep, ApplyFailure>(ApplyFailure { error, discard: true })
}

/// What holding a staged target against its delta comes to.
pub open spec fn target_held(
    base: ApplyBase,
    delta: PageSet,
    target: PageSet,
    metas: Seq<SegmentMeta>,
    r: Result<ApplyTarget>,
) -> bool {
    let ids = ids_of(metas);
    let fault = delta_fault(
        base.manifest@,
        delta@,
        target@,
        base.visible@,
        size_of_difference(ids, base.segments@),
        size_of_difference(base.segments@, ids),
    );
    match r {
        Ok(a) => {
            &&& fault is None
            &&& a.manifest == base.manifest
            &&& a.delta == delta
            &&& a.target == target
            &&& a.wf()
            &&& a.plan.reclaimed@ == base.visible@.difference(target@)
            &&& a.plan.promoted@ == ids.difference(base.segments@)
            &&& a.plan.tombstoned@ == base.segments@.difference(ids)
        },
        Err(e) => fault == Some(e),
    }
}

/// What an apply goes on with once the new segments are staged.
pub open spec fn segments_staged(
    target: ApplyTarget,
    ids: Seq<[u8; 16]>,
    pages_applied: u64,
    r: Result<StagedApply>,
) -> bool {
    match r {
        Ok(s) => {
            &&& ids.len() <= u32::MAX
            &&& s.wf()
            &&& s.manifest == target.manifest
            &&& s.delta == target.delta
            &&& s.target == target.target
            &&& s.reclaimed == target.plan.reclaimed
            &&& s.actions@ == planned_actions(
                ids,
                target.plan.tombstoned.list(),
                target.manifest@.target_commit,
            )
            &&& s.stats == (ApplyStats {
                pages_applied,
                segments_promoted: ids.len() as u32,
                segments_tombstoned: target.plan.segments_tombstoned,
            })
        },
        Err(e) => ids.len() > u32::MAX && e == (PagedbError::SnapshotIncompatible {
            field: "segments_count",
        }),
    }
}

/// What folding the free list comes to: what the target gives up and what a
/// moved history left go into it.
pub open spec fn chain_folded(
    db: Db,
    before: StagedApply,
    carried: CarriedHistory,
    existing: Seq<(u64, u64)>,
    chain_pages: Seq<u64>,
    history: Seq<(Seq<u8>, Seq<u8>)>,
    r: Result<FreeListFold>,
    after: StagedApply,
) -> bool {
    &&& after.wf()
    &&& after == (StagedApply { reclaimed: after.reclaimed, ..before })
    &&& after.reclaimed@ == before.reclaimed@.union(carried.released_page_ids@)
    &&& fold_outcome(
        db,
        db.writer,
        existing,
        chain_pages,
        after.reclaimed,
        before.target@,
        before.manifest@.target_commit,
        carried.next_page_id,
        history,
        r,
    )
}

/// The step after the chain was folded.
pub open spec fn after_fold(
    fold: Result<FreeListFold>,
    staged: StagedApply,
    carried: CarriedHistory,
    r: core::result::Result<ApplyStep, ApplyFailure>,
) -> bool {
    match fold {
        Err(e) => ends_with(r, e),
        Ok(FreeListFold::Unchanged { free_list_root_page_id, next_page_id }) => r == Ok::<
            ApplyStep,
            ApplyFailure,
        >(ApplyStep::MeasureImage { staged, carried, free_list_root_page_id, next_page_id }),
        Ok(FreeListFold::Rewrite { entries, host_candidates, next_page_id }) => r == Ok::<
            ApplyStep,
            ApplyFailure,
        >(ApplyStep::WriteChain { staged, carried, entries, host_candidates, next_page_id }),
    }
}

/// How a swap went, by the header that the staged image has.
pub open spec fn swap_of(
    slot: ActiveSlot,
    seq: u64,
    renamed: bool,
    directory_synced: bool,
    anchored: bool,
) -> SwapOutcome {
    SwapOutcome { renamed, directory_synced, slot, seq, anchored }
}

/// The step after the swap.
pub open spec fn after_swap(
    tail: Result<ApplyTail>,
    stats: ApplyStats,
    r: core::result::Result<ApplyStep, ApplyFailure>,
) -> bool {
    match tail {
        Err(e) => ends_with(r, e),
        Ok(ApplyTail::ReconcileJournal) => r == Ok::<ApplyStep, ApplyFailure>(
            ApplyStep::ReconcileJournal(stats),
        ),
        Ok(ApplyTail::Published) => r == Ok::<ApplyStep, ApplyFailure>(ApplyStep::Done(stats)),
    }
}

/// What follows a step and its event, and what it leaves of the handle: nothing
/// changes before the swap.
pub open spec fn apply_goes_on(
    before: Db,
    step: ApplyStep,
    event: ApplyEvent,
    r: core::result::Result<ApplyStep, ApplyFailure>,
    after: Db,
) -> bool {
    &&& !(step is Swap) ==> after == before
    &&& match (step, event) {
        (ApplyStep::DiscardStagedImage, ApplyEvent::Failed(_)) => r == Ok::<
            ApplyStep,
            ApplyFailure,
        >(ApplyStep::MeasureManifest),
        (ApplyStep::RetryJournal, ApplyEvent::Failed(e)) => r == Err::<ApplyStep, ApplyFailure>(
            ApplyFailure { error: e, discard: false },
        ),
        (_, ApplyEvent::Failed(e)) => ends_with(r, e),
        (ApplyStep::RetryJournal, _) => r == Ok::<ApplyStep, ApplyFailure>(
            ApplyStep::DiscardStagedImage,
        ),
        (ApplyStep::DiscardStagedImage, _) => r == Ok::<ApplyStep, ApplyFailure>(
            ApplyStep::MeasureManifest,
        ),
        (ApplyStep::MeasureManifest, ApplyEvent::ManifestMeasured(len)) => if len
            == MANIFEST_LEN {
            r is Ok && r->Ok_0 is ReadManifest
        } else {
            ends_with(r, PagedbError::SnapshotArtifactInvalid { field: "manifest.length" })
        },
        (ApplyStep::ReadManifest(_), ApplyEvent::ManifestDecoded(m, reserved)) => {
            match manifest_fault(before, m, reserved@) {
                Some(field) => ends_with(r, PagedbError::SnapshotIncompatible { field }),
                None => r is Ok && r->Ok_0 is WalkBase && r->Ok_0->WalkBase_0@ == m,
            }
        },
        (ApplyStep::WalkBase(manifest), ApplyEvent::BaseWalked(visible, segments)) => r == Ok::<
            ApplyStep,
            ApplyFailure,
        >(ApplyStep::CountSegments(ApplyBase { manifest, visible, segments })),
        (ApplyStep::CountSegments(base), _) => r == Ok::<ApplyStep, ApplyFailure>(
            ApplyStep::PlanDelta(base),
        ),
        (ApplyStep::PlanDelta(base), ApplyEvent::DeltaPlanned(delta)) => r == Ok::<
            ApplyStep,
            ApplyFailure,
        >(ApplyStep::StageImage { base, delta }),
        (ApplyStep::StageImage { base, delta }, ApplyEvent::ImageStaged(pages_applied)) => r
            == Ok::<ApplyStep, ApplyFailure>(
            ApplyStep::WalkTarget { base, delta, pages_applied },
        ),
        (
            ApplyStep::WalkTarget { base, delta, pages_applied },
            ApplyEvent::TargetWalked(target, metas),
        ) => exists|held: Result<ApplyTarget>|
            {
                &&& #[trigger] target_held(base, delta, target, metas@, held)
                &&& match held {
                    Ok(target) => r == Ok::<ApplyStep, ApplyFailure>(
                        ApplyStep::StageSegments { target, pages_applied },
                    ),
                    Err(e) => ends_with(r, e),
                }
            },
        (
            ApplyStep::StageSegments { target, pages_applied },
            ApplyEvent::SegmentsStaged(ids),
        ) => exists|staged: Result<StagedApply>|
            {
                &&& #[trigger] segments_staged(target, ids@, pages_applied, staged)
                &&& match staged {
                    Ok(staged) => r == Ok::<ApplyStep, ApplyFailure>(ApplyStep::LockWriter(staged)),
                    Err(e) => ends_with(r, e),
                }
            },
        (ApplyStep::LockWriter(staged), ApplyEvent::WriterLocked(occupied)) => {
            if before.poisoned_commit is Some {
                ends_with(
                    r,
                    PagedbError::DurablyCommittedButUnpublished {
                        commit: before.poisoned_commit->0,
                    },
                )
            } else {
                exists|decision: CarryDecision|
                    {
                        &&& #[trigger] carry_decision(
                            before.writer,
                            occupied@,
                            staged.delta@,
                            staged.target@,
                            alloc_cursor(before, staged.manifest@),
                            decision,
                        )
                        &&& r == Ok::<ApplyStep, ApplyFailure>(
                            match decision {
                                CarryDecision::Unmoved(carried) => ApplyStep::ReadChain {
                                    staged,
                                    carried,
                                },
                                CarryDecision::Relocate { released_page_ids } => {
                                    ApplyStep::MoveHistory {
                                        staged,
                                        released: released_page_ids,
                                        next_page_id: alloc_cursor(before, staged.manifest@),
                                    }
                                },
                            },
                        )
                    }
            }
        },
        (
            ApplyStep::MoveHistory { staged, released, next_page_id },
            ApplyEvent::HistoryMoved(pages, rows),
        ) => r == Ok::<ApplyStep, ApplyFailure>(
            ApplyStep::ReadChain {
                staged,
                carried: relocated(
                    pages,
                    staged.manifest@.target_commit,
                    rows,
                    next_page_id,
                    released,
                ),
            },
        ),
        (
            ApplyStep::ReadChain { staged, carried },
            ApplyEvent::ChainRead(existing, chain_pages, history),
        ) => exists|fold: Result<FreeListFold>, folded: StagedApply|
            {
                &&& #[trigger] chain_folded(
                    before,
                    staged,
                    carried,
                    existing@,
                    chain_pages@,
                    history@,
                    fold,
                    folded,
                )
                &&& after_fold(fold, folded, carried, r)
            },
        (
            ApplyStep::WriteChain { staged, carried, .. },
            ApplyEvent::ChainWritten { free_list_root_page_id, next_page_id },
        ) => r == Ok::<ApplyStep, ApplyFailure>(
            ApplyStep::MeasureImage { staged, carried, free_list_root_page_id, next_page_id },
        ),
        (
            ApplyStep::MeasureImage { staged, carried, free_list_root_page_id, next_page_id },
            ApplyEvent::ImageMeasured(len),
        ) => {
            let extent = next_page_id * before.page_size;
            if extent > u64::MAX {
                ends_with(r, PagedbError::ArithmeticOverflow { what: "main.db extent" })
            } else {
                r == Ok::<ApplyStep, ApplyFailure>(
                    ApplyStep::FlushImage {
                        staged,
                        carried,
                        free_list_root_page_id,
                        next_page_id,
                        grow_to: if len >= extent {
                            None
                        } else {
                            Some(extent as u64)
                        },
                    },
                )
            }
        },
        (
            ApplyStep::FlushImage {
                staged,
                carried,
                free_list_root_page_id,
                next_page_id,
                grow_to,
            },
            _,
        ) => if staged.leaves_work() {
            r == Ok::<ApplyStep, ApplyFailure>(
                ApplyStep::WriteJournal { staged, carried, free_list_root_page_id, next_page_id },
            )
        } else {
            &&& r is Ok
            &&& r->Ok_0 == (ApplyStep::ReadAnchor {
                staged,
                image: target_image(
                    staged.manifest@,
                    carried,
                    free_list_root_page_id,
                    next_page_id,
                    r->Ok_0->ReadAnchor_image.journal_id,
                ),
            })
            &&& all_zero(r->Ok_0->ReadAnchor_image.journal_id@)
        },
        (
            ApplyStep::WriteJournal { staged, carried, free_list_root_page_id, next_page_id },
            ApplyEvent::JournalWritten(id),
        ) => r == Ok::<ApplyStep, ApplyFailure>(
            ApplyStep::ReadAnchor {
                staged,
                image: target_image(
                    staged.manifest@,
                    carried,
                    free_list_root_page_id,
                    next_page_id,
                    id,
                ),
            },
        ),
        (ApplyStep::ReadAnchor { staged, image }, ApplyEvent::AnchorRead(anchor)) => {
            if before.header_cursor.seq == u64::MAX {
                ends_with(r, PagedbError::ArithmeticOverflow { what: "header sequence" })
            } else if !before.page_size_supported() {
                ends_with(r, PagedbError::Unsupported)
            } else {
                &&& r is Ok
                &&& r->Ok_0 is WriteHeader
                &&& r->Ok_0 == (ApplyStep::WriteHeader {
                    staged,
                    image,
                    fields: r->Ok_0->WriteHeader_fields,
                })
                &&& is_apply_header(
                    before,
                    before.writer,
                    image,
                    (before.header_cursor.seq + 1) as u64,
                    anchor,
                    r->Ok_0->WriteHeader_fields,
                )
            }
        },
        (
            ApplyStep::WriteHeader { staged, image, fields },
            ApplyEvent::HeaderWritten(slot),
        ) => r == Ok::<ApplyStep, ApplyFailure>(
            ApplyStep::Swap { staged, image, slot, seq: fields.seq },
        ),
        (
            ApplyStep::Swap { staged, image, slot, seq },
            ApplyEvent::Swapped { renamed, directory_synced, anchored },
        ) => exists|tail: Result<ApplyTail>|
            {
                &&& #[trigger] swapped(
                    before,
                    image,
                    staged.leaves_work(),
                    swap_of(slot, seq, renamed, directory_synced, anchored),
                    tail,
                    after,
                )
                &&& after_swap(tail, staged.stats, r)
            },
        (ApplyStep::ReconcileJournal(stats), _) => r == Ok::<ApplyStep, ApplyFailure>(
            ApplyStep::Done(stats),
        ),
        _ => false,
    }
}

/// The step that an apply came to, or how it ended.
pub open spec fn outcome_of(r: core::result::Result<Apply, ApplyFailure>) -> core::result::Result<
    ApplyStep,
    ApplyFailure,
> {
    match r {
        Ok(apply) => Ok(apply@),
        Err(failure) => Err(failure),
    }
}

impl Apply {
    #[verifier::type_invariant]
    spec fn inv(self) -> bool {
        step_wf(self.step)
    }

    /// What the apply does next.
    pub fn step(&self) -> (step: &ApplyStep)
        ensures
            *step == self@,
    {
        &self.step
    }

    /// Whether an event is an answer to what the apply does next.
    pub fn is_answered_by(&self, event: &ApplyEvent) -> (yes: bool)
        ensures
            yes == answers(self@, *event),
    {
        match event {
            ApplyEvent::Failed(_) => !matches!(
                self.step,
                ApplyStep::Swap { .. } | ApplyStep::Done(_)
            ),
            ApplyEvent::Finished => matches!(
                self.step,
                ApplyStep::RetryJournal | ApplyStep::DiscardStagedImage | ApplyStep::CountSegments(
                    _,
                ) | ApplyStep::FlushImage { .. } | ApplyStep::ReconcileJournal(_)
            ),
            ApplyEvent::ManifestMeasured(_) => matches!(self.step, ApplyStep::MeasureManifest),
            ApplyEvent::ManifestDecoded(_, _) => matches!(self.step, ApplyStep::ReadManifest(_)),
            ApplyEvent::BaseWalked(_, _) => matches!(self.step, ApplyStep::WalkBase(_)),
            ApplyEvent::DeltaPlanned(_) => matches!(self.step, ApplyStep::PlanDelta(_)),
            ApplyEvent::ImageStaged(_) => matches!(self.step, ApplyStep::StageImage { .. }),
            ApplyEvent::TargetWalked(_, _) => matches!(self.step, ApplyStep::WalkTarget { .. }),
            ApplyEvent::SegmentsStaged(_) => matches!(self.step, ApplyStep::StageSegments { .. }),
            ApplyEvent::WriterLocked(_) => matches!(self.step, ApplyStep::LockWriter(_)),
            ApplyEvent::HistoryMoved(pages, _) => match &self.step {
                ApplyStep::MoveHistory { next_page_id, .. } => pages.root_page_id == 0
                    || pages.root_page_id >= *next_page_id,
                _ => false,
            },
            ApplyEvent::ChainRead(_, _, _) => matches!(self.step, ApplyStep::ReadChain { .. }),
            ApplyEvent::ChainWritten { .. } => matches!(self.step, ApplyStep::WriteChain { .. }),
            ApplyEvent::ImageMeasured(_) => matches!(self.step, ApplyStep::MeasureImage { .. }),
            ApplyEvent::JournalWritten(_) => matches!(self.step, ApplyStep::WriteJournal { .. }),
            ApplyEvent::AnchorRead(_) => matches!(self.step, ApplyStep::ReadAnchor { .. }),
            ApplyEvent::HeaderWritten(_) => matches!(self.step, ApplyStep::WriteHeader { .. }),
            ApplyEvent::Swapped { .. } => matches!(self.step, ApplyStep::Swap { .. }),
        }
    }
}

fn go_on(step: ApplyStep) -> (r: core::result::Result<Apply, ApplyFailure>)
    requires
        step_wf(step),
    ensures
        outcome_of(r) == Ok::<ApplyStep, ApplyFailure>(step),
        r is Ok ==> step_wf(r->Ok_0@),
{
    Ok(Apply { step })
}

fn give_up(error: PagedbError) -> (r: core::result::Result<Apply, ApplyFailure>)
    ensures
        ends_with(outcome_of(r), error),
        r is Err,
{
    Err(ApplyFailure { error, discard: true })
}

impl ApplyBase {
    /// Holds a staged target against what its delta claims of it. `delta` are
    /// the pages that the delta writes, `target` those that the target's roots
    /// reach.
    pub fn authenticate_target(
        &self,
        delta: PageSet,
        target: PageSet,
        target_segments: &Vec<SegmentMeta>,
    ) -> (r: Result<ApplyTarget>)
        requires
            self.wf(),
            delta.wf(),
            target.wf(),
        ensures
            target_held(*self, delta, target, target_segments@, r),
    {
        match plan_apply(
            self.manifest.get(),
            &delta,
            &target,
            &self.visible,
            target_segments,
            &self.segments,
        ) {
            Ok(plan) => Ok(ApplyTarget { manifest: self.manifest, delta, target, plan }),
            Err(e) => Err(e),
        }
    }
}

impl ApplyTarget {
    /// Goes on once the new segments are staged: `staged` are their ids,
    /// `pages_applied` how many pages the delta wrote.
    pub fn stage_segments(self, staged: &Vec<[u8; 16]>, pages_applied: u64) -> (r: Result<
        StagedApply,
    >)
        requires
            self.wf(),
        ensures
            segments_staged(self, staged@, pages_applied, r),
    {
        if staged.len() as u64 > u32::MAX as u64 {
            return Err(PagedbError::SnapshotIncompatible { field: "segments_count" });
        }
        let stats: ApplyStats = ApplyStats {
            pages_applied,
            segments_promoted: staged.len() as u32,
            segments_tombstoned: self.plan.segments_tombstoned,
        };
        let actions: Vec<JournalAction> = apply_actions(
            staged,
            &self.plan.tombstoned,
            self.manifest.get().target_commit,
        );
        Ok(
            StagedApply {
                manifest: self.manifest,
                delta: self.delta,
                target: self.target,
                reclaimed: self.plan.reclaimed,
                actions,
                stats,
            },
        )
    }
}

impl StagedApply {
    /// Whether anything is left to do with segments once the target is
    /// installed.
    pub fn has_actions(&self) -> (has: bool)
        ensures
            has == self.leaves_work(),
    {
        self.actions.len() != 0
    }

    fn cursor(&self, db: &Db) -> (cursor: u64)
        ensures
            cursor == alloc_cursor(*db, self.manifest@),
    {
        apply_alloc_cursor(self.manifest.get(), &db.writer)
    }

    /// Folds the pages that the target gives up, and those that a moved history
    /// left, into the free list. `existing` and `chain_pages` are the entries
    /// of the old chain and the pages that hold it, `history` the rows under
    /// the base's history root.
    pub fn fold_free_list(
        &mut self,
        db: &Db,
        carried: &CarriedHistory,
        existing: &Vec<(u64, u64)>,
        chain_pages: &Vec<u64>,
        history: &BTree<Vec<u8>>,
    ) -> (r: Result<FreeListFold>)
        requires
            old(self).wf(),
            carried.released_page_ids.wf(),
        ensures
            chain_folded(
                *db,
                *old(self),
                *carried,
                existing@,
                chain_pages@,
                history@,
                r,
                *final(self),
            ),
    {
        self.reclaimed.extend(&carried.released_page_ids);
        db.stage_reclaimed_free_list(
            &db.writer,
            existing,
            chain_pages,
            &self.reclaimed,
            &self.target,
            self.manifest.get().target_commit,
            carried.next_page_id,
            history,
        )
    }

    /// What the target image holds once everything but its header is in it.
    pub fn image(
        &self,
        carried: &CarriedHistory,
        free_list_root_page_id: u64,
        next_page_id: u64,
        journal_id: [u8; 16],
    ) -> (t: StagedTarget)
        ensures
            t == target_image(
                self.manifest@,
                *carried,
                free_list_root_page_id,
                next_page_id,
                journal_id,
            ),
    {
        staged_target(self.manifest.get(), carried, free_list_root_page_id, next_page_id, journal_id)
    }
}

impl Db {
    /// Begins an apply: only a usable follower may. A caller that had to wait
    /// for another apply asks again.
    pub fn apply_incremental(&self) -> (r: Result<Apply>)
        ensures
            match r {
                Ok(apply) => {
                    &&& self.poisoned_commit is None
                    &&& self.mode is Follower
                    &&& apply@ is RetryJournal
                },
                Err(e) => if self.poisoned_commit is Some {
                    e == (PagedbError::DurablyCommittedButUnpublished {
                        commit: self.poisoned_commit->0,
                    })
                } else {
                    &&& !(self.mode is Follower)
                    &&& e == (PagedbError::WrongMode {
                        operation: "apply_incremental",
                        required: DbMode::Follower,
                        actual: self.mode,
                    })
                },
            },
    {
        match self.ensure_usable() {
            Ok(()) => {},
            Err(e) => return Err(e),
        }
        match self.require_mode(
            "apply_incremental",
            DbMode::Follower,
            self.mode.open_capabilities().applies_incremental_snapshots(),
        ) {
            Ok(()) => Ok(Apply { step: ApplyStep::RetryJournal }),
            Err(e) => Err(e),
        }
    }

    /// Takes what a step of an apply came to, and goes on or ends it.
    ///
    /// The target is built beside the main file, held against its manifest and
    /// its delta, and swapped in. Nothing of the handle changes before the swap;
    /// whatever fails before it ends the apply with what was staged discarded.
    pub fn stage_and_swap_incremental(&mut self, apply: Apply, event: ApplyEvent) -> (r:
        core::result::Result<Apply, ApplyFailure>)
        requires
            answers(apply@, event),
            event_wf(*old(self), event),
        ensures
            poison_kept(*old(self), *final(self)),
            apply_goes_on(*old(self), apply@, event, outcome_of(r), *final(self)),
            r is Ok ==> step_wf(r->Ok_0@),
    {
        proof {
            use_type_invariant(&apply);
        }
        let step: ApplyStep = apply.step;
        match (step, event) {
            (ApplyStep::DiscardStagedImage, ApplyEvent::Failed(_)) => go_on(
                ApplyStep::MeasureManifest,
            ),
            (ApplyStep::RetryJournal, ApplyEvent::Failed(error)) => Err(
                ApplyFailure { error, discard: false },
            ),
            (_, ApplyEvent::Failed(error)) => give_up(error),
            (ApplyStep::RetryJournal, _) => go_on(ApplyStep::DiscardStagedImage),
            (ApplyStep::DiscardStagedImage, _) => go_on(ApplyStep::MeasureManifest),
            (ApplyStep::MeasureManifest, ApplyEvent::ManifestMeasured(len)) => {
                match check_manifest_length(len) {
                    Ok(measured) => go_on(ApplyStep::ReadManifest(measured)),
                    Err(e) => give_up(e),
                }
            },
            (ApplyStep::ReadManifest(measured), ApplyEvent::ManifestDecoded(m, reserved)) => {
                match self.read_manifest(measured, Ok((m, reserved))) {
                    Ok(manifest) => go_on(ApplyStep::WalkBase(manifest)),
                    Err(e) => give_up(e),
                }
            },
            (ApplyStep::WalkBase(manifest), ApplyEvent::BaseWalked(visible, segments)) => go_on(
                ApplyStep::CountSegments(ApplyBase { manifest, visible, segments }),
            ),
            (ApplyStep::CountSegments(base), _) => go_on(ApplyStep::PlanDelta(base)),
            (ApplyStep::PlanDelta(base), ApplyEvent::DeltaPlanned(delta)) => go_on(
                ApplyStep::StageImage { base, delta },
            ),
            (ApplyStep::StageImage { base, delta }, ApplyEvent::ImageStaged(pages_applied)) => {
                go_on(ApplyStep::WalkTarget { base, delta, pages_applied })
            },
            (
                ApplyStep::WalkTarget { base, delta, pages_applied },
                ApplyEvent::TargetWalked(target, metas),
            ) => match base.authenticate_target(delta, target, &metas) {
                Ok(target) => go_on(ApplyStep::StageSegments { target, pages_applied }),
                Err(e) => give_up(e),
            },
            (
                ApplyStep::StageSegments { target, pages_applied },
                ApplyEvent::SegmentsStaged(ids),
            ) => match target.stage_segments(&ids, pages_applied) {
                Ok(staged) => go_on(ApplyStep::LockWriter(staged)),
                Err(e) => give_up(e),
            },
            (ApplyStep::LockWriter(staged), ApplyEvent::WriterLocked(occupied)) => {
                match self.ensure_usable() {
                    Ok(()) => {},
                    Err(e) => return give_up(e),
                }
                let cursor: u64 = staged.cursor(self);
                match self.carry_commit_history(
                    &self.writer,
                    &occupied,
                    &staged.delta,
                    &staged.target,
                    cursor,
                ) {
                    CarryDecision::Unmoved(carried) => go_on(
                        ApplyStep::ReadChain { staged, carried },
                    ),
                    CarryDecision::Relocate { released_page_ids } => go_on(
                        ApplyStep::MoveHistory {
                            staged,
                            released: released_page_ids,
                            next_page_id: cursor,
                        },
                    ),
                }
            },
            (
                ApplyStep::MoveHistory { staged, released, next_page_id },
                ApplyEvent::HistoryMoved(pages, rows),
            ) => {
                let carried: CarriedHistory = adopt_relocated_history(
                    &pages,
                    staged.manifest.get().target_commit,
                    rows,
                    next_page_id,
                    released,
                );
                go_on(ApplyStep::ReadChain { staged, carried })
            },
            (
                ApplyStep::ReadChain { staged, carried },
                ApplyEvent::ChainRead(existing, chain_pages, history),
            ) => {
                let mut staged: StagedApply = staged;
                match staged.fold_free_list(self, &carried, &existing, &chain_pages, &history) {
                    Err(e) => give_up(e),
                    Ok(FreeListFold::Unchanged { free_list_root_page_id, next_page_id }) => go_on(
                        ApplyStep::MeasureImage {
                            staged,
                            carried,
                            free_list_root_page_id,
                            next_page_id,
                        },
                    ),
                    Ok(FreeListFold::Rewrite { entries, host_candidates, next_page_id }) => go_on(
                        ApplyStep::WriteChain {
                            staged,
                            carried,
                            entries,
                            host_candidates,
                            next_page_id,
                        },
                    ),
                }
            },
            (
                ApplyStep::WriteChain { staged, carried, .. },
                ApplyEvent::ChainWritten { free_list_root_page_id, next_page_id },
            ) => go_on(
                ApplyStep::MeasureImage { staged, carried, free_list_root_page_id, next_page_id },
            ),
            (
                ApplyStep::MeasureImage { staged, carried, free_list_root_page_id, next_page_id },
                ApplyEvent::ImageMeasured(len),
            ) => match self.ensure_image_covers_cursor(len, next_page_id) {
                Ok(grow_to) => go_on(
                    ApplyStep::FlushImage {
                        staged,
                        carried,
                        free_list_root_page_id,
                        next_page_id,
                        grow_to,
                    },
                ),
                Err(e) => give_up(e),
            },
            (
                ApplyStep::FlushImage { staged, carried, free_list_root_page_id, next_page_id, .. },
                _,
            ) => if staged.has_actions() {
                go_on(
                    ApplyStep::WriteJournal {
                        staged,
                        carried,
                        free_list_root_page_id,
                        next_page_id,
                    },
                )
            } else {
                let image: StagedTarget = staged.image(
                    &carried,
                    free_list_root_page_id,
                    next_page_id,
                    [0u8; 16],
                );
                go_on(ApplyStep::ReadAnchor { staged, image })
            },
            (
                ApplyStep::WriteJournal { staged, carried, free_list_root_page_id, next_page_id },
                ApplyEvent::JournalWritten(id),
            ) => {
                let image: StagedTarget = staged.image(
                    &carried,
                    free_list_root_page_id,
                    next_page_id,
                    id,
                );
                go_on(ApplyStep::ReadAnchor { staged, image })
            },
            (ApplyStep::ReadAnchor { staged, image }, ApplyEvent::AnchorRead(anchor)) => {
                match self.apply_header_fields(&image, anchor) {
                    Ok(fields) => go_on(ApplyStep::WriteHeader { staged, image, fields }),
                    Err(e) => give_up(e),
                }
            },
            (
                ApplyStep::WriteHeader { staged, image, fields },
                ApplyEvent::HeaderWritten(slot),
            ) => go_on(ApplyStep::Swap { staged, image, slot, seq: fields.seq }),
            (
                ApplyStep::Swap { staged, image, slot, seq },
                ApplyEvent::Swapped { renamed, directory_synced, anchored },
            ) => {
                let swap: SwapOutcome = SwapOutcome {
                    renamed,
                    directory_synced,
                    slot,
                    seq,
                    anchored,
                };
                match self.install_target(&image, staged.has_actions(), swap) {
                    Ok(ApplyTail::Published) => go_on(ApplyStep::Done(staged.stats)),
                    Ok(ApplyTail::ReconcileJournal) => go_on(
                        ApplyStep::ReconcileJournal(staged.stats),
                    ),
                    Err(e) => give_up(e),
                }
            },
            (ApplyStep::ReconcileJournal(stats), _) => go_on(ApplyStep::Done(stats)),
            _ => give_up(PagedbError::Unsupported),
        }
    }
}

/// How far along a step is.
pub open spec fn rank(step: ApplyStep) -> nat {
    match step {
        ApplyStep::RetryJournal => 0,
        ApplyStep::DiscardStagedImage => 1,
        ApplyStep::MeasureManifest => 2,
        ApplyStep::ReadManifest(_) => 3,
        ApplyStep::WalkBase(_) => 4,
        ApplyStep::CountSegments(_) => 5,
        ApplyStep::PlanDelta(_) => 6,
        ApplyStep::StageImage { .. } => 7,
        ApplyStep::WalkTarget { .. } => 8,
        ApplyStep::StageSegments { .. } => 9,
        ApplyStep::LockWriter(_) => 10,
        ApplyStep::MoveHistory { .. } => 11,
        ApplyStep::ReadChain { .. } => 12,
        ApplyStep::WriteChain { .. } => 13,
        ApplyStep::MeasureImage { .. } => 14,
        ApplyStep::FlushImage { .. } => 15,
        ApplyStep::WriteJournal { .. } => 16,
        ApplyStep::ReadAnchor { .. } => 17,
        ApplyStep::WriteHeader { .. } => 18,
        ApplyStep::Swap { .. } => 19,
        ApplyStep::ReconcileJournal(_) => 20,
        ApplyStep::Done(_) => 21,
    }
}

/// Every apply comes to an end: each step leads further along or ends it. The
/// rename is reached through the header of the staged image, an image is staged
/// only for a manifest that was measured and held against the handle, and a
/// journal is reconciled only after the rename.
pub proof fn law_apply_only_goes_forward(
    before: Db,
    step: ApplyStep,
    event: ApplyEvent,
    r: core::result::Result<ApplyStep, ApplyFailure>,
    after: Db,
)
    requires
        answers(step, event),
        apply_goes_on(before, step, event, r, after),
    ensures
        r is Ok ==> rank(step) < rank(r->Ok_0),
        r is Ok && r->Ok_0 is Swap ==> step is WriteHeader,
        r is Ok && r->Ok_0 is ReadManifest ==> event == ApplyEvent::ManifestMeasured(MANIFEST_LEN),
        r is Ok && r->Ok_0 is WalkBase ==> step is ReadManifest,
        r is Ok && r->Ok_0 is StageImage ==> step is PlanDelta,
        r is Ok && r->Ok_0 is ReconcileJournal ==> step is Swap,
{
}

/// An apply is all or nothing: whatever its steps come to, the handle is at the
/// base or at the target that the manifest names, and never between them.
/// Before the swap it is at the base. A swap that fails leaves it poisoned,
/// since only reopening tells which image is durable.
pub proof fn law_apply_is_all_or_nothing(
    before: Db,
    step: ApplyStep,
    event: ApplyEvent,
    r: core::result::Result<ApplyStep, ApplyFailure>,
    after: Db,
)
    requires
        answers(step, event),
        step_wf(step),
        apply_goes_on(before, step, event, r, after),
    ensures
        !(step is Swap) ==> after == before,
        step matches ApplyStep::Swap { staged, image, .. } ==> {
            &&& after.writer == before.writer || after.writer == installed(before.writer, image)
            &&& after.snapshot == before.snapshot || after.snapshot == snapshot_of(
                installed(before.writer, image),
            )
            &&& installed(before.writer, image).latest_commit_id == staged.manifest@.target_commit
            &&& installed(before.writer, image).root_page_id
                == staged.manifest@.target_active_root_page_id
            &&& installed(before.writer, image).catalog_root_page_id
                == staged.manifest@.target_catalog_root_page_id
            &&& r is Ok ==> after.writer == installed(before.writer, image)
                && after.poisoned_commit == before.poisoned_commit
            &&& r is Err ==> after.snapshot == before.snapshot && after.poisoned_commit is Some
        },
{
}

/// What an apply allocates is out of the producer's reach: a page at or above
/// the cursor that it allocates from is neither one that the target reaches nor
/// one that the delta writes. So a history that is moved is moved to where the
/// target leaves it alone.
///
/// The delta writes only pages below the target's cursor, and the base has only
/// pages below the follower's.
pub proof fn law_moved_history_is_left_alone(
    base: ApplyBase,
    delta: PageSet,
    target: PageSet,
    metas: Seq<SegmentMeta>,
    held: Result<ApplyTarget>,
    locked: Db,
    staged: StagedApply,
    occupied: PageSet,
    step: ApplyStep,
    moving: Db,
    pages: TreePages,
    rows: u64,
    r: core::result::Result<ApplyStep, ApplyFailure>,
    after: Db,
    page: u64,
)
    requires
        forall|p: u64|
            #[trigger] delta@.contains(p) ==> p < base.manifest@.next_page_id_at_target,
        forall|p: u64| #[trigger] base.visible@.contains(p) ==> p < locked.writer.next_page_id,
        target_held(base, delta, target, metas, held),
        held is Ok,
        staged.manifest == held->Ok_0.manifest,
        staged.delta == held->Ok_0.delta,
        staged.target == held->Ok_0.target,
        apply_goes_on(
            locked,
            ApplyStep::LockWriter(staged),
            ApplyEvent::WriterLocked(occupied),
            Ok(step),
            locked,
        ),
        step is MoveHistory,
        answers(step, ApplyEvent::HistoryMoved(pages, rows)),
        apply_goes_on(moving, step, ApplyEvent::HistoryMoved(pages, rows), r, after),
        page >= alloc_cursor(locked, staged.manifest@),
    ensures
        step->MoveHistory_next_page_id == alloc_cursor(locked, staged.manifest@),
        !staged.delta@.contains(page),
        !staged.target@.contains(page),
        r is Ok,
        r->Ok_0 is ReadChain,
        ({
            let carried = r->Ok_0->ReadChain_carried;
            &&& carried.next_page_id >= alloc_cursor(locked, staged.manifest@)
            &&& carried.root_page_id == pages.root_page_id
            &&& carried.root_page_id != 0 ==> !staged.delta@.contains(carried.root_page_id)
                && !staged.target@.contains(carried.root_page_id)
        }),
{
    let cursor = alloc_cursor(locked, staged.manifest@);
    assert forall|p: u64| p >= cursor implies !staged.delta@.contains(p)
        && !staged.target@.contains(p) by {
        assert(staged.delta@ == delta_pages(target@, base.visible@));
        if staged.target@.contains(p) && !base.visible@.contains(p) {
            assert(delta@.contains(p));
        }
    }
}

/// No page that a reader of the base saw is lost: it is the target's, or the
/// rewritten free list holds it.
pub proof fn law_apply_loses_no_page(
    existing: Seq<(u64, u64)>,
    chain_pages: Seq<u64>,
    reclaimed: PageSet,
    base_visible: Set<u64>,
    released: Set<u64>,
    target: Set<u64>,
    commit: u64,
    page: u64,
)
    requires
        reclaimed@ == base_visible.difference(target).union(released),
        base_visible.contains(page) || released.contains(page),
    ensures
        target.contains(page) || folded_entries(
            existing,
            chain_pages,
            reclaimed.list(),
            target,
            commit,
        ).contains((commit, page)),
{
    if !target.contains(page) || released.contains(page) {
        assert(reclaimed@.contains(page));
        let list = reclaimed.list();
        let i = list.index_of(page);
        assert(list[i] == page);
        let kept = entries_kept(existing, target);
        let all = folded_entries(existing, chain_pages, list, target, commit);
        assert(tagged(list, commit)[i] == (commit, page));
        assert(all[kept.len() + i] == (commit, page));
    }
}

} // verus!
