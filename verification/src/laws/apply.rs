//! Laws of applying an increment, of its journal, of restoring and of collecting
//! what is no longer needed.

use vstd::prelude::*;

use crate::catalog::SegmentMeta;
use crate::db::apply::{
    chain_folded, segments_staged, swap_of, target_held, Apply, ApplyEvent, ApplyFailure, ApplyStep,
    ApplyTarget, StagedApply,
};
use crate::db::apply_journal::cleared_header_fields;
use crate::db::gc::GcStep;
use crate::db::handle::{Db, SegmentReconciliation, WriterState};
use crate::db::history_carry::{carry_decision, CarryDecision};
use crate::db::manifest_validation::{
    check_manifest_length, is_all_zero, valid_root_page, AdmittedManifest, MeasuredManifest,
    SnapshotManifest,
};
use crate::db::open::existing::writer_from_header;
use crate::db::reclaim::{
    entries_kept, hosts_below, pages_kept, required_extent, tagged, FreeListFold,
};
use crate::db::restore::{restore_segments, RestoreFailure, RestoreStep};
use crate::db::segment::{DrainOutcome, JournalAction};
use crate::db::snapshot::{
    ids_of, plan_apply, swapped, ApplyPlan, ApplyTail, DestinationOwnership, RestoredCopy,
};
use crate::errors::{IoKind, PagedbError, Result};
use crate::header::{law_root_ref_round_trip, MainDbHeaderFields};
use crate::ids::{ActiveSlot, CommitId};
use crate::mode::DbMode;
use crate::sets::{PageSet, SegmentSet};
use crate::tree::{BTree, TreePages};

use super::bytes::{eight_up, law_eight_bytes_up};

verus! {

/// An apply is begun on a usable Follower only, with the journal of an earlier one.
pub proof fn law_only_a_follower_applies(db: &Db, r: Result<Apply>)
    requires
        call_ensures(Db::apply_incremental, (db,), r),
    ensures
        r is Ok <==> db.poisoned_commit is None && db.mode is Follower,
        r is Ok ==> r->Ok_0@ is RetryJournal,
        db.poisoned_commit is Some ==> r->Err_0 == (PagedbError::DurablyCommittedButUnpublished {
            commit: db.poisoned_commit->0,
        }),
        db.poisoned_commit is None && !(db.mode is Follower) ==> r->Err_0
            == (PagedbError::WrongMode {
            operation: "apply_incremental",
            required: DbMode::Follower,
            actual: db.mode,
        }),
{
}

/// A step that fails ends the apply with its own error and changes nothing of the
/// handle; what was staged is discarded, unless it is the earlier journal that
/// failed. An image that is not there to be discarded holds nothing up.
pub proof fn law_apply_failures(
    db: &mut Db,
    apply: Apply,
    e: PagedbError,
    r: core::result::Result<Apply, ApplyFailure>,
)
    requires
        !(apply@ is Swap || apply@ is Done),
        call_ensures(
            Db::stage_and_swap_incremental,
            (db, apply, ApplyEvent::Failed(e)),
            r,
        ),
    ensures
        *final(db) == *old(db),
        apply@ is DiscardStagedImage ==> r is Ok && r->Ok_0@ is MeasureManifest,
        apply@ is RetryJournal ==> r == Err::<Apply, ApplyFailure>(
            ApplyFailure { error: e, discard: false },
        ),
        !(apply@ is DiscardStagedImage || apply@ is RetryJournal) ==> r == Err::<
            Apply,
            ApplyFailure,
        >(ApplyFailure { error: e, discard: true }),
{
}

/// Before a byte is staged the apply has finished the earlier journal, discarded what
/// was left of an earlier image, measured the manifest at 240 bytes, and found it to
/// be one for this store at this commit.
pub proof fn law_apply_admits_its_manifest(
    a: &mut Db,
    first: Apply,
    after_first: core::result::Result<Apply, ApplyFailure>,
    b: &mut Db,
    second: Apply,
    after_second: core::result::Result<Apply, ApplyFailure>,
    c: &mut Db,
    third: Apply,
    len: u64,
    after_third: core::result::Result<Apply, ApplyFailure>,
    d: &mut Db,
    fourth: Apply,
    m: SnapshotManifest,
    reserved: Vec<u8>,
    slice: &[u8],
    after_fourth: core::result::Result<Apply, ApplyFailure>,
    handle: &Db,
    valid: Result<()>,
)
    requires
        first@ is RetryJournal && second@ is DiscardStagedImage && third@ is MeasureManifest
            && fourth@ is ReadManifest,
        call_ensures(
            Db::stage_and_swap_incremental,
            (a, first, ApplyEvent::Finished),
            after_first,
        ),
        call_ensures(
            Db::stage_and_swap_incremental,
            (b, second, ApplyEvent::Finished),
            after_second,
        ),
        call_ensures(
            Db::stage_and_swap_incremental,
            (c, third, ApplyEvent::ManifestMeasured(len)),
            after_third,
        ),
        call_ensures(
            Db::stage_and_swap_incremental,
            (d, fourth, ApplyEvent::ManifestDecoded(m, reserved)),
            after_fourth,
        ),
        *handle == *old(d),
        slice@ == reserved@,
        call_ensures(Db::validate_incremental_manifest, (handle, &m, slice), valid),
    ensures
        after_first is Ok && after_first->Ok_0@ is DiscardStagedImage,
        after_second is Ok && after_second->Ok_0@ is MeasureManifest,
        after_third is Ok <==> len == 240,
        after_third is Ok ==> after_third->Ok_0@ is ReadManifest,
        after_third is Err ==> after_third->Err_0 == (ApplyFailure {
            error: PagedbError::SnapshotArtifactInvalid { field: "manifest.length" },
            discard: true,
        }),
        after_fourth is Ok <==> valid is Ok,
        after_fourth is Ok ==> after_fourth->Ok_0@ is WalkBase && after_fourth->Ok_0@->WalkBase_0@
            == m,
        after_fourth is Err ==> after_fourth->Err_0 == (ApplyFailure {
            error: valid->Err_0,
            discard: true,
        }),
        *final(a) == *old(a) && *final(b) == *old(b) && *final(c) == *old(c) && *final(d) == *old(d),
{
}

/// What was read and walked is carried on unchanged: the manifest, the base's pages
/// and segments, the pages of the delta, and how many of them were written.
pub proof fn law_apply_carries_on(
    a: &mut Db,
    walking: Apply,
    visible: PageSet,
    segments: SegmentSet,
    walked: core::result::Result<Apply, ApplyFailure>,
    b: &mut Db,
    counting: Apply,
    counted: core::result::Result<Apply, ApplyFailure>,
    c: &mut Db,
    planning: Apply,
    delta: PageSet,
    planned: core::result::Result<Apply, ApplyFailure>,
    d: &mut Db,
    staging: Apply,
    pages: u64,
    staged: core::result::Result<Apply, ApplyFailure>,
)
    requires
        walking@ is WalkBase && counting@ is CountSegments && planning@ is PlanDelta && staging@
            is StageImage,
        call_ensures(
            Db::stage_and_swap_incremental,
            (a, walking, ApplyEvent::BaseWalked(visible, segments)),
            walked,
        ),
        call_ensures(
            Db::stage_and_swap_incremental,
            (b, counting, ApplyEvent::Finished),
            counted,
        ),
        call_ensures(
            Db::stage_and_swap_incremental,
            (c, planning, ApplyEvent::DeltaPlanned(delta)),
            planned,
        ),
        call_ensures(
            Db::stage_and_swap_incremental,
            (d, staging, ApplyEvent::ImageStaged(pages)),
            staged,
        ),
    ensures
        walked is Ok,
        walked->Ok_0@ is CountSegments,
        walked->Ok_0@->CountSegments_0.manifest == walking@->WalkBase_0,
        walked->Ok_0@->CountSegments_0.visible == visible,
        walked->Ok_0@->CountSegments_0.segments == segments,
        counted is Ok,
        counted->Ok_0@ == ApplyStep::PlanDelta(counting@->CountSegments_0),
        planned is Ok,
        planned->Ok_0@ == (ApplyStep::StageImage { base: planning@->PlanDelta_0, delta }),
        staged is Ok,
        staged->Ok_0@ == (ApplyStep::WalkTarget {
            base: staging@->StageImage_base,
            delta: staging@->StageImage_delta,
            pages_applied: pages,
        }),
        *final(a) == *old(a) && *final(b) == *old(b) && *final(c) == *old(c) && *final(d) == *old(d),
{
}

/// A staged image is taken where it is what the delta claims: the delta is the
/// target's pages that the base does not show. Then what is given up are the base's
/// pages that the target does not reach, new segments are promoted and those that are
/// gone tombstoned.
pub proof fn law_apply_authenticates_the_target(
    db: &mut Db,
    apply: Apply,
    target: PageSet,
    metas: Vec<SegmentMeta>,
    r: core::result::Result<Apply, ApplyFailure>,
    page: u64,
    id: [u8; 16],
)
    requires
        apply@ is WalkTarget,
        call_ensures(
            Db::stage_and_swap_incremental,
            (db, apply, ApplyEvent::TargetWalked(target, metas)),
            r,
        ),
    ensures
        ({
            let base = apply@->WalkTarget_base;
            let delta = apply@->WalkTarget_delta;
            let named = ids_of(metas@).contains(id);
            &&& *final(db) == *old(db)
            &&& delta@.contains(page) != (target@.contains(page) && !base.visible@.contains(page))
                ==> r == Err::<Apply, ApplyFailure>(
                ApplyFailure {
                    error: PagedbError::SnapshotArtifactInvalid {
                        field: "pages.delta.reachability",
                    },
                    discard: true,
                },
            )
            &&& r is Err ==> r->Err_0.discard
            &&& r is Ok ==> {
                let held = r->Ok_0@->StageSegments_target;
                &&& r->Ok_0@ is StageSegments
                &&& r->Ok_0@->StageSegments_pages_applied == apply@->WalkTarget_pages_applied
                &&& held.manifest == base.manifest
                &&& held.delta == delta
                &&& held.target == target
                &&& held.plan.reclaimed@.contains(page) <==> base.visible@.contains(page)
                    && !target@.contains(page)
                &&& held.plan.promoted@.contains(id) <==> named && !base.segments@.contains(id)
                &&& held.plan.tombstoned@.contains(id) <==> base.segments@.contains(id) && !named
            }
        }),
{
    let base = apply@->WalkTarget_base;
    let delta = apply@->WalkTarget_delta;
    let held = choose|held: Result<ApplyTarget>|
        {
            &&& #[trigger] target_held(base, delta, target, metas@, held)
            &&& match held {
                Ok(t) => r is Ok && r->Ok_0@ == (ApplyStep::StageSegments {
                    target: t,
                    pages_applied: apply@->WalkTarget_pages_applied,
                }),
                Err(e) => r == Err::<Apply, ApplyFailure>(
                    ApplyFailure { error: e, discard: true },
                ),
            }
        };
    if delta@ == target@.difference(base.visible@) {
        assert(delta@.contains(page) == (target@.contains(page) && !base.visible@.contains(page)));
    }
}

/// The staged segments are promoted and those that are gone are tombstoned under the
/// target's commit; how many of each is counted.
pub proof fn law_apply_stages_its_segments(
    db: &mut Db,
    apply: Apply,
    ids: Vec<[u8; 16]>,
    r: core::result::Result<Apply, ApplyFailure>,
    i: int,
)
    requires
        apply@ is StageSegments,
        call_ensures(
            Db::stage_and_swap_incremental,
            (db, apply, ApplyEvent::SegmentsStaged(ids)),
            r,
        ),
    ensures
        *final(db) == *old(db),
        r is Ok <==> ids@.len() <= u32::MAX,
        r is Err ==> r->Err_0 == (ApplyFailure {
            error: PagedbError::SnapshotIncompatible { field: "segments_count" },
            discard: true,
        }),
        r is Ok ==> {
            let target = apply@->StageSegments_target;
            let gone = target.plan.tombstoned.list();
            let staged = r->Ok_0@->LockWriter_0;
            &&& r->Ok_0@ is LockWriter
            &&& staged.manifest == target.manifest
            &&& staged.delta == target.delta
            &&& staged.target == target.target
            &&& staged.reclaimed == target.plan.reclaimed
            &&& staged.stats.pages_applied == apply@->StageSegments_pages_applied
            &&& staged.stats.segments_promoted == ids@.len()
            &&& staged.stats.segments_tombstoned == target.plan.segments_tombstoned
            &&& staged.actions@.len() == ids@.len() + gone.len()
            &&& 0 <= i < ids@.len() ==> staged.actions@[i] == (JournalAction::Promote {
                segment_id: ids@[i],
            })
            &&& ids@.len() <= i < staged.actions@.len() ==> staged.actions@[i]
                == (JournalAction::Tombstone {
                segment_id: gone[i - ids@.len()],
                tombstone_commit_id: target.manifest@.target_commit,
            })
        },
{
    let target = apply@->StageSegments_target;
    let pages = apply@->StageSegments_pages_applied;
    let staged = choose|staged: Result<StagedApply>|
        {
            &&& #[trigger] segments_staged(target, ids@, pages, staged)
            &&& match staged {
                Ok(s) => r is Ok && r->Ok_0@ == ApplyStep::LockWriter(s),
                Err(e) => r == Err::<Apply, ApplyFailure>(
                    ApplyFailure { error: e, discard: true },
                ),
            }
        };
}

/// With the writer held, a history that the delta writes over is moved to pages past
/// the target's and the follower's own, and one that it leaves alone stays. A handle
/// that was poisoned meanwhile refuses.
pub proof fn law_apply_keeps_the_history(
    db: &mut Db,
    apply: Apply,
    occupied: PageSet,
    r: core::result::Result<Apply, ApplyFailure>,
    page: u64,
)
    requires
        apply@ is LockWriter,
        call_ensures(
            Db::stage_and_swap_incremental,
            (db, apply, ApplyEvent::WriterLocked(occupied)),
            r,
        ),
    ensures
        ({
            let staged = apply@->LockWriter_0;
            let target_next = staged.manifest@.next_page_id_at_target;
            let own_next = old(db).writer.next_page_id;
            &&& *final(db) == *old(db)
            &&& r is Ok <==> old(db).poisoned_commit is None
            &&& r is Err ==> r->Err_0 == (ApplyFailure {
                error: PagedbError::DurablyCommittedButUnpublished {
                    commit: old(db).poisoned_commit->0,
                },
                discard: true,
            })
            &&& r is Ok ==> r->Ok_0@ is ReadChain || r->Ok_0@ is MoveHistory
            &&& r is Ok && r->Ok_0@ is ReadChain ==> {
                let carried = r->Ok_0@->ReadChain_carried;
                &&& r->Ok_0@->ReadChain_staged == staged
                &&& old(db).writer.commit_history_root_page_id != 0 && occupied@.contains(page)
                    ==> !staged.delta@.contains(page)
                &&& carried.root_page_id == old(db).writer.commit_history_root_page_id
                &&& carried.root_version == old(db).writer.commit_history_root_version
                &&& carried.entry_count == old(db).writer.commit_history_count
                &&& carried.next_page_id >= target_next && carried.next_page_id >= own_next
                &&& carried.next_page_id == target_next || carried.next_page_id == own_next
                &&& !carried.released_page_ids@.contains(page)
            }
            &&& r is Ok && r->Ok_0@ is MoveHistory ==> {
                let next = r->Ok_0@->MoveHistory_next_page_id;
                &&& r->Ok_0@->MoveHistory_staged == staged
                &&& old(db).writer.commit_history_root_page_id != 0
                &&& r->Ok_0@->MoveHistory_released@.contains(page) <==> occupied@.contains(page)
                    && !staged.target@.contains(page)
                &&& next >= target_next && next >= own_next
                &&& next == target_next || next == own_next
            }
        }),
{
    if old(db).poisoned_commit is None {
        let staged = apply@->LockWriter_0;
        let cursor = crate::db::apply::alloc_cursor(*old(db), staged.manifest@);
        let decision = choose|decision: CarryDecision|
            {
                &&& #[trigger] carry_decision(
                    old(db).writer,
                    occupied@,
                    staged.delta@,
                    staged.target@,
                    cursor,
                    decision,
                )
                &&& r is Ok && r->Ok_0@ == match decision {
                    CarryDecision::Unmoved(carried) => ApplyStep::ReadChain { staged, carried },
                    CarryDecision::Relocate { released_page_ids } => ApplyStep::MoveHistory {
                        staged,
                        released: released_page_ids,
                        next_page_id: cursor,
                    },
                }
            };
    }
}

/// A history that was moved is at its new pages under the target's commit, and the
/// cursor is past what the move took.
pub proof fn law_apply_moves_the_history(
    db: &mut Db,
    apply: Apply,
    pages: TreePages,
    rows: u64,
    r: core::result::Result<Apply, ApplyFailure>,
)
    requires
        apply@ is MoveHistory,
        pages.root_page_id == 0 || pages.root_page_id >= apply@->MoveHistory_next_page_id,
        call_ensures(
            Db::stage_and_swap_incremental,
            (db, apply, ApplyEvent::HistoryMoved(pages, rows)),
            r,
        ),
    ensures
        *final(db) == *old(db),
        r is Ok,
        r->Ok_0@ is ReadChain,
        r->Ok_0@->ReadChain_staged == apply@->MoveHistory_staged,
        ({
            let carried = r->Ok_0@->ReadChain_carried;
            &&& carried.root_page_id == pages.root_page_id
            &&& carried.root_version == apply@->MoveHistory_staged.manifest@.target_commit
            &&& carried.entry_count == Some(rows)
            &&& carried.next_page_id >= apply@->MoveHistory_next_page_id
            &&& carried.next_page_id >= pages.next_page_id
            &&& carried.next_page_id == apply@->MoveHistory_next_page_id || carried.next_page_id
                == pages.next_page_id
            &&& carried.released_page_ids == apply@->MoveHistory_released
        }),
{
}

/// The free list is brought up to the target: entries of pages that the target uses
/// are dropped, the pages that are given up are added under the freeing commit, and
/// so are, as belonging to no commit, the pages that held the list. The new list may
/// be put on pages that were freed before anything that can still be read. Where
/// nothing is given up and the target uses none of these pages, the list stays.
pub proof fn law_free_list_is_folded(
    db: &Db,
    state: &WriterState,
    existing: &Vec<(u64, u64)>,
    chain: &Vec<u64>,
    reclaimed: &PageSet,
    target: &PageSet,
    commit: u64,
    cursor: u64,
    history: &BTree<Vec<u8>>,
    r: Result<FreeListFold>,
    floor: Result<u64>,
)
    requires
        call_ensures(
            Db::stage_reclaimed_free_list,
            (db, state, existing, chain, reclaimed, target, commit, cursor, history),
            r,
        ),
        call_ensures(Db::reclamation_floor, (db, state, history), floor),
    ensures
        ({
            let used = |p: u64| target@.contains(p);
            let kept = existing@.filter(|e: (u64, u64)| !target@.contains(e.1));
            let stays = reclaimed.list().len() == 0 && (forall|i: int|
                0 <= i < existing@.len() ==> !target@.contains((#[trigger] existing@[i]).1)) && (
            forall|i: int| 0 <= i < chain@.len() ==> !target@.contains(#[trigger] chain@[i]));
            &&& stays <==> r is Ok && r->Ok_0 is Unchanged
            &&& r is Ok && r->Ok_0 is Unchanged ==> r->Ok_0->Unchanged_free_list_root_page_id
                == state.free_list_root_page_id && r->Ok_0->Unchanged_next_page_id == cursor
            &&& r is Ok && r->Ok_0 is Rewrite ==> {
                &&& r->Ok_0->Rewrite_next_page_id == cursor
                &&& r->Ok_0->Rewrite_entries@ == kept + reclaimed.list().map_values(
                    |p: u64| (commit, p),
                ) + chain@.filter(|p: u64| !target@.contains(p)).map_values(|p: u64| (0u64, p))
                &&& floor is Ok
                &&& r->Ok_0->Rewrite_host_candidates@ == kept.filter(
                    |e: (u64, u64)| e.0 < floor->Ok_0,
                ).map_values(|e: (u64, u64)| e.1)
            }
            &&& r is Err ==> r->Err_0 is Corruption
            &&& r is Err ==> floor is Err || exists|i: int|
                0 <= i < existing@.len() && reclaimed@.contains((#[trigger] existing@[i]).1)
                    && !target@.contains(existing@[i].1)
        }),
{
    lemma_entries_are_filtered(existing@, target@);
    lemma_pages_are_filtered(chain@, target@);
    if floor is Ok {
        lemma_hosts_are_filtered(entries_kept(existing@, target@), floor->Ok_0);
    }
    lemma_tagged(reclaimed.list(), commit);
    lemma_tagged(pages_kept(chain@, target@), 0);
}

proof fn lemma_entries_are_filtered(s: Seq<(u64, u64)>, target: Set<u64>)
    ensures
        entries_kept(s, target) == s.filter(|e: (u64, u64)| !target.contains(e.1)),
    decreases s.len(),
{
    reveal(Seq::filter);
    if s.len() > 0 {
        lemma_entries_are_filtered(s.drop_last(), target);
    }
}

proof fn lemma_pages_are_filtered(s: Seq<u64>, target: Set<u64>)
    ensures
        pages_kept(s, target) == s.filter(|p: u64| !target.contains(p)),
    decreases s.len(),
{
    reveal(Seq::filter);
    if s.len() > 0 {
        lemma_pages_are_filtered(s.drop_last(), target);
    }
}

proof fn lemma_hosts_are_filtered(s: Seq<(u64, u64)>, floor: u64)
    ensures
        hosts_below(s, floor) == s.filter(|e: (u64, u64)| e.0 < floor).map_values(
            |e: (u64, u64)| e.1,
        ),
    decreases s.len(),
{
    reveal(Seq::filter);
    let keep = |e: (u64, u64)| e.0 < floor;
    let page = |e: (u64, u64)| e.1;
    if s.len() > 0 {
        lemma_hosts_are_filtered(s.drop_last(), floor);
        let before = s.drop_last().filter(keep);
        if s.last().0 < floor {
            assert(before.push(s.last()).map_values(page) =~= before.map_values(page).push(
                s.last().1,
            ));
        }
    } else {
        assert(s.filter(keep).map_values(page) =~= Seq::<u64>::empty());
    }
}

proof fn lemma_tagged(s: Seq<u64>, commit: u64)
    ensures
        tagged(s, commit) == s.map_values(|p: u64| (commit, p)),
{
    assert(tagged(s, commit) =~= s.map_values(|p: u64| (commit, p)));
}

/// The list is folded with what the target gives up and what the move of the history
/// released, under the target's commit and from the cursor past both.
pub proof fn law_apply_folds_the_free_list(
    db: &mut Db,
    apply: Apply,
    existing: Vec<(u64, u64)>,
    chain: Vec<u64>,
    history: BTree<Vec<u8>>,
    r: core::result::Result<Apply, ApplyFailure>,
    page: u64,
)
    requires
        apply@ is ReadChain,
        call_ensures(
            Db::stage_and_swap_incremental,
            (db, apply, ApplyEvent::ChainRead(existing, chain, history)),
            r,
        ),
    ensures
        *final(db) == *old(db),
        r is Err ==> r->Err_0.discard && r->Err_0.error is Corruption,
        r is Ok ==> {
            let before = apply@->ReadChain_staged;
            let carried = apply@->ReadChain_carried;
            let target = before.target@;
            let given_up = before.reclaimed@.contains(page) || carried.released_page_ids@.contains(
                page,
            );
            &&& r->Ok_0@ is MeasureImage || r->Ok_0@ is WriteChain
            &&& r->Ok_0@ is MeasureImage ==> {
                &&& !given_up
                &&& r->Ok_0@->MeasureImage_carried == carried
                &&& r->Ok_0@->MeasureImage_free_list_root_page_id == old(db).writer.free_list_root_page_id
                &&& r->Ok_0@->MeasureImage_next_page_id == carried.next_page_id
                &&& r->Ok_0@->MeasureImage_staged.manifest == before.manifest
                &&& r->Ok_0@->MeasureImage_staged.actions == before.actions
                &&& r->Ok_0@->MeasureImage_staged.stats == before.stats
            }
            &&& r->Ok_0@ is WriteChain ==> {
                let entries = r->Ok_0@->WriteChain_entries@;
                &&& given_up ==> entries.contains((before.manifest@.target_commit, page))
                &&& r->Ok_0@->WriteChain_carried == carried
                &&& r->Ok_0@->WriteChain_next_page_id == carried.next_page_id
                &&& r->Ok_0@->WriteChain_staged.manifest == before.manifest
                &&& r->Ok_0@->WriteChain_staged.actions == before.actions
                &&& r->Ok_0@->WriteChain_staged.stats == before.stats
                &&& forall|i: int|
                    0 <= i < existing@.len() && !target.contains((#[trigger] existing@[i]).1)
                        ==> entries.contains(existing@[i])
            }
        },
{
    let before = apply@->ReadChain_staged;
    let carried = apply@->ReadChain_carried;
    let (fold, folded) = choose|fold: Result<FreeListFold>, folded: StagedApply|
        {
            &&& #[trigger] chain_folded(
                *old(db),
                before,
                carried,
                existing@,
                chain@,
                history@,
                fold,
                folded,
            )
            &&& crate::db::apply::after_fold(
                fold,
                folded,
                carried,
                crate::db::apply::outcome_of(r),
            )
        };
    let target = before.target@;
    let commit = before.manifest@.target_commit;
    if r is Ok {
        let all = folded.reclaimed.list();
        assert(folded.reclaimed@.contains(page) <==> all.contains(page));
        if r->Ok_0@ is WriteChain {
            let entries = r->Ok_0@->WriteChain_entries@;
            let kept = entries_kept(existing@, target);
            let mine = tagged(all, commit);
            let rest = tagged(pages_kept(chain@, target), 0);
            assert(entries == kept + mine + rest);
            if all.contains(page) {
                let i = choose|i: int| 0 <= i < all.len() && all[i] == page;
                assert(entries[kept.len() + i] == (commit, page));
            }
            lemma_entries_are_filtered(existing@, target);
            assert forall|i: int|
                0 <= i < existing@.len() && !target.contains(
                    (#[trigger] existing@[i]).1,
                ) implies entries.contains(existing@[i]) by {
                lemma_kept_is_there(existing@, target, i);
                let j = choose|j: int| 0 <= j < kept.len() && kept[j] == existing@[i];
                assert(entries[j] == existing@[i]);
            }
        } else {
            if all.contains(page) {
                assert(all.len() > 0);
            }
        }
    }
}

proof fn lemma_kept_is_there(s: Seq<(u64, u64)>, target: Set<u64>, i: int)
    requires
        0 <= i < s.len(),
        !target.contains(s[i].1),
    ensures
        entries_kept(s, target).contains(s[i]),
    decreases s.len(),
{
    let rest = s.drop_last();
    let before = entries_kept(rest, target);
    if i == s.len() - 1 {
        assert(before.push(s.last())[before.len() as int] == s[i]);
    } else {
        assert(rest[i] == s[i]);
        lemma_kept_is_there(rest, target, i);
        let j = choose|j: int| 0 <= j < before.len() && before[j] == s[i];
        assert(before.push(s.last())[j] == s[i]);
    }
}

/// From the list on to the swap: the image is as long as its cursor asks for, a
/// journal is written exactly where segments are left to be dealt with, the image is
/// at the manifest's commit and roots, and its header is the next one.
pub proof fn law_apply_writes_the_image(
    a: &mut Db,
    writing: Apply,
    root: u64,
    next: u64,
    written: core::result::Result<Apply, ApplyFailure>,
    b: &mut Db,
    measuring: Apply,
    len: u64,
    measured: core::result::Result<Apply, ApplyFailure>,
    c: &mut Db,
    flushing: Apply,
    flushed: core::result::Result<Apply, ApplyFailure>,
    d: &mut Db,
    journalling: Apply,
    id: [u8; 16],
    journalled: core::result::Result<Apply, ApplyFailure>,
)
    requires
        writing@ is WriteChain && measuring@ is MeasureImage && flushing@ is FlushImage
            && journalling@ is WriteJournal,
        call_ensures(
            Db::stage_and_swap_incremental,
            (
                a,
                writing,
                ApplyEvent::ChainWritten { free_list_root_page_id: root, next_page_id: next },
            ),
            written,
        ),
        call_ensures(
            Db::stage_and_swap_incremental,
            (b, measuring, ApplyEvent::ImageMeasured(len)),
            measured,
        ),
        call_ensures(
            Db::stage_and_swap_incremental,
            (c, flushing, ApplyEvent::Finished),
            flushed,
        ),
        call_ensures(
            Db::stage_and_swap_incremental,
            (d, journalling, ApplyEvent::JournalWritten(id)),
            journalled,
        ),
    ensures
        written is Ok,
        written->Ok_0@ == (ApplyStep::MeasureImage {
            staged: writing@->WriteChain_staged,
            carried: writing@->WriteChain_carried,
            free_list_root_page_id: root,
            next_page_id: next,
        }),
        ({
            let extent = measuring@->MeasureImage_next_page_id * old(b).page_size;
            &&& measured is Ok <==> extent <= u64::MAX
            &&& measured is Err ==> measured->Err_0 == (ApplyFailure {
                error: PagedbError::ArithmeticOverflow { what: "main.db extent" },
                discard: true,
            })
            &&& measured is Ok ==> {
                &&& measured->Ok_0@ is FlushImage
                &&& measured->Ok_0@->FlushImage_staged == measuring@->MeasureImage_staged
                &&& measured->Ok_0@->FlushImage_carried == measuring@->MeasureImage_carried
                &&& measured->Ok_0@->FlushImage_free_list_root_page_id
                    == measuring@->MeasureImage_free_list_root_page_id
                &&& measured->Ok_0@->FlushImage_next_page_id
                    == measuring@->MeasureImage_next_page_id
                &&& len >= extent ==> measured->Ok_0@->FlushImage_grow_to is None
                &&& len < extent ==> measured->Ok_0@->FlushImage_grow_to is Some
                    && measured->Ok_0@->FlushImage_grow_to->0 == extent
            }
        }),
        flushed is Ok,
        ({
            let staged = flushing@->FlushImage_staged;
            &&& staged.actions@.len() > 0 ==> flushed->Ok_0@ == (ApplyStep::WriteJournal {
                staged,
                carried: flushing@->FlushImage_carried,
                free_list_root_page_id: flushing@->FlushImage_free_list_root_page_id,
                next_page_id: flushing@->FlushImage_next_page_id,
            })
            &&& staged.actions@.len() == 0 ==> {
                let image = flushed->Ok_0@->ReadAnchor_image;
                &&& flushed->Ok_0@ is ReadAnchor
                &&& flushed->Ok_0@->ReadAnchor_staged == staged
                &&& image.commit_id == staged.manifest@.target_commit
                &&& image.root_page_id == staged.manifest@.target_active_root_page_id
                &&& image.catalog_root_page_id == staged.manifest@.target_catalog_root_page_id
                &&& image.next_page_id == flushing@->FlushImage_next_page_id
                &&& image.free_list_root_page_id
                    == flushing@->FlushImage_free_list_root_page_id
                &&& image.history_root_page_id == flushing@->FlushImage_carried.root_page_id
                &&& image.history_root_version == flushing@->FlushImage_carried.root_version
                &&& image.history_count == flushing@->FlushImage_carried.entry_count
                &&& forall|i: int| 0 <= i < 16 ==> #[trigger] image.journal_id@[i] == 0
            }
        }),
        journalled is Ok,
        journalled->Ok_0@ is ReadAnchor,
        ({
            let staged = journalling@->WriteJournal_staged;
            let image = journalled->Ok_0@->ReadAnchor_image;
            &&& journalled->Ok_0@->ReadAnchor_staged == staged
            &&& image.commit_id == staged.manifest@.target_commit
            &&& image.root_page_id == staged.manifest@.target_active_root_page_id
            &&& image.catalog_root_page_id == staged.manifest@.target_catalog_root_page_id
            &&& image.next_page_id == journalling@->WriteJournal_next_page_id
            &&& image.free_list_root_page_id
                == journalling@->WriteJournal_free_list_root_page_id
            &&& image.history_root_page_id == journalling@->WriteJournal_carried.root_page_id
            &&& image.history_root_version == journalling@->WriteJournal_carried.root_version
            &&& image.history_count == journalling@->WriteJournal_carried.entry_count
            &&& image.journal_id == id
        }),
        *final(a) == *old(a) && *final(b) == *old(b) && *final(c) == *old(c) && *final(d) == *old(d),
{
}

/// The header of the target is the one after the live one, at the image's commit and
/// roots, and the swap is made with its number and its slot.
pub proof fn law_apply_writes_the_header(
    a: &mut Db,
    reading: Apply,
    anchor: u64,
    read: core::result::Result<Apply, ApplyFailure>,
    b: &mut Db,
    writing: Apply,
    slot: ActiveSlot,
    written: core::result::Result<Apply, ApplyFailure>,
    c: &mut Db,
    reconciling: Apply,
    reconciled: core::result::Result<Apply, ApplyFailure>,
)
    requires
        reading@ is ReadAnchor && writing@ is WriteHeader && reconciling@ is ReconcileJournal,
        call_ensures(
            Db::stage_and_swap_incremental,
            (a, reading, ApplyEvent::AnchorRead(anchor)),
            read,
        ),
        call_ensures(
            Db::stage_and_swap_incremental,
            (b, writing, ApplyEvent::HeaderWritten(slot)),
            written,
        ),
        call_ensures(
            Db::stage_and_swap_incremental,
            (c, reconciling, ApplyEvent::Finished),
            reconciled,
        ),
    ensures
        read is Err ==> read->Err_0.discard && (read->Err_0.error is ArithmeticOverflow
            || read->Err_0.error is Unsupported),
        old(a).header_cursor.seq == u64::MAX ==> read is Err,
        read is Ok ==> {
            let image = reading@->ReadAnchor_image;
            let f = read->Ok_0@->WriteHeader_fields;
            &&& read->Ok_0@ is WriteHeader
            &&& read->Ok_0@->WriteHeader_staged == reading@->ReadAnchor_staged
            &&& read->Ok_0@->WriteHeader_image == image
            &&& f.seq == old(a).header_cursor.seq + 1
            &&& f.counter_anchor == anchor
            &&& f.commit_id.0 == image.commit_id
            &&& f.active_root_page_id == image.root_page_id
            &&& f.active_root_txn_id == image.commit_id
            &&& f.next_page_id == image.next_page_id
            &&& eight_up(f.catalog_root@.subrange(0, 8)) == image.catalog_root_page_id
            &&& eight_up(f.free_list_root@.subrange(0, 8)) == image.free_list_root_page_id
            &&& f.commit_history_root_page_id == image.history_root_page_id
            &&& f.apply_journal_root_page_id == eight_up(image.journal_id@.subrange(0, 8))
            &&& f.apply_journal_root_version == eight_up(image.journal_id@.subrange(8, 16))
            &&& f.restore_mode == old(a).writer.restore_mode
        },
        written is Ok,
        written->Ok_0@ == (ApplyStep::Swap {
            staged: writing@->WriteHeader_staged,
            image: writing@->WriteHeader_image,
            slot,
            seq: writing@->WriteHeader_fields.seq,
        }),
        reconciled is Ok,
        reconciled->Ok_0@ == ApplyStep::Done(reconciling@->ReconcileJournal_0),
        *final(a) == *old(a) && *final(b) == *old(b) && *final(c) == *old(c),
{
    if read is Ok {
        let image = reading@->ReadAnchor_image;
        let f = read->Ok_0@->WriteHeader_fields;
        law_root_ref_round_trip(image.catalog_root_page_id, image.commit_id);
        law_root_ref_round_trip(image.free_list_root_page_id, 0);
        law_root_ref_round_trip(f.apply_journal_root_page_id, f.apply_journal_root_version);
        law_eight_bytes_up(f.catalog_root@.subrange(0, 8));
        law_eight_bytes_up(f.free_list_root@.subrange(0, 8));
        law_eight_bytes_up(image.journal_id@.subrange(0, 8));
        law_eight_bytes_up(image.journal_id@.subrange(8, 16));
    }
}

/// The swap is all or nothing: the writer is at the image once the rename is durable
/// and where it was before; readers see the target once everything is done and no
/// segment is left to reconcile, and until then what they saw.
pub proof fn law_apply_swaps(
    db: &mut Db,
    apply: Apply,
    renamed: bool,
    synced: bool,
    anchored: bool,
    r: core::result::Result<Apply, ApplyFailure>,
)
    requires
        apply@ is Swap,
        old(db).poisoned_commit is None,
        call_ensures(
            Db::stage_and_swap_incremental,
            (
                db,
                apply,
                ApplyEvent::Swapped { renamed, directory_synced: synced, anchored },
            ),
            r,
        ),
    ensures
        ({
            let image = apply@->Swap_image;
            let left = apply@->Swap_staged.actions@.len() > 0;
            &&& r is Ok <==> renamed && synced && anchored
            &&& r is Ok && left ==> r->Ok_0@ == ApplyStep::ReconcileJournal(
                apply@->Swap_staged.stats,
            )
            &&& r is Ok && !left ==> r->Ok_0@ == ApplyStep::Done(apply@->Swap_staged.stats)
            &&& r is Err ==> r->Err_0 == (ApplyFailure {
                error: PagedbError::DurablyCommittedButUnpublished {
                    commit: CommitId(image.commit_id),
                },
                discard: true,
            }) && final(db).poisoned_commit == Some(CommitId(image.commit_id))
            &&& !(renamed && synced) ==> final(db).writer == old(db).writer
            &&& renamed && synced ==> {
                &&& final(db).writer.latest_commit_id == image.commit_id
                &&& final(db).writer.root_page_id == image.root_page_id
                &&& final(db).writer.catalog_root_page_id == image.catalog_root_page_id
                &&& final(db).writer.next_page_id == image.next_page_id
                &&& final(db).writer.free_list_root_page_id == image.free_list_root_page_id
                &&& final(db).writer.commit_history_root_page_id == image.history_root_page_id
                &&& final(db).writer.pending_apply_journal_id == image.journal_id
                &&& final(db).header_cursor.slot == apply@->Swap_slot
                &&& final(db).header_cursor.seq == apply@->Swap_seq
            }
            &&& r is Ok && !left ==> {
                &&& final(db).snapshot.commit_id == image.commit_id
                &&& final(db).snapshot.root_page_id == image.root_page_id
                &&& final(db).snapshot.catalog_root_page_id == image.catalog_root_page_id
                &&& final(db).snapshot.next_page_id == image.next_page_id
            }
            &&& r is Err || left ==> final(db).snapshot == old(db).snapshot
        }),
{
    let staged = apply@->Swap_staged;
    let image = apply@->Swap_image;
    let swap = swap_of(apply@->Swap_slot, apply@->Swap_seq, renamed, synced, anchored);
    let tail = choose|tail: Result<ApplyTail>|
        {
            &&& #[trigger] swapped(*old(db), image, staged.leaves_work(), swap, tail, *final(db))
            &&& crate::db::apply::after_swap(
                tail,
                staged.stats,
                crate::db::apply::outcome_of(r),
            )
        };
}

/// A root is valid where it is none or a page that was handed out below the cursor.
/// A manifest has 240 bytes. A page of zeros is one of zeros.
pub proof fn law_manifest_parts(
    root: u64,
    next: u64,
    valid: bool,
    len: u64,
    measured: Result<MeasuredManifest>,
    bytes: &[u8],
    zero: bool,
)
    requires
        call_ensures(valid_root_page, (root, next), valid),
        call_ensures(check_manifest_length, (len,), measured),
        call_ensures(is_all_zero, (bytes,), zero),
    ensures
        valid <==> root == 0 || 4 <= root < next,
        measured is Ok <==> len == 240,
        measured is Err ==> measured->Err_0 == (PagedbError::SnapshotArtifactInvalid {
            field: "manifest.length",
        }),
        zero <==> forall|i: int| 0 <= i < bytes@.len() ==> #[trigger] bytes@[i] == 0,
{
}

/// A manifest that was measured is read where it could be decoded and is one for this
/// store; the failure to decode it is passed on.
pub proof fn law_manifest_is_read(
    db: &Db,
    measured: MeasuredManifest,
    decoded: Result<(SnapshotManifest, Vec<u8>)>,
    r: Result<AdmittedManifest>,
    reserved: &[u8],
    valid: Result<()>,
)
    requires
        call_ensures(Db::read_manifest, (db, measured, decoded), r),
        decoded is Ok ==> reserved@ == (decoded->Ok_0).1@ && call_ensures(
            Db::validate_incremental_manifest,
            (db, &(decoded->Ok_0).0, reserved),
            valid,
        ),
    ensures
        decoded is Err ==> r == Err::<AdmittedManifest, PagedbError>(decoded->Err_0),
        decoded is Ok ==> (r is Ok <==> valid is Ok),
        decoded is Ok && r is Ok ==> r->Ok_0@ == (decoded->Ok_0).0,
        decoded is Ok && r is Err ==> r->Err_0 == valid->Err_0,
{
}

/// A file is as long as its pages: so many bytes for each page below the cursor. An
/// image that is shorter is to be grown to that, and one that is not is left.
pub proof fn law_image_covers_the_cursor(
    db: &Db,
    len: u64,
    next: u64,
    extent: Result<u64>,
    r: Result<Option<u64>>,
)
    requires
        call_ensures(required_extent, (db.page_size, next), extent),
        call_ensures(Db::ensure_image_covers_cursor, (db, len, next), r),
    ensures
        next * db.page_size <= u64::MAX ==> extent is Ok && extent->Ok_0 == next * db.page_size,
        next * db.page_size > u64::MAX ==> extent == Err::<u64, PagedbError>(
            PagedbError::ArithmeticOverflow { what: "main.db extent" },
        ),
        len >= next * db.page_size ==> r == Ok::<Option<u64>, PagedbError>(None),
        len < next * db.page_size && next * db.page_size <= u64::MAX ==> r is Ok && r->Ok_0 is Some
            && r->Ok_0->0 == next * db.page_size,
        next * db.page_size > u64::MAX ==> r is Err && r->Err_0 is ArithmeticOverflow,
{
}

/// A journal is pending where the header names one. It is settled once its record is
/// found and every segment is where it belongs: then the header that clears it is the
/// next one, at the state that the handle is in and with no journal. Segments that
/// readers still pin put it off, with the target shown to readers; a record that is
/// lost, or a failure, poisons the handle by the commit.
pub proof fn law_journal_is_retried(
    db: &Db,
    pending: Option<[u8; 16]>,
    handle: &mut Db,
    found: bool,
    reconciled: Result<SegmentReconciliation>,
    anchor: u64,
    r: Result<MainDbHeaderFields>,
)
    requires
        call_ensures(Db::retry_pending_apply_journal, (db,), pending),
        old(handle).poisoned_commit is None,
        call_ensures(
            Db::retry_pending_apply_journal_visible,
            (handle, found, reconciled, anchor),
            r,
        ),
    ensures
        pending is None <==> forall|i: int|
            0 <= i < 16 ==> #[trigger] db.writer.pending_apply_journal_id@[i] == 0,
        pending is Some ==> pending->0 == db.writer.pending_apply_journal_id,
        !found || reconciled is Err ==> {
            &&& r == Err::<MainDbHeaderFields, PagedbError>(
                PagedbError::DurablyCommittedButUnpublished {
                    commit: CommitId(old(handle).writer.latest_commit_id),
                },
            )
            &&& final(handle).poisoned_commit == Some(
                CommitId(old(handle).writer.latest_commit_id),
            )
            &&& final(handle).snapshot == old(handle).snapshot
        },
        found && reconciled is Ok && reconciled->Ok_0 is Deferred ==> {
            &&& r == Err::<MainDbHeaderFields, PagedbError>(
                PagedbError::ReadersPinningTruncatedRange,
            )
            &&& final(handle).snapshot.commit_id == old(handle).writer.latest_commit_id
            &&& final(handle).snapshot.root_page_id == old(handle).writer.root_page_id
            &&& final(handle).snapshot.catalog_root_page_id == old(handle).writer.catalog_root_page_id
            &&& final(handle).snapshot.next_page_id == old(handle).writer.next_page_id
            &&& final(handle).poisoned_commit is None
        },
        found && reconciled is Ok && reconciled->Ok_0 is Complete ==> *final(handle) == *old(handle) && (r is Ok ==> {
            let f = r->Ok_0;
            let state = old(handle).writer;
            &&& f.seq == old(handle).header_cursor.seq + 1
            &&& f.counter_anchor == anchor
            &&& f.apply_journal_root_page_id == 0 && f.apply_journal_root_version == 0
            &&& f.commit_id.0 == state.latest_commit_id
            &&& f.active_root_page_id == state.root_page_id
            &&& f.active_root_txn_id == state.latest_commit_id
            &&& f.next_page_id == state.next_page_id
            &&& eight_up(f.catalog_root@.subrange(0, 8)) == state.catalog_root_page_id
            &&& eight_up(f.catalog_root@.subrange(8, 16)) == state.catalog_root_txn_id
            &&& eight_up(f.free_list_root@.subrange(0, 8)) == state.free_list_root_page_id
            &&& f.commit_history_root_page_id == state.commit_history_root_page_id
            &&& f.commit_history_root_version == state.commit_history_root_version
            &&& f.restore_mode == state.restore_mode
            &&& f.commit_retain_policy_tag == state.commit_retain_policy_tag
            &&& f.commit_retain_policy_value == state.commit_retain_policy_value
        }),
{
    if found && reconciled is Ok && reconciled->Ok_0 is Complete && r is Ok {
        let f = r->Ok_0;
        let state = old(handle).writer;
        law_root_ref_round_trip(state.catalog_root_page_id, state.catalog_root_txn_id);
        law_root_ref_round_trip(state.free_list_root_page_id, 0);
        law_eight_bytes_up(f.catalog_root@.subrange(0, 8));
        law_eight_bytes_up(f.catalog_root@.subrange(8, 16));
        law_eight_bytes_up(f.free_list_root@.subrange(0, 8));
    }
    if pending is Some {
        let id = db.writer.pending_apply_journal_id@;
        let i = choose|i: int| 0 <= i < id.len() && #[trigger] id[i] != 0;
        assert(id[i] != 0);
    }
}

/// A journal is cleared with the header that clears it and its anchor: then its id is
/// handed back to be removed, none is pending, and readers see the state. Otherwise
/// the handle is poisoned by the commit.
pub proof fn law_journal_is_cleared(
    db: &mut Db,
    written: Option<(ActiveSlot, u64)>,
    anchored: bool,
    r: Result<[u8; 16]>,
)
    requires
        old(db).poisoned_commit is None,
        call_ensures(Db::journal_cleared, (db, written, anchored), r),
    ensures
        r is Ok <==> written is Some && anchored,
        r is Ok ==> {
            &&& r->Ok_0 == old(db).writer.pending_apply_journal_id
            &&& forall|i: int|
                0 <= i < 16 ==> #[trigger] final(db).writer.pending_apply_journal_id@[i] == 0
            &&& final(db).snapshot.commit_id == old(db).writer.latest_commit_id
            &&& final(db).snapshot.root_page_id == old(db).writer.root_page_id
            &&& final(db).snapshot.catalog_root_page_id == old(db).writer.catalog_root_page_id
            &&& final(db).writer.latest_commit_id == old(db).writer.latest_commit_id
            &&& final(db).writer.root_page_id == old(db).writer.root_page_id
            &&& final(db).poisoned_commit is None
        },
        written is Some ==> final(db).header_cursor.slot == (written->0).0 && final(db).header_cursor.seq == (written->0).1,
        r is Err ==> {
            &&& r->Err_0 == (PagedbError::DurablyCommittedButUnpublished {
                commit: CommitId(old(db).writer.latest_commit_id),
            })
            &&& final(db).poisoned_commit == Some(CommitId(old(db).writer.latest_commit_id))
            &&& final(db).snapshot == old(db).snapshot
        },
{
}

/// The header that clears a journal reopens to the state that it was made of, with
/// none pending.
pub proof fn law_cleared_journal_survives_a_reopen(
    db: &Db,
    state: &WriterState,
    seq: u64,
    anchor: u64,
    f: MainDbHeaderFields,
    reopened: WriterState,
)
    requires
        call_ensures(
            cleared_header_fields,
            (db, state, seq, anchor),
            Ok::<MainDbHeaderFields, PagedbError>(f),
        ),
        call_ensures(writer_from_header, (&f,), reopened),
    ensures
        f.seq == seq && f.counter_anchor == anchor,
        f.apply_journal_root_page_id == 0 && f.apply_journal_root_version == 0,
        reopened.latest_commit_id == state.latest_commit_id,
        reopened.root_page_id == state.root_page_id,
        reopened.catalog_root_page_id == state.catalog_root_page_id,
        reopened.catalog_root_txn_id == state.catalog_root_txn_id,
        reopened.next_page_id == state.next_page_id,
        reopened.free_list_root_page_id == state.free_list_root_page_id,
        reopened.commit_history_root_page_id == state.commit_history_root_page_id,
        reopened.restore_mode == state.restore_mode,
{
    law_root_ref_round_trip(state.catalog_root_page_id, state.catalog_root_txn_id);
    law_root_ref_round_trip(state.free_list_root_page_id, 0);
}

/// A restore goes from the empty destination through its directories, the manifest,
/// the main file and the segments to a copy that is opened and held against the
/// manifest. What it claimed on the way is what a failure removes; until it claimed
/// anything there is nothing to remove.
pub proof fn law_restore_steps(
    manifest: Result<SnapshotManifest>,
    begun: core::result::Result<RestoreStep, RestoreFailure>,
    listed: core::result::Result<bool, IoKind>,
    claimed: core::result::Result<RestoreStep, RestoreFailure>,
    o: DestinationOwnership,
    a: core::result::Result<RestoreStep, RestoreFailure>,
    b: core::result::Result<RestoreStep, RestoreFailure>,
    c: core::result::Result<RestoreStep, RestoreFailure>,
    d: core::result::Result<RestoreStep, RestoreFailure>,
    e: core::result::Result<RestoreStep, RestoreFailure>,
)
    requires
        call_ensures(Db::restore_from, (manifest,), begun),
        call_ensures(Db::claim_restore, (listed,), claimed),
        call_ensures(
            Db::advance_restore,
            (RestoreStep::CreateDirectories(o), Ok::<(), PagedbError>(())),
            a,
        ),
        call_ensures(
            Db::advance_restore,
            (RestoreStep::CopyManifest(o), Ok::<(), PagedbError>(())),
            b,
        ),
        call_ensures(
            Db::advance_restore,
            (RestoreStep::CopyMainFile(o), Ok::<(), PagedbError>(())),
            c,
        ),
        call_ensures(
            Db::advance_restore,
            (RestoreStep::CopySegments(o), Ok::<(), PagedbError>(())),
            d,
        ),
        call_ensures(
            Db::advance_restore,
            (RestoreStep::OpenCopy(o), Ok::<(), PagedbError>(())),
            e,
        ),
    ensures
        begun is Ok <==> manifest is Ok && manifest->Ok_0.kind == 0,
        begun is Ok ==> begun->Ok_0 is ClaimDestination,
        begun is Err ==> begun->Err_0.remove is None,
        manifest is Err ==> begun->Err_0.error == manifest->Err_0,
        manifest is Ok && manifest->Ok_0.kind != 0 ==> begun->Err_0.error
            == (PagedbError::SnapshotIncompatible { field: "kind" }),
        listed == Ok::<bool, IoKind>(true) ==> claimed is Err && claimed->Err_0.error
            == PagedbError::Io(IoKind::AlreadyExists),
        listed == Ok::<bool, IoKind>(false) ==> claimed == Ok::<RestoreStep, RestoreFailure>(
            RestoreStep::CreateDirectories(DestinationOwnership::PreExisting),
        ),
        listed == Err::<bool, IoKind>(IoKind::NotFound) ==> claimed == Ok::<
            RestoreStep,
            RestoreFailure,
        >(RestoreStep::CreateDirectories(DestinationOwnership::Created)),
        listed is Err && !(listed->Err_0 is NotFound) ==> claimed is Err && claimed->Err_0.error
            == PagedbError::Io(listed->Err_0),
        claimed is Err ==> claimed->Err_0.remove is None,
        a == Ok::<RestoreStep, RestoreFailure>(RestoreStep::CopyManifest(o)),
        b == Ok::<RestoreStep, RestoreFailure>(RestoreStep::CopyMainFile(o)),
        c == Ok::<RestoreStep, RestoreFailure>(RestoreStep::CopySegments(o)),
        d == Ok::<RestoreStep, RestoreFailure>(RestoreStep::OpenCopy(o)),
        e == Ok::<RestoreStep, RestoreFailure>(RestoreStep::Validate(o)),
{
}

/// A restore that fails says why and what it had claimed, at every step after the
/// claim; and only a copy that holds up against the manifest ends it, at the
/// manifest's commit.
pub proof fn law_restore_ends(
    step: RestoreStep,
    e: PagedbError,
    failed: core::result::Result<RestoreStep, RestoreFailure>,
    o: DestinationOwnership,
    m: &SnapshotManifest,
    copy: RestoredCopy,
    held: Result<()>,
    r: core::result::Result<RestoreStep, RestoreFailure>,
)
    requires
        call_ensures(
            Db::advance_restore,
            (step, Err::<(), PagedbError>(e)),
            failed,
        ),
        call_ensures(Db::validate_restore, (o, m, copy), r),
        call_ensures(crate::db::snapshot::validate_restored_snapshot, (m, copy), held),
    ensures
        failed is Err,
        failed->Err_0.error == e,
        step == RestoreStep::CreateDirectories(o) || step == RestoreStep::CopyManifest(o) || step
            == RestoreStep::CopyMainFile(o) || step == RestoreStep::CopySegments(o) || step
            == RestoreStep::OpenCopy(o) || step == RestoreStep::Validate(o)
            ==> failed->Err_0.remove == Some(o),
        step is ClaimDestination ==> failed->Err_0.remove is None,
        r is Ok <==> held is Ok,
        r is Ok ==> r->Ok_0 is Done && r->Ok_0->Done_0.commit() == m.target_commit,
        r is Err ==> r->Err_0.error == held->Err_0 && r->Err_0.remove == Some(o),
{
}

/// The segment files of a restore are screened by what the manifest declares; a
/// directory that is missing stands for none.
pub proof fn law_restored_segments_are_screened(
    listed: core::result::Result<Vec<Option<[u8; 16]>>, IoKind>,
    m: &SnapshotManifest,
    r: Result<()>,
)
    requires
        call_ensures(restore_segments, (&listed, m), r),
    ensures
        listed is Err ==> (r is Ok <==> listed->Err_0 is NotFound && m.segments_count == 0),
        listed is Err && r is Err ==> r->Err_0 == PagedbError::Io(listed->Err_0),
        listed is Ok ==> (r is Ok <==> listed->Ok_0@.len() == m.segments_count && forall|i: int|
            0 <= i < listed->Ok_0@.len() ==> (#[trigger] listed->Ok_0@[i]) is Some),
{
}

/// Collecting goes from the pending journal over the deferred tombstones to what an
/// interrupted retirement left, adds up what the last two reclaimed, and ends with
/// the first failure. A poisoned handle does not begin.
pub proof fn law_collection(
    db: &Db,
    begun: Result<GcStep>,
    journal: Result<(u64, u64)>,
    first: Result<GcStep>,
    drained: Result<(u64, u64)>,
    second: Result<GcStep>,
    segments: u64,
    bytes: u64,
    swept: Result<(u64, u64)>,
    third: Result<GcStep>,
)
    requires
        call_ensures(Db::gc_now, (db,), begun),
        call_ensures(Db::collect, (GcStep::RetryJournal, journal), first),
        call_ensures(Db::collect, (GcStep::DrainTombstones, drained), second),
        call_ensures(Db::collect, (GcStep::SweepParked { segments, bytes }, swept), third),
    ensures
        begun is Ok <==> db.poisoned_commit is None,
        begun is Ok ==> begun->Ok_0 is RetryJournal,
        journal is Err ==> first == Err::<GcStep, PagedbError>(journal->Err_0),
        journal is Ok ==> first == Ok::<GcStep, PagedbError>(GcStep::DrainTombstones),
        drained is Err ==> second == Err::<GcStep, PagedbError>(drained->Err_0),
        drained is Ok ==> second == Ok::<GcStep, PagedbError>(
            GcStep::SweepParked { segments: drained->Ok_0.0, bytes: drained->Ok_0.1 },
        ),
        swept is Err ==> third == Err::<GcStep, PagedbError>(swept->Err_0),
        swept is Ok ==> {
            &&& third is Ok
            &&& third->Ok_0 is Done
            &&& segments + swept->Ok_0.0 <= u64::MAX ==> third->Ok_0->Done_0.reclaimed_segments
                == segments + swept->Ok_0.0
            &&& bytes + swept->Ok_0.1 <= u64::MAX ==> third->Ok_0->Done_0.reclaimed_bytes == bytes
                + swept->Ok_0.1
            &&& segments + swept->Ok_0.0 > u64::MAX ==> third->Ok_0->Done_0.reclaimed_segments
                == u64::MAX
            &&& bytes + swept->Ok_0.1 > u64::MAX ==> third->Ok_0->Done_0.reclaimed_bytes
                == u64::MAX
        },
{
}

/// A tombstone is left alone while a reader pins its segment, is put back where the
/// attempt failed, and otherwise counts for as long as its file was measured.
pub proof fn law_tombstone_is_attempted(
    pinned: bool,
    measured: Option<u64>,
    reclaimed: bool,
    o: DrainOutcome,
)
    requires
        call_ensures(Db::reclaim_pending_tombstone, (pinned, measured, reclaimed), o),
    ensures
        o is Pinned <==> pinned,
        o is Failed <==> !pinned && !reclaimed,
        o is Gone <==> !pinned && reclaimed && measured is None,
        o is Reclaimed <==> !pinned && reclaimed && measured is Some,
        o is Reclaimed ==> o->Reclaimed_0 == measured->0,
{
}

/// A walked target is taken exactly where it can be planned, and refused with what the
/// plan is refused with.
pub proof fn law_apply_follows_its_plan(
    db: &mut Db,
    apply: Apply,
    target: PageSet,
    metas: Vec<SegmentMeta>,
    r: core::result::Result<Apply, ApplyFailure>,
    m: &SnapshotManifest,
    plan: Result<ApplyPlan>,
)
    requires
        apply@ is WalkTarget,
        call_ensures(
            Db::stage_and_swap_incremental,
            (db, apply, ApplyEvent::TargetWalked(target, metas)),
            r,
        ),
        *m == apply@->WalkTarget_base.manifest@,
        call_ensures(
            plan_apply,
            (
                m,
                &apply@->WalkTarget_delta,
                &target,
                &apply@->WalkTarget_base.visible,
                &metas,
                &apply@->WalkTarget_base.segments,
            ),
            plan,
        ),
    ensures
        r is Ok <==> plan is Ok,
        r is Err ==> r->Err_0.error == plan->Err_0,
{
    let base = apply@->WalkTarget_base;
    let delta = apply@->WalkTarget_delta;
    let held = choose|held: Result<ApplyTarget>|
        {
            &&& #[trigger] target_held(base, delta, target, metas@, held)
            &&& match held {
                Ok(t) => r is Ok && r->Ok_0@ == (ApplyStep::StageSegments {
                    target: t,
                    pages_applied: apply@->WalkTarget_pages_applied,
                }),
                Err(e) => r == Err::<Apply, ApplyFailure>(
                    ApplyFailure { error: e, discard: true },
                ),
            }
        };
}

/// Each step of an apply has its answer: what it asks for, or that it failed. The swap
/// has no failure of its own, and what is done has no answer.
pub proof fn law_apply_steps_have_their_answers(apply: &Apply, event: &ApplyEvent, yes: bool)
    requires
        call_ensures(Apply::is_answered_by, (apply, event), yes),
    ensures
        apply@ is Done ==> !yes,
        event is Failed ==> (yes <==> !(apply@ is Swap) && !(apply@ is Done)),
        !(event is Failed) ==> match apply@ {
            ApplyStep::RetryJournal => yes == (event is Finished),
            ApplyStep::DiscardStagedImage => yes == (event is Finished),
            ApplyStep::MeasureManifest => yes == (event is ManifestMeasured),
            ApplyStep::ReadManifest(_) => yes == (event is ManifestDecoded),
            ApplyStep::WalkBase(_) => yes == (event is BaseWalked),
            ApplyStep::CountSegments(_) => yes == (event is Finished),
            ApplyStep::PlanDelta(_) => yes == (event is DeltaPlanned),
            ApplyStep::StageImage { .. } => yes == (event is ImageStaged),
            ApplyStep::WalkTarget { .. } => yes == (event is TargetWalked),
            ApplyStep::StageSegments { .. } => yes == (event is SegmentsStaged),
            ApplyStep::LockWriter(_) => yes == (event is WriterLocked),
            ApplyStep::MoveHistory { next_page_id, .. } => yes == (event is HistoryMoved && (
            event->HistoryMoved_0.root_page_id == 0 || event->HistoryMoved_0.root_page_id
                >= next_page_id)),
            ApplyStep::ReadChain { .. } => yes == (event is ChainRead),
            ApplyStep::WriteChain { .. } => yes == (event is ChainWritten),
            ApplyStep::MeasureImage { .. } => yes == (event is ImageMeasured),
            ApplyStep::FlushImage { .. } => yes == (event is Finished),
            ApplyStep::WriteJournal { .. } => yes == (event is JournalWritten),
            ApplyStep::ReadAnchor { .. } => yes == (event is AnchorRead),
            ApplyStep::WriteHeader { .. } => yes == (event is HeaderWritten),
            ApplyStep::Swap { .. } => yes == (event is Swapped),
            ApplyStep::ReconcileJournal(_) => yes == (event is Finished),
            ApplyStep::Done(_) => true,
        },
{
}

} // verus!
