use pagedb::catalog::SegmentMeta;
use pagedb::db::apply::{Apply, ApplyEvent, ApplyFailure, ApplyStats, ApplyStep};
use pagedb::db::handle::Db;
use pagedb::db::history_carry::{adopt_relocated_history, CarriedHistory, CarryDecision};
use pagedb::db::manifest_validation::{check_manifest_length, valid_root_page, SnapshotManifest};
use pagedb::db::restore::{restore_segments, RestoreFailure, RestoreStep};
use pagedb::db::segment::JournalAction;
use pagedb::db::snapshot::{
    apply_actions, apply_alloc_cursor, check_restore_kind, claim_empty_destination,
    collect_published_page_ids, delta_page_ids, encode_journal_id, highest_required_page,
    new_segments, plan_apply, screen_snapshot_segments, segment_ids, staged_target,
    validate_restored_snapshot, ApplyTail, DestinationOwnership, RestoredCopy, SwapOutcome,
};
use pagedb::errors::{IoKind, PagedbError};
use pagedb::ids::{ActiveSlot, CipherId, CommitId, RealmId};
use pagedb::mode::DbMode;
use pagedb::options::{OpenOptions, RetainPolicy};
use pagedb::sets::{PageSet, SegmentSet};
use pagedb::tree::{BTree, TreePages};

const REALM: RealmId = RealmId([0x41; 16]);

fn store() -> Db {
    let options = OpenOptions {
        buffer_pool_pages: 64,
        segment_cache_pages: 16,
        anchor_budget: 64,
        observer_retry_count: 3,
        metrics_enabled: false,
        reader_stall_threshold_pages: 10,
        mmap_view_scratch_bytes: 4096,
        scratch_bytes: 4096,
        skip_freelist_persistence_when_no_readers: false,
        commit_history_retain: RetainPolicy::Disabled,
        cipher: CipherId::Aes256Gcm,
    };
    match Db::open_internal_with_options_and_cipher(
        String::from("/main.db"),
        4096,
        REALM,
        options,
        CipherId::Aes256Gcm,
        [1; 16],
        [2; 16],
        [3; 16],
    ) {
        Ok((_, db)) => db,
        Err(e) => panic!("a fresh store opens: {e:?}"),
    }
}

fn manifest(base: u64, target: u64) -> SnapshotManifest {
    SnapshotManifest {
        version: 1,
        kind: 1,
        target_commit: target,
        base_commit: base,
        file_id: [1; 16],
        mk_epoch: 0,
        kek_salt: [2; 16],
        cipher_id: 1,
        page_size: 4096,
        next_page_id_at_target: 40,
        segments_count: 1,
        realm_id: [0x41; 16],
        target_active_root_page_id: 20,
        target_catalog_root_page_id: 21,
    }
}

fn segment(id: u8) -> SegmentMeta {
    SegmentMeta {
        segment_id: [id; 16],
        realm_id: REALM,
        segment_kind: 0,
        evictable: 0,
        format_version: 2,
        cipher_id: 1,
        mk_epoch: 0,
        page_count: 3,
        total_bytes: 12288,
    }
}

fn ids(list: &[u8]) -> SegmentSet {
    let mut set = SegmentSet::new();
    for id in list {
        set.insert([*id; 16]);
    }
    set
}

fn incompatible(field: &'static str) -> Result<(), PagedbError> {
    Err(PagedbError::SnapshotIncompatible { field })
}

#[test]
fn a_manifest_must_advance_this_follower() {
    let db = store();
    assert_eq!(db.validate_incremental_manifest(&manifest(0, 5), &[0; 8]), Ok(()));
    assert_eq!(db.validate_incremental_manifest(&manifest(0, 5), &[0, 1]), incompatible("reserved"));
    assert_eq!(db.validate_incremental_manifest(&manifest(1, 5), &[]), incompatible("base_commit"));
    assert_eq!(db.validate_incremental_manifest(&manifest(0, 0), &[]), incompatible("target_commit"));
    let mut m = manifest(0, 5);
    m.file_id = [9; 16];
    assert_eq!(db.validate_incremental_manifest(&m, &[]), incompatible("file_id"));
    let mut m = manifest(0, 5);
    m.kind = 0;
    assert_eq!(db.validate_incremental_manifest(&m, &[]), incompatible("kind"));
    let mut m = manifest(0, 5);
    m.target_active_root_page_id = 40;
    assert_eq!(
        db.validate_incremental_manifest(&m, &[]),
        incompatible("target_active_root_page_id")
    );
    assert!(valid_root_page(0, 0));
    assert!(!valid_root_page(3, 10));
    assert!(valid_root_page(4, 10));
}

#[test]
fn an_export_describes_the_pinned_state() {
    let mut db = store();
    db.snapshot.commit_id = 5;
    db.snapshot.root_page_id = 20;
    db.snapshot.catalog_root_page_id = 21;
    let txn = db.begin_read().unwrap();
    let pages = PageSet::from_ids(&vec![20, 21, 30]);
    let full = db.snapshot_to(&txn, &vec![segment(1), segment(2)], &pages).ok().unwrap();
    assert_eq!(full.manifest.kind, 0);
    assert_eq!(full.manifest.target_commit, 5);
    assert_eq!(full.manifest.segments_count, 2);
    assert_eq!(full.highest_required_main_page, 30);
    let mut base = store().begin_read().unwrap();
    base.catalog_root_page_id = 11;
    let base_pages = PageSet::from_ids(&vec![20]);
    let delta = db
        .snapshot_incremental_to(
            &txn,
            &base,
            &pages,
            &base_pages,
            &vec![segment(1), segment(2)],
            &vec![segment(1)],
        )
        .ok()
        .unwrap();
    assert_eq!(delta.manifest.kind, 1);
    assert_eq!(delta.manifest.base_commit, 0);
    assert_eq!(delta.new_segments, vec![[2; 16]]);
    assert_eq!(delta.changed_page_ids.len(), 2);
    assert!(!delta.changed_page_ids.contains(20));
    assert_eq!(highest_required_page(&PageSet::new()), 1);
    db.poison(CommitId(6));
    assert!(db.snapshot_to(&txn, &vec![], &pages).is_err());
}

#[test]
fn a_full_export_is_what_a_restore_asks_for() {
    let mut db = store();
    db.writer.latest_commit_id = 5;
    db.writer.root_page_id = 20;
    db.writer.catalog_root_page_id = 21;
    db.writer.next_page_id = 40;
    let state = db.writer;
    db.publish_snapshot(&state);
    let txn = db.begin_read().unwrap();
    let pages = PageSet::from_ids(&vec![20, 21]);
    let segments = vec![segment(1), segment(2)];
    let export = db.snapshot_to(&txn, &segments, &pages).ok().unwrap();
    assert_eq!(Db::restore_from(Ok(export.manifest)), Ok(RestoreStep::ClaimDestination));
    let names: Vec<Option<[u8; 16]>> = export.segment_ids.iter().map(|id| Some(*id)).collect();
    assert_eq!(restore_segments(&Ok(names.clone()), &export.manifest), Ok(()));
    let copy = RestoredCopy {
        snapshot: db.snapshot,
        walked: Ok(()),
        segments: Ok(segments),
        files: Ok(names),
        read_through: Ok(()),
    };
    assert_eq!(validate_restored_snapshot(&export.manifest, copy), Ok(()));
}

#[test]
fn published_pages_are_gathered_from_every_root() {
    let mut db = store();
    db.snapshot.root_page_id = 20;
    db.snapshot.catalog_root_page_id = 21;
    let set = |ids: &[u64]| PageSet::from_ids(&ids.to_vec());
    let pages = collect_published_page_ids(
        &db.snapshot,
        &set(&[20, 22]),
        &set(&[21]),
        &set(&[23]),
        &set(&[24]),
    );
    assert!(pages.contains(20) && pages.contains(21) && pages.contains(22));
    assert!(!pages.contains(23) && !pages.contains(24));
    assert_eq!(delta_page_ids(&set(&[1, 2, 3]), &set(&[2])).len(), 2);
}

#[test]
fn a_delta_is_held_against_its_claim() {
    let set = |ids: &[u64]| PageSet::from_ids(&ids.to_vec());
    let base = ids(&[1, 2]);
    let target = vec![segment(2), segment(3)];
    let plan = plan_apply(&manifest(0, 5), &set(&[31]), &set(&[30, 31]), &set(&[29, 30]), &target, &base)
        .ok()
        .unwrap();
    assert!(plan.reclaimed.contains(29));
    assert_eq!(plan.reclaimed.len(), 1);
    assert!(plan.promoted.contains(&[3; 16]));
    assert!(plan.tombstoned.contains(&[1; 16]));
    assert_eq!(plan.segments_tombstoned, 1);
    assert_eq!(
        plan_apply(&manifest(0, 5), &set(&[30]), &set(&[30, 31]), &set(&[30]), &target, &base).err(),
        Some(PagedbError::SnapshotArtifactInvalid { field: "pages.delta.reachability" })
    );
    let mut m = manifest(0, 5);
    m.segments_count = 2;
    assert_eq!(
        plan_apply(&m, &set(&[31]), &set(&[30, 31]), &set(&[30]), &target, &base).err(),
        Some(PagedbError::SnapshotArtifactInvalid { field: "segments_count" })
    );
    let actions = apply_actions(&vec![[3; 16]], &plan.tombstoned, 5);
    assert!(matches!(actions[0], JournalAction::Promote { .. }));
    assert!(matches!(actions[1], JournalAction::Tombstone { tombstone_commit_id: 5, .. }));
    assert_eq!(new_segments(&target, &base), vec![[3; 16]]);
    assert_eq!(segment_ids(&target).len(), 2);
}

#[test]
fn an_apply_installs_its_target() {
    let mut db = store();
    db.mode = DbMode::Follower;
    assert!(matches!(db.apply_incremental().ok().unwrap().step(), ApplyStep::RetryJournal));
    db.writer.next_page_id = 50;
    assert_eq!(apply_alloc_cursor(&manifest(0, 5), &db.writer), 50);
    let carried = CarriedHistory {
        root_page_id: 33,
        root_version: 4,
        entry_count: Some(2),
        next_page_id: 50,
        released_page_ids: PageSet::new(),
    };
    let t = staged_target(&manifest(0, 5), &carried, 44, 51, [7; 16]);
    let f = db.apply_header_fields(&t, 9).ok().unwrap();
    assert_eq!(f.commit_id, CommitId(5));
    assert_eq!(f.commit_history_root_page_id, 33);
    let (page, version) = encode_journal_id(&[7; 16]);
    assert_eq!((f.apply_journal_root_page_id, f.apply_journal_root_version), (page, version));
    let swap = SwapOutcome {
        renamed: true,
        directory_synced: true,
        slot: ActiveSlot::B,
        seq: f.seq,
        anchored: true,
    };
    assert_eq!(db.install_target(&t, true, swap), Ok(ApplyTail::ReconcileJournal));
    assert_eq!(db.writer.root_page_id, 20);
    assert_eq!(db.snapshot.root_page_id, 0);
    db.mode = DbMode::Standalone;
    assert!(db.apply_incremental().is_err());
}

#[test]
fn history_is_carried_where_the_delta_does_not_write() {
    let mut db = store();
    db.writer.commit_history_root_page_id = 33;
    let set = |ids: &[u64]| PageSet::from_ids(&ids.to_vec());
    let state = db.writer;
    assert!(matches!(
        db.carry_commit_history(&state, &set(&[33]), &set(&[34]), &set(&[34]), 50),
        CarryDecision::Unmoved(c) if c.root_page_id == 33 && c.next_page_id == 50
    ));
    match db.carry_commit_history(&state, &set(&[33, 35]), &set(&[33]), &set(&[33]), 50) {
        CarryDecision::Relocate { released_page_ids } => {
            assert!(released_page_ids.contains(35));
            let pages = TreePages { root_page_id: 60, next_page_id: 62, freed: vec![] };
            let c = adopt_relocated_history(&pages, 4, 9, 50, released_page_ids);
            assert_eq!((c.root_page_id, c.entry_count, c.next_page_id), (60, Some(9), 62));
        }
        _ => panic!("expected the history to move"),
    }
}

#[test]
fn a_restore_cleans_up_what_it_claimed() {
    assert_eq!(
        Db::restore_from(Ok(manifest(0, 5))),
        Err(RestoreFailure {
            error: PagedbError::SnapshotIncompatible { field: "kind" },
            remove: None,
        })
    );
    let mut full = manifest(0, 5);
    full.kind = 0;
    assert_eq!(check_restore_kind(&full), Ok(()));
    assert_eq!(Db::restore_from(Ok(full)), Ok(RestoreStep::ClaimDestination));
    assert!(matches!(
        Db::claim_restore(Ok(true)),
        Err(RestoreFailure { error: PagedbError::Io(IoKind::AlreadyExists), remove: None })
    ));
    let mut step = Db::claim_restore(Err(IoKind::NotFound)).unwrap();
    for _ in 0..8 {
        assert_eq!(
            Db::advance_restore(step, Err(PagedbError::Io(IoKind::Other))),
            Err(RestoreFailure {
                error: PagedbError::Io(IoKind::Other),
                remove: Some(DestinationOwnership::Created),
            })
        );
        step = Db::advance_restore(step, Ok(())).unwrap();
    }
    assert_eq!(step, RestoreStep::Validate(DestinationOwnership::Created));
    assert_eq!(
        claim_empty_destination(Ok(false)),
        Ok(DestinationOwnership::PreExisting)
    );
}

#[test]
fn restored_segments_are_screened() {
    let invalid = |field| Err(PagedbError::SnapshotArtifactInvalid { field });
    assert_eq!(screen_snapshot_segments(&vec![Some([1; 16])], 1), Ok(()));
    assert_eq!(screen_snapshot_segments(&vec![None], 1), invalid("segment.name"));
    assert_eq!(screen_snapshot_segments(&vec![Some([1; 16])], 2), invalid("segments"));
    let mut full = manifest(0, 5);
    full.segments_count = 0;
    assert_eq!(restore_segments(&Err(IoKind::NotFound), &full), Ok(()));
    full.segments_count = 1;
    assert_eq!(
        restore_segments(&Err(IoKind::NotFound), &full),
        Err(PagedbError::Io(IoKind::NotFound))
    );
    assert!(check_manifest_length(240).is_ok());
    assert_eq!(check_manifest_length(239).err(), invalid("manifest.length").err());
}

/// A copy that is what `manifest(0, 5)` declares.
fn copy() -> RestoredCopy {
    let mut db = store();
    db.snapshot.commit_id = 5;
    db.snapshot.next_page_id = 40;
    db.snapshot.root_page_id = 20;
    db.snapshot.catalog_root_page_id = 21;
    RestoredCopy {
        snapshot: db.snapshot,
        walked: Ok(()),
        segments: Ok(vec![segment(1)]),
        files: Ok(vec![Some([1; 16])]),
        read_through: Ok(()),
    }
}

#[test]
fn only_a_copy_that_is_what_its_manifest_declares_is_restored() {
    let mut full = manifest(0, 5);
    full.kind = 0;
    let owner = DestinationOwnership::PreExisting;
    match Db::validate_restore(owner, &full, copy()) {
        Ok(RestoreStep::Done(restored)) => assert_eq!(restored.commit_id(), 5),
        other => panic!("the copy is whole: {other:?}"),
    }
    let invalid = |field| PagedbError::SnapshotArtifactInvalid { field };
    let other_commit = {
        let mut c = copy();
        c.snapshot.commit_id = 4;
        c
    };
    let faults = vec![
        (other_commit, PagedbError::SnapshotIncompatible { field: "target_commit" }),
        (RestoredCopy { walked: Err(PagedbError::Aborted), ..copy() }, PagedbError::Aborted),
        (RestoredCopy { segments: Err(PagedbError::NotFound), ..copy() }, PagedbError::NotFound),
        (
            RestoredCopy { files: Err(PagedbError::Io(IoKind::Other)), ..copy() },
            PagedbError::Io(IoKind::Other),
        ),
        (
            RestoredCopy { files: Ok(vec![Some([1; 16]), None]), ..copy() },
            invalid("segment.name"),
        ),
        (RestoredCopy { files: Ok(vec![Some([2; 16])]), ..copy() }, invalid("segments")),
        (RestoredCopy { files: Ok(vec![]), ..copy() }, invalid("segments")),
        (
            RestoredCopy { read_through: Err(PagedbError::Io(IoKind::Other)), ..copy() },
            PagedbError::Io(IoKind::Other),
        ),
    ];
    for (c, error) in faults {
        assert_eq!(
            Db::validate_restore(owner, &full, c),
            Err(RestoreFailure { error, remove: Some(owner) })
        );
    }
    assert_eq!(validate_restored_snapshot(&full, copy()), Ok(()));
    full.segments_count = 2;
    assert_eq!(validate_restored_snapshot(&full, copy()), Err(invalid("segments")));
}

fn set(ids: &[u64]) -> PageSet {
    PageSet::from_ids(&ids.to_vec())
}

/// A follower whose history is under page 33.
fn follower() -> Db {
    let mut db = store();
    db.mode = DbMode::Follower;
    db.writer.commit_history_root_page_id = 33;
    db.writer.next_page_id = 50;
    db
}

/// The events of an apply to commit 5 that goes well. The delta writes over a
/// page of the history; with `actions` it brings a segment and drops one.
fn events(actions: bool) -> Vec<ApplyEvent> {
    let mut m = manifest(0, 5);
    m.segments_count = if actions { 1 } else { 0 };
    let (metas, staged) = if actions {
        (vec![segment(2), segment(3)], vec![[3; 16]])
    } else {
        (vec![segment(1), segment(2)], vec![])
    };
    let mut list = vec![
        ApplyEvent::Finished,
        ApplyEvent::Finished,
        ApplyEvent::ManifestMeasured(240),
        ApplyEvent::ManifestDecoded(m, vec![0; 8]),
        ApplyEvent::BaseWalked(set(&[29, 30]), ids(&[1, 2])),
        ApplyEvent::Finished,
        ApplyEvent::DeltaPlanned(set(&[31, 33])),
        ApplyEvent::ImageStaged(2),
        ApplyEvent::TargetWalked(set(&[30, 31, 33]), metas),
        ApplyEvent::SegmentsStaged(staged),
        ApplyEvent::WriterLocked(set(&[33, 35])),
        ApplyEvent::HistoryMoved(
            TreePages { root_page_id: 50, next_page_id: 52, freed: vec![] },
            1,
        ),
        ApplyEvent::ChainRead(vec![(1, 40), (1, 31)], vec![41], BTree::new(33, 50)),
        ApplyEvent::ChainWritten { free_list_root_page_id: 53, next_page_id: 54 },
        ApplyEvent::ImageMeasured(8192),
        ApplyEvent::Finished,
    ];
    if actions {
        list.push(ApplyEvent::JournalWritten([7; 16]));
    }
    list.push(ApplyEvent::AnchorRead(9));
    list.push(ApplyEvent::HeaderWritten(ActiveSlot::B));
    list.push(ApplyEvent::Swapped { renamed: true, directory_synced: true, anchored: true });
    if actions {
        list.push(ApplyEvent::Finished);
    }
    list
}

fn go_on(db: &mut Db, apply: Apply, event: ApplyEvent) -> Result<Apply, ApplyFailure> {
    assert!(apply.is_answered_by(&event));
    db.stage_and_swap_incremental(apply, event)
}

/// An apply after the first `n` of those events.
fn apply_after(n: usize, actions: bool) -> (Db, Apply) {
    let mut db = follower();
    let mut apply = db.apply_incremental().ok().unwrap();
    for event in events(actions).into_iter().take(n) {
        apply = go_on(&mut db, apply, event).ok().unwrap();
    }
    (db, apply)
}

#[test]
fn a_manifest_of_another_length_is_not_read() {
    for len in [0u64, 239, 241] {
        let (mut db, apply) = apply_after(2, true);
        assert!(matches!(apply.step(), ApplyStep::MeasureManifest));
        assert!(!apply.is_answered_by(&ApplyEvent::ManifestDecoded(manifest(0, 5), vec![0; 8])));
        let snapshot = db.snapshot;
        let failed = go_on(&mut db, apply, ApplyEvent::ManifestMeasured(len)).err().unwrap();
        assert_eq!(
            failed,
            ApplyFailure {
                error: PagedbError::SnapshotArtifactInvalid { field: "manifest.length" },
                discard: true,
            }
        );
        assert_eq!(db.snapshot, snapshot);
        assert_eq!(db.writer.latest_commit_id, 0);
        assert_eq!(db.writer.root_page_id, 0);
        assert_eq!(db.header_cursor.seq, 1);
        assert!(db.ensure_usable().is_ok());
    }
}

#[test]
fn an_apply_goes_through_its_steps_once() {
    for actions in [true, false] {
        let total = events(actions).len();
        let last_before_swap = if actions { total - 2 } else { total - 1 };
        for n in 0..last_before_swap {
            let (mut db, apply) = apply_after(n, actions);
            let failed = go_on(&mut db, apply, ApplyEvent::Failed(PagedbError::Aborted));
            if n == 1 {
                assert!(matches!(failed.ok().unwrap().step(), ApplyStep::MeasureManifest));
            } else {
                assert_eq!(
                    failed.err().unwrap(),
                    ApplyFailure { error: PagedbError::Aborted, discard: n != 0 }
                );
            }
            assert_eq!(db.writer.latest_commit_id, 0);
            assert_eq!(db.snapshot.commit_id, 0);
            assert!(db.ensure_usable().is_ok());
        }
        let (_, apply) = apply_after(last_before_swap, actions);
        assert!(matches!(apply.step(), ApplyStep::Swap { .. }));
        assert!(!apply.is_answered_by(&ApplyEvent::Failed(PagedbError::Aborted)));
        let (db, apply) = apply_after(total, actions);
        match apply.step() {
            ApplyStep::Done(stats) => assert_eq!(
                *stats,
                ApplyStats {
                    pages_applied: 2,
                    segments_promoted: if actions { 1 } else { 0 },
                    segments_tombstoned: if actions { 1 } else { 0 },
                }
            ),
            _ => panic!("the apply is done"),
        }
        assert_eq!(db.writer.latest_commit_id, 5);
        assert_eq!(db.writer.root_page_id, 20);
        assert_eq!(db.writer.catalog_root_page_id, 21);
        assert_eq!(db.writer.commit_history_root_page_id, 50);
        assert_eq!(db.writer.next_page_id, 54);
    }
}

#[test]
fn an_apply_folds_what_it_gives_up_and_installs_the_rest() {
    let (_, apply) = apply_after(11, true);
    match apply.step() {
        ApplyStep::MoveHistory { released, next_page_id, .. } => {
            assert!(released.contains(35));
            assert_eq!(*next_page_id, 50);
        }
        _ => panic!("the delta writes a page of the history"),
    }
    for (root, taken) in [(0, true), (49, false), (50, true)] {
        let pages = TreePages { root_page_id: root, next_page_id: 52, freed: vec![] };
        assert_eq!(apply.is_answered_by(&ApplyEvent::HistoryMoved(pages, 1)), taken);
    }
    let (_, apply) = apply_after(13, true);
    match apply.step() {
        ApplyStep::WriteChain { entries, next_page_id, .. } => {
            assert_eq!(*entries, vec![(1, 40), (5, 29), (5, 35), (0, 41)]);
            assert_eq!(*next_page_id, 52);
        }
        _ => panic!("the chain is rewritten"),
    }
    let (_, apply) = apply_after(15, true);
    match apply.step() {
        ApplyStep::FlushImage { grow_to, staged, .. } => {
            assert_eq!(*grow_to, Some(54 * 4096));
            assert!(staged.has_actions());
        }
        _ => panic!("the image is to grow"),
    }
    let (mut db, apply) = apply_after(18, true);
    match apply.step() {
        ApplyStep::WriteHeader { image, fields, .. } => {
            assert_eq!((image.commit_id, image.history_root_page_id), (5, 50));
            assert_eq!((image.next_page_id, image.journal_id), (54, [7; 16]));
            assert_eq!((fields.commit_id, fields.counter_anchor), (CommitId(5), 9));
        }
        _ => panic!("the header is to be written"),
    }
    let apply = go_on(&mut db, apply, ApplyEvent::HeaderWritten(ActiveSlot::B)).ok().unwrap();
    let lost = ApplyEvent::Swapped { renamed: false, directory_synced: false, anchored: false };
    let unpublished = PagedbError::DurablyCommittedButUnpublished { commit: CommitId(5) };
    assert_eq!(
        go_on(&mut db, apply, lost).err(),
        Some(ApplyFailure { error: unpublished, discard: true })
    );
    assert_eq!(db.writer.latest_commit_id, 0);
    assert!(db.apply_incremental().is_err());
}

#[test]
fn an_apply_refuses_what_its_manifest_does_not_claim() {
    let (mut db, apply) = apply_after(3, true);
    let event = ApplyEvent::ManifestDecoded(manifest(1, 5), vec![0; 8]);
    assert_eq!(
        go_on(&mut db, apply, event).err().unwrap().error,
        PagedbError::SnapshotIncompatible { field: "base_commit" }
    );
    let (mut db, apply) = apply_after(8, true);
    let event = ApplyEvent::TargetWalked(set(&[30, 31]), vec![segment(2), segment(3)]);
    assert_eq!(
        go_on(&mut db, apply, event).err().unwrap().error,
        PagedbError::SnapshotArtifactInvalid { field: "pages.delta.reachability" }
    );
    let (mut db, apply) = apply_after(10, true);
    db.poison(CommitId(3));
    assert_eq!(
        go_on(&mut db, apply, ApplyEvent::WriterLocked(set(&[33]))).err().unwrap().error,
        PagedbError::DurablyCommittedButUnpublished { commit: CommitId(3) }
    );
    let (mut db, apply) = apply_after(14, true);
    db.page_size = usize::MAX;
    assert_eq!(
        go_on(&mut db, apply, ApplyEvent::ImageMeasured(0)).err().unwrap().error,
        PagedbError::ArithmeticOverflow { what: "main.db extent" }
    );
    let (mut db, apply) = apply_after(17, true);
    db.header_cursor.seq = u64::MAX;
    assert_eq!(
        go_on(&mut db, apply, ApplyEvent::AnchorRead(9)).err().unwrap().error,
        PagedbError::ArithmeticOverflow { what: "header sequence" }
    );
}
