use pagedb::catalog::{Catalog, CatalogValue, SegmentMeta};
use pagedb::db::gc::{GcStats, GcStep};
use pagedb::db::handle::{Db, PendingTombstone, SegmentReconciliation};
use pagedb::db::segment::{
    effect_target, reconcile_journal_actions, DrainOutcome, EffectEvent, EffectStep, EffectTarget,
    JournalAction, ReconcileStep,
};
use pagedb::db::snapshot::catalog_segment_metas;
use pagedb::errors::{CorruptionDetail, IoKind, PagedbError};
use pagedb::ids::{CipherId, CommitId, RealmId};
use pagedb::options::{OpenOptions, RetainPolicy};
use pagedb::tree::BTree;
use pagedb::write::SegmentSideEffect;

const REALM: RealmId = RealmId([0x41; 16]);

fn store() -> Db {
    let options = OpenOptions {
        buffer_pool_pages: 64,
        segment_cache_pages: 16,
        anchor_budget: 64,
        observer_retry_count: 3,
        metrics_enabled: false,
        reader_stall_threshold_pages: 10,
        mmap_view_scratch_bytes: 4096,
        scratch_bytes: 4096,
        skip_freelist_persistence_when_no_readers: false,
        commit_history_retain: RetainPolicy::Disabled,
        cipher: CipherId::Aes256Gcm,
    };
    match Db::open_internal_with_options_and_cipher(
        String::from("/data/main.db"),
        4096,
        REALM,
        options,
        CipherId::Aes256Gcm,
        [1; 16],
        [2; 16],
        [3; 16],
    ) {
        Ok((_, db)) => db,
        Err(e) => panic!("a fresh store opens: {e:?}"),
    }
}

fn segment(id: u8) -> SegmentMeta {
    SegmentMeta {
        segment_id: [id; 16],
        realm_id: REALM,
        segment_kind: 0,
        evictable: 0,
        format_version: 2,
        cipher_id: 1,
        mk_epoch: 0,
        page_count: 3,
        total_bytes: 12288,
    }
}

fn linked(names: &[(&[u8], u8)]) -> BTree<CatalogValue> {
    let mut catalog: BTree<CatalogValue> = BTree::new(7, 20);
    for (name, id) in names {
        let key = Catalog::segment_key(REALM, name).unwrap();
        catalog.put(&key, CatalogValue::Segment(segment(*id)));
    }
    catalog
}

fn entry(id: u8, commit_id: u64) -> PendingTombstone {
    PendingTombstone { segment_id: [id; 16], commit_id }
}

#[test]
fn segments_are_found_by_name() {
    let mut db = store();
    db.snapshot.catalog_root_page_id = 7;
    let catalog = linked(&[(b"alpha", 1), (b"alpine", 2), (b"beta", 3)]);
    assert_eq!(db.lookup_segment(REALM, "beta", &catalog).ok().unwrap().segment_id, [3; 16]);
    assert_eq!(
        db.lookup_segment(REALM, "gamma", &catalog).err(),
        Some(PagedbError::NotFound)
    );
    assert_eq!(db.open_segment(REALM, "beta", &catalog).ok().unwrap().1, 4096);
    let found = db.list_segments(REALM, "alp", &catalog).ok().unwrap();
    assert_eq!(found.iter().map(|m| m.segment_id[0]).collect::<Vec<_>>(), vec![1, 2]);
    let long = "n".repeat(1025);
    assert_eq!(
        db.lookup_segment(REALM, &long, &catalog).err(),
        Some(PagedbError::NameTooLong)
    );
}

#[test]
fn a_pin_is_found_in_any_readers_catalog() {
    let mut db = store();
    db.snapshot.catalog_root_page_id = 7;
    let _first = db.begin_read().unwrap();
    let _second = db.begin_read().unwrap();
    let catalogs = vec![linked(&[(b"a", 1)]), linked(&[(b"b", 2)])];
    assert_eq!(db.segment_id_is_reader_pinned(&[2; 16], &catalogs), Ok(true));
    assert_eq!(db.segment_id_is_reader_pinned(&[3; 16], &catalogs), Ok(false));
    let mut broken = linked(&[(b"a", 1)]);
    broken.put(&Catalog::segment_key(REALM, b"b").unwrap(), CatalogValue::Malformed);
    let catalogs = vec![broken, linked(&[])];
    assert!(matches!(
        db.segment_id_is_reader_pinned(&[9; 16], &catalogs),
        Err(PagedbError::Corruption(_))
    ));
}

#[test]
fn promotion_is_idempotent_and_loss_is_reported() {
    let id = [5; 16];
    assert_eq!(Db::promote_segment(), EffectStep::ProbePromoted);
    let next = |step, event| Db::advance_effect(id, step, event).unwrap();
    assert_eq!(
        next(EffectStep::ProbePromoted, EffectEvent::Present),
        Ok(EffectStep::Done(SegmentReconciliation::Complete))
    );
    assert_eq!(next(EffectStep::ProbePromoted, EffectEvent::Absent), Ok(EffectStep::ProbeStaging));
    assert_eq!(next(EffectStep::ProbeStaging, EffectEvent::Present), Ok(EffectStep::RenameStaging));
    assert_eq!(
        next(EffectStep::ProbeStaging, EffectEvent::Absent),
        Err(PagedbError::Corruption(CorruptionDetail::StagingMissing { segment_id: id }))
    );
    assert!(Db::advance_effect(id, EffectStep::ProbeStaging, EffectEvent::Finished).is_none());
}

#[test]
fn a_pinned_retirement_is_deferred() {
    let mut db = store();
    assert_eq!(
        db.tombstone_segment([5; 16], 3, true),
        EffectStep::Done(SegmentReconciliation::Deferred)
    );
    assert_eq!(db.pending_tombstones.len(), 1);
    assert_eq!(db.tombstone_segment([6; 16], 3, false), EffectStep::ProbeParked);
    assert_eq!(db.pending_tombstones.len(), 1);
    assert_eq!(
        Db::apply_segment_effects(&vec![
            SegmentReconciliation::Complete,
            SegmentReconciliation::Deferred
        ]),
        SegmentReconciliation::Deferred
    );
    assert_eq!(Db::apply_segment_effects(&vec![]), SegmentReconciliation::Complete);
}

#[test]
fn a_failed_reconciliation_is_retried_once() {
    let failed = || Err(PagedbError::Io(IoKind::Other));
    assert_eq!(Db::reconcile_segment_effects(false, failed()), ReconcileStep::Retry);
    assert_eq!(
        Db::reconcile_segment_effects(true, failed()),
        ReconcileStep::Finished(failed())
    );
    assert_eq!(
        Db::reconcile_segment_effects(false, Ok(SegmentReconciliation::Complete)),
        ReconcileStep::Finished(Ok(SegmentReconciliation::Complete))
    );
    assert_eq!(Db::live_segment_len(Ok(5)), Ok(Some(5)));
    assert_eq!(Db::live_segment_len(Err(PagedbError::Io(IoKind::NotFound))), Ok(None));
    assert!(Db::live_segment_len(Err(PagedbError::Io(IoKind::Other))).is_err());
}

#[test]
fn effects_carry_the_commit_that_retires() {
    let target = effect_target(
        SegmentSideEffect::Tombstone { segment_id: [1; 16], tombstone_commit_id: None },
        9,
    );
    assert!(matches!(target, EffectTarget::Retire { commit_id: 9, .. }));
    let effects = reconcile_journal_actions(&vec![
        JournalAction::Promote { segment_id: [2; 16] },
        JournalAction::Tombstone { segment_id: [1; 16], tombstone_commit_id: 4 },
    ]);
    assert!(matches!(effects[0], SegmentSideEffect::Promote { .. }));
    assert!(matches!(
        effect_target(effects[1], 9),
        EffectTarget::Retire { commit_id: 4, .. }
    ));
}

#[test]
fn the_tombstone_queue_loses_nothing() {
    let mut db = store();
    for id in 1..=3 {
        db.enqueue_pending_tombstone(entry(id, 7));
    }
    db.enqueue_pending_tombstone(entry(2, 7));
    assert_eq!(db.pending_tombstones.len(), 3);
    let batch = db.take_pending_tombstones(2);
    assert_eq!(batch.len(), 2);
    assert_eq!(db.pending_tombstones.len(), 1);
    let reclaimed =
        db.settle_tombstone_batch(&batch, &vec![DrainOutcome::Reclaimed(100), DrainOutcome::Pinned]);
    assert_eq!(reclaimed, (1, 100));
    let left: Vec<u8> = db.pending_tombstones.iter().map(|t| t.segment_id[0]).collect();
    assert_eq!(left, vec![3, 2]);
    let batch = db.take_pending_tombstones(9);
    assert_eq!(db.settle_tombstone_batch(&batch, &vec![DrainOutcome::Failed]), (0, 0));
    assert_eq!(db.pending_tombstones.len(), 2);
}

#[test]
fn a_collection_adds_up_what_it_freed() {
    let mut db = store();
    assert_eq!(
        Db::reclaim_pending_tombstone(true, Some(5), false),
        DrainOutcome::Pinned
    );
    assert_eq!(Db::reclaim_pending_tombstone(false, None, true), DrainOutcome::Gone);
    assert_eq!(
        Db::reclaim_pending_tombstone(false, Some(5), true),
        DrainOutcome::Reclaimed(5)
    );
    assert_eq!(Db::reclaim_pending_tombstone(false, Some(5), false), DrainOutcome::Failed);
    assert_eq!(db.gc_now(), Ok(GcStep::RetryJournal));
    let step = Db::collect(GcStep::RetryJournal, Ok((7, 7))).unwrap();
    assert_eq!(step, GcStep::DrainTombstones);
    let step = Db::collect(step, Ok((1, 100))).unwrap();
    assert_eq!(step, GcStep::SweepParked { segments: 1, bytes: 100 });
    let step = Db::collect(step, Ok((2, u64::MAX))).unwrap();
    let stats = GcStats { reclaimed_segments: 3, reclaimed_bytes: u64::MAX };
    assert_eq!(step, GcStep::Done(stats));
    db.poison(CommitId(1));
    assert_eq!(
        db.gc_now(),
        Err(PagedbError::DurablyCommittedButUnpublished { commit: CommitId(1) })
    );
}

#[test]
fn the_step_that_fails_ends_a_collection() {
    for step in [
        GcStep::RetryJournal,
        GcStep::DrainTombstones,
        GcStep::SweepParked { segments: 1, bytes: 1 },
    ] {
        assert_eq!(
            Db::collect(step, Err(PagedbError::ReadersPinningTruncatedRange)),
            Err(PagedbError::ReadersPinningTruncatedRange)
        );
    }
}

#[test]
fn the_directory_of_the_main_file() {
    let mut db = store();
    assert_eq!(db.main_db_parent_dir(), "/data");
    db.main_db_path = String::from("/main.db");
    assert_eq!(db.main_db_parent_dir(), "/");
    let a = db.next_segment_id();
    let b = db.next_segment_id();
    assert_ne!(a, b);
    assert_eq!(db.segment_id_counter, 2);
}

#[test]
fn every_linked_segment_is_listed() {
    let catalog = linked(&[(b"b", 2), (b"a", 1)]);
    let listed = catalog_segment_metas(7, &catalog).unwrap();
    assert_eq!(listed.iter().map(|m| m.segment_id[0]).collect::<Vec<u8>>(), vec![1, 2]);
    assert!(catalog_segment_metas(0, &catalog).unwrap().is_empty());
}
