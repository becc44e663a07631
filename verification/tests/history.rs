use pagedb::catalog::{Catalog, CatalogValue, SegmentMeta};
use pagedb::db::handle::Db;
use pagedb::db::history::{
    adopt_history_pages, allocatable_pages, count_history_rows, decode_commit_meta,
    encode_commit_meta, encode_history_key, prune_history_by_age, prune_oldest_history_rows,
    CommitHistoryMeta,
};
use pagedb::db::pending::PendingWriterState;
use pagedb::db::reader::oldest_reader_commit;
use pagedb::db::reclaim::{required_extent, FreeListFold};
use pagedb::errors::{CorruptionDetail, PagedbError};
use pagedb::ids::{CipherId, CommitId, RealmId};
use pagedb::options::{OpenOptions, RetainPolicy};
use pagedb::policy::ReaderStallPolicy;
use pagedb::sets::PageSet;
use pagedb::tree::{BTree, TreePages};
use pagedb::write::WriteTxn;

const PAGE: usize = 4096;
const REALM: RealmId = RealmId([0xA7; 16]);

fn store(retain: RetainPolicy) -> Db {
    let options = OpenOptions {
        buffer_pool_pages: 64,
        segment_cache_pages: 16,
        anchor_budget: 64,
        observer_retry_count: 3,
        metrics_enabled: false,
        reader_stall_threshold_pages: 10,
        mmap_view_scratch_bytes: 4096,
        scratch_bytes: 4096,
        skip_freelist_persistence_when_no_readers: false,
        commit_history_retain: retain,
        cipher: CipherId::Aes256Gcm,
    };
    match Db::open_internal_with_options_and_cipher(
        String::from("/main.db"),
        PAGE,
        REALM,
        options,
        CipherId::Aes256Gcm,
        [1; 16],
        [2; 16],
        [3; 16],
    ) {
        Ok((_, db)) => db,
        Err(e) => panic!("a fresh store opens: {e:?}"),
    }
}

fn meta(root: u64, seconds: u64) -> CommitHistoryMeta {
    CommitHistoryMeta {
        active_root_page_id: root,
        catalog_root_page_id: root + 1,
        free_list_root_page_id: 0,
        next_page_id: root + 2,
        unix_seconds: seconds,
    }
}

fn history(commits: &[u64]) -> BTree<Vec<u8>> {
    let mut tree: BTree<Vec<u8>> = BTree::new(9, 40);
    for commit in commits {
        tree.put(&encode_history_key(*commit), encode_commit_meta(&meta(commit * 10, *commit)));
    }
    tree
}

fn malformed_key_is_reported() {
    for malformed_key in [b"x".as_slice(), b"123456789".as_slice()] {
        let db = store(RetainPolicy::Unbounded);
        let mut rows: BTree<Vec<u8>> = BTree::new(0, 4);
        rows.put(malformed_key, b"malformed history".to_vec());
        let err = db
            .oldest_retained_history_commit(5, &rows)
            .expect_err("malformed history key must surface");
        assert!(matches!(err, PagedbError::Corruption(_)));
    }
}

#[test]
fn catalog_oldest_retained_history_commit_surfaces_malformed_history_key() {
    malformed_key_is_reported();
}

#[test]
fn history_oldest_retained_history_commit_surfaces_malformed_history_key() {
    malformed_key_is_reported();
}

#[test]
fn history_rows_survive_their_encoding() {
    let m = meta(0x0102, 99);
    let bytes = encode_commit_meta(&m);
    assert_eq!(bytes.len(), 40);
    assert_eq!(&bytes[..8], &[2, 1, 0, 0, 0, 0, 0, 0]);
    assert_eq!(decode_commit_meta(&bytes), Ok(m));
    let mut longer = bytes.clone();
    longer.push(7);
    assert_eq!(decode_commit_meta(&longer), Ok(m));
    assert_eq!(
        decode_commit_meta(&bytes[..39]),
        Err(PagedbError::Corruption(CorruptionDetail::CatalogRowInvalid {
            field: "commit_history.meta"
        }))
    );
    assert_eq!(encode_history_key(258), vec![0, 0, 0, 0, 0, 0, 1, 2]);
}

#[test]
fn retention_by_count_keeps_the_newest() {
    let db = store(RetainPolicy::Count(2));
    let mut tree = history(&[1, 2, 3]);
    let mut pending = PendingWriterState::capture(&db.writer);
    pending.commit_history_count = None;
    assert!(db.write_commit_history_entry(&mut pending, &mut tree, 4, meta(40, 4), 4).is_ok());
    assert_eq!(count_history_rows(&tree), 2);
    assert_eq!(pending.commit_history_count, Some(2));
    assert!(tree.get(&encode_history_key(2)).is_none());
    assert!(tree.get(&encode_history_key(3)).is_some());
}

#[test]
fn pruning_spares_a_pinned_commit() {
    let mut db = store(RetainPolicy::Count(1));
    db.snapshot.commit_id = 2;
    let _reader = db.begin_read().unwrap();
    let mut tree = history(&[1, 2, 3]);
    let mut pending = PendingWriterState::capture(&db.writer);
    pending.commit_history_count = None;
    assert!(db.write_commit_history_entry(&mut pending, &mut tree, 4, meta(40, 4), 4).is_ok());
    assert_eq!(count_history_rows(&tree), 3);
    assert!(tree.get(&encode_history_key(1)).is_none());
    assert!(tree.get(&encode_history_key(2)).is_some());
}

#[test]
fn retention_by_age_prunes_the_old() {
    let mut tree = history(&[1, 2, 30]);
    let new_key = encode_history_key(30);
    assert_eq!(prune_history_by_age(&mut tree, &new_key, None, 100), Ok(2));
    assert_eq!(count_history_rows(&tree), 1);
    let mut tree = history(&[1, 2, 30]);
    assert_eq!(prune_history_by_age(&mut tree, &new_key, Some(2), 100), Ok(1));
    let mut tree = history(&[5]);
    assert_eq!(prune_history_by_age(&mut tree, &new_key, None, 5), Ok(0));
    let mut tree = history(&[1, 2, 3]);
    assert_eq!(prune_oldest_history_rows(&mut tree, 2, None), Ok(2));
    tree.put(b"0", vec![]);
    assert!(prune_oldest_history_rows(&mut tree, 9, None).is_err());
}

#[test]
fn unbounded_history_grows_and_disabled_history_is_left() {
    let db = store(RetainPolicy::Unbounded);
    let mut tree = history(&[1]);
    let mut pending = PendingWriterState::capture(&db.writer);
    pending.commit_history_count = Some(1);
    assert!(db.write_commit_history_entry(&mut pending, &mut tree, 2, meta(20, 2), 2).is_ok());
    assert_eq!(pending.commit_history_count, Some(2));
    assert_eq!(count_history_rows(&tree), 2);
    let pages = TreePages { root_page_id: 50, next_page_id: 60, freed: vec![2, 45] };
    assert_eq!(adopt_history_pages(&mut pending, 2, &pages), vec![45]);
    assert_eq!(pending.commit_history_root_page_id, 50);
    let mut state = db.writer;
    pending.publish(&mut state);
    assert_eq!(state.commit_history_root_version, 2);
    assert_eq!(allocatable_pages(&vec![0, 3, 4, 5]), vec![4, 5]);
}

#[test]
fn a_read_of_the_past_resolves_through_history() {
    let mut db = store(RetainPolicy::Unbounded);
    db.snapshot.commit_id = 5;
    db.snapshot.root_page_id = 50;
    let rows = history(&[2, 3]);
    assert_eq!(
        db.begin_read_at(CommitId(2), &rows).err(),
        Some(PagedbError::CommitGone { commit: CommitId(2), oldest_available: CommitId(5) })
    );
    db.snapshot.commit_history_root_page_id = 9;
    let past = db.begin_read_at(CommitId(2), &rows).ok().unwrap();
    assert_eq!((past.root_page_id, past.catalog_root_page_id, past.next_page_id), (20, 21, 22));
    let latest = db.begin_read_at(CommitId(5), &rows).ok().unwrap();
    assert_eq!(latest.root_page_id, 50);
    assert_eq!(
        db.begin_read_at(CommitId(4), &rows).err(),
        Some(PagedbError::CommitGone { commit: CommitId(4), oldest_available: CommitId(2) })
    );
    assert_eq!(oldest_reader_commit(&db.tracked_readers), Some(2));
}

#[test]
fn the_floor_protects_readers_and_history() {
    let mut db = store(RetainPolicy::Unbounded);
    let rows = history(&[3, 4]);
    let mut state = db.writer;
    assert_eq!(db.reclamation_floor(&state, &rows), Ok(u64::MAX));
    state.commit_history_root_page_id = 9;
    assert_eq!(db.oldest_retained_history_commit(9, &rows), Ok(Some(3)));
    assert_eq!(db.reclamation_floor(&state, &rows), Ok(4));
    db.snapshot.commit_id = 2;
    let reader = db.begin_read().unwrap();
    assert_eq!(db.reclamation_floor(&state, &rows), Ok(2));
    reader.close(&mut db);
    assert_eq!(db.reclamation_floor(&state, &rows), Ok(4));
}

#[test]
fn a_reader_keeps_its_snapshot_and_is_aborted_once() {
    let mut db = store(RetainPolicy::Disabled);
    db.snapshot.root_page_id = 10;
    let old = db.begin_read().unwrap();
    db.writer.root_page_id = 20;
    let state = db.writer;
    db.publish_snapshot(&state);
    assert_eq!(old.root_page_id, 10);
    assert_eq!(db.begin_read().unwrap().root_page_id, 20);

    assert_eq!(db.reader_stall_policy(), ReaderStallPolicy::AbortOldest);
    assert_eq!(db.evaluate_stall_policy(10), Ok(()));
    assert!(db.aborted_readers.is_empty());
    assert_eq!(db.evaluate_stall_policy(11), Ok(()));
    assert_eq!(old.check_abort(&mut db), Err(PagedbError::Aborted));
    assert_eq!(old.check_abort(&mut db), Ok(()));
}

#[test]
fn a_backlog_that_readers_hold_refuses_the_commit() {
    let mut db = store(RetainPolicy::Disabled);
    db.snapshot.commit_id = 3;
    let internal = db.begin_read_non_abortable().unwrap();
    let txn = WriteTxn::begin(&mut db, BTree::new(0, 4), BTree::new(0, 4));
    let refused = Err(PagedbError::DeferredFreeBacklog { pending: 11, oldest_commit: 3 });
    let plan = txn.plan_commit(&db, &vec![40], &vec![]);
    assert_eq!(txn.check_backlog(&mut db, &plan, 11, None), refused);
    let idle = txn.plan_commit(&db, &vec![], &vec![]);
    assert_eq!(txn.check_backlog(&mut db, &idle, 99, Some(160)), Ok(()));
    assert_eq!(
        txn.check_backlog(&mut db, &idle, 99, Some(176)),
        Err(PagedbError::DeferredFreeBacklog { pending: 11, oldest_commit: 3 })
    );
    db.set_reader_stall_policy(ReaderStallPolicy::Unbounded);
    assert_eq!(txn.check_backlog(&mut db, &plan, 11, None), Ok(()));
    db.set_reader_stall_policy(ReaderStallPolicy::Reject);
    internal.close(&mut db);
    assert_eq!(txn.check_backlog(&mut db, &plan, 11, None), Ok(()));
    assert_eq!(ReaderStallPolicy::default(), ReaderStallPolicy::AbortOldest);
}

#[test]
fn an_apply_folds_the_free_list() {
    let db = store(RetainPolicy::Disabled);
    let state = db.writer;
    let rows = history(&[]);
    let target = PageSet::from_ids(&vec![20, 21]);
    let reclaimed = PageSet::from_ids(&vec![50]);
    match db.stage_reclaimed_free_list(
        &state,
        &vec![(1, 20), (2, 30)],
        &vec![40],
        &reclaimed,
        &target,
        7,
        60,
        &rows,
    ) {
        Ok(FreeListFold::Rewrite { entries, host_candidates, next_page_id }) => {
            assert_eq!(entries, vec![(2, 30), (7, 50), (0, 40)]);
            assert_eq!(host_candidates, vec![30]);
            assert_eq!(next_page_id, 60);
        }
        _ => panic!("expected the chain to be rewritten"),
    }
    assert!(matches!(
        db.stage_reclaimed_free_list(
            &state,
            &vec![(2, 30)],
            &vec![40],
            &PageSet::new(),
            &target,
            7,
            60,
            &rows
        ),
        Ok(FreeListFold::Unchanged { free_list_root_page_id: 0, next_page_id: 60 })
    ));
    assert!(matches!(
        db.stage_reclaimed_free_list(
            &state,
            &vec![(2, 50)],
            &vec![],
            &reclaimed,
            &target,
            7,
            60,
            &rows
        ),
        Err(PagedbError::Corruption(_))
    ));
    assert_eq!(required_extent(4096, 3), Ok(12288));
    assert_eq!(
        required_extent(4096, u64::MAX),
        Err(PagedbError::ArithmeticOverflow { what: "main.db extent" })
    );
    assert_eq!(db.ensure_image_covers_cursor(8192, 3), Ok(Some(12288)));
    assert_eq!(db.ensure_image_covers_cursor(12288, 3), Ok(None));
}

#[test]
fn a_reader_resolves_segments_at_its_snapshot() {
    let mut db = store(RetainPolicy::Disabled);
    db.snapshot.catalog_root_page_id = 7;
    let reader = db.begin_read().unwrap();
    let mut catalog: BTree<CatalogValue> = BTree::new(7, 20);
    let linked = SegmentMeta {
        segment_id: [1; 16],
        realm_id: REALM,
        segment_kind: 0,
        evictable: 0,
        format_version: 2,
        cipher_id: 1,
        mk_epoch: 0,
        page_count: 3,
        total_bytes: 12288,
    };
    catalog.put(&Catalog::segment_key(REALM, b"old").unwrap(), CatalogValue::Segment(linked));
    let (found, budget) = reader.open_segment(&mut db, &catalog, "old").ok().unwrap();
    assert_eq!(found.segment_id, [1; 16]);
    assert_eq!(budget, 4096);
    assert_eq!(
        reader.open_segment(&mut db, &catalog, "new").err(),
        Some(PagedbError::NotFound)
    );
    assert_eq!(reader.list_segments(&mut db, &catalog, "o").ok().unwrap().len(), 1);
    assert_eq!(reader.list_segments(&mut db, &catalog, "n").ok().unwrap().len(), 0);
    assert_eq!(db.segment_id_is_reader_pinned(&[1; 16], &vec![catalog]), Ok(true));
}

#[test]
fn closing_a_pinned_reader_queues_its_pin_for_deletion() {
    let mut db = store(RetainPolicy::Disabled);
    let plain = db.begin_read().unwrap();
    let pinned = db.begin_read().unwrap().with_durable_pin(42, 7);
    plain.close(&mut db);
    assert!(db.drain_pending_pin_deletes().is_empty());
    pinned.close(&mut db);
    assert!(db.tracked_readers.is_empty());
    assert_eq!(db.drain_pending_pin_deletes(), vec![(42, 7)]);
    assert!(db.drain_pending_pin_deletes().is_empty());
}
