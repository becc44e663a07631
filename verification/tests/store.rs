use pagedb::catalog::CatalogValue;
use pagedb::db::handle::{Db, SegmentReconciliation};
use pagedb::errors::{CorruptionDetail, IoKind, PagedbError};
use pagedb::header::{
    decode_free_list_root, encode_free_list_root, encode_root_ref, fields_catalog_root_page_id,
    fields_catalog_root_txn_id, page_size_log2, select_live_header, MainDbHeaderFields,
};
use pagedb::ids::{ActiveSlot, CipherId, CommitId, RealmId};
use pagedb::mode::DbMode;
use pagedb::options::{encode_retain_policy, OpenOptions, RetainPolicy};
use pagedb::tree::{BTree, TreePages};
use pagedb::write::commit::CommitOutcome;
use pagedb::write::WriteTxn;

const PAGE: usize = 4096;
const REALM: RealmId = RealmId([0x7C; 16]);

fn options(retain: RetainPolicy) -> OpenOptions {
    OpenOptions {
        buffer_pool_pages: 64,
        segment_cache_pages: 16,
        anchor_budget: 64,
        observer_retry_count: 3,
        metrics_enabled: false,
        reader_stall_threshold_pages: 128,
        mmap_view_scratch_bytes: 4096,
        scratch_bytes: 4096,
        skip_freelist_persistence_when_no_readers: false,
        commit_history_retain: retain,
        cipher: CipherId::Aes256Gcm,
    }
}

fn store_with(retain: RetainPolicy) -> (MainDbHeaderFields, Db) {
    match Db::open_internal_with_options_and_cipher(
        String::from("/main.db"),
        PAGE,
        REALM,
        options(retain),
        CipherId::Aes256Gcm,
        [1; 16],
        [2; 16],
        [3; 16],
    ) {
        Ok(opened) => opened,
        Err(e) => panic!("a fresh store opens: {e:?}"),
    }
}

fn store() -> Db {
    store_with(RetainPolicy::Disabled).1
}

/// A session over the rows that the store holds under the writer's roots.
fn begin_over(db: &mut Db, rows: BTree<Vec<u8>>) -> WriteTxn {
    assert!(db.begin_write().unwrap().is_empty());
    assert_eq!(rows.root_page_id(), db.writer.root_page_id);
    let catalog: BTree<CatalogValue> = BTree::new(db.writer.catalog_root_page_id, 4);
    WriteTxn::begin(db, rows, catalog)
}

fn begin(db: &mut Db) -> WriteTxn {
    let rows: BTree<Vec<u8>> = BTree::new(db.writer.root_page_id, 4);
    begin_over(db, rows)
}

fn pages(root: u64, next: u64) -> TreePages {
    TreePages { root_page_id: root, next_page_id: next, freed: vec![] }
}

/// The rows that a written tree leaves in the store's pages under its root.
fn stored(tree: &BTree<Vec<u8>>) -> BTree<Vec<u8>> {
    let mut rows: BTree<Vec<u8>> = BTree::new(tree.root_page_id(), tree.next_page_id());
    for i in 0..tree.len() {
        rows.put(tree.key_at(i), tree.value_at(i).clone());
    }
    rows
}

/// Writes both trees of the session at the given roots and commits it. Hands
/// back the rows that are then in the store's pages too.
fn commit(
    db: &mut Db,
    mut txn: WriteTxn,
    root: u64,
    anchored: bool,
) -> (Result<CommitId, PagedbError>, MainDbHeaderFields, BTree<Vec<u8>>) {
    let plan = txn.plan_commit(db, &vec![], &vec![]);
    txn.flush(&pages(root, root + 1), &pages(root + 1, root + 2));
    let mut history: BTree<Vec<u8>> = BTree::new(db.writer.commit_history_root_page_id, root + 2);
    let staged = txn.stage_commit(db, &plan, 0, &mut history, 50).ok().unwrap();
    let fields = staged.header_fields(db, 9).unwrap();
    let outcome = CommitOutcome {
        header: Ok((ActiveSlot::B, fields.seq)),
        anchored,
        reconciled: Ok(SegmentReconciliation::Complete),
    };
    let rows = stored(&txn.btree);
    (txn.commit(db, &plan, &staged, outcome), fields, rows)
}

#[test]
fn a_committed_row_is_read_and_an_aborted_one_is_not() {
    let mut db = store();
    let mut txn = begin(&mut db);
    txn.put(b"base", b"before");
    assert_eq!(txn.get(b"base").unwrap(), b"before");
    assert!(txn.get(b"other").is_none());
    let (done, _, rows) = commit(&mut db, txn, 10, true);
    assert_eq!(done, Ok(CommitId(1)));
    assert_eq!(db.latest_commit(), CommitId(1));
    let reader = db.begin_read().unwrap();
    assert_eq!(reader.root_page_id, rows.root_page_id());
    assert_eq!(reader.get(&mut db, &rows, b"base").unwrap().unwrap(), b"before");
    assert_eq!(reader.get(&mut db, &rows, b"absent").unwrap(), None);

    let mut txn = begin_over(&mut db, stored(&rows));
    assert_eq!(txn.txn_seq, 2);
    assert_eq!(txn.get(b"base").unwrap(), b"before");
    txn.put(b"base", b"after");
    assert_eq!(txn.abort(&mut db), None);
    assert_eq!(db.latest_commit(), CommitId(1));
    let again = db.begin_read().unwrap();
    assert_eq!(again.get(&mut db, &rows, b"base").unwrap().unwrap(), b"before");
}

#[test]
fn later_readers_read_the_session_and_earlier_ones_read_on() {
    let mut db = store();
    let mut txn = begin(&mut db);
    txn.put(b"a", b"1");
    txn.put(b"b", b"2");
    let (done, _, first) = commit(&mut db, txn, 10, true);
    assert_eq!(done, Ok(CommitId(1)));
    let earlier = db.begin_read().unwrap();

    let mut txn = begin_over(&mut db, stored(&first));
    txn.put(b"a", b"3");
    assert!(txn.delete(b"b"));
    txn.put(b"c", b"4");
    let seen: Vec<Option<Vec<u8>>> =
        [b"a", b"b", b"c"].iter().map(|k| txn.get(*k).cloned()).collect();
    let (done, _, second) = commit(&mut db, txn, 20, true);
    assert_eq!(done, Ok(CommitId(2)));
    let later = db.begin_read().unwrap();
    assert_eq!(later.commit_id(), CommitId(2));
    assert_eq!(later.root_page_id, second.root_page_id());
    let read: Vec<Option<Vec<u8>>> =
        [b"a", b"b", b"c"].iter().map(|k| later.get(&mut db, &second, *k).unwrap()).collect();
    assert_eq!(read, seen);
    assert_eq!(read, vec![Some(b"3".to_vec()), None, Some(b"4".to_vec())]);

    assert_eq!(earlier.root_page_id, first.root_page_id());
    assert_eq!(earlier.get(&mut db, &first, b"a").unwrap().unwrap(), b"1");
    assert_eq!(earlier.get(&mut db, &first, b"b").unwrap().unwrap(), b"2");
    assert_eq!(earlier.get(&mut db, &first, b"c").unwrap(), None);
}

#[test]
fn a_failed_anchor_commit_poisons_the_handle() {
    let mut db = store();
    let mut txn = begin(&mut db);
    txn.put(b"base", b"before");
    assert!(commit(&mut db, txn, 10, true).0.is_ok());
    let base_commit = db.latest_commit();

    let mut txn = begin(&mut db);
    txn.put(b"anchored-000", b"anchored");
    let (failed, fields, _) = commit(&mut db, txn, 20, false);
    let unpublished = match failed {
        Err(PagedbError::DurablyCommittedButUnpublished { commit }) => commit,
        other => panic!("expected an unpublished-commit refusal, got {other:?}"),
    };
    assert!(unpublished > base_commit);
    assert_eq!(db.latest_commit(), base_commit);
    assert!(matches!(
        db.begin_read(),
        Err(PagedbError::DurablyCommittedButUnpublished { .. })
    ));
    assert!(matches!(
        db.begin_write(),
        Err(PagedbError::DurablyCommittedButUnpublished { .. })
    ));

    let reopened = Db::open_existing_inner(
        String::from("/main.db"),
        &fields,
        ActiveSlot::B,
        PAGE,
        REALM,
        options(RetainPolicy::Disabled),
        DbMode::Standalone,
        [3; 16],
    )
    .ok()
    .unwrap();
    assert_eq!(reopened.latest_commit(), unpublished);
    assert_eq!(reopened.snapshot.root_page_id, 20);
    assert!(reopened.ensure_usable().is_ok());
}

#[test]
fn a_poisoned_handle_stays_poisoned_by_the_first_commit() {
    let mut db = store();
    db.poison(CommitId(4));
    db.poison(CommitId(7));
    let refused = Err(PagedbError::DurablyCommittedButUnpublished { commit: CommitId(4) });
    assert_eq!(db.ensure_usable(), refused);
    assert_eq!(db.begin_write().err(), refused.err());
    assert_eq!(
        db.main_db_byte_size(Ok(8192)),
        Err(PagedbError::DurablyCommittedButUnpublished { commit: CommitId(4) })
    );
}

#[test]
fn poison_outlives_the_operations_that_follow() {
    let mut db = store();
    let mut txn = begin(&mut db);
    txn.put(b"k", b"v");
    let reader = db.begin_read().unwrap();
    db.poison(CommitId(4));
    let refused = Err(PagedbError::DurablyCommittedButUnpublished { commit: CommitId(4) });
    let (done, _, _) = commit(&mut db, txn, 10, true);
    assert_eq!(done, Ok(CommitId(1)));
    assert_eq!(db.ensure_usable(), refused);
    reader.close(&mut db);
    assert_eq!(db.ensure_usable(), refused);
    db.drop_unreadable_free_list(false);
    assert_eq!(db.ensure_usable(), refused);
    assert!(db.begin_read().is_err());
    assert_eq!(db.begin_write().err(), refused.err());
}

#[test]
fn a_header_that_is_not_written_leaves_the_handle_alone() {
    let mut db = store();
    let mut txn = begin(&mut db);
    txn.put(b"k", b"v");
    let plan = txn.plan_commit(&db, &vec![3, 40, 2], &vec![41]);
    assert_eq!(plan.commit_id, 1);
    assert_eq!(plan.freed, vec![40, 41]);
    assert!(!plan.to_cache);
    assert!(plan.persists_freed());
    txn.flush(&pages(10, 11), &pages(11, 12));
    let mut history: BTree<Vec<u8>> = BTree::new(0, 12);
    let staged = txn.stage_commit(&db, &plan, 30, &mut history, 50).ok().unwrap();
    let outcome = CommitOutcome {
        header: Err(PagedbError::Io(IoKind::Other)),
        anchored: true,
        reconciled: Ok(SegmentReconciliation::Complete),
    };
    assert_eq!(
        txn.commit(&mut db, &plan, &staged, outcome),
        Err(PagedbError::Io(IoKind::Other))
    );
    assert_eq!(db.latest_commit(), CommitId(0));
    assert_eq!(db.writer.root_page_id, 0);
    assert!(db.ensure_usable().is_ok());
}

#[test]
fn freed_pages_reach_the_cache_only_after_the_header() {
    let mut db = store();
    db.options.skip_freelist_persistence_when_no_readers = true;
    let mut txn = begin(&mut db);
    let plan = txn.plan_commit(&db, &vec![40, 1], &vec![41]);
    txn.flush(&pages(10, 11), &pages(11, 12));
    assert!(plan.to_cache);
    assert!(!plan.persists_freed());
    let mut history: BTree<Vec<u8>> = BTree::new(0, 12);
    let staged = txn.stage_commit(&db, &plan, 0, &mut history, 50).ok().unwrap();
    assert!(db.free_page_cache.is_empty());
    let outcome = CommitOutcome {
        header: Ok((ActiveSlot::B, 2)),
        anchored: true,
        reconciled: Ok(SegmentReconciliation::Complete),
    };
    assert!(txn.commit(&mut db, &plan, &staged, outcome).is_ok());
    assert_eq!(db.free_page_cache, vec![40, 41]);
}

#[test]
fn freed_pages_under_a_retained_root_are_not_cached() {
    let cases = [
        (RetainPolicy::Disabled, 0, true),
        (RetainPolicy::Disabled, 9, false),
        (RetainPolicy::Unbounded, 0, false),
        (RetainPolicy::Unbounded, 9, false),
        (RetainPolicy::Count(4), 9, false),
    ];
    for (retain, history_root, cached) in cases {
        let (_, mut db) = store_with(retain);
        db.options.skip_freelist_persistence_when_no_readers = true;
        db.writer.commit_history_root_page_id = history_root;
        let txn = begin(&mut db);
        let plan = txn.plan_commit(&db, &vec![40], &vec![]);
        assert_eq!(plan.to_cache, cached);
        assert_eq!(plan.persists_freed(), !cached);
    }
}

#[test]
fn freed_pages_of_a_reader_that_came_late_are_left_alone() {
    let mut db = store();
    db.options.skip_freelist_persistence_when_no_readers = true;
    let mut txn = begin(&mut db);
    let plan = txn.plan_commit(&db, &vec![40], &vec![]);
    assert!(plan.to_cache);
    let _late = db.begin_read().unwrap();
    txn.flush(&pages(10, 11), &pages(11, 12));
    let mut history: BTree<Vec<u8>> = BTree::new(0, 12);
    let staged = txn.stage_commit(&db, &plan, 0, &mut history, 50).ok().unwrap();
    let outcome = CommitOutcome {
        header: Ok((ActiveSlot::B, 2)),
        anchored: true,
        reconciled: Ok(SegmentReconciliation::Complete),
    };
    assert!(txn.commit(&mut db, &plan, &staged, outcome).is_ok());
    assert!(db.free_page_cache.is_empty());
}

#[test]
fn the_scratch_of_dropped_sessions_is_handed_to_the_next() {
    let mut db = store();
    let mut txn = begin(&mut db);
    assert!(txn.spill_scope().plan_append(&db, 5).is_ok());
    db.spill_bytes_in_use = 21;
    txn.let_go(&mut db);
    assert_eq!(db.spill_bytes_in_use, 0);
    assert_eq!(db.begin_write().unwrap(), vec![String::from("tmp/scratch-1")]);
    assert!(db.begin_write().unwrap().is_empty());

    let spilled = {
        let mut txn = begin(&mut db);
        assert!(txn.spill_scope().plan_append(&db, 5).is_ok());
        txn
    };
    let plain = begin(&mut db);
    spilled.let_go(&mut db);
    plain.let_go(&mut db);
    db.poison(CommitId(4));
    assert!(db.begin_write().is_err());
    assert_eq!(db.orphaned_spill_paths, vec![String::from("tmp/scratch-2")]);
}

#[test]
fn a_commit_header_names_the_commit() {
    let (_, mut db) = store_with(RetainPolicy::Count(8));
    let mut txn = begin(&mut db);
    let plan = txn.plan_commit(&db, &vec![], &vec![]);
    txn.flush(&pages(10, 11), &pages(11, 12));
    let mut history: BTree<Vec<u8>> = BTree::new(0, 12);
    let mut staged = txn.stage_commit(&db, &plan, 30, &mut history, 50).ok().unwrap();
    assert!(staged.history_changed);
    assert_eq!(history.len(), 1);
    let freed = staged.adopt_history(&TreePages {
        root_page_id: 12,
        next_page_id: 13,
        freed: vec![3, 9],
    });
    assert_eq!(freed, vec![9]);
    let f = staged.header_fields(&db, 9).unwrap();
    assert_eq!(f.commit_id, CommitId(1));
    assert_eq!(f.active_root_page_id, 10);
    assert_eq!(f.catalog_root, encode_root_ref(11, 1));
    assert_eq!(f.free_list_root, encode_free_list_root(30));
    assert_eq!(f.commit_history_root_page_id, 12);
    assert_eq!(f.commit_history_root_version, 1);
    assert_eq!(f.next_page_id, 13);
    assert_eq!((f.commit_retain_policy_tag, f.commit_retain_policy_value), (0, 8));
    db.header_cursor.seq = u64::MAX;
    assert_eq!(
        staged.header_fields(&db, 9).err(),
        Some(PagedbError::ArithmeticOverflow { what: "header sequence" })
    );
    db.header_cursor.seq = 1;
    db.page_size = 5000;
    assert_eq!(staged.header_fields(&db, 9).err(), Some(PagedbError::Unsupported));
}

#[test]
fn the_cursor_never_moves_behind_either_tree() {
    let mut db = store();
    let mut txn = begin(&mut db);
    txn.btree.set_next_page_id(30);
    txn.sync_allocator_to_catalog();
    assert_eq!(txn.catalog_tree.next_page_id(), 30);
    txn.catalog_tree.set_next_page_id(33);
    txn.sync_allocator_from_catalog();
    assert_eq!(txn.btree.next_page_id(), 33);
}

#[test]
fn row_operations_of_a_session() {
    let mut db = store();
    let mut txn = begin(&mut db);
    txn.put_batch(vec![
        (b"a".to_vec(), b"1".to_vec()),
        (b"b".to_vec(), b"2".to_vec()),
        (b"a".to_vec(), b"3".to_vec()),
        (b"c".to_vec(), b"4".to_vec()),
    ]);
    assert_eq!(txn.get(b"a").unwrap(), b"3");
    txn.delete_batch(vec![b"b".to_vec(), b"z".to_vec()]);
    assert!(txn.get(b"b").is_none());
    assert!(txn.delete(b"c"));
    assert!(!txn.delete(b"c"));
    assert_eq!(txn.put_append(b"k", b"1"), Ok(()));
    assert_eq!(txn.put_append(b"k", b"2"), Err(PagedbError::AppendNotMonotonic));
    assert_eq!(txn.put_append(b"j", b"2"), Err(PagedbError::AppendNotMonotonic));
    assert_eq!(txn.put_append(b"ka", b"2"), Ok(()));
    assert_eq!(txn.delete_range(b"a", b"ka"), 2);
    assert!(txn.get(b"a").is_none());
    assert_eq!(txn.get(b"ka").unwrap(), b"2");
}

#[test]
fn scans_give_the_rows_in_order() {
    let mut db = store();
    db.snapshot.root_page_id = 10;
    let reader = db.begin_read().unwrap();
    let mut rows: BTree<Vec<u8>> = BTree::new(10, 12);
    for (k, v) in [(b"b", b"2"), (b"a", b"1"), (b"c", b"3")] {
        rows.put(k, v.to_vec());
    }
    let up = reader.scan(&mut db, &rows, b"a", b"c").unwrap();
    assert_eq!(up, vec![(b"a".to_vec(), b"1".to_vec()), (b"b".to_vec(), b"2".to_vec())]);
    let down = reader.scan_rev(&mut db, &rows, b"a", b"c").unwrap();
    assert_eq!(down, vec![(b"b".to_vec(), b"2".to_vec()), (b"a".to_vec(), b"1".to_vec())]);
    let c = reader.scan_prefix(&mut db, &rows, b"c").unwrap();
    assert_eq!(c, vec![(b"c".to_vec(), b"3".to_vec())]);
    assert!(reader.scan(&mut db, &rows, b"c", b"a").unwrap().is_empty());
}

#[test]
fn header_fields_have_fixed_encodings() {
    assert_eq!(page_size_log2(4096), Ok(12));
    assert_eq!(page_size_log2(65536), Ok(16));
    assert_eq!(page_size_log2(2048), Err(PagedbError::Unsupported));
    assert_eq!(page_size_log2(6000), Err(PagedbError::Unsupported));
    assert_eq!(
        encode_root_ref(0x0102, 3),
        [2, 1, 0, 0, 0, 0, 0, 0, 3, 0, 0, 0, 0, 0, 0, 0]
    );
    assert_eq!(decode_free_list_root(&encode_free_list_root(77)), 77);
    assert_eq!(encode_retain_policy(&RetainPolicy::Count(7)), (0, 7));
    assert_eq!(encode_retain_policy(&RetainPolicy::Age(60)), (1, 60));
    assert_eq!(encode_retain_policy(&RetainPolicy::Unbounded), (2, 0));
    assert_eq!(encode_retain_policy(&RetainPolicy::Disabled), (3, 0));
    let (mut f, _) = store_with(RetainPolicy::Disabled);
    f.catalog_root = encode_root_ref(11, 5);
    assert_eq!(fields_catalog_root_page_id(&f), 11);
    assert_eq!(fields_catalog_root_txn_id(&f), 5);
}

#[test]
fn the_newer_authenticated_slot_is_live() {
    let (a, _) = store_with(RetainPolicy::Disabled);
    let mut b = a;
    b.seq = 2;
    assert_eq!(select_live_header(Some(a), Some(b)).unwrap().1, ActiveSlot::B);
    assert_eq!(select_live_header(Some(b), Some(a)).unwrap().1, ActiveSlot::A);
    assert_eq!(select_live_header(None, Some(a)).unwrap().1, ActiveSlot::B);
    assert!(select_live_header(None, None).is_none());
}

#[test]
fn a_fresh_store_is_empty_and_reopens_empty() {
    let (fields, db) = store_with(RetainPolicy::Disabled);
    assert_eq!(fields.seq, 1);
    assert_eq!(fields.next_page_id, 4);
    assert_eq!(db.latest_commit(), CommitId(0));
    assert_eq!(db.next_page_id(), 4);
    assert!(db.write_lock_satisfied());
    assert!(!db.holds_write_lock());
    let reopened = Db::open_existing_inner(
        String::from("/main.db"),
        &fields,
        ActiveSlot::A,
        PAGE,
        REALM,
        options(RetainPolicy::Disabled),
        DbMode::Standalone,
        [3; 16],
    )
    .ok()
    .unwrap();
    assert_eq!(reopened.writer.root_page_id, 0);
    assert_eq!(reopened.writer.next_page_id, 4);
    assert_eq!(reopened.header_cursor.seq, 1);
    assert!(matches!(
        Db::open_internal_with_options_and_cipher(
            String::from("/main.db"),
            1000,
            REALM,
            options(RetainPolicy::Disabled),
            CipherId::Aes256Gcm,
            [1; 16],
            [2; 16],
            [3; 16],
        ),
        Err(PagedbError::Unsupported)
    ));
}

#[test]
fn an_unreadable_chain_is_detached_and_the_roots_survive() {
    let mut db = store();
    db.writer.root_page_id = 10;
    db.writer.free_list_root_page_id = 12;
    db.drop_unreadable_free_list(false);
    assert_eq!(db.writer.free_list_root_page_id, 0);
    assert_eq!(db.writer.root_page_id, 10);
}

#[test]
fn a_readable_chain_is_left_intact() {
    let mut db = store();
    db.writer.free_list_root_page_id = 12;
    let before = db.writer.free_list_root_page_id;
    db.drop_unreadable_free_list(true);
    assert_eq!(db.writer.free_list_root_page_id, before);
}

#[test]
fn an_empty_chain_is_a_no_op() {
    let mut db = store();
    assert_eq!(db.writer.free_list_root_page_id, 0);
    db.drop_unreadable_free_list(true);
    assert_eq!(db.writer.free_list_root_page_id, 0);
}

#[test]
fn a_damaged_row_names_its_field() {
    assert_eq!(
        PagedbError::catalog_row_invalid("counter.value"),
        PagedbError::Corruption(CorruptionDetail::CatalogRowInvalid { field: "counter.value" })
    );
    let mut tree: BTree<CatalogValue> = BTree::new(3, 9);
    assert_eq!((tree.root_page_id(), tree.next_page_id(), tree.len()), (3, 9, 0));
    tree.set_pages(4, 10);
    assert_eq!((tree.root_page_id(), tree.next_page_id()), (4, 10));
}
