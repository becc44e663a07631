use pagedb::catalog::{Catalog, CatalogValue, RealmQuotas, ReaderPinValue, SegmentMeta};
use pagedb::clock::{
    capped_nanos, lease_id, next_lease_id, segment_id, unix_now_seconds, whole_seconds,
    wrapped_nanos, Instant,
};
use pagedb::db::catalog_commit::{recover_counter_monotonicity, validate_counter_rows};
use pagedb::db::handle::Db;
use pagedb::db::misc::PagerStats;
use pagedb::db::pins::{
    cleanup_stale_reader_pins, delete_pin_rows, insert_pin_row, min_durable_reader_commit,
    PIN_LEASE_SECONDS,
};
use pagedb::errors::{CorruptionDetail, IoKind, PagedbError, QuotaKind};
use pagedb::ids::{ActiveSlot, CipherId, CommitId, RealmId};
use pagedb::options::{OpenOptions, RetainPolicy};
use pagedb::paths::{
    compaction_path, live_path, parse_segment_id, spill_path, staging_path, tombstone_path,
};
use pagedb::tree::{BTree, TreePages};
use pagedb::write::spill::SpillKeyInputs;
use pagedb::write::segments::{committed_segment_bytes, quotas_of};
use pagedb::write::{CounterRef, WriteTxn};

const PAGE: usize = 4096;
const REALM: RealmId = RealmId([0xA7; 16]);

fn options() -> OpenOptions {
    OpenOptions {
        buffer_pool_pages: 64,
        segment_cache_pages: 16,
        anchor_budget: 64,
        observer_retry_count: 3,
        metrics_enabled: false,
        reader_stall_threshold_pages: 128,
        mmap_view_scratch_bytes: 4096,
        scratch_bytes: 100,
        skip_freelist_persistence_when_no_readers: false,
        commit_history_retain: RetainPolicy::Disabled,
        cipher: CipherId::Aes256Gcm,
    }
}

fn store() -> Db {
    match Db::open_internal_with_options_and_cipher(
        String::from("/main.db"),
        PAGE,
        REALM,
        options(),
        CipherId::Aes256Gcm,
        [1; 16],
        [2; 16],
        [3; 16],
    ) {
        Ok((_, db)) => db,
        Err(e) => panic!("a fresh store opens: {e:?}"),
    }
}

fn begin(db: &mut Db) -> WriteTxn {
    WriteTxn::begin(db, BTree::new(0, 4), BTree::new(0, 4))
}

fn segment(id: u8, bytes: u64) -> SegmentMeta {
    SegmentMeta {
        segment_id: [id; 16],
        realm_id: REALM,
        segment_kind: 0,
        evictable: 0,
        format_version: 2,
        cipher_id: 1,
        mk_epoch: 0,
        page_count: 3,
        total_bytes: bytes,
    }
}

fn invalid(field: &'static str) -> PagedbError {
    PagedbError::Corruption(CorruptionDetail::CatalogRowInvalid { field })
}

fn malformed_counter() -> BTree<CatalogValue> {
    let mut catalog: BTree<CatalogValue> = BTree::new(7, 20);
    catalog.put(&Catalog::counter_key(b"bad-counter").unwrap(), CatalogValue::Counter(5));
    catalog.put(&Catalog::counter_key(&[0xFF]).unwrap(), CatalogValue::Malformed);
    catalog
}

#[test]
fn catalog_counter_recovery_surfaces_malformed_counter_row() {
    assert_eq!(Catalog::decode_counter(b"bad"), Err(invalid("counter.value")));
    let err = validate_counter_rows(7, &malformed_counter())
        .expect_err("malformed counter row must surface during recovery validation");
    assert!(matches!(err, PagedbError::Corruption(_)));
}

#[test]
fn counters_counter_recovery_surfaces_malformed_counter_row() {
    let catalog = malformed_counter();
    let err = validate_counter_rows(catalog.root_page_id(), &catalog)
        .expect_err("malformed counter row must surface during recovery validation");
    assert!(matches!(err, PagedbError::Corruption(_)));
    assert_eq!(validate_counter_rows(0, &catalog), Ok(()));
}

#[test]
fn counters_are_validated_across_batches() {
    let mut catalog: BTree<CatalogValue> = BTree::new(7, 20);
    for i in 0..1100u32 {
        let name = i.to_be_bytes();
        catalog.put(&Catalog::counter_key(&name).unwrap(), CatalogValue::Counter(1));
    }
    assert_eq!(validate_counter_rows(7, &catalog), Ok(()));
    catalog.put(
        &Catalog::counter_key(&1050u32.to_be_bytes()).unwrap(),
        CatalogValue::Malformed,
    );
    assert_eq!(validate_counter_rows(7, &catalog), Err(invalid("counter.value")));
}

#[test]
fn counters_recover_to_the_anchor() {
    let mut catalog: BTree<CatalogValue> = BTree::new(7, 20);
    let low = Catalog::counter_key(b"low").unwrap();
    let high = Catalog::counter_key(b"high").unwrap();
    catalog.put(&low, CatalogValue::Counter(3));
    catalog.put(&high, CatalogValue::Counter(30));
    assert!(recover_counter_monotonicity(&mut catalog, 10));
    assert!(matches!(catalog.get(&low), Some(CatalogValue::Counter(10))));
    assert!(matches!(catalog.get(&high), Some(CatalogValue::Counter(30))));
    assert!(!recover_counter_monotonicity(&mut catalog, 10));
}

#[test]
fn a_counter_never_goes_backward() {
    let mut db = store();
    let mut txn = begin(&mut db);
    txn.btree.set_next_page_id(40);
    {
        let mut a = txn.counter("a").ok().unwrap();
        assert_eq!(a.get(), Ok(0));
        assert_eq!(a.set(5), Ok(()));
        assert_eq!(a.set(4), Err(PagedbError::Aborted));
        assert_eq!(a.increment_by(3), Ok(8));
        assert_eq!(a.increment_by(u64::MAX), Err(PagedbError::NonceCounterExhausted));
        assert_eq!(a.get(), Ok(8));
    }
    assert_eq!(txn.catalog_tree.next_page_id(), 40);
    {
        let b = txn.counter("").ok().unwrap();
        assert_eq!(b.get(), Ok(0));
    }
    let long = "x".repeat(1025);
    assert!(matches!(txn.counter(&long).err(), Some(PagedbError::NameTooLong)));
    txn.catalog_tree.put(&Catalog::counter_key(b"c").unwrap(), CatalogValue::Malformed);
    let mut c = txn.counter("c").ok().unwrap();
    assert_eq!(c.set(1), Err(invalid("counter.value")));
    CounterRef::sync_from(&BTree::new(0, 50), c.main_tree);
    assert_eq!(txn.btree.next_page_id(), 50);
}

#[test]
fn stats_surfaces_malformed_segment_catalog_row() {
    let mut db = store();
    let mut catalog: BTree<CatalogValue> = BTree::new(7, 20);
    catalog.put(
        &Catalog::segment_key(REALM, b"good").unwrap(),
        CatalogValue::Segment(segment(1, 300)),
    );
    db.snapshot.catalog_root_page_id = 7;
    let pager = PagerStats {
        main_db_bytes: 8192,
        buffer_pool_pages: 3,
        buffer_pool_hits: 4,
        buffer_pool_misses: 5,
        dirty_pages: 6,
        free_list_pending_entries: 7,
    };
    let stats = db.stats(&catalog, &pager).ok().unwrap();
    assert_eq!(stats.segments_live, 1);
    assert_eq!(stats.segments_total_bytes, 300);
    assert_eq!(stats.main_db_bytes, 8192);
    catalog.put(&Catalog::segment_key(REALM, b"bad").unwrap(), CatalogValue::Malformed);
    let err = db
        .stats(&catalog, &pager)
        .err()
        .expect("malformed segment metadata must surface");
    assert!(matches!(err, PagedbError::Corruption(_)));
}

#[test]
fn quotas_are_stored_and_enforced() {
    let mut db = store();
    let mut txn = begin(&mut db);
    let caps = RealmQuotas { max_pages: None, max_segment_bytes: Some(1000) };
    db.set_realm_quotas(&mut txn.catalog_tree, REALM, caps).unwrap();
    assert_eq!(db.realm_quotas(&txn.catalog_tree, REALM), Ok(caps));
    assert_eq!(quotas_of(&txn.catalog_tree, RealmId([0; 16])), Ok(RealmQuotas::default()));

    assert_eq!(txn.link_segment("a", &segment(1, 600)), Ok(()));
    assert_eq!(committed_segment_bytes(&txn.catalog_tree, REALM), Ok(600));
    assert_eq!(
        txn.link_segment("", &segment(2, 401)),
        Err(PagedbError::Quota {
            realm: REALM,
            kind: QuotaKind::SegmentBytes,
            requested: 1001,
            limit: 1000,
        })
    );
    assert_eq!(txn.link_segment("", &segment(2, 400)), Ok(()));
    assert_eq!(txn.link_segment("", &segment(2, 1)), Err(PagedbError::AlreadyLinked));
    assert_eq!(txn.replace_segment("a", &segment(3, 600)), Ok(()));
    assert!(txn.replace_segment("a", &segment(4, 601)).is_err());
    assert_eq!(txn.unlink_segment(""), Ok(()));
    assert_eq!(txn.unlink_segment(""), Err(PagedbError::NotLinked));
    assert_eq!(txn.pending_segments.len(), 5);
    db.poison(CommitId(1));
    assert!(db.set_realm_quotas(&mut txn.catalog_tree, REALM, caps).is_err());
    assert!(db.realm_quotas(&txn.catalog_tree, REALM).is_err());
}

#[test]
fn a_catalog_commit_moves_only_the_catalog() {
    let mut db = store();
    db.writer.root_page_id = 10;
    db.writer.free_list_root_page_id = 30;
    db.writer.next_page_id = 40;
    let pages = TreePages { root_page_id: 12, next_page_id: 35, freed: vec![] };
    let c = db.catalog_micro_commit(&pages);
    assert_eq!((c.catalog_root_page_id, c.next_page_id, c.commit_id), (12, 40, 1));
    let f = db.catalog_header_fields(&c, 9).ok().unwrap();
    assert_eq!(f.active_root_page_id, 10);
    assert_eq!(f.commit_id, CommitId(1));
    assert_eq!(
        db.finish_catalog_commit(&c, Err(PagedbError::Io(IoKind::Other)), true),
        Err(PagedbError::Io(IoKind::Other))
    );
    assert_eq!(db.writer.catalog_root_page_id, 0);
    assert_eq!(db.finish_catalog_commit(&c, Ok((ActiveSlot::B, 2)), true), Ok(()));
    assert_eq!(db.writer.catalog_root_page_id, 12);
    assert_eq!(db.snapshot.root_page_id, 10);
    assert_eq!(db.snapshot.free_list_root_page_id, 30);
    let q = db.quota_commit(&pages).ok().unwrap();
    assert_eq!((q.catalog_root_txn_id, q.commit_id), (2, 1));
    assert!(db.finish_catalog_commit(&c, Ok((ActiveSlot::A, 3)), false).is_err());
    assert!(db.ensure_usable().is_err());
    db.writer.latest_commit_id = u64::MAX;
    assert_eq!(
        db.quota_commit(&pages).err(),
        Some(PagedbError::ArithmeticOverflow { what: "catalog transaction id" })
    );
}

#[test]
fn reader_pins_are_leased() {
    let mut catalog: BTree<CatalogValue> = BTree::new(7, 20);
    insert_pin_row(&mut catalog, 100, 1, 6, 10, 11, 1000, PIN_LEASE_SECONDS);
    insert_pin_row(&mut catalog, 200, 2, 4, 10, 11, 1000, PIN_LEASE_SECONDS);
    let key = Catalog::reader_pin_key(100, 1);
    assert_eq!(key, vec![6, 0, 0, 0, 100, 0, 0, 0, 0, 0, 0, 0, 1]);
    assert!(matches!(
        catalog.get(&key),
        Some(CatalogValue::ReaderPin(ReaderPinValue {
            commit_id: 6,
            expires_unix_seconds: 1030,
            ..
        }))
    ));
    assert_eq!(min_durable_reader_commit(7, &catalog, 300, 1010), 4);
    assert_eq!(min_durable_reader_commit(7, &catalog, 200, 1010), 6);
    assert_eq!(min_durable_reader_commit(0, &catalog, 300, 1010), u64::MAX);
    assert!(!cleanup_stale_reader_pins(&mut catalog, 300, 1030));
    assert!(cleanup_stale_reader_pins(&mut catalog, 200, 1030));
    assert_eq!(catalog.len(), 1);
    assert!(delete_pin_rows(&mut catalog, &vec![(100, 1), (100, 9)]));
    assert!(!delete_pin_rows(&mut catalog, &vec![(100, 1)]));
    insert_pin_row(&mut catalog, 100, 1, 6, 10, 11, 1000, PIN_LEASE_SECONDS);
    assert!(cleanup_stale_reader_pins(&mut catalog, 300, 1031));
    assert_eq!(catalog.len(), 0);
    let mut db = store();
    db.pending_pin_deletes.push((3, 4));
    assert_eq!(db.drain_pending_pin_deletes(), vec![(3, 4)]);
    assert!(db.pending_pin_deletes.is_empty());
}

#[test]
fn spilled_chunks_follow_one_another() {
    let mut db = store();
    let mut txn = begin(&mut db);
    let mut scope = txn.spill_scope();
    assert!(scope.plan_append(&db, 90).is_err());
    assert!(scope.txn.spill_path.is_none());
    let first = scope.plan_append(&db, 10).ok().unwrap();
    assert_eq!(scope.txn.spill_path.as_deref(), Some("tmp/scratch-1"));
    assert_eq!(
        first.key,
        SpillKeyInputs { mk_epoch: 0, file_id: [1; 16], spill_epoch: [3; 16], txn_seq: 1 }
    );
    assert_eq!(first.body_offset, 0);
    assert_eq!(first.tag_offset, 10);
    assert_eq!(&first.nonce, &[1, 0, 0, 0, 0, 0, 0, 0, 0, 0, 0, 0]);
    let a = scope.append(&mut db, &first, 10, 10).ok().unwrap();
    let second = scope.plan_append(&db, 20).ok().unwrap();
    assert_eq!(second.body_offset, 26);
    assert_eq!(second.nonce[6], 1);
    let b = scope.append(&mut db, &second, 20, 20).ok().unwrap();
    assert!(matches!(
        scope.plan_append(&db, 60),
        Err(PagedbError::Quota { kind: QuotaKind::ScratchPages, .. })
    ));
    let back = scope.read(&db, b).ok().unwrap();
    assert_eq!((back.body_offset, back.body_len, back.plaintext_len), (26, 20, 20));
    assert_eq!(scope.read(&db, a).ok().unwrap().nonce, first.nonce);
    assert_eq!(db.spill_bytes_in_use, 62);
    let third = scope.plan_append(&db, 2).ok().unwrap();
    let too_long = u32::MAX as usize + 1;
    assert!(matches!(
        scope.append(&mut db, &third, too_long, 2),
        Err(PagedbError::PayloadTooLarge)
    ));
    let fourth = scope.plan_append(&db, 2).ok().unwrap();
    assert!(scope.append(&mut db, &fourth, 2, 2).is_ok());
    let again = scope.read(&db, a).ok().unwrap();
    assert_eq!((again.body_offset, again.body_len, again.plaintext_len), (0, 10, 10));
    assert_eq!(again.nonce, first.nonce);
    assert_eq!(again.key, first.key);
    let again = scope.read(&db, b).ok().unwrap();
    assert_eq!((again.body_offset, again.nonce), (second.body_offset, second.nonce));
    assert_eq!(txn.ensure_spill_path(), "tmp/scratch-1");
    assert_eq!(txn.abort(&mut db), Some(String::from("tmp/scratch-1")));
    assert_eq!(db.spill_bytes_in_use, 0);
}

#[test]
fn two_opens_spill_under_different_keys() {
    let mut first = store();
    let mut second = store();
    second.spill_epoch = [4; 16];
    let a = begin(&mut first);
    let b = begin(&mut second);
    assert_eq!(a.next_spill_nonce(0), b.next_spill_nonce(0));
    assert_ne!(a.spill_key_inputs(&first), b.spill_key_inputs(&second));
    let later = begin(&mut first);
    assert_ne!(a.spill_key_inputs(&first), later.spill_key_inputs(&first));
}

#[test]
fn names_of_files() {
    let id = [0xAB; 16];
    assert_eq!(live_path(&id), "seg/abababababababababababababababab");
    assert_eq!(staging_path(&id), "seg/.staging/abababababababababababababababab");
    assert_eq!(
        tombstone_path(&id, 120),
        "seg/.tombstone/abababababababababababababababab.120"
    );
    assert_eq!(spill_path(0), "tmp/scratch-0");
    assert_eq!(compaction_path("/main.db"), "/main.db.compact");
}

#[test]
fn numbers_drawn_from_the_clock() {
    let now = Some(Instant { seconds: 2, nanos: 5 });
    assert_eq!(whole_seconds(now), 2);
    assert_eq!(whole_seconds(None), 0);
    assert_eq!(wrapped_nanos(now), 2_000_000_005);
    assert_eq!(capped_nanos(now), 2_000_000_005);
    let far = Some(Instant { seconds: u64::MAX, nanos: 0 });
    assert_eq!(capped_nanos(far), u64::MAX);
    assert_eq!(lease_id(7, 0), 7);
    assert_eq!(lease_id(7, 1), 7 ^ 0x9e37_79b9_7f4a_7c15);
    assert_ne!(lease_id(7, 2), lease_id(7, 3));
    // 1970 was long ago for any clock that runs.
    assert!(unix_now_seconds() > 1_000_000_000);
    let mut counter = 0;
    let a = next_lease_id(&mut counter);
    let b = next_lease_id(&mut counter);
    assert_eq!(counter, 2);
    assert_ne!(a, b);
    assert_eq!(segment_id(&[0; 16], 0, 0), segment_id(&[0; 16], 5, 5));
    assert_ne!(segment_id(&[0; 16], 0, 0), segment_id(&[0; 16], 1, 0));
    let id = segment_id(&[0; 16], 0, 0);
    assert_eq!(&id[..8], &0xE220_A839_7B1D_CDAFu64.to_le_bytes());
}

#[test]
fn a_counter_row_is_read_back() {
    let bytes = Catalog::encode_counter(0x0102_0304_0506_0708);
    assert_eq!(bytes, [8, 7, 6, 5, 4, 3, 2, 1]);
    assert_eq!(Catalog::decode_counter(&bytes), Ok(0x0102_0304_0506_0708));
}

#[test]
fn a_segment_file_name_spells_its_id() {
    let mut id = [0u8; 16];
    for (i, byte) in id.iter_mut().enumerate() {
        *byte = (i * 17) as u8;
    }
    let path = live_path(&id);
    let name = path.strip_prefix("seg/").unwrap();
    assert_eq!(name, "00112233445566778899aabbccddeeff");
    assert_eq!(parse_segment_id(name), Some(id));
    assert_eq!(parse_segment_id(&name.to_uppercase()), Some(id));
    assert_eq!(parse_segment_id(&name[1..]), None);
    assert_eq!(parse_segment_id("0011223344556677 899aabbccddeeff"), None);
    assert_eq!(parse_segment_id("g0112233445566778899aabbccddeeff"), None);
}
