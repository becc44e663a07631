use hmac::{Hmac, Mac};
use pagedb::catalog::{
    Catalog, CatalogValue, RekeyIntent, RekeySegmentProgress, RekeySegmentProgressState,
    RekeyStage, SegmentMeta, KIND_REKEY_PROGRESS, KIND_SEGMENT,
};
use pagedb::db::handle::{Db, SegmentReconciliation};
use pagedb::db::history::{encode_commit_meta, encode_history_key, CommitHistoryMeta};
use pagedb::db::rekey::intent::{
    intent_proof, proof_of_digest, validate_intent, validate_intent_for_current_cipher,
    write_proof_message,
};
use pagedb::db::rekey::keyring::{DerivedKey, EpochKeyring, MasterKey};
use pagedb::db::rekey::recovery::{
    key_if_proven, matching_key, needs_target_proof, pair_keys, resolve_rekey_key_pair,
    write_intent_row, DerivedPair, KekCandidate, RekeyProofContext, RekeyProofSpec,
};
use pagedb::db::rekey::segments::{
    check_copied_page, check_orphan_opened, check_replacement, delete_rekey_progress,
    progress_source_id, rekey_page_range, replace_rekey_segment, segment_needs_rekey,
    write_rekey_progress, MigrationPlan, OrphanPlan,
};
use pagedb::db::rekey::stages::{
    free_page_offset, main_page_kind, retained_history_roots, stage_rekey_rows, PageRole,
    RekeyStep,
};
use pagedb::errors::{CorruptionDetail, IoKind, PagedbError};
use pagedb::ids::{ActiveSlot, CipherId, CommitId, RealmId};
use pagedb::mode::DbMode;
use pagedb::options::{OpenOptions, RetainPolicy};
use pagedb::tree::BTree;
use pagedb::write::SegmentSideEffect;
use sha2::Sha256;

const PAGE: usize = 4096;
const REALM: RealmId = RealmId([0x41; 16]);
const FILE: [u8; 16] = [0xB2; 16];
const SALT: [u8; 16] = [0xC3; 16];

fn options() -> OpenOptions {
    OpenOptions {
        buffer_pool_pages: 64,
        segment_cache_pages: 16,
        anchor_budget: 64,
        observer_retry_count: 3,
        metrics_enabled: false,
        reader_stall_threshold_pages: 128,
        mmap_view_scratch_bytes: 4096,
        scratch_bytes: 4096,
        skip_freelist_persistence_when_no_readers: false,
        commit_history_retain: RetainPolicy::Count(8),
        cipher: CipherId::Aes256Gcm,
    }
}

fn store() -> Db {
    match Db::open_internal_with_options_and_cipher(
        String::from("/main.db"),
        PAGE,
        REALM,
        options(),
        CipherId::Aes256Gcm,
        FILE,
        SALT,
        [3; 16],
    ) {
        Ok((_, db)) => db,
        Err(e) => panic!("a fresh store opens: {e:?}"),
    }
}

fn intent() -> RekeyIntent {
    RekeyIntent {
        source_mk_epoch: 0,
        target_mk_epoch: 9,
        source_cipher_id: 1,
        target_cipher_id: 1,
        same_kek: false,
        stage: RekeyStage::Intent,
        source_hk_proof: [3; 16],
        target_hk_proof: [4; 16],
    }
}

fn segment(id: u8, epoch: u64) -> SegmentMeta {
    SegmentMeta {
        segment_id: [id; 16],
        realm_id: REALM,
        segment_kind: 0,
        evictable: 0,
        format_version: 2,
        cipher_id: 1,
        mk_epoch: epoch,
        page_count: 5,
        total_bytes: 5 * 4096,
    }
}

fn pair(byte: u8) -> DerivedPair {
    DerivedPair { mk: MasterKey([byte; 32]), hk: DerivedKey([byte ^ 0xFF; 32]) }
}

fn kek(byte: u8) -> KekCandidate {
    KekCandidate { source: pair(byte), target: pair(byte.wrapping_add(1)) }
}

fn proof_under(hk: &DerivedKey, epoch: u64) -> [u8; 16] {
    intent_proof(hk, &FILE, &SALT, 0, 9, epoch, 1).unwrap()
}

fn context() -> RekeyProofContext {
    RekeyProofContext { file_id: FILE, salt: SALT, source_epoch: 0, target_epoch: 9 }
}

fn sides(source: &KekCandidate, target: &KekCandidate) -> (RekeyProofSpec, RekeyProofSpec) {
    (
        RekeyProofSpec { epoch: 0, cipher_id: 1, expected: proof_under(&source.source.hk, 0) },
        RekeyProofSpec { epoch: 9, cipher_id: 1, expected: proof_under(&target.target.hk, 9) },
    )
}

fn linked(names: &[(&[u8], SegmentMeta)]) -> BTree<CatalogValue> {
    let mut catalog: BTree<CatalogValue> = BTree::new(7, 20);
    for (name, meta) in names {
        let key = Catalog::segment_key(REALM, name).unwrap();
        catalog.put(&key, CatalogValue::Segment(*meta));
    }
    catalog
}

#[test]
fn proof_binds_rekey_identity_and_transition_fields() {
    let hk = DerivedKey([0xA1; 32]);
    let file_id = [0xB2; 16];
    let kek_salt = [0xC3; 16];
    let proof = intent_proof(&hk, &file_id, &kek_salt, 4, 5, 4, 1).unwrap();
    assert_ne!(proof, intent_proof(&hk, &[0xB3; 16], &kek_salt, 4, 5, 4, 1).unwrap());
    assert_ne!(proof, intent_proof(&hk, &file_id, &[0xC4; 16], 4, 5, 4, 1).unwrap());
    assert_ne!(proof, intent_proof(&hk, &file_id, &kek_salt, 4, 6, 4, 1).unwrap());
    assert_ne!(proof, intent_proof(&hk, &file_id, &kek_salt, 4, 5, 5, 1).unwrap());
    assert_ne!(proof, intent_proof(&hk, &file_id, &kek_salt, 4, 5, 4, 2).unwrap());
}

#[test]
fn intent_rejects_checked_and_reserved_bytes() {
    let mut bytes = Catalog::encode_rekey_intent(&intent());
    bytes[3] = 1;
    assert!(Catalog::decode_rekey_state(&bytes).is_err());
    bytes[3] = 0;
    bytes[56] = 1;
    assert!(Catalog::decode_rekey_state(&bytes).is_err());
}

#[test]
fn intent_rejects_impossible_epochs() {
    let mut invalid = intent();
    invalid.target_mk_epoch = 0;
    let bytes = Catalog::encode_rekey_intent(&invalid);
    assert!(Catalog::decode_rekey_state(&bytes).is_err());
}

#[test]
fn intent_rejects_cipher_transition_at_admission() {
    let mut invalid = intent();
    invalid.target_cipher_id = 2;
    assert!(matches!(
        validate_intent_for_current_cipher(&invalid, 1),
        Err(PagedbError::RekeyStateInvalid { field: "target_cipher_id" })
    ));
}

#[test]
fn mixed_cipher_intent_is_rejected_by_codec_before_admission() {
    let intent = RekeyIntent {
        source_mk_epoch: 0,
        target_mk_epoch: 1,
        source_cipher_id: 1,
        target_cipher_id: 2,
        same_kek: true,
        stage: RekeyStage::Intent,
        source_hk_proof: [0; 16],
        target_hk_proof: [0; 16],
    };
    assert!(matches!(
        Catalog::decode_rekey_state(&Catalog::encode_rekey_intent(&intent)),
        Err(PagedbError::RekeyStateInvalid { field: "target_cipher_id" })
    ));
}

#[test]
fn intent_survives_its_encoding() {
    let mut written = intent();
    written.stage = RekeyStage::MainDone;
    written.same_kek = true;
    let read = Catalog::decode_rekey_state(&Catalog::encode_rekey_intent(&written)).unwrap();
    assert_eq!(read.source_mk_epoch, 0);
    assert_eq!(read.target_mk_epoch, 9);
    assert_eq!(read.stage, RekeyStage::MainDone);
    assert!(read.same_kek);
    assert_eq!(read.source_hk_proof, [3; 16]);
    assert_eq!(read.target_hk_proof, [4; 16]);
}

#[test]
fn intent_checks_name_the_field() {
    let mut other = intent();
    other.source_cipher_id = 7;
    assert_eq!(validate_intent(&other), Err(PagedbError::UnknownCipher { cipher_id: 7 }));
    assert_eq!(
        validate_intent_for_current_cipher(&intent(), 2),
        Err(PagedbError::RekeyStateInvalid { field: "source_cipher_id" })
    );
    assert_eq!(validate_intent_for_current_cipher(&intent(), 1), Ok(()));
}

#[test]
fn a_proof_is_half_of_the_messages_hmac() {
    let hk = DerivedKey([0xA1; 32]);
    let message = write_proof_message(&FILE, &SALT, 4, 5, 4, 1);
    assert_eq!(&message[..21], b"pagedb/rekey-proof/v1");
    assert_eq!(message.len(), 78);
    assert_eq!(message[77], 1);
    let mut mac = Hmac::<Sha256>::new_from_slice(&hk.0).unwrap();
    mac.update(b"pagedb/rekey-proof/v1");
    mac.update(&FILE);
    mac.update(&SALT);
    mac.update(&4u64.to_le_bytes());
    mac.update(&5u64.to_le_bytes());
    mac.update(&4u64.to_le_bytes());
    mac.update(&[1]);
    let digest: [u8; 32] = mac.finalize().into_bytes().into();
    let proof = intent_proof(&hk, &FILE, &SALT, 4, 5, 4, 1).unwrap();
    assert_eq!(proof, proof_of_digest(&digest));
    assert_eq!(&proof[..], &digest[..16]);
}

#[test]
fn a_key_is_handed_out_only_when_proven() {
    let mk = MasterKey([5; 32]);
    assert_eq!(key_if_proven(mk, &[1; 16], &[1; 16]).unwrap().0, [5; 32]);
    let mut almost = [1; 16];
    almost[15] = 2;
    assert!(key_if_proven(mk, &[1; 16], &almost).is_none());
    let keys = pair(0x51);
    let (source, _) = sides(&kek(0x51), &kek(0x52));
    assert_eq!(matching_key(&keys, &context(), &source).unwrap().unwrap().0, [0x51; 32]);
    assert!(matching_key(&pair(0x53), &context(), &source).unwrap().is_none());
}

#[test]
fn either_order_of_two_keys_pairs_them() {
    let a = MasterKey([1; 32]);
    let b = MasterKey([2; 32]);
    let (s, t) = pair_keys(Some(a), None, None, Some(b)).unwrap();
    assert_eq!((s.0, t.0), ([1; 32], [2; 32]));
    let (s, t) = pair_keys(None, Some(b), Some(a), None).unwrap();
    assert_eq!((s.0, t.0), ([1; 32], [2; 32]));
    assert!(pair_keys(Some(a), Some(b), None, None).is_none());
}

#[test]
fn two_keys_resolve_in_either_order() {
    let old = kek(0x51);
    let new = kek(0x61);
    let (source, target) = sides(&old, &new);
    for (primary, counterpart) in [(&old, &new), (&new, &old)] {
        let (s, t) =
            resolve_rekey_key_pair(primary, Some(counterpart), &context(), &source, &target, false)
                .ok()
                .unwrap();
        assert_eq!(s.0, old.source.mk.0);
        assert_eq!(t.0, new.target.mk.0);
    }
    assert_eq!(
        resolve_rekey_key_pair(&old, None, &context(), &source, &target, false).err(),
        Some(PagedbError::RekeyResumeKeyRequired { source_epoch: 0, target_epoch: 9 })
    );
    let (_, same_target) = sides(&old, &old);
    let (s, t) = resolve_rekey_key_pair(&old, None, &context(), &source, &same_target, true)
        .ok()
        .unwrap();
    assert_eq!((s.0, t.0), (old.source.mk.0, old.target.mk.0));
}

#[test]
fn a_wrong_counterpart_installs_no_key() {
    let db = store();
    let old = kek(0x51);
    let new = kek(0x61);
    let wrong = kek(0x71);
    let (source, target) = sides(&old, &new);
    let mut held = intent();
    held.source_hk_proof = source.expected;
    held.target_hk_proof = target.expected;
    let mut ring = EpochKeyring::new(0, CipherId::Aes256Gcm, old.source.mk);

    assert_eq!(
        db.admit_rekey_recovery(&mut ring, Some(&held), &old, None),
        Err(PagedbError::RekeyResumeKeyRequired { source_epoch: 0, target_epoch: 9 })
    );
    assert_eq!(
        db.admit_rekey_recovery(&mut ring, Some(&held), &old, Some(&wrong)),
        Err(PagedbError::RekeyCounterpartKeyInvalid { source_epoch: 0, target_epoch: 9 })
    );
    assert!(ring.lease(9, CipherId::Aes256Gcm).is_err());

    assert_eq!(db.admit_rekey_recovery(&mut ring, Some(&held), &old, Some(&new)), Ok(true));
    assert_eq!(ring.lease(0, CipherId::Aes256Gcm).ok().unwrap().0, old.source.mk.0);
    assert_eq!(ring.lease(9, CipherId::Aes256Gcm).ok().unwrap().0, new.target.mk.0);
    assert_eq!(db.admit_rekey_recovery(&mut ring, None, &old, None), Ok(false));
}

#[test]
fn a_keyring_leases_what_was_installed() {
    let aes = CipherId::Aes256Gcm;
    let mut ring = EpochKeyring::new(0, aes, MasterKey([1; 32]));
    ring.install(1, aes, MasterKey([2; 32]));
    ring.install(1, aes, MasterKey([3; 32]));
    let copy = ring.duplicate();
    ring.remove(0, aes);
    ring.remove(0, aes);
    assert_eq!(
        ring.lease(0, aes).err(),
        Some(PagedbError::MissingPersistedKey { mk_epoch: 0, cipher_id: 1 })
    );
    assert_eq!(
        ring.lease(1, CipherId::ChaCha20Poly1305).err(),
        Some(PagedbError::MissingPersistedKey { mk_epoch: 1, cipher_id: 2 })
    );
    assert_eq!(ring.lease(1, aes).ok().unwrap().0, [3; 32]);
    assert_eq!(copy.lease(0, aes).ok().unwrap().0, [1; 32]);
    assert_eq!(copy.lease(1, aes).ok().unwrap().0, [3; 32]);
}

#[test]
fn a_rekey_must_advance_the_epoch() {
    let mut db = store();
    let hk = DerivedKey([1; 32]);
    assert!(matches!(
        db.rekey_db(0, &hk, &hk, &hk),
        Err(PagedbError::RekeyStateInvalid { field: "rekey.target_mk_epoch" })
    ));
    assert!(db.rekey_db(2, &hk, &hk, &hk).is_ok());
    db.mk_epoch = 2;
    assert!(matches!(
        db.rekey_db(1, &hk, &hk, &hk),
        Err(PagedbError::RekeyStateInvalid { .. })
    ));
    assert!(matches!(
        db.rekey_db(2, &hk, &hk, &hk),
        Err(PagedbError::RekeyStateInvalid { .. })
    ));
    db.mode = DbMode::Follower;
    assert!(matches!(db.rekey_db(3, &hk, &hk, &hk), Err(PagedbError::Unsupported)));
}

#[test]
fn a_rekey_begins_with_an_intent_that_knows_its_keys() {
    let db = store();
    let held = DerivedKey([1; 32]);
    let target = DerivedKey([2; 32]);
    let begun = db.rekey_db(9, &held, &held, &target).ok().unwrap();
    assert!(begun.same_kek);
    assert_eq!(begun.stage, RekeyStage::Intent);
    assert_eq!(begun.source_hk_proof, proof_under(&held, 0));
    assert_eq!(begun.target_hk_proof, proof_under(&target, 9));
    let changed = db.rekey_db(9, &held, &DerivedKey([7; 32]), &target).ok().unwrap();
    assert!(!changed.same_kek);
    assert_eq!(db.resume_rekey_locked(&begun, &held, &target), Ok(RekeyStep::RewriteMainPages));
    assert_eq!(
        db.resume_rekey_locked(&begun, &held, &held),
        Err(PagedbError::RekeyCounterpartKeyInvalid { source_epoch: 0, target_epoch: 9 })
    );
    assert_eq!(Db::check_rekey_proofs(&intent(), &[3; 16], &[4; 16]), Ok(()));
    assert!(Db::check_rekey_proofs(&intent(), &[4; 16], &[4; 16]).is_err());
}

#[test]
fn an_unrecognised_rekey_state_row_is_refused() {
    let mut off_width = [0u8; 13];
    off_width[..8].copy_from_slice(&1u64.to_le_bytes());
    assert!(matches!(
        Catalog::decode_rekey_state(&off_width),
        Err(PagedbError::Corruption(CorruptionDetail::CatalogRowInvalid {
            field: "rekey.framing"
        }))
    ));
    let mut db = store();
    db.writer.catalog_root_page_id = 7;
    let mut catalog = linked(&[(b"linked", segment(1, 0))]);
    let key = Catalog::rekey_state_key();
    catalog.put(&key, CatalogValue::Malformed);
    assert!(matches!(
        db.load_rekey_watermark(&catalog),
        Err(PagedbError::Corruption(CorruptionDetail::CatalogRowInvalid {
            field: "rekey.framing"
        }))
    ));
}

#[test]
fn an_intent_is_read_back_until_it_is_cleared() {
    let mut db = store();
    let mut catalog: BTree<CatalogValue> = BTree::new(7, 20);
    let mut held = intent();
    write_intent_row(&mut catalog, &held);
    assert!(db.load_rekey_intent(&catalog).ok().unwrap().is_none());
    db.writer.catalog_root_page_id = 7;
    assert_eq!(db.load_rekey_watermark(&catalog), Ok(Some(9)));
    assert_eq!(db.resume_rekey_intent(&catalog).ok().unwrap().stage, RekeyStage::Intent);
    stage_rekey_rows(&mut catalog, &mut held, RekeyStep::PublishTargetHeader);
    assert_eq!(held.stage, RekeyStage::HeaderTargetPublished);
    assert_eq!(
        db.resume_rekey_intent(&catalog).ok().unwrap().stage,
        RekeyStage::HeaderTargetPublished
    );
    stage_rekey_rows(&mut catalog, &mut held, RekeyStep::ClearIntent);
    assert_eq!(
        db.resume_rekey_intent(&catalog).err(),
        Some(PagedbError::RekeyStateInvalid { field: "rekey.intent_missing" })
    );
}

#[test]
fn every_stage_resumes_to_completion() {
    for stage in [
        RekeyStage::Intent,
        RekeyStage::MainPagesTargetReadable,
        RekeyStage::HeaderTargetPublished,
        RekeyStage::MainDone,
        RekeyStage::SegmentsPending,
    ] {
        let mut db = store();
        db.writer.catalog_root_page_id = 7;
        let held = DerivedKey([1; 32]);
        let target = DerivedKey([2; 32]);
        let mut current = db.rekey_db(9, &held, &held, &target).ok().unwrap();
        current.stage = stage;
        let mut catalog = linked(&[(b"boundary", segment(1, 0))]);
        write_intent_row(&mut catalog, &current);
        let mut ring = EpochKeyring::new(0, CipherId::Aes256Gcm, MasterKey([1; 32]));
        ring.install(9, CipherId::Aes256Gcm, MasterKey([2; 32]));

        let mut step = db.resume_rekey_locked(&current, &held, &target).ok().unwrap();
        let mut steps = 0;
        while step != RekeyStep::Done {
            stage_rekey_rows(&mut catalog, &mut current, step);
            if step == RekeyStep::MigrateSegments {
                let key = Catalog::segment_key(REALM, b"boundary").unwrap();
                let effects =
                    replace_rekey_segment(&mut catalog, &key, [1; 16], &segment(2, 9));
                assert!(matches!(
                    effects[0],
                    SegmentSideEffect::Promote { segment_id } if segment_id == [2; 16]
                ));
                assert!(matches!(
                    effects[1],
                    SegmentSideEffect::Tombstone { segment_id, tombstone_commit_id: None }
                        if segment_id == [1; 16]
                ));
            }
            let pending = db.rekey_segments_pending(&catalog, &current);
            step = db.finish_rekey_locked(&mut ring, &current, step, pending).ok().unwrap();
            steps += 1;
        }
        assert!(steps <= 8);
        assert!(db.load_rekey_intent(&catalog).ok().unwrap().is_none());
        assert!(matches!(
            ring.lease(0, CipherId::Aes256Gcm),
            Err(PagedbError::MissingPersistedKey { mk_epoch: 0, .. })
        ));
        assert!(ring.lease(9, CipherId::Aes256Gcm).is_ok());
        let found = db.segment_entry_by_id(&catalog, [2; 16]).ok().unwrap();
        assert!(found.is_some());
    }
}

#[test]
fn a_completed_rekey_keeps_only_the_target_key() {
    let mut db = store();
    let mut ring = EpochKeyring::new(0, CipherId::Aes256Gcm, MasterKey([1; 32]));
    ring.install(9, CipherId::Aes256Gcm, MasterKey([2; 32]));
    assert_eq!(
        db.finish_rekey_locked(&mut ring, &intent(), RekeyStep::PublishTargetHeader, Ok(false)),
        Ok(RekeyStep::RewriteCatalogPages)
    );
    assert_eq!(db.mk_epoch, 9);
    assert_eq!(
        db.finish_rekey_locked(&mut ring, &intent(), RekeyStep::ClearIntent, Ok(false)),
        Ok(RekeyStep::Done)
    );
    assert!(matches!(
        ring.lease(0, db.cipher_id),
        Err(PagedbError::MissingPersistedKey { mk_epoch: 0, .. })
    ));
    assert!(ring.lease(9, db.cipher_id).is_ok());
}

#[test]
fn an_old_reader_delays_the_retirement_of_its_key() {
    let mut db = store();
    let mut ring = EpochKeyring::new(0, CipherId::Aes256Gcm, MasterKey([1; 32]));
    ring.install(9, CipherId::Aes256Gcm, MasterKey([2; 32]));
    let old_txn = db.begin_read().ok().unwrap();
    assert_eq!(
        db.finish_rekey_locked(&mut ring, &intent(), RekeyStep::ClearIntent, Ok(false)),
        Ok(RekeyStep::Done)
    );
    db.retire_due_keys(&mut ring);
    assert!(ring.lease(0, db.cipher_id).is_ok());
    let other = db.begin_read().ok().unwrap();
    other.end(&mut db, &mut ring);
    assert!(ring.lease(0, db.cipher_id).is_ok());
    old_txn.end(&mut db, &mut ring);
    assert!(matches!(
        ring.lease(0, db.cipher_id),
        Err(PagedbError::MissingPersistedKey { mk_epoch: 0, .. })
    ));
    assert!(db.pending_key_retirements.is_empty());
}

#[test]
fn a_lease_outlives_the_retirement_of_its_key() {
    let mut ring = EpochKeyring::new(0, CipherId::Aes256Gcm, MasterKey([1; 32]));
    let lease = ring.lease(0, CipherId::Aes256Gcm).ok().unwrap();
    ring.remove(0, CipherId::Aes256Gcm);
    assert!(ring.lease(0, CipherId::Aes256Gcm).is_err());
    assert_eq!(lease.0, [1; 32]);
}

#[test]
fn a_failed_rekey_step_poisons_the_handle() {
    let mut db = store();
    db.writer.latest_commit_id = 1;
    let hk = DerivedKey([1; 32]);
    let held = db.rekey_db(1, &hk, &hk, &hk).ok().unwrap();
    let mut ring = EpochKeyring::new(0, CipherId::Aes256Gcm, MasterKey([1; 32]));
    let failed = db.finish_rekey_locked(
        &mut ring,
        &held,
        RekeyStep::RewriteMainPages,
        Err(PagedbError::Io(IoKind::Other)),
    );
    let durable = match failed {
        Err(PagedbError::RekeyTargetEpochActivated { commit, source }) => {
            assert_eq!(*source, PagedbError::Io(IoKind::Other));
            commit
        }
        other => panic!("expected a poisoned handle, got {other:?}"),
    };
    assert_eq!(
        db.rekey_db(1, &hk, &hk, &hk).err(),
        Some(PagedbError::DurablyCommittedButUnpublished { commit: durable })
    );
    assert_eq!(
        db.begin_write().err(),
        Some(PagedbError::DurablyCommittedButUnpublished { commit: durable })
    );
    assert_eq!(durable, CommitId(1));
}

#[test]
fn a_rekey_does_not_end_with_a_segment_pending() {
    let mut db = store();
    let mut ring = EpochKeyring::new(0, CipherId::Aes256Gcm, MasterKey([1; 32]));
    match db.finish_rekey_locked(&mut ring, &intent(), RekeyStep::CheckSegments, Ok(true)) {
        Err(PagedbError::RekeyTargetEpochActivated { source, .. }) => assert_eq!(
            *source,
            PagedbError::RekeyStateInvalid { field: "rekey.segments_pending" }
        ),
        other => panic!("expected a refusal, got {other:?}"),
    }
    assert!(db.ensure_usable().is_err());
}

#[test]
fn retained_roots_are_all_rekeyed() {
    let mut history: BTree<Vec<u8>> = BTree::new(9, 40);
    for (commit, data, catalog, next) in [(1u64, 10u64, 0u64, 12u64), (2, 0, 13, 15), (3, 20, 21, 30)] {
        let meta = CommitHistoryMeta {
            active_root_page_id: data,
            catalog_root_page_id: catalog,
            free_list_root_page_id: 99,
            next_page_id: next,
            unix_seconds: 5,
        };
        history.put(&encode_history_key(commit), encode_commit_meta(&meta));
    }
    assert_eq!(
        retained_history_roots(&history).unwrap(),
        vec![(10, 12), (13, 15), (20, 30), (21, 30)]
    );
    history.put(&encode_history_key(4), vec![0; 39]);
    assert!(matches!(retained_history_roots(&history), Err(PagedbError::Corruption(_))));
}

#[test]
fn retained_commits_read_the_same_after_a_rekey() {
    let mut db = store();
    db.writer.root_page_id = 20;
    db.writer.latest_commit_id = 3;
    db.writer.next_page_id = 40;
    db.writer.commit_history_root_page_id = 9;
    let state = db.writer;
    db.publish_snapshot(&state);
    let mut history: BTree<Vec<u8>> = BTree::new(9, 40);
    let meta = CommitHistoryMeta {
        active_root_page_id: 10,
        catalog_root_page_id: 0,
        free_list_root_page_id: 0,
        next_page_id: 12,
        unix_seconds: 5,
    };
    history.put(&encode_history_key(1), encode_commit_meta(&meta));
    let retained = db.begin_read_at(CommitId(1), &history).ok().unwrap();
    let latest = db.begin_read_at(CommitId(3), &history).ok().unwrap();

    let commit = db.rekey_catalog_commit(50, 52);
    let fields = db.rekey_header_fields(&commit, 9, 77).ok().unwrap();
    let done = db.commit_rekey_catalog_root(
        &commit,
        Ok((ActiveSlot::B, fields.seq)),
        true,
        Ok(SegmentReconciliation::Complete),
    );
    assert!(done.is_ok());
    let mut reopened = Db::open_existing_inner(
        String::from("/main.db"),
        &fields,
        ActiveSlot::B,
        PAGE,
        REALM,
        options(),
        DbMode::Standalone,
        [3; 16],
    )
    .ok()
    .unwrap();
    assert_eq!(reopened.mk_epoch, 9);
    for handle in [&mut db, &mut reopened] {
        let past = handle.begin_read_at(CommitId(1), &history).ok().unwrap();
        assert_eq!(past.root_page_id, retained.root_page_id);
        assert_eq!(past.root_page_id, 10);
        let last = handle.begin_read_at(CommitId(3), &history).ok().unwrap();
        assert_eq!(last.root_page_id, latest.root_page_id);
        assert_eq!(last.root_page_id, 20);
        assert_eq!(last.catalog_root_page_id, 50);
    }
}

#[test]
fn superseded_pages_go_to_the_free_list() {
    let mut db = store();
    db.writer.latest_commit_id = 6;
    assert!(db.record_rekey_freed_pages(&vec![(2, 30)], &vec![40], &vec![]).is_none());
    let entries = db.record_rekey_freed_pages(&vec![(2, 30)], &vec![40], &vec![50, 51]).unwrap();
    assert_eq!(entries, vec![(2, 30), (6, 50), (6, 51), (0, 40)]);
    db.adopt_rekey_chain(60);
    assert_eq!(db.writer.free_list_root_page_id, 60);
}

#[test]
fn a_rekey_header_keeps_what_the_state_holds() {
    let mut db = store();
    db.writer.root_page_id = 5;
    db.writer.latest_commit_id = 6;
    db.writer.catalog_root_txn_id = 6;
    db.writer.next_page_id = 30;
    db.writer.restore_mode = 1;
    db.writer.commit_retain_policy_tag = 2;
    db.writer.pending_apply_journal_id[0] = 8;
    let commit = db.rekey_catalog_commit(11, 25);
    assert_eq!(commit.next_page_id, 30);
    let fields = db.rekey_header_fields(&commit, 9, 77).ok().unwrap();
    assert_eq!(fields.mk_epoch, 9);
    assert_eq!(fields.seq, db.header_cursor.seq + 1);
    assert_eq!(fields.counter_anchor, 77);
    assert_eq!(fields.commit_id, CommitId(6));
    assert_eq!(fields.apply_journal_root_page_id, 8);
    assert_eq!(fields.restore_mode, 1);
    assert_eq!(fields.commit_retain_policy_tag, 2);
    assert_eq!(fields.catalog_root[0], 11);
    assert_eq!(fields.catalog_root[8], 6);

    let failed = db.commit_rekey_catalog_root(
        &commit,
        Err(PagedbError::Io(IoKind::Other)),
        true,
        Ok(SegmentReconciliation::Complete),
    );
    assert_eq!(failed, Err(PagedbError::Io(IoKind::Other)));
    assert_eq!(db.writer.catalog_root_page_id, 0);
    let done = db.commit_rekey_catalog_root(
        &commit,
        Ok((ActiveSlot::B, 2)),
        true,
        Ok(SegmentReconciliation::Deferred),
    );
    assert_eq!(done, Ok(SegmentReconciliation::Deferred));
    assert_eq!(db.snapshot.catalog_root_page_id, 11);
    assert_eq!(db.header_cursor.seq, 2);
    let lost = db.commit_rekey_catalog_root(
        &commit,
        Ok((ActiveSlot::A, 3)),
        false,
        Ok(SegmentReconciliation::Complete),
    );
    assert_eq!(lost, Err(PagedbError::DurablyCommittedButUnpublished { commit: CommitId(6) }));
}

#[test]
fn free_pages_are_rewritten_under_their_own_kind() {
    assert_eq!(free_page_offset(3, 4096), Ok(12288));
    assert_eq!(
        free_page_offset(u64::MAX, 4096),
        Err(PagedbError::ArithmeticOverflow { what: "free-list page offset" })
    );
    let main = PageRole { kind: 4, in_main_file: true };
    let other = PageRole { kind: 9, in_main_file: false };
    assert_eq!(main_page_kind(&[0, 0], Ok(main)), Ok(None));
    assert_eq!(main_page_kind(&[1, 4], Ok(main)), Ok(Some(4)));
    assert_eq!(main_page_kind(&[1, 9], Ok(other)), Err(PagedbError::IllegalPageKind));
    assert_eq!(
        main_page_kind(&[1, 9], Err(PagedbError::IllegalPageKind)),
        Err(PagedbError::IllegalPageKind)
    );
}

#[test]
fn segments_are_migrated_one_by_one() {
    let mut db = store();
    db.writer.catalog_root_page_id = 7;
    let mut catalog = linked(&[
        (b"a-seg", segment(1, 0)),
        (b"m-seg", segment(2, 9)),
        (b"z-seg", segment(3, 4)),
    ]);
    assert_eq!(db.rekey_segments_pending(&catalog, &intent()), Ok(true));
    let plan = db.migrate_rekey_segment_entry(&catalog, &intent(), &segment(1, 0));
    assert!(matches!(plan, Ok(MigrationPlan::Seal)));
    let plan = db.migrate_rekey_segment_entry(&catalog, &intent(), &segment(2, 9));
    assert!(matches!(plan, Ok(MigrationPlan::Skip)));

    write_rekey_progress(&mut catalog, &[1; 16], [8; 16]);
    let plan = db.migrate_rekey_segment_entry(&catalog, &intent(), &segment(1, 0));
    assert!(matches!(
        plan,
        Ok(MigrationPlan::Resume { replacement_segment_id }) if replacement_segment_id == [8; 16]
    ));
    for (name, from, to) in [(b"a-seg", 1u8, 8u8), (b"z-seg", 3, 10)] {
        let key = Catalog::segment_key(REALM, name).unwrap();
        replace_rekey_segment(&mut catalog, &key, [from; 16], &segment(to, 9));
        delete_rekey_progress(&mut catalog, &[from; 16]);
    }
    assert_eq!(db.rekey_segments_pending(&catalog, &intent()), Ok(false));
    assert!(db.rekey_progress_row(&catalog, &[1; 16]).ok().unwrap().is_none());
    assert_eq!(db.segment_batch_from(&catalog, &[1]), Ok((0, 3)));
    assert!(db.segment_entry_by_id(&catalog, [1; 16]).ok().unwrap().is_none());
    assert_eq!(db.segment_entry_by_id(&catalog, [10; 16]), Ok(Some(2)));
}

#[test]
fn the_walk_migrates_every_segment_and_keeps_its_name() {
    let mut db = store();
    db.writer.catalog_root_page_id = 7;
    let names: Vec<String> = (0..600).map(|i| format!("seg-{i:04}")).collect();
    let mut catalog: BTree<CatalogValue> = BTree::new(7, 20);
    for (i, name) in names.iter().enumerate() {
        let mut meta = segment(1, 0);
        meta.segment_id = id_of(i as u16, 0);
        meta.page_count = 3 + i as u64;
        catalog.put(
            &Catalog::segment_key(REALM, name.as_bytes()).unwrap(),
            CatalogValue::Segment(meta),
        );
    }
    let mut cursor = vec![KIND_SEGMENT];
    let mut sizes = vec![];
    loop {
        let batch = db.migrate_rekey_segments(&catalog, &cursor).ok().unwrap();
        sizes.push(batch.entries.len());
        if let Some(next) = &batch.next {
            let mut after_last = batch.entries.last().unwrap().key.clone();
            after_last.push(0);
            assert_eq!(*next, after_last);
        }
        for entry in &batch.entries {
            let mut target = entry.meta;
            target.segment_id[15] = 1;
            target.mk_epoch = 9;
            assert_eq!(check_replacement(&target, &entry.meta), Ok(()));
            write_rekey_progress(&mut catalog, &entry.meta.segment_id, target.segment_id);
            replace_rekey_segment(&mut catalog, &entry.key, entry.meta.segment_id, &target);
            delete_rekey_progress(&mut catalog, &entry.meta.segment_id);
        }
        match batch.next {
            Some(next) => cursor = next,
            None => break,
        }
    }
    assert_eq!(sizes, vec![256, 256, 88]);
    assert_eq!(catalog.len(), 600);
    for (i, name) in names.iter().enumerate() {
        let key = Catalog::segment_key(REALM, name.as_bytes()).unwrap();
        match catalog.get(&key) {
            Some(CatalogValue::Segment(meta)) => {
                assert_eq!(meta.segment_id, id_of(i as u16, 1));
                assert_eq!((meta.mk_epoch, meta.page_count), (9, 3 + i as u64));
            }
            _ => panic!("{name} is still linked"),
        }
    }
    assert_eq!(db.rekey_segments_pending(&catalog, &intent()), Ok(false));
}

fn id_of(i: u16, last: u8) -> [u8; 16] {
    let mut id = [0; 16];
    id[0] = (i / 256) as u8;
    id[1] = (i % 256) as u8;
    id[15] = last;
    id
}

#[test]
fn a_whole_batch_is_followed_by_another_look() {
    let mut db = store();
    let mut catalog: BTree<CatalogValue> = BTree::new(7, 20);
    for i in 0..256 {
        write_rekey_progress(&mut catalog, &id_of(i, 0), id_of(i, 1));
    }
    let first = [KIND_REKEY_PROGRESS];
    let none = db.drain_orphaned_rekey_progress(&catalog, &first);
    assert!(none.rows.is_empty() && none.next.is_none());
    assert!(db.migrate_rekey_segments(&catalog, &[KIND_SEGMENT]).ok().unwrap().next.is_none());
    db.writer.catalog_root_page_id = 7;
    let batch = db.drain_orphaned_rekey_progress(&catalog, &first);
    assert_eq!(batch.rows.len(), 256);
    let cursor = batch.next.unwrap();
    assert_eq!(cursor.len(), 18);
    assert_eq!(cursor[..17], batch.rows[255].0[..]);
    for (key, _) in &batch.rows {
        assert!(catalog.delete(key));
    }
    let rest = db.drain_orphaned_rekey_progress(&catalog, &cursor);
    assert!(rest.rows.is_empty() && rest.next.is_none());
}

#[test]
fn segments_of_another_cipher_are_left_alone() {
    let mut other = segment(1, 0);
    other.cipher_id = 2;
    assert!(!segment_needs_rekey(&other, &intent()));
    assert!(segment_needs_rekey(&segment(1, 0), &intent()));
    assert!(!segment_needs_rekey(&segment(1, 9), &intent()));
}

#[test]
fn a_malformed_segment_row_stops_the_walk() {
    let mut db = store();
    db.writer.catalog_root_page_id = 7;
    let mut catalog = linked(&[(b"a", segment(1, 0))]);
    let key = Catalog::segment_key(REALM, b"b").unwrap();
    catalog.put(&key, CatalogValue::Malformed);
    let e = Err(PagedbError::Corruption(CorruptionDetail::CatalogRowInvalid {
        field: "segment.meta",
    }));
    assert_eq!(db.rekey_segments_pending(&catalog, &intent()), e);
    assert_eq!(db.migrate_rekey_segments(&catalog, &[KIND_SEGMENT]).err(), e.err());
    db.writer.catalog_root_page_id = 0;
    assert_eq!(db.rekey_segments_pending(&catalog, &intent()), Ok(false));
}

#[test]
fn a_replacement_must_match_its_source() {
    let source = segment(1, 0);
    assert_eq!(rekey_page_range(&source), (1, 4));
    let mut empty = source;
    empty.page_count = 0;
    assert_eq!(rekey_page_range(&empty), (1, 0));
    assert_eq!(check_copied_page(3, 3), Ok(()));
    assert_eq!(
        check_copied_page(3, 4),
        Err(PagedbError::RekeyStateInvalid { field: "rekey.page_id_ordering" })
    );
    assert_eq!(check_replacement(&segment(2, 9), &source), Ok(()));
    let mut v1 = segment(2, 9);
    v1.format_version = 1;
    assert_eq!(
        check_replacement(&v1, &source),
        Err(PagedbError::RekeyStateInvalid { field: "rekey.replacement_metadata" })
    );
}

#[test]
fn orphaned_progress_is_finished_only_with_its_replacement() {
    let mut db = store();
    db.writer.catalog_root_page_id = 7;
    let key = Catalog::rekey_segment_progress_key(&[1; 16]);
    let row = CatalogValue::RekeyProgress(RekeySegmentProgress {
        replacement_segment_id: [8; 16],
        state: RekeySegmentProgressState::Sealed,
    });
    let missing = PagedbError::RekeyReplacementMissing { replacement_segment_id: [8; 16] };

    let linked_source = linked(&[(b"a", segment(1, 0))]);
    assert!(matches!(
        db.finish_orphaned_rekey_progress(&linked_source, &intent(), &key, &row),
        Ok(OrphanPlan::Migrate { row: 0 })
    ));
    let published = linked(&[(b"a", segment(8, 9))]);
    match db.finish_orphaned_rekey_progress(&published, &intent(), &key, &row) {
        Ok(OrphanPlan::Finish { source_id, replacement }) => {
            assert_eq!(source_id, [1; 16]);
            assert_eq!(check_orphan_opened(true, &replacement), Ok(()));
            assert_eq!(
                check_orphan_opened(false, &replacement),
                Err(PagedbError::RekeyReplacementMissing { replacement_segment_id: [8; 16] })
            );
        }
        _ => panic!("expected the replacement to be found"),
    }
    let stale = linked(&[(b"a", segment(8, 4))]);
    assert_eq!(
        db.finish_orphaned_rekey_progress(&stale, &intent(), &key, &row).err(),
        Some(missing)
    );
    let gone = linked(&[]);
    assert_eq!(
        db.finish_orphaned_rekey_progress(&gone, &intent(), &key, &row).err(),
        Some(PagedbError::RekeyReplacementMissing { replacement_segment_id: [8; 16] })
    );
    assert_eq!(
        db.finish_orphaned_rekey_progress(&gone, &intent(), &key[..16], &row).err(),
        Some(PagedbError::RekeyStateInvalid { field: "rekey.segment_progress.key" })
    );
    assert_eq!(progress_source_id(&key), Ok([1; 16]));
}

#[test]
fn an_intent_without_a_target_proof_is_given_one() {
    let db = store();
    let held = kek(0x51);
    let mut catalog: BTree<CatalogValue> = BTree::new(7, 20);
    assert!(db
        .inject_incomplete_rekey_watermark(&mut catalog, 9, proof_under(&held.source.hk, 0))
        .is_ok());
    let mut loaded = match catalog.get(&Catalog::rekey_state_key()) {
        Some(CatalogValue::RekeyState(i)) => *i,
        _ => panic!("an intent was written"),
    };
    assert!(needs_target_proof(&loaded));
    let mut ring = EpochKeyring::new(0, CipherId::Aes256Gcm, held.source.mk);
    db.persist_legacy_rekey_proof(
        &mut catalog,
        &mut ring,
        &mut loaded,
        &held.target,
        CipherId::Aes256Gcm,
    )
    .unwrap();
    assert!(!needs_target_proof(&loaded));
    assert_eq!(loaded.target_hk_proof, proof_under(&held.target.hk, 9));
    assert_eq!(db.admit_rekey_recovery(&mut ring, Some(&loaded), &held, None), Ok(true));
    assert_eq!(ring.lease(9, CipherId::Aes256Gcm).ok().unwrap().0, held.target.mk.0);
}
