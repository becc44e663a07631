use pagedb::db::handle::{Db, SegmentReconciliation};
use pagedb::db::misc::get_vfs_root;
use pagedb::db::open::create::{initial_header, pager_config};
use pagedb::db::open::existing::{admit_header, check_header_slots, writer_from_header};
use pagedb::db::open::header_probe::{
    check_format_version, check_page_size, declared_format_version, declared_page_size,
    peek_restore_mode, slot_key_inputs, unverifiable_header_cause, HeaderFrame,
};
use pagedb::db::open::modes::{
    acquire_interlocking_mode_lock, lock_path, map_lock_contention, open_start, open_with_mode,
    options_for_mode, path_exists, LongLivedLock, OpenEvent, OpenMode, OpenStep, PromotionStep,
};
use pagedb::db::open::recovery::{
    recover_open_state, recovery_start, RecoveryEvent, RecoveryStep,
};
use pagedb::errors::{CorruptionDetail, IoKind, PagedbError};
use pagedb::header::MainDbHeaderFields;
use pagedb::ids::{ActiveSlot, CipherId, CommitId, RealmId};
use pagedb::mode::{
    DbMode, FROZEN_READERS_LOCK_PATH, OBSERVERS_LOCK_PATH, WRITER_LOCK_PATH,
};
use pagedb::options::{OpenOptions, RetainPolicy};

const PAGE: usize = 4096;
const REALM: RealmId = RealmId([0x3c; 16]);
const UNKNOWN: u32 = 1 << 7;
const FRAME: HeaderFrame = HeaderFrame { magic: *b"PAGEDBM1", fields_end: 200, mac_len: 32 };

fn options() -> OpenOptions {
    OpenOptions {
        buffer_pool_pages: 64,
        segment_cache_pages: 16,
        anchor_budget: 64,
        observer_retry_count: 3,
        metrics_enabled: false,
        reader_stall_threshold_pages: 10,
        mmap_view_scratch_bytes: 4096,
        scratch_bytes: 4096,
        skip_freelist_persistence_when_no_readers: false,
        commit_history_retain: RetainPolicy::Disabled,
        cipher: CipherId::Aes256Gcm,
    }
}

fn header(seq: u64, unknown: bool) -> MainDbHeaderFields {
    let mut fields =
        initial_header(CipherId::Aes256Gcm, PAGE, REALM, [1; 16], [2; 16]).ok().unwrap();
    fields.seq = seq;
    if unknown {
        fields.flags |= UNKNOWN;
    }
    fields
}

fn slot() -> Vec<u8> {
    let mut bytes = vec![0u8; PAGE];
    bytes[..8].copy_from_slice(&FRAME.magic);
    bytes[8] = 1;
    bytes[11] = 12;
    bytes[32] = 0xC3;
    bytes[48] = 9;
    bytes
}

fn open_slots(
    a: Option<MainDbHeaderFields>,
    b: Option<MainDbHeaderFields>,
) -> Result<(MainDbHeaderFields, ActiveSlot), PagedbError> {
    admit_header(&slot(), &slot(), a, b, PAGE, &FRAME, 0)
}

fn assert_refused(a: Option<MainDbHeaderFields>, b: Option<MainDbHeaderFields>) {
    match open_slots(a, b) {
        Err(PagedbError::HeaderCapabilityUnsupported { unknown_flags }) => {
            assert_eq!(unknown_flags, UNKNOWN);
        }
        result => panic!("expected capability refusal, got {:?}", result.map(|_| "opened")),
    }
}

#[test]
fn an_unknown_capability_refuses_every_mixed_slot_order() {
    for seq in [9, 10, 11] {
        assert_refused(Some(header(seq, true)), Some(header(10, false)));
        assert_refused(Some(header(10, false)), Some(header(seq, true)));
    }
}

#[test]
fn an_unknown_capability_survives_a_corrupt_alternate() {
    assert_refused(Some(header(10, true)), None);
    assert_refused(None, Some(header(10, true)));
    assert_refused(Some(header(10, true)), Some(header(11, true)));
}

#[test]
fn an_unauthenticated_capability_does_not_prevent_fallback() {
    for slot in [ActiveSlot::A, ActiveSlot::B] {
        let live = Some(header(10, false));
        let admitted = match slot {
            ActiveSlot::A => open_slots(live, None),
            ActiveSlot::B => open_slots(None, live),
        };
        let (fields, at) = admitted.ok().unwrap();
        assert_eq!((fields.seq, at), (10, slot));
    }
    let (fields, at) = open_slots(Some(header(10, false)), Some(header(11, false))).ok().unwrap();
    assert_eq!((fields.seq, at), (11, ActiveSlot::B));
}

#[test]
fn an_unverifiable_header_is_a_key_problem_only_when_framed() {
    assert_eq!(open_slots(None, None).err(), Some(PagedbError::KeyMismatch));
    let mut damaged = slot();
    damaged[300] = 1;
    assert_eq!(
        unverifiable_header_cause(&damaged, &[], PAGE, &FRAME),
        PagedbError::Corruption(CorruptionDetail::HeaderUnverifiable)
    );
    assert_eq!(unverifiable_header_cause(&damaged, &slot(), PAGE, &FRAME), PagedbError::KeyMismatch);
}

#[test]
fn cleartext_fields_are_checked_before_any_key() {
    let mut wide = slot();
    wide[11] = 13;
    assert_eq!(declared_page_size(&slot(), &FRAME.magic), Some(4096));
    assert_eq!(declared_page_size(&wide, &FRAME.magic), Some(8192));
    assert_eq!(declared_page_size(b"short", &FRAME.magic), None);
    assert_eq!(check_page_size(&slot(), &wide, PAGE, &FRAME.magic), Ok(()));
    assert_eq!(
        check_page_size(&wide, &slot(), PAGE, &FRAME.magic),
        Err(PagedbError::PageSizeMismatch { stored: 8192, supplied: PAGE })
    );
    let mut newer = slot();
    newer[8] = 2;
    newer[9] = 1;
    assert_eq!(declared_format_version(&newer, &FRAME.magic), Some(258));
    assert_eq!(
        check_format_version(&newer, &slot(), &FRAME.magic),
        Err(PagedbError::FormatVersionUnsupported { stored: 258, supported: 1 })
    );
    assert_eq!(check_header_slots(&slot(), &slot(), PAGE, &FRAME), Ok(()));
    assert!(check_header_slots(&newer, &slot(), PAGE, &FRAME).is_err());
    let (salt, epoch) = slot_key_inputs(&slot()).unwrap();
    assert_eq!((salt[0], salt[1], epoch), (0xC3, 0, 9));
    assert!(slot_key_inputs(&[0; 55]).is_none());
}

#[test]
fn a_writer_opens_through_both_interlocks() {
    let mode = DbMode::Standalone;
    let next = |step, event| open_with_mode(mode, step, event).unwrap();
    assert_eq!(open_start(mode), OpenStep::LockAcquisition);
    assert_eq!(next(OpenStep::LockAcquisition, OpenEvent::Locked), Ok(OpenStep::ProbeMainLocked));
    let probe = OpenStep::ProbeLock { lock: LongLivedLock::FrozenReader, exists: false };
    assert_eq!(next(OpenStep::ProbeMainLocked, OpenEvent::Absent), Ok(probe));
    assert_eq!(
        next(probe, OpenEvent::Failed(PagedbError::AlreadyLocked)),
        Err(PagedbError::ReadersPresent)
    );
    let hold = OpenStep::HoldLock { lock: LongLivedLock::Writer, exists: false };
    assert_eq!(next(probe, OpenEvent::Locked), Ok(hold));
    assert_eq!(next(hold, OpenEvent::Locked), Ok(OpenStep::Bootstrap));
    assert_eq!(
        next(hold, OpenEvent::Failed(PagedbError::AlreadyLocked)),
        Err(PagedbError::AlreadyOpen)
    );
    assert_eq!(next(OpenStep::ProbeMainLocked, OpenEvent::Present), Ok(OpenStep::PeekRestore));
    assert_eq!(
        next(OpenStep::PeekRestore, OpenEvent::RestoreMode(2)),
        Err(PagedbError::RestoredNotPromoted)
    );
    assert!(open_with_mode(mode, OpenStep::PeekRestore, OpenEvent::Locked).is_none());
}

#[test]
fn a_reader_never_bootstraps() {
    for mode in [DbMode::ReadOnly, DbMode::Observer] {
        assert_eq!(open_start(mode), OpenStep::ProbeMain);
        assert_eq!(
            open_with_mode(mode, OpenStep::ProbeMain, OpenEvent::Absent),
            Some(Err(PagedbError::NotFound))
        );
        assert!(!mode.open_capabilities().bootstraps());
        assert!(!mode.open_capabilities().allows_user_writes());
        assert_eq!(mode.open_capabilities().main_db_open_mode(), OpenMode::Read);
    }
    assert_eq!(
        acquire_interlocking_mode_lock(DbMode::Observer, true),
        OpenStep::HoldLock { lock: LongLivedLock::Observer, exists: true }
    );
    let probe = OpenStep::ProbeLock { lock: LongLivedLock::Writer, exists: true };
    assert_eq!(acquire_interlocking_mode_lock(DbMode::ReadOnly, true), probe);
    assert_eq!(
        open_with_mode(DbMode::ReadOnly, probe, OpenEvent::Failed(PagedbError::AlreadyLocked)),
        Some(Err(PagedbError::WriterPresent))
    );
}

#[test]
fn locks_have_their_own_paths() {
    assert_eq!(lock_path(LongLivedLock::Writer), WRITER_LOCK_PATH);
    assert_eq!(lock_path(LongLivedLock::FrozenReader), FROZEN_READERS_LOCK_PATH);
    assert_eq!(lock_path(LongLivedLock::Observer), OBSERVERS_LOCK_PATH);
    assert_eq!(
        map_lock_contention(PagedbError::AlreadyLocked, PagedbError::AlreadyOpen),
        PagedbError::AlreadyOpen
    );
    assert_eq!(
        map_lock_contention(PagedbError::Io(IoKind::Other), PagedbError::AlreadyOpen),
        PagedbError::Io(IoKind::Other)
    );
    assert_eq!(path_exists(Ok(())), Ok(true));
    assert_eq!(path_exists(Err(PagedbError::Io(IoKind::NotFound))), Ok(false));
    assert_eq!(
        path_exists(Err(PagedbError::Io(IoKind::Other))),
        Err(PagedbError::Io(IoKind::Other))
    );
    assert_eq!(options_for_mode(DbMode::Observer, options()).observer_retry_count, 3);
    assert_eq!(options_for_mode(DbMode::Standalone, options()).observer_retry_count, 0);
}

#[test]
fn recovery_respects_the_mode() {
    let mut journaled = header(1, false);
    journaled.apply_journal_root_page_id = 5;
    assert_eq!(recovery_start(DbMode::ReadOnly, &journaled), Err(PagedbError::Unsupported));
    assert_eq!(recovery_start(DbMode::Follower, &journaled), Ok(RecoveryStep::RetryApplyJournal));
    assert_eq!(recovery_start(DbMode::Observer, &header(1, false)), Ok(RecoveryStep::VerifyCatalog));
    let standalone = |step, event| recover_open_state(DbMode::Standalone, step, event).unwrap();
    assert_eq!(
        standalone(
            RecoveryStep::RemoveCompaction,
            RecoveryEvent::Failed(PagedbError::Io(IoKind::NotFound))
        ),
        Ok(RecoveryStep::RepairCatalog)
    );
    assert_eq!(
        standalone(
            RecoveryStep::RemoveCompaction,
            RecoveryEvent::Failed(PagedbError::Io(IoKind::Other))
        ),
        Err(PagedbError::Io(IoKind::Other))
    );
    assert_eq!(
        standalone(RecoveryStep::LoadRekey, RecoveryEvent::Rekey(Some(3))),
        Ok(RecoveryStep::ResumeRekey { target_epoch: 3 })
    );
    assert_eq!(
        recover_open_state(DbMode::Follower, RecoveryStep::LoadRekey, RecoveryEvent::Rekey(Some(3))),
        Some(Err(PagedbError::Unsupported))
    );
}

#[test]
fn a_reopened_handle_stands_at_its_header() {
    let mut fields = header(4, false);
    fields.active_root_page_id = 10;
    fields.commit_id = CommitId(7);
    fields.apply_journal_root_page_id = 5;
    let state = writer_from_header(&fields);
    assert_eq!((state.root_page_id, state.latest_commit_id), (10, 7));
    assert_eq!(state.pending_apply_journal_id[0], 5);
    assert_eq!(peek_restore_mode(None, Some(fields)), Ok(0));
    assert!(peek_restore_mode(None, None).is_err());
    let cfg = pager_config(PAGE, &options(), CipherId::Aes256Gcm, 3, [1; 16], 0);
    assert_eq!((cfg.mk_epoch, cfg.anchor_budget, cfg.dek_lru_capacity), (3, 64, 256));
}

#[test]
fn a_restored_copy_is_promoted_under_the_writer_lock() {
    let mut db = Db::open_existing_inner(
        String::from("/main.db"),
        &header(1, false),
        ActiveSlot::A,
        PAGE,
        REALM,
        options(),
        DbMode::ReadOnly,
        [3; 16],
    )
    .ok()
    .unwrap();
    db.finish_open(DbMode::ReadOnly);
    assert!(db.holds_write_lock());
    assert!(matches!(db.create_segment(), Err(PagedbError::WrongMode { .. })));
    assert_eq!(db.promote_to_follower(), Ok(PromotionStep::LockAcquisition));
    assert_eq!(
        db.promotion_next(PromotionStep::LockAcquisition, Ok(())),
        Ok(PromotionStep::ProbeFrozen)
    );
    assert!(!db.holds_write_lock());
    assert_eq!(db.promotion_next(PromotionStep::ProbeFrozen, Ok(())), Ok(PromotionStep::HoldWriter));
    assert_eq!(db.promotion_next(PromotionStep::HoldWriter, Ok(())), Ok(PromotionStep::Promoted));
    assert_eq!(db.mode(), DbMode::Follower);
    assert!(db.can_apply_incremental());
    assert!(db.apply_incremental().is_ok());
    assert!(matches!(
        db.promote_to_follower(),
        Err(PagedbError::WrongMode { operation: "promote_to_follower", .. })
    ));
    assert!(matches!(db.rekey_into_writer(), Err(PagedbError::Unsupported)));
}

#[test]
fn a_pending_journal_is_cleared_once_reconciled() {
    let mut fields = header(1, false);
    fields.apply_journal_root_page_id = 5;
    fields.commit_id = CommitId(3);
    let open = || {
        Db::open_existing_inner(
            String::from("/main.db"),
            &fields,
            ActiveSlot::A,
            PAGE,
            REALM,
            options(),
            DbMode::Follower,
            [3; 16],
        )
        .ok()
        .unwrap()
    };
    let mut db = open();
    assert_eq!(db.retry_pending_apply_journal().unwrap()[0], 5);
    assert_eq!(
        db.retry_pending_apply_journal_visible(true, Ok(SegmentReconciliation::Deferred), 9).err(),
        Some(PagedbError::ReadersPinningTruncatedRange)
    );
    let cleared = db
        .retry_pending_apply_journal_visible(true, Ok(SegmentReconciliation::Complete), 9)
        .ok()
        .unwrap();
    assert_eq!((cleared.apply_journal_root_page_id, cleared.seq), (0, 2));
    assert_eq!(db.journal_cleared(Some((ActiveSlot::B, 2)), true).unwrap()[0], 5);
    assert!(db.retry_pending_apply_journal().is_none());

    let mut lost = open();
    assert_eq!(
        lost.retry_pending_apply_journal_visible(false, Ok(SegmentReconciliation::Complete), 9).err(),
        Some(PagedbError::DurablyCommittedButUnpublished { commit: CommitId(3) })
    );
    assert!(lost.ensure_usable().is_err());
    let mut unwritten = open();
    assert!(unwritten.journal_cleared(None, true).is_err());
    assert!(unwritten.ensure_usable().is_err());
}

#[test]
fn each_mode_has_its_own_reach() {
    let cases = [
        (DbMode::Standalone, false, true, true, false),
        (DbMode::Follower, false, false, false, true),
        (DbMode::ReadOnly, true, false, false, true),
        (DbMode::Observer, true, false, false, false),
    ];
    for (mode, read_only, maintains, writes, rekeys) in cases {
        let caps = mode.open_capabilities();
        assert_eq!(caps.allows_store_maintenance(), maintains);
        assert_eq!(caps.read_only_file_access(), read_only);
        let db = Db::open_existing_inner(
            String::from("/main.db"),
            &header(1, false),
            ActiveSlot::A,
            PAGE,
            REALM,
            options(),
            mode,
            [3; 16],
        )
        .ok()
        .unwrap();
        assert_eq!(db.is_writer(), writes);
        assert_eq!(db.can_rekey_into_writer(), rekeys);
    }
    assert_eq!(get_vfs_root(Some(String::from("/srv"))), Ok(String::from("/srv")));
    assert_eq!(get_vfs_root(None), Err(PagedbError::Unsupported));
}

#[test]
fn an_open_begins_by_its_mode() {
    let writer = Db::open(options());
    assert_eq!(writer.mode, DbMode::Standalone);
    assert_eq!(writer.step, OpenStep::LockAcquisition);
    assert_eq!(writer.options.observer_retry_count, 0);
    let frozen = Db::open_read_only(options());
    assert_eq!(frozen.mode, DbMode::ReadOnly);
    assert_eq!(frozen.step, OpenStep::ProbeMain);
    let observer = Db::open_observer(options());
    assert_eq!(observer.mode, DbMode::Observer);
    assert_eq!(observer.options.observer_retry_count, 3);
}
