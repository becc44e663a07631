//! Laws of a store's headers and of the handle that is made from them.

use vstd::prelude::*;

use crate::catalog::CatalogValue;
use crate::db::catalog_commit::{recover_counter_monotonicity, validate_counter_rows, CatalogCommit};
use crate::db::handle::{
    Db, HeaderFieldsParams, PendingKeyRetirement, SegmentReconciliation, WriterState,
};
use crate::db::misc::{count_segments, get_vfs_root, segment_totals, DbStats, PagerStats};
use crate::db::open::create::{initial_header, pager_config, FreshDbState, PagerConfig};
use crate::db::open::existing::{admit_header, check_header_slots, writer_from_header};
use crate::db::open::header_probe::{
    check_format_version, check_page_size, declared_format_version, declared_page_size,
    peek_restore_mode, slot_key_inputs, unverifiable_header_cause, HeaderFrame,
};
use crate::errors::{CorruptionDetail, PagedbError, Result};
use crate::header::{is_no_page_size, law_root_ref_round_trip, page_size_log2, MainDbHeaderFields};
use crate::ids::{ActiveSlot, CipherId, CommitId, RealmId};
use crate::mode::DbMode;
use crate::options::OpenOptions;
use crate::order::has_prefix;
use crate::tree::{BTree, TreePages};

use super::bytes::{eight_up, law_eight_bytes_up, law_page_sizes};

verus! {

/// A page size is recorded by its power of two, and one that no store has is
/// refused.
pub proof fn law_page_size_is_recorded(page_size: usize, r: Result<u8>)
    requires
        call_ensures(page_size_log2, (page_size,), r),
    ensures
        r == if page_size == 4096 {
            Ok::<u8, PagedbError>(12)
        } else if page_size == 8192 {
            Ok::<u8, PagedbError>(13)
        } else if page_size == 16384 {
            Ok::<u8, PagedbError>(14)
        } else if page_size == 32768 {
            Ok::<u8, PagedbError>(15)
        } else if page_size == 65536 {
            Ok::<u8, PagedbError>(16)
        } else {
            Err::<u8, PagedbError>(PagedbError::Unsupported)
        },
{
    if r is Err {
        lemma_no_page_size(page_size as int);
    } else {
        law_page_sizes(page_size as int, r->Ok_0);
    }
}

/// A size that no power of two stands for is none of the five.
proof fn lemma_no_page_size(page_size: int)
    requires
        is_no_page_size(page_size),
    ensures
        page_size != 4096 && page_size != 8192 && page_size != 16384 && page_size != 32768
            && page_size != 65536,
{
    law_page_sizes(page_size, 12);
    law_page_sizes(page_size, 13);
    law_page_sizes(page_size, 14);
    law_page_sizes(page_size, 15);
    law_page_sizes(page_size, 16);
}

/// A new store begins with header 1 of commit 0: no roots, no journal, no history,
/// not restored, pages from 4 on to be given out, under the identity that it was
/// created with.
pub proof fn law_new_store_is_empty(
    cipher: CipherId,
    page_size: usize,
    realm: RealmId,
    file_id: [u8; 16],
    kek_salt: [u8; 16],
    r: Result<MainDbHeaderFields>,
)
    requires
        call_ensures(initial_header, (cipher, page_size, realm, file_id, kek_salt), r),
    ensures
        r is Err <==> !(page_size == 4096 || page_size == 8192 || page_size == 16384 || page_size
            == 32768 || page_size == 65536),
        r is Err ==> r->Err_0 is Unsupported,
        r is Ok ==> {
            let f = r->Ok_0;
            &&& f.format_version == 1
            &&& f.cipher_id == if cipher is Aes256Gcm {
                1u8
            } else {
                2u8
            }
            &&& f.flags == 0
            &&& f.file_id == file_id
            &&& f.kek_salt == kek_salt
            &&& f.realm_id == realm
            &&& f.mk_epoch == 0
            &&& f.seq == 1
            &&& f.commit_id.0 == 0
            &&& f.active_root_page_id == 0 && f.active_root_txn_id == 0
            &&& f.counter_anchor == 0
            &&& forall|i: int| 0 <= i < 16 ==> #[trigger] f.free_list_root@[i] == 0
            &&& forall|i: int| 0 <= i < 16 ==> #[trigger] f.catalog_root@[i] == 0
            &&& f.apply_journal_root_page_id == 0 && f.apply_journal_root_version == 0
            &&& f.commit_history_root_page_id == 0 && f.commit_history_root_version == 0
            &&& f.restore_mode == 0
            &&& f.next_page_id == 4
        },
{
    if r is Err {
        lemma_no_page_size(page_size as int);
    } else {
        law_page_sizes(page_size as int, r->Ok_0.page_size_log2);
    }
}

/// A store that was just created has a usable Standalone handle on an empty store:
/// nothing is read, pinned, queued or counted, the live header is number 1 in slot A,
/// and the history is known to have no row.
pub proof fn law_created_handle_is_fresh(
    path: String,
    page_size: usize,
    realm: RealmId,
    options: OpenOptions,
    cipher: CipherId,
    file_id: [u8; 16],
    kek_salt: [u8; 16],
    spill_epoch: [u8; 16],
    f: MainDbHeaderFields,
    db: Db,
)
    requires
        call_ensures(
            Db::open_internal_with_options_and_cipher,
            (path, page_size, realm, options, cipher, file_id, kek_salt, spill_epoch),
            Ok::<(MainDbHeaderFields, Db), PagedbError>((f, db)),
        ),
    ensures
        f.seq == 1 && f.commit_id.0 == 0 && f.next_page_id == 4,
        db.mode is Standalone,
        db.poisoned_commit is None,
        db.main_db_path == path,
        db.page_size == page_size,
        db.options == options,
        db.spill_epoch == spill_epoch,
        db.file_id == file_id && f.file_id == file_id,
        db.kek_salt == kek_salt && f.kek_salt == kek_salt,
        db.realm_id == realm && f.realm_id == realm,
        db.cipher_id == cipher,
        db.mk_epoch == 0 && f.mk_epoch == 0,
        db.header_cursor.slot is A,
        db.header_cursor.seq == 1,
        db.writer.root_page_id == 0 && db.writer.catalog_root_page_id == 0,
        db.writer.free_list_root_page_id == 0 && db.writer.commit_history_root_page_id == 0,
        db.writer.next_page_id == 4 && db.writer.latest_commit_id == 0,
        db.writer.commit_history_count == Some(0u64),
        db.snapshot.root_page_id == 0 && db.snapshot.catalog_root_page_id == 0,
        db.snapshot.commit_id == 0 && db.snapshot.next_page_id == 4,
        db.snapshot.free_list_root_page_id == 0 && db.snapshot.commit_history_root_page_id == 0,
        db.tracked_readers@.len() == 0 && db.aborted_readers@.len() == 0,
        db.pending_tombstones@.len() == 0 && db.pending_key_retirements@.len() == 0,
        db.pending_pin_deletes@.len() == 0 && db.orphaned_spill_paths@.len() == 0,
        db.free_page_cache@.len() == 0,
        db.mmap_bytes_in_use == 0 && db.spill_bytes_in_use == 0,
        db.txn_seq == 0 && db.reader_seq == 0 && db.segment_id_counter == 0,
        db.sentinel_locks == 0 && !db.lock_required,
        db.stall_policy is AbortOldest,
{
}

/// The pager of a store is set up with the store's identity and the handle's
/// options, each where it belongs.
pub proof fn law_pager_is_set_up(
    page_size: usize,
    options: &OpenOptions,
    cipher: CipherId,
    mk_epoch: u64,
    file_id: [u8; 16],
    retries: u32,
    cfg: PagerConfig,
)
    requires
        call_ensures(
            pager_config,
            (page_size, options, cipher, mk_epoch, file_id, retries),
            cfg,
        ),
    ensures
        cfg.page_size == page_size,
        cfg.buffer_pool_pages == options.buffer_pool_pages,
        cfg.segment_cache_pages == options.segment_cache_pages,
        cfg.cipher_id == cipher,
        cfg.mk_epoch == mk_epoch,
        cfg.main_db_file_id == file_id,
        cfg.anchor_budget == options.anchor_budget,
        cfg.dek_lru_capacity == 256,
        cfg.observer_retry_count == retries,
        cfg.metrics_enabled == options.metrics_enabled,
{
}

/// A store is opened at what its header says: every root, the cursor, the commit,
/// the history and the journal are taken from the header, the count of the history
/// is not known yet, and readers begin there. An unknown cipher is refused.
pub proof fn law_opened_store_is_the_headers(
    path: String,
    f: &MainDbHeaderFields,
    slot: ActiveSlot,
    page_size: usize,
    realm: RealmId,
    options: OpenOptions,
    mode: DbMode,
    spill_epoch: [u8; 16],
    r: Result<Db>,
    state: WriterState,
)
    requires
        call_ensures(
            Db::open_existing_inner,
            (path, f, slot, page_size, realm, options, mode, spill_epoch),
            r,
        ),
        call_ensures(writer_from_header, (f,), state),
    ensures
        r is Ok <==> f.cipher_id == 1 || f.cipher_id == 2,
        r is Err ==> r->Err_0 == (PagedbError::UnknownCipher { cipher_id: f.cipher_id }),
        r is Ok ==> {
            let db = r->Ok_0;
            &&& db.mode == mode && db.options == options && db.page_size == page_size
            &&& db.realm_id == realm && db.main_db_path == path && db.spill_epoch == spill_epoch
            &&& db.file_id == f.file_id && db.kek_salt == f.kek_salt && db.mk_epoch == f.mk_epoch
            &&& db.format_version == f.format_version && db.header_flags == f.flags
            &&& db.cipher_id is Aes256Gcm <==> f.cipher_id == 1
            &&& db.header_cursor.slot == slot && db.header_cursor.seq == f.seq
            &&& db.poisoned_commit is None && db.tracked_readers@.len() == 0
            &&& db.writer.root_page_id == f.active_root_page_id
            &&& db.writer.next_page_id == f.next_page_id
            &&& db.writer.latest_commit_id == f.commit_id.0
            &&& db.writer.commit_history_root_page_id == f.commit_history_root_page_id
            &&& db.writer.commit_history_root_version == f.commit_history_root_version
            &&& db.writer.commit_history_count is None
            &&& db.writer.restore_mode == f.restore_mode
            &&& db.writer.commit_retain_policy_tag == f.commit_retain_policy_tag
            &&& db.writer.commit_retain_policy_value == f.commit_retain_policy_value
            &&& db.writer.catalog_root_page_id == eight_up(f.catalog_root@.subrange(0, 8))
            &&& db.writer.catalog_root_txn_id == eight_up(f.catalog_root@.subrange(8, 16))
            &&& db.writer.free_list_root_page_id == eight_up(f.free_list_root@.subrange(0, 8))
            &&& eight_up(db.writer.pending_apply_journal_id@.subrange(0, 8))
                == f.apply_journal_root_page_id
            &&& eight_up(db.writer.pending_apply_journal_id@.subrange(8, 16))
                == f.apply_journal_root_version
            &&& db.snapshot.commit_id == db.writer.latest_commit_id
            &&& db.snapshot.root_page_id == db.writer.root_page_id
            &&& db.snapshot.next_page_id == db.writer.next_page_id
            &&& db.snapshot.catalog_root_page_id == db.writer.catalog_root_page_id
            &&& db.snapshot.free_list_root_page_id == db.writer.free_list_root_page_id
            &&& db.snapshot.commit_history_root_page_id == db.writer.commit_history_root_page_id
        },
        state.root_page_id == f.active_root_page_id,
        state.next_page_id == f.next_page_id,
        state.latest_commit_id == f.commit_id.0,
        state.catalog_root_page_id == eight_up(f.catalog_root@.subrange(0, 8)),
        state.commit_history_root_page_id == f.commit_history_root_page_id,
{
    law_eight_bytes_up(f.catalog_root@.subrange(0, 8));
    law_eight_bytes_up(f.catalog_root@.subrange(8, 16));
    law_eight_bytes_up(f.free_list_root@.subrange(0, 8));
    law_root_ref_round_trip(f.apply_journal_root_page_id, f.apply_journal_root_version);
    if r is Ok {
        let raw = r->Ok_0.writer.pending_apply_journal_id@;
        law_eight_bytes_up(raw.subrange(0, 8));
        law_eight_bytes_up(raw.subrange(8, 16));
    }
}

/// A header is admitted where no slot that verifies asks for a capability that is
/// not known; of those the one with the higher number, slot A where they are level.
/// Where none verifies, the key is wrong if a slot is framed as a header is, and the
/// store is damaged if none is.
pub proof fn law_header_is_admitted(
    slot_a: &[u8],
    slot_b: &[u8],
    a: Option<MainDbHeaderFields>,
    b: Option<MainDbHeaderFields>,
    page_size: usize,
    frame: &HeaderFrame,
    known: u32,
    r: Result<(MainDbHeaderFields, ActiveSlot)>,
    cause: PagedbError,
    restore: Result<u8>,
)
    requires
        call_ensures(admit_header, (slot_a, slot_b, a, b, page_size, frame, known), r),
        call_ensures(unverifiable_header_cause, (slot_a, slot_b, page_size, frame), cause),
        call_ensures(peek_restore_mode, (a, b), restore),
        frame.wf(),
    ensures
        a is Some && a->0.flags & !known != 0 ==> r == Err::<
            (MainDbHeaderFields, ActiveSlot),
            PagedbError,
        >(PagedbError::HeaderCapabilityUnsupported { unknown_flags: a->0.flags & !known }),
        !(a is Some && a->0.flags & !known != 0) && b is Some && b->0.flags & !known != 0 ==> r
            == Err::<(MainDbHeaderFields, ActiveSlot), PagedbError>(
            PagedbError::HeaderCapabilityUnsupported { unknown_flags: b->0.flags & !known },
        ),
        r is Ok <==> (a is Some || b is Some) && (a is Some ==> a->0.flags & !known == 0) && (b
            is Some ==> b->0.flags & !known == 0),
        r is Ok && (r->Ok_0).1 is A ==> a == Some((r->Ok_0).0) && (b is Some ==> a->0.seq >= b->0.seq),
        r is Ok && (r->Ok_0).1 is B ==> b == Some((r->Ok_0).0) && (a is Some ==> b->0.seq > a->0.seq),
        a is None && b is None ==> r == Err::<(MainDbHeaderFields, ActiveSlot), PagedbError>(cause),
        cause is KeyMismatch || cause == PagedbError::Corruption(
            CorruptionDetail::HeaderUnverifiable,
        ),
        cause is KeyMismatch <==> looks_framed(slot_a@, page_size, *frame) || looks_framed(
            slot_b@,
            page_size,
            *frame,
        ),
        a is Some ==> restore == Ok::<u8, PagedbError>(a->0.restore_mode),
        a is None && b is Some ==> restore == Ok::<u8, PagedbError>(b->0.restore_mode),
        a is None && b is None ==> restore == Err::<u8, PagedbError>(
            PagedbError::Corruption(CorruptionDetail::HeaderUnverifiable),
        ),
{
    lemma_framed(slot_a@, page_size, *frame);
    lemma_framed(slot_b@, page_size, *frame);
}

/// Whether a slot has the outer shape of a header: a page of the store's size that
/// begins with the magic and is zero in its reserved bytes and between its fields and
/// its authentication.
pub open spec fn looks_framed(slot: Seq<u8>, page_size: usize, frame: HeaderFrame) -> bool {
    &&& page_size > frame.fields_end + frame.mac_len
    &&& slot.len() == page_size
    &&& forall|i: int| 0 <= i < 8 ==> #[trigger] slot[i] == frame.magic@[i]
    &&& forall|i: int| 161 <= i < 168 ==> #[trigger] slot[i] == 0
    &&& forall|i: int| frame.fields_end <= i < page_size - frame.mac_len ==> #[trigger] slot[i] == 0
}

proof fn lemma_framed(slot: Seq<u8>, page_size: usize, frame: HeaderFrame)
    requires
        frame.wf(),
    ensures
        crate::db::open::header_probe::framed(slot, page_size, frame) <==> looks_framed(
            slot,
            page_size,
            frame,
        ),
{
    if page_size > frame.fields_end + frame.mac_len && slot.len() == page_size {
        let reserved = slot.subrange(161, 168);
        let padding = slot.subrange(frame.fields_end as int, page_size - frame.mac_len);
        if crate::db::open::header_probe::framed(slot, page_size, frame) {
            assert forall|i: int| 0 <= i < 8 implies #[trigger] slot[i] == frame.magic@[i] by {
                assert(slot.subrange(0, 8)[i] == slot[i]);
            }
            assert forall|i: int| 161 <= i < 168 implies #[trigger] slot[i] == 0 by {
                assert(reserved[i - 161] == slot[i]);
            }
            assert forall|i: int|
                frame.fields_end <= i < page_size - frame.mac_len implies #[trigger] slot[i]
                == 0 by {
                assert(padding[i - frame.fields_end] == slot[i]);
            }
        }
        if looks_framed(slot, page_size, frame) {
            assert(slot.subrange(0, 8) =~= frame.magic@);
        }
    }
}

/// A slot says which version it is in its ninth and tenth bytes, once it begins with
/// the magic, and from which salt and epoch its key is made in the bytes from 32 on.
pub proof fn law_slot_declares(
    slot: &[u8],
    magic: &[u8; 8],
    version: Option<u16>,
    inputs: Option<([u8; 16], u64)>,
)
    requires
        call_ensures(declared_format_version, (slot, magic), version),
        call_ensures(slot_key_inputs, (slot,), inputs),
    ensures
        version is Some <==> slot@.len() >= 10 && forall|i: int|
            0 <= i < 8 ==> #[trigger] slot@[i] == magic@[i],
        version is Some ==> version->0 == slot@[8] + 0x100 * slot@[9],
        inputs is Some <==> slot@.len() >= 56,
        inputs is Some ==> (inputs->0).0@ == slot@.subrange(32, 48) && (inputs->0).1 == eight_up(
            slot@.subrange(48, 56),
        ),
{
    if slot@.len() >= 56 {
        law_eight_bytes_up(slot@.subrange(48, 56));
    }
    if slot@.len() >= 10 {
        let two = slot@.subrange(8, 10);
        reveal_with_fuel(crate::codec::le_value, 3);
        assert(two.drop_first()[0] == slot@[9]);
        assert(two.drop_first().drop_first().len() == 0);
        if has_prefix(slot@, magic@) {
            assert forall|i: int| 0 <= i < 8 implies #[trigger] slot@[i] == magic@[i] by {
                assert(slot@.subrange(0, 8)[i] == slot@[i]);
            }
        } else if forall|i: int| 0 <= i < 8 ==> #[trigger] slot@[i] == magic@[i] {
            assert(slot@.subrange(0, 8) =~= magic@);
        }
    }
}

/// The version that is declared first decides: version 1 and no declaration pass,
/// any other is refused with the version and the one that is supported.
pub proof fn law_version_is_checked(
    slot_a: &[u8],
    slot_b: &[u8],
    magic: &[u8; 8],
    r: Result<()>,
    a: Option<u16>,
    b: Option<u16>,
)
    requires
        call_ensures(check_format_version, (slot_a, slot_b, magic), r),
        call_ensures(declared_format_version, (slot_a, magic), a),
        call_ensures(declared_format_version, (slot_b, magic), b),
    ensures
        a is Some && a->0 == 1 ==> r is Ok,
        a is Some && a->0 != 1 ==> r == Err::<(), PagedbError>(
            PagedbError::FormatVersionUnsupported { stored: a->0, supported: 1 },
        ),
        a is None && b is Some && b->0 == 1 ==> r is Ok,
        a is None && b is Some && b->0 != 1 ==> r == Err::<(), PagedbError>(
            PagedbError::FormatVersionUnsupported { stored: b->0, supported: 1 },
        ),
        a is None && b is None ==> r is Ok,
{
}

/// Slots are checked before they are read: a page size that is declared otherwise
/// than it was supplied is refused first, then a version that is not 1.
pub proof fn law_slots_are_checked(
    slot_a: &[u8],
    slot_b: &[u8],
    page_size: usize,
    frame: &HeaderFrame,
    r: Result<()>,
    version: Result<()>,
)
    requires
        call_ensures(check_header_slots, (slot_a, slot_b, page_size, frame), r),
        call_ensures(check_format_version, (slot_a, slot_b, &frame.magic), version),
        slot_a@.len() >= 12,
        forall|i: int| 0 <= i < 8 ==> #[trigger] slot_a@[i] == frame.magic@[i],
        12 <= slot_a@[11] <= 16,
    ensures
        ({
            let declared: int = if slot_a@[11] == 12 {
                4096
            } else if slot_a@[11] == 13 {
                8192
            } else if slot_a@[11] == 14 {
                16384
            } else if slot_a@[11] == 15 {
                32768
            } else {
                65536
            };
            &&& page_size != declared ==> r is Err && r->Err_0 is PageSizeMismatch
                && r->Err_0->PageSizeMismatch_stored == declared
                && r->Err_0->PageSizeMismatch_supplied == page_size
            &&& page_size == declared ==> (r is Ok <==> version is Ok) && (r is Err ==> r
                == version)
        }),
{
    assert(slot_a@.subrange(0, 8) =~= frame.magic@);
    law_page_sizes(page_size as int, slot_a@[11]);
    if r is Err && r->Err_0 is PageSizeMismatch {
        law_page_sizes(r->Err_0->PageSizeMismatch_stored as int, slot_a@[11]);
    }
}

/// A header that a handle writes is of its own store and says what it was asked to:
/// no journal is named, and the store is not one that awaits promotion.
pub proof fn law_header_says_what_it_was_asked_to(
    db: &Db,
    params: HeaderFieldsParams,
    f: MainDbHeaderFields,
)
    requires
        call_ensures(
            Db::header_fields,
            (db, params),
            Ok::<MainDbHeaderFields, PagedbError>(f),
        ),
    ensures
        f.file_id == db.file_id && f.kek_salt == db.kek_salt && f.realm_id == db.realm_id,
        f.format_version == db.format_version && f.flags == db.header_flags,
        db.cipher_id is Aes256Gcm ==> f.cipher_id == 1,
        db.cipher_id is ChaCha20Poly1305 ==> f.cipher_id == 2,
        f.mk_epoch == params.mk_epoch && f.seq == params.seq,
        f.active_root_page_id == params.active_root_page_id,
        f.active_root_txn_id == params.active_root_txn_id,
        f.counter_anchor == params.counter_anchor,
        f.commit_id.0 == params.commit_id,
        f.catalog_root == params.catalog_root,
        f.commit_history_root_page_id == params.commit_history_root_page_id,
        f.commit_history_root_version == params.commit_history_root_version,
        f.next_page_id == params.next_page_id,
        eight_up(f.free_list_root@.subrange(0, 8)) == params.free_list_root_page_id,
        f.apply_journal_root_page_id == 0 && f.apply_journal_root_version == 0,
        f.restore_mode == 0,
        db.page_size == 4096 ==> f.page_size_log2 == 12,
        db.page_size == 8192 ==> f.page_size_log2 == 13,
        db.page_size == 16384 ==> f.page_size_log2 == 14,
        db.page_size == 32768 ==> f.page_size_log2 == 15,
        db.page_size == 65536 ==> f.page_size_log2 == 16,
{
    law_root_ref_round_trip(params.free_list_root_page_id, 0);
    law_eight_bytes_up(f.free_list_root@.subrange(0, 8));
    law_page_sizes(db.page_size as int, f.page_size_log2);
}

/// A handle that was poisoned stays poisoned by the first commit, and every use of it
/// is refused by that commit.
pub proof fn law_poison_stays(
    db: &mut Db,
    commit: CommitId,
    unit: (),
    after: &Db,
    r: Result<()>,
)
    requires
        call_ensures(Db::poison, (db, commit), unit),
        *after == *final(db),
        call_ensures(Db::ensure_usable, (after,), r),
    ensures
        old(db).poisoned_commit is None ==> final(db).poisoned_commit == Some(commit),
        old(db).poisoned_commit is Some ==> *final(db) == *old(db),
        r == Err::<(), PagedbError>(
            PagedbError::DurablyCommittedButUnpublished {
                commit: final(db).poisoned_commit->0,
            },
        ),
        final(db).snapshot == old(db).snapshot,
        final(db).writer == old(db).writer,
{
}

/// A handle is usable exactly while it is not poisoned.
pub proof fn law_usable(db: &Db, r: Result<()>)
    requires
        call_ensures(Db::ensure_usable, (db,), r),
    ensures
        r is Ok <==> db.poisoned_commit is None,
        r is Err ==> r->Err_0 == (PagedbError::DurablyCommittedButUnpublished {
            commit: db.poisoned_commit->0,
        }),
{
}

/// What is published to readers is the state, root by root.
pub proof fn law_published_snapshot(db: &mut Db, state: &WriterState, unit: ())
    requires
        call_ensures(Db::publish_snapshot, (db, state), unit),
    ensures
        final(db).snapshot.commit_id == state.latest_commit_id,
        final(db).snapshot.root_page_id == state.root_page_id,
        final(db).snapshot.next_page_id == state.next_page_id,
        final(db).snapshot.catalog_root_page_id == state.catalog_root_page_id,
        final(db).snapshot.free_list_root_page_id == state.free_list_root_page_id,
        final(db).snapshot.commit_history_root_page_id == state.commit_history_root_page_id,
        *final(db) == (Db { snapshot: final(db).snapshot, ..*old(db) }),
{
}

/// A durable commit is published once its anchor is committed and its segments are
/// reconciled, and how they are is passed on; otherwise the handle is poisoned by it
/// and readers stay where they were.
pub proof fn law_durable_commit_is_finished(
    db: &mut Db,
    state: &WriterState,
    commit: CommitId,
    anchored: bool,
    reconciled: Result<SegmentReconciliation>,
    r: Result<SegmentReconciliation>,
)
    requires
        old(db).poisoned_commit is None,
        call_ensures(
            Db::finish_durable_commit,
            (db, state, commit, anchored, reconciled),
            r,
        ),
    ensures
        r is Ok <==> anchored && reconciled is Ok,
        r is Ok ==> {
            &&& r == reconciled
            &&& final(db).snapshot.commit_id == state.latest_commit_id
            &&& final(db).snapshot.root_page_id == state.root_page_id
            &&& final(db).snapshot.catalog_root_page_id == state.catalog_root_page_id
            &&& final(db).snapshot.next_page_id == state.next_page_id
            &&& final(db).poisoned_commit is None
        },
        r is Err ==> {
            &&& r->Err_0 == (PagedbError::DurablyCommittedButUnpublished { commit })
            &&& final(db).poisoned_commit == Some(commit)
            &&& final(db).snapshot == old(db).snapshot
        },
        final(db).writer == old(db).writer,
{
}

/// A key is retired at once where nobody reads, and queued, once, where somebody
/// does. What is queued is handed out when nobody reads any more, all of it.
pub proof fn law_keys_are_retired_when_safe(
    db: &mut Db,
    epoch: u64,
    cipher: CipherId,
    now: bool,
    later: &mut Db,
    due: Vec<PendingKeyRetirement>,
    entry: PendingKeyRetirement,
)
    requires
        call_ensures(Db::retire_rekey_source_when_safe, (db, epoch, cipher), now),
        call_ensures(Db::drain_pending_key_retirements, (later,), due),
    ensures
        now <==> old(db).tracked_readers@.len() == 0,
        now ==> final(db).pending_key_retirements@ == old(db).pending_key_retirements@,
        !now ==> final(db).pending_key_retirements@.contains(
            PendingKeyRetirement { epoch, cipher_id: cipher },
        ),
        old(db).pending_key_retirements@.contains(entry) ==> final(db).pending_key_retirements@.contains(entry),
        final(db).pending_key_retirements@.contains(entry) ==> old(db).pending_key_retirements@.contains(entry) || entry == (PendingKeyRetirement {
            epoch,
            cipher_id: cipher,
        }),
        old(db).pending_key_retirements@.no_duplicates() ==> final(db).pending_key_retirements@.no_duplicates(),
        old(later).tracked_readers@.len() == 0 ==> due@ == old(later).pending_key_retirements@
            && final(later).pending_key_retirements@.len() == 0,
        old(later).tracked_readers@.len() != 0 ==> due@.len() == 0 && *final(later) == *old(later),
{
    let before = old(db).pending_key_retirements@;
    let after = final(db).pending_key_retirements@;
    let queued = PendingKeyRetirement { epoch, cipher_id: cipher };
    if !now && !before.contains(queued) {
        assert(after[before.len() as int] == queued);
        if before.contains(entry) {
            let i = choose|i: int| 0 <= i < before.len() && before[i] == entry;
            assert(after[i] == entry);
        }
        if after.contains(entry) {
            let i = choose|i: int| 0 <= i < after.len() && after[i] == entry;
            if i < before.len() {
                assert(before[i] == entry);
            }
        }
        if before.no_duplicates() {
            assert forall|i: int, j: int|
                0 <= i < after.len() && 0 <= j < after.len() && i != j implies after[i]
                != after[j] by {
                if i == before.len() {
                    assert(before[j] == after[j]);
                } else if j == before.len() {
                    assert(before[i] == after[i]);
                }
            }
        }
    }
}

/// A commit of the catalog alone takes the next number, the root that the catalog
/// was written to and a cursor that falls back behind neither; its header keeps the
/// data, the free list and the history where they are.
pub proof fn law_catalog_commit(
    db: &Db,
    pages: &TreePages,
    c: CatalogCommit,
    anchor: u64,
    f: MainDbHeaderFields,
)
    requires
        db.writer.latest_commit_id < u64::MAX,
        call_ensures(Db::catalog_micro_commit, (db, pages), c),
        call_ensures(
            Db::catalog_header_fields,
            (db, &c, anchor),
            Ok::<MainDbHeaderFields, PagedbError>(f),
        ),
    ensures
        c.commit_id == db.writer.latest_commit_id + 1,
        c.catalog_root_page_id == pages.root_page_id,
        c.catalog_root_txn_id == c.commit_id,
        c.next_page_id >= pages.next_page_id && c.next_page_id >= db.writer.next_page_id,
        c.next_page_id == pages.next_page_id || c.next_page_id == db.writer.next_page_id,
        f.seq == db.header_cursor.seq + 1,
        f.commit_id.0 == c.commit_id,
        f.active_root_page_id == db.writer.root_page_id,
        f.active_root_txn_id == db.writer.latest_commit_id,
        f.counter_anchor == anchor,
        f.mk_epoch == db.mk_epoch,
        f.next_page_id == c.next_page_id,
        f.commit_history_root_page_id == db.writer.commit_history_root_page_id,
        f.commit_history_root_version == db.writer.commit_history_root_version,
        eight_up(f.catalog_root@.subrange(0, 8)) == pages.root_page_id,
        eight_up(f.catalog_root@.subrange(8, 16)) == c.commit_id,
        eight_up(f.free_list_root@.subrange(0, 8)) == db.writer.free_list_root_page_id,
        f.file_id == db.file_id && f.kek_salt == db.kek_salt && f.realm_id == db.realm_id,
{
    law_root_ref_round_trip(c.catalog_root_page_id, c.catalog_root_txn_id);
    law_root_ref_round_trip(db.writer.free_list_root_page_id, 0);
    law_eight_bytes_up(f.catalog_root@.subrange(0, 8));
    law_eight_bytes_up(f.catalog_root@.subrange(8, 16));
    law_eight_bytes_up(f.free_list_root@.subrange(0, 8));
}

/// A catalog commit is published with its header and its anchor: readers then begin
/// at its catalog and at the data that was there. A header that was not written
/// changes nothing, and without the anchor the handle is poisoned by the commit.
pub proof fn law_catalog_commit_is_finished(
    db: &mut Db,
    c: &CatalogCommit,
    header: Result<(ActiveSlot, u64)>,
    anchored: bool,
    r: Result<()>,
)
    requires
        old(db).poisoned_commit is None,
        call_ensures(Db::finish_catalog_commit, (db, c, header, anchored), r),
    ensures
        header is Err ==> r == Err::<(), PagedbError>(header->Err_0) && *final(db) == *old(db),
        header is Ok ==> {
            &&& r is Ok <==> anchored
            &&& final(db).header_cursor.slot == header->Ok_0.0
            &&& final(db).header_cursor.seq == header->Ok_0.1
            &&& final(db).writer.catalog_root_page_id == c.catalog_root_page_id
            &&& final(db).writer.catalog_root_txn_id == c.catalog_root_txn_id
            &&& final(db).writer.next_page_id == c.next_page_id
            &&& final(db).writer.latest_commit_id == c.commit_id
            &&& final(db).writer.root_page_id == old(db).writer.root_page_id
            &&& final(db).writer.free_list_root_page_id == old(db).writer.free_list_root_page_id
            &&& final(db).writer.commit_history_root_page_id == old(db).writer.commit_history_root_page_id
        },
        header is Ok && anchored ==> {
            &&& final(db).snapshot.commit_id == c.commit_id
            &&& final(db).snapshot.catalog_root_page_id == c.catalog_root_page_id
            &&& final(db).snapshot.root_page_id == old(db).writer.root_page_id
            &&& final(db).snapshot.next_page_id == c.next_page_id
            &&& final(db).poisoned_commit is None
        },
        header is Ok && !anchored ==> {
            &&& r->Err_0 == (PagedbError::DurablyCommittedButUnpublished {
                commit: CommitId(c.commit_id),
            })
            &&& final(db).poisoned_commit == Some(CommitId(c.commit_id))
            &&& final(db).snapshot == old(db).snapshot
        },
{
}

/// Quotas are set under the commit that is there: the number stays, the catalog's
/// transaction is the next.
pub proof fn law_quota_commit(db: &Db, pages: &TreePages, r: Result<CatalogCommit>)
    requires
        call_ensures(Db::quota_commit, (db, pages), r),
    ensures
        r is Ok <==> db.writer.latest_commit_id < u64::MAX,
        r is Err ==> r->Err_0 is ArithmeticOverflow,
        r is Ok ==> {
            &&& r->Ok_0.commit_id == db.writer.latest_commit_id
            &&& r->Ok_0.catalog_root_txn_id == db.writer.latest_commit_id + 1
            &&& r->Ok_0.catalog_root_page_id == pages.root_page_id
            &&& r->Ok_0.next_page_id == pages.next_page_id
        },
{
}

/// No counter stays behind the anchor: afterwards every counter row is at the anchor
/// at least and never below what it was, and no other row changed. Whether anything
/// changed is said.
pub proof fn law_counters_catch_up(
    catalog: &mut BTree<CatalogValue>,
    anchor: u64,
    changed: bool,
    i: int,
)
    requires
        call_ensures(recover_counter_monotonicity, (catalog, anchor), changed),
        0 <= i < old(catalog)@.len(),
    ensures
        final(catalog)@.len() == old(catalog)@.len(),
        final(catalog)@[i].0 == old(catalog)@[i].0,
        old(catalog)@[i].0.len() > 0 && old(catalog)@[i].0[0] == 2 && old(catalog)@[i].1 is Counter
            ==> {
            let before = old(catalog)@[i].1->Counter_0;
            &&& final(catalog)@[i].1 is Counter
            &&& final(catalog)@[i].1->Counter_0 >= anchor
            &&& final(catalog)@[i].1->Counter_0 >= before
            &&& final(catalog)@[i].1->Counter_0 == anchor || final(catalog)@[i].1->Counter_0
                == before
        },
        !(old(catalog)@[i].0.len() > 0 && old(catalog)@[i].0[0] == 2 && old(catalog)@[i].1
            is Counter) ==> final(catalog)@[i].1 == old(catalog)@[i].1,
        !changed ==> final(catalog)@[i] == old(catalog)@[i],
{
    lemma_one_byte_prefix(old(catalog)@[i].0, 2);
}

/// A key has a prefix of one byte where it begins with it.
pub proof fn lemma_one_byte_prefix(key: Seq<u8>, b: u8)
    ensures
        has_prefix(key, seq![b]) <==> key.len() > 0 && key[0] == b,
{
    assert(seq![b][0] == b);
    if key.len() > 0 {
        assert(key.subrange(0, 1) =~= seq![key[0]]);
        assert(seq![key[0]][0] == key[0]);
    }
}

/// The counters of a catalog that has any are checked: each row under the counters'
/// kind must hold one.
pub proof fn law_counter_rows_are_checked(
    root: u64,
    catalog: &BTree<CatalogValue>,
    r: Result<()>,
)
    requires
        call_ensures(validate_counter_rows, (root, catalog), r),
    ensures
        r is Ok <==> root == 0 || forall|j: int|
            #![trigger catalog@[j]]
            0 <= j < catalog@.len() && catalog@[j].0.len() > 0 && catalog@[j].0[0] == 2
                ==> catalog@[j].1 is Counter,
        r is Err ==> r->Err_0 is Corruption,
{
    assert forall|j: int| #![trigger catalog@[j]] 0 <= j < catalog@.len() implies (has_prefix(
        catalog@[j].0,
        seq![2u8],
    ) <==> catalog@[j].0.len() > 0 && catalog@[j].0[0] == 2) by {
        lemma_one_byte_prefix(catalog@[j].0, 2);
    }
    if root != 0 && r is Err {
        let j = choose|j: int|
            #![trigger catalog@[j]]
            0 <= j < catalog@.len() && has_prefix(catalog@[j].0, seq![2u8]) && !(catalog@[j].1
                is Counter);
        assert(catalog@[j].0[0] == 2);
    }
}

/// Whether a row is a segment's: its key begins with 1.
pub open spec fn is_segment_row(row: (Seq<u8>, CatalogValue)) -> bool {
    row.0.len() > 0 && row.0[0] == 1
}

/// The bytes of the segments in a catalog.
pub open spec fn bytes_of_segments(rows: Seq<(Seq<u8>, CatalogValue)>) -> int
    decreases rows.len(),
{
    if rows.len() == 0 {
        0
    } else {
        bytes_of_segments(rows.drop_first()) + if is_segment_row(rows[0]) {
            rows[0].1->Segment_0.total_bytes as int
        } else {
            0
        }
    }
}

/// What the handle reports is what it holds: the segments of the published catalog
/// are counted and summed, readers and tombstones are counted, and the rest is taken
/// over.
pub proof fn law_stats(
    db: &Db,
    catalog: &BTree<CatalogValue>,
    pager: &PagerStats,
    stats: DbStats,
    counted: Result<(u32, u64)>,
)
    requires
        call_ensures(Db::stats, (db, catalog, pager), Ok::<DbStats, PagedbError>(stats)),
        call_ensures(count_segments, (catalog,), counted),
    ensures
        stats.latest_commit_id == db.snapshot.commit_id,
        stats.mode == db.mode,
        stats.main_db_bytes == pager.main_db_bytes,
        stats.main_db_next_page_id == db.snapshot.next_page_id,
        stats.buffer_pool_pages == pager.buffer_pool_pages,
        stats.buffer_pool_hits == pager.buffer_pool_hits,
        stats.buffer_pool_misses == pager.buffer_pool_misses,
        stats.dirty_pages == pager.dirty_pages,
        stats.free_list_pending_entries == pager.free_list_pending_entries,
        stats.mmap_bytes_in_use == db.mmap_bytes_in_use,
        stats.spill_bytes_in_use == db.spill_bytes_in_use,
        stats.mk_epoch == db.mk_epoch,
        db.tracked_readers@.len() <= u32::MAX ==> stats.tracked_readers
            == db.tracked_readers@.len(),
        db.pending_tombstones@.len() <= u32::MAX ==> stats.pending_tombstones
            == db.pending_tombstones@.len(),
        db.snapshot.catalog_root_page_id == 0 ==> stats.segments_live == 0
            && stats.segments_total_bytes == 0,
        db.snapshot.catalog_root_page_id != 0 ==> counted is Ok && stats.segments_total_bytes
            == bytes_of_segments(catalog@) && (catalog@.filter(
            |row: (Seq<u8>, CatalogValue)| is_segment_row(row),
        ).len() <= u32::MAX ==> stats.segments_live == catalog@.filter(
            |row: (Seq<u8>, CatalogValue)| is_segment_row(row),
        ).len()),
{
    if db.snapshot.catalog_root_page_id != 0 {
        lemma_totals(catalog@);
    }
}

proof fn lemma_totals(rows: Seq<(Seq<u8>, CatalogValue)>)
    ensures
        segment_totals(rows) is Ok ==> {
            let n = rows.filter(|row: (Seq<u8>, CatalogValue)| is_segment_row(row)).len();
            &&& segment_totals(rows)->Ok_0.1 == bytes_of_segments(rows)
            &&& segment_totals(rows)->Ok_0.0 == if n <= u32::MAX {
                n as int
            } else {
                u32::MAX as int
            }
        },
    decreases rows.len(),
{
    reveal(Seq::filter);
    if rows.len() > 0 {
        lemma_totals(rows.drop_last());
        lemma_one_byte_prefix(rows.last().0, 1);
        lemma_bytes_at_end(rows);
    }
}

proof fn lemma_bytes_at_end(rows: Seq<(Seq<u8>, CatalogValue)>)
    requires
        rows.len() > 0,
    ensures
        bytes_of_segments(rows) == bytes_of_segments(rows.drop_last()) + if is_segment_row(
            rows.last(),
        ) {
            rows.last().1->Segment_0.total_bytes as int
        } else {
            0
        },
    decreases rows.len(),
{
    if rows.len() == 1 {
        assert(rows.drop_first() =~= Seq::<(Seq<u8>, CatalogValue)>::empty());
        assert(rows.drop_last() =~= Seq::<(Seq<u8>, CatalogValue)>::empty());
    } else {
        let rest = rows.drop_first();
        lemma_bytes_at_end(rest);
        assert(rest.drop_last() =~= rows.drop_last().drop_first());
        assert(rest.last() == rows.last());
    }
}

/// The smaller questions to a handle: its mode, what the mode lets it do, and what
/// is refused of it while it is poisoned.
pub proof fn law_handle_answers(
    db: &Db,
    mode: DbMode,
    writer: bool,
    applies: bool,
    rekeys: bool,
    owned: Db,
    rekeyed: Result<Db>,
    measured: Result<u64>,
    size: Result<u64>,
    root: Option<String>,
    found: Result<String>,
)
    requires
        call_ensures(Db::mode, (db,), mode),
        call_ensures(Db::is_writer, (db,), writer),
        call_ensures(Db::can_apply_incremental, (db,), applies),
        call_ensures(Db::can_rekey_into_writer, (db,), rekeys),
        call_ensures(Db::rekey_into_writer, (owned,), rekeyed),
        call_ensures(Db::main_db_byte_size, (db, measured), size),
        call_ensures(get_vfs_root, (root,), found),
    ensures
        mode == db.mode,
        writer <==> db.mode is Standalone,
        applies <==> db.mode is Follower,
        rekeys <==> db.mode is ReadOnly || db.mode is Follower,
        rekeyed is Err,
        owned.poisoned_commit is None ==> rekeyed->Err_0 is Unsupported,
        owned.poisoned_commit is Some ==> rekeyed->Err_0
            == (PagedbError::DurablyCommittedButUnpublished { commit: owned.poisoned_commit->0 }),
        db.poisoned_commit is None ==> size == measured,
        db.poisoned_commit is Some ==> size == Err::<u64, PagedbError>(
            PagedbError::DurablyCommittedButUnpublished { commit: db.poisoned_commit->0 },
        ),
        root is Some ==> found == Ok::<String, PagedbError>(root->0),
        root is None ==> found == Err::<String, PagedbError>(PagedbError::Unsupported),
{
}

/// A free list that cannot be read is dropped from the writer's state, and nothing
/// else is; one that can be read stays.
pub proof fn law_unreadable_free_list_is_dropped(db: &mut Db, readable: bool, unit: ())
    requires
        call_ensures(Db::drop_unreadable_free_list, (db, readable), unit),
    ensures
        readable ==> *final(db) == *old(db),
        !readable ==> final(db).writer.free_list_root_page_id == 0,
        final(db).writer.root_page_id == old(db).writer.root_page_id,
        final(db).writer.catalog_root_page_id == old(db).writer.catalog_root_page_id,
        final(db).writer.next_page_id == old(db).writer.next_page_id,
        final(db).writer.latest_commit_id == old(db).writer.latest_commit_id,
        final(db).writer.commit_history_root_page_id == old(db).writer.commit_history_root_page_id,
        final(db).snapshot == old(db).snapshot,
{
}

/// A slot declares its page size in its twelfth byte, by a power of two from 12 to 16,
/// once it begins with the magic. The size that is declared first decides: it must be
/// the one that is supplied.
pub proof fn law_page_size_is_checked(
    slot_a: &[u8],
    slot_b: &[u8],
    supplied: usize,
    magic: &[u8; 8],
    r: Result<()>,
    a: Option<usize>,
    b: Option<usize>,
)
    requires
        call_ensures(check_page_size, (slot_a, slot_b, supplied, magic), r),
        call_ensures(declared_page_size, (slot_a, magic), a),
        call_ensures(declared_page_size, (slot_b, magic), b),
    ensures
        a is Some <==> slot_a@.len() >= 12 && 12 <= slot_a@[11] <= 16 && forall|i: int|
            0 <= i < 8 ==> #[trigger] slot_a@[i] == magic@[i],
        a is Some ==> a->0 == if slot_a@[11] == 12 {
            4096
        } else if slot_a@[11] == 13 {
            8192
        } else if slot_a@[11] == 14 {
            16384
        } else if slot_a@[11] == 15 {
            32768
        } else {
            65536int
        },
        a is Some && a->0 == supplied ==> r is Ok,
        a is Some && a->0 != supplied ==> r == Err::<(), PagedbError>(
            PagedbError::PageSizeMismatch { stored: a->0, supplied },
        ),
        a is None && b is Some && b->0 == supplied ==> r is Ok,
        a is None && b is Some && b->0 != supplied ==> r == Err::<(), PagedbError>(
            PagedbError::PageSizeMismatch { stored: b->0, supplied },
        ),
        a is None && b is None ==> r is Ok,
{
    let first = slot_a@[11];
    let second = slot_b@[11];
    if slot_a@.len() >= 12 {
        if has_prefix(slot_a@, magic@) {
            assert forall|i: int| 0 <= i < 8 implies #[trigger] slot_a@[i] == magic@[i] by {
                assert(slot_a@.subrange(0, 8)[i] == slot_a@[i]);
            }
        } else if forall|i: int| 0 <= i < 8 ==> #[trigger] slot_a@[i] == magic@[i] {
            assert(slot_a@.subrange(0, 8) =~= magic@);
        }
    }
    law_page_sizes(supplied as int, first);
    law_page_sizes(supplied as int, second);
    if a is Some {
        law_page_sizes(a->0 as int, first);
    }
    if b is Some {
        law_page_sizes(b->0 as int, second);
    }
    if r is Err && r->Err_0 is PageSizeMismatch {
        law_page_sizes(r->Err_0->PageSizeMismatch_stored as int, first);
        law_page_sizes(r->Err_0->PageSizeMismatch_stored as int, second);
    }
}

/// A handle on a new store is of the identity and at the header that it is made with,
/// and has not been used.
pub proof fn law_fresh_handle(state: FreshDbState, db: Db)
    requires
        call_ensures(Db::assemble_fresh, (state,), db),
    ensures
        db.realm_id == state.realm_id && db.file_id == state.file_id && db.kek_salt
            == state.kek_salt,
        db.page_size == state.page_size && db.main_db_path == state.main_db_path,
        db.options == state.options && db.cipher_id == state.cipher_id,
        db.mk_epoch == state.mk_epoch && db.spill_epoch == state.spill_epoch,
        db.format_version == state.initial.format_version && db.header_flags
            == state.initial.flags,
        db.header_cursor.slot is A && db.header_cursor.seq == state.initial.seq,
        db.mode is Standalone && db.poisoned_commit is None,
        db.writer.root_page_id == 0 && db.writer.catalog_root_page_id == 0
            && db.writer.catalog_root_txn_id == 0 && db.writer.free_list_root_page_id == 0
            && db.writer.commit_history_root_page_id == 0 && db.writer.commit_history_root_version
            == 0,
        db.writer.next_page_id == 4 && db.writer.latest_commit_id == 0,
        db.writer.commit_history_count == Some(0u64),
        db.writer.restore_mode == state.initial.restore_mode,
        db.writer.commit_retain_policy_tag == state.initial.commit_retain_policy_tag,
        db.writer.commit_retain_policy_value == state.initial.commit_retain_policy_value,
        db.snapshot.commit_id == 0 && db.snapshot.next_page_id == 4,
        db.snapshot.root_page_id == 0 && db.snapshot.catalog_root_page_id == 0,
        db.tracked_readers@.len() == 0 && db.aborted_readers@.len() == 0,
        db.stall_policy is AbortOldest,
{
}

} // verus!
