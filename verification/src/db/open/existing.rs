//! Reconstruction of a handle from an authenticated header.

use vstd::prelude::*;

use crate::codec::{le_bytes, le_value, lemma_le_bytes_len};
use crate::db::handle::{snapshot_of, Db, ReaderSnapshot, WriterState};
use crate::db::manifest_validation::all_zero;
use crate::db::open::create::{is_fresh_writer, is_initial, unused};
use crate::db::open::header_probe::{
    check_format_version, check_page_size, either, format_version_declared, framed,
    page_size_declared, unverifiable_header_cause, HeaderFrame,
};
use crate::errors::{CorruptionDetail, PagedbError, Result};
use crate::header::{
    decode_free_list_root, encode_root_ref, fields_catalog_root_page_id,
    fields_catalog_root_txn_id, is_page_size_log2, law_root_ref_round_trip, live_slot, root_page,
    root_ref, root_txn, select_live_header, HeaderCursor, MainDbHeaderFields,
    MAIN_FORMAT_VERSION,
};
use crate::ids::{ActiveSlot, CipherId, RealmId};
use crate::mode::DbMode;
use crate::options::OpenOptions;
use crate::policy::ReaderStallPolicy;

verus! {

/// The flags of a header that this build does not know.
pub open spec fn unknown_flags(f: MainDbHeaderFields, known: u32) -> u32 {
    f.flags & !known
}

/// The unknown flags of the first authenticated slot that has any.
pub open spec fn refused_flags(
    a: Option<MainDbHeaderFields>,
    b: Option<MainDbHeaderFields>,
    known: u32,
) -> Option<u32> {
    if a is Some && unknown_flags(a->0, known) != 0 {
        Some(unknown_flags(a->0, known))
    } else if b is Some && unknown_flags(b->0, known) != 0 {
        Some(unknown_flags(b->0, known))
    } else {
        None
    }
}

fn flags_refusal(slot: &Option<MainDbHeaderFields>, known: u32) -> (r: Option<u32>)
    ensures
        r == if *slot is Some && unknown_flags(slot->0, known) != 0 {
            Some(unknown_flags(slot->0, known))
        } else {
            None
        },
{
    match slot {
        Some(fields) => {
            let unknown: u32 = fields.flags & !known;
            if unknown != 0 {
                Some(unknown)
            } else {
                None
            }
        },
        None => None,
    }
}

/// Refuses the slots before any key is derived: a page size or a format
/// version that is not the store's.
pub fn check_header_slots(slot_a: &[u8], slot_b: &[u8], page_size: usize, frame: &HeaderFrame) -> (r:
    Result<()>)
    ensures
        ({
            let size = either(
                page_size_declared(slot_a@, frame.magic@),
                page_size_declared(slot_b@, frame.magic@),
            );
            let version = either(
                format_version_declared(slot_a@, frame.magic@),
                format_version_declared(slot_b@, frame.magic@),
            );
            let size_ok = size is None || is_page_size_log2(page_size as int, size->0);
            let version_ok = version is None || version->0 == MAIN_FORMAT_VERSION;
            match r {
                Ok(()) => size_ok && version_ok,
                Err(PagedbError::PageSizeMismatch { stored, supplied }) => !size_ok
                    && is_page_size_log2(stored as int, size->0) && supplied == page_size,
                Err(PagedbError::FormatVersionUnsupported { stored, supported }) => size_ok
                    && !version_ok && stored == version->0 && supported == MAIN_FORMAT_VERSION,
                Err(_) => false,
            }
        }),
{
    match check_page_size(slot_a, slot_b, page_size, &frame.magic) {
        Ok(()) => {},
        Err(e) => return Err(e),
    }
    check_format_version(slot_a, slot_b, &frame.magic)
}

/// The live header among the authenticated slots. An authenticated slot with a
/// flag that this build does not know refuses the open, whichever slot is
/// newer; a slot that does not verify says nothing.
pub fn admit_header(
    slot_a: &[u8],
    slot_b: &[u8],
    a: Option<MainDbHeaderFields>,
    b: Option<MainDbHeaderFields>,
    page_size: usize,
    frame: &HeaderFrame,
    known_flags: u32,
) -> (r: Result<(MainDbHeaderFields, ActiveSlot)>)
    requires
        frame.wf(),
    ensures
        r == match refused_flags(a, b, known_flags) {
            Some(unknown_flags) => Err::<(MainDbHeaderFields, ActiveSlot), PagedbError>(
                PagedbError::HeaderCapabilityUnsupported { unknown_flags },
            ),
            None => match live_slot(a, b) {
                Some(live) => Ok::<(MainDbHeaderFields, ActiveSlot), PagedbError>(live),
                None => Err::<(MainDbHeaderFields, ActiveSlot), PagedbError>(
                    if framed(slot_a@, page_size, *frame) || framed(slot_b@, page_size, *frame) {
                        PagedbError::KeyMismatch
                    } else {
                        PagedbError::Corruption(CorruptionDetail::HeaderUnverifiable)
                    },
                ),
            },
        },
{
    if let Some(unknown_flags) = flags_refusal(&a, known_flags) {
        return Err(PagedbError::HeaderCapabilityUnsupported { unknown_flags });
    }
    if let Some(unknown_flags) = flags_refusal(&b, known_flags) {
        return Err(PagedbError::HeaderCapabilityUnsupported { unknown_flags });
    }
    match select_live_header(a, b) {
        Some(live) => Ok(live),
        None => Err(unverifiable_header_cause(slot_a, slot_b, page_size, frame)),
    }
}

/// Whether `state` is the writer state that a header describes. The number of
/// history rows is not recorded.
pub open spec fn is_writer_of(state: WriterState, f: MainDbHeaderFields) -> bool {
    &&& state.root_page_id == f.active_root_page_id
    &&& state.next_page_id == f.next_page_id
    &&& state.latest_commit_id == f.commit_id.0
    &&& state.catalog_root_page_id == root_page(f.catalog_root@)
    &&& state.catalog_root_txn_id == root_txn(f.catalog_root@)
    &&& state.free_list_root_page_id == root_page(f.free_list_root@)
    &&& state.commit_history_root_page_id == f.commit_history_root_page_id
    &&& state.commit_history_root_version == f.commit_history_root_version
    &&& state.commit_history_count is None
    &&& state.pending_apply_journal_id@ == root_ref(
        f.apply_journal_root_page_id,
        f.apply_journal_root_version,
    )
    &&& state.restore_mode == f.restore_mode
    &&& state.commit_retain_policy_tag == f.commit_retain_policy_tag
    &&& state.commit_retain_policy_value == f.commit_retain_policy_value
}

/// Whether a header records a writer state: what every commit path writes down
/// of it, the pending journal included.
pub open spec fn records_state(f: MainDbHeaderFields, state: WriterState) -> bool {
    &&& f.active_root_page_id == state.root_page_id
    &&& f.next_page_id == state.next_page_id
    &&& f.commit_id.0 == state.latest_commit_id
    &&& f.catalog_root@ == root_ref(state.catalog_root_page_id, state.catalog_root_txn_id)
    &&& f.free_list_root@ == root_ref(state.free_list_root_page_id, 0)
    &&& f.commit_history_root_page_id == state.commit_history_root_page_id
    &&& f.commit_history_root_version == state.commit_history_root_version
    &&& root_ref(f.apply_journal_root_page_id, f.apply_journal_root_version)
        == state.pending_apply_journal_id@
    &&& f.restore_mode == state.restore_mode
    &&& f.commit_retain_policy_tag == state.commit_retain_policy_tag
    &&& f.commit_retain_policy_value == state.commit_retain_policy_value
}

/// The writer state that a header describes.
pub fn writer_from_header(f: &MainDbHeaderFields) -> (state: WriterState)
    ensures
        is_writer_of(state, *f),
{
    WriterState {
        root_page_id: f.active_root_page_id,
        next_page_id: f.next_page_id,
        latest_commit_id: f.commit_id.0,
        catalog_root_page_id: fields_catalog_root_page_id(f),
        catalog_root_txn_id: fields_catalog_root_txn_id(f),
        free_list_root_page_id: decode_free_list_root(&f.free_list_root),
        commit_history_root_page_id: f.commit_history_root_page_id,
        commit_history_root_version: f.commit_history_root_version,
        commit_history_count: None,
        pending_apply_journal_id: encode_root_ref(
            f.apply_journal_root_page_id,
            f.apply_journal_root_version,
        ),
        restore_mode: f.restore_mode,
        commit_retain_policy_tag: f.commit_retain_policy_tag,
        commit_retain_policy_value: f.commit_retain_policy_value,
    }
}

impl Db {
    /// The handle over a store whose live header is `fields`, in `slot`. It
    /// holds no sentinel lock yet, and interrupted work is still to be
    /// recovered. The identity of this open is drawn by the caller.
    pub fn open_existing_inner(
        main_db_path: String,
        fields: &MainDbHeaderFields,
        slot: ActiveSlot,
        page_size: usize,
        realm: RealmId,
        options: OpenOptions,
        mode: DbMode,
        spill_epoch: [u8; 16],
    ) -> (r: Result<Db>)
        ensures
            match r {
                Ok(db) => {
                    &&& unused(db)
                    &&& db.main_db_path == main_db_path
                    &&& db.realm_id == realm
                    &&& db.page_size == page_size
                    &&& db.options == options
                    &&& db.mode == mode
                    &&& db.cipher_id.byte() == fields.cipher_id
                    &&& db.format_version == fields.format_version
                    &&& db.header_flags == fields.flags
                    &&& db.mk_epoch == fields.mk_epoch
                    &&& db.file_id == fields.file_id
                    &&& db.kek_salt == fields.kek_salt
                    &&& db.spill_epoch == spill_epoch
                    &&& is_writer_of(db.writer, *fields)
                    &&& db.snapshot == snapshot_of(db.writer)
                    &&& db.header_cursor == (HeaderCursor { slot, seq: fields.seq })
                },
                Err(e) => fields.cipher_id != 1 && fields.cipher_id != 2 && e
                    == (PagedbError::UnknownCipher { cipher_id: fields.cipher_id }),
            },
    {
        let cipher_id: CipherId = match CipherId::from_byte(fields.cipher_id) {
            Ok(cipher_id) => cipher_id,
            Err(e) => return Err(e),
        };
        let writer: WriterState = writer_from_header(fields);
        Ok(
            Db {
                realm_id: realm,
                page_size,
                cipher_id,
                format_version: fields.format_version,
                header_flags: fields.flags,
                mk_epoch: fields.mk_epoch,
                file_id: fields.file_id,
                kek_salt: fields.kek_salt,
                main_db_path,
                mode,
                options,
                sentinel_locks: 0,
                lock_required: false,
                writer,
                header_cursor: HeaderCursor { slot, seq: fields.seq },
                snapshot: ReaderSnapshot {
                    commit_id: writer.latest_commit_id,
                    root_page_id: writer.root_page_id,
                    next_page_id: writer.next_page_id,
                    catalog_root_page_id: writer.catalog_root_page_id,
                    free_list_root_page_id: writer.free_list_root_page_id,
                    commit_history_root_page_id: writer.commit_history_root_page_id,
                },
                poisoned_commit: None,
                tracked_readers: Vec::new(),
                reader_seq: 0,
                stall_policy: ReaderStallPolicy::default(),
                aborted_readers: Vec::new(),
                pending_tombstones: Vec::new(),
                pending_key_retirements: Vec::new(),
                pending_pin_deletes: Vec::new(),
                mmap_bytes_in_use: 0,
                spill_bytes_in_use: 0,
                txn_seq: 0,
                spill_epoch,
                orphaned_spill_paths: Vec::new(),
                segment_id_counter: 0,
                free_page_cache: Vec::new(),
            },
        )
    }
}

/// Reopening gives back the committed state: the writer state read from a
/// header is the one that the header was written from, except that the number
/// of history rows is to be counted again.
pub proof fn law_reopen_restores_committed_state(
    committed: WriterState,
    f: MainDbHeaderFields,
    reopened: WriterState,
)
    requires
        records_state(f, committed),
        is_writer_of(reopened, f),
    ensures
        reopened == (WriterState { commit_history_count: None, ..committed }),
{
    law_root_ref_round_trip(committed.catalog_root_page_id, committed.catalog_root_txn_id);
    law_root_ref_round_trip(committed.free_list_root_page_id, 0);
    assert(reopened.pending_apply_journal_id@ =~= committed.pending_apply_journal_id@);
    assert(reopened.pending_apply_journal_id =~= committed.pending_apply_journal_id);
}

proof fn lemma_zero_value(s: Seq<u8>)
    requires
        all_zero(s),
    ensures
        le_value(s) == 0,
    decreases s.len(),
{
    if s.len() > 0 {
        assert forall|i: int| 0 <= i < s.drop_first().len() implies #[trigger] s.drop_first()[i]
            == 0 by {
            assert(s[i + 1] == 0);
        }
        lemma_zero_value(s.drop_first());
    }
}

/// A store that was only just created reopens empty: no roots, commit 0, no
/// pending journal, and the cursor where bootstrap left it.
pub proof fn law_fresh_store_reopens_empty(
    f: MainDbHeaderFields,
    cipher_id: CipherId,
    page_size: usize,
    realm: RealmId,
    file_id: [u8; 16],
    kek_salt: [u8; 16],
    reopened: WriterState,
)
    requires
        is_initial(f, cipher_id, page_size, realm, file_id, kek_salt),
        is_writer_of(reopened, f),
    ensures
        is_fresh_writer(WriterState { commit_history_count: Some(0u64), ..reopened }, f),
{
    lemma_zero_value(f.catalog_root@.subrange(0, 8));
    lemma_zero_value(f.catalog_root@.subrange(8, 16));
    lemma_zero_value(f.free_list_root@.subrange(0, 8));
    reveal_with_fuel(le_bytes, 9);
    lemma_le_bytes_len(0, 8);
    assert(all_zero(root_ref(0, 0)));
}

/// An authenticated slot with an unknown flag refuses the open whatever the
/// other slot holds and whichever is newer; without one, a slot that does not
/// verify leaves the open to the other.
pub proof fn law_unknown_capability_refuses(
    a: Option<MainDbHeaderFields>,
    b: Option<MainDbHeaderFields>,
    known: u32,
)
    ensures
        refused_flags(a, b, known) is Some <==> (a is Some && unknown_flags(a->0, known) != 0) || (b
            is Some && unknown_flags(b->0, known) != 0),
        refused_flags(a, None, known) is None && a is Some ==> live_slot(a, None) == Some(
            (a->0, ActiveSlot::A),
        ),
        refused_flags(None, b, known) is None && b is Some ==> live_slot(None, b) == Some(
            (b->0, ActiveSlot::B),
        ),
{
}

} // verus!
