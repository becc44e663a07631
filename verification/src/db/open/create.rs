//! Fresh store bootstrap.

use vstd::prelude::*;

use crate::db::handle::{snapshot_of, Db, ReaderSnapshot, WriterState};
use crate::db::manifest_validation::all_zero;
use crate::errors::{PagedbError, Result};
use crate::header::{
    is_no_page_size, is_page_size_log2, page_size_log2, HeaderCursor, MainDbHeaderFields,
    FIRST_ALLOCATABLE_PAGE_ID, MAIN_FORMAT_VERSION,
};
use crate::ids::{ActiveSlot, CipherId, CommitId, RealmId};
use crate::mode::DbMode;
use crate::options::OpenOptions;
use crate::policy::ReaderStallPolicy;

verus! {

/// How many derived data keys a pager keeps.
pub const DEK_LRU_CAPACITY: usize = 256;

/// What a pager is opened with.
#[derive(Debug, Clone, Copy)]
pub struct PagerConfig {
    pub page_size: usize,
    pub buffer_pool_pages: usize,
    pub segment_cache_pages: usize,
    pub cipher_id: CipherId,
    pub mk_epoch: u64,
    pub main_db_file_id: [u8; 16],
    pub anchor_budget: u64,
    pub dek_lru_capacity: usize,
    pub observer_retry_count: u32,
    pub metrics_enabled: bool,
}

/// The configuration of a pager over a store with these options and identity.
pub fn pager_config(
    page_size: usize,
    options: &OpenOptions,
    cipher_id: CipherId,
    mk_epoch: u64,
    file_id: [u8; 16],
    observer_retry_count: u32,
) -> (cfg: PagerConfig)
    ensures
        cfg == (PagerConfig {
            page_size,
            buffer_pool_pages: options.buffer_pool_pages,
            segment_cache_pages: options.segment_cache_pages,
            cipher_id,
            mk_epoch,
            main_db_file_id: file_id,
            anchor_budget: options.anchor_budget,
            dek_lru_capacity: DEK_LRU_CAPACITY,
            observer_retry_count,
            metrics_enabled: options.metrics_enabled,
        }),
{
    PagerConfig {
        page_size,
        buffer_pool_pages: options.buffer_pool_pages,
        segment_cache_pages: options.segment_cache_pages,
        cipher_id,
        mk_epoch,
        main_db_file_id: file_id,
        anchor_budget: options.anchor_budget,
        dek_lru_capacity: DEK_LRU_CAPACITY,
        observer_retry_count,
        metrics_enabled: options.metrics_enabled,
    }
}

/// What a fresh handle is assembled from.
pub struct FreshDbState {
    pub realm_id: RealmId,
    pub page_size: usize,
    pub main_db_path: String,
    pub options: OpenOptions,
    pub cipher_id: CipherId,
    pub mk_epoch: u64,
    pub file_id: [u8; 16],
    pub kek_salt: [u8; 16],
    pub spill_epoch: [u8; 16],
    pub initial: MainDbHeaderFields,
}

/// Whether `f` is the header that bootstrap writes into slot A: sequence 1,
/// commit 0, no roots, and a cursor past the pages that headers and anchors
/// occupy.
pub open spec fn is_initial(
    f: MainDbHeaderFields,
    cipher_id: CipherId,
    page_size: usize,
    realm: RealmId,
    file_id: [u8; 16],
    kek_salt: [u8; 16],
) -> bool {
    &&& f.format_version == MAIN_FORMAT_VERSION
    &&& f.cipher_id == cipher_id.byte()
    &&& is_page_size_log2(page_size as int, f.page_size_log2)
    &&& f.flags == 0
    &&& f.file_id == file_id
    &&& f.kek_salt == kek_salt
    &&& f.mk_epoch == 0
    &&& f.seq == 1
    &&& f.active_root_page_id == 0
    &&& f.active_root_txn_id == 0
    &&& f.counter_anchor == 0
    &&& f.commit_id == CommitId(0)
    &&& all_zero(f.free_list_root@)
    &&& all_zero(f.catalog_root@)
    &&& f.apply_journal_root_page_id == 0
    &&& f.apply_journal_root_version == 0
    &&& f.commit_history_root_page_id == 0
    &&& f.commit_history_root_version == 0
    &&& f.restore_mode == 0
    &&& f.next_page_id == FIRST_ALLOCATABLE_PAGE_ID
    &&& f.commit_retain_policy_tag == 0
    &&& f.commit_retain_policy_value == 0
    &&& f.realm_id == realm
}

/// Whether `state` is the writer state that a bootstrap header describes. The
/// history tree is known to be empty.
pub open spec fn is_fresh_writer(state: WriterState, initial: MainDbHeaderFields) -> bool {
    &&& state.root_page_id == 0
    &&& state.next_page_id == FIRST_ALLOCATABLE_PAGE_ID
    &&& state.latest_commit_id == 0
    &&& state.catalog_root_page_id == 0
    &&& state.catalog_root_txn_id == 0
    &&& state.free_list_root_page_id == 0
    &&& state.commit_history_root_page_id == 0
    &&& state.commit_history_root_version == 0
    &&& state.commit_history_count == Some(0u64)
    &&& all_zero(state.pending_apply_journal_id@)
    &&& state.restore_mode == initial.restore_mode
    &&& state.commit_retain_policy_tag == initial.commit_retain_policy_tag
    &&& state.commit_retain_policy_value == initial.commit_retain_policy_value
}

/// The counters, queues and registries of a handle that nothing has used yet.
pub open spec fn unused(db: Db) -> bool {
    &&& db.sentinel_locks == 0
    &&& !db.lock_required
    &&& db.poisoned_commit is None
    &&& db.tracked_readers@.len() == 0
    &&& db.reader_seq == 0
    &&& db.stall_policy == ReaderStallPolicy::AbortOldest
    &&& db.aborted_readers@.len() == 0
    &&& db.pending_tombstones@.len() == 0
    &&& db.pending_key_retirements@.len() == 0
    &&& db.pending_pin_deletes@.len() == 0
    &&& db.mmap_bytes_in_use == 0
    &&& db.spill_bytes_in_use == 0
    &&& db.txn_seq == 0
    &&& db.orphaned_spill_paths@.len() == 0
    &&& db.segment_id_counter == 0
    &&& db.free_page_cache@.len() == 0
}

/// The header of a fresh store. The identity is drawn by the caller.
pub fn initial_header(
    cipher_id: CipherId,
    page_size: usize,
    realm: RealmId,
    file_id: [u8; 16],
    kek_salt: [u8; 16],
) -> (r: Result<MainDbHeaderFields>)
    ensures
        match r {
            Ok(f) => is_initial(f, cipher_id, page_size, realm, file_id, kek_salt),
            Err(e) => e == PagedbError::Unsupported && is_no_page_size(page_size as int),
        },
{
    let log2: u8 = match page_size_log2(page_size) {
        Ok(log2) => log2,
        Err(e) => return Err(e),
    };
    Ok(
        MainDbHeaderFields {
            format_version: MAIN_FORMAT_VERSION,
            cipher_id: cipher_id.as_byte(),
            page_size_log2: log2,
            flags: 0,
            file_id,
            kek_salt,
            mk_epoch: 0,
            seq: 1,
            active_root_page_id: 0,
            active_root_txn_id: 0,
            counter_anchor: 0,
            commit_id: CommitId(0),
            free_list_root: [0u8; 16],
            catalog_root: [0u8; 16],
            apply_journal_root_page_id: 0,
            apply_journal_root_version: 0,
            commit_history_root_page_id: 0,
            commit_history_root_version: 0,
            restore_mode: 0,
            next_page_id: FIRST_ALLOCATABLE_PAGE_ID,
            commit_retain_policy_tag: 0,
            commit_retain_policy_value: 0,
            realm_id: realm,
        },
    )
}

impl Db {
    /// The handle of a store whose initial header was just written to slot A.
    /// It holds no sentinel lock yet.
    pub fn assemble_fresh(state: FreshDbState) -> (db: Db)
        ensures
            unused(db),
            db.realm_id == state.realm_id,
            db.page_size == state.page_size,
            db.main_db_path == state.main_db_path,
            db.options == state.options,
            db.cipher_id == state.cipher_id,
            db.mk_epoch == state.mk_epoch,
            db.file_id == state.file_id,
            db.kek_salt == state.kek_salt,
            db.spill_epoch == state.spill_epoch,
            db.format_version == state.initial.format_version,
            db.header_flags == state.initial.flags,
            db.mode == DbMode::Standalone,
            is_fresh_writer(db.writer, state.initial),
            db.snapshot == snapshot_of(db.writer),
            db.header_cursor == (HeaderCursor { slot: ActiveSlot::A, seq: state.initial.seq }),
    {
        let writer: WriterState = WriterState {
            root_page_id: 0,
            next_page_id: FIRST_ALLOCATABLE_PAGE_ID,
            latest_commit_id: 0,
            catalog_root_page_id: 0,
            catalog_root_txn_id: 0,
            free_list_root_page_id: 0,
            commit_history_root_page_id: 0,
            commit_history_root_version: 0,
            commit_history_count: Some(0),
            pending_apply_journal_id: [0u8; 16],
            restore_mode: state.initial.restore_mode,
            commit_retain_policy_tag: state.initial.commit_retain_policy_tag,
            commit_retain_policy_value: state.initial.commit_retain_policy_value,
        };
        Db {
            realm_id: state.realm_id,
            page_size: state.page_size,
            cipher_id: state.cipher_id,
            format_version: state.initial.format_version,
            header_flags: state.initial.flags,
            mk_epoch: state.mk_epoch,
            file_id: state.file_id,
            kek_salt: state.kek_salt,
            main_db_path: state.main_db_path,
            mode: DbMode::Standalone,
            options: state.options,
            sentinel_locks: 0,
            lock_required: false,
            writer,
            header_cursor: HeaderCursor { slot: ActiveSlot::A, seq: state.initial.seq },
            snapshot: ReaderSnapshot {
                commit_id: 0,
                root_page_id: 0,
                next_page_id: FIRST_ALLOCATABLE_PAGE_ID,
                catalog_root_page_id: 0,
                free_list_root_page_id: 0,
                commit_history_root_page_id: 0,
            },
            poisoned_commit: None,
            tracked_readers: Vec::new(),
            reader_seq: 0,
            stall_policy: ReaderStallPolicy::default(),
            aborted_readers: Vec::new(),
            pending_tombstones: Vec::new(),
            pending_key_retirements: Vec::new(),
            pending_pin_deletes: Vec::new(),
            mmap_bytes_in_use: 0,
            spill_bytes_in_use: 0,
            txn_seq: 0,
            spill_epoch: state.spill_epoch,
            orphaned_spill_paths: Vec::new(),
            segment_id_counter: 0,
            free_page_cache: Vec::new(),
        }
    }

    /// Bootstraps a fresh store: the header to write into slot A, and the
    /// handle over it once that header is durable. The identities of the store
    /// and of this open are drawn by the caller.
    pub fn open_internal_with_options_and_cipher(
        main_db_path: String,
        page_size: usize,
        realm: RealmId,
        options: OpenOptions,
        cipher_id: CipherId,
        file_id: [u8; 16],
        kek_salt: [u8; 16],
        spill_epoch: [u8; 16],
    ) -> (r: Result<(MainDbHeaderFields, Db)>)
        ensures
            match r {
                Ok((f, db)) => {
                    &&& is_initial(f, cipher_id, page_size, realm, file_id, kek_salt)
                    &&& unused(db)
                    &&& db.spill_epoch == spill_epoch
                    &&& db.names_this_store(f)
                    &&& db.page_size == page_size
                    &&& db.mk_epoch == 0
                    &&& db.main_db_path == main_db_path
                    &&& db.options == options
                    &&& db.mode == DbMode::Standalone
                    &&& is_fresh_writer(db.writer, f)
                    &&& db.snapshot == snapshot_of(db.writer)
                    &&& db.header_cursor == (HeaderCursor { slot: ActiveSlot::A, seq: 1 })
                },
                Err(e) => e == PagedbError::Unsupported && is_no_page_size(page_size as int),
            },
    {
        let initial: MainDbHeaderFields = match initial_header(
            cipher_id,
            page_size,
            realm,
            file_id,
            kek_salt,
        ) {
            Ok(initial) => initial,
            Err(e) => return Err(e),
        };
        let db: Db = Db::assemble_fresh(
            FreshDbState {
                realm_id: realm,
                page_size,
                main_db_path,
                options,
                cipher_id,
                mk_epoch: 0,
                file_id,
                kek_salt,
                spill_epoch,
                initial,
            },
        );
        Ok((initial, db))
    }
}

} // verus!
