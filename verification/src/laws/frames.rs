//! Laws of what operations leave alone.

use vstd::prelude::*;

use crate::catalog::{CatalogValue, RealmQuotas, RekeyIntent, SegmentMeta};
use crate::db::catalog_commit::{recover_counter_monotonicity, CatalogCommit};
use crate::db::handle::{
    Db, PendingKeyRetirement, PendingTombstone, SegmentReconciliation, WriterState,
};
use crate::db::history::{
    adopt_history_pages, prune_history_by_age, prune_oldest_history_rows, CommitHistoryMeta,
};
use crate::db::open::modes::PromotionStep;
use crate::db::pending::PendingWriterState;
use crate::db::pins::{cleanup_stale_reader_pins, delete_pin_rows, insert_pin_row};
use crate::db::rekey::keyring::EpochKeyring;
use crate::db::rekey::recovery::{write_intent_row, DerivedPair};
use crate::db::rekey::segments::{
    delete_rekey_progress, replace_rekey_segment, write_rekey_progress,
};
use crate::db::rekey::stages::{stage_rekey_rows, RekeyCatalogCommit, RekeyStep};
use crate::db::segment::{DrainOutcome, EffectStep};
use crate::db::snapshot::{ApplyTail, StagedTarget, SwapOutcome};
use crate::errors::Result;
use crate::header::MainDbHeaderFields;
use crate::ids::{ActiveSlot, CipherId, CommitId, RealmId};
use crate::mode::DbMode;
use crate::policy::ReaderStallPolicy;
use crate::tree::{BTree, TreePages};
use crate::write::commit::{CommitOutcome, CommitPlan, StagedCommit};
use crate::write::txn::{SegmentSideEffect, WriteTxn};

verus! {

/// Rows of pins are edited where the catalog is: it stays at its root and its cursor.
pub proof fn law_pins_move_no_tree(
    a: &mut BTree<CatalogValue>,
    pid: u32,
    lease: u64,
    commit: u64,
    root: u64,
    catalog_root: u64,
    now: u64,
    seconds: u64,
    unit: (),
    b: &mut BTree<CatalogValue>,
    pins: &Vec<(u32, u64)>,
    deleted: bool,
    c: &mut BTree<CatalogValue>,
    cleared: bool,
)
    requires
        call_ensures(
            insert_pin_row,
            (a, pid, lease, commit, root, catalog_root, now, seconds),
            unit,
        ),
        call_ensures(delete_pin_rows, (b, pins), deleted),
        call_ensures(cleanup_stale_reader_pins, (c, pid, now), cleared),
    ensures
        final(a).root() == old(a).root() && final(a).next() == old(a).next(),
        final(b).root() == old(b).root() && final(b).next() == old(b).next(),
        final(c).root() == old(c).root() && final(c).next() == old(c).next(),
        deleted <==> final(b)@ != old(b)@,
        cleared <==> final(c)@ != old(c)@,
{
}

/// Counters and quotas are edited where the catalog is.
pub proof fn law_settings_move_no_tree(
    a: &mut BTree<CatalogValue>,
    anchor: u64,
    changed: bool,
    db: &Db,
    b: &mut BTree<CatalogValue>,
    realm: RealmId,
    quotas: RealmQuotas,
    r: Result<()>,
)
    requires
        call_ensures(recover_counter_monotonicity, (a, anchor), changed),
        call_ensures(Db::set_realm_quotas, (db, b, realm, quotas), r),
    ensures
        final(a).root() == old(a).root() && final(a).next() == old(a).next(),
        r is Ok ==> final(b).root() == old(b).root() && final(b).next() == old(b).next(),
        r is Err ==> *final(b) == *old(b),
{
}

/// The rows of a change of keys are edited where the catalog is.
pub proof fn law_rekey_rows_move_no_tree(
    a: &mut BTree<CatalogValue>,
    intent: &mut RekeyIntent,
    step: RekeyStep,
    unit: (),
    b: &mut BTree<CatalogValue>,
    source: &[u8; 16],
    replacement: [u8; 16],
    c: &mut BTree<CatalogValue>,
    d: &mut BTree<CatalogValue>,
    key: &[u8],
    meta: &SegmentMeta,
    effects: Vec<SegmentSideEffect>,
    e: &mut BTree<CatalogValue>,
    recorded: &RekeyIntent,
)
    requires
        call_ensures(stage_rekey_rows, (a, intent, step), unit),
        call_ensures(write_rekey_progress, (b, source, replacement), unit),
        call_ensures(delete_rekey_progress, (c, source), unit),
        call_ensures(replace_rekey_segment, (d, key, *source, meta), effects),
        call_ensures(write_intent_row, (e, recorded), unit),
    ensures
        final(a).root() == old(a).root() && final(a).next() == old(a).next(),
        final(b).root() == old(b).root() && final(b).next() == old(b).next(),
        final(c).root() == old(c).root() && final(c).next() == old(c).next(),
        final(d).root() == old(d).root() && final(d).next() == old(d).next(),
        final(e).root() == old(e).root() && final(e).next() == old(e).next(),
{
}

/// A proof that is completed or left out is recorded where the catalog is.
pub proof fn law_recorded_proofs_move_no_tree(
    db: &Db,
    a: &mut BTree<CatalogValue>,
    epoch: u64,
    source: [u8; 16],
    r: Result<()>,
    b: &mut BTree<CatalogValue>,
    ring: &mut EpochKeyring,
    intent: &mut RekeyIntent,
    target: &DerivedPair,
    cipher: CipherId,
    s: Result<()>,
)
    requires
        call_ensures(Db::inject_incomplete_rekey_watermark, (db, a, epoch, source), r),
        call_ensures(
            Db::persist_legacy_rekey_proof,
            (db, b, ring, intent, target, cipher),
            s,
        ),
    ensures
        final(a).root() == old(a).root() && final(a).next() == old(a).next(),
        final(b).root() == old(b).root() && final(b).next() == old(b).next(),
{
}

/// History is pruned and added to where it is, and of the state that is pending only
/// the count of its rows changes, and nothing where the row is refused.
pub proof fn law_history_is_edited_in_place(
    a: &mut BTree<Vec<u8>>,
    excess: u64,
    pinned: Option<u64>,
    r: Result<u64>,
    b: &mut BTree<Vec<u8>>,
    key: &[u8],
    threshold: u64,
    s: Result<u64>,
    db: &Db,
    state: &mut PendingWriterState,
    c: &mut BTree<Vec<u8>>,
    commit: u64,
    meta: CommitHistoryMeta,
    now: u64,
    t: Result<()>,
    adopting: &mut PendingWriterState,
    pages: &TreePages,
    freed: Vec<u64>,
)
    requires
        call_ensures(prune_oldest_history_rows, (a, excess, pinned), r),
        call_ensures(prune_history_by_age, (b, key, pinned, threshold), s),
        call_ensures(Db::write_commit_history_entry, (db, state, c, commit, meta, now), t),
        call_ensures(adopt_history_pages, (adopting, commit, pages), freed),
    ensures
        final(a).root() == old(a).root() && final(a).next() == old(a).next(),
        final(b).root() == old(b).root() && final(b).next() == old(b).next(),
        final(c).root() == old(c).root() && final(c).next() == old(c).next(),
        *final(state) == (PendingWriterState {
            commit_history_count: final(state).commit_history_count,
            ..*old(state)
        }),
        t is Err ==> *final(state) == *old(state),
        *final(adopting) == (PendingWriterState {
            commit_history_root_page_id: final(adopting).commit_history_root_page_id,
            commit_history_root_version: final(adopting).commit_history_root_version,
            next_page_id: final(adopting).next_page_id,
            ..*old(adopting)
        }),
{
}

/// Of a session a write changes the data's rows and nothing else; an append also what
/// it is to be held to next.
pub proof fn law_writes_change_the_data_only(
    a: &mut WriteTxn,
    key: &[u8],
    value: &[u8],
    unit: (),
    b: &mut WriteTxn,
    removed: bool,
    c: &mut WriteTxn,
    rows: Vec<(Vec<u8>, Vec<u8>)>,
    d: &mut WriteTxn,
    keys: Vec<Vec<u8>>,
    e: &mut WriteTxn,
    count: u64,
    f: &mut WriteTxn,
    r: Result<()>,
)
    requires
        call_ensures(WriteTxn::put, (a, key, value), unit),
        call_ensures(WriteTxn::delete, (b, key), removed),
        call_ensures(WriteTxn::put_batch, (c, rows), unit),
        call_ensures(WriteTxn::delete_batch, (d, keys), unit),
        call_ensures(WriteTxn::delete_range, (e, key, value), count),
        call_ensures(WriteTxn::put_append, (f, key, value), r),
    ensures
        *final(a) == (WriteTxn { btree: final(a).btree, ..*old(a) }),
        *final(b) == (WriteTxn { btree: final(b).btree, ..*old(b) }),
        *final(c) == (WriteTxn { btree: final(c).btree, ..*old(c) }),
        *final(d) == (WriteTxn { btree: final(d).btree, ..*old(d) }),
        *final(e) == (WriteTxn { btree: final(e).btree, ..*old(e) }),
        *final(f) == (WriteTxn {
            btree: final(f).btree,
            last_appended: final(f).last_appended,
            ..*old(f)
        }),
        final(a).btree.root() == old(a).btree.root() && final(a).btree.next() == old(a).btree.next(),
        final(b).btree.root() == old(b).btree.root() && final(b).btree.next() == old(b).btree.next(),
        final(c).btree.root() == old(c).btree.root() && final(c).btree.next() == old(c).btree.next(),
        final(d).btree.root() == old(d).btree.root() && final(d).btree.next() == old(d).btree.next(),
        final(e).btree.root() == old(e).btree.root() && final(e).btree.next() == old(e).btree.next(),
        final(f).btree.root() == old(f).btree.root() && final(f).btree.next() == old(f).btree.next(),
{
}

/// Linking changes a session's trees and what is to be done to segments, leaves the
/// data's rows and both roots alone, and both trees are at the later cursor.
pub proof fn law_linking_leaves_the_data_alone(
    a: &mut WriteTxn,
    name: &str,
    meta: &SegmentMeta,
    r: Result<()>,
    b: &mut WriteTxn,
    s: Result<()>,
    c: &mut WriteTxn,
    t: Result<()>,
)
    requires
        call_ensures(WriteTxn::link_segment, (a, name, meta), r),
        call_ensures(WriteTxn::unlink_segment, (b, name), s),
        call_ensures(WriteTxn::replace_segment, (c, name, meta), t),
    ensures
        r is Err ==> *final(a) == *old(a),
        s is Err ==> *final(b) == *old(b),
        t is Err ==> *final(c) == *old(c),
        r is Ok ==> only_links(*old(a), *final(a)),
        s is Ok ==> only_links(*old(b), *final(b)),
        t is Ok ==> only_links(*old(c), *final(c)),
{
}

/// Whether a session differs from another only in the rows of its catalog, in what is
/// to be done to segments, and in that both of its trees are at the later cursor.
pub open spec fn only_links(before: WriteTxn, after: WriteTxn) -> bool {
    &&& after == (WriteTxn {
        btree: after.btree,
        catalog_tree: after.catalog_tree,
        pending_segments: after.pending_segments,
        ..before
    })
    &&& after.btree@ == before.btree@
    &&& after.btree.root() == before.btree.root()
    &&& after.catalog_tree.root() == before.catalog_tree.root()
    &&& after.btree.next() == after.catalog_tree.next()
    &&& after.btree.next() >= before.btree.next()
    &&& after.btree.next() >= before.catalog_tree.next()
    &&& after.btree.next() == before.btree.next() || after.btree.next()
        == before.catalog_tree.next()
}

/// Handing the cursor over and writing the trees changes nothing else of a session.
pub proof fn law_flushing_changes_the_trees_only(
    a: &mut WriteTxn,
    unit: (),
    b: &mut WriteTxn,
    c: &mut WriteTxn,
    data: &TreePages,
    catalog: &TreePages,
    d: &mut WriteTxn,
    path: String,
)
    requires
        call_ensures(WriteTxn::sync_allocator_to_catalog, (a,), unit),
        call_ensures(WriteTxn::sync_allocator_from_catalog, (b,), unit),
        call_ensures(WriteTxn::flush, (c, data, catalog), unit),
        call_ensures(WriteTxn::ensure_spill_path, (d,), path),
    ensures
        *final(a) == (WriteTxn { catalog_tree: final(a).catalog_tree, ..*old(a) }),
        *final(b) == (WriteTxn { btree: final(b).btree, ..*old(b) }),
        *final(c) == (WriteTxn {
            btree: final(c).btree,
            catalog_tree: final(c).catalog_tree,
            ..*old(c)
        }),
        *final(d) == (WriteTxn { spill_path: final(d).spill_path, ..*old(d) }),
        final(d).spill_path == Some(path),
{
}

/// The queue of retired segments is all of the handle that changes when it is added to,
/// taken from and settled.
pub proof fn law_tombstones_change_their_queue_only(
    a: &mut Db,
    id: [u8; 16],
    commit: u64,
    pinned: bool,
    step: EffectStep,
    b: &mut Db,
    pending: PendingTombstone,
    unit: (),
    c: &mut Db,
    limit: usize,
    batch: Vec<PendingTombstone>,
    d: &mut Db,
    taken: &Vec<PendingTombstone>,
    outcomes: &Vec<DrainOutcome>,
    reclaimed: (u64, u64),
)
    requires
        call_ensures(Db::tombstone_segment, (a, id, commit, pinned), step),
        call_ensures(Db::enqueue_pending_tombstone, (b, pending), unit),
        call_ensures(Db::take_pending_tombstones, (c, limit), batch),
        call_ensures(Db::settle_tombstone_batch, (d, taken, outcomes), reclaimed),
    ensures
        *final(a) == (Db { pending_tombstones: final(a).pending_tombstones, ..*old(a) }),
        !pinned ==> *final(a) == *old(a),
        *final(b) == (Db { pending_tombstones: final(b).pending_tombstones, ..*old(b) }),
        *final(c) == (Db { pending_tombstones: final(c).pending_tombstones, ..*old(c) }),
        *final(d) == (Db { pending_tombstones: final(d).pending_tombstones, ..*old(d) }),
{
}

/// Queues of pins, of keys and of scratch files are all of the handle that changes when
/// they are emptied or added to, and the policy is when it is set.
pub proof fn law_queues_change_alone(
    a: &mut Db,
    pins: Vec<(u32, u64)>,
    b: &mut Db,
    epoch: u64,
    cipher: CipherId,
    now: bool,
    c: &mut Db,
    due: Vec<PendingKeyRetirement>,
    d: &mut Db,
    paths: Result<Vec<String>>,
    e: &mut Db,
    policy: ReaderStallPolicy,
    unit: (),
    f: &mut Db,
    txn: WriteTxn,
)
    requires
        call_ensures(Db::drain_pending_pin_deletes, (a,), pins),
        call_ensures(Db::retire_rekey_source_when_safe, (b, epoch, cipher), now),
        call_ensures(Db::drain_pending_key_retirements, (c,), due),
        call_ensures(Db::begin_write, (d,), paths),
        call_ensures(Db::set_reader_stall_policy, (e, policy), unit),
        call_ensures(WriteTxn::let_go, (txn, f), unit),
    ensures
        *final(a) == (Db { pending_pin_deletes: final(a).pending_pin_deletes, ..*old(a) }),
        *final(b) == (Db { pending_key_retirements: final(b).pending_key_retirements, ..*old(b) }),
        *final(c) == (Db { pending_key_retirements: final(c).pending_key_retirements, ..*old(c) }),
        *final(d) == (Db { orphaned_spill_paths: final(d).orphaned_spill_paths, ..*old(d) }),
        *final(e) == (Db { stall_policy: policy, ..*old(e) }),
        *final(f) == (Db {
            spill_bytes_in_use: 0,
            orphaned_spill_paths: final(f).orphaned_spill_paths,
            ..*old(f)
        }),
{
}

/// Of the handle a commit changes what is published and what is written, the live
/// header, the cached pages and the scratch bytes, and whether it is poisoned; its
/// identity, its readers and its queues stay. Without its header it changes nothing.
pub proof fn law_commit_leaves_the_rest_alone(
    txn: WriteTxn,
    db: &mut Db,
    plan: &CommitPlan,
    staged: &StagedCommit,
    outcome: CommitOutcome,
    r: Result<CommitId>,
)
    requires
        call_ensures(WriteTxn::commit, (txn, db, plan, staged, outcome), r),
    ensures
        outcome.header is Err ==> *final(db) == *old(db),
        *final(db) == (Db {
            writer: final(db).writer,
            snapshot: final(db).snapshot,
            header_cursor: final(db).header_cursor,
            free_page_cache: final(db).free_page_cache,
            spill_bytes_in_use: final(db).spill_bytes_in_use,
            poisoned_commit: final(db).poisoned_commit,
            ..*old(db)
        }),
        r is Ok ==> final(db).poisoned_commit == old(db).poisoned_commit
            && final(db).spill_bytes_in_use == 0,
        r is Err ==> final(db).snapshot == old(db).snapshot && final(db).free_page_cache
            == old(db).free_page_cache && final(db).spill_bytes_in_use == old(db).spill_bytes_in_use,
{
}

/// What is published and what is written, the live header, and whether it is poisoned
/// are all of the handle that a commit of the catalog, of a durable state, of a change
/// of keys and of an installed target changes.
pub proof fn law_publishing_leaves_the_rest_alone(
    a: &mut Db,
    catalog: &CatalogCommit,
    header: Result<(ActiveSlot, u64)>,
    anchored: bool,
    r: Result<()>,
    b: &mut Db,
    state: &WriterState,
    commit: CommitId,
    reconciled: Result<SegmentReconciliation>,
    s: Result<SegmentReconciliation>,
    c: &mut Db,
    rekeyed: &RekeyCatalogCommit,
    t: Result<SegmentReconciliation>,
    d: &mut Db,
    target: &StagedTarget,
    has_actions: bool,
    swap: SwapOutcome,
    u: Result<ApplyTail>,
    e: &mut Db,
    unit: (),
    f: &mut Db,
)
    requires
        call_ensures(Db::finish_catalog_commit, (a, catalog, header, anchored), r),
        call_ensures(Db::finish_durable_commit, (b, state, commit, anchored, reconciled), s),
        call_ensures(
            Db::commit_rekey_catalog_root,
            (c, rekeyed, header, anchored, reconciled),
            t,
        ),
        call_ensures(Db::install_target, (d, target, has_actions, swap), u),
        call_ensures(Db::publish_snapshot, (e, state), unit),
        call_ensures(Db::poison, (f, commit), unit),
    ensures
        only_publishes(*old(a), *final(a)),
        only_publishes(*old(b), *final(b)),
        final(b).writer == old(b).writer && final(b).header_cursor == old(b).header_cursor,
        only_publishes(*old(c), *final(c)),
        only_publishes(*old(d), *final(d)),
        *final(e) == (Db { snapshot: final(e).snapshot, ..*old(e) }),
        *final(f) == (Db { poisoned_commit: final(f).poisoned_commit, ..*old(f) }),
        r is Ok ==> final(a).poisoned_commit == old(a).poisoned_commit,
        s is Ok ==> final(b).poisoned_commit == old(b).poisoned_commit,
        t is Ok ==> final(c).poisoned_commit == old(c).poisoned_commit,
        u is Ok ==> final(d).poisoned_commit == old(d).poisoned_commit,
        r is Err ==> final(a).snapshot == old(a).snapshot,
        s is Err ==> final(b).snapshot == old(b).snapshot,
        t is Err ==> final(c).snapshot == old(c).snapshot,
        u is Err ==> final(d).snapshot == old(d).snapshot,
{
}

/// Whether a handle differs from another only in what it publishes, what is written,
/// its live header and whether it is poisoned.
pub open spec fn only_publishes(before: Db, after: Db) -> bool {
    after == (Db {
        writer: after.writer,
        snapshot: after.snapshot,
        header_cursor: after.header_cursor,
        poisoned_commit: after.poisoned_commit,
        ..before
    })
}

/// A journal that is retried or cleared changes nothing of the store but what is
/// published, the live header and the journal's own id.
pub proof fn law_journal_leaves_the_rest_alone(
    a: &mut Db,
    found: bool,
    reconciled: Result<SegmentReconciliation>,
    anchor: u64,
    r: Result<MainDbHeaderFields>,
    b: &mut Db,
    written: Option<(ActiveSlot, u64)>,
    anchored: bool,
    s: Result<[u8; 16]>,
)
    requires
        call_ensures(Db::retry_pending_apply_journal_visible, (a, found, reconciled, anchor), r),
        call_ensures(Db::journal_cleared, (b, written, anchored), s),
    ensures
        only_publishes(*old(a), *final(a)),
        final(a).writer == old(a).writer && final(a).header_cursor == old(a).header_cursor,
        only_publishes(*old(b), *final(b)),
        final(b).writer == (WriterState {
            pending_apply_journal_id: final(b).writer.pending_apply_journal_id,
            ..old(b).writer
        }),
        s is Err ==> final(b).writer == old(b).writer && final(b).snapshot == old(b).snapshot,
{
}

/// A step of a change of keys changes of the handle the epoch, the keys that are kept
/// for readers, and whether it is poisoned; opening and promoting change the mode and
/// the locks.
pub proof fn law_steps_leave_the_rest_alone(
    a: &mut Db,
    ring: &mut EpochKeyring,
    intent: &RekeyIntent,
    step: RekeyStep,
    outcome: Result<bool>,
    r: Result<RekeyStep>,
    b: &mut Db,
    mode: DbMode,
    unit: (),
    c: &mut Db,
    promotion: PromotionStep,
    lock: Result<()>,
    s: Result<PromotionStep>,
    d: &mut Db,
    held: &mut EpochKeyring,
)
    requires
        call_ensures(Db::finish_rekey_locked, (a, ring, intent, step, outcome), r),
        call_ensures(Db::finish_open, (b, mode), unit),
        call_ensures(Db::promotion_next, (c, promotion, lock), s),
        call_ensures(Db::retire_due_keys, (d, held), unit),
    ensures
        *final(a) == (Db {
            mk_epoch: final(a).mk_epoch,
            pending_key_retirements: final(a).pending_key_retirements,
            poisoned_commit: final(a).poisoned_commit,
            ..*old(a)
        }),
        *final(b) == (Db {
            mode,
            sentinel_locks: final(b).sentinel_locks,
            lock_required: final(b).lock_required,
            ..*old(b)
        }),
        *final(c) == (Db {
            mode: final(c).mode,
            sentinel_locks: final(c).sentinel_locks,
            lock_required: final(c).lock_required,
            ..*old(c)
        }),
        s is Err ==> *final(c) == *old(c),
        *final(d) == (Db { pending_key_retirements: final(d).pending_key_retirements, ..*old(d) }),
{
}

} // verus!
