//! Laws of commits: what a commit that was staged, written and published leaves
//! for later readers, for a reopened store and for the handle.

use vstd::prelude::*;

use crate::db::handle::Db;
use crate::db::history::{
    encode_history_key, history_key, law_commit_meta_round_trip, meta_bytes, rows_known,
};
use crate::db::reader::oldest_pin;
use crate::errors::{PagedbError, Result};
use crate::header::{law_root_ref_round_trip, MainDbHeaderFields};
use crate::ids::{ActiveSlot, CommitId, RealmId};
use crate::mode::DbMode;
use crate::options::OpenOptions;
use crate::read::ReadTxn;
use crate::tree::{
    has_key, lemma_slot_exists, lemma_with_row, lookup, slot_of_key, with_row, BTree, TreePages,
};
use crate::write::commit::{history_meta, CommitOutcome, CommitPlan, StagedCommit};
use crate::write::txn::{later_cursor, WriteTxn};

use super::history::{lemma_pruned, lemma_skipped, pruned};

verus! {

/// What is kept of a staged commit in the history is what it was staged with.
proof fn lemma_kept_entry(
    txn: &WriteTxn,
    db: &Db,
    plan: &CommitPlan,
    free_list_root: u64,
    history: &mut BTree<Vec<u8>>,
    seconds: u64,
    staged: StagedCommit,
)
    requires
        old(history).wf(),
        !(db.options.commit_history_retain is Disabled),
        call_ensures(
            WriteTxn::stage_commit,
            (txn, db, plan, free_list_root, history, seconds),
            Ok::<StagedCommit, PagedbError>(staged),
        ),
        has_key(final(history)@, history_key(plan.commit_id)),
    ensures
        ({
            let next = later_cursor(txn.btree.next(), txn.catalog_tree.next());
            let meta = history_meta(
                txn.btree.root(),
                txn.catalog_tree.root(),
                free_list_root,
                next,
                seconds,
            );
            lookup(final(history)@, history_key(plan.commit_id)) == Some(meta_bytes(meta))
        }),
{
    let next = later_cursor(txn.btree.next(), txn.catalog_tree.next());
    let meta = history_meta(
        txn.btree.root(),
        txn.catalog_tree.root(),
        free_list_root,
        next,
        seconds,
    );
    let key = history_key(plan.commit_id);
    let stored = with_row(old(history)@, key, meta_bytes(meta));
    lemma_slot_exists(old(history)@, key);
    lemma_with_row(old(history)@, key, meta_bytes(meta), slot_of_key(old(history)@, key));
    let was_new = !has_key(old(history)@, key);
    let known = db.writer.commit_history_count;
    let pin = oldest_pin(db.tracked_readers@);
    lemma_pruned(
        db.options.commit_history_retain,
        stored,
        key,
        was_new,
        known,
        pin,
        seconds,
        final(history)@,
        staged.pending.commit_history_count,
    );
    let total = rows_known(known, stored, was_new);
    let d = choose|d: int| #[trigger]
        pruned(
            db.options.commit_history_retain,
            stored,
            key,
            total,
            pin,
            seconds,
            final(history)@,
            d,
        );
    lemma_skipped(stored, d, key);
}

/// A commit that the history keeps can be read again: as long as its row is there,
/// a later reader that asks for it gets the data root, the catalog root and the
/// allocation cursor that the commit was staged with, above both trees.
pub proof fn law_retained_commit_is_found_again(
    txn: &WriteTxn,
    db: &Db,
    plan: &CommitPlan,
    free_list_root: u64,
    history: &mut BTree<Vec<u8>>,
    seconds: u64,
    staged: StagedCommit,
    key: Vec<u8>,
    later: &mut Db,
    later_history: &BTree<Vec<u8>>,
    r: Result<ReadTxn>,
)
    requires
        old(history).wf(),
        !(db.options.commit_history_retain is Disabled),
        call_ensures(
            WriteTxn::stage_commit,
            (txn, db, plan, free_list_root, history, seconds),
            Ok::<StagedCommit, PagedbError>(staged),
        ),
        call_ensures(encode_history_key, (plan.commit_id,), key),
        has_key(final(history)@, key@),
        lookup(later_history@, key@) == lookup(final(history)@, key@),
        call_ensures(Db::begin_read_at, (later, CommitId(plan.commit_id), later_history), r),
        old(later).poisoned_commit is None,
        old(later).snapshot.commit_id != plan.commit_id,
        old(later).snapshot.commit_history_root_page_id != 0,
    ensures
        r is Ok,
        r->Ok_0.commit_id == CommitId(plan.commit_id),
        r->Ok_0.root_page_id == txn.btree.root(),
        r->Ok_0.catalog_root_page_id == txn.catalog_tree.root(),
        r->Ok_0.next_page_id == staged.pending.next_page_id,
        r->Ok_0.next_page_id >= txn.btree.next(),
        r->Ok_0.next_page_id >= txn.catalog_tree.next(),
        r->Ok_0.next_page_id == txn.btree.next() || r->Ok_0.next_page_id
            == txn.catalog_tree.next(),
{
    lemma_kept_entry(txn, db, plan, free_list_root, history, seconds, staged);
    let next = later_cursor(txn.btree.next(), txn.catalog_tree.next());
    let meta = history_meta(
        txn.btree.root(),
        txn.catalog_tree.root(),
        free_list_root,
        next,
        seconds,
    );
    law_commit_meta_round_trip(meta, Seq::empty());
    assert(meta_bytes(meta) + Seq::<u8>::empty() =~= meta_bytes(meta));
}

/// What a later reader at a retained commit gets is what the session got just
/// before it was committed, key by key. `pages` are the rows that the store's pages
/// hold, `tree` the rows under the reader's root.
pub proof fn law_retained_commit_reads_as_the_session(
    txn: &WriteTxn,
    db: &Db,
    plan: &CommitPlan,
    free_list_root: u64,
    history: &mut BTree<Vec<u8>>,
    seconds: u64,
    staged: StagedCommit,
    history_key: Vec<u8>,
    later: &mut Db,
    later_history: &BTree<Vec<u8>>,
    reader: &ReadTxn,
    reading: &mut Db,
    pages: Map<u64, Seq<(Seq<u8>, Seq<u8>)>>,
    tree: &BTree<Vec<u8>>,
    key: &[u8],
    written: Option<&Vec<u8>>,
    read: Option<Vec<u8>>,
)
    requires
        old(history).wf(),
        !(db.options.commit_history_retain is Disabled),
        call_ensures(
            WriteTxn::stage_commit,
            (txn, db, plan, free_list_root, history, seconds),
            Ok::<StagedCommit, PagedbError>(staged),
        ),
        call_ensures(encode_history_key, (plan.commit_id,), history_key),
        has_key(final(history)@, history_key@),
        lookup(later_history@, history_key@) == lookup(final(history)@, history_key@),
        old(later).snapshot.commit_id != plan.commit_id,
        call_ensures(
            Db::begin_read_at,
            (later, CommitId(plan.commit_id), later_history),
            Ok::<ReadTxn, PagedbError>(*reader),
        ),
        txn.btree.is_stored(pages),
        tree.is_stored(pages),
        tree.root() == reader.root_page_id,
        call_ensures(WriteTxn::get, (txn, key), written),
        call_ensures(
            ReadTxn::get,
            (reader, reading, tree, key),
            Ok::<Option<Vec<u8>>, PagedbError>(read),
        ),
    ensures
        read is Some <==> written is Some,
        read is Some ==> read->0@ == written->0@,
{
    law_retained_commit_is_found_again(
        txn,
        db,
        plan,
        free_list_root,
        history,
        seconds,
        staged,
        history_key,
        later,
        later_history,
        Ok(*reader),
    );
}

/// A commit that was published is the one that later readers read: the next reader
/// is at its number, at the roots that the session's trees were written to, and
/// above the cursors of both trees and of the history.
pub proof fn law_published_commit_is_what_readers_get(
    txn: WriteTxn,
    db: &Db,
    plan: &CommitPlan,
    free_list_root: u64,
    history: &mut BTree<Vec<u8>>,
    seconds: u64,
    staging: &mut StagedCommit,
    pages: &TreePages,
    freed: Vec<u64>,
    staged: &StagedCommit,
    handle: &mut Db,
    outcome: CommitOutcome,
    id: CommitId,
    later: &mut Db,
    r: Result<ReadTxn>,
)
    requires
        call_ensures(
            WriteTxn::stage_commit,
            (&txn, db, plan, free_list_root, history, seconds),
            Ok::<StagedCommit, PagedbError>(*old(staging)),
        ),
        call_ensures(StagedCommit::adopt_history, (staging, pages), freed),
        *staged == *final(staging),
        call_ensures(
            WriteTxn::commit,
            (txn, handle, plan, staged, outcome),
            Ok::<CommitId, PagedbError>(id),
        ),
        old(later).snapshot == final(handle).snapshot,
        old(later).poisoned_commit is None,
        call_ensures(Db::begin_read, (later,), r),
    ensures
        id == CommitId(plan.commit_id),
        final(handle).snapshot.commit_id == plan.commit_id,
        final(handle).snapshot.commit_history_root_page_id == pages.root_page_id,
        final(handle).snapshot.free_list_root_page_id == free_list_root,
        final(handle).writer.commit_history_root_version == plan.commit_id,
        final(handle).writer.latest_commit_id == plan.commit_id,
        final(handle).writer.root_page_id == txn.btree.root(),
        final(handle).writer.catalog_root_page_id == txn.catalog_tree.root(),
        final(handle).writer.catalog_root_txn_id == plan.commit_id,
        final(handle).writer.free_list_root_page_id == free_list_root,
        final(handle).writer.next_page_id == final(handle).snapshot.next_page_id,
        final(handle).poisoned_commit == old(handle).poisoned_commit,
        final(handle).tracked_readers == old(handle).tracked_readers,
        final(handle).spill_bytes_in_use == 0,
        r is Ok,
        r->Ok_0.commit_id == id,
        r->Ok_0.root_page_id == txn.btree.root(),
        r->Ok_0.catalog_root_page_id == txn.catalog_tree.root(),
        r->Ok_0.next_page_id >= txn.btree.next(),
        r->Ok_0.next_page_id >= txn.catalog_tree.next(),
        r->Ok_0.next_page_id >= pages.next_page_id,
        r->Ok_0.next_page_id == txn.btree.next() || r->Ok_0.next_page_id == txn.catalog_tree.next()
            || r->Ok_0.next_page_id == pages.next_page_id,
{
}

/// A commit whose header was not written changes nothing. One whose header was
/// written, but whose anchor or segment files were not brought up to it, stays
/// unseen: it is refused by its number, readers stay where they were, and every
/// later reader is refused by the same number; the writer is at the commit.
pub proof fn law_unpublished_commit_stays_unseen(
    txn: WriteTxn,
    plan: &CommitPlan,
    staged: &StagedCommit,
    handle: &mut Db,
    outcome: CommitOutcome,
    r: Result<CommitId>,
    later: &mut Db,
    read: Result<ReadTxn>,
)
    requires
        call_ensures(WriteTxn::commit, (txn, handle, plan, staged, outcome), r),
        old(handle).poisoned_commit is None,
        *old(later) == *final(handle),
        call_ensures(Db::begin_read, (later,), read),
    ensures
        outcome.header is Err ==> r == Err::<CommitId, PagedbError>(outcome.header->Err_0)
            && *final(handle) == *old(handle),
        outcome.header is Ok && outcome.anchored && outcome.reconciled is Ok ==> r is Ok,
        outcome.header is Ok && !(outcome.anchored && outcome.reconciled is Ok) ==> {
            let refusal = PagedbError::DurablyCommittedButUnpublished {
                commit: CommitId(staged.commit_id),
            };
            &&& r == Err::<CommitId, PagedbError>(refusal)
            &&& read == Err::<ReadTxn, PagedbError>(refusal)
            &&& final(handle).snapshot == old(handle).snapshot
            &&& final(handle).tracked_readers == old(handle).tracked_readers
            &&& final(handle).free_page_cache == old(handle).free_page_cache
            &&& final(handle).writer.latest_commit_id == staged.commit_id
            &&& final(handle).writer.root_page_id == staged.root_page_id
            &&& final(handle).writer.catalog_root_page_id == staged.catalog_root_page_id
        },
        outcome.header is Ok ==> final(handle).header_cursor.slot == outcome.header->Ok_0.0
            && final(handle).header_cursor.seq == outcome.header->Ok_0.1,
{
}

/// The pages that a commit gives up are taken up in memory only where it set out
/// to do so and nobody reads now; they join what was there, and nothing else does.
pub proof fn law_commit_caches_its_own_pages(
    txn: WriteTxn,
    plan: &CommitPlan,
    staged: &StagedCommit,
    handle: &mut Db,
    outcome: CommitOutcome,
    id: CommitId,
    page: u64,
)
    requires
        call_ensures(
            WriteTxn::commit,
            (txn, handle, plan, staged, outcome),
            Ok::<CommitId, PagedbError>(id),
        ),
    ensures
        final(handle).free_page_cache@.contains(page) <==> {
            ||| old(handle).free_page_cache@.contains(page)
            ||| plan.to_cache && old(handle).tracked_readers@.len() == 0 && plan.freed@.contains(
                page,
            )
        },
        final(handle).free_page_cache@.len() == old(handle).free_page_cache@.len() + if plan.to_cache
            && old(handle).tracked_readers@.len() == 0 {
            plan.freed@.len()
        } else {
            0
        },
{
    let before = old(handle).free_page_cache@;
    let after = final(handle).free_page_cache@;
    let freed = plan.freed@;
    if plan.to_cache && old(handle).tracked_readers@.len() == 0 {
        if before.contains(page) {
            let i = choose|i: int| 0 <= i < before.len() && before[i] == page;
            assert(after[i] == page);
        }
        if freed.contains(page) {
            let i = choose|i: int| 0 <= i < freed.len() && freed[i] == page;
            assert(after[before.len() + i] == page);
        }
        if after.contains(page) {
            let i = choose|i: int| 0 <= i < after.len() && after[i] == page;
            if i < before.len() {
                assert(before[i] == page);
            } else {
                assert(freed[i - before.len()] == page);
            }
        }
    }
}

/// A commit survives a reopen: a store opened again from the header that was made
/// for it stands at the commit, at the roots of the session's trees, with the free
/// list, the history and the cursor that it was staged with, and no journal is
/// pending; its readers begin there.
pub proof fn law_commit_survives_a_reopen(
    txn: &WriteTxn,
    db: &Db,
    plan: &CommitPlan,
    free_list_root: u64,
    history: &mut BTree<Vec<u8>>,
    seconds: u64,
    staged: &StagedCommit,
    anchor: u64,
    f: MainDbHeaderFields,
    path: String,
    slot: ActiveSlot,
    page_size: usize,
    realm: RealmId,
    options: OpenOptions,
    mode: DbMode,
    spill_epoch: [u8; 16],
    reopened: Db,
    reading: &mut Db,
    r: Result<ReadTxn>,
)
    requires
        call_ensures(
            WriteTxn::stage_commit,
            (txn, db, plan, free_list_root, history, seconds),
            Ok::<StagedCommit, PagedbError>(*staged),
        ),
        call_ensures(
            StagedCommit::header_fields,
            (staged, db, anchor),
            Ok::<MainDbHeaderFields, PagedbError>(f),
        ),
        call_ensures(
            Db::open_existing_inner,
            (path, &f, slot, page_size, realm, options, mode, spill_epoch),
            Ok::<Db, PagedbError>(reopened),
        ),
        *old(reading) == reopened,
        call_ensures(Db::begin_read, (reading,), r),
    ensures
        f.seq == db.header_cursor.seq + 1,
        f.counter_anchor == anchor,
        f.mk_epoch == db.mk_epoch,
        reopened.header_cursor.slot == slot,
        reopened.header_cursor.seq == db.header_cursor.seq + 1,
        reopened.file_id == db.file_id,
        reopened.kek_salt == db.kek_salt,
        reopened.mk_epoch == db.mk_epoch,
        reopened.cipher_id == db.cipher_id,
        reopened.mode == mode,
        reopened.writer.latest_commit_id == plan.commit_id,
        reopened.writer.root_page_id == txn.btree.root(),
        reopened.writer.catalog_root_page_id == txn.catalog_tree.root(),
        reopened.writer.catalog_root_txn_id == plan.commit_id,
        reopened.writer.free_list_root_page_id == free_list_root,
        reopened.writer.next_page_id == staged.pending.next_page_id,
        reopened.writer.commit_history_root_page_id == staged.pending.commit_history_root_page_id,
        reopened.writer.commit_history_root_version == staged.pending.commit_history_root_version,
        reopened.writer.commit_history_count is None,
        reopened.writer.restore_mode == 0,
        f.apply_journal_root_page_id == 0 && f.apply_journal_root_version == 0,
        r is Ok,
        r->Ok_0.commit_id == CommitId(plan.commit_id),
        r->Ok_0.root_page_id == txn.btree.root(),
        r->Ok_0.catalog_root_page_id == txn.catalog_tree.root(),
        r->Ok_0.next_page_id == staged.pending.next_page_id,
{
    law_root_ref_round_trip(staged.catalog_root_page_id, staged.commit_id);
    law_root_ref_round_trip(staged.free_list_root_page_id, 0);
}

/// A commit has the number after the last one. The pages that it gives up go
/// straight to the cache only where the handle is told so, nobody reads and no
/// history is kept; and a reserved page is never among them.
pub proof fn law_commit_plan(
    txn: &WriteTxn,
    db: &Db,
    freed_data: &Vec<u64>,
    freed_catalog: &Vec<u64>,
    plan: CommitPlan,
    page: u64,
)
    requires
        db.writer.latest_commit_id < u64::MAX,
        call_ensures(WriteTxn::plan_commit, (txn, db, freed_data, freed_catalog), plan),
    ensures
        plan.commit_id == db.writer.latest_commit_id + 1,
        plan.to_cache <==> db.options.skip_freelist_persistence_when_no_readers
            && db.tracked_readers@.len() == 0 && db.options.commit_history_retain is Disabled
            && db.writer.commit_history_root_page_id == 0,
        plan.freed@ == (freed_data@ + freed_catalog@).filter(|p: u64| p >= 4),
{
    lemma_filter_split(freed_data@, freed_catalog@);
    lemma_allocatable_is_filter(freed_data@);
    lemma_allocatable_is_filter(freed_catalog@);
}

/// The pages that may be allocated are, in order, those past the reserved ones.
pub proof fn lemma_allocatable_is_filter(s: Seq<u64>)
    ensures
        crate::db::history::allocatable(s) == s.filter(|p: u64| p >= 4),
    decreases s.len(),
{
    reveal(Seq::filter);
    if s.len() > 0 {
        lemma_allocatable_is_filter(s.drop_last());
    }
}

proof fn lemma_filter_split(a: Seq<u64>, b: Seq<u64>)
    ensures
        (a + b).filter(|p: u64| p >= 4) == a.filter(|p: u64| p >= 4) + b.filter(|p: u64| p >= 4),
    decreases b.len(),
{
    reveal(Seq::filter);
    if b.len() == 0 {
        assert(a + b =~= a);
    } else {
        lemma_filter_split(a, b.drop_last());
        assert((a + b).drop_last() =~= a + b.drop_last());
    }
}

} // verus!
