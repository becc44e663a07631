//! The commit of a write transaction.
//!
//! A commit advances a candidate state. The shared state of the handle changes
//! only once the header that names the candidate is durable, and readers see it
//! only once the nonce anchor is committed and the segment files agree with the
//! new catalog.

use vstd::prelude::*;

use crate::codec::{be_value, le_bytes, lemma_le_bytes_len};
use crate::db::handle::{poison_kept, poisoned, snapshot_of, Db, SegmentReconciliation, WriterState};
use crate::db::history::{
    adopt_history_pages, allocatable, allocatable_pages, floor_of, history_key, history_outcome,
    history_refusal, lemma_oldest_retained_is_least, meta_bytes, oldest_retained,
    oldest_retained_readable, CommitHistoryMeta,
};
use crate::db::manifest_validation::all_zero;
use crate::db::open::existing::{is_writer_of, records_state};
use crate::db::pending::{captured, published, PendingWriterState};
use crate::db::reader::{begun_at, lemma_oldest_pin, oldest_pin, stall_reaction};
use crate::errors::{PagedbError, Result};
use crate::header::{
    encode_free_list_root, encode_root_ref, is_page_size_log2, law_root_ref_round_trip,
    page_size_log2, root_ref, HeaderCursor, MainDbHeaderFields, MAIN_FORMAT_VERSION,
};
use crate::ids::{ActiveSlot, CommitId};
use crate::options::{encode_retain_policy, retain_policy_fields, RetainPolicy};
use crate::read::ReadTxn;
use crate::tree::{has_key, lookup, with_row, BTree, TreePages};

use super::txn::{later_cursor, WriteTxn};

verus! {

/// What a commit sets out with.
pub struct CommitPlan {
    /// The number that the commit will have.
    pub commit_id: u64,
    /// The pages that the session gave up.
    pub freed: Vec<u64>,
    /// Whether those pages go to the allocator's cache in memory rather than to
    /// the durable free list.
    pub to_cache: bool,
}

/// Whether the pages that a commit gives up may be reused as soon as it is
/// durable: the handle is told so, no reader is registered, and no commit before
/// it can be asked for, since no history is kept and none was.
pub open spec fn caches_freed(db: Db) -> bool {
    &&& db.options.skip_freelist_persistence_when_no_readers
    &&& db.tracked_readers@.len() == 0
    &&& db.options.commit_history_retain is Disabled
    &&& db.writer.commit_history_root_page_id == 0
}

/// Whether a commit's freed pages go through the durable free list.
pub open spec fn persists_freed(plan: CommitPlan) -> bool {
    plan.freed@.len() != 0 && !plan.to_cache
}

/// How many deferred frees stand against a commit: as many as writing its own
/// reported, or, when it writes none, the sixteen-byte pairs that are queued.
pub open spec fn backlog(plan: CommitPlan, written: u64, queued_bytes: Option<u64>) -> u64 {
    if persists_freed(plan) {
        written
    } else {
        match queued_bytes {
            Some(n) => (n / 16) as u64,
            None => 0,
        }
    }
}

impl CommitPlan {
    /// Whether the freed pages go through the durable free list.
    pub fn persists_freed(&self) -> (persists: bool)
        ensures
            persists == persists_freed(*self),
    {
        self.freed.len() != 0 && !self.to_cache
    }
}

/// A commit whose pages are written and whose header is not.
pub struct StagedCommit {
    pub commit_id: u64,
    pub root_page_id: u64,
    pub catalog_root_page_id: u64,
    pub free_list_root_page_id: u64,
    pub pending: PendingWriterState,
    /// Whether the commit-history tree has changes to be written back.
    pub history_changed: bool,
}

/// How the steps after a staged commit went.
pub struct CommitOutcome {
    /// The slot and the sequence number of the header that was written, if it
    /// was.
    pub header: core::result::Result<(ActiveSlot, u64), PagedbError>,
    pub anchored: bool,
    pub reconciled: Result<SegmentReconciliation>,
}

/// What the history records of a commit.
pub open spec fn history_meta(
    root: u64,
    catalog_root: u64,
    free_list_root: u64,
    next_page_id: u64,
    unix_seconds: u64,
) -> CommitHistoryMeta {
    CommitHistoryMeta {
        active_root_page_id: root,
        catalog_root_page_id: catalog_root,
        free_list_root_page_id: free_list_root,
        next_page_id,
        unix_seconds,
    }
}

/// Whether `f` is the header of a staged commit.
pub open spec fn is_commit_header(
    db: Db,
    staged: StagedCommit,
    seq: u64,
    counter_anchor: u64,
    f: MainDbHeaderFields,
) -> bool {
    &&& f.format_version == MAIN_FORMAT_VERSION
    &&& f.cipher_id == db.cipher_id.byte()
    &&& is_page_size_log2(db.page_size as int, f.page_size_log2)
    &&& f.flags == 0
    &&& f.file_id == db.file_id
    &&& f.kek_salt == db.kek_salt
    &&& f.mk_epoch == db.mk_epoch
    &&& f.seq == seq
    &&& f.active_root_page_id == staged.root_page_id
    &&& f.active_root_txn_id == staged.commit_id
    &&& f.counter_anchor == counter_anchor
    &&& f.commit_id == CommitId(staged.commit_id)
    &&& f.free_list_root@ == root_ref(staged.free_list_root_page_id, 0)
    &&& f.catalog_root@ == root_ref(staged.catalog_root_page_id, staged.commit_id)
    &&& f.apply_journal_root_page_id == 0
    &&& f.apply_journal_root_version == 0
    &&& f.commit_history_root_page_id == staged.pending.commit_history_root_page_id
    &&& f.commit_history_root_version == staged.pending.commit_history_root_version
    &&& f.restore_mode == 0
    &&& f.next_page_id == staged.pending.next_page_id
    &&& (f.commit_retain_policy_tag, f.commit_retain_policy_value) == retain_policy_fields(
        db.options.commit_history_retain,
    )
    &&& f.realm_id == db.realm_id
}

/// The writer state once a staged commit is durable: the candidate's advances
/// and its roots.
pub open spec fn committed(db: Db, staged: StagedCommit) -> WriterState {
    WriterState {
        root_page_id: staged.root_page_id,
        latest_commit_id: staged.commit_id,
        catalog_root_page_id: staged.catalog_root_page_id,
        catalog_root_txn_id: staged.commit_id,
        free_list_root_page_id: staged.free_list_root_page_id,
        ..published(staged.pending, db.writer)
    }
}

/// The handle once the header of a staged commit is durable.
pub open spec fn durable(db: Db, staged: StagedCommit, slot: ActiveSlot, seq: u64) -> Db {
    Db {
        writer: committed(db, staged),
        header_cursor: HeaderCursor { slot, seq },
        ..db
    }
}

/// What the last steps of a commit leave of a handle, and what is reported.
pub open spec fn ended(
    before: Db,
    plan: CommitPlan,
    staged: StagedCommit,
    outcome: CommitOutcome,
    r: Result<CommitId>,
    after: Db,
) -> bool {
    match outcome.header {
        Err(e) => r == Err::<CommitId, PagedbError>(e) && after == before,
        Ok((slot, seq)) => {
            let at_commit = durable(before, staged, slot, seq);
            let commit = CommitId(staged.commit_id);
            if !outcome.anchored || outcome.reconciled is Err {
                &&& r == Err::<CommitId, PagedbError>(
                    PagedbError::DurablyCommittedButUnpublished { commit },
                )
                &&& after == poisoned(at_commit, commit)
            } else {
                &&& r == Ok::<CommitId, PagedbError>(commit)
                &&& after == (Db {
                    snapshot: snapshot_of(committed(before, staged)),
                    free_page_cache: after.free_page_cache,
                    spill_bytes_in_use: 0,
                    ..at_commit
                })
                &&& after.free_page_cache@ == if plan.to_cache && before.tracked_readers@.len()
                    == 0 {
                    before.free_page_cache@ + plan.freed@
                } else {
                    before.free_page_cache@
                }
            }
        },
    }
}

impl StagedCommit {
    /// Takes in where the history tree was written to. Hands back the pages
    /// that it gave up.
    pub fn adopt_history(&mut self, pages: &TreePages) -> (freed: Vec<u64>)
        ensures
            freed@ == allocatable(pages.freed@),
            *final(self) == (StagedCommit {
                pending: PendingWriterState {
                    commit_history_root_page_id: pages.root_page_id,
                    commit_history_root_version: old(self).commit_id,
                    next_page_id: later_cursor(pages.next_page_id, old(self).pending.next_page_id),
                    ..old(self).pending
                },
                ..*old(self)
            }),
    {
        let id: u64 = self.commit_id;
        adopt_history_pages(&mut self.pending, id, pages)
    }

    /// The header of the commit, above the sequence number of the live one.
    pub fn header_fields(&self, db: &Db, counter_anchor: u64) -> (r: Result<MainDbHeaderFields>)
        ensures
            match r {
                Ok(f) => {
                    &&& db.header_cursor.seq < u64::MAX
                    &&& is_commit_header(
                        *db,
                        *self,
                        (db.header_cursor.seq + 1) as u64,
                        counter_anchor,
                        f,
                    )
                },
                Err(PagedbError::ArithmeticOverflow { what }) => what == "header sequence"
                    && db.header_cursor.seq == u64::MAX,
                Err(e) => e == PagedbError::Unsupported && db.header_cursor.seq < u64::MAX
                    && !db.page_size_supported(),
            },
    {
        let seq: u64 = match db.header_cursor.next_seq() {
            Ok(seq) => seq,
            Err(e) => return Err(e),
        };
        let log2: u8 = match page_size_log2(db.page_size) {
            Ok(log2) => log2,
            Err(e) => return Err(e),
        };
        let (tag, value) = encode_retain_policy(&db.options.commit_history_retain);
        Ok(
            MainDbHeaderFields {
                format_version: MAIN_FORMAT_VERSION,
                cipher_id: db.cipher_id.as_byte(),
                page_size_log2: log2,
                flags: 0,
                file_id: db.file_id,
                kek_salt: db.kek_salt,
                mk_epoch: db.mk_epoch,
                seq,
                active_root_page_id: self.root_page_id,
                active_root_txn_id: self.commit_id,
                counter_anchor,
                commit_id: CommitId(self.commit_id),
                free_list_root: encode_free_list_root(self.free_list_root_page_id),
                catalog_root: encode_root_ref(self.catalog_root_page_id, self.commit_id),
                apply_journal_root_page_id: 0,
                apply_journal_root_version: 0,
                commit_history_root_page_id: self.pending.commit_history_root_page_id,
                commit_history_root_version: self.pending.commit_history_root_version,
                restore_mode: 0,
                next_page_id: self.pending.next_page_id,
                commit_retain_policy_tag: tag,
                commit_retain_policy_value: value,
                realm_id: db.realm_id,
            },
        )
    }
}

impl WriteTxn {
    /// Sets out on a commit: its number, the pages that both trees gave up, in
    /// order and without reserved pages, and where those pages go. Where the
    /// handle is told so, and neither a reader nor a retained commit can still
    /// see them, they need not pass through the durable free list.
    pub fn plan_commit(&self, db: &Db, freed_data: &Vec<u64>, freed_catalog: &Vec<u64>) -> (plan:
        CommitPlan)
        requires
            db.writer.latest_commit_id < u64::MAX,
        ensures
            plan.commit_id == db.writer.latest_commit_id + 1,
            plan.freed@ == allocatable(freed_data@) + allocatable(freed_catalog@),
            plan.to_cache == caches_freed(*db),
    {
        let mut freed: Vec<u64> = allocatable_pages(freed_data);
        let mut more: Vec<u64> = allocatable_pages(freed_catalog);
        freed.append(&mut more);
        CommitPlan {
            commit_id: db.writer.latest_commit_id + 1,
            freed,
            to_cache: db.options.skip_freelist_persistence_when_no_readers
                && db.tracked_readers.len() == 0 && matches!(
                db.options.commit_history_retain,
                RetainPolicy::Disabled
            ) && db.writer.commit_history_root_page_id == 0,
        }
    }

    /// Holds the backlog of deferred frees against the stall policy. An error
    /// ends the commit before anything of it is durable. `written` is how many
    /// deferred frees there were after the commit's own were queued,
    /// `queued_bytes` the length of the queue that was there.
    pub fn check_backlog(
        &self,
        db: &mut Db,
        plan: &CommitPlan,
        written: u64,
        queued_bytes: Option<u64>,
    ) -> (r: Result<()>)
        ensures
            poison_kept(*old(db), *final(db)),
            stall_reaction(*old(db), *final(db), backlog(*plan, written, queued_bytes), r),
    {
        let count: u64 = if plan.persists_freed() {
            written
        } else {
            match queued_bytes {
                Some(n) => n / 16,
                None => 0,
            }
        };
        db.evaluate_stall_policy(count)
    }

    /// Stages a commit once both trees are written: it takes on the roots that
    /// they were written to, the candidate state allocates from above both, and
    /// the history gets its entry, unless the handle keeps none. `history` are
    /// the rows under the handle's history root; nothing shared changes.
    pub fn stage_commit(
        &self,
        db: &Db,
        plan: &CommitPlan,
        free_list_root_page_id: u64,
        history: &mut BTree<Vec<u8>>,
        unix_seconds: u64,
    ) -> (r: Result<StagedCommit>)
        requires
            old(history).wf(),
            !(db.options.commit_history_retain is Disabled) ==> old(history).root()
                == db.writer.commit_history_root_page_id,
        ensures
            final(history).wf(),
            ({
                let next = later_cursor(self.btree.next(), self.catalog_tree.next());
                let start = PendingWriterState { next_page_id: next, ..captured(db.writer) };
                let meta = history_meta(
                    self.btree.root(),
                    self.catalog_tree.root(),
                    free_list_root_page_id,
                    next,
                    unix_seconds,
                );
                let key = history_key(plan.commit_id);
                let stored = with_row(old(history)@, key, meta_bytes(meta));
                let policy = db.options.commit_history_retain;
                match r {
                    Ok(staged) => {
                        &&& staged.commit_id == plan.commit_id
                        &&& staged.root_page_id == self.btree.root()
                        &&& staged.catalog_root_page_id == self.catalog_tree.root()
                        &&& staged.free_list_root_page_id == free_list_root_page_id
                        &&& staged.history_changed == !(policy is Disabled)
                        &&& if policy is Disabled {
                            staged.pending == start && *final(history) == *old(history)
                        } else {
                            &&& staged.pending == (PendingWriterState {
                                commit_history_count: staged.pending.commit_history_count,
                                ..start
                            })
                            &&& history_outcome(
                                policy,
                                stored,
                                key,
                                !has_key(old(history)@, key),
                                start.commit_history_count,
                                oldest_pin(db.tracked_readers@),
                                unix_seconds,
                                final(history)@,
                                staged.pending.commit_history_count,
                            )
                        }
                    },
                    Err(e) => !(policy is Disabled) && history_refusal(
                        policy,
                        stored,
                        key,
                        !has_key(old(history)@, key),
                        start.commit_history_count,
                        oldest_pin(db.tracked_readers@),
                        unix_seconds,
                        e,
                        final(history)@,
                    ),
                }
            }),
    {
        let root_page_id: u64 = self.btree.root_page_id();
        let catalog_root_page_id: u64 = self.catalog_tree.root_page_id();
        let data_next: u64 = self.btree.next_page_id();
        let catalog_next: u64 = self.catalog_tree.next_page_id();
        let mut pending: PendingWriterState = PendingWriterState::capture(&db.writer);
        pending.next_page_id = if data_next >= catalog_next {
            data_next
        } else {
            catalog_next
        };
        let mut history_changed: bool = false;
        if !matches!(db.options.commit_history_retain, RetainPolicy::Disabled) {
            let meta: CommitHistoryMeta = CommitHistoryMeta {
                active_root_page_id: root_page_id,
                catalog_root_page_id,
                free_list_root_page_id,
                next_page_id: pending.next_page_id,
                unix_seconds,
            };
            match db.write_commit_history_entry(
                &mut pending,
                history,
                plan.commit_id,
                meta,
                unix_seconds,
            ) {
                Ok(()) => {
                    history_changed = true;
                },
                Err(e) => return Err(e),
            }
        }
        Ok(
            StagedCommit {
                commit_id: plan.commit_id,
                root_page_id,
                catalog_root_page_id,
                free_list_root_page_id,
                pending,
                history_changed,
            },
        )
    }

    /// Ends a commit by how its last steps went. A header that was not written
    /// leaves the handle as it was. From the durable header on the shared state
    /// is the committed one, and a failure leaves the handle poisoned; with
    /// everything done readers see the commit, and the pages it gave up may be
    /// reused where they were kept in memory. A reader that came since the commit
    /// set out still sees those pages, and they are left alone then.
    pub fn commit(
        self,
        db: &mut Db,
        plan: &CommitPlan,
        staged: &StagedCommit,
        outcome: CommitOutcome,
    ) -> (r: Result<CommitId>)
        requires
            staged.commit_id == plan.commit_id,
            staged.root_page_id == self.btree.root(),
            staged.catalog_root_page_id == self.catalog_tree.root(),
        ensures
            poison_kept(*old(db), *final(db)),
            ended(*old(db), *plan, *staged, outcome, r, *final(db)),
    {
        let (slot, seq) = match outcome.header {
            Ok(written) => written,
            Err(e) => return Err(e),
        };
        let commit: CommitId = CommitId(staged.commit_id);
        db.header_cursor = HeaderCursor { slot, seq };
        let pending: PendingWriterState = staged.pending;
        pending.publish(&mut db.writer);
        db.writer.root_page_id = staged.root_page_id;
        db.writer.latest_commit_id = staged.commit_id;
        db.writer.catalog_root_page_id = staged.catalog_root_page_id;
        db.writer.catalog_root_txn_id = staged.commit_id;
        db.writer.free_list_root_page_id = staged.free_list_root_page_id;
        let state: WriterState = db.writer;
        match db.finish_durable_commit(&state, commit, outcome.anchored, outcome.reconciled) {
            Ok(_) => {},
            Err(e) => return Err(e),
        }
        if plan.to_cache && db.tracked_readers.len() == 0 {
            let mut i: usize = 0;
            let ghost before = db.free_page_cache@;
            let ghost handle = *db;
            while i < plan.freed.len()
                invariant
                    i <= plan.freed@.len(),
                    *db == (Db { free_page_cache: db.free_page_cache, ..handle }),
                    db.free_page_cache@ == before + plan.freed@.take(i as int),
                decreases plan.freed@.len() - i,
            {
                db.free_page_cache.push(plan.freed[i]);
                proof {
                    assert(db.free_page_cache@ =~= before + plan.freed@.take(i + 1));
                }
                i = i + 1;
            }
            proof {
                assert(plan.freed@.take(i as int) =~= plan.freed@);
            }
        }
        db.spill_bytes_in_use = 0;
        Ok(commit)
    }
}

/// The header of a commit records the state that the handle goes on with, where
/// no journal was pending: a store reopened from it stands at the commit, is
/// not one awaiting promotion, and remembers the retention policy in force.
pub proof fn law_commit_header_records_state(
    db: Db,
    staged: StagedCommit,
    seq: u64,
    counter_anchor: u64,
    f: MainDbHeaderFields,
)
    requires
        is_commit_header(db, staged, seq, counter_anchor, f),
        all_zero(db.writer.pending_apply_journal_id@),
    ensures
        records_state(
            f,
            WriterState {
                restore_mode: 0,
                commit_retain_policy_tag: retain_policy_fields(db.options.commit_history_retain).0,
                commit_retain_policy_value: retain_policy_fields(
                    db.options.commit_history_retain,
                ).1,
                ..committed(db, staged)
            },
        ),
{
    reveal_with_fuel(le_bytes, 9);
    lemma_le_bytes_len(0, 8);
    assert(root_ref(0, 0) =~= db.writer.pending_apply_journal_id@);
}

/// A durable commit survives: a store reopened from the commit's header stands
/// at that commit, with its roots, its cursor, its free list, its history and
/// its retention policy, and has no journal to go through.
pub proof fn law_committed_state_survives_reopen(
    db: Db,
    staged: StagedCommit,
    seq: u64,
    counter_anchor: u64,
    f: MainDbHeaderFields,
    reopened: WriterState,
)
    requires
        is_commit_header(db, staged, seq, counter_anchor, f),
        is_writer_of(reopened, f),
    ensures
        reopened.root_page_id == staged.root_page_id,
        reopened.catalog_root_page_id == staged.catalog_root_page_id,
        reopened.catalog_root_txn_id == staged.commit_id,
        reopened.free_list_root_page_id == staged.free_list_root_page_id,
        reopened.latest_commit_id == staged.commit_id,
        reopened.next_page_id == staged.pending.next_page_id,
        reopened.commit_history_root_page_id == staged.pending.commit_history_root_page_id,
        reopened.commit_history_root_version == staged.pending.commit_history_root_version,
        (reopened.commit_retain_policy_tag, reopened.commit_retain_policy_value)
            == retain_policy_fields(db.options.commit_history_retain),
        reopened.restore_mode == 0,
        all_zero(reopened.pending_apply_journal_id@),
{
    reveal_with_fuel(le_bytes, 9);
    lemma_le_bytes_len(0, 8);
    law_root_ref_round_trip(staged.catalog_root_page_id, staged.commit_id);
    law_root_ref_round_trip(staged.free_list_root_page_id, 0);
}

/// A commit is what later readers read: it has the number after the last one,
/// it is the latest, and a reader that begins while it is, abortable or not, gets
/// for each key what the session got just before. `pages` are the rows that the
/// store's pages hold once the session's trees were written.
pub proof fn law_later_readers_read_the_session(
    session: WriteTxn,
    db: Db,
    plan: CommitPlan,
    staged: StagedCommit,
    outcome: CommitOutcome,
    r: Result<CommitId>,
    after: Db,
    later: Db,
    reader: ReadTxn,
    non_abortable: bool,
    begun: Db,
    pages: Map<u64, Seq<(Seq<u8>, Seq<u8>)>>,
    tree: BTree<Vec<u8>>,
    key: Seq<u8>,
)
    requires
        plan.commit_id == db.writer.latest_commit_id + 1,
        staged.commit_id == plan.commit_id,
        staged.root_page_id == session.btree.root(),
        ended(db, plan, staged, outcome, r, after),
        r is Ok,
        session.btree.is_stored(pages),
        later.snapshot == after.snapshot,
        begun.has_registered(
            later,
            reader,
            CommitId(later.snapshot.commit_id),
            later.snapshot.root_page_id,
            later.snapshot.next_page_id,
            later.snapshot.catalog_root_page_id,
            non_abortable,
        ),
        tree.root() == reader.root_page_id,
        tree.is_stored(pages),
    ensures
        r == Ok::<CommitId, PagedbError>(CommitId((db.writer.latest_commit_id + 1) as u64)),
        after.snapshot.commit_id == db.writer.latest_commit_id + 1,
        reader.commit_id == r->Ok_0,
        lookup(tree@, key) == lookup(session.btree@, key),
{
}

/// Whether a session of a handle may write a page: one that no commit has had, one
/// that the free list `chain` holds as freed below the reclamation floor, or one
/// out of the cache. An entry of the chain is the commit that freed a page and the
/// page.
pub open spec fn may_write(
    db: Db,
    history: Seq<(Seq<u8>, Seq<u8>)>,
    chain: Seq<(u64, u64)>,
    page: u64,
) -> bool {
    ||| page >= db.writer.next_page_id
    ||| exists|i: int|
        0 <= i < chain.len() && (#[trigger] chain[i]).1 == page && chain[i].0 < floor_of(
            oldest_pin(db.tracked_readers@),
            oldest_retained(
                db.options.commit_history_retain,
                db.writer.commit_history_root_page_id,
                history,
            ),
        )
    ||| db.free_page_cache@.contains(page)
}

/// Whether a commit can still be read: a reader is pinned to it, or the history
/// retains it.
pub open spec fn is_readable(db: Db, history: Seq<(Seq<u8>, Seq<u8>)>, commit: u64) -> bool {
    ||| exists|i: int|
        0 <= i < db.tracked_readers@.len() && (#[trigger] db.tracked_readers@[i]).commit_id.0
            == commit
    ||| !(db.options.commit_history_retain is Disabled) && db.writer.commit_history_root_page_id
        != 0 && exists|i: int|
        0 <= i < history.len() && (#[trigger] history[i]).0.len() == 8 && be_value(history[i].0)
            == commit
}

/// Whoever read before reads on: what a session writes leaves the rows alone that
/// a reader pinned to an earlier commit, or a retained commit, is read from.
///
/// `reach` are the pages that hold the tree of `commit`, `before` and `after` what
/// the store's pages hold, and `rows_of` what rows a tree's pages come to, which
/// rests on those pages alone. They are below the allocation cursor, the free list
/// holds a page only as freed after the commits that reach it, and the cache holds
/// no page that can still be read. A page that the session may not write stays as
/// it was.
pub proof fn law_earlier_readers_read_on<T>(
    db: Db,
    history: BTree<Vec<u8>>,
    chain: Seq<(u64, u64)>,
    commit: u64,
    reach: Set<u64>,
    before: Map<u64, Seq<u8>>,
    after: Map<u64, Seq<u8>>,
    rows_of: spec_fn(Map<u64, Seq<u8>>) -> T,
)
    requires
        history.wf(),
        oldest_retained_readable(
            db.options.commit_history_retain,
            db.writer.commit_history_root_page_id,
            history@,
        ),
        is_readable(db, history@, commit),
        forall|a: Map<u64, Seq<u8>>, b: Map<u64, Seq<u8>>|
            (forall|p: u64| #[trigger] reach.contains(p) ==> a[p] == b[p]) ==> #[trigger] rows_of(a)
                == #[trigger] rows_of(b),
        forall|p: u64| #[trigger] reach.contains(p) ==> p < db.writer.next_page_id,
        forall|i: int|
            #![trigger chain[i]]
            0 <= i < chain.len() && reach.contains(chain[i].1) ==> commit < chain[i].0,
        forall|p: u64| #[trigger] reach.contains(p) ==> !db.free_page_cache@.contains(p),
        forall|p: u64|
            #[trigger] reach.contains(p) && !may_write(db, history@, chain, p) ==> after[p]
                == before[p],
    ensures
        rows_of(after) == rows_of(before),
{
    let policy = db.options.commit_history_retain;
    let root = db.writer.commit_history_root_page_id;
    let floor = floor_of(
        oldest_pin(db.tracked_readers@),
        oldest_retained(policy, root, history@),
    );
    lemma_floor_is_readable(db, history, commit);
    assert forall|p: u64| #[trigger] reach.contains(p) implies after[p] == before[p] by {
        if may_write(db, history@, chain, p) {
            let i = choose|i: int|
                0 <= i < chain.len() && (#[trigger] chain[i]).1 == p && chain[i].0 < floor;
            assert(reach.contains(chain[i].1));
        }
    }
}

proof fn lemma_floor_is_readable(db: Db, history: BTree<Vec<u8>>, commit: u64)
    requires
        history.wf(),
        oldest_retained_readable(
            db.options.commit_history_retain,
            db.writer.commit_history_root_page_id,
            history@,
        ),
        is_readable(db, history@, commit),
    ensures
        floor_of(
            oldest_pin(db.tracked_readers@),
            oldest_retained(
                db.options.commit_history_retain,
                db.writer.commit_history_root_page_id,
                history@,
            ),
        ) <= commit + 1,
{
    lemma_oldest_pin(db.tracked_readers@);
    let readers = db.tracked_readers@;
    if exists|i: int| 0 <= i < readers.len() && (#[trigger] readers[i]).commit_id.0 == commit {
    } else {
        let row = choose|i: int|
            0 <= i < history@.len() && (#[trigger] history@[i]).0.len() == 8 && be_value(
                history@[i].0,
            ) == commit;
        lemma_oldest_retained_is_least(history@, row);
    }
}

/// No page that a reader can still see is reused: where a commit hands pages to
/// the cache, no reader is registered on the handle that it leaves, and the only
/// commit that can be asked for is itself.
pub proof fn law_cached_pages_are_unobserved(
    planned: Db,
    db: Db,
    plan: CommitPlan,
    staged: StagedCommit,
    outcome: CommitOutcome,
    r: Result<CommitId>,
    after: Db,
    commit: CommitId,
    history: Seq<(Seq<u8>, Seq<u8>)>,
    read: Result<ReadTxn>,
    reading: Db,
)
    requires
        plan.to_cache == caches_freed(planned),
        db.options == planned.options,
        db.writer == planned.writer,
        db.options.commit_history_retain is Disabled
            ==> staged.pending.commit_history_root_page_id
            == db.writer.commit_history_root_page_id,
        ended(db, plan, staged, outcome, r, after),
        after.free_page_cache@ != db.free_page_cache@,
        begun_at(after, commit, history, read, reading),
    ensures
        r is Ok,
        after.tracked_readers@.len() == 0,
        after.free_page_cache@ == db.free_page_cache@ + plan.freed@,
        read is Ok ==> commit == r->Ok_0,
{
}

/// A commit disturbs no reader: those that were registered keep the commit and
/// the roots that they began with, whether or not the commit is published.
pub proof fn law_commit_leaves_readers_alone(
    db: Db,
    staged: StagedCommit,
    slot: ActiveSlot,
    seq: u64,
)
    ensures
        durable(db, staged, slot, seq).tracked_readers == db.tracked_readers,
        durable(db, staged, slot, seq).aborted_readers == db.aborted_readers,
        poisoned(durable(db, staged, slot, seq), CommitId(staged.commit_id)).tracked_readers
            == db.tracked_readers,
{
}

/// Between the durable header and its publication readers stay where they were:
/// the snapshot of the handle is the one from before the commit.
pub proof fn law_durable_commit_is_not_yet_visible(
    db: Db,
    staged: StagedCommit,
    slot: ActiveSlot,
    seq: u64,
)
    ensures
        durable(db, staged, slot, seq).snapshot == db.snapshot,
        poisoned(durable(db, staged, slot, seq), CommitId(staged.commit_id)).snapshot
            == db.snapshot,
        poisoned(durable(db, staged, slot, seq), CommitId(staged.commit_id)).poisoned_commit
            is Some,
{
}

} // verus!
