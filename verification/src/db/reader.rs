//! Reader registration, snapshot selection, stall-policy evaluation, and
//! historical (`begin_read_at`) reads.

use vstd::prelude::*;

use crate::codec::{be_value, u64_from_be};
use crate::errors::{PagedbError, Result};
use crate::ids::CommitId;
use crate::mode::DbMode;
use crate::order::{lex_le, lex_lt};
use crate::policy::ReaderStallPolicy;
use crate::read::ReadTxn;
use crate::tree::{lookup, BTree};

use super::handle::{poison_kept, Db, TrackedReader};
use super::history::{decode_commit_meta, encode_history_key, history_key, meta_of};

verus! {

/// The oldest commit that a reader pins.
pub open spec fn oldest_pin(readers: Seq<TrackedReader>) -> Option<u64>
    decreases readers.len(),
{
    if readers.len() == 0 {
        None
    } else {
        let c = readers.last().commit_id.0;
        match oldest_pin(readers.drop_last()) {
            None => Some(c),
            Some(m) => if c < m {
                Some(c)
            } else {
                Some(m)
            },
        }
    }
}

/// The oldest pin is pinned by some reader, and no reader pins an older one.
pub proof fn lemma_oldest_pin(readers: Seq<TrackedReader>)
    ensures
        match oldest_pin(readers) {
            None => readers.len() == 0,
            Some(m) => {
                &&& exists|i: int| 0 <= i < readers.len() && (#[trigger] readers[i]).commit_id.0 == m
                &&& forall|i: int| 0 <= i < readers.len() ==> (#[trigger] readers[i]).commit_id.0 >= m
            },
        },
    decreases readers.len(),
{
    if readers.len() > 0 {
        let rest = readers.drop_last();
        lemma_oldest_pin(rest);
        let c = readers.last().commit_id.0;
        let last = readers.len() - 1;
        assert(readers[last].commit_id.0 == c);
        match oldest_pin(rest) {
            None => {},
            Some(m) => {
                let w = choose|i: int| 0 <= i < rest.len() && (#[trigger] rest[i]).commit_id.0 == m;
                assert(readers[w].commit_id.0 == m);
                assert forall|i: int| 0 <= i < readers.len() implies (#[trigger] readers[i]).commit_id.0
                    >= oldest_pin(readers)->0 by {
                    if i < last {
                        assert(rest[i] == readers[i]);
                    }
                }
            },
        }
    }
}

/// The oldest commit that one of the readers pins.
pub fn oldest_reader_commit(readers: &Vec<TrackedReader>) -> (oldest: Option<u64>)
    ensures
        oldest == oldest_pin(readers@),
{
    let mut oldest: Option<u64> = None;
    let mut i: usize = 0;
    proof {
        assert(readers@.take(0) =~= Seq::<TrackedReader>::empty());
    }
    while i < readers.len()
        invariant
            i <= readers@.len(),
            oldest == oldest_pin(readers@.take(i as int)),
        decreases readers@.len() - i,
    {
        let c: u64 = readers[i].commit_id.0;
        proof {
            assert(readers@.take(i + 1).drop_last() =~= readers@.take(i as int));
            assert(readers@.take(i + 1).last() == readers@[i as int]);
        }
        oldest = match oldest {
            None => Some(c),
            Some(m) => if c < m {
                Some(c)
            } else {
                Some(m)
            },
        };
        i = i + 1;
    }
    proof {
        assert(readers@.take(i as int) =~= readers@);
    }
    oldest
}

/// Whether `v` is the reader that the abort-oldest policy picks: the first of
/// the oldest among those that may be aborted.
pub open spec fn is_victim(readers: Seq<TrackedReader>, v: int) -> bool {
    &&& 0 <= v < readers.len()
    &&& !readers[v].non_abortable
    &&& forall|i: int|
        #![trigger readers[i]]
        0 <= i < readers.len() && !readers[i].non_abortable ==> readers[v].commit_id.0
            <= readers[i].commit_id.0
    &&& forall|i: int|
        #![trigger readers[i]]
        0 <= i < v && !readers[i].non_abortable ==> readers[v].commit_id.0 < readers[i].commit_id.0
}

/// Whether the readers, the policy and the backlog call for a reaction.
pub open spec fn stalls(db: Db, deferred_free_count: u64) -> bool {
    &&& deferred_free_count > db.options.reader_stall_threshold_pages
    &&& db.stall_policy != ReaderStallPolicy::Unbounded
    &&& db.tracked_readers@.len() > 0
}

/// Whether some reader may be aborted.
pub open spec fn any_abortable(readers: Seq<TrackedReader>) -> bool {
    exists|i: int| 0 <= i < readers.len() && !(#[trigger] readers[i]).non_abortable
}

/// What the stall policy makes of a backlog: nothing while the backlog is small,
/// no reader is there, or the policy lets it grow; else a refusal, or the abort
/// of the oldest reader that may be aborted. A refusal changes nothing.
pub open spec fn stall_reaction(db: Db, after: Db, deferred_free_count: u64, r: Result<()>) -> bool {
    &&& after == (Db { aborted_readers: after.aborted_readers, ..db })
    &&& !stalls(db, deferred_free_count) ==> r is Ok && after == db
    &&& stalls(db, deferred_free_count) && (db.stall_policy == ReaderStallPolicy::Reject
        || !any_abortable(db.tracked_readers@)) ==> {
        &&& r == Err::<(), PagedbError>(
            PagedbError::DeferredFreeBacklog {
                pending: deferred_free_count,
                oldest_commit: oldest_pin(db.tracked_readers@)->0,
            },
        )
        &&& after == db
    }
    &&& stalls(db, deferred_free_count) && db.stall_policy == ReaderStallPolicy::AbortOldest
        && any_abortable(db.tracked_readers@) ==> {
        &&& r is Ok
        &&& exists|v: int|
            {
                &&& #[trigger] is_victim(db.tracked_readers@, v)
                &&& forall|id: u64|
                    #[trigger] after.aborted_readers@.contains(id) <==> id
                        == db.tracked_readers@[v].entry_id || db.aborted_readers@.contains(id)
            }
    }
}

/// Whether row `j` is the first history row that a full scan visits: from the
/// smallest eight-byte key up to but not including the largest.
pub open spec fn is_oldest_history_row(s: Seq<(Seq<u8>, Seq<u8>)>, j: int) -> bool {
    &&& 0 <= j < s.len()
    &&& lex_le(history_key(0), s[j].0) && lex_lt(s[j].0, history_key(u64::MAX))
    &&& forall|i: int|
        #![trigger s[i]]
        0 <= i < j ==> !(lex_le(history_key(0), s[i].0) && lex_lt(s[i].0, history_key(u64::MAX)))
}

/// Whether `oldest` is what a miss reports as the oldest commit to be had.
pub open spec fn is_oldest_available(
    s: Seq<(Seq<u8>, Seq<u8>)>,
    latest: u64,
    oldest: CommitId,
) -> bool {
    &&& forall|j: int|
        #[trigger] is_oldest_history_row(s, j) ==> oldest.0 == be_value(s[j].0.subrange(0, 8))
    &&& (forall|j: int| !#[trigger] is_oldest_history_row(s, j)) ==> oldest.0 == latest
}

/// Whether `p` is where a reader is listed first.
pub open spec fn listed_first(readers: Seq<TrackedReader>, entry_id: u64, p: int) -> bool {
    &&& 0 <= p < readers.len()
    &&& readers[p].entry_id == entry_id
    &&& forall|i: int| 0 <= i < p ==> (#[trigger] readers[i]).entry_id != entry_id
}

/// The readers once one is no longer registered: the last takes its place. One
/// that is not listed changes nothing.
pub open spec fn unregistered(
    before: Seq<TrackedReader>,
    entry_id: u64,
    after: Seq<TrackedReader>,
) -> bool {
    if exists|p: int| listed_first(before, entry_id, p) {
        exists|p: int|
            #[trigger] listed_first(before, entry_id, p) && after == before.update(
                p,
                before.last(),
            ).drop_last()
    } else {
        after == before
    }
}

/// What beginning to read at a commit comes to, by the rows of the history.
pub open spec fn begun_at(
    before: Db,
    commit: CommitId,
    history: Seq<(Seq<u8>, Seq<u8>)>,
    r: Result<ReadTxn>,
    after: Db,
) -> bool {
    if before.poisoned_commit is Some {
        &&& r == Err::<ReadTxn, PagedbError>(
            PagedbError::DurablyCommittedButUnpublished { commit: before.poisoned_commit->0 },
        )
        &&& after == before
    } else if commit.0 == before.snapshot.commit_id {
        &&& r is Ok
        &&& after.has_registered(
            before,
            r->Ok_0,
            commit,
            before.snapshot.root_page_id,
            before.snapshot.next_page_id,
            before.snapshot.catalog_root_page_id,
            false,
        )
    } else if before.snapshot.commit_history_root_page_id == 0 {
        &&& r == Err::<ReadTxn, PagedbError>(
            PagedbError::CommitGone {
                commit,
                oldest_available: CommitId(before.snapshot.commit_id),
            },
        )
        &&& after == before
    } else {
        match lookup(history, history_key(commit.0)) {
            Some(value) => if value.len() >= 40 {
                &&& r is Ok
                &&& after.has_registered(
                    before,
                    r->Ok_0,
                    commit,
                    meta_of(value).active_root_page_id,
                    meta_of(value).next_page_id,
                    meta_of(value).catalog_root_page_id,
                    false,
                )
            } else {
                &&& r == Err::<ReadTxn, PagedbError>(
                    PagedbError::row_invalid("commit_history.meta"),
                )
                &&& after == before
            },
            None => {
                &&& r is Err
                &&& after == before
                &&& r->Err_0 matches PagedbError::CommitGone { commit: c, oldest_available }
                &&& c == commit
                &&& is_oldest_available(history, before.snapshot.commit_id, oldest_available)
            },
        }
    }
}

impl Db {
    /// The handle after a reader was registered.
    pub open spec fn has_registered(
        &self,
        before: Db,
        txn: ReadTxn,
        commit_id: CommitId,
        root_page_id: u64,
        next_page_id: u64,
        catalog_root_page_id: u64,
        non_abortable: bool,
    ) -> bool {
        &&& txn == (ReadTxn {
            commit_id,
            root_page_id,
            next_page_id,
            catalog_root_page_id,
            entry_id: before.reader_seq,
            realm_id: before.realm_id,
            durable_pin: None,
        })
        &&& *self == (Db {
            tracked_readers: self.tracked_readers,
            reader_seq: self.reader_seq,
            ..before
        })
        &&& self.reader_seq == if before.reader_seq == u64::MAX {
            0
        } else {
            before.reader_seq + 1
        }
        &&& self.tracked_readers@ == before.tracked_readers@.push(
            TrackedReader {
                entry_id: before.reader_seq,
                commit_id,
                root_page_id,
                next_page_id,
                catalog_root_page_id,
                non_abortable,
            },
        )
    }

    /// Registers a reader with a snapshot pin.
    pub fn register_read(
        &mut self,
        commit_id: CommitId,
        root_page_id: u64,
        next_page_id: u64,
        catalog_root_page_id: u64,
        non_abortable: bool,
    ) -> (txn: ReadTxn)
        ensures
            poison_kept(*old(self), *final(self)),
            final(self).has_registered(
                *old(self),
                txn,
                commit_id,
                root_page_id,
                next_page_id,
                catalog_root_page_id,
                non_abortable,
            ),
    {
        let entry_id: u64 = self.reader_seq;
        self.reader_seq = if entry_id == u64::MAX {
            0
        } else {
            entry_id + 1
        };
        self.tracked_readers.push(
            TrackedReader {
                entry_id,
                commit_id,
                root_page_id,
                next_page_id,
                catalog_root_page_id,
                non_abortable,
            },
        );
        ReadTxn {
            commit_id,
            root_page_id,
            next_page_id,
            catalog_root_page_id,
            entry_id,
            realm_id: self.realm_id,
            durable_pin: None,
        }
    }

    /// Unregisters a reader by its entry id. The last reader takes its place.
    pub fn unregister_read(&mut self, entry_id: u64)
        ensures
            poison_kept(*old(self), *final(self)),
            *final(self) == (Db { tracked_readers: final(self).tracked_readers, ..*old(self) }),
            unregistered(old(self).tracked_readers@, entry_id, final(self).tracked_readers@),
    {
        let mut i: usize = 0;
        while i < self.tracked_readers.len()
            invariant
                *self == *old(self),
                i <= self.tracked_readers@.len(),
                forall|j: int|
                    0 <= j < i ==> (#[trigger] self.tracked_readers@[j]).entry_id != entry_id,
            decreases self.tracked_readers@.len() - i,
        {
            if self.tracked_readers[i].entry_id == entry_id {
                proof {
                    assert(listed_first(self.tracked_readers@, entry_id, i as int));
                }
                self.tracked_readers.swap_remove(i);
                return;
            }
            i = i + 1;
        }
    }

    /// Opens a read transaction pinned to the current published root.
    pub fn begin_read(&mut self) -> (r: Result<ReadTxn>)
        ensures
            poison_kept(*old(self), *final(self)),
            match r {
                Ok(txn) => {
                    &&& old(self).poisoned_commit is None
                    &&& final(self).has_registered(
                        *old(self),
                        txn,
                        CommitId(old(self).snapshot.commit_id),
                        old(self).snapshot.root_page_id,
                        old(self).snapshot.next_page_id,
                        old(self).snapshot.catalog_root_page_id,
                        false,
                    )
                },
                Err(e) => {
                    &&& old(self).poisoned_commit is Some
                    &&& e == (PagedbError::DurablyCommittedButUnpublished {
                        commit: old(self).poisoned_commit->0,
                    })
                    &&& *final(self) == *old(self)
                },
            },
    {
        match self.ensure_usable() {
            Ok(()) => {},
            Err(e) => return Err(e),
        }
        let snap = self.snapshot;
        Ok(
            self.register_read(
                CommitId(snap.commit_id),
                snap.root_page_id,
                snap.next_page_id,
                snap.catalog_root_page_id,
                false,
            ),
        )
    }

    /// Like [`Self::begin_read`], but the abort-oldest policy skips the reader.
    pub fn begin_read_non_abortable(&mut self) -> (r: Result<ReadTxn>)
        ensures
            poison_kept(*old(self), *final(self)),
            match r {
                Ok(txn) => {
                    &&& old(self).poisoned_commit is None
                    &&& final(self).has_registered(
                        *old(self),
                        txn,
                        CommitId(old(self).snapshot.commit_id),
                        old(self).snapshot.root_page_id,
                        old(self).snapshot.next_page_id,
                        old(self).snapshot.catalog_root_page_id,
                        true,
                    )
                },
                Err(e) => {
                    &&& old(self).poisoned_commit is Some
                    &&& e == (PagedbError::DurablyCommittedButUnpublished {
                        commit: old(self).poisoned_commit->0,
                    })
                    &&& *final(self) == *old(self)
                },
            },
    {
        match self.ensure_usable() {
            Ok(()) => {},
            Err(e) => return Err(e),
        }
        let snap = self.snapshot;
        Ok(
            self.register_read(
                CommitId(snap.commit_id),
                snap.root_page_id,
                snap.next_page_id,
                snap.catalog_root_page_id,
                true,
            ),
        )
    }

    /// Lets a write transaction begin: only a usable Standalone handle takes
    /// user writes. Hands over the scratch files that earlier sessions left, to
    /// be removed first.
    pub fn begin_write(&mut self) -> (r: Result<Vec<String>>)
        ensures
            poison_kept(*old(self), *final(self)),
            match r {
                Ok(paths) => {
                    &&& old(self).poisoned_commit is None
                    &&& old(self).mode == DbMode::Standalone
                    &&& *final(self) == (Db {
                        orphaned_spill_paths: final(self).orphaned_spill_paths,
                        ..*old(self)
                    })
                    &&& paths@ == old(self).orphaned_spill_paths@
                    &&& final(self).orphaned_spill_paths@.len() == 0
                },
                Err(e) => {
                    &&& *final(self) == *old(self)
                    &&& if old(self).poisoned_commit is Some {
                        e == (PagedbError::DurablyCommittedButUnpublished {
                            commit: old(self).poisoned_commit->0,
                        })
                    } else {
                        old(self).mode != DbMode::Standalone && e == PagedbError::ReadOnly
                    }
                },
            },
    {
        match self.ensure_usable() {
            Ok(()) => {},
            Err(e) => return Err(e),
        }
        if self.mode != DbMode::Standalone {
            return Err(PagedbError::ReadOnly);
        }
        let mut paths: Vec<String> = Vec::new();
        std::mem::swap(&mut paths, &mut self.orphaned_spill_paths);
        Ok(paths)
    }

    /// The most recently published commit.
    pub fn latest_commit(&self) -> (commit: CommitId)
        ensures
            commit == CommitId(self.snapshot.commit_id),
    {
        CommitId(self.snapshot.commit_id)
    }

    /// Replaces the reader stall policy.
    pub fn set_reader_stall_policy(&mut self, policy: ReaderStallPolicy)
        ensures
            poison_kept(*old(self), *final(self)),
            *final(self) == (Db { stall_policy: policy, ..*old(self) }),
    {
        self.stall_policy = policy;
    }

    /// The current reader stall policy.
    pub fn reader_stall_policy(&self) -> (policy: ReaderStallPolicy)
        ensures
            policy == self.stall_policy,
    {
        self.stall_policy
    }

    /// Whether the stall policy aborted the reader. The reader is told once:
    /// the mark is taken away.
    pub fn take_reader_abort(&mut self, entry_id: u64) -> (aborted: bool)
        ensures
            poison_kept(*old(self), *final(self)),
            aborted == old(self).aborted_readers@.contains(entry_id),
            *final(self) == (Db { aborted_readers: final(self).aborted_readers, ..*old(self) }),
            forall|id: u64|
                #[trigger] final(self).aborted_readers@.contains(id) <==> id != entry_id && old(
                    self,
                ).aborted_readers@.contains(id),
    {
        let ghost before = self.aborted_readers@;
        let mut kept: Vec<u64> = Vec::new();
        let mut aborted: bool = false;
        let mut i: usize = 0;
        while i < self.aborted_readers.len()
            invariant
                *self == *old(self),
                before == self.aborted_readers@,
                i <= before.len(),
                aborted == before.take(i as int).contains(entry_id),
                forall|id: u64|
                    #[trigger] kept@.contains(id) <==> id != entry_id && before.take(
                        i as int,
                    ).contains(id),
            decreases before.len() - i,
        {
            let id: u64 = self.aborted_readers[i];
            proof {
                assert(before.take(i + 1) =~= before.take(i as int).push(id));
                lemma_push_contains(before.take(i as int), id);
                lemma_push_contains(kept@, id);
            }
            if id == entry_id {
                aborted = true;
            } else {
                kept.push(id);
            }
            i = i + 1;
        }
        proof {
            assert(before.take(i as int) =~= before);
        }
        self.aborted_readers = kept;
        aborted
    }

    /// Marks a reader so that its next operation fails.
    fn mark_reader_aborted(&mut self, entry_id: u64)
        ensures
            poison_kept(*old(self), *final(self)),
            *final(self) == (Db { aborted_readers: final(self).aborted_readers, ..*old(self) }),
            forall|id: u64|
                #[trigger] final(self).aborted_readers@.contains(id) <==> id == entry_id || old(
                    self,
                ).aborted_readers@.contains(id),
    {
        let mut i: usize = 0;
        while i < self.aborted_readers.len()
            invariant
                *self == *old(self),
                i <= self.aborted_readers@.len(),
            decreases self.aborted_readers@.len() - i,
        {
            if self.aborted_readers[i] == entry_id {
                proof {
                    assert(self.aborted_readers@[i as int] == entry_id);
                }
                return;
            }
            i = i + 1;
        }
        proof {
            lemma_push_contains(self.aborted_readers@, entry_id);
        }
        self.aborted_readers.push(entry_id);
    }

    /// Evaluates the stall policy against the deferred-free backlog. `Ok` lets
    /// the commit go on; an error refuses it. Abort-oldest marks the oldest
    /// reader that may be aborted, and refuses only when there is none.
    pub fn evaluate_stall_policy(&mut self, deferred_free_count: u64) -> (r: Result<()>)
        ensures
            poison_kept(*old(self), *final(self)),
            stall_reaction(*old(self), *final(self), deferred_free_count, r),
    {
        if deferred_free_count <= self.options.reader_stall_threshold_pages {
            return Ok(());
        }
        let policy: ReaderStallPolicy = self.stall_policy;
        if policy == ReaderStallPolicy::Unbounded {
            return Ok(());
        }
        proof {
            lemma_oldest_pin(self.tracked_readers@);
        }
        let oldest_commit: u64 = match oldest_reader_commit(&self.tracked_readers) {
            Some(c) => c,
            None => return Ok(()),
        };
        if policy == ReaderStallPolicy::Reject {
            return Err(
                PagedbError::DeferredFreeBacklog { pending: deferred_free_count, oldest_commit },
            );
        }
        let ghost readers = self.tracked_readers@;
        let mut victim: Option<usize> = None;
        let mut i: usize = 0;
        while i < self.tracked_readers.len()
            invariant
                *self == *old(self),
                readers == self.tracked_readers@,
                i <= readers.len(),
                match victim {
                    None => !any_abortable(readers.take(i as int)),
                    Some(v) => v < i && is_victim(readers.take(i as int), v as int),
                },
            decreases readers.len() - i,
        {
            let ghost seen = readers.take(i as int);
            let ghost next = readers.take(i + 1);
            proof {
                assert(next =~= seen.push(readers[i as int]));
            }
            if !self.tracked_readers[i].non_abortable {
                let better: bool = match victim {
                    None => true,
                    Some(v) => self.tracked_readers[i].commit_id.0
                        < self.tracked_readers[v].commit_id.0,
                };
                proof {
                    assert forall|j: int| #![trigger next[j]] 0 <= j < i implies next[j]
                        == seen[j] by {}
                    assert(next[i as int] == readers[i as int]);
                    assert forall|j: int| #![trigger seen[j]] 0 <= j < i implies next[j]
                        == seen[j] by {}
                }
                if better {
                    proof {
                        assert(is_victim(next, i as int)) by {
                            if victim is None {
                                assert forall|j: int|
                                    #![trigger next[j]]
                                    0 <= j < i implies next[j].non_abortable by {
                                    assert(seen[j] == next[j]);
                                }
                            } else {
                                let v = victim->0 as int;
                                assert(next[v] == seen[v]);
                                assert forall|j: int|
                                    #![trigger next[j]]
                                    0 <= j < i && !next[j].non_abortable implies next[i as int].commit_id.0
                                    < next[j].commit_id.0 by {
                                    assert(seen[j] == next[j]);
                                }
                            }
                        }
                    }
                    victim = Some(i);
                } else {
                    proof {
                        let v = victim->0 as int;
                        assert(next[v] == seen[v]);
                        assert(is_victim(next, v)) by {
                            assert forall|j: int|
                                #![trigger next[j]]
                                0 <= j < v && !next[j].non_abortable implies next[v].commit_id.0
                                < next[j].commit_id.0 by {
                                assert(seen[j] == next[j]);
                            }
                        }
                    }
                }
            } else {
                proof {
                    if victim is Some {
                        let v = victim->0 as int;
                        assert(next[v] == seen[v]);
                        assert(is_victim(next, v)) by {
                            assert forall|j: int|
                                #![trigger next[j]]
                                0 <= j < next.len() && !next[j].non_abortable implies next[v].commit_id.0
                                <= next[j].commit_id.0 by {
                                if j < i {
                                    assert(seen[j] == next[j]);
                                }
                            }
                            assert forall|j: int|
                                #![trigger next[j]]
                                0 <= j < v && !next[j].non_abortable implies next[v].commit_id.0
                                < next[j].commit_id.0 by {
                                assert(seen[j] == next[j]);
                            }
                        }
                    } else {
                        assert(!any_abortable(next)) by {
                            assert forall|j: int| 0 <= j < next.len() implies (
                            #[trigger] next[j]).non_abortable by {
                                if j < i {
                                    assert(seen[j] == next[j]);
                                }
                            }
                        }
                    }
                }
            }
            i = i + 1;
        }
        proof {
            assert(readers.take(i as int) =~= readers);
        }
        match victim {
            Some(v) => {
                let entry_id: u64 = self.tracked_readers[v].entry_id;
                proof {
                    assert(any_abortable(readers)) by {
                        assert(!readers[v as int].non_abortable);
                    }
                }
                self.mark_reader_aborted(entry_id);
                proof {
                    assert(is_victim(old(self).tracked_readers@, v as int));
                }
                Ok(())
            },
            None => Err(
                PagedbError::DeferredFreeBacklog { pending: deferred_free_count, oldest_commit },
            ),
        }
    }

    /// Opens a read transaction on a historical commit.
    ///
    /// `history` holds the rows under the published snapshot's commit-history
    /// root; it is not looked at when that root is 0.
    pub fn begin_read_at(&mut self, commit: CommitId, history: &BTree<Vec<u8>>) -> (r: Result<
        ReadTxn,
    >)
        requires
            history.wf(),
            old(self).snapshot.commit_history_root_page_id != 0 ==> history.root()
                == old(self).snapshot.commit_history_root_page_id,
            forall|j: int| #[trigger]
                is_oldest_history_row(history@, j) ==> history@[j].0.len() >= 8,
        ensures
            poison_kept(*old(self), *final(self)),
            begun_at(*old(self), commit, history@, r, *final(self)),
    {
        match self.ensure_usable() {
            Ok(()) => {},
            Err(e) => return Err(e),
        }
        let snap = self.snapshot;
        if commit.0 == snap.commit_id {
            return Ok(
                self.register_read(
                    commit,
                    snap.root_page_id,
                    snap.next_page_id,
                    snap.catalog_root_page_id,
                    false,
                ),
            );
        }
        if snap.commit_history_root_page_id == 0 {
            return Err(
                PagedbError::CommitGone { commit, oldest_available: CommitId(snap.commit_id) },
            );
        }
        let key: Vec<u8> = encode_history_key(commit.0);
        match history.get(&key) {
            Some(value) => {
                match decode_commit_meta(value) {
                    Ok(meta) => Ok(
                        self.register_read(
                            commit,
                            meta.active_root_page_id,
                            meta.next_page_id,
                            meta.catalog_root_page_id,
                            false,
                        ),
                    ),
                    Err(e) => Err(e),
                }
            },
            None => {
                let start: Vec<u8> = encode_history_key(0);
                let end: Vec<u8> = encode_history_key(u64::MAX);
                let (lo, hi) = history.collect_range(&start, &end);
                if lo < hi {
                    proof {
                        assert(is_oldest_history_row(history@, lo as int));
                    }
                    let oldest: u64 = u64_from_be(history.key_at(lo), 0);
                    proof {
                        assert forall|j: int| #[trigger]
                            is_oldest_history_row(history@, j) implies j == lo by {
                            let x = history@[lo as int];
                            let y = history@[j];
                        }
                    }
                    Err(PagedbError::CommitGone { commit, oldest_available: CommitId(oldest) })
                } else {
                    proof {
                        assert forall|j: int| !#[trigger] is_oldest_history_row(history@, j) by {
                            if 0 <= j < history@.len() {
                                let y = history@[j];
                            }
                        }
                    }
                    Err(
                        PagedbError::CommitGone {
                            commit,
                            oldest_available: CommitId(snap.commit_id),
                        },
                    )
                }
            },
        }
    }
}

/// A reader that ends leaves the others as they were: closing the reader that was
/// registered last undoes its registration, where no other goes by its number.
pub proof fn law_closing_undoes_registration(
    before: Seq<TrackedReader>,
    reader: TrackedReader,
    after: Seq<TrackedReader>,
)
    requires
        forall|i: int| 0 <= i < before.len() ==> (#[trigger] before[i]).entry_id != reader.entry_id,
        unregistered(before.push(reader), reader.entry_id, after),
    ensures
        after == before,
{
    let all = before.push(reader);
    let n = before.len() as int;
    assert(listed_first(all, reader.entry_id, n)) by {
        assert forall|i: int| 0 <= i < n implies (#[trigger] all[i]).entry_id != reader.entry_id by {
            assert(all[i] == before[i]);
        }
    }
    let p = choose|p: int|
        #[trigger] listed_first(all, reader.entry_id, p) && after == all.update(
            p,
            all.last(),
        ).drop_last();
    if p < n {
        assert(all[p] == before[p]);
    }
    assert(all.update(n, all.last()).drop_last() =~= before);
}

proof fn lemma_push_contains(s: Seq<u64>, x: u64)
    ensures
        forall|id: u64| #[trigger] s.push(x).contains(id) <==> id == x || s.contains(id),
{
    assert forall|id: u64| #[trigger] s.push(x).contains(id) <==> id == x || s.contains(id) by {
        if s.contains(id) {
            let i = choose|i: int| 0 <= i < s.len() && s[i] == id;
            assert(s.push(x)[i] == id);
        }
        if id == x {
            assert(s.push(x)[s.len() as int] == id);
        }
        if s.push(x).contains(id) {
            let i = choose|i: int| 0 <= i < s.push(x).len() && s.push(x)[i] == id;
            if i < s.len() {
                assert(s[i] == id);
            }
        }
    }
}

} // verus!
