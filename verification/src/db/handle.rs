//! The state of an open handle, its companion types, and the parts that every
//! commit path shares: header assembly, poisoning, and the durable-commit tail.

use vstd::prelude::*;

use crate::errors::{PagedbError, Result};
use crate::header::{
    encode_free_list_root, is_page_size_log2, page_size_log2, root_ref, HeaderCursor,
    MainDbHeaderFields,
};
use crate::ids::{CipherId, CommitId, RealmId};
use crate::mode::DbMode;
use crate::options::OpenOptions;
use crate::policy::ReaderStallPolicy;

verus! {

/// A segment tombstone that was deferred because a reader was pinning it at
/// commit time.
#[derive(Debug, Clone, Copy)]
pub struct PendingTombstone {
    pub segment_id: [u8; 16],
    pub commit_id: u64,
}

/// A source epoch that remains leased until all tracked pre-cutover readers
/// have released their snapshot pins.
#[derive(Debug, Clone, Copy, PartialEq, Eq, Structural)]
pub struct PendingKeyRetirement {
    pub epoch: u64,
    pub cipher_id: CipherId,
}

/// One registered reader's pin record.
#[derive(Debug, Clone, Copy)]
pub struct TrackedReader {
    pub entry_id: u64,
    pub commit_id: CommitId,
    pub root_page_id: u64,
    pub next_page_id: u64,
    pub catalog_root_page_id: u64,
    pub non_abortable: bool,
}

/// What the writer knows of the durable state: its roots, its allocation
/// cursor, and the header fields that recovery rewrites preserve.
#[derive(Debug, Clone, Copy)]
pub struct WriterState {
    pub root_page_id: u64,
    pub next_page_id: u64,
    pub latest_commit_id: u64,
    pub catalog_root_page_id: u64,
    pub catalog_root_txn_id: u64,
    /// Head of the durable free-list chain; 0 when it is empty.
    pub free_list_root_page_id: u64,
    /// Root of the commit-history tree; 0 when there is none yet.
    pub commit_history_root_page_id: u64,
    pub commit_history_root_version: u64,
    /// How many rows the commit-history tree holds, when that is known.
    pub commit_history_count: Option<u64>,
    /// The apply journal that the durable header names; all zero when none is
    /// pending.
    pub pending_apply_journal_id: [u8; 16],
    pub restore_mode: u8,
    pub commit_retain_policy_tag: u8,
    pub commit_retain_policy_value: u64,
}

/// Reader-visible state, published as a whole at each commit.
#[derive(Debug, Clone, Copy, PartialEq, Eq, Structural)]
pub struct ReaderSnapshot {
    pub commit_id: u64,
    pub root_page_id: u64,
    pub next_page_id: u64,
    pub catalog_root_page_id: u64,
    pub free_list_root_page_id: u64,
    pub commit_history_root_page_id: u64,
}

/// The header fields that differ from one commit path to the next.
#[derive(Debug, Clone, Copy)]
pub struct HeaderFieldsParams {
    pub mk_epoch: u64,
    pub seq: u64,
    pub active_root_page_id: u64,
    pub active_root_txn_id: u64,
    pub counter_anchor: u64,
    pub commit_id: u64,
    pub catalog_root: [u8; 16],
    pub commit_history_root_page_id: u64,
    pub commit_history_root_version: u64,
    pub next_page_id: u64,
    pub free_list_root_page_id: u64,
}

/// Result of reconciling post-header segment effects. A deferred tombstone is
/// safe to publish because the old live file is extra data not referenced by
/// the new catalog; its journal or pending-GC entry must remain for retry.
#[derive(Debug, Clone, Copy, PartialEq, Eq, Structural)]
pub enum SegmentReconciliation {
    Complete,
    Deferred,
}

/// A handle to an open store.
pub struct Db {
    pub realm_id: RealmId,
    pub page_size: usize,
    pub cipher_id: CipherId,
    pub format_version: u16,
    pub header_flags: u32,
    pub mk_epoch: u64,
    pub file_id: [u8; 16],
    pub kek_salt: [u8; 16],
    pub main_db_path: String,
    pub mode: DbMode,
    pub options: OpenOptions,
    /// How many sentinel locks the handle holds.
    pub sentinel_locks: usize,
    /// Whether the handle was opened through a path that takes the writer lock.
    pub lock_required: bool,
    pub writer: WriterState,
    pub header_cursor: HeaderCursor,
    pub snapshot: ReaderSnapshot,
    /// The durable commit that could not be reconciled into `snapshot`.
    pub poisoned_commit: Option<CommitId>,
    pub tracked_readers: Vec<TrackedReader>,
    pub reader_seq: u64,
    pub stall_policy: ReaderStallPolicy,
    /// Readers that must fail their next operation.
    pub aborted_readers: Vec<u64>,
    pub pending_tombstones: Vec<PendingTombstone>,
    pub pending_key_retirements: Vec<PendingKeyRetirement>,
    /// Reader-pin rows that a dropped reader left to be deleted.
    pub pending_pin_deletes: Vec<(u32, u64)>,
    pub mmap_bytes_in_use: u64,
    pub spill_bytes_in_use: u64,
    pub txn_seq: u64,
    /// The identity of this open, drawn at random. Sessions are numbered from 1
    /// on in every open: this tells the keys of their scratch apart.
    pub spill_epoch: [u8; 16],
    /// The scratch files of sessions that ended without a commit or an abort,
    /// to be removed when the next session begins.
    pub orphaned_spill_paths: Vec<String>,
    pub segment_id_counter: u64,
    /// Page ids known to be reusable by the next write.
    pub free_page_cache: Vec<u64>,
}

/// What a published snapshot holds of the writer's state.
pub open spec fn snapshot_of(state: WriterState) -> ReaderSnapshot {
    ReaderSnapshot {
        commit_id: state.latest_commit_id,
        root_page_id: state.root_page_id,
        next_page_id: state.next_page_id,
        catalog_root_page_id: state.catalog_root_page_id,
        free_list_root_page_id: state.free_list_root_page_id,
        commit_history_root_page_id: state.commit_history_root_page_id,
    }
}

/// The handle once `commit` could not be published. The first poisoning commit
/// stays the one reported.
pub open spec fn poisoned(db: Db, commit: CommitId) -> Db {
    Db {
        poisoned_commit: if db.poisoned_commit is Some {
            db.poisoned_commit
        } else {
            Some(commit)
        },
        ..db
    }
}

/// Whether a handle that was poisoned still is, by the same commit.
pub open spec fn poison_kept(before: Db, after: Db) -> bool {
    before.poisoned_commit is Some ==> after.poisoned_commit == before.poisoned_commit
}

impl Db {
    /// Whether a header carries this handle's identity: format, cipher, page
    /// size, flags, file id, salt and realm.
    pub open spec fn names_this_store(&self, f: MainDbHeaderFields) -> bool {
        &&& f.format_version == self.format_version
        &&& f.cipher_id == self.cipher_id.byte()
        &&& is_page_size_log2(self.page_size as int, f.page_size_log2)
        &&& f.flags == self.header_flags
        &&& f.file_id == self.file_id
        &&& f.kek_salt == self.kek_salt
        &&& f.realm_id == self.realm_id
    }

    /// Whether the store's page size is one that a header can record.
    pub open spec fn page_size_supported(&self) -> bool {
        exists|log2: u8| #[trigger] is_page_size_log2(self.page_size as int, log2)
    }

    /// Whether this handle holds a sentinel lock.
    pub fn holds_write_lock(&self) -> (held: bool)
        ensures
            held == (self.sentinel_locks != 0),
    {
        self.sentinel_locks != 0
    }

    /// Whether the handle holds the lock that its way of opening promised.
    pub fn write_lock_satisfied(&self) -> (ok: bool)
        ensures
            ok == (!self.lock_required || self.sentinel_locks != 0),
    {
        !self.lock_required || self.holds_write_lock()
    }

    /// Refuses every state-dependent operation once a durable commit could not
    /// be published.
    pub fn ensure_usable(&self) -> (r: Result<()>)
        ensures
            match r {
                Ok(()) => self.poisoned_commit is None,
                Err(e) => self.poisoned_commit is Some && e
                    == (PagedbError::DurablyCommittedButUnpublished {
                    commit: self.poisoned_commit->0,
                }),
            },
    {
        match self.poisoned_commit {
            Some(commit) => Err(PagedbError::DurablyCommittedButUnpublished { commit }),
            None => Ok(()),
        }
    }

    /// Poisons the handle. The first poisoning commit stays the one reported.
    pub fn poison(&mut self, commit: CommitId)
        ensures
            poison_kept(*old(self), *final(self)),
            *final(self) == poisoned(*old(self), commit),
    {
        if self.poisoned_commit.is_none() {
            self.poisoned_commit = Some(commit);
        }
    }

    /// Publishes a new reader-visible snapshot.
    pub fn publish_snapshot(&mut self, state: &WriterState)
        ensures
            poison_kept(*old(self), *final(self)),
            *final(self) == (Db { snapshot: snapshot_of(*state), ..*old(self) }),
    {
        self.snapshot = ReaderSnapshot {
            commit_id: state.latest_commit_id,
            root_page_id: state.root_page_id,
            next_page_id: state.next_page_id,
            catalog_root_page_id: state.catalog_root_page_id,
            free_list_root_page_id: state.free_list_root_page_id,
            commit_history_root_page_id: state.commit_history_root_page_id,
        };
    }

    /// Ends a commit whose header is durable: the prior snapshot stays visible
    /// until the nonce anchor is committed and every segment effect is
    /// reconciled. A failure of either leaves the handle poisoned.
    ///
    /// `anchored` says whether the anchor could be committed; `reconciled` is
    /// what the segment effects came to. The effects are attempted only once
    /// the anchor is committed.
    pub fn finish_durable_commit(
        &mut self,
        state: &WriterState,
        commit: CommitId,
        anchored: bool,
        reconciled: Result<SegmentReconciliation>,
    ) -> (r: Result<SegmentReconciliation>)
        ensures
            poison_kept(*old(self), *final(self)),
            anchored && reconciled is Ok ==> r == reconciled && *final(self) == (Db {
                snapshot: snapshot_of(*state),
                ..*old(self)
            }),
            !anchored || reconciled is Err ==> {
                &&& r == Err::<SegmentReconciliation, PagedbError>(
                    PagedbError::DurablyCommittedButUnpublished { commit },
                )
                &&& *final(self) == poisoned(*old(self), commit)
            },
    {
        if !anchored {
            self.poison(commit);
            return Err(PagedbError::DurablyCommittedButUnpublished { commit });
        }
        match reconciled {
            Ok(outcome) => {
                self.publish_snapshot(state);
                Ok(outcome)
            },
            Err(_) => {
                self.poison(commit);
                Err(PagedbError::DurablyCommittedButUnpublished { commit })
            },
        }
    }

    /// Retires an obsolete source epoch at once when no reader can still
    /// resolve a pre-cutover snapshot; otherwise remembers it. Says whether
    /// the key is to be retired now.
    pub fn retire_rekey_source_when_safe(&mut self, epoch: u64, cipher_id: CipherId) -> (now: bool)
        ensures
            poison_kept(*old(self), *final(self)),
            now == (old(self).tracked_readers@.len() == 0),
            *final(self) == (Db {
                pending_key_retirements: final(self).pending_key_retirements,
                ..*old(self)
            }),
            ({
                let entry = PendingKeyRetirement { epoch, cipher_id };
                final(self).pending_key_retirements@ == if now
                    || old(self).pending_key_retirements@.contains(entry) {
                    old(self).pending_key_retirements@
                } else {
                    old(self).pending_key_retirements@.push(entry)
                }
            }),
    {
        if self.tracked_readers.len() == 0 {
            return true;
        }
        let pending: PendingKeyRetirement = PendingKeyRetirement { epoch, cipher_id };
        let mut i: usize = 0;
        while i < self.pending_key_retirements.len()
            invariant
                *self == *old(self),
                self.tracked_readers@.len() != 0,
                pending == (PendingKeyRetirement { epoch, cipher_id }),
                i <= self.pending_key_retirements@.len(),
                forall|j: int| 0 <= j < i ==> self.pending_key_retirements@[j] != pending,
            decreases self.pending_key_retirements@.len() - i,
        {
            if self.pending_key_retirements[i] == pending {
                proof {
                    assert(self.pending_key_retirements@.contains(pending));
                }
                return false;
            }
            i = i + 1;
        }
        self.pending_key_retirements.push(pending);
        false
    }

    /// Takes the deferred source-epoch retirements once no tracked reader
    /// remains; the caller retires each key it is handed.
    pub fn drain_pending_key_retirements(&mut self) -> (due: Vec<PendingKeyRetirement>)
        ensures
            poison_kept(*old(self), *final(self)),
            *final(self) == (Db {
                pending_key_retirements: final(self).pending_key_retirements,
                ..*old(self)
            }),
            old(self).tracked_readers@.len() == 0 ==> {
                &&& due@ == old(self).pending_key_retirements@
                &&& final(self).pending_key_retirements@.len() == 0
            },
            old(self).tracked_readers@.len() != 0 ==> {
                &&& due@.len() == 0
                &&& *final(self) == *old(self)
            },
    {
        let mut due: Vec<PendingKeyRetirement> = Vec::new();
        if self.tracked_readers.len() == 0 {
            std::mem::swap(&mut due, &mut self.pending_key_retirements);
        }
        due
    }

    /// Assembles the header of a writer commit: the handle's identity, no
    /// pending journal, no restore mode and no retention fields, and what
    /// `params` says.
    pub fn header_fields(&self, params: HeaderFieldsParams) -> (r: Result<MainDbHeaderFields>)
        ensures
            match r {
                Ok(f) => {
                    &&& self.names_this_store(f)
                    &&& f.mk_epoch == params.mk_epoch
                    &&& f.seq == params.seq
                    &&& f.active_root_page_id == params.active_root_page_id
                    &&& f.active_root_txn_id == params.active_root_txn_id
                    &&& f.counter_anchor == params.counter_anchor
                    &&& f.commit_id == CommitId(params.commit_id)
                    &&& f.free_list_root@ == root_ref(params.free_list_root_page_id, 0)
                    &&& f.catalog_root == params.catalog_root
                    &&& f.apply_journal_root_page_id == 0
                    &&& f.apply_journal_root_version == 0
                    &&& f.commit_history_root_page_id == params.commit_history_root_page_id
                    &&& f.commit_history_root_version == params.commit_history_root_version
                    &&& f.restore_mode == 0
                    &&& f.next_page_id == params.next_page_id
                    &&& f.commit_retain_policy_tag == 0
                    &&& f.commit_retain_policy_value == 0
                },
                Err(e) => e == PagedbError::Unsupported && !self.page_size_supported(),
            },
    {
        let log2: u8 = match page_size_log2(self.page_size) {
            Ok(log2) => log2,
            Err(e) => return Err(e),
        };
        Ok(
            MainDbHeaderFields {
                format_version: self.format_version,
                cipher_id: self.cipher_id.as_byte(),
                page_size_log2: log2,
                flags: self.header_flags,
                file_id: self.file_id,
                kek_salt: self.kek_salt,
                mk_epoch: params.mk_epoch,
                seq: params.seq,
                active_root_page_id: params.active_root_page_id,
                active_root_txn_id: params.active_root_txn_id,
                counter_anchor: params.counter_anchor,
                commit_id: CommitId(params.commit_id),
                free_list_root: encode_free_list_root(params.free_list_root_page_id),
                catalog_root: params.catalog_root,
                apply_journal_root_page_id: 0,
                apply_journal_root_version: 0,
                commit_history_root_page_id: params.commit_history_root_page_id,
                commit_history_root_version: params.commit_history_root_version,
                restore_mode: 0,
                next_page_id: params.next_page_id,
                commit_retain_policy_tag: 0,
                commit_retain_policy_value: 0,
                realm_id: self.realm_id,
            },
        )
    }
}

/// Poison is for good: once a handle is poisoned, every operation on it leaves it
/// poisoned by the commit that did it first, however many follow and whatever
/// poisons it again. `states` is the handle after each of them; each operation
/// promises what is asked of two states that follow each other.
pub proof fn law_poison_outlives_every_operation(db: Db, first: CommitId, states: Seq<Db>, i: int)
    requires
        db.poisoned_commit is None,
        states.len() > 0,
        states[0] == poisoned(db, first),
        forall|j: int|
            #![trigger states[j]]
            0 <= j < states.len() - 1 ==> poison_kept(states[j], states[j + 1]),
        0 <= i < states.len(),
    ensures
        states[i].poisoned_commit == Some(first),
    decreases i,
{
    if i > 0 {
        law_poison_outlives_every_operation(db, first, states, i - 1);
        assert(poison_kept(states[i - 1], states[i - 1 + 1]));
    }
}

/// A poisoned handle stays poisoned by the same commit, whatever poisons it
/// again: it never becomes usable, and a retry is refused with the same error.
pub proof fn law_poison_is_sticky(db: Db, first: CommitId, second: CommitId)
    ensures
        poisoned(db, first).poisoned_commit is Some,
        poisoned(poisoned(db, first), second) == poisoned(db, first),
        db.poisoned_commit is Some ==> poisoned(db, first) == db,
{
}

} // verus!
