//! Reconciliation of the apply journal that the durable header names, after an
//! incremental header swap.

use vstd::prelude::*;

use crate::codec::{le_bytes, lemma_le_bytes_len};
use crate::errors::{PagedbError, Result};
use crate::header::{
    encode_free_list_root, encode_root_ref, is_page_size_log2, page_size_log2, root_ref,
    HeaderCursor, MainDbHeaderFields, MAIN_FORMAT_VERSION,
};
use crate::ids::{ActiveSlot, CommitId};

use super::handle::{poison_kept, poisoned, snapshot_of, Db, SegmentReconciliation, WriterState};
use super::manifest_validation::{all_zero, is_all_zero};
use super::open::existing::records_state;

verus! {

/// Whether `f` is the header that no longer names a journal and otherwise says
/// what `state` does.
pub open spec fn is_cleared_header(
    db: Db,
    state: WriterState,
    seq: u64,
    counter_anchor: u64,
    f: MainDbHeaderFields,
) -> bool {
    &&& f.format_version == MAIN_FORMAT_VERSION
    &&& f.cipher_id == db.cipher_id.byte()
    &&& is_page_size_log2(db.page_size as int, f.page_size_log2)
    &&& f.flags == 0
    &&& f.file_id == db.file_id
    &&& f.kek_salt == db.kek_salt
    &&& f.mk_epoch == db.mk_epoch
    &&& f.seq == seq
    &&& f.active_root_page_id == state.root_page_id
    &&& f.active_root_txn_id == state.latest_commit_id
    &&& f.counter_anchor == counter_anchor
    &&& f.commit_id == CommitId(state.latest_commit_id)
    &&& f.free_list_root@ == root_ref(state.free_list_root_page_id, 0)
    &&& f.catalog_root@ == root_ref(state.catalog_root_page_id, state.catalog_root_txn_id)
    &&& f.apply_journal_root_page_id == 0
    &&& f.apply_journal_root_version == 0
    &&& f.commit_history_root_page_id == state.commit_history_root_page_id
    &&& f.commit_history_root_version == state.commit_history_root_version
    &&& f.restore_mode == state.restore_mode
    &&& f.next_page_id == state.next_page_id
    &&& f.commit_retain_policy_tag == state.commit_retain_policy_tag
    &&& f.commit_retain_policy_value == state.commit_retain_policy_value
    &&& f.realm_id == db.realm_id
}

/// The header that no longer names a journal.
pub fn cleared_header_fields(db: &Db, state: &WriterState, seq: u64, counter_anchor: u64) -> (r:
    Result<MainDbHeaderFields>)
    ensures
        match r {
            Ok(f) => is_cleared_header(*db, *state, seq, counter_anchor, f),
            Err(e) => e == PagedbError::Unsupported && !db.page_size_supported(),
        },
{
    let log2: u8 = match page_size_log2(db.page_size) {
        Ok(log2) => log2,
        Err(e) => return Err(e),
    };
    Ok(
        MainDbHeaderFields {
            format_version: MAIN_FORMAT_VERSION,
            cipher_id: db.cipher_id.as_byte(),
            page_size_log2: log2,
            flags: 0,
            file_id: db.file_id,
            kek_salt: db.kek_salt,
            mk_epoch: db.mk_epoch,
            seq,
            active_root_page_id: state.root_page_id,
            active_root_txn_id: state.latest_commit_id,
            counter_anchor,
            commit_id: CommitId(state.latest_commit_id),
            free_list_root: encode_free_list_root(state.free_list_root_page_id),
            catalog_root: encode_root_ref(state.catalog_root_page_id, state.catalog_root_txn_id),
            apply_journal_root_page_id: 0,
            apply_journal_root_version: 0,
            commit_history_root_page_id: state.commit_history_root_page_id,
            commit_history_root_version: state.commit_history_root_version,
            restore_mode: state.restore_mode,
            next_page_id: state.next_page_id,
            commit_retain_policy_tag: state.commit_retain_policy_tag,
            commit_retain_policy_value: state.commit_retain_policy_value,
            realm_id: db.realm_id,
        },
    )
}

/// The cursor after a header was written to a slot.
pub open spec fn cursor_at(written: (ActiveSlot, u64)) -> HeaderCursor {
    HeaderCursor { slot: written.0, seq: written.1 }
}

impl Db {
    /// Fails the retry of a journal whose target is durable but cannot be
    /// published.
    fn journal_unpublished(&mut self) -> (e: PagedbError)
        ensures
            poison_kept(*old(self), *final(self)),
            e == (PagedbError::DurablyCommittedButUnpublished {
                commit: CommitId(old(self).writer.latest_commit_id),
            }),
            *final(self) == poisoned(*old(self), CommitId(old(self).writer.latest_commit_id)),
    {
        let commit: CommitId = CommitId(self.writer.latest_commit_id);
        self.poison(commit);
        PagedbError::DurablyCommittedButUnpublished { commit }
    }

    /// The journal that the durable header names, if it names one.
    pub fn retry_pending_apply_journal(&self) -> (journal: Option<[u8; 16]>)
        ensures
            journal == if all_zero(self.writer.pending_apply_journal_id@) {
                None::<[u8; 16]>
            } else {
                Some(self.writer.pending_apply_journal_id)
            },
    {
        if is_all_zero(self.writer.pending_apply_journal_id.as_slice()) {
            None
        } else {
            Some(self.writer.pending_apply_journal_id)
        }
    }

    /// Goes on once the journal was read and its actions were reconciled. The
    /// journal that could not be read, and actions that failed, leave the
    /// handle poisoned. Every promotion is complete before a deferred tombstone
    /// can be reported, so the target is published then, while the durable
    /// pointer keeps the rest retryable. When nothing is left to do, hands back
    /// the header that clears the journal.
    pub fn retry_pending_apply_journal_visible(
        &mut self,
        record_found: bool,
        reconciled: Result<SegmentReconciliation>,
        counter_anchor: u64,
    ) -> (r: Result<MainDbHeaderFields>)
        ensures
            poison_kept(*old(self), *final(self)),
            !record_found || reconciled is Err ==> {
                &&& r == Err::<MainDbHeaderFields, PagedbError>(
                    PagedbError::DurablyCommittedButUnpublished {
                        commit: CommitId(old(self).writer.latest_commit_id),
                    },
                )
                &&& *final(self) == poisoned(
                    *old(self),
                    CommitId(old(self).writer.latest_commit_id),
                )
            },
            record_found && reconciled is Ok && reconciled->Ok_0 is Deferred ==> {
                &&& r == Err::<MainDbHeaderFields, PagedbError>(
                    PagedbError::ReadersPinningTruncatedRange,
                )
                &&& *final(self) == (Db {
                    snapshot: snapshot_of(old(self).writer),
                    ..*old(self)
                })
            },
            record_found && reconciled is Ok && reconciled->Ok_0 is Complete ==> {
                &&& *final(self) == *old(self)
                &&& match r {
                    Ok(f) => {
                        &&& old(self).header_cursor.seq < u64::MAX
                        &&& is_cleared_header(
                            *old(self),
                            old(self).writer,
                            (old(self).header_cursor.seq + 1) as u64,
                            counter_anchor,
                            f,
                        )
                    },
                    Err(PagedbError::ArithmeticOverflow { what }) => what == "header sequence"
                        && old(self).header_cursor.seq == u64::MAX,
                    Err(e) => e == PagedbError::Unsupported && old(self).header_cursor.seq
                        < u64::MAX && !old(self).page_size_supported(),
                }
            },
    {
        if !record_found {
            return Err(self.journal_unpublished());
        }
        match reconciled {
            Err(_) => Err(self.journal_unpublished()),
            Ok(SegmentReconciliation::Deferred) => {
                let state: WriterState = self.writer;
                self.publish_snapshot(&state);
                Err(PagedbError::ReadersPinningTruncatedRange)
            },
            Ok(SegmentReconciliation::Complete) => {
                let seq: u64 = match self.header_cursor.next_seq() {
                    Ok(seq) => seq,
                    Err(e) => return Err(e),
                };
                match cleared_header_fields(self, &self.writer, seq, counter_anchor) {
                    Ok(fields) => Ok(fields),
                    Err(e) => Err(e),
                }
            },
        }
    }

    /// Goes on once the clearing header was attempted, and after it the nonce
    /// anchor. When both are durable the journal is no longer pending, the
    /// target is published, and the journal's file may be removed; its id is
    /// handed back for that. A failure of either leaves the handle poisoned.
    pub fn journal_cleared(&mut self, written: Option<(ActiveSlot, u64)>, anchored: bool) -> (r: Result<
        [u8; 16],
    >)
        ensures
            poison_kept(*old(self), *final(self)),
            written is None ==> {
                &&& r == Err::<[u8; 16], PagedbError>(
                    PagedbError::DurablyCommittedButUnpublished {
                        commit: CommitId(old(self).writer.latest_commit_id),
                    },
                )
                &&& *final(self) == poisoned(
                    *old(self),
                    CommitId(old(self).writer.latest_commit_id),
                )
            },
            written is Some && !anchored ==> {
                &&& r == Err::<[u8; 16], PagedbError>(
                    PagedbError::DurablyCommittedButUnpublished {
                        commit: CommitId(old(self).writer.latest_commit_id),
                    },
                )
                &&& *final(self) == poisoned(
                    Db {
                        header_cursor: cursor_at(written->0),
                        ..*old(self)
                    },
                    CommitId(old(self).writer.latest_commit_id),
                )
            },
            written is Some && anchored ==> {
                &&& r == Ok::<[u8; 16], PagedbError>(old(self).writer.pending_apply_journal_id)
                &&& all_zero(final(self).writer.pending_apply_journal_id@)
                &&& *final(self) == (Db {
                    header_cursor: cursor_at(written->0),
                    writer: WriterState {
                        pending_apply_journal_id: final(self).writer.pending_apply_journal_id,
                        ..old(self).writer
                    },
                    snapshot: snapshot_of(old(self).writer),
                    ..*old(self)
                })
            },
    {
        let journal: [u8; 16] = self.writer.pending_apply_journal_id;
        match written {
            None => Err(self.journal_unpublished()),
            Some((slot, seq)) => {
                self.header_cursor = HeaderCursor { slot, seq };
                if !anchored {
                    return Err(self.journal_unpublished());
                }
                self.writer.pending_apply_journal_id = [0u8; 16];
                let state: WriterState = self.writer;
                self.publish_snapshot(&state);
                Ok(journal)
            },
        }
    }
}

/// The clearing header records the state that the handle goes on with: a store
/// reopened from it finds the same roots and no journal to replay.
pub proof fn law_cleared_header_records_state(
    db: Db,
    state: WriterState,
    seq: u64,
    counter_anchor: u64,
    f: MainDbHeaderFields,
)
    requires
        is_cleared_header(db, state, seq, counter_anchor, f),
        all_zero(state.pending_apply_journal_id@),
    ensures
        records_state(f, state),
{
    reveal_with_fuel(le_bytes, 9);
    lemma_le_bytes_len(0, 8);
    assert(root_ref(0, 0) =~= state.pending_apply_journal_id@);
}

} // verus!
