//! Laws of readers: where they are pinned, how they end, and which of them a
//! backlog of deferred frees costs.

use vstd::prelude::*;

use crate::codec::{
    be_value, le_value, lemma_be_bytes_of_value, lemma_byte_range_8, lemma_le_bytes_of_value,
};
use crate::db::handle::{Db, TrackedReader};
use crate::db::history::{encode_history_key, law_history_key_order};
use crate::db::reader::{
    is_oldest_history_row, is_victim, lemma_oldest_pin, listed_first, oldest_pin,
    oldest_reader_commit, unregistered,
};
use crate::db::rekey::keyring::EpochKeyring;
use crate::errors::{PagedbError, Result};
use crate::ids::{CommitId, RealmId};
use crate::order::{has_prefix, lex_le, lex_lt};
use crate::policy::ReaderStallPolicy;
use crate::read::{are_rows, is_key_range, is_prefix_range, ReadTxn};
use crate::tree::{has_key, index_of_key, lemma_lookup_at, lookup, BTree};
use crate::write::commit::CommitPlan;
use crate::write::txn::WriteTxn;

use super::rekey::lemma_retired;

verus! {

/// A reader that the stall policy newly marks is the oldest that may be aborted:
/// it is registered, it may be aborted, no reader that may be aborted is pinned to
/// an older commit, and none before it in the list to as old a one. Nothing else
/// of the handle changes, and the commit may go on.
pub proof fn law_abort_takes_the_oldest_reader(db: &mut Db, backlog: u64, r: Result<()>, id: u64)
    requires
        call_ensures(Db::evaluate_stall_policy, (db, backlog), r),
        final(db).aborted_readers@.contains(id),
        !old(db).aborted_readers@.contains(id),
    ensures
        r is Ok,
        old(db).stall_policy is AbortOldest,
        backlog > old(db).options.reader_stall_threshold_pages,
        exists|v: int|
            {
                &&& 0 <= v < old(db).tracked_readers@.len()
                &&& (#[trigger] old(db).tracked_readers@[v]).entry_id == id
                &&& !old(db).tracked_readers@[v].non_abortable
                &&& forall|i: int|
                    0 <= i < old(db).tracked_readers@.len() && !(
                    #[trigger] old(db).tracked_readers@[i]).non_abortable
                        ==> old(db).tracked_readers@[v].commit_id.0
                        <= old(db).tracked_readers@[i].commit_id.0
                &&& forall|i: int|
                    0 <= i < v && !(#[trigger] old(db).tracked_readers@[i]).non_abortable
                        ==> old(db).tracked_readers@[v].commit_id.0
                        < old(db).tracked_readers@[i].commit_id.0
            },
        *final(db) == (Db { aborted_readers: final(db).aborted_readers, ..*old(db) }),
{
    let readers = old(db).tracked_readers@;
    let v = choose|v: int|
        {
            &&& #[trigger] is_victim(readers, v)
            &&& forall|x: u64|
                #[trigger] final(db).aborted_readers@.contains(x) <==> x == readers[v].entry_id
                    || old(db).aborted_readers@.contains(x)
        };
    assert(readers[v].entry_id == id);
}

/// Where every reader may be aborted, the reader that is newly marked is pinned
/// to the oldest commit that any reader is pinned to.
pub proof fn law_abort_frees_the_oldest_pin(
    db: &mut Db,
    readers: &Vec<TrackedReader>,
    backlog: u64,
    r: Result<()>,
    id: u64,
    oldest: Option<u64>,
)
    requires
        call_ensures(Db::evaluate_stall_policy, (db, backlog), r),
        final(db).aborted_readers@.contains(id),
        !old(db).aborted_readers@.contains(id),
        forall|i: int|
            0 <= i < old(db).tracked_readers@.len()
                ==> !(#[trigger] old(db).tracked_readers@[i]).non_abortable,
        *readers == old(db).tracked_readers,
        call_ensures(oldest_reader_commit, (readers,), oldest),
    ensures
        oldest is Some,
        exists|v: int|
            0 <= v < readers@.len() && (#[trigger] readers@[v]).entry_id == id
                && readers@[v].commit_id.0 == oldest->0,
        forall|i: int|
            0 <= i < readers@.len() ==> oldest->0 <= (#[trigger] readers@[i]).commit_id.0,
{
    law_abort_takes_the_oldest_reader(db, backlog, r, id);
    lemma_oldest_pin(readers@);
    let v = choose|v: int|
        {
            &&& 0 <= v < readers@.len()
            &&& (#[trigger] readers@[v]).entry_id == id
            &&& forall|i: int|
                0 <= i < readers@.len() && !(#[trigger] readers@[i]).non_abortable
                    ==> readers@[v].commit_id.0 <= readers@[i].commit_id.0
        };
    let w = choose|i: int|
        0 <= i < readers@.len() && (#[trigger] readers@[i]).commit_id.0 == oldest_pin(readers@)->0;
    assert(readers@[w].commit_id.0 <= readers@[v].commit_id.0);
    assert(readers@[v].commit_id.0 == oldest->0);
}

/// When a backlog calls for a reaction and what it is: a small backlog, a policy
/// that lets it grow, or no reader at all lets the commit go on and changes nothing.
/// Otherwise a reader that may be aborted is marked, unless the policy is to reject
/// or there is none: then the commit is refused, with the backlog and the oldest
/// commit that a reader is pinned to, and nothing changes.
pub proof fn law_backlog_reaction(db: &mut Db, backlog: u64, r: Result<()>)
    requires
        call_ensures(Db::evaluate_stall_policy, (db, backlog), r),
    ensures
        ({
            let calm = backlog <= old(db).options.reader_stall_threshold_pages
                || old(db).stall_policy is Unbounded || old(db).tracked_readers@.len() == 0;
            let may_abort = old(db).stall_policy is AbortOldest && exists|i: int|
                0 <= i < old(db).tracked_readers@.len() && !(
                #[trigger] old(db).tracked_readers@[i]).non_abortable;
            &&& calm ==> r is Ok && *final(db) == *old(db)
            &&& !calm && may_abort ==> r is Ok && exists|v: int|
                0 <= v < old(db).tracked_readers@.len() && final(db).aborted_readers@.contains(
                    (#[trigger] old(db).tracked_readers@[v]).entry_id,
                ) && !old(db).tracked_readers@[v].non_abortable
            &&& !calm && !may_abort ==> {
                &&& *final(db) == *old(db)
                &&& r is Err
                &&& r->Err_0 is DeferredFreeBacklog
                &&& r->Err_0->pending == backlog
                &&& forall|i: int|
                    0 <= i < old(db).tracked_readers@.len() ==> r->Err_0->oldest_commit <= (
                    #[trigger] old(db).tracked_readers@[i]).commit_id.0
                &&& exists|i: int|
                    0 <= i < old(db).tracked_readers@.len() && (
                    #[trigger] old(db).tracked_readers@[i]).commit_id.0 == r->Err_0->oldest_commit
            }
        }),
        forall|id: u64|
            old(db).aborted_readers@.contains(id) ==> #[trigger] final(db).aborted_readers@.contains(id),
{
    lemma_oldest_pin(old(db).tracked_readers@);
}

/// The oldest reader's commit is the least that any reader is pinned to, and there
/// is one where there is a reader.
pub proof fn law_oldest_reader_is_least(
    readers: &Vec<TrackedReader>,
    oldest: Option<u64>,
    i: int,
)
    requires
        call_ensures(oldest_reader_commit, (readers,), oldest),
    ensures
        oldest is None <==> readers@.len() == 0,
        0 <= i < readers@.len() ==> oldest->0 <= readers@[i].commit_id.0,
        oldest is Some ==> exists|j: int|
            0 <= j < readers@.len() && (#[trigger] readers@[j]).commit_id.0 == oldest->0,
{
    lemma_oldest_pin(readers@);
    if 0 <= i < readers@.len() {
        let r = readers@[i];
    }
}

/// Whether a commit is refused for the backlog rests on the frees that it found
/// queued: those that it was told of after queueing its own, or, where it queues
/// none, as many as the queue has sixteen-byte entries.
pub proof fn law_commit_is_held_to_the_backlog(
    txn: &WriteTxn,
    db: &mut Db,
    plan: &CommitPlan,
    written: u64,
    queued_bytes: Option<u64>,
    r: Result<()>,
)
    requires
        call_ensures(WriteTxn::check_backlog, (txn, db, plan, written, queued_bytes), r),
    ensures
        ({
            let queues = plan.freed@.len() > 0 && !plan.to_cache;
            let threshold = old(db).options.reader_stall_threshold_pages;
            let over = if queues {
                written > threshold
            } else {
                queued_bytes is Some && queued_bytes->0 >= 16 * (threshold + 1)
            };
            let abortable = exists|i: int|
                0 <= i < old(db).tracked_readers@.len() && !(
                #[trigger] old(db).tracked_readers@[i]).non_abortable;
            &&& r is Err <==> over && old(db).tracked_readers@.len() > 0 && !(old(db).stall_policy is Unbounded) && !(old(db).stall_policy is AbortOldest && abortable)
            &&& r is Err ==> r->Err_0 is DeferredFreeBacklog && *final(db) == *old(db)
            &&& r is Err && queues ==> r->Err_0->pending == written
            &&& r is Err && !queues ==> 16 * r->Err_0->pending <= queued_bytes->0 < 16 * (
            r->Err_0->pending + 1)
            &&& !over ==> *final(db) == *old(db)
        }),
{
}

/// A reader begins at what is published: its commit, its roots and its cursor are
/// those of the handle's snapshot, it is listed with them, abortable or not as it
/// was asked for, under a number that the handle counts up from, and nothing else of
/// the handle changes. Only a poisoned handle refuses.
pub proof fn law_reader_begins_at_the_snapshot(
    db: &mut Db,
    r: Result<ReadTxn>,
    other: &mut Db,
    s: Result<ReadTxn>,
)
    requires
        call_ensures(Db::begin_read, (db,), r),
        call_ensures(Db::begin_read_non_abortable, (other,), s),
        *old(other) == *old(db),
    ensures
        r is Ok <==> old(db).poisoned_commit is None,
        r is Err ==> *final(db) == *old(db) && r->Err_0
            == (PagedbError::DurablyCommittedButUnpublished {
            commit: old(db).poisoned_commit->0,
        }),
        r is Ok ==> {
            let txn = r->Ok_0;
            let listed = final(db).tracked_readers@;
            &&& txn.commit_id.0 == old(db).snapshot.commit_id
            &&& txn.root_page_id == old(db).snapshot.root_page_id
            &&& txn.next_page_id == old(db).snapshot.next_page_id
            &&& txn.catalog_root_page_id == old(db).snapshot.catalog_root_page_id
            &&& txn.realm_id == old(db).realm_id
            &&& txn.durable_pin is None
            &&& txn.entry_id == old(db).reader_seq
            &&& txn.entry_id < u64::MAX ==> final(db).reader_seq == txn.entry_id + 1
            &&& txn.entry_id == u64::MAX ==> final(db).reader_seq == 0
            &&& listed.len() == old(db).tracked_readers@.len() + 1
            &&& listed.drop_last() == old(db).tracked_readers@
            &&& listed.last().entry_id == txn.entry_id
            &&& listed.last().commit_id == txn.commit_id
            &&& listed.last().root_page_id == txn.root_page_id
            &&& listed.last().next_page_id == txn.next_page_id
            &&& listed.last().catalog_root_page_id == txn.catalog_root_page_id
            &&& !listed.last().non_abortable
            &&& *final(db) == (Db {
                tracked_readers: final(db).tracked_readers,
                reader_seq: final(db).reader_seq,
                ..*old(db)
            })
            &&& s == r
            &&& final(other).reader_seq == final(db).reader_seq
            &&& final(other).tracked_readers@ == listed.drop_last().push(
                TrackedReader { non_abortable: true, ..listed.last() },
            )
            &&& *final(other) == (Db {
                tracked_readers: final(other).tracked_readers,
                reader_seq: final(other).reader_seq,
                ..*old(db)
            })
        },
        r is Err ==> s == r && *final(other) == *old(other),
{
    if r is Ok {
        assert(final(db).tracked_readers@.drop_last() =~= old(db).tracked_readers@);
    }
}

/// Two readers that begin one after the other have different numbers.
pub proof fn law_readers_have_numbers_of_their_own(
    first: &mut Db,
    a: ReadTxn,
    second: &mut Db,
    b: ReadTxn,
)
    requires
        call_ensures(Db::begin_read, (first,), Ok::<ReadTxn, PagedbError>(a)),
        *old(second) == *final(first),
        call_ensures(Db::begin_read, (second,), Ok::<ReadTxn, PagedbError>(b)),
    ensures
        a.entry_id != b.entry_id,
        a.root_page_id == b.root_page_id,
        a.commit_id == b.commit_id,
{
}

/// A reader at the published commit needs no history: it begins as one that asks
/// for no commit. One at another commit gets what the history's row for it holds,
/// the data root in the first eight bytes, the catalog root in the next, the cursor
/// in the fourth eight. Without a row the commit is gone.
pub proof fn law_reading_at_a_commit(
    db: &mut Db,
    commit: CommitId,
    history: &BTree<Vec<u8>>,
    r: Result<ReadTxn>,
    key: Vec<u8>,
)
    requires
        call_ensures(Db::begin_read_at, (db, commit, history), r),
        call_ensures(encode_history_key, (commit.0,), key),
        old(db).poisoned_commit is None,
    ensures
        commit.0 == old(db).snapshot.commit_id ==> {
            &&& r is Ok
            &&& r->Ok_0.root_page_id == old(db).snapshot.root_page_id
            &&& r->Ok_0.next_page_id == old(db).snapshot.next_page_id
            &&& r->Ok_0.catalog_root_page_id == old(db).snapshot.catalog_root_page_id
        },
        commit.0 != old(db).snapshot.commit_id && old(db).snapshot.commit_history_root_page_id == 0
            ==> r == Err::<ReadTxn, PagedbError>(
            PagedbError::CommitGone {
                commit,
                oldest_available: CommitId(old(db).snapshot.commit_id),
            },
        ),
        commit.0 != old(db).snapshot.commit_id && old(db).snapshot.commit_history_root_page_id != 0
            ==> match lookup(history@, key@) {
            Some(value) => if value.len() >= 40 {
                &&& r is Ok
                &&& r->Ok_0.root_page_id == le_value(value.subrange(0, 8))
                &&& r->Ok_0.catalog_root_page_id == le_value(value.subrange(8, 16))
                &&& r->Ok_0.next_page_id == le_value(value.subrange(24, 32))
            } else {
                r is Err && r->Err_0 is Corruption
            },
            None => {
                &&& r is Err
                &&& r->Err_0 is CommitGone
                &&& r->Err_0->CommitGone_commit == commit
            },
        },
        r is Ok ==> {
            &&& r->Ok_0.commit_id == commit
            &&& final(db).tracked_readers@.len() == old(db).tracked_readers@.len() + 1
            &&& final(db).tracked_readers@.last().commit_id == commit
            &&& final(db).tracked_readers@.last().entry_id == r->Ok_0.entry_id
            &&& !final(db).tracked_readers@.last().non_abortable
        },
        r is Err ==> *final(db) == *old(db),
{
    if let Some(value) = lookup(history@, key@) {
        if value.len() >= 40 {
            lemma_le_8(value.subrange(0, 8));
            lemma_le_8(value.subrange(8, 16));
            lemma_le_8(value.subrange(24, 32));
        }
    }
}

/// A commit that is gone is answered with the oldest that the history still has:
/// where every key is a commit's number, the least of them that is not the greatest
/// number there is.
pub proof fn law_gone_commit_names_the_oldest(
    db: &mut Db,
    commit: CommitId,
    history: &BTree<Vec<u8>>,
    r: Result<ReadTxn>,
    key: Vec<u8>,
)
    requires
        history.wf(),
        call_ensures(Db::begin_read_at, (db, commit, history), r),
        call_ensures(encode_history_key, (commit.0,), key),
        old(db).poisoned_commit is None,
        commit.0 != old(db).snapshot.commit_id,
        old(db).snapshot.commit_history_root_page_id != 0,
        !has_key(history@, key@),
        history@.len() > 0,
        history@[0].0.len() == 8,
        be_value(history@[0].0) < u64::MAX,
    ensures
        r is Err,
        r->Err_0 is CommitGone,
        r->Err_0->oldest_available.0 == be_value(history@[0].0),
{
    let first = history@[0].0;
    lemma_be_bytes_of_value(first);
    lemma_byte_range_8();
    law_history_key_order(0, be_value(first) as u64);
    law_history_key_order(be_value(first) as u64, u64::MAX);
    assert(is_oldest_history_row(history@, 0));
    assert(first.subrange(0, 8) =~= first);
}

proof fn lemma_le_8(s: Seq<u8>)
    requires
        s.len() == 8,
    ensures
        le_value(s) <= u64::MAX,
{
    lemma_le_bytes_of_value(s);
    lemma_byte_range_8();
}

/// Closing a reader takes it off the list and no other: where the numbers are the
/// readers' own, each other reader is still listed as it was, and the closed one is
/// not. A durable pin that it has is queued to be deleted, behind what is queued.
pub proof fn law_closing_takes_one_reader_off(
    txn: ReadTxn,
    db: &mut Db,
    unit: (),
    other: TrackedReader,
)
    requires
        call_ensures(ReadTxn::close, (txn, db), unit),
        forall|i: int, j: int|
            #![trigger old(db).tracked_readers@[i], old(db).tracked_readers@[j]]
            0 <= i < j < old(db).tracked_readers@.len() ==> old(db).tracked_readers@[i].entry_id
                != old(db).tracked_readers@[j].entry_id,
    ensures
        final(db).tracked_readers@.contains(other) <==> old(db).tracked_readers@.contains(other)
            && other.entry_id != txn.entry_id,
        final(db).pending_pin_deletes@.len() == old(db).pending_pin_deletes@.len() + if txn.durable_pin
            is Some {
            1int
        } else {
            0int
        },
        txn.durable_pin is Some ==> final(db).pending_pin_deletes@.last() == txn.durable_pin->0,
        forall|i: int|
            0 <= i < old(db).pending_pin_deletes@.len()
                ==> #[trigger] final(db).pending_pin_deletes@[i] == old(db).pending_pin_deletes@[i],
        final(db).aborted_readers == old(db).aborted_readers,
        final(db).snapshot == old(db).snapshot,
        final(db).writer == old(db).writer,
{
    let before = old(db).tracked_readers@;
    let after = final(db).tracked_readers@;
    lemma_unregistered(before, txn.entry_id, after, other);
}

proof fn lemma_unregistered(
    before: Seq<TrackedReader>,
    entry_id: u64,
    after: Seq<TrackedReader>,
    other: TrackedReader,
)
    requires
        unregistered(before, entry_id, after),
        forall|i: int, j: int|
            #![trigger before[i], before[j]]
            0 <= i < j < before.len() ==> before[i].entry_id != before[j].entry_id,
    ensures
        after.contains(other) <==> before.contains(other) && other.entry_id != entry_id,
{
    if exists|p: int| listed_first(before, entry_id, p) {
        let p = choose|p: int|
            #[trigger] listed_first(before, entry_id, p) && after == before.update(
                p,
                before.last(),
            ).drop_last();
        let n = before.len() - 1;
        if before.contains(other) && other.entry_id != entry_id {
            let i = choose|i: int| 0 <= i < before.len() && before[i] == other;
            if i == n {
                assert(after[p] == other);
            } else {
                assert(after[i] == other);
            }
        }
        if after.contains(other) {
            let i = choose|i: int| 0 <= i < after.len() && after[i] == other;
            if i == p {
                assert(before[n] == other);
                assert(before[p].entry_id != before[n].entry_id);
            } else {
                assert(before[i] == other);
                assert(before[p].entry_id == entry_id);
                if i < p {
                    assert(before[i].entry_id != before[p].entry_id);
                } else {
                    assert(before[p].entry_id != before[i].entry_id);
                }
            }
        }
    } else if before.contains(other) && other.entry_id == entry_id {
        let i = choose|i: int| 0 <= i < before.len() && before[i] == other;
        lemma_first_listed(before, entry_id, i);
    }
}

proof fn lemma_first_listed(readers: Seq<TrackedReader>, entry_id: u64, i: int)
    requires
        0 <= i < readers.len(),
        readers[i].entry_id == entry_id,
    ensures
        exists|p: int| listed_first(readers, entry_id, p),
    decreases i,
{
    if exists|j: int| 0 <= j < i && (#[trigger] readers[j]).entry_id == entry_id {
        let j = choose|j: int| 0 <= j < i && (#[trigger] readers[j]).entry_id == entry_id;
        lemma_first_listed(readers, entry_id, j);
    } else {
        assert(listed_first(readers, entry_id, i));
    }
}

/// A reader that is marked fails once: its next operation is refused as aborted and
/// takes the mark off, so that the one after it goes on. The marks of others stay.
pub proof fn law_abort_is_told_once(
    txn: &ReadTxn,
    db: &mut Db,
    tree: &BTree<Vec<u8>>,
    key: &[u8],
    r: Result<Option<Vec<u8>>>,
    again: &mut Db,
    s: Result<()>,
    other: u64,
)
    requires
        call_ensures(ReadTxn::get, (txn, db, tree, key), r),
        *old(again) == *final(db),
        call_ensures(ReadTxn::check_abort, (txn, again), s),
    ensures
        old(db).aborted_readers@.contains(txn.entry_id) <==> r == Err::<
            Option<Vec<u8>>,
            PagedbError,
        >(PagedbError::Aborted),
        r is Err ==> old(db).aborted_readers@.contains(txn.entry_id),
        s is Ok,
        other != txn.entry_id ==> (final(db).aborted_readers@.contains(other) <==> old(db).aborted_readers@.contains(other)),
        *final(db) == (Db { aborted_readers: final(db).aborted_readers, ..*old(db) }),
{
}

/// What a reader gets for a key is the value of the row with that key, and nothing
/// where there is no such row or no tree.
pub proof fn law_get_finds_the_row(
    txn: &ReadTxn,
    db: &mut Db,
    tree: &BTree<Vec<u8>>,
    key: &[u8],
    read: Option<Vec<u8>>,
    i: int,
)
    requires
        tree.wf(),
        call_ensures(
            ReadTxn::get,
            (txn, db, tree, key),
            Ok::<Option<Vec<u8>>, PagedbError>(read),
        ),
    ensures
        read is Some ==> txn.root_page_id != 0 && tree@.contains((key@, read->0@)),
        txn.root_page_id != 0 && 0 <= i < tree@.len() && tree@[i].0 == key@ ==> read is Some
            && read->0@ == tree@[i].1,
{
    if has_key(tree@, key@) {
        let j = index_of_key(tree@, key@);
        assert(tree@[j] == (key@, tree@[j].1));
        if 0 <= i < tree@.len() && tree@[i].0 == key@ {
            lemma_lookup_at(tree@, i);
        }
    }
}

/// A scan gives the rows from the first key up to but not including the second,
/// each once and in order; in reverse it gives the same rows the other way round.
pub proof fn law_scans_give_the_range(
    txn: &ReadTxn,
    db: &mut Db,
    tree: &BTree<Vec<u8>>,
    start: &[u8],
    end: &[u8],
    out: Vec<(Vec<u8>, Vec<u8>)>,
    back: &mut Db,
    rev: Vec<(Vec<u8>, Vec<u8>)>,
)
    requires
        tree.wf(),
        call_ensures(
            ReadTxn::scan,
            (txn, db, tree, start, end),
            Ok::<Vec<(Vec<u8>, Vec<u8>)>, PagedbError>(out),
        ),
        call_ensures(
            ReadTxn::scan_rev,
            (txn, back, tree, start, end),
            Ok::<Vec<(Vec<u8>, Vec<u8>)>, PagedbError>(rev),
        ),
    ensures
        forall|i: int|
            #![trigger out@[i]]
            0 <= i < out@.len() ==> {
                &&& lex_le(start@, out@[i].0@)
                &&& lex_lt(out@[i].0@, end@)
                &&& tree@.contains((out@[i].0@, out@[i].1@))
            },
        forall|i: int, j: int|
            #![trigger out@[i], out@[j]]
            0 <= i < j < out@.len() ==> lex_lt(out@[i].0@, out@[j].0@),
        forall|j: int|
            #![trigger tree@[j]]
            0 <= j < tree@.len() && lex_le(start@, tree@[j].0) && lex_lt(tree@[j].0, end@)
                ==> exists|i: int|
                0 <= i < out@.len() && (#[trigger] out@[i]).0@ == tree@[j].0 && out@[i].1@
                    == tree@[j].1,
        rev@.len() == out@.len(),
        forall|i: int|
            #![trigger rev@[i]]
            0 <= i < rev@.len() ==> rev@[i].0@ == out@[out@.len() - 1 - i].0@ && rev@[i].1@
                == out@[out@.len() - 1 - i].1@,
{
    let (lo, hi) = choose|lo: int, hi: int|
        #[trigger] is_key_range(tree@, start@, end@, lo, hi) && are_rows(
            out@,
            tree@.subrange(lo, hi),
        );
    let (lo2, hi2) = choose|lo2: int, hi2: int|
        #[trigger] is_key_range(tree@, start@, end@, lo2, hi2) && are_rows(
            rev@,
            tree@.subrange(lo2, hi2).reverse(),
        );
    let rows = tree@.subrange(lo, hi);
    assert forall|i: int| #![trigger out@[i]] 0 <= i < out@.len() implies {
        &&& lex_le(start@, out@[i].0@)
        &&& lex_lt(out@[i].0@, end@)
        &&& tree@.contains((out@[i].0@, out@[i].1@))
    } by {
        assert(rows[i] == tree@[lo + i]);
        assert(tree@[lo + i] == (out@[i].0@, out@[i].1@));
    }
    assert forall|i: int, j: int| #![trigger out@[i], out@[j]] 0 <= i < j < out@.len() implies lex_lt(
        out@[i].0@,
        out@[j].0@,
    ) by {
        assert(rows[i] == tree@[lo + i]);
        assert(rows[j] == tree@[lo + j]);
    }
    assert forall|j: int|
        #![trigger tree@[j]]
        0 <= j < tree@.len() && lex_le(start@, tree@[j].0) && lex_lt(
            tree@[j].0,
            end@,
        ) implies exists|i: int|
        0 <= i < out@.len() && (#[trigger] out@[i]).0@ == tree@[j].0 && out@[i].1@
            == tree@[j].1 by {
        assert(rows[j - lo] == tree@[j]);
        assert(out@[j - lo].0@ == tree@[j].0);
    }
    assert(lo < hi || lo2 < hi2 ==> lo == lo2 && hi == hi2) by {
        if lo < hi {
            let a = tree@[lo];
            let b = tree@[hi - 1];
            if lo2 < hi2 {
                let c = tree@[lo2];
                let d = tree@[hi2 - 1];
            }
        } else if lo2 < hi2 {
            let c = tree@[lo2];
        }
    }
    assert forall|i: int| #![trigger rev@[i]] 0 <= i < rev@.len() implies rev@[i].0@
        == out@[out@.len() - 1 - i].0@ && rev@[i].1@ == out@[out@.len() - 1 - i].1@ by {
        let o = out@[out@.len() - 1 - i];
    }
}

/// A prefix scan gives the rows whose key begins with the prefix, byte for byte,
/// each once and in order.
pub proof fn law_prefix_scan_gives_the_prefix(
    txn: &ReadTxn,
    db: &mut Db,
    tree: &BTree<Vec<u8>>,
    prefix: &[u8],
    out: Vec<(Vec<u8>, Vec<u8>)>,
)
    requires
        tree.wf(),
        call_ensures(
            ReadTxn::scan_prefix,
            (txn, db, tree, prefix),
            Ok::<Vec<(Vec<u8>, Vec<u8>)>, PagedbError>(out),
        ),
    ensures
        forall|i: int, b: int|
            #![trigger out@[i], prefix@[b]]
            0 <= i < out@.len() && 0 <= b < prefix@.len() ==> b < out@[i].0@.len()
                && out@[i].0@[b] == prefix@[b],
        forall|i: int|
            #![trigger out@[i]]
            0 <= i < out@.len() ==> tree@.contains((out@[i].0@, out@[i].1@)),
        forall|i: int, j: int|
            #![trigger out@[i], out@[j]]
            0 <= i < j < out@.len() ==> lex_lt(out@[i].0@, out@[j].0@),
        forall|j: int|
            #![trigger tree@[j]]
            0 <= j < tree@.len() && tree@[j].0.len() >= prefix@.len() && tree@[j].0.take(
                prefix@.len() as int,
            ) == prefix@ ==> exists|i: int|
                0 <= i < out@.len() && (#[trigger] out@[i]).0@ == tree@[j].0 && out@[i].1@
                    == tree@[j].1,
{
    let (lo, hi) = choose|lo: int, hi: int|
        #[trigger] is_prefix_range(tree@, prefix@, lo, hi) && are_rows(
            out@,
            tree@.subrange(lo, hi),
        );
    let rows = tree@.subrange(lo, hi);
    assert forall|i: int| #![trigger out@[i]] 0 <= i < out@.len() implies tree@.contains(
        (out@[i].0@, out@[i].1@),
    ) && has_prefix(out@[i].0@, prefix@) by {
        assert(rows[i] == tree@[lo + i]);
        assert(tree@[lo + i] == (out@[i].0@, out@[i].1@));
    }
    assert forall|i: int, b: int|
        #![trigger out@[i], prefix@[b]]
        0 <= i < out@.len() && 0 <= b < prefix@.len() implies b < out@[i].0@.len()
        && out@[i].0@[b] == prefix@[b] by {
        let k = out@[i].0@;
        assert(k.subrange(0, prefix@.len() as int)[b] == k[b]);
    }
    assert forall|i: int, j: int| #![trigger out@[i], out@[j]] 0 <= i < j < out@.len() implies lex_lt(
        out@[i].0@,
        out@[j].0@,
    ) by {
        assert(rows[i] == tree@[lo + i]);
        assert(rows[j] == tree@[lo + j]);
    }
    assert forall|j: int|
        #![trigger tree@[j]]
        0 <= j < tree@.len() && tree@[j].0.len() >= prefix@.len() && tree@[j].0.take(
            prefix@.len() as int,
        ) == prefix@ implies exists|i: int|
        0 <= i < out@.len() && (#[trigger] out@[i]).0@ == tree@[j].0 && out@[i].1@
            == tree@[j].1 by {
        assert(tree@[j].0.subrange(0, prefix@.len() as int) =~= prefix@);
        assert(rows[j - lo] == tree@[j]);
        assert(out@[j - lo].0@ == tree@[j].0);
    }
}

/// A write session begins on a usable handle that takes user writes, and on no
/// other. It takes over the scratch files that earlier sessions left.
pub proof fn law_only_a_writer_begins_to_write(db: &mut Db, r: Result<Vec<String>>)
    requires
        call_ensures(Db::begin_write, (db,), r),
    ensures
        r is Ok <==> old(db).poisoned_commit is None && old(db).mode is Standalone,
        r is Ok ==> r->Ok_0@ == old(db).orphaned_spill_paths@ && final(db).orphaned_spill_paths@.len() == 0,
        r is Err ==> *final(db) == *old(db),
        old(db).poisoned_commit is Some ==> r == Err::<Vec<String>, PagedbError>(
            PagedbError::DurablyCommittedButUnpublished { commit: old(db).poisoned_commit->0 },
        ),
        old(db).poisoned_commit is None && !(old(db).mode is Standalone) ==> r == Err::<
            Vec<String>,
            PagedbError,
        >(PagedbError::ReadOnly),
        final(db).writer == old(db).writer,
        final(db).tracked_readers == old(db).tracked_readers,
{
}

/// What the handle says of itself is what it holds, and a stall policy that is set
/// is the one in force.
pub proof fn law_handle_tells_what_it_holds(
    db: &Db,
    latest: CommitId,
    next: u64,
    changed: &mut Db,
    policy: ReaderStallPolicy,
    unit: (),
    after: &Db,
    read: ReaderStallPolicy,
)
    requires
        call_ensures(Db::latest_commit, (db,), latest),
        call_ensures(Db::next_page_id, (db,), next),
        call_ensures(Db::set_reader_stall_policy, (changed, policy), unit),
        *after == *final(changed),
        call_ensures(Db::reader_stall_policy, (after,), read),
    ensures
        latest.0 == db.snapshot.commit_id,
        next == db.snapshot.next_page_id,
        read == policy,
        *final(changed) == (Db { stall_policy: policy, ..*old(changed) }),
{
}

/// A reader is listed as it is registered and is taken off by its number; the mark
/// that it is to be aborted is taken with it, once.
pub proof fn law_reader_is_registered(
    db: &mut Db,
    commit: CommitId,
    root: u64,
    next: u64,
    catalog: u64,
    non_abortable: bool,
    txn: ReadTxn,
    undone: &mut Db,
    unit: (),
    marked: &mut Db,
    entry: u64,
    aborted: bool,
    other: u64,
)
    requires
        call_ensures(
            Db::register_read,
            (db, commit, root, next, catalog, non_abortable),
            txn,
        ),
        forall|i: int|
            0 <= i < old(db).tracked_readers@.len() ==> (
            #[trigger] old(db).tracked_readers@[i]).entry_id != old(db).reader_seq,
        *old(undone) == *final(db),
        call_ensures(Db::unregister_read, (undone, txn.entry_id), unit),
        call_ensures(Db::take_reader_abort, (marked, entry), aborted),
    ensures
        txn.commit_id == commit && txn.root_page_id == root && txn.next_page_id == next
            && txn.catalog_root_page_id == catalog,
        final(db).tracked_readers@.len() == old(db).tracked_readers@.len() + 1,
        final(db).tracked_readers@.last() == (TrackedReader {
            entry_id: txn.entry_id,
            commit_id: commit,
            root_page_id: root,
            next_page_id: next,
            catalog_root_page_id: catalog,
            non_abortable,
        }),
        final(undone).tracked_readers@ == old(db).tracked_readers@,
        *final(undone) == (Db { tracked_readers: final(undone).tracked_readers, ..*final(db) }),
        aborted <==> old(marked).aborted_readers@.contains(entry),
        final(marked).aborted_readers@.contains(other) <==> old(marked).aborted_readers@.contains(other)
            && other != entry,
        *final(marked) == (Db { aborted_readers: final(marked).aborted_readers, ..*old(marked) }),
{
    crate::db::reader::law_closing_undoes_registration(
        old(db).tracked_readers@,
        final(db).tracked_readers@.last(),
        final(undone).tracked_readers@,
    );
}

/// A reader says what it is pinned to, and carries its durable pin.
pub proof fn law_reader_says_what_it_is(
    txn: ReadTxn,
    commit: CommitId,
    root: u64,
    catalog: u64,
    next: u64,
    realm: RealmId,
    pid: u32,
    lease: u64,
    pinned: ReadTxn,
)
    requires
        call_ensures(ReadTxn::commit_id, (&txn,), commit),
        call_ensures(ReadTxn::root_page_id, (&txn,), root),
        call_ensures(ReadTxn::catalog_root_page_id, (&txn,), catalog),
        call_ensures(ReadTxn::next_page_id, (&txn,), next),
        call_ensures(ReadTxn::realm_id, (&txn,), realm),
        call_ensures(ReadTxn::with_durable_pin, (txn, pid, lease), pinned),
    ensures
        commit == txn.commit_id,
        root == txn.root_page_id,
        catalog == txn.catalog_root_page_id,
        next == txn.next_page_id,
        realm == txn.realm_id,
        pinned.durable_pin == Some((pid, lease)),
        pinned == (ReadTxn { durable_pin: pinned.durable_pin, ..txn }),
{
}

/// A reader that ends is taken off the list as one that is closed; keys that were kept
/// for readers go with the last of them, and stay while there is another.
pub proof fn law_last_reader_lets_the_keys_go(
    txn: ReadTxn,
    db: &mut Db,
    ring: &mut EpochKeyring,
    unit: (),
    other: TrackedReader,
    id: (u64, u8),
    i: int,
)
    requires
        old(ring).wf(),
        call_ensures(ReadTxn::end, (txn, db, ring), unit),
        forall|i: int, j: int|
            #![trigger old(db).tracked_readers@[i], old(db).tracked_readers@[j]]
            0 <= i < j < old(db).tracked_readers@.len() ==> old(db).tracked_readers@[i].entry_id
                != old(db).tracked_readers@[j].entry_id,
    ensures
        final(db).tracked_readers@.contains(other) <==> old(db).tracked_readers@.contains(other)
            && other.entry_id != txn.entry_id,
        txn.durable_pin is Some ==> final(db).pending_pin_deletes@ == old(db).pending_pin_deletes@.push(txn.durable_pin->0),
        txn.durable_pin is None ==> final(db).pending_pin_deletes@ == old(db).pending_pin_deletes@,
        final(db).tracked_readers@.len() > 0 ==> final(ring)@ == old(ring)@
            && final(db).pending_key_retirements == old(db).pending_key_retirements,
        final(db).tracked_readers@.len() == 0 ==> {
            &&& final(db).pending_key_retirements@.len() == 0
            &&& 0 <= i < old(db).pending_key_retirements@.len() ==> !final(ring)@.dom().contains(
                (
                    old(db).pending_key_retirements@[i].epoch,
                    old(db).pending_key_retirements@[i].cipher_id.byte(),
                ),
            )
            &&& old(ring)@.dom().contains(id) && (forall|j: int|
                0 <= j < old(db).pending_key_retirements@.len() ==> (
                #[trigger] old(db).pending_key_retirements@[j]).epoch != id.0) ==> final(ring)@.dom().contains(id)
                && final(ring)@[id] == old(ring)@[id]
        },
        final(db).writer == old(db).writer && final(db).snapshot == old(db).snapshot,
        final(db).aborted_readers == old(db).aborted_readers,
{
    lemma_unregistered(
        old(db).tracked_readers@,
        txn.entry_id,
        final(db).tracked_readers@,
        other,
    );
    lemma_retired(old(db).pending_key_retirements@, id, i);
}

} // verus!
