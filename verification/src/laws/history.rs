//! Laws of the commit history: what a commit adds to it, what pruning takes off,
//! and what stays.

use vstd::prelude::*;

use crate::codec::{
    be_value, le_value, lemma_be_bytes_of_value, lemma_byte_range_8, lemma_le_bytes_len,
    lemma_le_bytes_of_value,
};
use crate::db::handle::{Db, WriterState};
use crate::db::history::{
    adopt_history_pages, age_threshold, age_verdict, all_prunable_by_age, count_history_rows,
    decode_commit_meta, encode_commit_meta, encode_history_key, excess_over, history_key,
    history_outcome, is_bad_key, is_prune_point, law_commit_meta_round_trip, law_history_key_order,
    lemma_oldest_retained_is_least, meta_bytes, prune_history_by_age, prune_oldest_history_rows,
    rows_known, CommitHistoryMeta,
};
use crate::db::history_carry::{adopt_relocated_history, CarriedHistory, CarryDecision};
use crate::db::pending::PendingWriterState;
use crate::db::reader::{lemma_oldest_pin, oldest_pin};
use crate::errors::{PagedbError, Result};
use crate::options::RetainPolicy;
use crate::order::{lemma_lex_asymmetric, lemma_lex_irreflexive, lex_lt};
use crate::sets::PageSet;
use crate::tree::{
    ascending, has_key, index_of_key, lemma_lookup_at, lemma_slot, lemma_slot_exists,
    lemma_with_row, lookup, slot_of_key, with_row, BTree, TreePages,
};

use super::commit::lemma_allocatable_is_filter;

verus! {

/// A row that pruning stopped at or before is still there; one before is gone.
pub proof fn lemma_skipped<V>(stored: Seq<(Seq<u8>, V)>, d: int, key: Seq<u8>)
    requires
        ascending(stored),
        0 <= d <= stored.len(),
    ensures
        ascending(stored.skip(d)),
        has_key(stored, key) ==> {
            &&& lookup(stored.skip(d), key) == if index_of_key(stored, key) >= d {
                lookup(stored, key)
            } else {
                None
            }
        },
        !has_key(stored, key) ==> lookup(stored.skip(d), key) is None,
{
    let after = stored.skip(d);
    assert forall|a: int, b: int| #![trigger after[a], after[b]] 0 <= a < b < after.len() implies lex_lt(
        after[a].0,
        after[b].0,
    ) by {
        assert(after[a] == stored[a + d]);
        assert(after[b] == stored[b + d]);
    }
    if has_key(stored, key) {
        let i = index_of_key(stored, key);
        if i >= d {
            assert(after[i - d] == stored[i]);
            lemma_lookup_at(after, i - d);
        } else if has_key(after, key) {
            let j = index_of_key(after, key);
            assert(after[j] == stored[j + d]);
            lemma_lookup_at(stored, j + d);
        }
    } else if has_key(after, key) {
        let j = index_of_key(after, key);
        assert(after[j] == stored[j + d]);
    }
}

/// Whether `d` rows were taken off the front of the history, `stored` being what
/// it was with the new entry.
pub open spec fn pruned(
    policy: RetainPolicy,
    stored: Seq<(Seq<u8>, Seq<u8>)>,
    new_key: Seq<u8>,
    total: u64,
    pin: Option<u64>,
    now: u64,
    after: Seq<(Seq<u8>, Seq<u8>)>,
    d: int,
) -> bool {
    &&& 0 <= d <= stored.len()
    &&& after == stored.skip(d)
    &&& policy is Unbounded || policy is Disabled ==> d == 0
    &&& policy matches RetainPolicy::Count(n) ==> is_prune_point(
        stored,
        excess_over(total, n),
        pin,
        d,
    )
    &&& policy matches RetainPolicy::Age(seconds) ==> {
        let threshold = age_threshold(now, seconds);
        &&& all_prunable_by_age(stored, new_key, pin, threshold, d)
        &&& d == stored.len() || age_verdict(stored[d], new_key, pin, threshold) is Keep
    }
}

pub proof fn lemma_pruned(
    policy: RetainPolicy,
    stored: Seq<(Seq<u8>, Seq<u8>)>,
    new_key: Seq<u8>,
    was_new: bool,
    known: Option<u64>,
    pin: Option<u64>,
    now: u64,
    after: Seq<(Seq<u8>, Seq<u8>)>,
    count: Option<u64>,
)
    requires
        history_outcome(policy, stored, new_key, was_new, known, pin, now, after, count),
    ensures
        exists|d: int| #[trigger]
            pruned(policy, stored, new_key, rows_known(known, stored, was_new), pin, now, after, d)
                && (policy is Count ==> count == Some(
                (rows_known(known, stored, was_new) - d) as u64,
            )),
{
    let total = rows_known(known, stored, was_new);
    match policy {
        RetainPolicy::Count(n) => {
            let d = choose|d: int|
                {
                    &&& #[trigger] is_prune_point(stored, excess_over(total, n), pin, d)
                    &&& after == stored.skip(d)
                    &&& count == Some((total - d) as u64)
                };
            assert(pruned(policy, stored, new_key, total, pin, now, after, d));
        },
        RetainPolicy::Age(seconds) => {
            let threshold = age_threshold(now, seconds);
            let d = choose|d: int|
                {
                    &&& #[trigger] all_prunable_by_age(stored, new_key, pin, threshold, d)
                    &&& d == stored.len() || age_verdict(
                        stored[d],
                        new_key,
                        pin,
                        threshold,
                    ) is Keep
                    &&& after == stored.skip(d)
                };
            assert(pruned(policy, stored, new_key, total, pin, now, after, d));
        },
        _ => {
            assert(stored.skip(0) =~= stored);
            assert(pruned(policy, stored, new_key, total, pin, now, after, 0));
        },
    }
}

/// How many rows the history is held to have, the new entry with them.
spec fn total_of(
    known: Option<u64>,
    before: Seq<(Seq<u8>, Seq<u8>)>,
    stored: Seq<(Seq<u8>, Seq<u8>)>,
    key: Seq<u8>,
) -> u64 {
    rows_known(known, stored, !has_key(before, key))
}

/// What a write of a history entry came to.
proof fn lemma_entry_pruned(
    db: &Db,
    state: &mut PendingWriterState,
    tree: &mut BTree<Vec<u8>>,
    commit: u64,
    meta: CommitHistoryMeta,
    now: u64,
)
    requires
        old(tree).wf(),
        call_ensures(
            Db::write_commit_history_entry,
            (db, state, tree, commit, meta, now),
            Ok::<(), PagedbError>(()),
        ),
    ensures
        ({
            let key = history_key(commit);
            let stored = with_row(old(tree)@, key, meta_bytes(meta));
            let total = total_of(old(state).commit_history_count, old(tree)@, stored, key);
            &&& ascending(stored)
            &&& lookup(stored, key) == Some(meta_bytes(meta))
            &&& forall|k: Seq<u8>|
                k != key ==> #[trigger] lookup(stored, k) == lookup(old(tree)@, k)
            &&& exists|d: int| #[trigger]
                pruned(
                    db.options.commit_history_retain,
                    stored,
                    key,
                    total,
                    oldest_pin(db.tracked_readers@),
                    now,
                    final(tree)@,
                    d,
                ) && (db.options.commit_history_retain is Count
                    ==> final(state).commit_history_count == Some((total - d) as u64))
        }),
{
    let key = history_key(commit);
    let stored = with_row(old(tree)@, key, meta_bytes(meta));
    lemma_slot_exists(old(tree)@, key);
    lemma_with_row(old(tree)@, key, meta_bytes(meta), slot_of_key(old(tree)@, key));
    lemma_pruned(
        db.options.commit_history_retain,
        stored,
        key,
        !has_key(old(tree)@, key),
        old(state).commit_history_count,
        oldest_pin(db.tracked_readers@),
        now,
        final(tree)@,
        final(state).commit_history_count,
    );
    let total = total_of(old(state).commit_history_count, old(tree)@, stored, key);
    let d = choose|d: int| #[trigger]
        pruned(
            db.options.commit_history_retain,
            stored,
            key,
            total,
            oldest_pin(db.tracked_readers@),
            now,
            final(tree)@,
            d,
        ) && (db.options.commit_history_retain is Count ==> final(state).commit_history_count
            == Some((total - d) as u64));
}

/// A write of a history entry prunes from the front alone: what is left of each
/// key is what was there with the new entry, for the rows from some row on.
proof fn lemma_entry_rows(
    db: &Db,
    state: &mut PendingWriterState,
    tree: &mut BTree<Vec<u8>>,
    commit: u64,
    meta: CommitHistoryMeta,
    now: u64,
    key: Seq<u8>,
)
    requires
        old(tree).wf(),
        call_ensures(
            Db::write_commit_history_entry,
            (db, state, tree, commit, meta, now),
            Ok::<(), PagedbError>(()),
        ),
    ensures
        ({
            let new_key = history_key(commit);
            let stored = with_row(old(tree)@, new_key, meta_bytes(meta));
            let total = total_of(old(state).commit_history_count, old(tree)@, stored, new_key);
            &&& ascending(stored)
            &&& lookup(stored, new_key) == Some(meta_bytes(meta))
            &&& key != new_key ==> lookup(stored, key) == lookup(old(tree)@, key)
            &&& exists|d: int|
                {
                    &&& #[trigger] pruned(
                        db.options.commit_history_retain,
                        stored,
                        new_key,
                        total,
                        oldest_pin(db.tracked_readers@),
                        now,
                        final(tree)@,
                        d,
                    )
                    &&& lookup(final(tree)@, key) == if has_key(stored, key) && index_of_key(
                        stored,
                        key,
                    ) >= d {
                        lookup(stored, key)
                    } else {
                        None
                    }
                    &&& db.options.commit_history_retain is Count
                        ==> final(state).commit_history_count == Some((total - d) as u64)
                }
        }),
{
    lemma_entry_pruned(db, state, tree, commit, meta, now);
    let k = history_key(commit);
    let stored = with_row(old(tree)@, k, meta_bytes(meta));
    let total = total_of(old(state).commit_history_count, old(tree)@, stored, k);
    let d = choose|d: int| #[trigger]
        pruned(
            db.options.commit_history_retain,
            stored,
            k,
            total,
            oldest_pin(db.tracked_readers@),
            now,
            final(tree)@,
            d,
        ) && (db.options.commit_history_retain is Count ==> final(state).commit_history_count
            == Some((total - d) as u64));
    lemma_skipped(stored, d, key);
}

/// Under an age limit a row that is not older than the limit is still there after
/// a commit, with the value that it had. The row is another commit's than the new
/// one, and its value holds its time in the last eight of forty bytes.
pub proof fn law_age_keeps_young_rows(
    db: &Db,
    state: &mut PendingWriterState,
    tree: &mut BTree<Vec<u8>>,
    commit: u64,
    meta: CommitHistoryMeta,
    now: u64,
    seconds: u64,
    new_key: Vec<u8>,
    key: Seq<u8>,
    value: Seq<u8>,
)
    requires
        old(tree).wf(),
        db.options.commit_history_retain == RetainPolicy::Age(seconds),
        call_ensures(
            Db::write_commit_history_entry,
            (db, state, tree, commit, meta, now),
            Ok::<(), PagedbError>(()),
        ),
        call_ensures(encode_history_key, (commit,), new_key),
        key != new_key@,
        lookup(old(tree)@, key) == Some(value),
        value.len() >= 40,
        le_value(value.subrange(32, 40)) + seconds >= now,
    ensures
        lookup(final(tree)@, key) == Some(value),
{
    lemma_entry_rows(db, state, tree, commit, meta, now, key);
    let stored = with_row(old(tree)@, history_key(commit), meta_bytes(meta));
    let row = stored[index_of_key(stored, key)];
    lemma_le_8(value.subrange(32, 40));
}

/// Under an age limit the rows that are older than the limit are gone after a
/// commit, from the oldest on: rows up to `last` that are all well formed, of
/// commits before the new one that no reader is pinned at or before, and old.
pub proof fn law_age_drops_old_rows(
    db: &Db,
    state: &mut PendingWriterState,
    tree: &mut BTree<Vec<u8>>,
    commit: u64,
    meta: CommitHistoryMeta,
    now: u64,
    seconds: u64,
    last: int,
)
    requires
        old(tree).wf(),
        db.options.commit_history_retain == RetainPolicy::Age(seconds),
        call_ensures(
            Db::write_commit_history_entry,
            (db, state, tree, commit, meta, now),
            Ok::<(), PagedbError>(()),
        ),
        0 <= last < old(tree)@.len(),
        forall|j: int| #![trigger old(tree)@[j]]
            0 <= j <= last ==> {
                &&& old(tree)@[j].0.len() == 8
                &&& be_value(old(tree)@[j].0) < commit
                &&& old(tree)@[j].1.len() >= 40
                &&& le_value(old(tree)@[j].1.subrange(32, 40)) + seconds < now
                &&& forall|i: int|
                    0 <= i < db.tracked_readers@.len() ==> be_value(old(tree)@[j].0) < (
                    #[trigger] db.tracked_readers@[i]).commit_id.0
            },
    ensures
        lookup(final(tree)@, old(tree)@[last].0) is None,
{
    let key = old(tree)@[last].0;
    let new_key = history_key(commit);
    let stored = with_row(old(tree)@, new_key, meta_bytes(meta));
    let pin = oldest_pin(db.tracked_readers@);
    let threshold = age_threshold(now, seconds);
    lemma_entry_rows(db, state, tree, commit, meta, now, key);
    lemma_oldest_pin(db.tracked_readers@);
    let slot = slot_of_key(old(tree)@, new_key);
    lemma_slot_exists(old(tree)@, new_key);
    lemma_slot(old(tree)@, new_key, slot);
    lemma_key_before(old(tree)@[last].0, commit);
    assert(slot > last);
    assert forall|j: int| #![trigger stored[j]] 0 <= j <= last implies age_verdict(
        stored[j],
        new_key,
        pin,
        threshold,
    ) is Prune by {
        let row = old(tree)@[j];
        assert(stored[j] == row);
        lemma_key_before(row.0, commit);
        lemma_lex_irreflexive(new_key);
        lemma_le_8(row.1.subrange(32, 40));
    }
    assert(stored[last] == old(tree)@[last]);
    lemma_lookup_at(stored, last);
    let total = total_of(old(state).commit_history_count, old(tree)@, stored, new_key);
    let d = choose|d: int|
        {
            &&& #[trigger] pruned(
                db.options.commit_history_retain,
                stored,
                new_key,
                total,
                pin,
                now,
                final(tree)@,
                d,
            )
            &&& lookup(final(tree)@, key) == if has_key(stored, key) && index_of_key(stored, key)
                >= d {
                lookup(stored, key)
            } else {
                None
            }
        };
    if d <= last {
        let row = stored[d];
    }
}

/// A key of eight bytes whose number is below a commit's stands before its key.
proof fn lemma_key_before(key: Seq<u8>, commit: u64)
    requires
        key.len() == 8,
        be_value(key) < commit,
    ensures
        lex_lt(key, history_key(commit)),
{
    lemma_be_bytes_of_value(key);
    lemma_byte_range_8();
    law_history_key_order(be_value(key) as u64, commit);
}

proof fn lemma_le_8(s: Seq<u8>)
    requires
        s.len() == 8,
    ensures
        le_value(s) <= u64::MAX,
{
    lemma_le_bytes_of_value(s);
    lemma_byte_range_8();
}

/// Whatever the policy, a commit leaves the rows alone that a reader needs: a row
/// whose number is not below the commit of some reader is still there.
pub proof fn law_pinned_rows_stay(
    db: &Db,
    state: &mut PendingWriterState,
    tree: &mut BTree<Vec<u8>>,
    commit: u64,
    meta: CommitHistoryMeta,
    now: u64,
    new_key: Vec<u8>,
    key: Seq<u8>,
    reader: int,
)
    requires
        old(tree).wf(),
        call_ensures(
            Db::write_commit_history_entry,
            (db, state, tree, commit, meta, now),
            Ok::<(), PagedbError>(()),
        ),
        call_ensures(encode_history_key, (commit,), new_key),
        key != new_key@,
        0 <= reader < db.tracked_readers@.len(),
        db.tracked_readers@[reader].commit_id.0 <= be_value(key),
    ensures
        lookup(final(tree)@, key) == lookup(old(tree)@, key),
{
    lemma_entry_rows(db, state, tree, commit, meta, now, key);
    lemma_oldest_pin(db.tracked_readers@);
    let stored = with_row(old(tree)@, history_key(commit), meta_bytes(meta));
    if has_key(stored, key) {
        let row = stored[index_of_key(stored, key)];
        let r = db.tracked_readers@[reader];
    }
}

/// A commit adds its own row to the history and no other: every row that is there
/// afterwards was there before with the same value, or is the new commit's.
pub proof fn law_commit_adds_its_row_only(
    db: &Db,
    state: &mut PendingWriterState,
    tree: &mut BTree<Vec<u8>>,
    commit: u64,
    meta: CommitHistoryMeta,
    now: u64,
    new_key: Vec<u8>,
    new_value: Vec<u8>,
    key: Seq<u8>,
)
    requires
        old(tree).wf(),
        call_ensures(
            Db::write_commit_history_entry,
            (db, state, tree, commit, meta, now),
            Ok::<(), PagedbError>(()),
        ),
        call_ensures(encode_history_key, (commit,), new_key),
        call_ensures(encode_commit_meta, (&meta,), new_value),
        lookup(final(tree)@, key) is Some,
    ensures
        key == new_key@ ==> lookup(final(tree)@, key) == Some(new_value@),
        key != new_key@ ==> lookup(final(tree)@, key) == lookup(old(tree)@, key),
{
    lemma_entry_rows(db, state, tree, commit, meta, now, key);
}

/// A history that is not pruned by number holds the new commit, and one that is
/// not pruned at all holds everything that it held.
pub proof fn law_new_row_is_recorded(
    db: &Db,
    state: &mut PendingWriterState,
    tree: &mut BTree<Vec<u8>>,
    commit: u64,
    meta: CommitHistoryMeta,
    now: u64,
    new_key: Vec<u8>,
    new_value: Vec<u8>,
    key: Seq<u8>,
)
    requires
        old(tree).wf(),
        call_ensures(
            Db::write_commit_history_entry,
            (db, state, tree, commit, meta, now),
            Ok::<(), PagedbError>(()),
        ),
        call_ensures(encode_history_key, (commit,), new_key),
        call_ensures(encode_commit_meta, (&meta,), new_value),
    ensures
        db.options.commit_history_retain is Age || db.options.commit_history_retain is Unbounded
            ==> lookup(final(tree)@, new_key@) == Some(new_value@),
        db.options.commit_history_retain is Unbounded && key != new_key@ ==> lookup(
            final(tree)@,
            key,
        ) == lookup(old(tree)@, key),
{
    lemma_entry_rows(db, state, tree, commit, meta, now, new_key@);
    lemma_entry_rows(db, state, tree, commit, meta, now, key);
    let stored = with_row(old(tree)@, history_key(commit), meta_bytes(meta));
    let row = stored[index_of_key(stored, new_key@)];
}

/// Rows go from the oldest on: where a row is still there after a commit, so is
/// every row that came after it.
pub proof fn law_history_goes_from_the_oldest(
    db: &Db,
    state: &mut PendingWriterState,
    tree: &mut BTree<Vec<u8>>,
    commit: u64,
    meta: CommitHistoryMeta,
    now: u64,
    a: int,
    b: int,
)
    requires
        old(tree).wf(),
        call_ensures(
            Db::write_commit_history_entry,
            (db, state, tree, commit, meta, now),
            Ok::<(), PagedbError>(()),
        ),
        0 <= a < b < old(tree)@.len(),
        has_key(final(tree)@, old(tree)@[a].0),
    ensures
        has_key(final(tree)@, old(tree)@[b].0),
{
    let x = old(tree)@[a].0;
    let y = old(tree)@[b].0;
    let new_key = history_key(commit);
    let stored = with_row(old(tree)@, new_key, meta_bytes(meta));
    lemma_entry_pruned(db, state, tree, commit, meta, now);
    lemma_lookup_at(old(tree)@, a);
    lemma_lookup_at(old(tree)@, b);
    let total = total_of(old(state).commit_history_count, old(tree)@, stored, new_key);
    let d = choose|d: int| #[trigger]
        pruned(
            db.options.commit_history_retain,
            stored,
            new_key,
            total,
            oldest_pin(db.tracked_readers@),
            now,
            final(tree)@,
            d,
        );
    lemma_skipped(stored, d, x);
    lemma_skipped(stored, d, y);
    assert(lookup(stored, x) is Some && lookup(stored, y) is Some);
    let i = index_of_key(stored, x);
    let j = index_of_key(stored, y);
    assert(lex_lt(x, y));
    if j < i {
        assert(lex_lt(stored[j].0, stored[i].0));
        lemma_lex_asymmetric(x, y);
    }
    assert(lookup(final(tree)@, x) is Some);
}

/// A history limited to a number of commits keeps the newest so many: afterwards
/// it holds no more than the limit, unless its oldest row is one that a reader
/// needs; it holds the limit or lost nothing; and the count that is kept is the
/// number of its rows. What was known of the count before was right.
pub proof fn law_count_keeps_the_newest(
    db: &Db,
    state: &mut PendingWriterState,
    tree: &mut BTree<Vec<u8>>,
    commit: u64,
    meta: CommitHistoryMeta,
    now: u64,
    limit: u32,
)
    requires
        old(tree).wf(),
        old(tree)@.len() < u64::MAX,
        db.options.commit_history_retain == RetainPolicy::Count(limit),
        call_ensures(
            Db::write_commit_history_entry,
            (db, state, tree, commit, meta, now),
            Ok::<(), PagedbError>(()),
        ),
        old(state).commit_history_count is Some ==> old(state).commit_history_count->0
            == old(tree)@.len(),
    ensures
        final(state).commit_history_count == Some(final(tree)@.len() as u64),
        final(tree)@.len() <= limit || exists|i: int|
            0 <= i < db.tracked_readers@.len() && (#[trigger] db.tracked_readers@[i]).commit_id.0
                <= be_value(final(tree)@[0].0),
        final(tree)@.len() >= limit || final(tree)@.len() >= old(tree)@.len(),
{
    let new_key = history_key(commit);
    let stored = with_row(old(tree)@, new_key, meta_bytes(meta));
    lemma_entry_pruned(db, state, tree, commit, meta, now);
    lemma_oldest_pin(db.tracked_readers@);
    lemma_slot_exists(old(tree)@, new_key);
    let total = total_of(old(state).commit_history_count, old(tree)@, stored, new_key);
    let d = choose|d: int| #[trigger]
        pruned(
            db.options.commit_history_retain,
            stored,
            new_key,
            total,
            oldest_pin(db.tracked_readers@),
            now,
            final(tree)@,
            d,
        ) && final(state).commit_history_count == Some((total - d) as u64);
    assert(total == stored.len());
    assert(final(tree)@.len() == stored.len() - d);
    if final(tree)@.len() > limit {
        assert(final(tree)@[0] == stored[d]);
    }
}

/// A well-formed history never refuses a commit: where every key is eight bytes and
/// every value forty at least, the entry is written. A refusal leaves the candidate
/// state alone, and where no history is kept there is nothing to refuse.
pub proof fn law_well_formed_history_takes_every_commit(
    db: &Db,
    state: &mut PendingWriterState,
    tree: &mut BTree<Vec<u8>>,
    commit: u64,
    meta: CommitHistoryMeta,
    now: u64,
    r: Result<()>,
)
    requires
        old(tree).wf(),
        call_ensures(
            Db::write_commit_history_entry,
            (db, state, tree, commit, meta, now),
            r,
        ),
    ensures
        r is Err ==> {
            &&& db.options.commit_history_retain is Count || db.options.commit_history_retain is Age
            &&& r->Err_0 is Corruption
            &&& *final(state) == *old(state)
            &&& exists|j: int|
                0 <= j < old(tree)@.len() && ((#[trigger] old(tree)@[j]).0.len() != 8 || old(tree)@[j].1.len() < 40)
        },
        final(tree).root() == old(tree).root(),
        final(tree).next() == old(tree).next(),
        final(state).next_page_id == old(state).next_page_id,
        final(state).commit_history_root_page_id == old(state).commit_history_root_page_id,
        final(state).commit_history_root_version == old(state).commit_history_root_version,
{
    if r is Err {
        let key = history_key(commit);
        let stored = with_row(old(tree)@, key, meta_bytes(meta));
        lemma_slot_exists(old(tree)@, key);
        lemma_slot(old(tree)@, key, slot_of_key(old(tree)@, key));
        lemma_meta_len(meta);
        law_history_key_order(commit, commit);
        let pin = oldest_pin(db.tracked_readers@);
        let d = match db.options.commit_history_retain {
            RetainPolicy::Count(n) => {
                let total = rows_known(
                    old(state).commit_history_count,
                    stored,
                    !has_key(old(tree)@, key),
                );
                choose|d: int|
                    #[trigger] is_bad_key(stored, excess_over(total, n), pin, d) && final(tree)@
                        == stored.skip(d)
            },
            RetainPolicy::Age(seconds) => {
                let threshold = age_threshold(now, seconds);
                choose|d: int|
                    {
                        &&& #[trigger] all_prunable_by_age(stored, key, pin, threshold, d)
                        &&& d < stored.len()
                        &&& age_verdict(stored[d], key, pin, threshold) is BadKey || age_verdict(
                            stored[d],
                            key,
                            pin,
                            threshold,
                        ) is BadMeta
                        &&& final(tree)@ == stored.skip(d)
                    }
            },
            _ => 0,
        };
        let row = stored[d];
        assert(row.0.len() != 8 || row.1.len() < 40);
        lemma_row_of(old(tree)@, key, meta_bytes(meta), d);
    }
}

proof fn lemma_meta_len(meta: CommitHistoryMeta)
    ensures
        meta_bytes(meta).len() == 40,
{
    lemma_le_bytes_len(meta.active_root_page_id as nat, 8);
    lemma_le_bytes_len(meta.catalog_root_page_id as nat, 8);
    lemma_le_bytes_len(meta.free_list_root_page_id as nat, 8);
    lemma_le_bytes_len(meta.next_page_id as nat, 8);
    lemma_le_bytes_len(meta.unix_seconds as nat, 8);
}

/// A row of a tree that a row was put into is that row or was there before.
proof fn lemma_row_of<V>(s: Seq<(Seq<u8>, V)>, key: Seq<u8>, value: V, i: int)
    requires
        ascending(s),
        0 <= i < with_row(s, key, value).len(),
    ensures
        with_row(s, key, value)[i] == (key, value) || exists|j: int|
            0 <= j < s.len() && #[trigger] s[j] == with_row(s, key, value)[i],
{
    let t = with_row(s, key, value);
    lemma_slot_exists(s, key);
    lemma_slot(s, key, slot_of_key(s, key));
    let slot = slot_of_key(s, key);
    if has_key(s, key) {
        if i != slot {
            assert(s[i] == t[i]);
        }
    } else if i < slot {
        assert(s[i] == t[i]);
    } else if i > slot {
        assert(s[i - 1] == t[i]);
    }
}

/// A row of the history is five numbers of eight bytes, the least significant byte
/// first: the data root, the catalog root, the free list's root, the cursor and the
/// time. What is written is read back, whatever follows it.
pub proof fn law_history_row_layout(m: &CommitHistoryMeta, out: Vec<u8>)
    requires
        call_ensures(encode_commit_meta, (m,), out),
    ensures
        out@.len() == 40,
        le_value(out@.subrange(0, 8)) == m.active_root_page_id,
        le_value(out@.subrange(8, 16)) == m.catalog_root_page_id,
        le_value(out@.subrange(16, 24)) == m.free_list_root_page_id,
        le_value(out@.subrange(24, 32)) == m.next_page_id,
        le_value(out@.subrange(32, 40)) == m.unix_seconds,
{
    lemma_meta_len(*m);
    law_commit_meta_round_trip(*m, Seq::empty());
    assert(meta_bytes(*m) + Seq::<u8>::empty() =~= meta_bytes(*m));
    lemma_le_8(out@.subrange(0, 8));
    lemma_le_8(out@.subrange(8, 16));
    lemma_le_8(out@.subrange(16, 24));
    lemma_le_8(out@.subrange(24, 32));
    lemma_le_8(out@.subrange(32, 40));
}

/// A row of forty bytes or more is read as the five numbers that it begins with;
/// one that is shorter is refused.
pub proof fn law_history_row_is_read(bytes: &[u8], r: Result<CommitHistoryMeta>)
    requires
        call_ensures(decode_commit_meta, (bytes,), r),
    ensures
        r is Ok <==> bytes@.len() >= 40,
        r is Err ==> r->Err_0 is Corruption,
        r is Ok ==> {
            &&& r->Ok_0.active_root_page_id == le_value(bytes@.subrange(0, 8))
            &&& r->Ok_0.catalog_root_page_id == le_value(bytes@.subrange(8, 16))
            &&& r->Ok_0.free_list_root_page_id == le_value(bytes@.subrange(16, 24))
            &&& r->Ok_0.next_page_id == le_value(bytes@.subrange(24, 32))
            &&& r->Ok_0.unix_seconds == le_value(bytes@.subrange(32, 40))
        },
{
    if r is Ok {
        lemma_le_8(bytes@.subrange(0, 8));
        lemma_le_8(bytes@.subrange(8, 16));
        lemma_le_8(bytes@.subrange(16, 24));
        lemma_le_8(bytes@.subrange(24, 32));
        lemma_le_8(bytes@.subrange(32, 40));
    }
}

/// The keys of the history are eight bytes that hold the commit's number, the most
/// significant first, so that they stand in the order of the commits.
pub proof fn law_history_keys_are_in_commit_order(a: u64, ka: Vec<u8>, b: u64, kb: Vec<u8>)
    requires
        call_ensures(encode_history_key, (a,), ka),
        call_ensures(encode_history_key, (b,), kb),
    ensures
        ka@.len() == 8,
        be_value(ka@) == a,
        a < b <==> lex_lt(ka@, kb@),
        a == b <==> ka@ == kb@,
{
    law_history_key_order(a, b);
}

/// Pruning by count takes rows off the front, one after the other, until as many as
/// were asked for are gone or the next is one that a reader needs.
pub proof fn law_pruning_by_count(
    tree: &mut BTree<Vec<u8>>,
    excess: u64,
    min_pinned: Option<u64>,
    deleted: u64,
)
    requires
        old(tree).wf(),
        call_ensures(
            prune_oldest_history_rows,
            (tree, excess, min_pinned),
            Ok::<u64, PagedbError>(deleted),
        ),
    ensures
        deleted <= excess,
        final(tree)@ == old(tree)@.subrange(deleted as int, old(tree)@.len() as int),
        forall|j: int|
            #![trigger old(tree)@[j]]
            0 <= j < deleted ==> old(tree)@[j].0.len() == 8 && (min_pinned is Some ==> be_value(
                old(tree)@[j].0,
            ) < min_pinned->0),
        deleted < excess && final(tree)@.len() > 0 ==> min_pinned is Some && be_value(
            final(tree)@[0].0,
        ) >= min_pinned->0,
{
    assert(old(tree)@.skip(deleted as int) =~= old(tree)@.subrange(
        deleted as int,
        old(tree)@.len() as int,
    ));
    if deleted < old(tree)@.len() {
        assert(final(tree)@[0] == old(tree)@[deleted as int]);
    }
}

/// Pruning by age takes rows off the front while they are older than the threshold,
/// and stops at the new row, at one that a reader needs and at one that is not.
pub proof fn law_pruning_by_age(
    tree: &mut BTree<Vec<u8>>,
    new_key: &[u8],
    min_pinned: Option<u64>,
    threshold: u64,
    deleted: u64,
)
    requires
        old(tree).wf(),
        call_ensures(
            prune_history_by_age,
            (tree, new_key, min_pinned, threshold),
            Ok::<u64, PagedbError>(deleted),
        ),
    ensures
        final(tree)@ == old(tree)@.subrange(deleted as int, old(tree)@.len() as int),
        forall|j: int|
            #![trigger old(tree)@[j]]
            0 <= j < deleted ==> {
                &&& old(tree)@[j].0 != new_key@
                &&& old(tree)@[j].0.len() == 8
                &&& min_pinned is Some ==> be_value(old(tree)@[j].0) < min_pinned->0
                &&& le_value(old(tree)@[j].1.subrange(32, 40)) < threshold
            },
        final(tree)@.len() > 0 ==> {
            ||| final(tree)@[0].0 == new_key@
            ||| min_pinned is Some && be_value(final(tree)@[0].0) >= min_pinned->0
            ||| le_value(final(tree)@[0].1.subrange(32, 40)) >= threshold
        },
{
    assert(old(tree)@.skip(deleted as int) =~= old(tree)@.subrange(
        deleted as int,
        old(tree)@.len() as int,
    ));
    assert forall|j: int| #![trigger old(tree)@[j]] 0 <= j < deleted implies {
        &&& old(tree)@[j].0 != new_key@
        &&& old(tree)@[j].0.len() == 8
        &&& min_pinned is Some ==> be_value(old(tree)@[j].0) < min_pinned->0
        &&& le_value(old(tree)@[j].1.subrange(32, 40)) < threshold
    } by {
        lemma_le_8(old(tree)@[j].1.subrange(32, 40));
    }
    if deleted < old(tree)@.len() {
        assert(final(tree)@[0] == old(tree)@[deleted as int]);
        if final(tree)@[0].1.len() >= 40 {
            lemma_le_8(final(tree)@[0].1.subrange(32, 40));
        }
    }
}

/// The history is counted row by row.
pub proof fn law_history_is_counted(tree: &BTree<Vec<u8>>, total: u64)
    requires
        call_ensures(count_history_rows, (tree,), total),
    ensures
        total == tree@.len(),
{
}

/// The history's pages are taken into the candidate state at the commit's version,
/// the cursor never falls back, and the pages that are given up are handed on in
/// order but for the reserved ones. The rest of the state stays.
pub proof fn law_history_pages_are_adopted(
    state: &mut PendingWriterState,
    commit: u64,
    pages: &TreePages,
    freed: Vec<u64>,
)
    requires
        call_ensures(adopt_history_pages, (state, commit, pages), freed),
    ensures
        final(state).commit_history_root_page_id == pages.root_page_id,
        final(state).commit_history_root_version == commit,
        final(state).commit_history_count == old(state).commit_history_count,
        final(state).next_page_id >= pages.next_page_id,
        final(state).next_page_id >= old(state).next_page_id,
        final(state).next_page_id == pages.next_page_id || final(state).next_page_id == old(state).next_page_id,
        freed@ == pages.freed@.filter(|p: u64| p >= 4),
{
    lemma_allocatable_is_filter(pages.freed@);
}

/// The floor of reclamation keeps what can still be read: it is no later than any
/// reader's commit and, where history is kept, no later than the commit after the
/// oldest that is retained. It is one of these two, and without either it is no
/// bound at all.
pub proof fn law_reclamation_floor(
    db: &Db,
    state: &WriterState,
    history: &BTree<Vec<u8>>,
    floor: u64,
)
    requires
        history.wf(),
        call_ensures(
            Db::reclamation_floor,
            (db, state, history),
            Ok::<u64, PagedbError>(floor),
        ),
    ensures
        ({
            let kept = !(db.options.commit_history_retain is Disabled)
                && state.commit_history_root_page_id != 0 && history@.len() > 0;
            &&& forall|i: int|
                0 <= i < db.tracked_readers@.len() ==> floor <= (
                #[trigger] db.tracked_readers@[i]).commit_id.0
            &&& kept ==> history@[0].0.len() == 8 && floor <= be_value(history@[0].0) + 1
            &&& {
                ||| floor == u64::MAX
                ||| exists|i: int|
                    0 <= i < db.tracked_readers@.len() && floor == (
                    #[trigger] db.tracked_readers@[i]).commit_id.0
                ||| kept && floor == be_value(history@[0].0) + 1
            }
            &&& db.tracked_readers@.len() == 0 && !kept ==> floor == u64::MAX
        }),
        forall|j: int|
            #![trigger history@[j]]
            0 <= j < history@.len() && !(db.options.commit_history_retain is Disabled)
                && state.commit_history_root_page_id != 0 && history@[j].0.len() == 8 ==> floor
                <= be_value(history@[j].0) + 1,
{
    lemma_oldest_pin(db.tracked_readers@);
    if history@.len() > 0 && history@[0].0.len() == 8 {
        lemma_oldest_retained_is_least(history@, 0);
        assert forall|j: int|
            #![trigger history@[j]]
            0 <= j < history@.len() && history@[j].0.len() == 8 implies be_value(history@[0].0)
            <= be_value(history@[j].0) by {
            lemma_oldest_retained_is_least(history@, j);
        }
    }
}

/// The oldest retained commit is the first key of the history, where one is kept.
/// The floor is refused, and so is this, only for a first key that is no number.
pub proof fn law_oldest_retained_commit(
    db: &Db,
    state: &WriterState,
    history: &BTree<Vec<u8>>,
    r: Result<Option<u64>>,
    floor: Result<u64>,
)
    requires
        call_ensures(
            Db::oldest_retained_history_commit,
            (db, state.commit_history_root_page_id, history),
            r,
        ),
        call_ensures(Db::reclamation_floor, (db, state, history), floor),
    ensures
        ({
            let kept = !(db.options.commit_history_retain is Disabled)
                && state.commit_history_root_page_id != 0 && history@.len() > 0;
            &&& !kept ==> r == Ok::<Option<u64>, PagedbError>(None)
            &&& kept && history@[0].0.len() == 8 ==> r is Ok && r->Ok_0 is Some && r->Ok_0->0
                == be_value(history@[0].0)
            &&& kept && history@[0].0.len() != 8 ==> r is Err && r->Err_0 is Corruption
            &&& floor is Err <==> r is Err
        }),
{
    if history@.len() > 0 && history@[0].0.len() == 8 {
        lemma_be_bytes_of_value(history@[0].0);
        lemma_byte_range_8();
    }
}

/// A history that the pages of a delta would overwrite is moved, and one that they
/// leave alone stays where it is, with the version and the count that it has; what
/// is released by a move is what the new state does not use either.
pub proof fn law_history_is_carried(
    db: &Db,
    state: &WriterState,
    occupied: &PageSet,
    delta: &PageSet,
    target: &PageSet,
    cursor: u64,
    decision: CarryDecision,
    page: u64,
)
    requires
        call_ensures(
            Db::carry_commit_history,
            (db, state, occupied, delta, target, cursor),
            decision,
        ),
    ensures
        decision is Unmoved && state.commit_history_root_page_id != 0 && occupied@.contains(page)
            ==> !delta@.contains(page),
        decision is Relocate ==> state.commit_history_root_page_id != 0 && exists|p: u64|
            occupied@.contains(p) && #[trigger] delta@.contains(p),
        decision matches CarryDecision::Unmoved(c) ==> {
            &&& c.root_page_id == state.commit_history_root_page_id
            &&& c.root_version == state.commit_history_root_version
            &&& c.entry_count == state.commit_history_count
            &&& c.next_page_id == cursor
            &&& !c.released_page_ids@.contains(page)
        },
        decision matches CarryDecision::Relocate { released_page_ids } ==> (
        released_page_ids@.contains(page) <==> occupied@.contains(page) && !target@.contains(page)),
{
}

/// A history that was moved is at its new pages, at the version and with the count
/// that it was moved with, and the cursor stands past both what it was and what the
/// move took.
pub proof fn law_moved_history_is_adopted(
    pages: &TreePages,
    version: u64,
    rows: u64,
    cursor: u64,
    released: PageSet,
    c: CarriedHistory,
)
    requires
        call_ensures(adopt_relocated_history, (pages, version, rows, cursor, released), c),
    ensures
        c.root_page_id == pages.root_page_id,
        c.root_version == version,
        c.entry_count == Some(rows),
        c.next_page_id >= cursor,
        c.next_page_id >= pages.next_page_id,
        c.next_page_id == cursor || c.next_page_id == pages.next_page_id,
        c.released_page_ids == released,
{
}

/// A candidate state takes the advances of the writer, and publishing it gives them
/// back: the cursor, the history's root, version and count, and nothing else.
pub proof fn law_candidate_state_is_published(
    state: &WriterState,
    pending: PendingWriterState,
    advanced: PendingWriterState,
    target: &mut WriterState,
    unit: (),
)
    requires
        call_ensures(PendingWriterState::capture, (state,), pending),
        call_ensures(PendingWriterState::publish, (advanced, target), unit),
    ensures
        pending.next_page_id == state.next_page_id,
        pending.commit_history_root_page_id == state.commit_history_root_page_id,
        pending.commit_history_root_version == state.commit_history_root_version,
        pending.commit_history_count == state.commit_history_count,
        final(target).next_page_id == advanced.next_page_id,
        final(target).commit_history_root_page_id == advanced.commit_history_root_page_id,
        final(target).commit_history_root_version == advanced.commit_history_root_version,
        final(target).commit_history_count == advanced.commit_history_count,
        final(target).root_page_id == old(target).root_page_id,
        final(target).latest_commit_id == old(target).latest_commit_id,
        final(target).catalog_root_page_id == old(target).catalog_root_page_id,
        final(target).catalog_root_txn_id == old(target).catalog_root_txn_id,
        final(target).free_list_root_page_id == old(target).free_list_root_page_id,
        final(target).pending_apply_journal_id == old(target).pending_apply_journal_id,
        final(target).restore_mode == old(target).restore_mode,
{
}

} // verus!
