//! The commit-history index: appending an entry per commit, and pruning it back
//! to the configured retention.

use vstd::prelude::*;

use crate::codec::{
    be_bytes, be_value, byte_range, copy_bytes, extend, le_bytes, le_value, lemma_be_bytes_len,
    lemma_be_bytes_of_value, lemma_be_round_trip, lemma_byte_range_8, lemma_le_bytes_len,
    lemma_le_round_trip, same_bytes, u64_from_be, u64_from_le, u64_to_be, u64_to_le,
};
use crate::errors::{PagedbError, Result};
use crate::header::FIRST_ALLOCATABLE_PAGE_ID;
use crate::options::RetainPolicy;
use crate::order::{lemma_lex_irreflexive, lex_lt};
use crate::tree::{
    ascending, has_key, is_slot, lemma_lookup_at, lemma_resume_after, lemma_slot, lookup, with_row,
    BTree, TreePages,
};

use super::handle::{Db, TrackedReader, WriterState};
use super::pending::PendingWriterState;
use super::reader::{oldest_pin, oldest_reader_commit};

verus! {

/// Commit-history rows read per batch.
pub const HISTORY_PRUNE_BATCH: usize = 512;

/// The roots of a historical commit. 40 bytes on disk: `active_root_page_id`,
/// `catalog_root_page_id`, `free_list_root_page_id`, `next_page_id`,
/// `unix_seconds`, each little-endian in 8 bytes.
#[derive(Debug, Clone, Copy, PartialEq, Eq, Structural)]
pub struct CommitHistoryMeta {
    pub active_root_page_id: u64,
    pub catalog_root_page_id: u64,
    pub free_list_root_page_id: u64,
    pub next_page_id: u64,
    pub unix_seconds: u64,
}

/// The bytes of a history row's value.
pub open spec fn meta_bytes(m: CommitHistoryMeta) -> Seq<u8> {
    le_bytes(m.active_root_page_id as nat, 8) + le_bytes(m.catalog_root_page_id as nat, 8)
        + le_bytes(m.free_list_root_page_id as nat, 8) + le_bytes(m.next_page_id as nat, 8)
        + le_bytes(m.unix_seconds as nat, 8)
}

/// What the bytes of a history row's value mean; what follows the fixed prefix
/// does not matter.
pub open spec fn meta_of(bytes: Seq<u8>) -> CommitHistoryMeta {
    CommitHistoryMeta {
        active_root_page_id: le_value(bytes.subrange(0, 8)) as u64,
        catalog_root_page_id: le_value(bytes.subrange(8, 16)) as u64,
        free_list_root_page_id: le_value(bytes.subrange(16, 24)) as u64,
        next_page_id: le_value(bytes.subrange(24, 32)) as u64,
        unix_seconds: le_value(bytes.subrange(32, 40)) as u64,
    }
}

/// The key of a commit's history row.
pub open spec fn history_key(commit_id: u64) -> Seq<u8> {
    be_bytes(commit_id as nat, 8)
}

/// Encodes the value of a history row.
pub fn encode_commit_meta(m: &CommitHistoryMeta) -> (out: Vec<u8>)
    ensures
        out@ == meta_bytes(*m),
        out@.len() == 40,
{
    let mut out: Vec<u8> = Vec::with_capacity(40);
    let b0: [u8; 8] = u64_to_le(m.active_root_page_id);
    let b1: [u8; 8] = u64_to_le(m.catalog_root_page_id);
    let b2: [u8; 8] = u64_to_le(m.free_list_root_page_id);
    let b3: [u8; 8] = u64_to_le(m.next_page_id);
    let b4: [u8; 8] = u64_to_le(m.unix_seconds);
    extend(&mut out, b0.as_slice());
    extend(&mut out, b1.as_slice());
    extend(&mut out, b2.as_slice());
    extend(&mut out, b3.as_slice());
    extend(&mut out, b4.as_slice());
    proof {
        assert(out@ =~= meta_bytes(*m));
    }
    out
}

/// Decodes the value of a history row. A short row is declined; trailing bytes
/// are tolerated.
pub fn decode_commit_meta(bytes: &[u8]) -> (r: Result<CommitHistoryMeta>)
    ensures
        match r {
            Ok(m) => bytes@.len() >= 40 && m == meta_of(bytes@),
            Err(e) => bytes@.len() < 40 && e == PagedbError::row_invalid("commit_history.meta"),
        },
{
    if bytes.len() < 40 {
        return Err(PagedbError::catalog_row_invalid("commit_history.meta"));
    }
    Ok(
        CommitHistoryMeta {
            active_root_page_id: u64_from_le(bytes, 0),
            catalog_root_page_id: u64_from_le(bytes, 8),
            free_list_root_page_id: u64_from_le(bytes, 16),
            next_page_id: u64_from_le(bytes, 24),
            unix_seconds: u64_from_le(bytes, 32),
        },
    )
}

/// An encoded row decodes to what was encoded, whatever bytes follow it.
pub proof fn law_commit_meta_round_trip(m: CommitHistoryMeta, trailing: Seq<u8>)
    ensures
        (meta_bytes(m) + trailing).len() >= 40,
        meta_of(meta_bytes(m) + trailing) == m,
{
    lemma_byte_range_8();
    lemma_le_bytes_len(m.active_root_page_id as nat, 8);
    lemma_le_bytes_len(m.catalog_root_page_id as nat, 8);
    lemma_le_bytes_len(m.free_list_root_page_id as nat, 8);
    lemma_le_bytes_len(m.next_page_id as nat, 8);
    lemma_le_bytes_len(m.unix_seconds as nat, 8);
    lemma_le_round_trip(m.active_root_page_id as nat, 8);
    lemma_le_round_trip(m.catalog_root_page_id as nat, 8);
    lemma_le_round_trip(m.free_list_root_page_id as nat, 8);
    lemma_le_round_trip(m.next_page_id as nat, 8);
    lemma_le_round_trip(m.unix_seconds as nat, 8);
    let b = meta_bytes(m) + trailing;
    assert(b.subrange(0, 8) =~= le_bytes(m.active_root_page_id as nat, 8));
    assert(b.subrange(8, 16) =~= le_bytes(m.catalog_root_page_id as nat, 8));
    assert(b.subrange(16, 24) =~= le_bytes(m.free_list_root_page_id as nat, 8));
    assert(b.subrange(24, 32) =~= le_bytes(m.next_page_id as nat, 8));
    assert(b.subrange(32, 40) =~= le_bytes(m.unix_seconds as nat, 8));
}

proof fn lemma_lex_push(a: Seq<u8>, b: Seq<u8>, p: u8, q: u8)
    requires
        a.len() == b.len(),
        lex_lt(a, b) || (a == b && p < q),
    ensures
        lex_lt(a.push(p), b.push(q)),
    decreases a.len(),
{
    if a.len() > 0 {
        assert(a.push(p).drop_first() =~= a.drop_first().push(p));
        assert(b.push(q).drop_first() =~= b.drop_first().push(q));
        if a[0] == b[0] {
            lemma_lex_push(a.drop_first(), b.drop_first(), p, q);
        }
    } else {
        assert(a.push(p)[0] == p);
        assert(b.push(q)[0] == q);
    }
}

proof fn lemma_be_order(x: nat, y: nat, n: nat)
    requires
        x < y < byte_range(n),
    ensures
        lex_lt(be_bytes(x, n), be_bytes(y, n)),
    decreases n,
{
    if n > 0 {
        lemma_be_bytes_len(x / 256, (n - 1) as nat);
        lemma_be_bytes_len(y / 256, (n - 1) as nat);
        if x / 256 < y / 256 {
            lemma_be_order(x / 256, y / 256, (n - 1) as nat);
        }
        lemma_lex_push(
            be_bytes(x / 256, (n - 1) as nat),
            be_bytes(y / 256, (n - 1) as nat),
            (x % 256) as u8,
            (y % 256) as u8,
        );
    }
}

/// History keys are ordered as the commits they name, so the oldest commits
/// are always a prefix of the rows.
pub proof fn law_history_key_order(a: u64, b: u64)
    ensures
        a < b <==> lex_lt(history_key(a), history_key(b)),
        history_key(a) == history_key(b) <==> a == b,
        history_key(a).len() == 8,
        be_value(history_key(a)) == a,
{
    lemma_byte_range_8();
    lemma_be_bytes_len(a as nat, 8);
    lemma_be_round_trip(a as nat, 8);
    lemma_be_round_trip(b as nat, 8);
    if a < b {
        lemma_be_order(a as nat, b as nat, 8);
    }
    if b < a {
        lemma_be_order(b as nat, a as nat, 8);
        crate::order::lemma_lex_asymmetric(history_key(b), history_key(a));
    }
    if a == b {
        lemma_lex_irreflexive(history_key(a));
    }
}

/// The history row key of a commit.
pub fn encode_history_key(commit_id: u64) -> (key: Vec<u8>)
    ensures
        key@ == history_key(commit_id),
{
    let b: [u8; 8] = u64_to_be(commit_id);
    copy_bytes(b.as_slice())
}

/// Whether a commit is at or above the oldest pinned one.
pub open spec fn is_pinned(min_pinned: Option<u64>, commit_id: nat) -> bool {
    min_pinned is Some && commit_id >= min_pinned->0
}

/// Counts the rows of the commit-history index, one batch at a time.
pub fn count_history_rows(tree: &BTree<Vec<u8>>) -> (total: u64)
    requires
        tree.wf(),
    ensures
        total == tree@.len(),
{
    let mut total: u64 = 0;
    let mut cursor: Vec<u8> = Vec::new();
    let len: usize = tree.len();
    proof {
        lemma_slot_of_empty(tree@);
    }
    loop
        invariant
            tree.wf(),
            len == tree@.len(),
            total <= len,
            is_slot(tree@, cursor@, total as int),
        decreases len - total,
    {
        let (lo, hi) = tree.collect_batch_from(&cursor, HISTORY_PRUNE_BATCH);
        proof {
            lemma_slot(tree@, cursor@, lo as int);
            lemma_slot(tree@, cursor@, total as int);
        }
        if lo == hi {
            return total;
        }
        total = total + (hi - lo) as u64;
        if hi - lo < HISTORY_PRUNE_BATCH {
            return total;
        }
        cursor = copy_bytes(tree.key_at(hi - 1));
        cursor.push(0);
        proof {
            lemma_resume_after(tree@, hi - 1);
        }
    }
}

/// Nothing comes before the empty key.
pub proof fn lemma_slot_of_empty<V>(s: Seq<(Seq<u8>, V)>)
    ensures
        is_slot(s, Seq::<u8>::empty(), 0),
{
}

/// Whether `d` is where pruning the oldest of the rows `s` stops: every row
/// before it may go, and it is the limit, the end, or a pinned commit.
pub open spec fn is_prune_point(
    s: Seq<(Seq<u8>, Seq<u8>)>,
    excess: nat,
    min_pinned: Option<u64>,
    d: int,
) -> bool {
    &&& 0 <= d <= s.len()
    &&& d <= excess
    &&& forall|j: int|
        #![trigger s[j]]
        0 <= j < d ==> s[j].0.len() == 8 && !is_pinned(min_pinned, be_value(s[j].0))
    &&& d == excess || d == s.len() || (s[d].0.len() == 8 && is_pinned(
        min_pinned,
        be_value(s[d].0),
    ))
}

/// Whether pruning the rows `s` stops at `d` because the key there is malformed.
pub open spec fn is_bad_key(
    s: Seq<(Seq<u8>, Seq<u8>)>,
    excess: nat,
    min_pinned: Option<u64>,
    d: int,
) -> bool {
    &&& 0 <= d < s.len()
    &&& d < excess
    &&& s[d].0.len() != 8
    &&& forall|j: int|
        #![trigger s[j]]
        0 <= j < d ==> s[j].0.len() == 8 && !is_pinned(min_pinned, be_value(s[j].0))
}

/// Whether pruning the rows `s` meets a malformed key before it stops; the rows
/// before it are gone then.
pub open spec fn prune_meets_bad_key(
    s: Seq<(Seq<u8>, Seq<u8>)>,
    excess: nat,
    min_pinned: Option<u64>,
    after: Seq<(Seq<u8>, Seq<u8>)>,
) -> bool {
    exists|d: int| #[trigger] is_bad_key(s, excess, min_pinned, d) && after == s.skip(d)
}

/// Deletes up to `excess` of the oldest rows, stopping at the first row a live
/// reader still pins. Returns how many were deleted.
pub fn prune_oldest_history_rows(
    tree: &mut BTree<Vec<u8>>,
    excess: u64,
    min_pinned: Option<u64>,
) -> (r: Result<u64>)
    requires
        old(tree).wf(),
    ensures
        final(tree).wf(),
        final(tree).root() == old(tree).root(),
        final(tree).next() == old(tree).next(),
        match r {
            Ok(deleted) => {
                &&& is_prune_point(old(tree)@, excess as nat, min_pinned, deleted as int)
                &&& final(tree)@ == old(tree)@.skip(deleted as int)
            },
            Err(e) => {
                &&& e == PagedbError::row_invalid("commit_history.key")
                &&& prune_meets_bad_key(old(tree)@, excess as nat, min_pinned, final(tree)@)
            },
        },
{
    let ghost all = tree@;
    let mut deleted: u64 = 0;
    proof {
        assert(all.skip(0) =~= all);
    }
    while deleted < excess && tree.len() > 0
        invariant
            tree.wf(),
            all == old(tree)@,
            tree.root() == old(tree).root(),
            tree.next() == old(tree).next(),
            deleted <= excess,
            deleted <= all.len(),
            tree@ == all.skip(deleted as int),
            forall|j: int|
                #![trigger all[j]]
                0 <= j < deleted ==> all[j].0.len() == 8 && !is_pinned(
                    min_pinned,
                    be_value(all[j].0),
                ),
        decreases excess - deleted,
    {
        let key: Vec<u8> = copy_bytes(tree.key_at(0));
        let ghost front = tree@;
        proof {
            assert(front[0] == all[deleted as int]);
        }
        if key.len() != 8 {
            proof {
                assert(is_bad_key(all, excess as nat, min_pinned, deleted as int));
            }
            return Err(PagedbError::catalog_row_invalid("commit_history.key"));
        }
        let commit_id: u64 = u64_from_be(&key, 0);
        proof {
            assert(key@.subrange(0, 8) =~= key@);
        }
        match min_pinned {
            Some(min) => {
                if commit_id >= min {
                    return Ok(deleted);
                }
            },
            None => {},
        }
        tree.delete(&key);
        proof {
            lemma_lookup_at(front, 0);
            assert(tree@ =~= all.skip(deleted + 1));
        }
        deleted = deleted + 1;
    }
    Ok(deleted)
}

/// What an age-based prune does at one row.
pub enum AgeVerdict {
    /// The walk ends here: the row just inserted, a pinned one, or a young one.
    Keep,
    /// The row goes.
    Prune,
    /// The key is not eight bytes.
    BadKey,
    /// The value is too short.
    BadMeta,
}

/// What an age-based prune does at `row`.
pub open spec fn age_verdict(
    row: (Seq<u8>, Seq<u8>),
    new_key: Seq<u8>,
    min_pinned: Option<u64>,
    threshold: u64,
) -> AgeVerdict {
    if row.0 == new_key {
        AgeVerdict::Keep
    } else if row.0.len() != 8 {
        AgeVerdict::BadKey
    } else if is_pinned(min_pinned, be_value(row.0)) {
        AgeVerdict::Keep
    } else if row.1.len() < 40 {
        AgeVerdict::BadMeta
    } else if meta_of(row.1).unix_seconds >= threshold {
        AgeVerdict::Keep
    } else {
        AgeVerdict::Prune
    }
}

/// Whether the first `d` rows of `s` all go, by age.
pub open spec fn all_prunable_by_age(
    s: Seq<(Seq<u8>, Seq<u8>)>,
    new_key: Seq<u8>,
    min_pinned: Option<u64>,
    threshold: u64,
    d: int,
) -> bool {
    &&& 0 <= d <= s.len()
    &&& forall|j: int|
        #![trigger s[j]]
        0 <= j < d ==> age_verdict(s[j], new_key, min_pinned, threshold) is Prune
}

/// Whether pruning by age meets a malformed row before it stops, and which
/// error that is; the rows before it are gone then.
pub open spec fn age_prune_fails(
    s: Seq<(Seq<u8>, Seq<u8>)>,
    new_key: Seq<u8>,
    min_pinned: Option<u64>,
    threshold: u64,
    e: PagedbError,
    after: Seq<(Seq<u8>, Seq<u8>)>,
) -> bool {
    exists|d: int|
        {
            &&& #[trigger] all_prunable_by_age(s, new_key, min_pinned, threshold, d)
            &&& d < s.len()
            &&& match age_verdict(s[d], new_key, min_pinned, threshold) {
                AgeVerdict::BadKey => e == PagedbError::row_invalid("commit_history.key"),
                AgeVerdict::BadMeta => e == PagedbError::row_invalid("commit_history.meta"),
                _ => false,
            }
            &&& after == s.skip(d)
        }
}

/// Deletes the oldest rows that are older than `threshold`, up to the first row
/// that stays. Returns how many were deleted.
pub fn prune_history_by_age(
    tree: &mut BTree<Vec<u8>>,
    new_key: &[u8],
    min_pinned: Option<u64>,
    threshold: u64,
) -> (r: Result<u64>)
    requires
        old(tree).wf(),
    ensures
        final(tree).wf(),
        final(tree).root() == old(tree).root(),
        final(tree).next() == old(tree).next(),
        match r {
            Ok(d) => {
                &&& all_prunable_by_age(old(tree)@, new_key@, min_pinned, threshold, d as int)
                &&& d == old(tree)@.len() || age_verdict(
                    old(tree)@[d as int],
                    new_key@,
                    min_pinned,
                    threshold,
                ) is Keep
                &&& final(tree)@ == old(tree)@.skip(d as int)
            },
            Err(e) => age_prune_fails(
                old(tree)@,
                new_key@,
                min_pinned,
                threshold,
                e,
                final(tree)@,
            ),
        },
{
    let ghost all = tree@;
    let mut deleted: u64 = 0;
    let mut rest: usize = tree.len();
    proof {
        assert(all.skip(0) =~= all);
    }
    while rest > 0
        invariant
            tree.wf(),
            all == old(tree)@,
            tree.root() == old(tree).root(),
            tree.next() == old(tree).next(),
            rest + deleted == all.len(),
            all.len() <= usize::MAX,
            tree@ == all.skip(deleted as int),
            all_prunable_by_age(all, new_key@, min_pinned, threshold, deleted as int),
        decreases rest,
    {
        let key: Vec<u8> = copy_bytes(tree.key_at(0));
        let ghost front = tree@;
        proof {
            assert(front[0] == all[deleted as int]);
        }
        if same_bytes(&key, new_key) {
            return Ok(deleted);
        }
        if key.len() != 8 {
            return Err(PagedbError::catalog_row_invalid("commit_history.key"));
        }
        let commit_id: u64 = u64_from_be(&key, 0);
        proof {
            assert(key@.subrange(0, 8) =~= key@);
        }
        match min_pinned {
            Some(min) => {
                if commit_id >= min {
                    return Ok(deleted);
                }
            },
            None => {},
        }
        match decode_commit_meta(tree.value_at(0)) {
            Ok(meta) => {
                if meta.unix_seconds >= threshold {
                    return Ok(deleted);
                }
            },
            Err(e) => return Err(e),
        }
        tree.delete(&key);
        proof {
            lemma_lookup_at(front, 0);
            assert(tree@ =~= all.skip(deleted + 1));
        }
        deleted = deleted + 1;
        rest = rest - 1;
    }
    Ok(deleted)
}

/// How many rows the history holds once a row is stored under `key`, when
/// `known` rows were counted before.
pub open spec fn count_with(known: u64, was_new: bool) -> u64 {
    if was_new && known < u64::MAX {
        (known + 1) as u64
    } else {
        known
    }
}

/// How many rows the history holds once the new row is stored: the tracked
/// count brought up to date, or the rows counted when none is tracked.
pub open spec fn rows_known(
    known: Option<u64>,
    stored: Seq<(Seq<u8>, Seq<u8>)>,
    was_new: bool,
) -> u64 {
    match known {
        Some(c) => count_with(c, was_new),
        None => stored.len() as u64,
    }
}

/// The second before which a row is older than `seconds`.
pub open spec fn age_threshold(now_seconds: u64, seconds: u64) -> u64 {
    if now_seconds >= seconds {
        (now_seconds - seconds) as u64
    } else {
        0
    }
}

/// By how much a row count exceeds a limit.
pub open spec fn excess_over(total: u64, limit: u32) -> nat {
    if total > limit {
        (total - limit) as nat
    } else {
        0
    }
}

/// What storing a commit's row and pruning by the retention policy makes of
/// the rows and of the tracked row count.
///
/// `stored` are the rows with the new one among them.
pub open spec fn history_outcome(
    policy: RetainPolicy,
    stored: Seq<(Seq<u8>, Seq<u8>)>,
    new_key: Seq<u8>,
    was_new: bool,
    known: Option<u64>,
    min_pinned: Option<u64>,
    now_seconds: u64,
    after: Seq<(Seq<u8>, Seq<u8>)>,
    count: Option<u64>,
) -> bool {
    match policy {
        RetainPolicy::Unbounded => {
            &&& after == stored
            &&& count == if was_new {
                Some(rows_known(known, stored, was_new))
            } else {
                known
            }
        },
        RetainPolicy::Count(n) => {
            let total = rows_known(known, stored, was_new);
            exists|d: int|
                {
                    &&& #[trigger] is_prune_point(stored, excess_over(total, n), min_pinned, d)
                    &&& after == stored.skip(d)
                    &&& count == Some((total - d) as u64)
                }
        },
        RetainPolicy::Age(seconds) => {
            let threshold = age_threshold(now_seconds, seconds);
            exists|d: int|
                {
                    &&& #[trigger] all_prunable_by_age(stored, new_key, min_pinned, threshold, d)
                    &&& d == stored.len() || age_verdict(stored[d], new_key, min_pinned, threshold) is Keep
                    &&& after == stored.skip(d)
                    &&& count == match known {
                        Some(c) => Some(
                            if count_with(c, was_new) >= d {
                                (count_with(c, was_new) - d) as u64
                            } else {
                                0u64
                            },
                        ),
                        None => None,
                    }
                }
        },
        RetainPolicy::Disabled => after == stored && count == known,
    }
}

/// When storing a commit's row and pruning fails, and how: the walk over the
/// oldest rows meets a malformed one before it stops. The rows from there on are
/// left of the candidate.
pub open spec fn history_refusal(
    policy: RetainPolicy,
    stored: Seq<(Seq<u8>, Seq<u8>)>,
    new_key: Seq<u8>,
    was_new: bool,
    known: Option<u64>,
    min_pinned: Option<u64>,
    now_seconds: u64,
    e: PagedbError,
    after: Seq<(Seq<u8>, Seq<u8>)>,
) -> bool {
    match policy {
        RetainPolicy::Count(n) => {
            &&& prune_meets_bad_key(
                stored,
                excess_over(rows_known(known, stored, was_new), n),
                min_pinned,
                after,
            )
            &&& e == PagedbError::row_invalid("commit_history.key")
        },
        RetainPolicy::Age(seconds) => age_prune_fails(
            stored,
            new_key,
            min_pinned,
            age_threshold(now_seconds, seconds),
            e,
            after,
        ),
        _ => false,
    }
}

impl Db {
    /// Stores the commit's row in the history and prunes by the retention
    /// policy. `now_seconds` is the time by the clock.
    ///
    /// Only the candidate state and the candidate tree change: a commit that is
    /// refused later leaves the shared state naming the old root.
    pub fn write_commit_history_entry(
        &self,
        state: &mut PendingWriterState,
        tree: &mut BTree<Vec<u8>>,
        new_commit_id: u64,
        meta: CommitHistoryMeta,
        now_seconds: u64,
    ) -> (r: Result<()>)
        requires
            old(tree).wf(),
        ensures
            final(tree).wf(),
            final(tree).root() == old(tree).root(),
            final(tree).next() == old(tree).next(),
            *final(state) == (PendingWriterState {
                commit_history_count: final(state).commit_history_count,
                ..*old(state)
            }),
            ({
                let key = history_key(new_commit_id);
                let stored = with_row(old(tree)@, key, meta_bytes(meta));
                match r {
                    Ok(()) => history_outcome(
                        self.options.commit_history_retain,
                        stored,
                        key,
                        !has_key(old(tree)@, key),
                        old(state).commit_history_count,
                        oldest_pin(self.tracked_readers@),
                        now_seconds,
                        final(tree)@,
                        final(state).commit_history_count,
                    ),
                    Err(e) => {
                        &&& *final(state) == *old(state)
                        &&& history_refusal(
                            self.options.commit_history_retain,
                            stored,
                            key,
                            !has_key(old(tree)@, key),
                            old(state).commit_history_count,
                            oldest_pin(self.tracked_readers@),
                            now_seconds,
                            e,
                            final(tree)@,
                        )
                    },
                }
            }),
    {
        let min_pinned: Option<u64> = oldest_reader_commit(&self.tracked_readers);
        let key: Vec<u8> = encode_history_key(new_commit_id);
        let value: Vec<u8> = encode_commit_meta(&meta);
        let was_new: bool = match tree.get(&key) {
            Some(_) => false,
            None => true,
        };
        tree.put(&key, value);
        let ghost stored = tree@;
        match self.options.commit_history_retain {
            RetainPolicy::Unbounded => {
                if was_new {
                    let total: u64 = match state.commit_history_count {
                        Some(c) => c.saturating_add(1),
                        None => count_history_rows(tree),
                    };
                    state.commit_history_count = Some(total);
                }
            },
            RetainPolicy::Count(n) => {
                let total: u64 = match state.commit_history_count {
                    Some(c) => if was_new {
                        c.saturating_add(1)
                    } else {
                        c
                    },
                    None => count_history_rows(tree),
                };
                let excess: u64 = total.saturating_sub(n as u64);
                proof {
                    assert(excess == excess_over(total, n));
                    assert(total == rows_known(state.commit_history_count, stored, was_new));
                    assert(stored.skip(0) =~= stored);
                }
                let deleted: u64 = if excess == 0 {
                    proof {
                        assert(is_prune_point(stored, 0, min_pinned, 0));
                    }
                    0
                } else {
                    match prune_oldest_history_rows(tree, excess, min_pinned) {
                        Ok(d) => d,
                        Err(e) => return Err(e),
                    }
                };
                proof {
                    assert(is_prune_point(
                        stored,
                        excess_over(total, n),
                        min_pinned,
                        deleted as int,
                    ));
                }
                state.commit_history_count = Some(total.saturating_sub(deleted));
            },
            RetainPolicy::Age(seconds) => {
                let threshold: u64 = now_seconds.saturating_sub(seconds);
                assert(threshold == age_threshold(now_seconds, seconds));
                let deleted: u64 = match prune_history_by_age(tree, &key, min_pinned, threshold) {
                    Ok(d) => d,
                    Err(e) => return Err(e),
                };
                let projected: Option<u64> = match state.commit_history_count {
                    Some(c) => Some(
                        if was_new {
                            c.saturating_add(1)
                        } else {
                            c
                        },
                    ),
                    None => None,
                };
                state.commit_history_count = match projected {
                    Some(c) => Some(c.saturating_sub(deleted)),
                    None => None,
                };
            },
            RetainPolicy::Disabled => {},
        }
        Ok(())
    }
}

/// The tracked row count stays what it says it is: the number of rows the
/// history holds, after every commit that keeps one.
pub proof fn law_history_count_is_exact(
    policy: RetainPolicy,
    before: Seq<(Seq<u8>, Seq<u8>)>,
    commit_id: u64,
    meta: CommitHistoryMeta,
    known: Option<u64>,
    min_pinned: Option<u64>,
    now_seconds: u64,
    after: Seq<(Seq<u8>, Seq<u8>)>,
    count: Option<u64>,
)
    requires
        ascending(before),
        before.len() < u64::MAX,
        known is Some ==> known->0 == before.len(),
        ({
            let key = history_key(commit_id);
            history_outcome(
                policy,
                with_row(before, key, meta_bytes(meta)),
                key,
                !has_key(before, key),
                known,
                min_pinned,
                now_seconds,
                after,
                count,
            )
        }),
    ensures
        count is Some && policy != RetainPolicy::Disabled ==> count->0 == after.len(),
        policy is Count ==> count is Some,
        known is Some ==> count is Some,
{
    let key = history_key(commit_id);
    lemma_with_row_len(before, key, meta_bytes(meta));
}

proof fn lemma_with_row_len<V>(s: Seq<(Seq<u8>, V)>, key: Seq<u8>, value: V)
    requires
        ascending(s),
    ensures
        with_row(s, key, value).len() == s.len() + if has_key(s, key) {
            0int
        } else {
            1int
        },
{
    if !has_key(s, key) {
        crate::tree::lemma_slot_exists(s, key);
    }
}

/// A row that pruning stopped at or before is still there, with the same value.
proof fn lemma_kept_row(
    stored: Seq<(Seq<u8>, Seq<u8>)>,
    after: Seq<(Seq<u8>, Seq<u8>)>,
    d: int,
    row: int,
)
    requires
        ascending(stored),
        after == stored.skip(d),
        0 <= d <= row < stored.len(),
    ensures
        after.contains(stored[row]),
        lookup(after, stored[row].0) == Some(stored[row].1),
{
    assert(after[row - d] == stored[row]);
    assert forall|a: int, b: int| #![trigger after[a], after[b]] 0 <= a < b < after.len() implies lex_lt(
        after[a].0,
        after[b].0,
    ) by {
        assert(after[a] == stored[a + d]);
        assert(after[b] == stored[b + d]);
    }
    lemma_lookup_at(after, row - d);
}

/// Where pruning by count stops: what is left begins there, and no pinned commit
/// stands before it.
proof fn lemma_count_prune_point(
    n: u32,
    stored: Seq<(Seq<u8>, Seq<u8>)>,
    new_key: Seq<u8>,
    was_new: bool,
    known: Option<u64>,
    min_pinned: Option<u64>,
    now_seconds: u64,
    after: Seq<(Seq<u8>, Seq<u8>)>,
    count: Option<u64>,
) -> (d: int)
    requires
        history_outcome(
            RetainPolicy::Count(n),
            stored,
            new_key,
            was_new,
            known,
            min_pinned,
            now_seconds,
            after,
            count,
        ),
    ensures
        0 <= d <= stored.len(),
        after == stored.skip(d),
        forall|j: int|
            #![trigger stored[j]]
            0 <= j < d ==> !is_pinned(min_pinned, be_value(stored[j].0)),
{
    choose|d: int|
        {
            &&& #[trigger] is_prune_point(
                stored,
                excess_over(rows_known(known, stored, was_new), n),
                min_pinned,
                d,
            )
            &&& after == stored.skip(d)
            &&& count == Some((rows_known(known, stored, was_new) - d) as u64)
        }
}

/// Where pruning by age stops: what is left begins there, and neither a pinned
/// commit nor the new one stands before it.
proof fn lemma_age_prune_point(
    seconds: u64,
    stored: Seq<(Seq<u8>, Seq<u8>)>,
    new_key: Seq<u8>,
    was_new: bool,
    known: Option<u64>,
    min_pinned: Option<u64>,
    now_seconds: u64,
    after: Seq<(Seq<u8>, Seq<u8>)>,
    count: Option<u64>,
) -> (d: int)
    requires
        history_outcome(
            RetainPolicy::Age(seconds),
            stored,
            new_key,
            was_new,
            known,
            min_pinned,
            now_seconds,
            after,
            count,
        ),
    ensures
        0 <= d <= stored.len(),
        after == stored.skip(d),
        forall|j: int|
            #![trigger stored[j]]
            0 <= j < d ==> stored[j].0 != new_key && !is_pinned(min_pinned, be_value(stored[j].0)),
{
    let threshold = age_threshold(now_seconds, seconds);
    choose|d: int|
        {
            &&& #[trigger] all_prunable_by_age(stored, new_key, min_pinned, threshold, d)
            &&& d == stored.len() || age_verdict(stored[d], new_key, min_pinned, threshold) is Keep
            &&& after == stored.skip(d)
            &&& count == match known {
                Some(c) => Some(
                    if count_with(c, was_new) >= d {
                        (count_with(c, was_new) - d) as u64
                    } else {
                        0u64
                    },
                ),
                None => None,
            }
        }
}

/// A commit that a reader pins is never pruned: if its row was there, it still
/// is, with the same value. Nor is the commit's own row ever pruned by age.
#[verifier::spinoff_prover]
pub proof fn law_pruning_spares_pinned_commits(
    policy: RetainPolicy,
    stored: Seq<(Seq<u8>, Seq<u8>)>,
    new_key: Seq<u8>,
    was_new: bool,
    known: Option<u64>,
    min_pinned: Option<u64>,
    now_seconds: u64,
    after: Seq<(Seq<u8>, Seq<u8>)>,
    count: Option<u64>,
    row: int,
)
    requires
        ascending(stored),
        history_outcome(
            policy,
            stored,
            new_key,
            was_new,
            known,
            min_pinned,
            now_seconds,
            after,
            count,
        ),
        0 <= row < stored.len(),
        is_pinned(min_pinned, be_value(stored[row].0)) || (policy is Age && stored[row].0
            == new_key),
    ensures
        after.contains(stored[row]),
        lookup(after, stored[row].0) == Some(stored[row].1),
{
    let d: int = match policy {
        RetainPolicy::Count(n) => lemma_count_prune_point(
            n,
            stored,
            new_key,
            was_new,
            known,
            min_pinned,
            now_seconds,
            after,
            count,
        ),
        RetainPolicy::Age(seconds) => lemma_age_prune_point(
            seconds,
            stored,
            new_key,
            was_new,
            known,
            min_pinned,
            now_seconds,
            after,
            count,
        ),
        _ => 0,
    };
    if policy is Unbounded || policy is Disabled {
        assert(stored.skip(0) =~= stored);
    }
    assert(row >= d);
    lemma_kept_row(stored, after, d, row);
}

/// The page ids of `s` that an allocator may hand out, in order; the reserved
/// pages never enter a free list.
pub open spec fn allocatable(s: Seq<u64>) -> Seq<u64>
    decreases s.len(),
{
    if s.len() == 0 {
        Seq::empty()
    } else if s.last() >= FIRST_ALLOCATABLE_PAGE_ID {
        allocatable(s.drop_last()).push(s.last())
    } else {
        allocatable(s.drop_last())
    }
}

/// Keeps the page ids that an allocator may hand out.
pub fn allocatable_pages(pages: &Vec<u64>) -> (out: Vec<u64>)
    ensures
        out@ == allocatable(pages@),
{
    let mut out: Vec<u64> = Vec::new();
    let mut i: usize = 0;
    while i < pages.len()
        invariant
            i <= pages@.len(),
            out@ == allocatable(pages@.take(i as int)),
        decreases pages@.len() - i,
    {
        proof {
            assert(pages@.take(i + 1).drop_last() =~= pages@.take(i as int));
            assert(pages@.take(i + 1).last() == pages@[i as int]);
        }
        if pages[i] >= FIRST_ALLOCATABLE_PAGE_ID {
            out.push(pages[i]);
        }
        i = i + 1;
    }
    proof {
        assert(pages@.take(i as int) =~= pages@);
    }
    out
}

/// Only pages that were freed, and none of the reserved ones, are allocatable.
pub proof fn lemma_allocatable(s: Seq<u64>)
    ensures
        forall|p: u64|
            #[trigger] allocatable(s).contains(p) <==> s.contains(p) && p
                >= FIRST_ALLOCATABLE_PAGE_ID,
    decreases s.len(),
{
    if s.len() > 0 {
        let rest = s.drop_last();
        lemma_allocatable(rest);
        assert(s =~= rest.push(s.last()));
        assert forall|p: u64|
            #[trigger] allocatable(s).contains(p) <==> s.contains(p) && p
                >= FIRST_ALLOCATABLE_PAGE_ID by {
            let a = allocatable(rest);
            if s.contains(p) {
                let i = s.index_of(p);
                if i < rest.len() {
                    assert(rest[i] == p);
                    assert(rest.contains(p));
                    if p >= FIRST_ALLOCATABLE_PAGE_ID {
                        assert(a.contains(p));
                        let j = a.index_of(p);
                        assert(allocatable(s)[j] == p);
                    }
                } else if p >= FIRST_ALLOCATABLE_PAGE_ID {
                    assert(allocatable(s)[a.len() as int] == p);
                }
            }
            if allocatable(s).contains(p) {
                let j = allocatable(s).index_of(p);
                if j < a.len() {
                    assert(a[j] == p);
                    assert(a.contains(p));
                    let i = rest.index_of(p);
                    assert(s[i] == p);
                } else {
                    assert(s[s.len() - 1] == p);
                }
            }
        }
    }
}

/// Ends a history write once its tree is written back: the candidate names the
/// new root, and the pages given up are handed to the commit's free list.
pub fn adopt_history_pages(
    state: &mut PendingWriterState,
    new_commit_id: u64,
    pages: &TreePages,
) -> (freed: Vec<u64>)
    ensures
        freed@ == allocatable(pages.freed@),
        *final(state) == (PendingWriterState {
            commit_history_root_page_id: pages.root_page_id,
            commit_history_root_version: new_commit_id,
            next_page_id: if pages.next_page_id >= old(state).next_page_id {
                pages.next_page_id
            } else {
                old(state).next_page_id
            },
            ..*old(state)
        }),
{
    state.commit_history_root_page_id = pages.root_page_id;
    state.commit_history_root_version = new_commit_id;
    if pages.next_page_id >= state.next_page_id {
        state.next_page_id = pages.next_page_id;
    }
    allocatable_pages(&pages.freed)
}

/// The oldest commit the history retains, as the first of its rows says.
pub open spec fn oldest_retained(
    policy: RetainPolicy,
    history_root: u64,
    s: Seq<(Seq<u8>, Seq<u8>)>,
) -> Option<u64> {
    if policy == RetainPolicy::Disabled || history_root == 0 || s.len() == 0 {
        None
    } else {
        Some(be_value(s[0].0) as u64)
    }
}

/// Whether the oldest retained commit can be read off the rows.
pub open spec fn oldest_retained_readable(
    policy: RetainPolicy,
    history_root: u64,
    s: Seq<(Seq<u8>, Seq<u8>)>,
) -> bool {
    policy == RetainPolicy::Disabled || history_root == 0 || s.len() == 0 || s[0].0.len() == 8
}

/// The commit below which a free page may be reused: at most the oldest reader
/// pin, and at most one past the oldest retained commit.
pub open spec fn floor_of(oldest_reader: Option<u64>, oldest_history: Option<u64>) -> u64 {
    let a = match oldest_reader {
        Some(c) => c,
        None => u64::MAX,
    };
    let b = match oldest_history {
        Some(c) => if c == u64::MAX {
            u64::MAX
        } else {
            (c + 1) as u64
        },
        None => u64::MAX,
    };
    if a <= b {
        a
    } else {
        b
    }
}

impl Db {
    /// The oldest commit id still retained in the commit-history index, or
    /// `None` when history is disabled or the index is empty.
    pub fn oldest_retained_history_commit(
        &self,
        commit_history_root_page_id: u64,
        history: &BTree<Vec<u8>>,
    ) -> (r: Result<Option<u64>>)
        ensures
            match r {
                Ok(oldest) => {
                    &&& oldest_retained_readable(
                        self.options.commit_history_retain,
                        commit_history_root_page_id,
                        history@,
                    )
                    &&& oldest == oldest_retained(
                        self.options.commit_history_retain,
                        commit_history_root_page_id,
                        history@,
                    )
                },
                Err(e) => {
                    &&& !oldest_retained_readable(
                        self.options.commit_history_retain,
                        commit_history_root_page_id,
                        history@,
                    )
                    &&& e == PagedbError::row_invalid("commit_history.key")
                },
            },
    {
        if self.options.commit_history_retain == RetainPolicy::Disabled
            || commit_history_root_page_id == 0 {
            return Ok(None);
        }
        match history.first_key() {
            None => Ok(None),
            Some(key) => {
                if key.len() != 8 {
                    return Err(PagedbError::catalog_row_invalid("commit_history.key"));
                }
                proof {
                    assert(key@.subrange(0, 8) =~= key@);
                }
                Ok(Some(u64_from_be(key, 0)))
            },
        }
    }

    /// Commit id below which free-list entries are recyclable: the older of the
    /// oldest live-reader pin and the oldest retained commit-history root.
    pub fn reclamation_floor(&self, state: &WriterState, history: &BTree<Vec<u8>>) -> (r: Result<
        u64,
    >)
        ensures
            match r {
                Ok(floor) => {
                    &&& oldest_retained_readable(
                        self.options.commit_history_retain,
                        state.commit_history_root_page_id,
                        history@,
                    )
                    &&& floor == floor_of(
                        oldest_pin(self.tracked_readers@),
                        oldest_retained(
                            self.options.commit_history_retain,
                            state.commit_history_root_page_id,
                            history@,
                        ),
                    )
                },
                Err(e) => {
                    &&& !oldest_retained_readable(
                        self.options.commit_history_retain,
                        state.commit_history_root_page_id,
                        history@,
                    )
                    &&& e == PagedbError::row_invalid("commit_history.key")
                },
            },
    {
        let oldest_history: Option<u64> = match self.oldest_retained_history_commit(
            state.commit_history_root_page_id,
            history,
        ) {
            Ok(oldest) => oldest,
            Err(e) => return Err(e),
        };
        let a: u64 = match oldest_reader_commit(&self.tracked_readers) {
            Some(c) => c,
            None => u64::MAX,
        };
        let b: u64 = match oldest_history {
            Some(c) => c.saturating_add(1),
            None => u64::MAX,
        };
        Ok(
            if a <= b {
                a
            } else {
                b
            },
        )
    }
}

/// No row of a history is older than its first.
pub proof fn lemma_oldest_retained_is_least(history: Seq<(Seq<u8>, Seq<u8>)>, row: int)
    requires
        ascending(history),
        0 <= row < history.len(),
        history[0].0.len() == 8,
        history[row].0.len() == 8,
    ensures
        be_value(history[0].0) <= be_value(history[row].0),
        be_value(history[0].0) <= u64::MAX,
{
    let a = history[0].0;
    let b = history[row].0;
    lemma_be_bytes_of_value(a);
    lemma_be_bytes_of_value(b);
    lemma_byte_range_8();
    if row > 0 {
        assert(lex_lt(history[0].0, history[row].0));
        law_history_key_order(be_value(a) as u64, be_value(b) as u64);
    }
}

/// A page freed below the floor was freed no later than every commit that a
/// reader or a retained history root can still reach: no reader pins an older
/// commit, and no retained commit is older than the one that freed it.
pub proof fn law_floor_protects_readers_and_history(
    readers: Seq<TrackedReader>,
    policy: RetainPolicy,
    history_root: u64,
    history: Seq<(Seq<u8>, Seq<u8>)>,
    freed_at: u64,
    reader: int,
    row: int,
)
    requires
        ascending(history),
        oldest_retained_readable(policy, history_root, history),
        policy != RetainPolicy::Disabled && history_root != 0,
        freed_at < floor_of(
            oldest_pin(readers),
            oldest_retained(policy, history_root, history),
        ),
        0 <= reader < readers.len(),
        0 <= row < history.len(),
        history[row].0.len() == 8,
    ensures
        freed_at < readers[reader].commit_id.0,
        freed_at <= be_value(history[row].0),
{
    crate::db::reader::lemma_oldest_pin(readers);
    lemma_oldest_retained_is_least(history, row);
}

} // verus!
