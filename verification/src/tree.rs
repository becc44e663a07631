//! Ordered rows under a root page: the contents of one tree of the store.
//!
//! A tree is loaded from the pages under its root and written back as pages
//! when it is flushed. What the flush did to the pages (the new root, the new
//! allocation cursor, the pages it gave up) is reported as [`TreePages`].

use vstd::prelude::*;

use crate::codec::{copy_bytes, same_bytes};
use crate::order::{
    has_prefix, key_before, lemma_lex_asymmetric, lemma_lex_irreflexive, lemma_lex_successor,
    lemma_lex_total, lemma_lex_transitive, lemma_prefix_le, lemma_prefix_run, lex_le, lex_lt,
    starts_with,
};

verus! {

/// One key with its value.
pub struct Row<V> {
    pub key: Vec<u8>,
    pub value: V,
}

/// What writing a tree back to pages reported.
pub struct TreePages {
    pub root_page_id: u64,
    pub next_page_id: u64,
    pub freed: Vec<u64>,
}

/// The rows of one tree in key order, with its root page and the allocation
/// cursor its writes draw from.
pub struct BTree<V> {
    rows: Vec<Row<V>>,
    root_page_id: u64,
    next_page_id: u64,
}

/// Whether the keys of `s` strictly ascend.
pub open spec fn ascending<V>(s: Seq<(Seq<u8>, V)>) -> bool {
    forall|i: int, j: int| #![trigger s[i], s[j]] 0 <= i < j < s.len() ==> lex_lt(s[i].0, s[j].0)
}

/// Whether `i` is where `key` is, or would go, among the rows `s`.
pub open spec fn is_slot<V>(s: Seq<(Seq<u8>, V)>, key: Seq<u8>, i: int) -> bool {
    &&& 0 <= i <= s.len()
    &&& forall|j: int| #![trigger s[j]] 0 <= j < i ==> lex_lt(s[j].0, key)
    &&& forall|j: int| #![trigger s[j]] i <= j < s.len() ==> !lex_lt(s[j].0, key)
}

/// Whether a row of `s` has the key.
pub open spec fn has_key<V>(s: Seq<(Seq<u8>, V)>, key: Seq<u8>) -> bool {
    exists|i: int| 0 <= i < s.len() && (#[trigger] s[i]).0 == key
}

/// Which row of `s` has the key.
pub open spec fn index_of_key<V>(s: Seq<(Seq<u8>, V)>, key: Seq<u8>) -> int {
    choose|i: int| 0 <= i < s.len() && (#[trigger] s[i]).0 == key
}

/// The value that `s` holds under the key.
pub open spec fn lookup<V>(s: Seq<(Seq<u8>, V)>, key: Seq<u8>) -> Option<V> {
    if has_key(s, key) {
        Some(s[index_of_key(s, key)].1)
    } else {
        None
    }
}

/// Where a key that is not in `s` goes.
pub open spec fn slot_of_key<V>(s: Seq<(Seq<u8>, V)>, key: Seq<u8>) -> int {
    choose|i: int| is_slot(s, key, i)
}

/// The rows after `value` is stored under `key`.
pub open spec fn with_row<V>(s: Seq<(Seq<u8>, V)>, key: Seq<u8>, value: V) -> Seq<(Seq<u8>, V)> {
    if has_key(s, key) {
        s.update(index_of_key(s, key), (key, value))
    } else {
        s.insert(slot_of_key(s, key), (key, value))
    }
}

/// The rows after the row under `key`, if any, is dropped.
pub open spec fn without_row<V>(s: Seq<(Seq<u8>, V)>, key: Seq<u8>) -> Seq<(Seq<u8>, V)> {
    if has_key(s, key) {
        s.remove(index_of_key(s, key))
    } else {
        s
    }
}

/// Whether `after` are the rows `before` without those from row `lo` up to row
/// `hi`, which are those with a key from `start` up to but not including `end`.
pub open spec fn is_range_cut<V>(
    before: Seq<(Seq<u8>, V)>,
    start: Seq<u8>,
    end: Seq<u8>,
    after: Seq<(Seq<u8>, V)>,
    lo: int,
    hi: int,
) -> bool {
    &&& 0 <= lo <= hi <= before.len()
    &&& after == before.subrange(0, lo) + before.subrange(hi, before.len() as int)
    &&& forall|j: int|
        #![trigger before[j]]
        0 <= j < before.len() ==> (lo <= j < hi <==> lex_le(start, before[j].0) && lex_lt(
            before[j].0,
            end,
        ))
}

/// Whether `after` are the rows `before` without those from `start` up to but
/// not including `end`, and `removed` is how many those are.
pub open spec fn range_deleted<V>(
    before: Seq<(Seq<u8>, V)>,
    start: Seq<u8>,
    end: Seq<u8>,
    after: Seq<(Seq<u8>, V)>,
    removed: u64,
) -> bool {
    exists|lo: int, hi: int|
        #[trigger] is_range_cut(before, start, end, after, lo, hi) && removed == hi - lo
}

/// A slot is unique, and a key that is present is at its slot.
pub proof fn lemma_slot<V>(s: Seq<(Seq<u8>, V)>, key: Seq<u8>, i: int)
    requires
        ascending(s),
        is_slot(s, key, i),
    ensures
        slot_of_key(s, key) == i,
        has_key(s, key) <==> i < s.len() && s[i].0 == key,
        has_key(s, key) ==> index_of_key(s, key) == i,
{
    let c = slot_of_key(s, key);
    assert(is_slot(s, key, c));
    if c < i {
        assert(lex_lt(s[c].0, key));
    }
    if i < c {
        assert(lex_lt(s[i].0, key));
    }
    if has_key(s, key) {
        let d = index_of_key(s, key);
        lemma_lex_irreflexive(key);
        assert(d >= i);
        if d > i {
            assert(lex_lt(s[i].0, s[d].0));
        }
    }
}

/// Every key has a slot.
pub proof fn lemma_slot_exists<V>(s: Seq<(Seq<u8>, V)>, key: Seq<u8>)
    requires
        ascending(s),
    ensures
        is_slot(s, key, slot_of_key(s, key)),
    decreases s.len(),
{
    if s.len() == 0 {
        assert(is_slot(s, key, 0));
    } else {
        let rest = s.drop_last();
        assert(ascending(rest)) by {
            assert forall|i: int, j: int| #![trigger rest[i], rest[j]] 0 <= i < j
                < rest.len() implies lex_lt(rest[i].0, rest[j].0) by {
                assert(s[i] == rest[i]);
                assert(s[j] == rest[j]);
            }
        }
        lemma_slot_exists(rest, key);
        let i = slot_of_key(rest, key);
        let last = s.len() - 1;
        assert forall|j: int| 0 <= j < last implies #[trigger] s[j] == rest[j] by {}
        if i == last && lex_lt(s[last].0, key) {
            assert(is_slot(s, key, s.len() as int));
        } else {
            if i < last {
                assert(!lex_lt(rest[i].0, key));
                assert(lex_lt(s[i].0, s[last].0));
                if lex_lt(s[last].0, key) {
                    lemma_lex_transitive(s[i].0, s[last].0, key);
                }
            }
            assert(is_slot(s, key, i));
        }
    }
}

/// Storing a row keeps the keys ascending, gives the stored value back under
/// its key, and leaves every other key alone.
pub proof fn lemma_with_row<V>(s: Seq<(Seq<u8>, V)>, key: Seq<u8>, value: V, i: int)
    requires
        ascending(s),
        is_slot(s, key, i),
    ensures
        ascending(with_row(s, key, value)),
        lookup(with_row(s, key, value), key) == Some(value),
        forall|other: Seq<u8>|
            #![trigger lookup(with_row(s, key, value), other)]
            other != key ==> lookup(with_row(s, key, value), other) == lookup(s, other),
{
    lemma_slot(s, key, i);
    let t = with_row(s, key, value);
    if has_key(s, key) {
        assert(t =~= s.update(i, (key, value)));
        assert forall|a: int, b: int| #![trigger t[a], t[b]] 0 <= a < b < t.len() implies lex_lt(
            t[a].0,
            t[b].0,
        ) by {
            assert(t[a].0 == s[a].0);
            assert(t[b].0 == s[b].0);
        }
        assert(t[i].0 == key);
        lemma_lookup_at(t, i);
        assert forall|other: Seq<u8>| #![trigger lookup(t, other)] other != key implies lookup(
            t,
            other,
        ) == lookup(s, other) by {
            if has_key(s, other) {
                let d = index_of_key(s, other);
                assert(t[d].0 == other);
                lemma_lookup_at(t, d);
                lemma_lookup_at(s, d);
            } else if has_key(t, other) {
                let d = index_of_key(t, other);
                assert(s[d].0 == other);
            }
        }
    } else {
        assert(t =~= s.insert(i, (key, value)));
        assert forall|j: int| #![trigger s[j]] i <= j < s.len() implies lex_lt(key, s[j].0) by {
            lemma_lex_total(key, s[j].0);
        }
        assert forall|a: int, b: int| #![trigger t[a], t[b]] 0 <= a < b < t.len() implies lex_lt(
            t[a].0,
            t[b].0,
        ) by {
            let a0 = if a < i { a } else { a - 1 };
            let b0 = if b < i { b } else { b - 1 };
            if a != i {
                assert(t[a] == s[a0]);
            }
            if b != i {
                assert(t[b] == s[b0]);
            }
        }
        assert(t[i].0 == key);
        lemma_lookup_at(t, i);
        assert forall|other: Seq<u8>| #![trigger lookup(t, other)] other != key implies lookup(
            t,
            other,
        ) == lookup(s, other) by {
            if has_key(s, other) {
                let d = index_of_key(s, other);
                let e = if d < i { d } else { d + 1 };
                assert(t[e] == s[d]);
                lemma_lookup_at(t, e);
                lemma_lookup_at(s, d);
            } else if has_key(t, other) {
                let d = index_of_key(t, other);
                let e = if d < i { d } else { d - 1 };
                assert(t[d] == s[e]);
            }
        }
    }
}

/// A row is found under its own key.
pub proof fn lemma_lookup_at<V>(s: Seq<(Seq<u8>, V)>, i: int)
    requires
        ascending(s),
        0 <= i < s.len(),
    ensures
        has_key(s, s[i].0),
        index_of_key(s, s[i].0) == i,
        lookup(s, s[i].0) == Some(s[i].1),
{
    let d = index_of_key(s, s[i].0);
    lemma_lex_irreflexive(s[i].0);
    if d < i {
        assert(lex_lt(s[d].0, s[i].0));
    }
    if i < d {
        assert(lex_lt(s[i].0, s[d].0));
    }
}

/// Dropping a row keeps the keys ascending, leaves nothing under its key, and
/// leaves every other key alone.
pub proof fn lemma_without_row<V>(s: Seq<(Seq<u8>, V)>, key: Seq<u8>)
    requires
        ascending(s),
    ensures
        ascending(without_row(s, key)),
        lookup(without_row(s, key), key) is None,
        forall|other: Seq<u8>|
            #![trigger lookup(without_row(s, key), other)]
            other != key ==> lookup(without_row(s, key), other) == lookup(s, other),
{
    let t = without_row(s, key);
    if has_key(s, key) {
        let i = index_of_key(s, key);
        assert forall|a: int, b: int| #![trigger t[a], t[b]] 0 <= a < b < t.len() implies lex_lt(
            t[a].0,
            t[b].0,
        ) by {
            let a0 = if a < i { a } else { a + 1 };
            let b0 = if b < i { b } else { b + 1 };
            assert(t[a] == s[a0]);
            assert(t[b] == s[b0]);
        }
        if has_key(t, key) {
            let d = index_of_key(t, key);
            let e = if d < i { d } else { d + 1 };
            assert(t[d] == s[e]);
            lemma_lookup_at(s, e);
        }
        assert forall|other: Seq<u8>| #![trigger lookup(t, other)] other != key implies lookup(
            t,
            other,
        ) == lookup(s, other) by {
            if has_key(s, other) {
                let d = index_of_key(s, other);
                let e = if d < i { d } else { d - 1 };
                assert(t[e] == s[d]);
                lemma_lookup_at(t, e);
                lemma_lookup_at(s, d);
            } else if has_key(t, other) {
                let d = index_of_key(t, other);
                let e = if d < i { d } else { d + 1 };
                assert(t[d] == s[e]);
            }
        }
    }
}

/// A range deletion takes exactly the keys in the range.
pub proof fn lemma_range_deleted<V>(
    before: Seq<(Seq<u8>, V)>,
    start: Seq<u8>,
    end: Seq<u8>,
    after: Seq<(Seq<u8>, V)>,
    removed: u64,
    key: Seq<u8>,
)
    requires
        ascending(before),
        ascending(after),
        range_deleted(before, start, end, after, removed),
    ensures
        lookup(after, key) == if lex_le(start, key) && lex_lt(key, end) {
            None
        } else {
            lookup(before, key)
        },
{
    let (lo, hi) = choose|lo: int, hi: int|
        #[trigger] is_range_cut(before, start, end, after, lo, hi) && removed == hi - lo;
    if has_key(after, key) {
        let d = index_of_key(after, key);
        let e = if d < lo { d } else { d + (hi - lo) };
        assert(after[d] == before[e]);
        lemma_lookup_at(after, d);
        lemma_lookup_at(before, e);
    } else if has_key(before, key) {
        let e = index_of_key(before, key);
        if !(lo <= e < hi) {
            let d = if e < lo { e } else { e - (hi - lo) };
            assert(after[d] == before[e]);
        }
    }
}

/// The rows that a store's pages hold under a root. A root of 0 is an empty tree.
pub open spec fn rows_at<V>(pages: Map<u64, Seq<(Seq<u8>, V)>>, root: u64) -> Seq<(Seq<u8>, V)> {
    if root == 0 {
        Seq::empty()
    } else {
        pages[root]
    }
}

impl<V: View> BTree<V> {
    /// The rows in key order.
    pub closed spec fn view(&self) -> Seq<(Seq<u8>, V::V)> {
        Seq::new(self.rows@.len(), |i: int| (self.rows@[i].key@, self.rows@[i].value@))
    }

    /// The page the tree is rooted at.
    pub closed spec fn root(&self) -> u64 {
        self.root_page_id
    }

    /// The allocation cursor.
    pub closed spec fn next(&self) -> u64 {
        self.next_page_id
    }

    /// Keys strictly ascend.
    pub open spec fn wf(&self) -> bool {
        ascending(self@)
    }

    /// Whether these are the rows that the store's pages hold under the tree's
    /// root.
    pub open spec fn is_stored(&self, pages: Map<u64, Seq<(Seq<u8>, V::V)>>) -> bool {
        self@ == rows_at(pages, self.root())
    }

    /// An empty tree at the given root and cursor.
    pub fn new(root_page_id: u64, next_page_id: u64) -> (t: BTree<V>)
        ensures
            t.wf(),
            t@ == Seq::<(Seq<u8>, V::V)>::empty(),
            t.root() == root_page_id,
            t.next() == next_page_id,
    {
        let t: BTree<V> = BTree { rows: Vec::new(), root_page_id, next_page_id };
        proof {
            assert(t@ =~= Seq::<(Seq<u8>, V::V)>::empty());
        }
        t
    }

    /// The page the tree is rooted at.
    pub fn root_page_id(&self) -> (root: u64)
        ensures
            root == self.root(),
    {
        self.root_page_id
    }

    /// The allocation cursor.
    pub fn next_page_id(&self) -> (next: u64)
        ensures
            next == self.next(),
    {
        self.next_page_id
    }

    /// Moves the allocation cursor.
    pub fn set_next_page_id(&mut self, next_page_id: u64)
        ensures
            final(self)@ == old(self)@,
            final(self).root() == old(self).root(),
            final(self).next() == next_page_id,
    {
        self.next_page_id = next_page_id;
        proof {
            assert(self@ =~= old(self)@);
        }
    }

    /// Records where a flush put the tree.
    pub fn set_pages(&mut self, root_page_id: u64, next_page_id: u64)
        ensures
            final(self)@ == old(self)@,
            final(self).root() == root_page_id,
            final(self).next() == next_page_id,
    {
        self.root_page_id = root_page_id;
        self.next_page_id = next_page_id;
        proof {
            assert(self@ =~= old(self)@);
        }
    }

    /// How many rows there are.
    pub fn len(&self) -> (n: usize)
        ensures
            n == self@.len(),
    {
        self.rows.len()
    }

    /// The key of row `i`.
    pub fn key_at(&self, i: usize) -> (key: &Vec<u8>)
        requires
            i < self@.len(),
        ensures
            key@ == self@[i as int].0,
    {
        &self.rows[i].key
    }

    /// The value of row `i`.
    pub fn value_at(&self, i: usize) -> (value: &V)
        requires
            i < self@.len(),
        ensures
            value@ == self@[i as int].1,
    {
        &self.rows[i].value
    }

    /// How many rows come before `key`.
    pub fn lower_bound(&self, key: &[u8]) -> (i: usize)
        requires
            self.wf(),
        ensures
            is_slot(self@, key@, i as int),
    {
        let mut lo: usize = 0;
        let mut hi: usize = self.rows.len();
        while lo < hi
            invariant
                self.wf(),
                lo <= hi <= self@.len(),
                forall|j: int| #![trigger self@[j]] 0 <= j < lo ==> lex_lt(self@[j].0, key@),
                forall|j: int|
                    #![trigger self@[j]]
                    hi <= j < self@.len() ==> !lex_lt(self@[j].0, key@),
            decreases hi - lo,
        {
            let mid: usize = lo + (hi - lo) / 2;
            let ghost m = self@[mid as int];
            if key_before(&self.rows[mid].key, key) {
                proof {
                    assert forall|j: int| #![trigger self@[j]] 0 <= j <= mid implies lex_lt(
                        self@[j].0,
                        key@,
                    ) by {
                        if j < mid {
                            assert(lex_lt(self@[j].0, m.0));
                            lemma_lex_transitive(self@[j].0, m.0, key@);
                        }
                    }
                }
                lo = mid + 1;
            } else {
                proof {
                    assert forall|j: int| #![trigger self@[j]] mid <= j < self@.len() implies !lex_lt(
                        self@[j].0,
                        key@,
                    ) by {
                        if j > mid && lex_lt(self@[j].0, key@) {
                            assert(lex_lt(m.0, self@[j].0));
                            lemma_lex_transitive(m.0, self@[j].0, key@);
                        }
                    }
                }
                hi = mid;
            }
        }
        lo
    }

    /// The value under `key`, if there is one.
    pub fn get(&self, key: &[u8]) -> (value: Option<&V>)
        requires
            self.wf(),
        ensures
            match value {
                Some(v) => lookup(self@, key@) == Some(v@),
                None => lookup(self@, key@) is None,
            },
    {
        let i: usize = self.lower_bound(key);
        proof {
            lemma_slot(self@, key@, i as int);
        }
        if i < self.rows.len() && same_bytes(&self.rows[i].key, key) {
            proof {
                assert(self@[i as int].0 == key@);
            }
            Some(&self.rows[i].value)
        } else {
            None
        }
    }

    /// Stores `value` under `key`.
    pub fn put(&mut self, key: &[u8], value: V)
        requires
            old(self).wf(),
        ensures
            final(self).wf(),
            final(self)@ == with_row(old(self)@, key@, value@),
            final(self).root() == old(self).root(),
            final(self).next() == old(self).next(),
    {
        let i: usize = self.lower_bound(key);
        let present: bool = i < self.rows.len() && same_bytes(&self.rows[i].key, key);
        proof {
            lemma_slot(self@, key@, i as int);
            lemma_with_row(self@, key@, value@, i as int);
            if i < self@.len() {
                assert(self@[i as int].0 == self.rows@[i as int].key@);
            }
        }
        let row: Row<V> = Row { key: copy_bytes(key), value };
        if present {
            self.rows.set(i, row);
            proof {
                assert(self@ =~= old(self)@.update(i as int, (key@, value@)));
            }
        } else {
            self.rows.insert(i, row);
            proof {
                assert(self@ =~= old(self)@.insert(i as int, (key@, value@)));
            }
        }
    }

    /// Drops the row under `key`; says whether there was one.
    pub fn delete(&mut self, key: &[u8]) -> (removed: bool)
        requires
            old(self).wf(),
        ensures
            final(self).wf(),
            removed == has_key(old(self)@, key@),
            final(self)@ == without_row(old(self)@, key@),
            final(self).root() == old(self).root(),
            final(self).next() == old(self).next(),
    {
        let i: usize = self.lower_bound(key);
        proof {
            lemma_slot(self@, key@, i as int);
            lemma_without_row(self@, key@);
            if i < self@.len() {
                assert(self@[i as int].0 == self.rows@[i as int].key@);
            }
        }
        if i < self.rows.len() && same_bytes(&self.rows[i].key, key) {
            self.rows.remove(i);
            proof {
                assert(self@ =~= old(self)@.remove(i as int));
            }
            true
        } else {
            false
        }
    }
}

/// The cursor made from a row's key by appending a zero byte resumes directly
/// after that row: a walk in batches neither skips nor repeats a row.
pub proof fn lemma_resume_after<V>(s: Seq<(Seq<u8>, V)>, i: int)
    requires
        ascending(s),
        0 <= i < s.len(),
    ensures
        is_slot(s, s[i].0.push(0), i + 1),
{
    let k = s[i].0;
    let c = k.push(0);
    lemma_lex_successor(k, k);
    assert forall|j: int| #![trigger s[j]] 0 <= j < i + 1 implies lex_lt(s[j].0, c) by {
        if j < i {
            assert(lex_lt(s[j].0, s[i].0));
            lemma_lex_transitive(s[j].0, k, c);
        }
    }
    assert forall|j: int| #![trigger s[j]] i + 1 <= j < s.len() implies !lex_lt(s[j].0, c) by {
        assert(lex_lt(s[i].0, s[j].0));
        lemma_lex_successor(k, s[j].0);
        if c == s[j].0 {
            lemma_lex_irreflexive(c);
        } else {
            lemma_lex_asymmetric(c, s[j].0);
        }
    }
}

/// Rows that begin with `prefix` and are not before it form one run: once a
/// row without the prefix is met, none follows.
pub proof fn lemma_prefix_ends<V>(s: Seq<(Seq<u8>, V)>, prefix: Seq<u8>, i: int, j: int)
    requires
        ascending(s),
        0 <= i <= j < s.len(),
        !lex_lt(s[i].0, prefix),
        !has_prefix(s[i].0, prefix),
    ensures
        !has_prefix(s[j].0, prefix),
{
    if has_prefix(s[j].0, prefix) {
        lemma_lex_total(s[i].0, prefix);
        if i < j {
            assert(lex_lt(s[i].0, s[j].0));
            lemma_prefix_run(s[i].0, s[j].0, prefix);
        }
    }
}

impl<V: View> BTree<V> {
    /// The first rows at or after `cursor`, `limit` of them at most, as a
    /// range of row numbers.
    pub fn collect_batch_from(&self, cursor: &[u8], limit: usize) -> (range: (usize, usize))
        requires
            self.wf(),
        ensures
            is_slot(self@, cursor@, range.0 as int),
            range.0 <= range.1 <= self@.len(),
            range.1 - range.0 <= limit,
            range.1 - range.0 < limit ==> range.1 == self@.len(),
    {
        let lo: usize = self.lower_bound(cursor);
        let rest: usize = self.rows.len() - lo;
        if rest < limit {
            (lo, self.rows.len())
        } else {
            (lo, lo + limit)
        }
    }

    /// The first rows at or after `cursor` that begin with `prefix`, `limit` of
    /// them at most, as a range of row numbers.
    pub fn collect_prefix_batch_from(&self, prefix: &[u8], cursor: &[u8], limit: usize) -> (range: (
        usize,
        usize,
    ))
        requires
            self.wf(),
            lex_le(prefix@, cursor@),
        ensures
            is_slot(self@, cursor@, range.0 as int),
            range.0 <= range.1 <= self@.len(),
            range.1 - range.0 <= limit,
            forall|j: int| #![trigger self@[j]] range.0 <= j < range.1 ==> has_prefix(self@[j].0, prefix@),
            range.1 - range.0 < limit ==> forall|j: int|
                #![trigger self@[j]]
                range.1 <= j < self@.len() ==> !has_prefix(self@[j].0, prefix@),
    {
        let lo: usize = self.lower_bound(cursor);
        let mut hi: usize = lo;
        while hi < self.rows.len() && hi - lo < limit && starts_with(&self.rows[hi].key, prefix)
            invariant
                self.wf(),
                lo <= hi <= self@.len(),
                hi - lo <= limit,
                forall|j: int| #![trigger self@[j]] lo <= j < hi ==> has_prefix(self@[j].0, prefix@),
            decreases self@.len() - hi,
        {
            proof {
                assert(self@[hi as int].0 == self.rows@[hi as int].key@);
            }
            hi = hi + 1;
        }
        proof {
            if hi - lo < limit && hi < self@.len() {
                let k = self@[hi as int].0;
                assert(k == self.rows@[hi as int].key@);
                assert(!lex_lt(k, prefix@)) by {
                    if lex_lt(k, prefix@) && prefix@ != cursor@ {
                        lemma_lex_transitive(k, prefix@, cursor@);
                    }
                }
                assert forall|j: int| #![trigger self@[j]] hi <= j < self@.len() implies !has_prefix(
                    self@[j].0,
                    prefix@,
                ) by {
                    lemma_prefix_ends(self@, prefix@, hi as int, j);
                }
            }
        }
        (lo, hi)
    }

    /// The rows from `start` up to but not including `end`, as a range of row
    /// numbers.
    pub fn collect_range(&self, start: &[u8], end: &[u8]) -> (range: (usize, usize))
        requires
            self.wf(),
        ensures
            range.0 <= range.1 <= self@.len(),
            forall|j: int|
                #![trigger self@[j]]
                0 <= j < self@.len() ==> (range.0 <= j < range.1 <==> lex_le(start@, self@[j].0)
                    && lex_lt(self@[j].0, end@)),
    {
        let lo: usize = self.lower_bound(start);
        let hi: usize = self.lower_bound(end);
        proof {
            assert forall|j: int| #![trigger self@[j]] 0 <= j < self@.len() implies (lo <= j
                <==> lex_le(start@, self@[j].0)) by {
                lemma_lex_total(start@, self@[j].0);
                if lex_lt(start@, self@[j].0) {
                    lemma_lex_asymmetric(start@, self@[j].0);
                }
                lemma_lex_irreflexive(start@);
            }
        }
        if hi < lo {
            (lo, lo)
        } else {
            (lo, hi)
        }
    }

    /// The rows whose keys begin with `prefix`, as a range of row numbers.
    pub fn prefix_range(&self, prefix: &[u8]) -> (range: (usize, usize))
        requires
            self.wf(),
        ensures
            range.0 <= range.1 <= self@.len(),
            forall|j: int|
                #![trigger self@[j]]
                0 <= j < self@.len() ==> (range.0 <= j < range.1 <==> has_prefix(
                    self@[j].0,
                    prefix@,
                )),
    {
        let len: usize = self.rows.len();
        let (lo, hi) = self.collect_prefix_batch_from(prefix, prefix, len);
        proof {
            assert forall|j: int| #![trigger self@[j]] 0 <= j < self@.len() implies (lo <= j < hi
                <==> has_prefix(self@[j].0, prefix@)) by {
                if has_prefix(self@[j].0, prefix@) {
                    lemma_prefix_le(self@[j].0, prefix@);
                    if prefix@ == self@[j].0 {
                        lemma_lex_irreflexive(prefix@);
                    } else {
                        lemma_lex_asymmetric(prefix@, self@[j].0);
                    }
                }
            }
        }
        (lo, hi)
    }

    /// Drops the rows from `start` up to but not including `end`; says how
    /// many there were.
    pub fn delete_range(&mut self, start: &[u8], end: &[u8]) -> (removed: u64)
        requires
            old(self).wf(),
        ensures
            final(self).wf(),
            final(self).root() == old(self).root(),
            final(self).next() == old(self).next(),
            range_deleted(old(self)@, start@, end@, final(self)@, removed),
    {
        let (lo, hi) = self.collect_range(start, end);
        let ghost before = self@;
        let mut n: usize = lo;
        while n < hi
            invariant
                lo <= n <= hi <= before.len(),
                self.rows@.len() == before.len() - (n - lo),
                self@ == before.subrange(0, lo as int) + before.subrange(n as int, before.len() as int),
                self.root() == old(self).root(),
                self.next() == old(self).next(),
            decreases hi - n,
        {
            let ghost cur = self@;
            self.rows.remove(lo);
            proof {
                assert(self@ =~= cur.remove(lo as int));
                assert(self@ =~= before.subrange(0, lo as int) + before.subrange(
                    n + 1,
                    before.len() as int,
                ));
            }
            n = n + 1;
        }
        proof {
            let s = self@;
            assert forall|a: int, b: int| #![trigger s[a], s[b]] 0 <= a < b < s.len() implies lex_lt(
                s[a].0,
                s[b].0,
            ) by {
                let a0 = if a < lo { a } else { a + (hi - lo) };
                let b0 = if b < lo { b } else { b + (hi - lo) };
                assert(s[a] == before[a0]);
                assert(s[b] == before[b0]);
            }
            assert(is_range_cut(before, start@, end@, self@, lo as int, hi as int));
        }
        (hi - lo) as u64
    }

    /// The smallest key, if there is a row.
    pub fn first_key(&self) -> (key: Option<&Vec<u8>>)
        ensures
            match key {
                Some(k) => self@.len() > 0 && k@ == self@[0].0,
                None => self@.len() == 0,
            },
    {
        if self.rows.len() == 0 {
            None
        } else {
            Some(&self.rows[0].key)
        }
    }
}

} // verus!
