//! The session itself and its operations on rows.

use vstd::prelude::*;

use crate::catalog::CatalogValue;
use crate::codec::copy_bytes;
use crate::db::handle::{poison_kept, Db};
use crate::errors::{PagedbError, Result};
use crate::ids::RealmId;
use crate::order::{key_before, lex_le, lex_lt};
use crate::tree::{
    ascending, has_key, is_slot, lemma_range_deleted, lemma_slot_exists, lemma_with_row,
    lemma_without_row, lookup, range_deleted, with_row, without_row, BTree, TreePages,
};

use super::spill::SpillSegmentMeta;

verus! {

/// Deferred filesystem operation applied after the header is durable. A
/// tombstone without a commit of its own carries that of the commit.
#[derive(Debug, Clone, Copy)]
pub enum SegmentSideEffect {
    Promote { segment_id: [u8; 16] },
    Tombstone { segment_id: [u8; 16], tombstone_commit_id: Option<u64> },
}

/// An exclusive write transaction over the rows that the handle had at its
/// start. Nothing it does is visible before its commit.
pub struct WriteTxn {
    pub realm_id: RealmId,
    pub btree: BTree<Vec<u8>>,
    pub catalog_tree: BTree<CatalogValue>,
    pub pending_segments: Vec<SegmentSideEffect>,
    /// Pages below this may not be recycled within the session.
    pub reuse_threshold: u64,
    /// Number of this session on its handle, from 1 on.
    pub txn_seq: u64,
    /// The spill file, once something was appended to it.
    pub spill_path: Option<String>,
    /// Bytes in the spill file, tags included.
    pub spill_bytes_used: u64,
    pub spill_segments: Vec<SpillSegmentMeta>,
    /// The key that was last appended in order.
    pub last_appended: Option<Vec<u8>>,
}

/// The rows once each of a batch is stored, in order.
pub open spec fn with_rows(
    s: Seq<(Seq<u8>, Seq<u8>)>,
    batch: Seq<(Vec<u8>, Vec<u8>)>,
) -> Seq<(Seq<u8>, Seq<u8>)>
    decreases batch.len(),
{
    if batch.len() == 0 {
        s
    } else {
        with_row(with_rows(s, batch.drop_last()), batch.last().0@, batch.last().1@)
    }
}

/// The rows once each of a batch of keys is deleted, in order.
pub open spec fn without_rows(s: Seq<(Seq<u8>, Seq<u8>)>, keys: Seq<Vec<u8>>) -> Seq<
    (Seq<u8>, Seq<u8>),
>
    decreases keys.len(),
{
    if keys.len() == 0 {
        s
    } else {
        without_row(without_rows(s, keys.drop_last()), keys.last()@)
    }
}

impl WriteTxn {
    /// Both trees hold their rows in key order.
    pub open spec fn wf(&self) -> bool {
        self.btree.wf() && self.catalog_tree.wf()
    }

    /// Begins a session on the trees under the handle's roots. While a reader
    /// is registered, pages freed by earlier commits are not recycled: only
    /// those allocated in the session itself are.
    pub fn begin(db: &mut Db, btree: BTree<Vec<u8>>, catalog_tree: BTree<CatalogValue>) -> (txn:
        WriteTxn)
        requires
            old(db).txn_seq < u64::MAX,
            btree.wf(),
            btree.root() == old(db).writer.root_page_id,
            catalog_tree.wf(),
            catalog_tree.root() == old(db).writer.catalog_root_page_id,
        ensures
            poison_kept(*old(db), *final(db)),
            *final(db) == (Db { txn_seq: (old(db).txn_seq + 1) as u64, ..*old(db) }),
            txn.wf(),
            txn.realm_id == old(db).realm_id,
            txn.btree@ == btree@,
            txn.btree.root() == old(db).writer.root_page_id,
            txn.btree.next() == old(db).writer.next_page_id,
            txn.catalog_tree@ == catalog_tree@,
            txn.catalog_tree.root() == old(db).writer.catalog_root_page_id,
            txn.catalog_tree.next() == old(db).writer.next_page_id,
            txn.pending_segments@.len() == 0,
            txn.reuse_threshold == if old(db).tracked_readers@.len() == 0 {
                0
            } else {
                old(db).writer.next_page_id
            },
            txn.txn_seq == old(db).txn_seq + 1,
            txn.spill_path is None,
            txn.spill_bytes_used == 0,
            txn.spill_segments@.len() == 0,
            txn.spill_wf(),
            txn.last_appended is None,
    {
        let mut data: BTree<Vec<u8>> = btree;
        let mut catalog: BTree<CatalogValue> = catalog_tree;
        data.set_next_page_id(db.writer.next_page_id);
        catalog.set_next_page_id(db.writer.next_page_id);
        let reuse_threshold: u64 = if db.tracked_readers.len() == 0 {
            0
        } else {
            db.writer.next_page_id
        };
        db.txn_seq = db.txn_seq + 1;
        WriteTxn {
            realm_id: db.realm_id,
            btree: data,
            catalog_tree: catalog,
            pending_segments: Vec::new(),
            reuse_threshold,
            txn_seq: db.txn_seq,
            spill_path: None,
            spill_bytes_used: 0,
            spill_segments: Vec::new(),
            last_appended: None,
        }
    }

    /// The value under `key`, as the session sees it.
    pub fn get(&self, key: &[u8]) -> (value: Option<&Vec<u8>>)
        requires
            self.wf(),
        ensures
            match value {
                Some(v) => lookup(self.btree@, key@) == Some(v@),
                None => lookup(self.btree@, key@) is None,
            },
    {
        self.btree.get(key)
    }

    /// Stores `value` under `key`.
    pub fn put(&mut self, key: &[u8], value: &[u8])
        requires
            old(self).wf(),
        ensures
            final(self).wf(),
            *final(self) == (WriteTxn { btree: final(self).btree, ..*old(self) }),
            final(self).btree@ == with_row(old(self).btree@, key@, value@),
            final(self).btree.root() == old(self).btree.root(),
            final(self).btree.next() == old(self).btree.next(),
    {
        self.btree.put(key, copy_bytes(value));
    }

    /// Stores `value` under `key`, which must come after every key appended
    /// this way before in the session.
    pub fn put_append(&mut self, key: &[u8], value: &[u8]) -> (r: Result<()>)
        requires
            old(self).wf(),
        ensures
            final(self).wf(),
            ({
                let in_order = old(self).last_appended is None || lex_lt(
                    old(self).last_appended->0@,
                    key@,
                );
                if in_order {
                    &&& r is Ok
                    &&& *final(self) == (WriteTxn {
                        btree: final(self).btree,
                        last_appended: final(self).last_appended,
                        ..*old(self)
                    })
                    &&& final(self).btree@ == with_row(old(self).btree@, key@, value@)
                    &&& final(self).btree.root() == old(self).btree.root()
                    &&& final(self).btree.next() == old(self).btree.next()
                    &&& final(self).last_appended is Some
                    &&& final(self).last_appended->0@ == key@
                } else {
                    &&& r == Err::<(), PagedbError>(PagedbError::AppendNotMonotonic)
                    &&& *final(self) == *old(self)
                }
            }),
    {
        let in_order: bool = match &self.last_appended {
            Some(last) => key_before(last, key),
            None => true,
        };
        if !in_order {
            return Err(PagedbError::AppendNotMonotonic);
        }
        self.btree.put(key, copy_bytes(value));
        self.last_appended = Some(copy_bytes(key));
        Ok(())
    }

    /// Deletes the row under `key`; says whether there was one.
    pub fn delete(&mut self, key: &[u8]) -> (removed: bool)
        requires
            old(self).wf(),
        ensures
            final(self).wf(),
            *final(self) == (WriteTxn { btree: final(self).btree, ..*old(self) }),
            removed == has_key(old(self).btree@, key@),
            final(self).btree@ == without_row(old(self).btree@, key@),
            final(self).btree.root() == old(self).btree.root(),
            final(self).btree.next() == old(self).btree.next(),
    {
        self.btree.delete(key)
    }

    /// Stores a batch of rows, in order.
    pub fn put_batch(&mut self, sorted: Vec<(Vec<u8>, Vec<u8>)>)
        requires
            old(self).wf(),
        ensures
            final(self).wf(),
            *final(self) == (WriteTxn { btree: final(self).btree, ..*old(self) }),
            final(self).btree@ == with_rows(old(self).btree@, sorted@),
            final(self).btree.root() == old(self).btree.root(),
            final(self).btree.next() == old(self).btree.next(),
    {
        let mut i: usize = 0;
        while i < sorted.len()
            invariant
                i <= sorted@.len(),
                self.wf(),
                *self == (WriteTxn { btree: self.btree, ..*old(self) }),
                self.btree@ == with_rows(old(self).btree@, sorted@.take(i as int)),
                self.btree.root() == old(self).btree.root(),
                self.btree.next() == old(self).btree.next(),
            decreases sorted@.len() - i,
        {
            proof {
                assert(sorted@.take(i + 1).drop_last() =~= sorted@.take(i as int));
                assert(sorted@.take(i + 1).last() == sorted@[i as int]);
            }
            self.btree.put(&sorted[i].0, copy_bytes(&sorted[i].1));
            i = i + 1;
        }
        proof {
            assert(sorted@.take(i as int) =~= sorted@);
        }
    }

    /// Deletes the rows under a batch of keys, in order.
    pub fn delete_batch(&mut self, sorted: Vec<Vec<u8>>)
        requires
            old(self).wf(),
        ensures
            final(self).wf(),
            *final(self) == (WriteTxn { btree: final(self).btree, ..*old(self) }),
            final(self).btree@ == without_rows(old(self).btree@, sorted@),
            final(self).btree.root() == old(self).btree.root(),
            final(self).btree.next() == old(self).btree.next(),
    {
        let mut i: usize = 0;
        while i < sorted.len()
            invariant
                i <= sorted@.len(),
                self.wf(),
                *self == (WriteTxn { btree: self.btree, ..*old(self) }),
                self.btree@ == without_rows(old(self).btree@, sorted@.take(i as int)),
                self.btree.root() == old(self).btree.root(),
                self.btree.next() == old(self).btree.next(),
            decreases sorted@.len() - i,
        {
            proof {
                assert(sorted@.take(i + 1).drop_last() =~= sorted@.take(i as int));
                assert(sorted@.take(i + 1).last() == sorted@[i as int]);
            }
            let _ = self.btree.delete(&sorted[i]);
            i = i + 1;
        }
        proof {
            assert(sorted@.take(i as int) =~= sorted@);
        }
    }

    /// Deletes the rows from `start` up to but not including `end`; says how
    /// many there were.
    pub fn delete_range(&mut self, start: &[u8], end: &[u8]) -> (removed: u64)
        requires
            old(self).wf(),
        ensures
            final(self).wf(),
            *final(self) == (WriteTxn { btree: final(self).btree, ..*old(self) }),
            range_deleted(old(self).btree@, start@, end@, final(self).btree@, removed),
            final(self).btree.root() == old(self).btree.root(),
            final(self).btree.next() == old(self).btree.next(),
    {
        self.btree.delete_range(start, end)
    }

    /// Before a catalog operation: the catalog tree allocates from above the
    /// data tree's cursor, so that neither hands out the other's pages.
    pub fn sync_allocator_to_catalog(&mut self)
        ensures
            *final(self) == (WriteTxn { catalog_tree: final(self).catalog_tree, ..*old(self) }),
            final(self).catalog_tree@ == old(self).catalog_tree@,
            final(self).catalog_tree.root() == old(self).catalog_tree.root(),
            final(self).catalog_tree.next() == later_cursor(
                old(self).btree.next(),
                old(self).catalog_tree.next(),
            ),
    {
        let data_next: u64 = self.btree.next_page_id();
        let catalog_next: u64 = self.catalog_tree.next_page_id();
        self.catalog_tree.set_next_page_id(
            if data_next >= catalog_next {
                data_next
            } else {
                catalog_next
            },
        );
    }

    /// After a catalog operation: the data tree allocates from above what the
    /// catalog tree took.
    pub fn sync_allocator_from_catalog(&mut self)
        ensures
            *final(self) == (WriteTxn { btree: final(self).btree, ..*old(self) }),
            final(self).btree@ == old(self).btree@,
            final(self).btree.root() == old(self).btree.root(),
            final(self).btree.next() == old(self).catalog_tree.next(),
    {
        let catalog_next: u64 = self.catalog_tree.next_page_id();
        self.btree.set_next_page_id(catalog_next);
    }

    /// Records where both trees were written to. Their rows stay.
    pub fn flush(&mut self, data: &TreePages, catalog: &TreePages)
        requires
            old(self).wf(),
        ensures
            final(self).wf(),
            *final(self) == (WriteTxn {
                btree: final(self).btree,
                catalog_tree: final(self).catalog_tree,
                ..*old(self)
            }),
            final(self).btree@ == old(self).btree@,
            final(self).btree.root() == data.root_page_id,
            final(self).btree.next() == data.next_page_id,
            final(self).catalog_tree@ == old(self).catalog_tree@,
            final(self).catalog_tree.root() == catalog.root_page_id,
            final(self).catalog_tree.next() == catalog.next_page_id,
    {
        self.btree.set_pages(data.root_page_id, data.next_page_id);
        self.catalog_tree.set_pages(catalog.root_page_id, catalog.next_page_id);
    }

    /// Ends the session without a commit: nothing of it becomes durable. Hands
    /// back the spill file, if there is one, for removal.
    pub fn abort(self, db: &mut Db) -> (spill: Option<String>)
        ensures
            poison_kept(*old(db), *final(db)),
            *final(db) == (Db { spill_bytes_in_use: 0, ..*old(db) }),
            spill == self.spill_path,
    {
        db.spill_bytes_in_use = 0;
        self.spill_path
    }

    /// Ends a session that was let go without a commit or an abort. Nothing of
    /// it becomes durable; its spill file, if there is one, is noted for the
    /// next session to remove.
    pub fn let_go(self, db: &mut Db)
        ensures
            poison_kept(*old(db), *final(db)),
            *final(db) == (Db {
                spill_bytes_in_use: 0,
                orphaned_spill_paths: final(db).orphaned_spill_paths,
                ..*old(db)
            }),
            final(db).orphaned_spill_paths@ == match self.spill_path {
                Some(path) => old(db).orphaned_spill_paths@.push(path),
                None => old(db).orphaned_spill_paths@,
            },
    {
        db.spill_bytes_in_use = 0;
        match self.spill_path {
            Some(path) => db.orphaned_spill_paths.push(path),
            None => {},
        }
    }
}

/// No scratch is forgotten: the file of a session that was let go is handed over
/// when the next one begins, however many were let go before it, and only then.
/// `dropped` are those sessions in order, and `states` the handle before and
/// after each.
pub proof fn law_dropped_scratch_is_handed_over(
    dropped: Seq<WriteTxn>,
    states: Seq<Db>,
    paths: Seq<String>,
    i: int,
)
    requires
        states.len() == dropped.len() + 1,
        forall|j: int|
            0 <= j < dropped.len() ==> #[trigger] states[j + 1].orphaned_spill_paths@ == match dropped[j].spill_path {
                Some(path) => states[j].orphaned_spill_paths@.push(path),
                None => states[j].orphaned_spill_paths@,
            },
        paths == states.last().orphaned_spill_paths@,
        0 <= i < dropped.len(),
        dropped[i].spill_path is Some,
    ensures
        paths.contains(dropped[i].spill_path->0),
    decreases dropped.len(),
{
    let n = dropped.len() - 1;
    let before = states[n].orphaned_spill_paths@;
    assert(states[n + 1] == states.last());
    if i == n {
        assert(paths[before.len() as int] == dropped[i].spill_path->0);
    } else {
        let fewer = states.drop_last();
        assert forall|j: int|
            0 <= j < dropped.drop_last().len() implies #[trigger] fewer[j + 1].orphaned_spill_paths@
            == match dropped.drop_last()[j].spill_path {
            Some(path) => fewer[j].orphaned_spill_paths@.push(path),
            None => fewer[j].orphaned_spill_paths@,
        } by {
            assert(fewer[j + 1] == states[j + 1]);
        }
        law_dropped_scratch_is_handed_over(dropped.drop_last(), fewer, before, i);
        let at = before.index_of(dropped[i].spill_path->0);
        assert(paths[at] == before[at]);
    }
}

/// The later of two allocation cursors.
pub open spec fn later_cursor(a: u64, b: u64) -> u64 {
    if a >= b {
        a
    } else {
        b
    }
}

/// The value that a batch leaves under a key, if the batch stores that key: the
/// last one it stores there.
pub open spec fn batch_value(batch: Seq<(Vec<u8>, Vec<u8>)>, key: Seq<u8>) -> Option<Seq<u8>>
    decreases batch.len(),
{
    if batch.len() == 0 {
        None
    } else if batch.last().0@ == key {
        Some(batch.last().1@)
    } else {
        batch_value(batch.drop_last(), key)
    }
}

/// Whether a batch deletes a key.
pub open spec fn batch_deletes(keys: Seq<Vec<u8>>, key: Seq<u8>) -> bool {
    exists|i: int| 0 <= i < keys.len() && (#[trigger] keys[i])@ == key
}

/// A read gives back what was written: a stored value is found under its key, a
/// deleted row is not found, and no other key notices.
pub proof fn law_reads_give_back_writes(
    s: Seq<(Seq<u8>, Seq<u8>)>,
    key: Seq<u8>,
    value: Seq<u8>,
    other: Seq<u8>,
)
    requires
        ascending(s),
        other != key,
    ensures
        lookup(with_row(s, key, value), key) == Some(value),
        lookup(with_row(s, key, value), other) == lookup(s, other),
        lookup(without_row(s, key), key) is None,
        lookup(without_row(s, key), other) == lookup(s, other),
{
    lemma_slot_exists(s, key);
    let i = choose|i: int| is_slot(s, key, i);
    lemma_with_row(s, key, value, i);
    lemma_without_row(s, key);
}

/// After a batch of stores a key holds the last value that the batch stored
/// there, and what it held before when the batch does not store it.
pub proof fn law_batch_stores_its_last_values(
    s: Seq<(Seq<u8>, Seq<u8>)>,
    batch: Seq<(Vec<u8>, Vec<u8>)>,
    key: Seq<u8>,
)
    requires
        ascending(s),
    ensures
        ascending(with_rows(s, batch)),
        lookup(with_rows(s, batch), key) == match batch_value(batch, key) {
            Some(value) => Some(value),
            None => lookup(s, key),
        },
    decreases batch.len(),
{
    if batch.len() > 0 {
        let front = batch.drop_last();
        law_batch_stores_its_last_values(s, front, key);
        let before = with_rows(s, front);
        let k = batch.last().0@;
        lemma_slot_exists(before, k);
        let i = choose|i: int| is_slot(before, k, i);
        lemma_with_row(before, k, batch.last().1@, i);
        assert(lookup(with_row(before, k, batch.last().1@), key) == if key == k {
            Some(batch.last().1@)
        } else {
            lookup(before, key)
        });
    }
}

/// After a batch of deletions the keys of the batch are gone, and every other key
/// holds what it held.
pub proof fn law_batch_deletes_its_keys(
    s: Seq<(Seq<u8>, Seq<u8>)>,
    keys: Seq<Vec<u8>>,
    key: Seq<u8>,
)
    requires
        ascending(s),
    ensures
        ascending(without_rows(s, keys)),
        lookup(without_rows(s, keys), key) == if batch_deletes(keys, key) {
            None
        } else {
            lookup(s, key)
        },
    decreases keys.len(),
{
    if keys.len() > 0 {
        let front = keys.drop_last();
        law_batch_deletes_its_keys(s, front, key);
        let before = without_rows(s, front);
        let k = keys.last()@;
        lemma_without_row(before, k);
        assert(keys[keys.len() - 1] == keys.last());
        assert(lookup(without_row(before, k), key) == if key == k {
            None
        } else {
            lookup(before, key)
        });
        if batch_deletes(front, key) {
            let i = choose|i: int| 0 <= i < front.len() && (#[trigger] front[i])@ == key;
            assert(keys[i]@ == key);
        }
        if batch_deletes(keys, key) && key != k {
            let i = choose|i: int| 0 <= i < keys.len() && (#[trigger] keys[i])@ == key;
            assert(front[i]@ == key);
        }
    }
}

/// A range deletion takes exactly the keys from `start` up to but not including
/// `end`.
pub proof fn law_range_delete_is_exact(
    s: Seq<(Seq<u8>, Seq<u8>)>,
    start: Seq<u8>,
    end: Seq<u8>,
    after: Seq<(Seq<u8>, Seq<u8>)>,
    removed: u64,
    key: Seq<u8>,
)
    requires
        ascending(s),
        ascending(after),
        range_deleted(s, start, end, after, removed),
    ensures
        lookup(after, key) == if lex_le(start, key) && lex_lt(key, end) {
            None
        } else {
            lookup(s, key)
        },
{
    lemma_range_deleted(s, start, end, after, removed, key);
}

} // verus!
