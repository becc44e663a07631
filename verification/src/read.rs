//! `ReadTxn`: a snapshot read pin.

use vstd::prelude::*;
use vstd::string::StringSliceAdditionalSpecFns;

use crate::catalog::{segment_key_spec, Catalog, CatalogValue, SegmentMeta, MAX_SEGMENT_NAME_LEN};
use crate::codec::copy_bytes;
use crate::db::handle::{poison_kept, Db};
use crate::db::reader::unregistered;
use crate::db::rekey::keyring::EpochKeyring;
use crate::db::rekey::stages::retired_ids;
use crate::db::segment::{collect_segments, lists_prefix, prefix_malformed};
use crate::errors::{PagedbError, Result};
use crate::ids::{CommitId, RealmId};
use crate::order::{has_prefix, lex_le, lex_lt};
use crate::tree::{ascending, index_of_key, lemma_lookup_at, lookup, BTree};

verus! {

/// A snapshot-isolated read handle: the roots and the allocation cursor at the
/// time the transaction was opened. What it reads are the rows under those
/// roots.
#[derive(Debug)]
pub struct ReadTxn {
    pub commit_id: CommitId,
    pub root_page_id: u64,
    pub next_page_id: u64,
    pub catalog_root_page_id: u64,
    pub entry_id: u64,
    pub realm_id: RealmId,
    /// The `(pid, lease_id)` of the durable pin row, if one was written.
    pub durable_pin: Option<(u32, u64)>,
}

/// Whether `out` are the rows `rows`.
pub open spec fn are_rows(out: Seq<(Vec<u8>, Vec<u8>)>, rows: Seq<(Seq<u8>, Seq<u8>)>) -> bool {
    &&& out.len() == rows.len()
    &&& forall|i: int|
        #![trigger out[i]]
        0 <= i < out.len() ==> out[i].0@ == rows[i].0 && out[i].1@ == rows[i].1
}

/// Whether the rows from `lo` up to but not including `hi` are those with a key
/// from `start` up to but not including `end`.
pub open spec fn is_key_range(
    s: Seq<(Seq<u8>, Seq<u8>)>,
    start: Seq<u8>,
    end: Seq<u8>,
    lo: int,
    hi: int,
) -> bool {
    &&& 0 <= lo <= hi <= s.len()
    &&& forall|j: int|
        #![trigger s[j]]
        0 <= j < s.len() ==> (lo <= j < hi <==> lex_le(start, s[j].0) && lex_lt(s[j].0, end))
}

/// Whether the rows from `lo` up to but not including `hi` are those whose key
/// begins with `prefix`.
pub open spec fn is_prefix_range(s: Seq<(Seq<u8>, Seq<u8>)>, prefix: Seq<u8>, lo: int, hi: int) -> bool {
    &&& 0 <= lo <= hi <= s.len()
    &&& forall|j: int|
        #![trigger s[j]]
        0 <= j < s.len() ==> (lo <= j < hi <==> has_prefix(s[j].0, prefix))
}

fn copy_rows(tree: &BTree<Vec<u8>>, lo: usize, hi: usize) -> (out: Vec<(Vec<u8>, Vec<u8>)>)
    requires
        lo <= hi <= tree@.len(),
    ensures
        are_rows(out@, tree@.subrange(lo as int, hi as int)),
{
    let mut out: Vec<(Vec<u8>, Vec<u8>)> = Vec::new();
    let mut i: usize = lo;
    while i < hi
        invariant
            lo <= i <= hi <= tree@.len(),
            are_rows(out@, tree@.subrange(lo as int, i as int)),
        decreases hi - i,
    {
        out.push((copy_bytes(tree.key_at(i)), copy_bytes(tree.value_at(i))));
        i = i + 1;
    }
    out
}

fn copy_rows_rev(tree: &BTree<Vec<u8>>, lo: usize, hi: usize) -> (out: Vec<(Vec<u8>, Vec<u8>)>)
    requires
        lo <= hi <= tree@.len(),
    ensures
        are_rows(out@, tree@.subrange(lo as int, hi as int).reverse()),
{
    let mut out: Vec<(Vec<u8>, Vec<u8>)> = Vec::new();
    let mut i: usize = hi;
    while i > lo
        invariant
            lo <= i <= hi <= tree@.len(),
            are_rows(out@, tree@.subrange(i as int, hi as int).reverse()),
        decreases i - lo,
    {
        i = i - 1;
        out.push((copy_bytes(tree.key_at(i)), copy_bytes(tree.value_at(i))));
        proof {
            let a = tree@.subrange(i + 1, hi as int).reverse();
            let b = tree@.subrange(i as int, hi as int).reverse();
            assert(b =~= a.push(tree@[i as int]));
        }
    }
    out
}

impl ReadTxn {
    /// Records the durable pin that was written for this reader.
    pub fn with_durable_pin(self, pid: u32, lease_id: u64) -> (txn: ReadTxn)
        ensures
            txn == (ReadTxn { durable_pin: Some((pid, lease_id)), ..self }),
    {
        ReadTxn { durable_pin: Some((pid, lease_id)), ..self }
    }

    /// The commit this snapshot is pinned to.
    pub fn commit_id(&self) -> (commit: CommitId)
        ensures
            commit == self.commit_id,
    {
        self.commit_id
    }

    /// The allocation cursor at the time this snapshot was opened.
    pub fn next_page_id(&self) -> (next: u64)
        ensures
            next == self.next_page_id,
    {
        self.next_page_id
    }

    /// The catalog's root at this snapshot.
    pub fn catalog_root_page_id(&self) -> (root: u64)
        ensures
            root == self.catalog_root_page_id,
    {
        self.catalog_root_page_id
    }

    /// The data tree's root at this snapshot.
    pub fn root_page_id(&self) -> (root: u64)
        ensures
            root == self.root_page_id,
    {
        self.root_page_id
    }

    /// The realm of the store.
    pub fn realm_id(&self) -> (realm: RealmId)
        ensures
            realm == self.realm_id,
    {
        self.realm_id
    }

    /// Whether the stall policy has aborted this reader.
    pub open spec fn is_aborted(&self, db: Db) -> bool {
        db.aborted_readers@.contains(self.entry_id)
    }

    /// What an operation of this reader does to the handle: an abort that was
    /// pending for it is taken off, and nothing else changes.
    pub open spec fn observes(&self, before: Db, after: Db) -> bool {
        &&& after == (Db { aborted_readers: after.aborted_readers, ..before })
        &&& forall|id: u64| #[trigger]
            after.aborted_readers@.contains(id) <==> id != self.entry_id
                && before.aborted_readers@.contains(id)
    }

    /// Fails once if the stall policy has aborted this reader.
    pub fn check_abort(&self, db: &mut Db) -> (r: Result<()>)
        ensures
            poison_kept(*old(db), *final(db)),
            self.observes(*old(db), *final(db)),
            r == if self.is_aborted(*old(db)) {
                Err::<(), PagedbError>(PagedbError::Aborted)
            } else {
                Ok::<(), PagedbError>(())
            },
    {
        if db.take_reader_abort(self.entry_id) {
            Err(PagedbError::Aborted)
        } else {
            Ok(())
        }
    }

    /// The value under `key` at this snapshot. `tree` are the rows under its
    /// data root.
    pub fn get(&self, db: &mut Db, tree: &BTree<Vec<u8>>, key: &[u8]) -> (r: Result<
        Option<Vec<u8>>,
    >)
        requires
            tree.wf(),
            self.root_page_id != 0 ==> tree.root() == self.root_page_id,
        ensures
            poison_kept(*old(db), *final(db)),
            self.observes(*old(db), *final(db)),
            match r {
                Ok(Some(v)) => !self.is_aborted(*old(db)) && self.root_page_id != 0 && lookup(
                    tree@,
                    key@,
                ) == Some(v@),
                Ok(None) => !self.is_aborted(*old(db)) && (self.root_page_id == 0 || lookup(
                    tree@,
                    key@,
                ) is None),
                Err(e) => self.is_aborted(*old(db)) && e == PagedbError::Aborted,
            },
    {
        match self.check_abort(db) {
            Ok(()) => {},
            Err(e) => return Err(e),
        }
        if self.root_page_id == 0 {
            return Ok(None);
        }
        match tree.get(key) {
            Some(value) => Ok(Some(copy_bytes(value))),
            None => Ok(None),
        }
    }

    /// The rows from `start` up to but not including `end`, in key order.
    pub fn scan(&self, db: &mut Db, tree: &BTree<Vec<u8>>, start: &[u8], end: &[u8]) -> (r: Result<
        Vec<(Vec<u8>, Vec<u8>)>,
    >)
        requires
            tree.wf(),
            tree.root() == self.root_page_id,
            self.root_page_id == 0 ==> tree@.len() == 0,
        ensures
            poison_kept(*old(db), *final(db)),
            self.observes(*old(db), *final(db)),
            match r {
                Ok(out) => !self.is_aborted(*old(db)) && exists|lo: int, hi: int|
                    #[trigger] is_key_range(tree@, start@, end@, lo, hi) && are_rows(
                        out@,
                        tree@.subrange(lo, hi),
                    ),
                Err(e) => self.is_aborted(*old(db)) && e == PagedbError::Aborted,
            },
    {
        match self.check_abort(db) {
            Ok(()) => {},
            Err(e) => return Err(e),
        }
        let (lo, hi) = tree.collect_range(start, end);
        let out: Vec<(Vec<u8>, Vec<u8>)> = copy_rows(tree, lo, hi);
        proof {
            assert(is_key_range(tree@, start@, end@, lo as int, hi as int));
        }
        Ok(out)
    }

    /// The rows from `start` up to but not including `end`, in reverse key
    /// order.
    pub fn scan_rev(&self, db: &mut Db, tree: &BTree<Vec<u8>>, start: &[u8], end: &[u8]) -> (r: Result<
        Vec<(Vec<u8>, Vec<u8>)>,
    >)
        requires
            tree.wf(),
            tree.root() == self.root_page_id,
            self.root_page_id == 0 ==> tree@.len() == 0,
        ensures
            poison_kept(*old(db), *final(db)),
            self.observes(*old(db), *final(db)),
            match r {
                Ok(out) => !self.is_aborted(*old(db)) && exists|lo: int, hi: int|
                    #[trigger] is_key_range(tree@, start@, end@, lo, hi) && are_rows(
                        out@,
                        tree@.subrange(lo, hi).reverse(),
                    ),
                Err(e) => self.is_aborted(*old(db)) && e == PagedbError::Aborted,
            },
    {
        match self.check_abort(db) {
            Ok(()) => {},
            Err(e) => return Err(e),
        }
        let (lo, hi) = tree.collect_range(start, end);
        let out: Vec<(Vec<u8>, Vec<u8>)> = copy_rows_rev(tree, lo, hi);
        proof {
            assert(is_key_range(tree@, start@, end@, lo as int, hi as int));
        }
        Ok(out)
    }

    /// The rows whose key begins with `prefix`, in key order.
    pub fn scan_prefix(&self, db: &mut Db, tree: &BTree<Vec<u8>>, prefix: &[u8]) -> (r: Result<
        Vec<(Vec<u8>, Vec<u8>)>,
    >)
        requires
            tree.wf(),
            tree.root() == self.root_page_id,
            self.root_page_id == 0 ==> tree@.len() == 0,
        ensures
            poison_kept(*old(db), *final(db)),
            self.observes(*old(db), *final(db)),
            match r {
                Ok(out) => !self.is_aborted(*old(db)) && exists|lo: int, hi: int|
                    #[trigger] is_prefix_range(tree@, prefix@, lo, hi) && are_rows(
                        out@,
                        tree@.subrange(lo, hi),
                    ),
                Err(e) => self.is_aborted(*old(db)) && e == PagedbError::Aborted,
            },
    {
        match self.check_abort(db) {
            Ok(()) => {},
            Err(e) => return Err(e),
        }
        let (lo, hi) = tree.prefix_range(prefix);
        let out: Vec<(Vec<u8>, Vec<u8>)> = copy_rows(tree, lo, hi);
        proof {
            assert(is_prefix_range(tree@, prefix@, lo as int, hi as int));
        }
        Ok(out)
    }

    /// Resolves a segment by name against the catalog of this snapshot, with
    /// the bytes that its mapped views may take. Later commits do not affect
    /// it.
    pub fn open_segment(&self, db: &mut Db, catalog: &BTree<CatalogValue>, name: &str) -> (r: Result<
        (SegmentMeta, u64),
    >)
        requires
            catalog.wf(),
            self.catalog_root_page_id != 0 ==> catalog.root() == self.catalog_root_page_id,
        ensures
            poison_kept(*old(db), *final(db)),
            self.observes(*old(db), *final(db)),
            r == if self.is_aborted(*old(db)) {
                Err::<(SegmentMeta, u64), PagedbError>(PagedbError::Aborted)
            } else if self.catalog_root_page_id == 0 {
                Err::<(SegmentMeta, u64), PagedbError>(PagedbError::NotFound)
            } else if name.spec_bytes().len() > MAX_SEGMENT_NAME_LEN {
                Err::<(SegmentMeta, u64), PagedbError>(PagedbError::NameTooLong)
            } else {
                match lookup(catalog@, segment_key_spec(self.realm_id, name.spec_bytes())) {
                    None => Err::<(SegmentMeta, u64), PagedbError>(PagedbError::NotFound),
                    Some(CatalogValue::Segment(meta)) => Ok::<(SegmentMeta, u64), PagedbError>(
                        (meta, old(db).options.mmap_view_scratch_bytes as u64),
                    ),
                    Some(_) => Err::<(SegmentMeta, u64), PagedbError>(
                        PagedbError::row_invalid("segment.meta"),
                    ),
                }
            },
    {
        match self.check_abort(db) {
            Ok(()) => {},
            Err(e) => return Err(e),
        }
        if self.catalog_root_page_id == 0 {
            return Err(PagedbError::NotFound);
        }
        let key: Vec<u8> = match Catalog::segment_key(self.realm_id, name.as_bytes()) {
            Ok(key) => key,
            Err(e) => return Err(e),
        };
        match catalog.get(&key) {
            None => Err(PagedbError::NotFound),
            Some(value) => match Catalog::decode_segment_meta(value) {
                Ok(meta) => Ok((meta, db.options.mmap_view_scratch_bytes as u64)),
                Err(e) => Err(e),
            },
        }
    }

    /// Lists the segments whose names start with `prefix`, as of this snapshot.
    pub fn list_segments(&self, db: &mut Db, catalog: &BTree<CatalogValue>, prefix: &str) -> (r: Result<
        Vec<SegmentMeta>,
    >)
        requires
            catalog.wf(),
            self.catalog_root_page_id != 0 ==> catalog.root() == self.catalog_root_page_id,
        ensures
            poison_kept(*old(db), *final(db)),
            self.observes(*old(db), *final(db)),
            ({
                let key = segment_key_spec(self.realm_id, prefix.spec_bytes());
                if self.is_aborted(*old(db)) {
                    r == Err::<Vec<SegmentMeta>, PagedbError>(PagedbError::Aborted)
                } else if self.catalog_root_page_id == 0 {
                    r is Ok && r->Ok_0@.len() == 0
                } else if prefix.spec_bytes().len() > MAX_SEGMENT_NAME_LEN {
                    r == Err::<Vec<SegmentMeta>, PagedbError>(PagedbError::NameTooLong)
                } else if prefix_malformed(catalog@, key) {
                    r == Err::<Vec<SegmentMeta>, PagedbError>(
                        PagedbError::row_invalid("segment.meta"),
                    )
                } else {
                    r is Ok && lists_prefix(catalog@, key, r->Ok_0@)
                }
            }),
    {
        match self.check_abort(db) {
            Ok(()) => {},
            Err(e) => return Err(e),
        }
        if self.catalog_root_page_id == 0 {
            return Ok(Vec::new());
        }
        match Catalog::segment_key(self.realm_id, prefix.as_bytes()) {
            Ok(start) => collect_segments(catalog, &start),
            Err(e) => Err(e),
        }
    }

    /// Ends the transaction: the reader is no longer registered, and its
    /// durable pin, if it has one, is queued for deletion.
    pub fn close(self, db: &mut Db)
        ensures
            poison_kept(*old(db), *final(db)),
            *final(db) == (Db {
                tracked_readers: final(db).tracked_readers,
                pending_pin_deletes: final(db).pending_pin_deletes,
                ..*old(db)
            }),
            final(db).pending_pin_deletes@ == match self.durable_pin {
                Some(pin) => old(db).pending_pin_deletes@.push(pin),
                None => old(db).pending_pin_deletes@,
            },
            unregistered(old(db).tracked_readers@, self.entry_id, final(db).tracked_readers@),
    {
        db.unregister_read(self.entry_id);
        match self.durable_pin {
            Some(pin) => {
                db.pending_pin_deletes.push(pin);
            },
            None => {},
        }
    }

    /// Ends the transaction, and drops the keys that were kept for readers like
    /// it once none is left.
    pub fn end(self, db: &mut Db, keyring: &mut EpochKeyring)
        requires
            old(keyring).wf(),
        ensures
            poison_kept(*old(db), *final(db)),
            final(keyring).wf(),
            *final(db) == (Db {
                tracked_readers: final(db).tracked_readers,
                pending_pin_deletes: final(db).pending_pin_deletes,
                pending_key_retirements: final(db).pending_key_retirements,
                ..*old(db)
            }),
            final(db).pending_pin_deletes@ == match self.durable_pin {
                Some(pin) => old(db).pending_pin_deletes@.push(pin),
                None => old(db).pending_pin_deletes@,
            },
            unregistered(old(db).tracked_readers@, self.entry_id, final(db).tracked_readers@),
            if final(db).tracked_readers@.len() == 0 {
                &&& final(db).pending_key_retirements@.len() == 0
                &&& final(keyring)@ == old(keyring)@.remove_keys(
                    retired_ids(old(db).pending_key_retirements@),
                )
            } else {
                &&& final(db).pending_key_retirements == old(db).pending_key_retirements
                &&& final(keyring)@ == old(keyring)@
            },
    {
        self.close(db);
        db.retire_due_keys(keyring);
    }
}

/// An abort is delivered once: after the operation that observed it the reader
/// is no longer aborted, and no other reader's abort was touched.
pub proof fn law_abort_is_delivered_once(txn: ReadTxn, before: Db, after: Db, other: u64)
    requires
        txn.observes(before, after),
    ensures
        !txn.is_aborted(after),
        other != txn.entry_id ==> (after.aborted_readers@.contains(other)
            <==> before.aborted_readers@.contains(other)),
{
}

/// A scan and a read agree: a row is among those that a scan gives exactly when
/// its key is in range and a read finds its value.
pub proof fn law_scan_agrees_with_get(
    s: Seq<(Seq<u8>, Seq<u8>)>,
    start: Seq<u8>,
    end: Seq<u8>,
    lo: int,
    hi: int,
    key: Seq<u8>,
    value: Seq<u8>,
)
    requires
        ascending(s),
        is_key_range(s, start, end, lo, hi),
    ensures
        s.subrange(lo, hi).contains((key, value)) <==> lex_le(start, key) && lex_lt(key, end)
            && lookup(s, key) == Some(value),
{
    let out = s.subrange(lo, hi);
    if out.contains((key, value)) {
        let i = choose|i: int| 0 <= i < out.len() && out[i] == (key, value);
        assert(s[lo + i] == (key, value));
        lemma_lookup_at(s, lo + i);
    }
    if lex_le(start, key) && lex_lt(key, end) && lookup(s, key) == Some(value) {
        let j = index_of_key(s, key);
        lemma_lookup_at(s, j);
        assert(lo <= j < hi);
        assert(out[j - lo] == (key, value));
    }
}

} // verus!
