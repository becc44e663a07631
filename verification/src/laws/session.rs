//! Laws of a write session: what it reads of its own writes, its counters, its
//! scratch file, and what it leaves behind when it ends without a commit.

use vstd::prelude::*;
use vstd::string::StringSliceAdditionalSpecFns;

use crate::catalog::CatalogValue;
use crate::clock::{capped_nanos, lease_id, segment_id, whole_seconds, wrapped_nanos, Instant};
use crate::codec::{le_bytes, le_value, lemma_byte_range_8, lemma_le_bytes_len, lemma_le_round_trip};
use crate::db::handle::Db;
use crate::errors::{PagedbError, QuotaKind, Result};
use crate::order::{lex_le, lex_lt};
use crate::paths::{
    compaction_path, decimal, live_path, parse_segment_id, spill_path, staging_path, tombstone_path,
};
use crate::tree::{
    has_key, lemma_slot_exists, lemma_with_row, lemma_without_row, lookup, slot_of_key, BTree,
    TreePages,
};
use crate::write::counter::CounterRef;
use crate::write::spill::{ScratchOffset, SpillKeyInputs, SpillRead, SpillScope, SpillWrite};
use crate::write::txn::{
    batch_deletes, batch_value, law_batch_deletes_its_keys, law_batch_stores_its_last_values,
    WriteTxn,
};

verus! {

/// A session begins on the rows and at the cursor that the writer is at, with a
/// number of its own and nothing to do to segments or in a scratch file. While
/// somebody reads it recycles no page below the cursor.
pub proof fn law_session_begins_at_the_writer(
    db: &mut Db,
    rows: BTree<Vec<u8>>,
    catalog: BTree<CatalogValue>,
    txn: WriteTxn,
)
    requires
        old(db).txn_seq < u64::MAX,
        call_ensures(WriteTxn::begin, (db, rows, catalog), txn),
    ensures
        txn.btree@ == rows@,
        txn.catalog_tree@ == catalog@,
        txn.btree.root() == old(db).writer.root_page_id,
        txn.catalog_tree.root() == old(db).writer.catalog_root_page_id,
        txn.btree.next() == old(db).writer.next_page_id,
        txn.catalog_tree.next() == old(db).writer.next_page_id,
        txn.realm_id == old(db).realm_id,
        txn.txn_seq == old(db).txn_seq + 1,
        final(db).txn_seq == txn.txn_seq,
        txn.pending_segments@.len() == 0,
        txn.spill_path is None && txn.spill_bytes_used == 0 && txn.spill_segments@.len() == 0,
        txn.last_appended is None,
        old(db).tracked_readers@.len() == 0 ==> txn.reuse_threshold == 0,
        old(db).tracked_readers@.len() > 0 ==> txn.reuse_threshold
            == old(db).writer.next_page_id,
        final(db).writer == old(db).writer && final(db).snapshot == old(db).snapshot,
        final(db).tracked_readers == old(db).tracked_readers,
{
}

/// A session reads what it wrote: after a put the value, after a delete nothing, and
/// under every other key what was there.
pub proof fn law_session_reads_its_writes(
    txn: &mut WriteTxn,
    key: &[u8],
    value: &[u8],
    unit: (),
    deleting: &mut WriteTxn,
    removed: bool,
    written: &WriteTxn,
    deleted: &WriteTxn,
    before: &WriteTxn,
    other: &[u8],
    a: Option<&Vec<u8>>,
    b: Option<&Vec<u8>>,
    c: Option<&Vec<u8>>,
)
    requires
        old(txn).wf(),
        call_ensures(WriteTxn::put, (txn, key, value), unit),
        *before == *old(txn),
        *written == *final(txn),
        *old(deleting) == *old(txn),
        call_ensures(WriteTxn::delete, (deleting, key), removed),
        *deleted == *final(deleting),
        call_ensures(WriteTxn::get, (before, other), a),
        call_ensures(WriteTxn::get, (written, other), b),
        call_ensures(WriteTxn::get, (deleted, other), c),
    ensures
        other@ == key@ ==> b is Some && b->0@ == value@ && c is None && (removed <==> a is Some),
        other@ != key@ ==> (a is Some <==> b is Some) && (a is Some <==> c is Some) && (a is Some
            ==> a->0@ == b->0@ && a->0@ == c->0@),
        final(txn).catalog_tree == old(txn).catalog_tree,
        final(deleting).catalog_tree == old(txn).catalog_tree,
        final(txn).btree.root() == old(txn).btree.root(),
        final(txn).btree.next() == old(txn).btree.next(),
        final(txn).pending_segments == old(txn).pending_segments,
{
    lemma_slot_exists(old(txn).btree@, key@);
    lemma_with_row(old(txn).btree@, key@, value@, slot_of_key(old(txn).btree@, key@));
    lemma_without_row(old(txn).btree@, key@);
}

/// Appending takes keys in ascending order only: a key that is not past the one
/// appended before it is refused and changes nothing; one that is, is stored and is
/// the one to be passed next.
pub proof fn law_appends_ascend(
    txn: &mut WriteTxn,
    key: &[u8],
    value: &[u8],
    r: Result<()>,
    other: Seq<u8>,
)
    requires
        old(txn).wf(),
        call_ensures(WriteTxn::put_append, (txn, key, value), r),
    ensures
        r is Ok <==> old(txn).last_appended is None || lex_lt(
            old(txn).last_appended->0@,
            key@,
        ),
        r is Err ==> r->Err_0 is AppendNotMonotonic && *final(txn) == *old(txn),
        r is Ok ==> {
            &&& final(txn).last_appended is Some
            &&& final(txn).last_appended->0@ == key@
            &&& lookup(final(txn).btree@, key@) == Some(value@)
            &&& other != key@ ==> lookup(final(txn).btree@, other) == lookup(
                old(txn).btree@,
                other,
            )
            &&& final(txn).catalog_tree == old(txn).catalog_tree
        },
{
    lemma_slot_exists(old(txn).btree@, key@);
    lemma_with_row(old(txn).btree@, key@, value@, slot_of_key(old(txn).btree@, key@));
}

/// A batch stores each of its rows, the last one where a key comes twice, and deletes
/// each of its keys; every other row stays.
pub proof fn law_batches(
    txn: &mut WriteTxn,
    rows: Vec<(Vec<u8>, Vec<u8>)>,
    unit: (),
    deleting: &mut WriteTxn,
    keys: Vec<Vec<u8>>,
    i: int,
    key: Seq<u8>,
)
    requires
        old(txn).wf(),
        old(deleting).wf(),
        call_ensures(WriteTxn::put_batch, (txn, rows), unit),
        call_ensures(WriteTxn::delete_batch, (deleting, keys), unit),
    ensures
        0 <= i < rows@.len() && rows@[i].0@ == key && (forall|j: int|
            i < j < rows@.len() ==> (#[trigger] rows@[j]).0@ != key) ==> lookup(
            final(txn).btree@,
            key,
        ) == Some(rows@[i].1@),
        (forall|j: int| 0 <= j < rows@.len() ==> (#[trigger] rows@[j]).0@ != key) ==> lookup(
            final(txn).btree@,
            key,
        ) == lookup(old(txn).btree@, key),
        0 <= i < keys@.len() && keys@[i]@ == key ==> lookup(final(deleting).btree@, key) is None,
        (forall|j: int| 0 <= j < keys@.len() ==> (#[trigger] keys@[j])@ != key) ==> lookup(
            final(deleting).btree@,
            key,
        ) == lookup(old(deleting).btree@, key),
        final(txn).catalog_tree == old(txn).catalog_tree,
        final(deleting).catalog_tree == old(deleting).catalog_tree,
{
    law_batch_stores_its_last_values(old(txn).btree@, rows@, key);
    law_batch_deletes_its_keys(old(deleting).btree@, keys@, key);
    lemma_batch_value(rows@, key, i);
    if 0 <= i < keys@.len() && keys@[i]@ == key {
        assert(batch_deletes(keys@, key));
    }
}

proof fn lemma_batch_value(rows: Seq<(Vec<u8>, Vec<u8>)>, key: Seq<u8>, i: int)
    ensures
        0 <= i < rows.len() && rows[i].0@ == key && (forall|j: int|
            i < j < rows.len() ==> (#[trigger] rows[j]).0@ != key) ==> batch_value(rows, key)
            == Some(rows[i].1@),
        (forall|j: int| 0 <= j < rows.len() ==> (#[trigger] rows[j]).0@ != key) ==> batch_value(
            rows,
            key,
        ) is None,
    decreases rows.len(),
{
    if rows.len() > 0 {
        let rest = rows.drop_last();
        let n = rows.len() - 1;
        lemma_batch_value(rest, key, i);
        if 0 <= i < n && rows[i].0@ == key && (forall|j: int|
            i < j < rows.len() ==> (#[trigger] rows[j]).0@ != key) {
            assert(rows[n].0@ != key);
            assert forall|j: int| i < j < rest.len() implies (#[trigger] rest[j]).0@ != key by {
                assert(rest[j] == rows[j]);
            }
        }
        if forall|j: int| 0 <= j < rows.len() ==> (#[trigger] rows[j]).0@ != key {
            assert(rows[n].0@ != key);
            assert forall|j: int| 0 <= j < rest.len() implies (#[trigger] rest[j]).0@ != key by {
                assert(rest[j] == rows[j]);
            }
        }
    }
}

/// A range delete takes the rows from the first key up to but not including the
/// second and says how many; every other row stays.
pub proof fn law_range_is_deleted(
    txn: &mut WriteTxn,
    start: &[u8],
    end: &[u8],
    removed: u64,
    key: Seq<u8>,
)
    requires
        old(txn).wf(),
        call_ensures(WriteTxn::delete_range, (txn, start, end), removed),
    ensures
        lex_le(start@, key) && lex_lt(key, end@) ==> lookup(final(txn).btree@, key) is None,
        !(lex_le(start@, key) && lex_lt(key, end@)) ==> lookup(final(txn).btree@, key) == lookup(
            old(txn).btree@,
            key,
        ),
        removed == old(txn).btree@.len() - final(txn).btree@.len(),
        final(txn).catalog_tree == old(txn).catalog_tree,
{
    crate::tree::lemma_range_deleted(
        old(txn).btree@,
        start@,
        end@,
        final(txn).btree@,
        removed,
        key,
    );
}

/// Written trees keep their rows and are where they were written to; the cursor is
/// handed from tree to tree and never falls back.
pub proof fn law_trees_are_written(
    txn: &mut WriteTxn,
    data: &TreePages,
    catalog: &TreePages,
    unit: (),
    to: &mut WriteTxn,
    from: &mut WriteTxn,
)
    requires
        old(txn).wf(),
        call_ensures(WriteTxn::flush, (txn, data, catalog), unit),
        call_ensures(WriteTxn::sync_allocator_to_catalog, (to,), unit),
        call_ensures(WriteTxn::sync_allocator_from_catalog, (from,), unit),
    ensures
        final(txn).btree@ == old(txn).btree@,
        final(txn).btree.root() == data.root_page_id,
        final(txn).btree.next() == data.next_page_id,
        final(txn).catalog_tree@ == old(txn).catalog_tree@,
        final(txn).catalog_tree.root() == catalog.root_page_id,
        final(txn).catalog_tree.next() == catalog.next_page_id,
        final(txn).pending_segments == old(txn).pending_segments,
        final(to).catalog_tree@ == old(to).catalog_tree@,
        final(to).catalog_tree.root() == old(to).catalog_tree.root(),
        final(to).catalog_tree.next() >= old(to).btree.next(),
        final(to).catalog_tree.next() >= old(to).catalog_tree.next(),
        final(to).catalog_tree.next() == old(to).btree.next() || final(to).catalog_tree.next()
            == old(to).catalog_tree.next(),
        final(to).btree == old(to).btree,
        final(from).btree@ == old(from).btree@,
        final(from).btree.root() == old(from).btree.root(),
        final(from).btree.next() == old(from).catalog_tree.next(),
        final(from).catalog_tree == old(from).catalog_tree,
{
}

/// A session that ends without a commit changes nothing of the store: its scratch
/// file is handed back to be removed, or, where it was let go, handed over to the
/// next session behind those that are there.
pub proof fn law_session_without_commit_leaves_nothing(
    aborted: WriteTxn,
    db: &mut Db,
    spill: Option<String>,
    dropped: WriteTxn,
    handle: &mut Db,
    unit: (),
)
    requires
        call_ensures(WriteTxn::abort, (aborted, db), spill),
        call_ensures(WriteTxn::let_go, (dropped, handle), unit),
    ensures
        spill == aborted.spill_path,
        final(db).spill_bytes_in_use == 0,
        *final(db) == (Db { spill_bytes_in_use: 0, ..*old(db) }),
        final(handle).writer == old(handle).writer,
        final(handle).snapshot == old(handle).snapshot,
        final(handle).spill_bytes_in_use == 0,
        dropped.spill_path is None ==> final(handle).orphaned_spill_paths@ == old(handle).orphaned_spill_paths@,
        dropped.spill_path is Some ==> final(handle).orphaned_spill_paths@ == old(handle).orphaned_spill_paths@.push(dropped.spill_path->0),
{
}

/// A counter begins at 0, is read as it was last set, and is never set back. Setting
/// it leaves every other row of the catalog and all of the data alone.
pub proof fn law_counter_is_set<'a>(
    counter: &mut CounterRef<'a>,
    value: u64,
    r: Result<()>,
    before: &CounterRef<'a>,
    was: Result<u64>,
    after: &CounterRef<'a>,
    is: Result<u64>,
    key: Seq<u8>,
)
    requires
        old(counter).catalog().wf(),
        call_ensures(CounterRef::<'a>::set, (counter, value), r),
        *before == *old(counter),
        call_ensures(CounterRef::<'a>::get, (before,), was),
        *after == *final(counter),
        call_ensures(CounterRef::<'a>::get, (after,), is),
    ensures
        !has_key(old(counter).catalog()@, old(counter).key@) ==> was == Ok::<u64, PagedbError>(0),
        was is Err ==> r == Err::<(), PagedbError>(was->Err_0) && was->Err_0 is Corruption,
        was is Ok ==> (r is Ok <==> value >= was->Ok_0),
        was is Ok && value < was->Ok_0 ==> r == Err::<(), PagedbError>(PagedbError::Aborted),
        r is Ok ==> is == Ok::<u64, PagedbError>(value),
        r is Err ==> *final(counter) == *old(counter),
        r is Ok ==> {
            &&& key != old(counter).key@ ==> lookup(final(counter).catalog()@, key) == lookup(
                old(counter).catalog()@,
                key,
            )
            &&& final(counter).data()@ == old(counter).data()@
            &&& final(counter).data().root() == old(counter).data().root()
            &&& final(counter).catalog().root() == old(counter).catalog().root()
            &&& final(counter).key == old(counter).key
            &&& final(counter).catalog().next() == final(counter).data().next()
            &&& final(counter).catalog().next() >= old(counter).catalog().next()
            &&& final(counter).catalog().next() >= old(counter).data().next()
        },
{
    let s = old(counter).catalog()@;
    let k = old(counter).key@;
    lemma_slot_exists(s, k);
    lemma_with_row(s, k, CatalogValue::Counter(value), slot_of_key(s, k));
}

/// A counter is advanced by what is asked for and says where it got to; past the
/// greatest number it is exhausted and stays.
pub proof fn law_counter_is_advanced<'a>(
    counter: &mut CounterRef<'a>,
    delta: u64,
    r: Result<u64>,
    before: &CounterRef<'a>,
    was: u64,
    after: &CounterRef<'a>,
    is: Result<u64>,
    key: Seq<u8>,
)
    requires
        old(counter).catalog().wf(),
        call_ensures(CounterRef::<'a>::increment_by, (counter, delta), r),
        *before == *old(counter),
        call_ensures(
            CounterRef::<'a>::get,
            (before,),
            Ok::<u64, PagedbError>(was),
        ),
        *after == *final(counter),
        call_ensures(CounterRef::<'a>::get, (after,), is),
    ensures
        r is Ok <==> was + delta <= u64::MAX,
        r is Ok ==> r->Ok_0 == was + delta && is == r,
        r is Err ==> r->Err_0 is NonceCounterExhausted && *final(counter) == *old(counter),
        r is Ok && key != old(counter).key@ ==> lookup(final(counter).catalog()@, key) == lookup(
            old(counter).catalog()@,
            key,
        ),
        r is Ok ==> final(counter).data()@ == old(counter).data()@,
{
    let s = old(counter).catalog()@;
    let k = old(counter).key@;
    let value = (was + delta) as u64;
    lemma_slot_exists(s, k);
    lemma_with_row(s, k, CatalogValue::Counter(value), slot_of_key(s, k));
}

/// A counter of a session is the row under its name, of 1024 bytes at most, in the
/// session's own trees.
pub proof fn law_counter_is_named<'tx>(
    txn: &'tx mut WriteTxn,
    name: &str,
    r: Result<CounterRef<'tx>>,
)
    requires
        call_ensures(WriteTxn::counter, (txn, name), r),
    ensures
        r is Ok <==> name.spec_bytes().len() <= 1024,
        r is Err ==> r->Err_0 is NameTooLong && *final(txn) == *old(txn),
        r is Ok ==> {
            &&& r->Ok_0.key@ == seq![2u8] + name.spec_bytes()
            &&& r->Ok_0.catalog() == old(txn).catalog_tree
            &&& r->Ok_0.data() == old(txn).btree
            &&& final(txn).catalog_tree == *final(r->Ok_0.catalog_tree)
            &&& final(txn).btree == *final(r->Ok_0.main_tree)
            &&& final(txn).pending_segments == old(txn).pending_segments
        },
{
}

/// A nonce of the scratch file is the session's number and the chunk's, six bytes
/// each with the least significant first; its key is made of the store's epoch and
/// file, the handle's scratch epoch and the session's number.
pub proof fn law_scratch_nonce_and_key(
    txn: &WriteTxn,
    index: u64,
    nonce: [u8; 12],
    db: &Db,
    key: SpillKeyInputs,
)
    requires
        call_ensures(WriteTxn::next_spill_nonce, (txn, index), nonce),
        call_ensures(WriteTxn::spill_key_inputs, (txn, db), key),
    ensures
        ({
            let s = nonce@;
            &&& txn.txn_seq < 0x1_0000_0000_0000 ==> txn.txn_seq == s[0] + 0x100 * s[1] + 0x1_0000
                * s[2] + 0x100_0000 * s[3] + 0x1_0000_0000 * s[4] + 0x100_0000_0000 * s[5]
            &&& index < 0x1_0000_0000_0000 ==> index == s[6] + 0x100 * s[7] + 0x1_0000 * s[8]
                + 0x100_0000 * s[9] + 0x1_0000_0000 * s[10] + 0x100_0000_0000 * s[11]
        }),
        key.mk_epoch == db.mk_epoch,
        key.file_id == db.file_id,
        key.spill_epoch == db.spill_epoch,
        key.txn_seq == txn.txn_seq,
{
    lemma_le_bytes_len(txn.txn_seq as nat, 6);
    lemma_le_bytes_len(index as nat, 6);
    let a = le_bytes(txn.txn_seq as nat, 6);
    let b = le_bytes(index as nat, 6);
    assert(nonce@ == a + b);
    reveal_with_fuel(crate::codec::byte_range, 7);
    if txn.txn_seq < 0x1_0000_0000_0000 {
        lemma_le_round_trip(txn.txn_seq as nat, 6);
    }
    if index < 0x1_0000_0000_0000 {
        lemma_le_round_trip(index as nat, 6);
    }
    lemma_six_up(a);
    lemma_six_up(b);
}

proof fn lemma_six_up(s: Seq<u8>)
    requires
        s.len() == 6,
    ensures
        le_value(s) == s[0] + 0x100 * s[1] + 0x1_0000 * s[2] + 0x100_0000 * s[3] + 0x1_0000_0000
            * s[4] + 0x100_0000_0000 * s[5],
{
    reveal_with_fuel(le_value, 7);
    let s1 = s.drop_first();
    let s2 = s1.drop_first();
    let s3 = s2.drop_first();
    let s4 = s3.drop_first();
    let s5 = s4.drop_first();
    assert(s1[0] == s[1] && s2[0] == s[2] && s3[0] == s[3] && s4[0] == s[4] && s5[0] == s[5]);
    assert(s5.drop_first().len() == 0);
}

/// A chunk is planned at the end of the scratch file, with its tag behind it, under
/// the next number, where the budget takes it: what it would come to is held against
/// the budget, and a refusal says it and changes nothing.
pub proof fn law_scratch_chunk_is_planned<'s>(
    scope: &mut SpillScope<'s>,
    db: &Db,
    len: u64,
    r: Result<SpillWrite>,
)
    requires
        len + 16 <= u64::MAX,
        call_ensures(SpillScope::<'s>::plan_append, (scope, db, len), r),
    ensures
        ({
            let before = old(scope).session();
            let total = before.spill_bytes_used + len + 16;
            &&& total <= u64::MAX ==> (r is Ok <==> total <= db.options.scratch_bytes)
            &&& r is Ok ==> {
                let w = r->Ok_0;
                &&& w.segment_index == before.spill_segments@.len()
                &&& w.body_offset == before.spill_bytes_used
                &&& w.tag_offset == before.spill_bytes_used + len
                &&& w.new_total == total
                &&& w.key.txn_seq == before.txn_seq && w.key.file_id == db.file_id
                &&& w.key.mk_epoch == db.mk_epoch && w.key.spill_epoch == db.spill_epoch
                &&& w.aad.cipher_id == 1 && w.aad.page_kind == 0xFE
                &&& w.aad.mk_epoch == db.mk_epoch && w.aad.page_id == w.segment_index
                &&& w.aad.realm_id == db.realm_id && w.aad.segment_id == db.file_id
                &&& final(scope).session().spill_path is Some
                &&& before.spill_path is Some ==> final(scope).session() == before
                &&& final(scope).session().spill_segments == before.spill_segments
                &&& final(scope).session().btree == before.btree
            }
            &&& r is Err ==> {
                &&& r->Err_0 is Quota
                &&& r->Err_0->kind == QuotaKind::ScratchPages
                &&& total <= u64::MAX ==> r->Err_0->requested == total
                &&& r->Err_0->limit == db.options.scratch_bytes
                &&& r->Err_0->realm == db.realm_id
                &&& final(scope).session() == before
            }
        }),
{
}

/// A chunk that was written is recorded behind the others and the file is as long as
/// was planned. It is read back from where it was written, under the key, the nonce
/// and the context that it was written under; one that was never written is not
/// found. A chunk that is too long is refused and changes nothing.
pub proof fn law_scratch_chunk_is_read_back<'s, 't>(
    planning: &mut SpillScope<'s>,
    db: &Db,
    len: usize,
    w: SpillWrite,
    scope: &mut SpillScope<'s>,
    handle: &mut Db,
    plaintext_len: usize,
    r: Result<ScratchOffset>,
    later: &SpillScope<'t>,
    later_db: &Db,
    offset: ScratchOffset,
    read: Result<SpillRead>,
)
    requires
        len + 16 <= u64::MAX,
        call_ensures(
            SpillScope::<'s>::plan_append,
            (planning, db, len as u64),
            Ok::<SpillWrite, PagedbError>(w),
        ),
        old(scope).session() == final(planning).session(),
        call_ensures(SpillScope::<'s>::append, (scope, handle, &w, plaintext_len, len), r),
        later.session() == final(scope).session(),
        call_ensures(SpillScope::<'t>::read, (later, later_db, offset), read),
        r is Ok ==> offset == r->Ok_0,
        later_db.mk_epoch == db.mk_epoch,
        later_db.realm_id == db.realm_id,
        later_db.file_id == db.file_id,
        later_db.spill_epoch == db.spill_epoch,
    ensures
        r is Ok <==> plaintext_len <= u32::MAX && len <= u32::MAX,
        r is Err ==> r->Err_0 is PayloadTooLarge && final(scope).session() == old(scope).session()
            && *final(handle) == *old(handle),
        r is Ok ==> {
            &&& final(handle).spill_bytes_in_use == w.new_total
            &&& final(scope).session().spill_bytes_used == w.new_total
            &&& final(scope).session().spill_segments@.len()
                == old(scope).session().spill_segments@.len() + 1
            &&& read is Ok
            &&& read->Ok_0.key == w.key
            &&& read->Ok_0.nonce@ == w.nonce@
            &&& read->Ok_0.aad == w.aad
            &&& read->Ok_0.body_offset == w.body_offset
            &&& read->Ok_0.body_len == len
            &&& read->Ok_0.tag_offset == w.tag_offset
            &&& read->Ok_0.plaintext_len == plaintext_len
        },
{
}

/// The scratch file is named after the session's number, and keeps its name.
pub proof fn law_scratch_file_is_named(
    txn: &mut WriteTxn,
    path: String,
    again: &mut WriteTxn,
    same: String,
)
    requires
        call_ensures(WriteTxn::ensure_spill_path, (txn,), path),
        *old(again) == *final(txn),
        call_ensures(WriteTxn::ensure_spill_path, (again,), same),
    ensures
        same == path,
        *final(again) == *final(txn),
        old(txn).spill_path is None ==> path@ == "tmp/scratch-"@ + decimal(
            old(txn).txn_seq as nat,
        ),
        old(txn).spill_path is Some ==> Some(path) == old(txn).spill_path,
        final(txn).btree == old(txn).btree && final(txn).spill_segments == old(txn).spill_segments,
{
}

/// A segment's files are named after its id, two digits to a byte: the live one, the
/// staged one, and the parked one with the commit that retired it. What is a name is
/// read back as the id.
pub proof fn law_segment_files_are_named(
    id: &[u8; 16],
    commit: u64,
    live: String,
    staged: String,
    parked: String,
    scratch: String,
    main: &str,
    compacted: String,
    i: int,
)
    requires
        call_ensures(live_path, (id,), live),
        call_ensures(staging_path, (id,), staged),
        call_ensures(tombstone_path, (id, commit), parked),
        call_ensures(spill_path, (commit,), scratch),
        call_ensures(compaction_path, (main,), compacted),
        0 <= i < 16,
    ensures
        ({
            let name = live@.subrange(4, 36);
            &&& live@ == "seg/"@ + name
            &&& staged@ == "seg/.staging/"@ + name
            &&& parked@ == "seg/.tombstone/"@ + name + "."@ + decimal(commit as nat)
            &&& name.len() == 32
            &&& id@[i] == 16 * hex_digit(name[2 * i]) + hex_digit(name[2 * i + 1])
            &&& 0 <= hex_digit(name[2 * i]) < 16
            &&& 0 <= hex_digit(name[2 * i + 1]) < 16
        }),
        scratch@ == "tmp/scratch-"@ + decimal(commit as nat),
        compacted@ == main@ + ".compact"@,
{
    reveal_strlit("seg/");
    let h = crate::paths::hex(id@);
    assert(live@.subrange(4, 36) =~= h);
    assert((2 * i) / 2 == i && (2 * i) % 2 == 0);
    assert((2 * i + 1) / 2 == i && (2 * i + 1) % 2 == 1);
}

/// What a lower-case hexadecimal digit stands for.
pub open spec fn hex_digit(c: char) -> int {
    if '0' <= c && c <= '9' {
        c as int - '0' as int
    } else if 'a' <= c && c <= 'f' {
        c as int - 'a' as int + 10
    } else {
        -1
    }
}

/// A number is written in decimal digits: the last one is its remainder by ten, and
/// those before it are the tenth of it.
pub proof fn law_decimal_digits(n: nat)
    ensures
        n < 10 ==> decimal(n).len() == 1 && decimal(n)[0] as int == '0' as int + n,
        n >= 10 ==> decimal(n).drop_last() == decimal(n / 10) && decimal(n).last() as int
            == '0' as int + n % 10,
{
    if n >= 10 {
        assert(decimal(n).drop_last() =~= decimal(n / 10));
    }
}

/// A name of thirty-two hexadecimal digits, of either case, is the id that it spells;
/// any other name is none.
pub proof fn law_segment_name_is_read(name: &str, r: Option<[u8; 16]>, i: int)
    requires
        call_ensures(parse_segment_id, (name,), r),
    ensures
        r is Some ==> name@.len() == 32,
        r is Some && 0 <= i < 16 && hex_digit(name@[2 * i]) >= 0 && hex_digit(name@[2 * i + 1])
            >= 0 ==> (r->0)@[i] == 16 * hex_digit(name@[2 * i]) + hex_digit(name@[2 * i + 1]),
        r is Some && 0 <= i < 16 ==> is_hex(name@[2 * i]) && is_hex(name@[2 * i + 1]),
        name@.len() == 32 && (forall|j: int| 0 <= j < 32 ==> is_hex(#[trigger] name@[j])) ==> r
            is Some,
{
    if r is Some && 0 <= i < 16 {
        assert(crate::paths::spells_byte(name@, i, (r->0)@[i]));
    }
    if r is None && name@.len() == 32 && (forall|j: int|
        0 <= j < 32 ==> is_hex(#[trigger] name@[j])) {
        let id = Seq::new(
            16,
            |k: int|
                (16 * crate::paths::digit_value(name@[2 * k])->0 + crate::paths::digit_value(
                    name@[2 * k + 1],
                )->0) as u8,
        );
        assert forall|k: int| 0 <= k < 16 implies #[trigger] crate::paths::spells_byte(
            name@,
            k,
            id[k],
        ) by {
            assert(is_hex(name@[2 * k]));
            assert(is_hex(name@[2 * k + 1]));
        }
        assert(crate::paths::spells(name@, id));
    }
}

/// Whether a character is a hexadecimal digit.
pub open spec fn is_hex(c: char) -> bool {
    '0' <= c && c <= '9' || 'a' <= c && c <= 'f' || 'A' <= c && c <= 'F'
}

/// The time is whole seconds since the epoch, or nanoseconds that wrap around or stop
/// at the greatest number; a clock before the epoch is at 0.
pub proof fn law_times(i: Instant, s: u64, wrapped: u64, capped: u64, before: u64)
    requires
        call_ensures(whole_seconds, (Some(i),), s),
        call_ensures(wrapped_nanos, (Some(i),), wrapped),
        call_ensures(capped_nanos, (Some(i),), capped),
        call_ensures(whole_seconds, (None,), before),
    ensures
        s == i.seconds,
        before == 0,
        ({
            let n = i.seconds * 1_000_000_000 + i.nanos;
            &&& n <= u64::MAX ==> wrapped == n && capped == n
            &&& n > u64::MAX ==> capped == u64::MAX
            &&& wrapped == n % 0x1_0000_0000_0000_0000
        }),
{
    let n = i.seconds * 1_000_000_000 + i.nanos;
    if n <= u64::MAX {
        assert(n % 0x1_0000_0000_0000_0000 == n) by (nonlinear_arith)
            requires
                0 <= n < 0x1_0000_0000_0000_0000,
        ;
    }
}

/// Leases of one instant differ by their number.
pub proof fn law_leases_differ(ts: u64, a: u64, b: u64, x: u64, y: u64)
    requires
        call_ensures(lease_id, (ts, a), x),
        call_ensures(lease_id, (ts, b), y),
        a != b,
    ensures
        x != y,
{
    if x == y {
        crate::clock::law_leases_of_an_instant_differ(ts, a, b);
    }
}

/// Leases of one number differ by their instant.
pub proof fn law_leases_of_a_number_differ(s: u64, t: u64, n: u64, x: u64, y: u64)
    requires
        call_ensures(lease_id, (s, n), x),
        call_ensures(lease_id, (t, n), y),
        s != t,
    ensures
        x != y,
{
    let spread = crate::clock::wrapped_product(n, crate::clock::SPREAD);
    assert(s ^ spread == t ^ spread ==> s == t) by (bit_vector);
}

/// The ids that one file gives to its segments differ by their count and by the
/// instant that they are drawn at, and the two halves of an id differ.
pub proof fn law_segment_ids_differ(
    file: &[u8; 16],
    a: u64,
    s: u64,
    b: u64,
    t: u64,
    x: [u8; 16],
    y: [u8; 16],
)
    requires
        call_ensures(segment_id, (file, a, s), x),
        call_ensures(segment_id, (file, b, t), y),
    ensures
        a != b && s == t ==> x@ != y@,
        a == b && s != t ==> x@ != y@,
        x@.subrange(0, 8) != x@.subrange(8, 16),
{
    let base = le_value(file@.subrange(0, 8)) as u64;
    let spread = crate::clock::SPREAD;
    let p = base ^ a ^ s;
    let q = base ^ b ^ t;
    let first = crate::clock::wrapped_sum(p, spread);
    let other = crate::clock::wrapped_sum(q, spread);
    let second = crate::clock::wrapped_sum(first, spread);
    let m = crate::clock::mixed(first);
    let n = crate::clock::mixed(other);
    let o = crate::clock::mixed(second);
    lemma_byte_range_8();
    lemma_le_bytes_len(m as nat, 8);
    lemma_le_bytes_len(n as nat, 8);
    lemma_le_bytes_len(o as nat, 8);
    lemma_le_round_trip(m as nat, 8);
    lemma_le_round_trip(n as nat, 8);
    lemma_le_round_trip(o as nat, 8);
    assert(x@.subrange(0, 8) =~= le_bytes(m as nat, 8));
    assert(x@.subrange(8, 16) =~= le_bytes(o as nat, 8));
    assert(y@.subrange(0, 8) =~= le_bytes(n as nat, 8));
    if m == o {
        lemma_mixing_is_one_to_one(first, second);
    }
    if x@ == y@ {
        lemma_mixing_is_one_to_one(first, other);
        assert(p == q);
        assert(base ^ a ^ s == base ^ b ^ s ==> a == b) by (bit_vector);
        assert(base ^ a ^ s == base ^ a ^ t ==> s == t) by (bit_vector);
    }
}

proof fn lemma_mixing_is_one_to_one(x: u64, y: u64)
    requires
        crate::clock::mixed(x) == crate::clock::mixed(y),
    ensures
        x == y,
{
    let a = crate::clock::wrapped_product(x ^ (x >> 30), 0xBF58_476D_1CE4_E5B9);
    let b = crate::clock::wrapped_product(a ^ (a >> 27), 0x94D0_49BB_1331_11EB);
    let c = crate::clock::wrapped_product(y ^ (y >> 30), 0xBF58_476D_1CE4_E5B9);
    let d = crate::clock::wrapped_product(c ^ (c >> 27), 0x94D0_49BB_1331_11EB);
    assert(b ^ (b >> 31) == d ^ (d >> 31) ==> b == d) by (bit_vector);
    assert((0x94D0_49BB_1331_11EBint * 0x3196_42b2_d24d_8ec3int) % 0x1_0000_0000_0000_0000int == 1)
        by (nonlinear_arith);
    lemma_odd_product_is_one_to_one(
        a ^ (a >> 27),
        c ^ (c >> 27),
        0x94D0_49BB_1331_11EB,
        0x3196_42b2_d24d_8ec3,
    );
    assert(a ^ (a >> 27) == c ^ (c >> 27) ==> a == c) by (bit_vector);
    assert((0xBF58_476D_1CE4_E5B9int * 0x96de_1b17_3f11_9089int) % 0x1_0000_0000_0000_0000int == 1)
        by (nonlinear_arith);
    lemma_odd_product_is_one_to_one(
        x ^ (x >> 30),
        y ^ (y >> 30),
        0xBF58_476D_1CE4_E5B9,
        0x96de_1b17_3f11_9089,
    );
    assert(x ^ (x >> 30) == y ^ (y >> 30) ==> x == y) by (bit_vector);
}

/// Multiplying by a number that another one undoes loses nothing.
proof fn lemma_odd_product_is_one_to_one(a: u64, b: u64, by: u64, undo: u64)
    requires
        (by * undo) % 0x1_0000_0000_0000_0000int == 1,
        crate::clock::wrapped_product(a, by) == crate::clock::wrapped_product(b, by),
    ensures
        a == b,
{
    let m = 0x1_0000_0000_0000_0000int;
    let k = by as int;
    let u = undo as int;
    let d = a - b;
    let ka = a * k;
    let kb = b * k;
    assert(ka % m == kb % m);
    let t = ka / m - kb / m;
    assert(ka - kb == t * m) by (nonlinear_arith)
        requires
            ka % m == kb % m,
            m == 0x1_0000_0000_0000_0000int,
            t == ka / m - kb / m,
    ;
    assert(ka - kb == d * k) by (nonlinear_arith)
        requires
            ka == a * k,
            kb == b * k,
            d == a - b,
    ;
    let q = (k * u) / m;
    assert(k * u == q * m + 1) by (nonlinear_arith)
        requires
            (k * u) % m == 1,
            m == 0x1_0000_0000_0000_0000int,
            q == (k * u) / m,
    ;
    let w = t * u - d * q;
    assert(d == w * m) by (nonlinear_arith)
        requires
            d * k == t * m,
            k * u == q * m + 1,
            w == t * u - d * q,
    ;
    assert(w == 0) by (nonlinear_arith)
        requires
            d == w * m,
            m == 0x1_0000_0000_0000_0000int,
            -0x1_0000_0000_0000_0000int < d < 0x1_0000_0000_0000_0000int,
    ;
}

/// The handle counts the ids that it gives out, and nothing else of it changes.
pub proof fn law_segment_ids_are_counted(db: &mut Db, id: [u8; 16])
    requires
        call_ensures(Db::next_segment_id, (db,), id),
    ensures
        old(db).segment_id_counter < u64::MAX ==> final(db).segment_id_counter
            == old(db).segment_id_counter + 1,
        *final(db) == (Db { segment_id_counter: final(db).segment_id_counter, ..*old(db) }),
{
}

/// A digit of a segment's name stands for what it stands for in either case.
pub proof fn law_segment_name_in_capitals(
    name: &str,
    capitals: &str,
    r: Option<[u8; 16]>,
    s: Option<[u8; 16]>,
)
    requires
        call_ensures(parse_segment_id, (name,), r),
        call_ensures(parse_segment_id, (capitals,), s),
        name@.len() == capitals@.len(),
        forall|i: int|
            #![trigger name@[i]]
            #![trigger capitals@[i]]
            0 <= i < name@.len() ==> if 'a' <= name@[i] && name@[i] <= 'f' {
                capitals@[i] as int == name@[i] as int - 32
            } else {
                capitals@[i] == name@[i]
            },
    ensures
        r is Some <==> s is Some,
        r is Some ==> r->0@ == s->0@,
{
    if r is Some {
        assert forall|k: int| 0 <= k < 16 implies #[trigger] crate::paths::spells_byte(
            capitals@,
            k,
            (r->0)@[k],
        ) by {
            assert(crate::paths::spells_byte(name@, k, (r->0)@[k]));
            let a = name@[2 * k];
            let b = name@[2 * k + 1];
            let c = capitals@[2 * k];
            let d = capitals@[2 * k + 1];
        }
        assert(crate::paths::spells(capitals@, (r->0)@));
    }
    if s is Some {
        assert forall|k: int| 0 <= k < 16 implies #[trigger] crate::paths::spells_byte(
            name@,
            k,
            (s->0)@[k],
        ) by {
            assert(crate::paths::spells_byte(capitals@, k, (s->0)@[k]));
            let a = name@[2 * k];
            let b = name@[2 * k + 1];
            let c = capitals@[2 * k];
            let d = capitals@[2 * k + 1];
        }
        assert(crate::paths::spells(name@, (s->0)@));
    }
    if r is Some && s is Some {
        assert forall|k: int| 0 <= k < 16 implies (r->0)@[k] == (s->0)@[k] by {
            assert(crate::paths::spells_byte(name@, k, (r->0)@[k]));
            assert(crate::paths::spells_byte(name@, k, (s->0)@[k]));
        }
        assert(r->0@ =~= s->0@);
    }
}

} // verus!
