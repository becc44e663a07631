//! Laws of what is written down byte by byte: numbers, the order of keys, rows of a
//! tree, sets, header references and the keys of the catalog.

use vstd::arithmetic::power2::lemma2_to64;
use vstd::prelude::*;

use crate::catalog::{
    Catalog, CatalogValue, RealmQuotas, RekeyIntent, RekeySegmentProgress, SegmentMeta,
};
use crate::codec::{
    be_bytes, be_value, le_bytes, le_value, lemma_be_bytes_len, lemma_be_round_trip,
    lemma_byte_range_8, lemma_le_bytes_len, lemma_le_round_trip, u32_from_be, u32_to_be,
    u64_from_be, u64_from_le, u64_to_be, u64_to_le,
};
use crate::errors::{PagedbError, Result};
use crate::header::{
    decode_free_list_root, encode_free_list_root, encode_root_ref, fields_catalog_root_page_id,
    fields_catalog_root_txn_id, is_page_size_log2, law_root_ref_round_trip, select_live_header,
    HeaderCursor, MainDbHeaderFields,
};
use crate::ids::{ActiveSlot, CipherId, RealmId};
use crate::options::{encode_retain_policy, RetainPolicy};
use crate::order::{has_prefix, key_before, lex_le, lex_lt, starts_with};
use crate::sets::{PageSet, SegmentSet};
use crate::tree::{
    ascending, has_key, index_of_key, lemma_lookup_at, lemma_range_deleted, lemma_slot_exists,
    lemma_with_row, lemma_without_row, lookup, slot_of_key, BTree,
};

verus! {

/// The number that eight bytes are, the least significant first.
pub open spec fn eight_up(s: Seq<u8>) -> int {
    s[0] + 0x100 * s[1] + 0x1_0000 * s[2] + 0x100_0000 * s[3] + 0x1_0000_0000 * s[4]
        + 0x100_0000_0000 * s[5] + 0x1_0000_0000_0000 * s[6] + 0x100_0000_0000_0000 * s[7]
}

/// The number that eight bytes are, the most significant first.
pub open spec fn eight_down(s: Seq<u8>) -> int {
    s[7] + 0x100 * s[6] + 0x1_0000 * s[5] + 0x100_0000 * s[4] + 0x1_0000_0000 * s[3]
        + 0x100_0000_0000 * s[2] + 0x1_0000_0000_0000 * s[1] + 0x100_0000_0000_0000 * s[0]
}

/// Eight bytes that are read with the least significant first come to the sum of
/// the bytes by their places.
pub proof fn law_eight_bytes_up(s: Seq<u8>)
    requires
        s.len() == 8,
    ensures
        le_value(s) == eight_up(s),
{
    reveal_with_fuel(le_value, 9);
    let s1 = s.drop_first();
    let s2 = s1.drop_first();
    let s3 = s2.drop_first();
    let s4 = s3.drop_first();
    let s5 = s4.drop_first();
    let s6 = s5.drop_first();
    let s7 = s6.drop_first();
    assert(s1[0] == s[1] && s2[0] == s[2] && s3[0] == s[3] && s4[0] == s[4] && s5[0] == s[5]
        && s6[0] == s[6] && s7[0] == s[7]);
    assert(s7.drop_first().len() == 0);
}

/// Eight bytes that are read with the most significant first come to the sum of the
/// bytes by their places.
pub proof fn law_eight_bytes_down(s: Seq<u8>)
    requires
        s.len() == 8,
    ensures
        be_value(s) == eight_down(s),
{
    reveal_with_fuel(be_value, 9);
    let s1 = s.drop_last();
    let s2 = s1.drop_last();
    let s3 = s2.drop_last();
    let s4 = s3.drop_last();
    let s5 = s4.drop_last();
    let s6 = s5.drop_last();
    let s7 = s6.drop_last();
    assert(s1.last() == s[6] && s2.last() == s[5] && s3.last() == s[4] && s4.last() == s[3]
        && s5.last() == s[2] && s6.last() == s[1] && s7.last() == s[0]);
    assert(s7.drop_last().len() == 0);
}

/// A number is written as its bytes, in the order that is asked for.
pub proof fn law_numbers_are_written(x: u64, up: [u8; 8], down: [u8; 8], y: u32, four: [u8; 4])
    requires
        call_ensures(u64_to_le, (x,), up),
        call_ensures(u64_to_be, (x,), down),
        call_ensures(u32_to_be, (y,), four),
    ensures
        x == eight_up(up@),
        x == eight_down(down@),
        y == four@[3] + 0x100 * four@[2] + 0x1_0000 * four@[1] + 0x100_0000 * four@[0],
{
    lemma_byte_range_8();
    lemma_le_bytes_len(x as nat, 8);
    lemma_be_bytes_len(x as nat, 8);
    lemma_le_round_trip(x as nat, 8);
    lemma_be_round_trip(x as nat, 8);
    law_eight_bytes_up(up@);
    law_eight_bytes_down(down@);
    lemma_be_bytes_len(y as nat, 4);
    reveal_with_fuel(crate::codec::byte_range, 5);
    lemma_be_round_trip(y as nat, 4);
    lemma_four_down(four@);
}

proof fn lemma_four_down(s: Seq<u8>)
    requires
        s.len() == 4,
    ensures
        be_value(s) == s[3] + 0x100 * s[2] + 0x1_0000 * s[1] + 0x100_0000 * s[0],
{
    reveal_with_fuel(be_value, 5);
    let s1 = s.drop_last();
    let s2 = s1.drop_last();
    let s3 = s2.drop_last();
    assert(s1.last() == s[2] && s2.last() == s[1] && s3.last() == s[0]);
    assert(s3.drop_last().len() == 0);
}

/// A number is read from the bytes that stand from the given place on.
pub proof fn law_numbers_are_read(
    bytes: &[u8],
    off: usize,
    up: u64,
    down: u64,
    four: u32,
)
    requires
        off + 8 <= bytes@.len(),
        call_ensures(u64_from_le, (bytes, off), up),
        call_ensures(u64_from_be, (bytes, off), down),
        call_ensures(u32_from_be, (bytes, off), four),
    ensures
        up == eight_up(bytes@.subrange(off as int, off + 8)),
        down == eight_down(bytes@.subrange(off as int, off + 8)),
        four == bytes@[off + 3] + 0x100 * bytes@[off + 2] + 0x1_0000 * bytes@[off + 1] + 0x100_0000
            * bytes@[off as int],
{
    law_eight_bytes_up(bytes@.subrange(off as int, off + 8));
    law_eight_bytes_down(bytes@.subrange(off as int, off + 8));
    lemma_four_down(bytes@.subrange(off as int, off + 4));
}

/// Whether `i` is where `a` first falls below `b`: they agree before, and there `a`
/// has ended or has the smaller byte.
pub open spec fn falls_below(a: Seq<u8>, b: Seq<u8>, i: int) -> bool {
    &&& 0 <= i < b.len()
    &&& i <= a.len()
    &&& a.take(i) == b.take(i)
    &&& i == a.len() || a[i] < b[i]
}

/// Keys are ordered by the first byte in which they differ, and a key that ends
/// comes before those that go on from it.
pub proof fn law_key_order(a: Seq<u8>, b: Seq<u8>)
    ensures
        lex_lt(a, b) <==> exists|i: int| falls_below(a, b, i),
    decreases a.len(),
{
    if b.len() == 0 {
    } else if a.len() == 0 {
        assert(a.take(0) =~= b.take(0));
        assert(falls_below(a, b, 0));
    } else if a[0] != b[0] {
        if a[0] < b[0] {
            assert(a.take(0) =~= b.take(0));
            assert(falls_below(a, b, 0));
        } else if exists|i: int| falls_below(a, b, i) {
            let i = choose|i: int| falls_below(a, b, i);
            if i > 0 {
                assert(a.take(i)[0] == b.take(i)[0]);
            }
        }
    } else {
        let x = a.drop_first();
        let y = b.drop_first();
        law_key_order(x, y);
        if lex_lt(x, y) {
            let i = choose|i: int| falls_below(x, y, i);
            assert(a.take(i + 1) =~= b.take(i + 1)) by {
                assert forall|j: int| 0 <= j < i + 1 implies a[j] == b[j] by {
                    if j > 0 {
                        assert(x.take(i)[j - 1] == y.take(i)[j - 1]);
                    }
                }
            }
            assert(falls_below(a, b, i + 1));
        }
        if exists|i: int| falls_below(a, b, i) {
            let i = choose|i: int| falls_below(a, b, i);
            assert(i > 0);
            assert(x.take(i - 1) =~= y.take(i - 1)) by {
                assert forall|j: int| 0 <= j < i - 1 implies x[j] == y[j] by {
                    assert(a.take(i)[j + 1] == b.take(i)[j + 1]);
                }
            }
            assert(falls_below(x, y, i - 1));
        }
    }
}

/// Two keys are compared, and a prefix is tested, byte by byte.
pub proof fn law_keys_are_compared(
    a: &[u8],
    b: &[u8],
    before: bool,
    starts: bool,
)
    requires
        call_ensures(key_before, (a, b), before),
        call_ensures(starts_with, (a, b), starts),
    ensures
        before <==> exists|i: int| falls_below(a@, b@, i),
        starts <==> b@.len() <= a@.len() && forall|i: int|
            0 <= i < b@.len() ==> #[trigger] a@[i] == b@[i],
{
    law_key_order(a@, b@);
    if b@.len() <= a@.len() {
        if starts {
            assert forall|i: int| 0 <= i < b@.len() implies #[trigger] a@[i] == b@[i] by {
                assert(a@.subrange(0, b@.len() as int)[i] == a@[i]);
            }
        } else if forall|i: int| 0 <= i < b@.len() ==> #[trigger] a@[i] == b@[i] {
            assert(a@.subrange(0, b@.len() as int) =~= b@);
        }
    }
}

/// A row is found under its key, and only there.
pub proof fn lemma_lookup_is_membership<V>(s: Seq<(Seq<u8>, V)>, key: Seq<u8>, value: V)
    requires
        ascending(s),
    ensures
        lookup(s, key) == Some(value) <==> s.contains((key, value)),
        lookup(s, key) is None <==> forall|i: int| 0 <= i < s.len() ==> (#[trigger] s[i]).0 != key,
{
    if has_key(s, key) {
        let i = index_of_key(s, key);
        lemma_lookup_at(s, i);
        assert(s[i] == (key, s[i].1));
    }
    if s.contains((key, value)) {
        let i = choose|i: int| 0 <= i < s.len() && s[i] == (key, value);
        lemma_lookup_at(s, i);
    }
}

/// A tree gives the value of the row with a key, or nothing where there is none.
pub proof fn law_tree_get<V: View>(tree: &BTree<V>, key: &[u8], value: Option<&V>)
    requires
        tree.wf(),
        call_ensures(BTree::<V>::get, (tree, key), value),
    ensures
        value is Some ==> tree@.contains((key@, value->0@)),
        value is None ==> forall|i: int| 0 <= i < tree@.len() ==> (#[trigger] tree@[i]).0 != key@,
{
    if value is Some {
        lemma_lookup_is_membership(tree@, key@, value->0@);
    }
}

/// A row that is put is there, in place of any with its key; all others stay, the
/// rows are in the order of their keys, and the tree is where it was.
pub proof fn law_tree_put<V: View>(
    tree: &mut BTree<V>,
    key: &[u8],
    value: V,
    unit: (),
    k: Seq<u8>,
    v: V::V,
)
    requires
        old(tree).wf(),
        call_ensures(BTree::<V>::put, (tree, key, value), unit),
    ensures
        k == key@ ==> (final(tree)@.contains((k, v)) <==> v == value@),
        k != key@ ==> (final(tree)@.contains((k, v)) <==> old(tree)@.contains((k, v))),
        ascending(final(tree)@),
        final(tree).root() == old(tree).root(),
        final(tree).next() == old(tree).next(),
{
    lemma_slot_exists(old(tree)@, key@);
    lemma_with_row(old(tree)@, key@, value@, slot_of_key(old(tree)@, key@));
    lemma_lookup_is_membership(final(tree)@, k, v);
    lemma_lookup_is_membership(old(tree)@, k, v);
}

/// A row that is deleted is gone, all others stay, and whether there was one is
/// said.
pub proof fn law_tree_delete<V: View>(
    tree: &mut BTree<V>,
    key: &[u8],
    removed: bool,
    k: Seq<u8>,
    v: V::V,
)
    requires
        old(tree).wf(),
        call_ensures(BTree::<V>::delete, (tree, key), removed),
    ensures
        removed <==> exists|i: int| 0 <= i < old(tree)@.len() && (#[trigger] old(tree)@[i]).0 == key@,
        final(tree)@.contains((k, v)) <==> k != key@ && old(tree)@.contains((k, v)),
        ascending(final(tree)@),
        final(tree).root() == old(tree).root(),
        final(tree).next() == old(tree).next(),
{
    lemma_without_row(old(tree)@, key@);
    lemma_lookup_is_membership(final(tree)@, k, v);
    lemma_lookup_is_membership(old(tree)@, k, v);
}

/// A range delete takes the rows from the first key up to but not including the
/// second, says how many they were, and leaves the rest.
pub proof fn law_tree_delete_range<V: View>(
    tree: &mut BTree<V>,
    start: &[u8],
    end: &[u8],
    removed: u64,
    k: Seq<u8>,
    v: V::V,
)
    requires
        old(tree).wf(),
        call_ensures(BTree::<V>::delete_range, (tree, start, end), removed),
    ensures
        final(tree)@.contains((k, v)) <==> old(tree)@.contains((k, v)) && !(lex_le(start@, k)
            && lex_lt(k, end@)),
        removed == old(tree)@.len() - final(tree)@.len(),
{
    lemma_range_deleted(old(tree)@, start@, end@, final(tree)@, removed, k);
    lemma_lookup_is_membership(final(tree)@, k, v);
    lemma_lookup_is_membership(old(tree)@, k, v);
}

/// A batch begins at the cursor's first row and ends where the limit or the rows do;
/// a prefix batch ends where the prefix does too. The first key is that of row 0.
pub proof fn law_tree_batches<V: View>(
    tree: &BTree<V>,
    prefix: &[u8],
    cursor: &[u8],
    limit: usize,
    range: (usize, usize),
    prefixed: (usize, usize),
    first: Option<&Vec<u8>>,
    j: int,
)
    requires
        tree.wf(),
        call_ensures(BTree::<V>::collect_batch_from, (tree, cursor, limit), range),
        call_ensures(
            BTree::<V>::collect_prefix_batch_from,
            (tree, prefix, cursor, limit),
            prefixed,
        ),
        call_ensures(BTree::<V>::first_key, (tree,), first),
        0 <= j < tree@.len(),
    ensures
        j < range.0 <==> lex_lt(tree@[j].0, cursor@),
        prefixed.0 == range.0,
        range.1 - range.0 <= limit,
        range.1 == tree@.len() || range.1 - range.0 == limit,
        prefixed.1 - prefixed.0 <= limit,
        prefixed.0 <= j < prefixed.1 ==> has_prefix(tree@[j].0, prefix@),
        prefixed.1 <= j && has_prefix(tree@[j].0, prefix@) ==> prefixed.1 - prefixed.0 == limit,
        first is Some,
        first->0@ == tree@[0].0,
{
    let row = tree@[j];
    let a = tree@[range.0 as int];
    let b = tree@[prefixed.0 as int];
}

/// Sets of pages hold what was put into them and nothing else.
pub proof fn law_page_sets(
    ids: &Vec<u64>,
    from: PageSet,
    a: &PageSet,
    b: &PageSet,
    left: PageSet,
    apart: bool,
    same: bool,
    held: bool,
    grown: &mut PageSet,
    joined: &mut PageSet,
    unit: (),
    id: u64,
    page: u64,
)
    requires
        call_ensures(PageSet::from_ids, (ids,), from),
        call_ensures(PageSet::difference, (a, b), left),
        call_ensures(PageSet::is_disjoint, (a, b), apart),
        call_ensures(PageSet::equals, (a, b), same),
        call_ensures(PageSet::contains, (a, page), held),
        call_ensures(PageSet::insert, (grown, id), unit),
        call_ensures(PageSet::extend, (joined, b), unit),
    ensures
        from@.contains(page) <==> ids@.contains(page),
        left@.contains(page) <==> a@.contains(page) && !b@.contains(page),
        apart && a@.contains(page) ==> !b@.contains(page),
        !apart ==> exists|p: u64| a@.contains(p) && #[trigger] b@.contains(p),
        same ==> (a@.contains(page) <==> b@.contains(page)),
        !same ==> exists|p: u64| a@.contains(p) != #[trigger] b@.contains(p),
        held <==> a@.contains(page),
        final(grown)@.contains(page) <==> page == id || old(grown)@.contains(page),
        final(joined)@.contains(page) <==> old(joined)@.contains(page) || b@.contains(page),
{
    if !same {
        assert(!(a@ =~= b@));
    }
}

/// Sets of segments hold what was put into them and nothing else.
pub proof fn law_segment_sets(
    a: &SegmentSet,
    b: &SegmentSet,
    left: SegmentSet,
    same: bool,
    held: bool,
    grown: &mut SegmentSet,
    unit: (),
    id: [u8; 16],
    segment: &[u8; 16],
)
    requires
        call_ensures(SegmentSet::difference, (a, b), left),
        call_ensures(SegmentSet::equals, (a, b), same),
        call_ensures(SegmentSet::contains, (a, segment), held),
        call_ensures(SegmentSet::insert, (grown, id), unit),
    ensures
        left@.contains(*segment) <==> a@.contains(*segment) && !b@.contains(*segment),
        same ==> (a@.contains(*segment) <==> b@.contains(*segment)),
        !same ==> exists|s: [u8; 16]| a@.contains(s) != #[trigger] b@.contains(s),
        held <==> a@.contains(*segment),
        final(grown)@.contains(*segment) <==> *segment == id || old(grown)@.contains(*segment),
{
    if !same {
        assert(!(a@ =~= b@));
    }
}

/// A reference to a root is sixteen bytes: the page and the transaction, each with
/// the least significant byte first. It is read back, and a free list's reference
/// has no transaction.
pub proof fn law_root_references(
    page: u64,
    txn: u64,
    bytes: [u8; 16],
    list: [u8; 16],
    head: u64,
    fields: &MainDbHeaderFields,
    catalog_page: u64,
    catalog_txn: u64,
)
    requires
        call_ensures(encode_root_ref, (page, txn), bytes),
        call_ensures(encode_free_list_root, (page,), list),
        call_ensures(decode_free_list_root, (&list,), head),
        fields.catalog_root == bytes,
        call_ensures(fields_catalog_root_page_id, (fields,), catalog_page),
        call_ensures(fields_catalog_root_txn_id, (fields,), catalog_txn),
    ensures
        page == eight_up(bytes@.subrange(0, 8)),
        txn == eight_up(bytes@.subrange(8, 16)),
        page == eight_up(list@.subrange(0, 8)),
        eight_up(list@.subrange(8, 16)) == 0,
        head == page,
        catalog_page == page,
        catalog_txn == txn,
{
    law_root_ref_round_trip(page, txn);
    law_root_ref_round_trip(page, 0);
    law_eight_bytes_up(bytes@.subrange(0, 8));
    law_eight_bytes_up(bytes@.subrange(8, 16));
    law_eight_bytes_up(list@.subrange(0, 8));
    law_eight_bytes_up(list@.subrange(8, 16));
    lemma_small_8(bytes@.subrange(0, 8));
    lemma_small_8(bytes@.subrange(8, 16));
    lemma_small_8(list@.subrange(0, 8));
    lemma_small_8(list@.subrange(8, 16));
}

proof fn lemma_small_8(s: Seq<u8>)
    requires
        s.len() == 8,
    ensures
        le_value(s) <= u64::MAX,
{
    law_eight_bytes_up(s);
}

/// The pages that a store may have are of 4, 8, 16, 32 and 64 KiB, recorded by the
/// power of two that they are.
pub proof fn law_page_sizes(page_size: int, log2: u8)
    ensures
        is_page_size_log2(page_size, log2) <==> {
            ||| page_size == 4096 && log2 == 12
            ||| page_size == 8192 && log2 == 13
            ||| page_size == 16384 && log2 == 14
            ||| page_size == 32768 && log2 == 15
            ||| page_size == 65536 && log2 == 16
        },
{
    lemma2_to64();
}

/// Of two headers the one with the higher sequence number is live, and slot A where
/// they are level; one alone is live; the next header of a cursor is one higher, so
/// that written to the other slot it is the live one.
pub proof fn law_live_header(
    a: Option<MainDbHeaderFields>,
    b: Option<MainDbHeaderFields>,
    live: Option<(MainDbHeaderFields, ActiveSlot)>,
    cursor: &HeaderCursor,
    next: Result<u64>,
)
    requires
        call_ensures(select_live_header, (a, b), live),
        call_ensures(HeaderCursor::next_seq, (cursor,), next),
    ensures
        live is None <==> a is None && b is None,
        live is Some && (live->0).1 is A ==> a == Some((live->0).0) && (b is Some ==> a->0.seq
            >= b->0.seq),
        live is Some && (live->0).1 is B ==> b == Some((live->0).0) && (a is Some ==> b->0.seq
            > a->0.seq),
        cursor.seq < u64::MAX ==> next is Ok && next->Ok_0 == cursor.seq + 1,
        cursor.seq == u64::MAX ==> next == Err::<u64, PagedbError>(
            PagedbError::ArithmeticOverflow { what: "header sequence" },
        ),
{
}

/// A retention policy is recorded by a tag and a value: a count as 0, an age as 1,
/// no bound as 2, no history as 3. A cipher is recorded by 1 or 2 and read back.
pub proof fn law_recorded_choices(
    n: u32,
    count: (u8, u64),
    seconds: u64,
    age: (u8, u64),
    unbounded: (u8, u64),
    disabled: (u8, u64),
    c: CipherId,
    byte: u8,
    b: u8,
    back: Result<CipherId>,
)
    requires
        call_ensures(encode_retain_policy, (&RetainPolicy::Count(n),), count),
        call_ensures(encode_retain_policy, (&RetainPolicy::Age(seconds),), age),
        call_ensures(encode_retain_policy, (&RetainPolicy::Unbounded,), unbounded),
        call_ensures(encode_retain_policy, (&RetainPolicy::Disabled,), disabled),
        call_ensures(CipherId::as_byte, (c,), byte),
        call_ensures(CipherId::from_byte, (b,), back),
    ensures
        count.0 == 0 && count.1 == n,
        age.0 == 1 && age.1 == seconds,
        unbounded.0 == 2 && unbounded.1 == 0,
        disabled.0 == 3 && disabled.1 == 0,
        c is Aes256Gcm ==> byte == 1,
        c is ChaCha20Poly1305 ==> byte == 2,
        b == 1 ==> back == Ok::<CipherId, PagedbError>(CipherId::Aes256Gcm),
        b == 2 ==> back == Ok::<CipherId, PagedbError>(CipherId::ChaCha20Poly1305),
        b != 1 && b != 2 ==> back == Err::<CipherId, PagedbError>(
            PagedbError::UnknownCipher { cipher_id: b },
        ),
{
}

/// The keys of the catalog begin with the kind of the row: a segment's is 1, the
/// realm and the name; a counter's 2 and the name; the rekey row's 3; a reader pin's
/// 6, the process and the lease with the most significant byte first; a quota's 7 and
/// the realm; a rekey's progress row 8 and the segment. A name may have 1024 bytes.
pub proof fn law_catalog_keys(
    realm: RealmId,
    name: &[u8],
    segment: Result<Vec<u8>>,
    counter: Result<Vec<u8>>,
    rekey: Vec<u8>,
    pid: u32,
    lease: u64,
    pin: Vec<u8>,
    quota: Vec<u8>,
    id: &[u8; 16],
    progress: Vec<u8>,
)
    requires
        call_ensures(Catalog::segment_key, (realm, name), segment),
        call_ensures(Catalog::counter_key, (name,), counter),
        call_ensures(Catalog::rekey_state_key, (), rekey),
        call_ensures(Catalog::reader_pin_key, (pid, lease), pin),
        call_ensures(Catalog::quota_key, (realm,), quota),
        call_ensures(Catalog::rekey_segment_progress_key, (id,), progress),
    ensures
        name@.len() <= 1024 ==> {
            &&& segment is Ok
            &&& segment->Ok_0@ == seq![1u8] + realm.0@ + name@
            &&& counter is Ok
            &&& counter->Ok_0@ == seq![2u8] + name@
        },
        name@.len() > 1024 ==> {
            &&& segment == Err::<Vec<u8>, PagedbError>(PagedbError::NameTooLong)
            &&& counter == Err::<Vec<u8>, PagedbError>(PagedbError::NameTooLong)
        },
        rekey@ == seq![3u8],
        pin@.len() == 13,
        pin@[0] == 6,
        pid == pin@[4] + 0x100 * pin@[3] + 0x1_0000 * pin@[2] + 0x100_0000 * pin@[1],
        lease == eight_down(pin@.subrange(5, 13)),
        quota@ == seq![7u8] + realm.0@,
        progress@ == seq![8u8] + id@,
{
    lemma_be_bytes_len(pid as nat, 4);
    lemma_be_bytes_len(lease as nat, 8);
    lemma_byte_range_8();
    reveal_with_fuel(crate::codec::byte_range, 5);
    lemma_be_round_trip(pid as nat, 4);
    lemma_be_round_trip(lease as nat, 8);
    assert(pin@.subrange(1, 5) =~= be_bytes(pid as nat, 4));
    assert(pin@.subrange(5, 13) =~= be_bytes(lease as nat, 8));
    lemma_four_down(pin@.subrange(1, 5));
    law_eight_bytes_down(pin@.subrange(5, 13));
}

/// A counter is written in eight bytes, the least significant first, and read only
/// from eight.
pub proof fn law_counter_bytes(value: u64, out: [u8; 8], bytes: &[u8], r: Result<u64>)
    requires
        call_ensures(Catalog::encode_counter, (value,), out),
        call_ensures(Catalog::decode_counter, (bytes,), r),
    ensures
        value == eight_up(out@),
        bytes@.len() == 8 ==> r is Ok && r->Ok_0 == eight_up(bytes@),
        bytes@.len() != 8 ==> r is Err && r->Err_0 is Corruption,
        bytes@ == out@ ==> r == Ok::<u64, PagedbError>(value),
{
    lemma_byte_range_8();
    lemma_le_bytes_len(value as nat, 8);
    lemma_le_round_trip(value as nat, 8);
    law_eight_bytes_up(out@);
    if bytes@.len() == 8 {
        law_eight_bytes_up(bytes@);
    }
}

/// A rekey is recorded in sixty-four bytes: the version 1, the stage from 0 to 4,
/// whether the key is the same, the two ciphers, the two epochs with the least
/// significant byte first, the two proofs, and zeros for the rest.
pub proof fn law_rekey_row_layout(i: &RekeyIntent, out: [u8; 64])
    requires
        call_ensures(Catalog::encode_rekey_intent, (i,), out),
    ensures
        out@[0] == 1,
        i.stage is Intent <==> out@[1] == 0,
        i.stage is MainPagesTargetReadable <==> out@[1] == 1,
        i.stage is HeaderTargetPublished <==> out@[1] == 2,
        i.stage is MainDone <==> out@[1] == 3,
        i.stage is SegmentsPending <==> out@[1] == 4,
        out@[2] == if i.same_kek {
            1u8
        } else {
            0u8
        },
        out@[3] == 0,
        out@[4] == i.source_cipher_id,
        out@[5] == i.target_cipher_id,
        out@[6] == 0 && out@[7] == 0,
        i.source_mk_epoch == eight_up(out@.subrange(8, 16)),
        i.target_mk_epoch == eight_up(out@.subrange(16, 24)),
        out@.subrange(24, 40) == i.source_hk_proof@,
        out@.subrange(40, 56) == i.target_hk_proof@,
        forall|k: int| 56 <= k < 64 ==> #[trigger] out@[k] == 0,
{
    lemma_byte_range_8();
    lemma_le_bytes_len(i.source_mk_epoch as nat, 8);
    lemma_le_bytes_len(i.target_mk_epoch as nat, 8);
    lemma_le_round_trip(i.source_mk_epoch as nat, 8);
    lemma_le_round_trip(i.target_mk_epoch as nat, 8);
    assert(out@.subrange(8, 16) =~= le_bytes(i.source_mk_epoch as nat, 8));
    assert(out@.subrange(16, 24) =~= le_bytes(i.target_mk_epoch as nat, 8));
    assert(out@.subrange(24, 40) =~= i.source_hk_proof@);
    assert(out@.subrange(40, 56) =~= i.target_hk_proof@);
    law_eight_bytes_up(out@.subrange(8, 16));
    law_eight_bytes_up(out@.subrange(16, 24));
}

/// A recorded rekey is read back where it is a valid one, and refused by what is
/// wrong with it otherwise: the target epoch must be later than the source's and not
/// 0, both ciphers known, and both the same.
pub proof fn law_rekey_row_is_read(
    intent: &RekeyIntent,
    out: [u8; 64],
    bytes: &[u8],
    r: Result<RekeyIntent>,
    checked: Result<()>,
)
    requires
        call_ensures(Catalog::encode_rekey_intent, (intent,), out),
        bytes@ == out@,
        call_ensures(Catalog::decode_rekey_state, (bytes,), r),
        call_ensures(Catalog::check_rekey_intent, (intent,), checked),
    ensures
        ({
            let known = |c: u8| c == 1 || c == 2;
            let valid = intent.target_mk_epoch > intent.source_mk_epoch && known(intent.source_cipher_id)
                && intent.source_cipher_id == intent.target_cipher_id;
            &&& valid <==> r == Ok::<RekeyIntent, PagedbError>(*intent)
            &&& r is Ok ==> valid
            &&& checked is Ok <==> r is Ok
            &&& r is Err ==> checked == Err::<(), PagedbError>(r->Err_0)
            &&& intent.target_mk_epoch <= intent.source_mk_epoch ==> r == Err::<RekeyIntent, PagedbError>(
                PagedbError::RekeyStateInvalid { field: "rekey.target_mk_epoch" },
            )
            &&& intent.target_mk_epoch > intent.source_mk_epoch && !known(intent.source_cipher_id) ==> r == Err::<
                RekeyIntent,
                PagedbError,
            >(PagedbError::UnknownCipher { cipher_id: intent.source_cipher_id })
            &&& intent.target_mk_epoch > intent.source_mk_epoch && known(intent.source_cipher_id) && !known(
                intent.target_cipher_id,
            ) ==> r == Err::<RekeyIntent, PagedbError>(
                PagedbError::UnknownCipher { cipher_id: intent.target_cipher_id },
            )
            &&& intent.target_mk_epoch > intent.source_mk_epoch && known(intent.source_cipher_id) && known(
                intent.target_cipher_id,
            ) && intent.source_cipher_id != intent.target_cipher_id ==> r == Err::<RekeyIntent, PagedbError>(
                PagedbError::RekeyStateInvalid { field: "target_cipher_id" },
            )
        }),
{
}

/// The rows of a range are those from its first key up to but not including its end,
/// the rows of a prefix those that begin with it, and the place of a key is behind the
/// rows below it.
pub proof fn law_tree_ranges<V: View>(
    tree: &BTree<V>,
    start: &[u8],
    end: &[u8],
    range: (usize, usize),
    prefix: &[u8],
    run: (usize, usize),
    place: usize,
    i: int,
)
    requires
        call_ensures(BTree::<V>::collect_range, (tree, start, end), range),
        call_ensures(BTree::<V>::prefix_range, (tree, prefix), run),
        call_ensures(BTree::<V>::lower_bound, (tree, start), place),
        0 <= i < tree@.len(),
    ensures
        range.0 <= range.1 <= tree@.len() && run.0 <= run.1 <= tree@.len() && place
            <= tree@.len(),
        range.0 <= i < range.1 <==> lex_le(start@, tree@[i].0) && lex_lt(tree@[i].0, end@),
        run.0 <= i < run.1 <==> has_prefix(tree@[i].0, prefix@),
        i < place <==> lex_lt(tree@[i].0, start@),
{
    let row = tree@[i];
}

/// A tree that is written is where it was written to, with the rows that it had.
pub proof fn law_tree_is_placed<V: View>(
    tree: &mut BTree<V>,
    root: u64,
    next: u64,
    unit: (),
    moved: &mut BTree<V>,
    cursor: u64,
)
    requires
        call_ensures(BTree::<V>::set_pages, (tree, root, next), unit),
        call_ensures(BTree::<V>::set_next_page_id, (moved, cursor), unit),
    ensures
        final(tree)@ == old(tree)@ && final(tree).root() == root && final(tree).next() == next,
        final(moved)@ == old(moved)@ && final(moved).root() == old(moved).root()
            && final(moved).next() == cursor,
{
}

/// A row of the catalog is read as what it is, and as nothing else.
pub proof fn law_catalog_rows_are_read(
    value: &CatalogValue,
    segment: Result<SegmentMeta>,
    counter: Result<u64>,
    quotas: Result<RealmQuotas>,
    intent: Result<RekeyIntent>,
    progress: Result<RekeySegmentProgress>,
)
    requires
        call_ensures(Catalog::decode_segment_meta, (value,), segment),
        call_ensures(Catalog::counter_of, (value,), counter),
        call_ensures(Catalog::decode_realm_quotas, (value,), quotas),
        call_ensures(Catalog::rekey_intent_of, (value,), intent),
        call_ensures(Catalog::rekey_progress_of, (value,), progress),
    ensures
        segment is Ok <==> *value is Segment,
        segment is Ok ==> segment->Ok_0 == value->Segment_0,
        counter is Ok <==> *value is Counter,
        counter is Ok ==> counter->Ok_0 == value->Counter_0,
        quotas is Ok <==> *value is Quotas,
        quotas is Ok ==> quotas->Ok_0 == value->Quotas_0,
        intent is Ok ==> *value is RekeyState && intent->Ok_0 == value->RekeyState_0,
        *value is RekeyState ==> (intent is Ok <==> value->RekeyState_0.target_mk_epoch
            > value->RekeyState_0.source_mk_epoch && (value->RekeyState_0.source_cipher_id == 1
            || value->RekeyState_0.source_cipher_id == 2)
            && value->RekeyState_0.target_cipher_id == value->RekeyState_0.source_cipher_id),
        progress is Ok <==> *value is RekeyProgress,
        progress is Ok ==> progress->Ok_0 == value->RekeyProgress_0,
        segment is Err ==> segment->Err_0 is Corruption,
        counter is Err ==> counter->Err_0 is Corruption,
        quotas is Err ==> quotas->Err_0 is Corruption,
        progress is Err ==> progress->Err_0 is Corruption,
{
}

/// A set lists each of its members once, in ascending order.
pub proof fn law_sets_are_listed(
    pages: &PageSet,
    n: usize,
    at: usize,
    id: u64,
    later: usize,
    next: u64,
)
    requires
        pages.wf(),
        call_ensures(PageSet::len, (pages,), n),
        at < later < n,
        call_ensures(PageSet::at, (pages, at), id),
        call_ensures(PageSet::at, (pages, later), next),
    ensures
        pages@.contains(id) && pages@.contains(next),
        id < next,
        pages@.len() == n,
{
    let l = pages.list();
    assert forall|i: int, j: int| 0 <= i < l.len() && 0 <= j < l.len() && i != j implies l[i]
        != l[j] by {
        if i < j {
            assert(l[i] < l[j]);
        } else {
            assert(l[j] < l[i]);
        }
    }
    l.unique_seq_to_set();
}

/// A row of a change of keys is of sixty-four bytes, of version 1, with a stage and a
/// flag that are known and zero in the bytes that are reserved; any other is refused.
pub proof fn law_malformed_rekey_row_is_refused(bytes: &[u8], r: Result<RekeyIntent>, i: int)
    requires
        call_ensures(Catalog::decode_rekey_state, (bytes,), r),
        bytes@.len() != 64 || bytes@[0] != 1 || bytes@[1] > 4 || bytes@[2] > 1 || bytes@[3] != 0
            || bytes@[6] != 0 || bytes@[7] != 0 || 56 <= i < 64 && bytes@[i] != 0,
    ensures
        r is Err,
        r->Err_0 is Corruption,
{
    if r is Ok {
        let a = le_bytes(r->Ok_0.source_mk_epoch as nat, 8);
        let b = le_bytes(r->Ok_0.target_mk_epoch as nat, 8);
        lemma_le_bytes_len(r->Ok_0.source_mk_epoch as nat, 8);
        lemma_le_bytes_len(r->Ok_0.target_mk_epoch as nat, 8);
    } else if 56 <= i < 64 && bytes@.len() == 64 && bytes@[i] != 0 {
        assert(bytes@.subrange(56, 64)[i - 56] == bytes@[i]);
    }
}

} // verus!
