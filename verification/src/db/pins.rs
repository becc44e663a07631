//! Durable reader pins: catalog rows that keep the pages of a reader in another
//! process, until its lease runs out.

use vstd::prelude::*;

use crate::catalog::{
    reader_pin_key_spec, Catalog, CatalogValue, ReaderPinValue, KIND_READER_PIN,
};
use crate::codec::{be_value, copy_bytes, u32_from_be};
use crate::order::has_prefix;
use crate::tree::{
    ascending, has_key, index_of_key, lemma_lookup_at, lemma_without_row, with_row, without_row,
    BTree,
};

use super::handle::{poison_kept, Db};

verus! {

/// For how long a reader pin is leased.
pub const PIN_LEASE_SECONDS: u64 = 30;

/// How many bytes the key of a reader pin has.
pub const PIN_KEY_LEN: usize = 13;

/// The row of a pin that is leased from `now` on.
pub open spec fn pin_row(
    commit_id: u64,
    root_page_id: u64,
    catalog_root_page_id: u64,
    expires: u64,
) -> CatalogValue {
    CatalogValue::ReaderPin(
        ReaderPinValue {
            commit_id,
            root_page_id,
            catalog_root_page_id,
            free_list_root_page_id: 0,
            expires_unix_seconds: expires,
            flags: 0,
        },
    )
}

/// Stores the pin of a reader among the catalog's rows.
pub fn insert_pin_row(
    catalog: &mut BTree<CatalogValue>,
    pid: u32,
    lease_id: u64,
    commit_id: u64,
    root_page_id: u64,
    catalog_root_page_id: u64,
    now_seconds: u64,
    lease_seconds: u64,
)
    requires
        old(catalog).wf(),
        now_seconds + lease_seconds <= u64::MAX,
    ensures
        final(catalog).wf(),
        final(catalog).root() == old(catalog).root(),
        final(catalog).next() == old(catalog).next(),
        final(catalog)@ == with_row(
            old(catalog)@,
            reader_pin_key_spec(pid, lease_id),
            pin_row(
                commit_id,
                root_page_id,
                catalog_root_page_id,
                (now_seconds + lease_seconds) as u64,
            ),
        ),
{
    let key: Vec<u8> = Catalog::reader_pin_key(pid, lease_id);
    catalog.put(
        &key,
        CatalogValue::ReaderPin(
            ReaderPinValue {
                commit_id,
                root_page_id,
                catalog_root_page_id,
                free_list_root_page_id: 0,
                expires_unix_seconds: now_seconds + lease_seconds,
                flags: 0,
            },
        ),
    );
}

/// The rows without the pins `pins`.
pub open spec fn without_pins(s: Seq<(Seq<u8>, CatalogValue)>, pins: Seq<(u32, u64)>) -> Seq<
    (Seq<u8>, CatalogValue),
>
    decreases pins.len(),
{
    if pins.len() == 0 {
        s
    } else {
        without_row(
            without_pins(s, pins.drop_last()),
            reader_pin_key_spec(pins.last().0, pins.last().1),
        )
    }
}

proof fn lemma_without_pins(s: Seq<(Seq<u8>, CatalogValue)>, pins: Seq<(u32, u64)>)
    requires
        ascending(s),
    ensures
        ascending(without_pins(s, pins)),
        without_pins(s, pins).len() <= s.len(),
        without_pins(s, pins).len() == s.len() ==> without_pins(s, pins) == s,
    decreases pins.len(),
{
    if pins.len() > 0 {
        let rest = without_pins(s, pins.drop_last());
        let key = reader_pin_key_spec(pins.last().0, pins.last().1);
        lemma_without_pins(s, pins.drop_last());
        lemma_without_row(rest, key);
        if has_key(rest, key) {
            let i = index_of_key(rest, key);
            assert(without_row(rest, key).len() == rest.len() - 1);
        }
    }
}

/// Deletes pins from the catalog's rows. Says whether any was there, and a
/// catalog commit is due.
pub fn delete_pin_rows(catalog: &mut BTree<CatalogValue>, pins: &Vec<(u32, u64)>) -> (deleted: bool)
    requires
        old(catalog).wf(),
    ensures
        final(catalog).wf(),
        final(catalog).root() == old(catalog).root(),
        final(catalog).next() == old(catalog).next(),
        final(catalog)@ == without_pins(old(catalog)@, pins@),
        deleted == (final(catalog)@ != old(catalog)@),
{
    let ghost s = catalog@;
    let mut deleted: bool = false;
    let mut i: usize = 0;
    while i < pins.len()
        invariant
            catalog.wf(),
            s == old(catalog)@,
            ascending(s),
            catalog.root() == old(catalog).root(),
            catalog.next() == old(catalog).next(),
            i <= pins@.len(),
            catalog@ == without_pins(s, pins@.take(i as int)),
            deleted == (catalog@.len() < s.len()),
            catalog@.len() <= s.len(),
        decreases pins@.len() - i,
    {
        let ghost before = catalog@;
        proof {
            assert(pins@.take(i + 1).drop_last() =~= pins@.take(i as int));
            assert(pins@.take(i + 1).last() == pins@[i as int]);
        }
        let key: Vec<u8> = Catalog::reader_pin_key(pins[i].0, pins[i].1);
        if catalog.delete(&key) {
            deleted = true;
            proof {
                assert(catalog@.len() == before.len() - 1);
            }
        }
        i = i + 1;
    }
    proof {
        assert(pins@.take(i as int) =~= pins@);
        lemma_without_pins(s, pins@);
    }
    deleted
}

/// Whether a pin row can be dropped: its key is cut short, it was left by an
/// earlier process with this one's id, or its lease has run out.
pub open spec fn is_stale(row: (Seq<u8>, CatalogValue), own_pid: u32, now: u64) -> bool {
    &&& has_prefix(row.0, seq![KIND_READER_PIN])
    &&& {
        ||| row.0.len() < PIN_KEY_LEN
        ||| be_value(row.0.subrange(1, 5)) == own_pid
        ||| row.1 is ReaderPin && row.1->ReaderPin_0.expires_unix_seconds < now
    }
}

/// The rows without the stale pins.
pub open spec fn fresh_rows(s: Seq<(Seq<u8>, CatalogValue)>, own_pid: u32, now: u64) -> Seq<
    (Seq<u8>, CatalogValue),
>
    decreases s.len(),
{
    if s.len() == 0 {
        s
    } else {
        let before = fresh_rows(s.drop_last(), own_pid, now);
        if is_stale(s.last(), own_pid, now) {
            before
        } else {
            before.push(s.last())
        }
    }
}

fn pin_is_stale(key: &Vec<u8>, value: &CatalogValue, own_pid: u32, now: u64) -> (stale: bool)
    requires
        has_prefix(key@, seq![KIND_READER_PIN]),
    ensures
        stale == is_stale((key@, *value), own_pid, now),
{
    if key.len() < PIN_KEY_LEN {
        return true;
    }
    if u32_from_be(key, 1) == own_pid {
        return true;
    }
    match value {
        CatalogValue::ReaderPin(pin) => pin.expires_unix_seconds < now,
        _ => false,
    }
}

proof fn lemma_fresh_prefix(s: Seq<(Seq<u8>, CatalogValue)>, own_pid: u32, now: u64, a: int, b: int)
    requires
        0 <= a <= b <= s.len(),
        forall|j: int| #![trigger s[j]] a <= j < b ==> !is_stale(s[j], own_pid, now),
    ensures
        fresh_rows(s.take(b), own_pid, now) == fresh_rows(s.take(a), own_pid, now) + s.subrange(a, b),
    decreases b - a,
{
    if a < b {
        assert(s.take(b).drop_last() =~= s.take(b - 1));
        assert(s.take(b).last() == s[b - 1]);
        lemma_fresh_prefix(s, own_pid, now, a, b - 1);
        assert(fresh_rows(s.take(b), own_pid, now) =~= fresh_rows(s.take(a), own_pid, now)
            + s.subrange(a, b));
    } else {
        assert(fresh_rows(s.take(b), own_pid, now) =~= fresh_rows(s.take(a), own_pid, now)
            + s.subrange(a, b));
    }
}

/// Drops the stale pins from the catalog's rows, at the open of a writer. Says
/// whether any was there, and a catalog commit is due.
pub fn cleanup_stale_reader_pins(catalog: &mut BTree<CatalogValue>, own_pid: u32, now: u64) -> (deleted:
    bool)
    requires
        old(catalog).wf(),
    ensures
        final(catalog).wf(),
        final(catalog).root() == old(catalog).root(),
        final(catalog).next() == old(catalog).next(),
        final(catalog)@ == fresh_rows(old(catalog)@, own_pid, now),
        deleted == (final(catalog)@ != old(catalog)@),
{
    let mut prefix: Vec<u8> = Vec::new();
    prefix.push(KIND_READER_PIN);
    proof {
        assert(prefix@ =~= seq![KIND_READER_PIN]);
    }
    let (lo, hi) = catalog.prefix_range(&prefix);
    let ghost s = catalog@;
    let mut deleted: bool = false;
    let mut i: usize = lo;
    let mut at: usize = lo;
    proof {
        assert(s.take(0) =~= Seq::<(Seq<u8>, CatalogValue)>::empty());
        lemma_fresh_prefix(s, own_pid, now, 0, lo as int);
        assert(fresh_rows(s.take(lo as int), own_pid, now) =~= s.take(lo as int));
        assert(catalog@ =~= fresh_rows(s.take(lo as int), own_pid, now) + s.skip(lo as int));
    }
    while i < hi
        invariant
            catalog.wf(),
            s == old(catalog)@,
            catalog.root() == old(catalog).root(),
            catalog.next() == old(catalog).next(),
            lo <= i <= hi <= s.len(),
            forall|j: int|
                #![trigger s[j]]
                0 <= j < s.len() ==> (lo <= j < hi <==> has_prefix(s[j].0, seq![KIND_READER_PIN])),
            at == fresh_rows(s.take(i as int), own_pid, now).len(),
            catalog@ == fresh_rows(s.take(i as int), own_pid, now) + s.skip(i as int),
            deleted == (catalog@.len() < s.len()),
            catalog@.len() <= s.len(),
            !deleted ==> catalog@ == s,
        decreases hi - i,
    {
        let ghost before = catalog@;
        let ghost kept = fresh_rows(s.take(i as int), own_pid, now);
        proof {
            assert(s.take(i + 1).drop_last() =~= s.take(i as int));
            assert(s.take(i + 1).last() == s[i as int]);
            assert(before[at as int] == s[i as int]);
            assert(has_prefix(s[i as int].0, seq![KIND_READER_PIN]));
            lemma_lookup_at(before, at as int);
        }
        if pin_is_stale(catalog.key_at(at), catalog.value_at(at), own_pid, now) {
            let key: Vec<u8> = copy_bytes(catalog.key_at(at));
            let _ = catalog.delete(&key);
            deleted = true;
            proof {
                assert(catalog@ =~= before.remove(at as int));
                assert(catalog@ =~= kept + s.skip(i + 1));
            }
        } else {
            at = at + 1;
            proof {
                assert(catalog@ =~= kept.push(s[i as int]) + s.skip(i + 1));
            }
        }
        i = i + 1;
    }
    proof {
        lemma_fresh_prefix(s, own_pid, now, hi as int, s.len() as int);
        assert(s.take(s.len() as int) =~= s);
        assert(s.subrange(hi as int, s.len() as int) =~= s.skip(hi as int));
    }
    deleted
}

/// The smallest commit that a live pin of another process holds; the largest
/// number when there is none. A pin is another process's unless its key spells
/// this one's id.
pub open spec fn min_pinned(s: Seq<(Seq<u8>, CatalogValue)>, own_pid: u32, now: u64) -> u64
    decreases s.len(),
{
    if s.len() == 0 {
        u64::MAX
    } else {
        let before = min_pinned(s.drop_last(), own_pid, now);
        if holds_commit(s.last(), own_pid, now) && s.last().1->ReaderPin_0.commit_id < before {
            s.last().1->ReaderPin_0.commit_id
        } else {
            before
        }
    }
}

/// Whether a row is a live pin of another process.
pub open spec fn holds_commit(row: (Seq<u8>, CatalogValue), own_pid: u32, now: u64) -> bool {
    &&& has_prefix(row.0, seq![KIND_READER_PIN])
    &&& !(row.0.len() >= 5 && be_value(row.0.subrange(1, 5)) == own_pid)
    &&& row.1 is ReaderPin
    &&& row.1->ReaderPin_0.expires_unix_seconds >= now
}

proof fn lemma_min_skip(s: Seq<(Seq<u8>, CatalogValue)>, own_pid: u32, now: u64, a: int, b: int)
    requires
        0 <= a <= b <= s.len(),
        forall|j: int| #![trigger s[j]] a <= j < b ==> !holds_commit(s[j], own_pid, now),
    ensures
        min_pinned(s.take(a), own_pid, now) == min_pinned(s.take(b), own_pid, now),
    decreases b - a,
{
    if a < b {
        assert(s.take(b).drop_last() =~= s.take(b - 1));
        assert(s.take(b).last() == s[b - 1]);
        lemma_min_skip(s, own_pid, now, a, b - 1);
    }
}

/// The commit that a pin row holds, if it is a live pin of another process.
fn held_commit(key: &Vec<u8>, value: &CatalogValue, own_pid: u32, now: u64) -> (held: Option<u64>)
    requires
        has_prefix(key@, seq![KIND_READER_PIN]),
    ensures
        match held {
            Some(c) => holds_commit((key@, *value), own_pid, now) && c
                == value->ReaderPin_0.commit_id,
            None => !holds_commit((key@, *value), own_pid, now),
        },
{
    if key.len() >= 5 && u32_from_be(key, 1) == own_pid {
        return None;
    }
    match value {
        CatalogValue::ReaderPin(pin) => if pin.expires_unix_seconds >= now {
            Some(pin.commit_id)
        } else {
            None
        },
        _ => None,
    }
}

/// The smallest commit that a live pin of another process holds. A root of 0 is
/// an empty catalog.
#[verifier::spinoff_prover]
pub fn min_durable_reader_commit(
    root_page_id: u64,
    catalog: &BTree<CatalogValue>,
    own_pid: u32,
    now: u64,
) -> (min: u64)
    requires
        catalog.wf(),
    ensures
        min == if root_page_id == 0 {
            u64::MAX
        } else {
            min_pinned(catalog@, own_pid, now)
        },
{
    if root_page_id == 0 {
        return u64::MAX;
    }
    let mut prefix: Vec<u8> = Vec::new();
    prefix.push(KIND_READER_PIN);
    proof {
        assert(prefix@ =~= seq![KIND_READER_PIN]);
    }
    let (lo, hi) = catalog.prefix_range(&prefix);
    let ghost s = catalog@;
    let mut min: u64 = u64::MAX;
    let mut i: usize = lo;
    proof {
        assert(s.take(0) =~= Seq::<(Seq<u8>, CatalogValue)>::empty());
        lemma_min_skip(s, own_pid, now, 0, lo as int);
    }
    while i < hi
        invariant
            s == catalog@,
            lo <= i <= hi <= s.len(),
            forall|j: int|
                #![trigger s[j]]
                0 <= j < s.len() ==> (lo <= j < hi <==> has_prefix(s[j].0, seq![KIND_READER_PIN])),
            min == min_pinned(s.take(i as int), own_pid, now),
        decreases hi - i,
    {
        proof {
            assert(s.take(i + 1).drop_last() =~= s.take(i as int));
            assert(s.take(i + 1).last() == s[i as int]);
            assert(has_prefix(s[i as int].0, seq![KIND_READER_PIN]));
        }
        match held_commit(catalog.key_at(i), catalog.value_at(i), own_pid, now) {
            Some(c) => {
                if c < min {
                    min = c;
                }
            },
            None => {},
        }
        i = i + 1;
    }
    proof {
        lemma_min_skip(s, own_pid, now, hi as int, s.len() as int);
        assert(s.take(s.len() as int) =~= s);
    }
    min
}

/// No commit that a live pin of another process holds is above the smallest
/// one: pages freed before it are safe to reuse, those freed after it are not.
pub proof fn law_min_pin_protects_every_pin(
    s: Seq<(Seq<u8>, CatalogValue)>,
    own_pid: u32,
    now: u64,
    i: int,
)
    requires
        0 <= i < s.len(),
        holds_commit(s[i], own_pid, now),
    ensures
        min_pinned(s, own_pid, now) <= s[i].1->ReaderPin_0.commit_id,
    decreases s.len(),
{
    if i < s.len() - 1 {
        assert(s.drop_last()[i] == s[i]);
        law_min_pin_protects_every_pin(s.drop_last(), own_pid, now, i);
    }
}

/// A pin that still counts is never dropped as stale, as long as its key is
/// whole.
pub proof fn law_live_pin_is_not_stale(row: (Seq<u8>, CatalogValue), own_pid: u32, now: u64)
    requires
        holds_commit(row, own_pid, now),
        row.0.len() >= PIN_KEY_LEN,
    ensures
        !is_stale(row, own_pid, now),
{
}

impl Db {
    /// Takes the pins that dropped readers left to be deleted.
    pub fn drain_pending_pin_deletes(&mut self) -> (pins: Vec<(u32, u64)>)
        ensures
            poison_kept(*old(self), *final(self)),
            *final(self) == (Db {
                pending_pin_deletes: final(self).pending_pin_deletes,
                ..*old(self)
            }),
            pins@ == old(self).pending_pin_deletes@,
            final(self).pending_pin_deletes@.len() == 0,
    {
        let mut pins: Vec<(u32, u64)> = Vec::new();
        std::mem::swap(&mut pins, &mut self.pending_pin_deletes);
        pins
    }
}

} // verus!
