//! The main header: what it records, and how its root references are written.

use vstd::arithmetic::power2::{lemma2_to64, pow2};
use vstd::prelude::*;

use crate::codec::{
    le_bytes, le_value, lemma_byte_range_8, lemma_le_bytes_len, lemma_le_round_trip, u64_from_le,
    u64_to_le,
};
use crate::errors::{PagedbError, Result};
use crate::ids::{ActiveSlot, CommitId, RealmId};

verus! {

/// The first page id an allocator hands out; the pages below it are reserved.
pub const FIRST_ALLOCATABLE_PAGE_ID: u64 = 4;

/// The header format that this build writes and reads.
pub const MAIN_FORMAT_VERSION: u16 = 1;

/// Everything a main header records.
#[derive(Debug, Clone, Copy)]
pub struct MainDbHeaderFields {
    pub format_version: u16,
    pub cipher_id: u8,
    pub page_size_log2: u8,
    pub flags: u32,
    pub file_id: [u8; 16],
    pub kek_salt: [u8; 16],
    pub mk_epoch: u64,
    pub seq: u64,
    pub active_root_page_id: u64,
    pub active_root_txn_id: u64,
    pub counter_anchor: u64,
    pub commit_id: CommitId,
    pub free_list_root: [u8; 16],
    pub catalog_root: [u8; 16],
    pub apply_journal_root_page_id: u64,
    pub apply_journal_root_version: u64,
    pub commit_history_root_page_id: u64,
    pub commit_history_root_version: u64,
    pub restore_mode: u8,
    pub next_page_id: u64,
    pub commit_retain_policy_tag: u8,
    pub commit_retain_policy_value: u64,
    pub realm_id: RealmId,
}

/// The slot of the live header and the sequence number it carries.
#[derive(Debug, Clone, Copy, PartialEq, Eq, Structural)]
pub struct HeaderCursor {
    pub slot: ActiveSlot,
    pub seq: u64,
}

impl HeaderCursor {
    /// The sequence number of the next header.
    pub fn next_seq(&self) -> (r: Result<u64>)
        ensures
            match r {
                Ok(seq) => seq == self.seq + 1,
                Err(e) => self.seq == u64::MAX && e == (PagedbError::ArithmeticOverflow {
                    what: "header sequence",
                }),
            },
    {
        match self.seq.checked_add(1) {
            Some(seq) => Ok(seq),
            None => Err(PagedbError::ArithmeticOverflow { what: "header sequence" }),
        }
    }
}

/// Whether `log2` is the exponent of a page size that the format supports.
pub open spec fn is_page_size_log2(page_size: int, log2: u8) -> bool {
    12 <= log2 <= 16 && page_size == pow2(log2 as nat)
}

/// Whether no exponent stands for a page size.
pub open spec fn is_no_page_size(page_size: int) -> bool {
    forall|log2: u8| !#[trigger] is_page_size_log2(page_size, log2)
}

/// The exponent that a header records for a page size.
pub fn page_size_log2(page_size: usize) -> (r: Result<u8>)
    ensures
        match r {
            Ok(log2) => is_page_size_log2(page_size as int, log2),
            Err(e) => e == PagedbError::Unsupported && is_no_page_size(page_size as int),
        },
{
    proof {
        lemma2_to64();
    }
    if page_size == 4096 {
        Ok(12)
    } else if page_size == 8192 {
        Ok(13)
    } else if page_size == 16384 {
        Ok(14)
    } else if page_size == 32768 {
        Ok(15)
    } else if page_size == 65536 {
        Ok(16)
    } else {
        Err(PagedbError::Unsupported)
    }
}

/// A root reference: the page id, then the transaction that wrote it, each
/// little-endian.
pub open spec fn root_ref(page_id: u64, txn_id: u64) -> Seq<u8> {
    le_bytes(page_id as nat, 8) + le_bytes(txn_id as nat, 8)
}

/// Encodes a root reference.
pub fn encode_root_ref(page_id: u64, txn_id: u64) -> (bytes: [u8; 16])
    ensures
        bytes@ == root_ref(page_id, txn_id),
{
    let p: [u8; 8] = u64_to_le(page_id);
    let t: [u8; 8] = u64_to_le(txn_id);
    let bytes: [u8; 16] = [
        p[0], p[1], p[2], p[3], p[4], p[5], p[6], p[7],
        t[0], t[1], t[2], t[3], t[4], t[5], t[6], t[7],
    ];
    proof {
        assert(bytes@ =~= root_ref(page_id, txn_id));
    }
    bytes
}

/// Encodes the head of the free-list chain; the second half stays zero.
pub fn encode_free_list_root(head_page_id: u64) -> (bytes: [u8; 16])
    ensures
        bytes@ == root_ref(head_page_id, 0),
{
    encode_root_ref(head_page_id, 0)
}

/// The page id of a root reference.
pub open spec fn root_page(raw: Seq<u8>) -> u64 {
    le_value(raw.subrange(0, 8)) as u64
}

/// The transaction id of a root reference.
pub open spec fn root_txn(raw: Seq<u8>) -> u64 {
    le_value(raw.subrange(8, 16)) as u64
}

/// Decodes the head of the free-list chain.
pub fn decode_free_list_root(raw: &[u8; 16]) -> (head: u64)
    ensures
        head == root_page(raw@),
{
    u64_from_le(raw.as_slice(), 0)
}

/// The catalog root that a header names.
pub fn fields_catalog_root_page_id(fields: &MainDbHeaderFields) -> (page_id: u64)
    ensures
        page_id == root_page(fields.catalog_root@),
{
    u64_from_le(fields.catalog_root.as_slice(), 0)
}

/// The transaction that wrote the catalog root a header names.
pub fn fields_catalog_root_txn_id(fields: &MainDbHeaderFields) -> (txn_id: u64)
    ensures
        txn_id == root_txn(fields.catalog_root@),
{
    u64_from_le(fields.catalog_root.as_slice(), 8)
}

/// A root reference gives back the page and the transaction it was made of.
pub proof fn law_root_ref_round_trip(page_id: u64, txn_id: u64)
    ensures
        root_ref(page_id, txn_id).len() == 16,
        root_page(root_ref(page_id, txn_id)) == page_id,
        root_txn(root_ref(page_id, txn_id)) == txn_id,
{
    lemma_le_bytes_len(page_id as nat, 8);
    lemma_le_bytes_len(txn_id as nat, 8);
    lemma_byte_range_8();
    lemma_le_round_trip(page_id as nat, 8);
    lemma_le_round_trip(txn_id as nat, 8);
    let r = root_ref(page_id, txn_id);
    assert(r.subrange(0, 8) =~= le_bytes(page_id as nat, 8));
    assert(r.subrange(8, 16) =~= le_bytes(txn_id as nat, 8));
}

/// Which of the two verified slots is live: the one with the higher sequence
/// number, the first when they are equal, or the only one there is.
pub open spec fn live_slot(
    a: Option<MainDbHeaderFields>,
    b: Option<MainDbHeaderFields>,
) -> Option<(MainDbHeaderFields, ActiveSlot)> {
    match (a, b) {
        (Some(x), Some(y)) => if x.seq >= y.seq {
            Some((x, ActiveSlot::A))
        } else {
            Some((y, ActiveSlot::B))
        },
        (Some(x), None) => Some((x, ActiveSlot::A)),
        (None, Some(y)) => Some((y, ActiveSlot::B)),
        (None, None) => None,
    }
}

/// Picks the live header out of the slots that verified.
pub fn select_live_header(a: Option<MainDbHeaderFields>, b: Option<MainDbHeaderFields>) -> (live:
    Option<(MainDbHeaderFields, ActiveSlot)>)
    ensures
        live == live_slot(a, b),
{
    match (a, b) {
        (Some(x), Some(y)) => {
            if x.seq >= y.seq {
                Some((x, ActiveSlot::A))
            } else {
                Some((y, ActiveSlot::B))
            }
        },
        (Some(x), None) => Some((x, ActiveSlot::A)),
        (None, Some(y)) => Some((y, ActiveSlot::B)),
        (None, None) => None,
    }
}

/// A header written to the slot that is not live, with a larger sequence
/// number, is the one that the next open selects.
pub proof fn law_next_header_wins(live: HeaderCursor, old: MainDbHeaderFields, new: MainDbHeaderFields)
    requires
        old.seq == live.seq,
        new.seq == live.seq + 1,
    ensures
        live.slot == ActiveSlot::A ==> live_slot(Some(old), Some(new)) == Some((new, ActiveSlot::B)),
        live.slot == ActiveSlot::B ==> live_slot(Some(new), Some(old)) == Some((new, ActiveSlot::A)),
{
}

/// Whichever of the two slots was lost, the other one still opens the store.
pub proof fn law_one_slot_suffices(a: MainDbHeaderFields, b: MainDbHeaderFields)
    ensures
        live_slot(Some(a), None) == Some((a, ActiveSlot::A)),
        live_slot(None, Some(b)) == Some((b, ActiveSlot::B)),
{
}

} // verus!
