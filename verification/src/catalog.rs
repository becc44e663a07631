//! Catalog rows: their keys, their values, and the rows with a fixed encoding.

use vstd::prelude::*;

use crate::codec::{
    be_bytes, extend, le_bytes, le_value, lemma_be_bytes_len, lemma_be_round_trip,
    lemma_byte_range_8, lemma_le_bytes_len, lemma_le_bytes_of_value, lemma_le_round_trip, take_16,
    u32_to_be, u64_from_le, u64_to_be, u64_to_le,
};
use crate::db::manifest_validation::{all_zero, is_all_zero};
use crate::db::rekey::intent::validate_intent;
use crate::errors::{PagedbError, Result};
use crate::ids::RealmId;

verus! {

/// The longest name of a segment or a counter, in bytes.
pub const MAX_SEGMENT_NAME_LEN: usize = 1024;

/// First byte of a segment row's key.
pub const KIND_SEGMENT: u8 = 1;

/// First byte of a counter row's key.
pub const KIND_COUNTER: u8 = 2;

/// The key byte of the rekey-state row.
pub const KIND_REKEY_STATE: u8 = 3;

/// First byte of a reader-pin row's key.
pub const KIND_READER_PIN: u8 = 6;

/// First byte of a quota row's key.
pub const KIND_QUOTA: u8 = 7;

/// First byte of a rekey-progress row's key.
pub const KIND_REKEY_PROGRESS: u8 = 8;

/// What the catalog says of a segment.
#[derive(Debug, Clone, Copy)]
pub struct SegmentMeta {
    pub segment_id: [u8; 16],
    pub realm_id: RealmId,
    pub segment_kind: u8,
    pub evictable: u8,
    pub format_version: u16,
    pub cipher_id: u8,
    pub mk_epoch: u64,
    pub page_count: u64,
    pub total_bytes: u64,
}

/// Caps of one realm; `None` is no cap.
#[derive(Debug, Clone, Copy, PartialEq, Eq, Structural)]
pub struct RealmQuotas {
    pub max_pages: Option<u64>,
    pub max_segment_bytes: Option<u64>,
}

impl Default for RealmQuotas {
    fn default() -> (q: RealmQuotas)
        ensures
            q == (RealmQuotas { max_pages: None, max_segment_bytes: None }),
    {
        RealmQuotas { max_pages: None, max_segment_bytes: None }
    }
}

/// What a durable reader pin records.
#[derive(Debug, Clone, Copy, PartialEq, Eq, Structural)]
pub struct ReaderPinValue {
    pub commit_id: u64,
    pub root_page_id: u64,
    pub catalog_root_page_id: u64,
    pub free_list_root_page_id: u64,
    pub expires_unix_seconds: u64,
    pub flags: u32,
}

/// How far a rekey has come. Each stage is durable before the next begins.
#[derive(Debug, Clone, Copy, PartialEq, Eq, Structural)]
pub enum RekeyStage {
    Intent,
    MainPagesTargetReadable,
    HeaderTargetPublished,
    MainDone,
    SegmentsPending,
}

/// The durable record of a rekey under way.
#[derive(Debug, Clone, Copy)]
pub struct RekeyIntent {
    pub source_mk_epoch: u64,
    pub target_mk_epoch: u64,
    pub source_cipher_id: u8,
    pub target_cipher_id: u8,
    pub same_kek: bool,
    pub stage: RekeyStage,
    pub source_hk_proof: [u8; 16],
    pub target_hk_proof: [u8; 16],
}

/// How far the migration of one segment has come.
#[derive(Debug, Clone, Copy, PartialEq, Eq, Structural)]
pub enum RekeySegmentProgressState {
    Sealed,
}

/// The durable record of one segment's migration.
#[derive(Debug, Clone, Copy)]
pub struct RekeySegmentProgress {
    pub replacement_segment_id: [u8; 16],
    pub state: RekeySegmentProgressState,
}

/// A decoded catalog row. A row that does not decode is malformed.
#[derive(Debug, Clone, Copy)]
pub enum CatalogValue {
    Segment(SegmentMeta),
    Counter(u64),
    Quotas(RealmQuotas),
    ReaderPin(ReaderPinValue),
    RekeyState(RekeyIntent),
    RekeyProgress(RekeySegmentProgress),
    Malformed,
}

impl View for CatalogValue {
    type V = CatalogValue;

    open spec fn view(&self) -> CatalogValue {
        *self
    }
}

/// Keys and encodings of catalog rows.
pub struct Catalog {}

/// The key of a segment row: kind, realm, name.
pub open spec fn segment_key_spec(realm: RealmId, name: Seq<u8>) -> Seq<u8> {
    seq![KIND_SEGMENT] + realm.0@ + name
}

/// The key of a counter row: kind, name.
pub open spec fn counter_key_spec(name: Seq<u8>) -> Seq<u8> {
    seq![KIND_COUNTER] + name
}

/// The key of a realm's quota row.
pub open spec fn quota_key_spec(realm: RealmId) -> Seq<u8> {
    seq![KIND_QUOTA] + realm.0@
}

/// The key of a reader-pin row: kind, process id, lease id, big-endian.
pub open spec fn reader_pin_key_spec(pid: u32, lease_id: u64) -> Seq<u8> {
    seq![KIND_READER_PIN] + be_bytes(pid as nat, 4) + be_bytes(lease_id as nat, 8)
}

/// The key of a segment's rekey-progress row.
pub open spec fn progress_key_spec(segment_id: [u8; 16]) -> Seq<u8> {
    seq![KIND_REKEY_PROGRESS] + segment_id@
}

/// The byte that stands for a stage.
pub open spec fn stage_byte(stage: RekeyStage) -> u8 {
    match stage {
        RekeyStage::Intent => 0,
        RekeyStage::MainPagesTargetReadable => 1,
        RekeyStage::HeaderTargetPublished => 2,
        RekeyStage::MainDone => 3,
        RekeyStage::SegmentsPending => 4,
    }
}

/// The bytes of a rekey intent: version, stage, same-KEK flag, a reserved
/// byte, the two ciphers, two reserved bytes, the two epochs, the two proofs,
/// and eight reserved bytes.
pub open spec fn intent_bytes(i: RekeyIntent) -> Seq<u8> {
    seq![
        1u8,
        stage_byte(i.stage),
        if i.same_kek { 1u8 } else { 0u8 },
        0u8,
        i.source_cipher_id,
        i.target_cipher_id,
        0u8,
        0u8,
    ] + le_bytes(i.source_mk_epoch as nat, 8) + le_bytes(i.target_mk_epoch as nat, 8)
        + i.source_hk_proof@ + i.target_hk_proof@ + seq![0u8, 0, 0, 0, 0, 0, 0, 0]
}

/// Whether bytes frame a rekey intent: the length, the version, a known stage
/// and flag, and zero in every reserved byte.
pub open spec fn intent_framed(b: Seq<u8>) -> bool {
    &&& b.len() == 64
    &&& b[0] == 1
    &&& b[1] <= 4
    &&& b[2] <= 1
    &&& b[3] == 0
    &&& b[6] == 0
    &&& b[7] == 0
    &&& all_zero(b.subrange(56, 64))
}

/// Whether the epochs of an intent advance.
pub open spec fn epochs_advance(i: RekeyIntent) -> bool {
    i.target_mk_epoch != 0 && i.target_mk_epoch > i.source_mk_epoch
}

/// What is wrong with an intent taken by itself: an epoch that does not advance,
/// or a cipher that is not known.
pub open spec fn transition_fault(i: RekeyIntent) -> Option<PagedbError> {
    if !epochs_advance(i) {
        Some(PagedbError::RekeyStateInvalid { field: "rekey.target_mk_epoch" })
    } else if i.source_cipher_id != 1 && i.source_cipher_id != 2 {
        Some(PagedbError::UnknownCipher { cipher_id: i.source_cipher_id })
    } else if i.target_cipher_id != 1 && i.target_cipher_id != 2 {
        Some(PagedbError::UnknownCipher { cipher_id: i.target_cipher_id })
    } else {
        None
    }
}

/// What is wrong with an intent that a row holds: a rekey changes keys, never
/// the cipher.
pub open spec fn intent_fault(i: RekeyIntent) -> Option<PagedbError> {
    if transition_fault(i) is Some {
        transition_fault(i)
    } else if i.source_cipher_id != i.target_cipher_id {
        Some(PagedbError::RekeyStateInvalid { field: "target_cipher_id" })
    } else {
        None
    }
}

impl Catalog {
    /// The key of the segment `name` in `realm`.
    pub fn segment_key(realm: RealmId, name: &[u8]) -> (r: Result<Vec<u8>>)
        ensures
            match r {
                Ok(key) => name@.len() <= MAX_SEGMENT_NAME_LEN && key@ == segment_key_spec(
                    realm,
                    name@,
                ),
                Err(e) => name@.len() > MAX_SEGMENT_NAME_LEN && e == PagedbError::NameTooLong,
            },
    {
        if name.len() > MAX_SEGMENT_NAME_LEN {
            return Err(PagedbError::NameTooLong);
        }
        let mut key: Vec<u8> = Vec::new();
        key.push(KIND_SEGMENT);
        extend(&mut key, realm.0.as_slice());
        extend(&mut key, name);
        proof {
            assert(key@ =~= segment_key_spec(realm, name@));
        }
        Ok(key)
    }

    /// The key of the counter `name`.
    pub fn counter_key(name: &[u8]) -> (r: Result<Vec<u8>>)
        ensures
            match r {
                Ok(key) => name@.len() <= MAX_SEGMENT_NAME_LEN && key@ == counter_key_spec(name@),
                Err(e) => name@.len() > MAX_SEGMENT_NAME_LEN && e == PagedbError::NameTooLong,
            },
    {
        if name.len() > MAX_SEGMENT_NAME_LEN {
            return Err(PagedbError::NameTooLong);
        }
        let mut key: Vec<u8> = Vec::new();
        key.push(KIND_COUNTER);
        extend(&mut key, name);
        proof {
            assert(key@ =~= counter_key_spec(name@));
        }
        Ok(key)
    }

    /// The key of a realm's quota row.
    pub fn quota_key(realm: RealmId) -> (key: Vec<u8>)
        ensures
            key@ == quota_key_spec(realm),
    {
        let mut key: Vec<u8> = Vec::new();
        key.push(KIND_QUOTA);
        extend(&mut key, realm.0.as_slice());
        proof {
            assert(key@ =~= quota_key_spec(realm));
        }
        key
    }

    /// The key of a reader-pin row.
    pub fn reader_pin_key(pid: u32, lease_id: u64) -> (key: Vec<u8>)
        ensures
            key@ == reader_pin_key_spec(pid, lease_id),
            key@.len() == 13,
    {
        let mut key: Vec<u8> = Vec::new();
        key.push(KIND_READER_PIN);
        let p: [u8; 4] = u32_to_be(pid);
        let l: [u8; 8] = u64_to_be(lease_id);
        extend(&mut key, p.as_slice());
        extend(&mut key, l.as_slice());
        proof {
            assert(key@ =~= reader_pin_key_spec(pid, lease_id));
        }
        key
    }

    /// The key of the rekey-state row.
    pub fn rekey_state_key() -> (key: Vec<u8>)
        ensures
            key@ == seq![KIND_REKEY_STATE],
    {
        let mut key: Vec<u8> = Vec::new();
        key.push(KIND_REKEY_STATE);
        proof {
            assert(key@ =~= seq![KIND_REKEY_STATE]);
        }
        key
    }

    /// The key of a segment's rekey-progress row.
    pub fn rekey_segment_progress_key(segment_id: &[u8; 16]) -> (key: Vec<u8>)
        ensures
            key@ == progress_key_spec(*segment_id),
            key@.len() == 17,
    {
        let mut key: Vec<u8> = Vec::new();
        key.push(KIND_REKEY_PROGRESS);
        extend(&mut key, segment_id.as_slice());
        proof {
            assert(key@ =~= progress_key_spec(*segment_id));
        }
        key
    }

    /// The bytes of a counter row's value.
    pub fn encode_counter(value: u64) -> (out: [u8; 8])
        ensures
            out@ == le_bytes(value as nat, 8),
    {
        u64_to_le(value)
    }

    /// The value of a counter row; anything but eight bytes is malformed.
    pub fn decode_counter(bytes: &[u8]) -> (r: Result<u64>)
        ensures
            match r {
                Ok(v) => bytes@.len() == 8 && v == le_value(bytes@),
                Err(e) => bytes@.len() != 8 && e == PagedbError::row_invalid("counter.value"),
            },
    {
        if bytes.len() != 8 {
            return Err(PagedbError::catalog_row_invalid("counter.value"));
        }
        proof {
            assert(bytes@.subrange(0, 8) =~= bytes@);
        }
        Ok(u64_from_le(bytes, 0))
    }

    /// The segment that a decoded row describes.
    pub fn decode_segment_meta(value: &CatalogValue) -> (r: Result<SegmentMeta>)
        ensures
            match r {
                Ok(meta) => *value == CatalogValue::Segment(meta),
                Err(e) => !(*value is Segment) && e == PagedbError::row_invalid("segment.meta"),
            },
    {
        match *value {
            CatalogValue::Segment(meta) => Ok(meta),
            _ => Err(PagedbError::catalog_row_invalid("segment.meta")),
        }
    }

    /// The value that a counter row holds.
    pub fn counter_of(value: &CatalogValue) -> (r: Result<u64>)
        ensures
            r == match *value {
                CatalogValue::Counter(v) => Ok::<u64, PagedbError>(v),
                _ => Err::<u64, PagedbError>(PagedbError::row_invalid("counter.value")),
            },
    {
        match value {
            CatalogValue::Counter(v) => Ok(*v),
            _ => Err(PagedbError::catalog_row_invalid("counter.value")),
        }
    }

    /// The caps that a quota row holds.
    pub fn decode_realm_quotas(value: &CatalogValue) -> (r: Result<RealmQuotas>)
        ensures
            r == match *value {
                CatalogValue::Quotas(q) => Ok::<RealmQuotas, PagedbError>(q),
                _ => Err::<RealmQuotas, PagedbError>(PagedbError::row_invalid("quota.value")),
            },
    {
        match value {
            CatalogValue::Quotas(q) => Ok(*q),
            _ => Err(PagedbError::catalog_row_invalid("quota.value")),
        }
    }

    /// The bytes of a rekey intent.
    pub fn encode_rekey_intent(intent: &RekeyIntent) -> (out: [u8; 64])
        ensures
            out@ == intent_bytes(*intent),
    {
        let s: [u8; 8] = u64_to_le(intent.source_mk_epoch);
        let t: [u8; 8] = u64_to_le(intent.target_mk_epoch);
        let stage: u8 = match intent.stage {
            RekeyStage::Intent => 0,
            RekeyStage::MainPagesTargetReadable => 1,
            RekeyStage::HeaderTargetPublished => 2,
            RekeyStage::MainDone => 3,
            RekeyStage::SegmentsPending => 4,
        };
        let p: [u8; 16] = intent.source_hk_proof;
        let q: [u8; 16] = intent.target_hk_proof;
        let out: [u8; 64] = [
            1, stage, if intent.same_kek { 1 } else { 0 }, 0,
            intent.source_cipher_id, intent.target_cipher_id, 0, 0,
            s[0], s[1], s[2], s[3], s[4], s[5], s[6], s[7],
            t[0], t[1], t[2], t[3], t[4], t[5], t[6], t[7],
            p[0], p[1], p[2], p[3], p[4], p[5], p[6], p[7],
            p[8], p[9], p[10], p[11], p[12], p[13], p[14], p[15],
            q[0], q[1], q[2], q[3], q[4], q[5], q[6], q[7],
            q[8], q[9], q[10], q[11], q[12], q[13], q[14], q[15],
            0, 0, 0, 0, 0, 0, 0, 0,
        ];
        proof {
            assert(out@ =~= intent_bytes(*intent));
        }
        out
    }

    /// Decodes a rekey-state row. A row of an unrecognised shape, an epoch that
    /// does not advance, an unknown cipher, or a change of cipher is refused.
    pub fn decode_rekey_state(bytes: &[u8]) -> (r: Result<RekeyIntent>)
        ensures
            match r {
                Ok(i) => bytes@ == intent_bytes(i) && intent_fault(i) is None,
                Err(e) => if intent_framed(bytes@) {
                    exists|i: RekeyIntent|
                        #![trigger intent_bytes(i)]
                        bytes@ == intent_bytes(i) && intent_fault(i) == Some(e)
                } else {
                    e == PagedbError::row_invalid("rekey.framing")
                },
            },
            forall|i: RekeyIntent|
                #![trigger intent_bytes(i)]
                bytes@ == intent_bytes(i) ==> r == match intent_fault(i) {
                    Some(e) => Err::<RekeyIntent, PagedbError>(e),
                    None => Ok::<RekeyIntent, PagedbError>(i),
                },
    {
        let framed: bool = bytes.len() == 64 && bytes[0] == 1 && bytes[1] <= 4 && bytes[2] <= 1
            && bytes[3] == 0 && bytes[6] == 0 && bytes[7] == 0 && is_all_zero(
            vstd::slice::slice_subrange(bytes, 56, 64),
        );
        proof {
            assert forall|i: RekeyIntent| #![trigger intent_bytes(i)] bytes@ == intent_bytes(
                i,
            ) implies intent_framed(bytes@) by {
                lemma_intent_framed(i);
            }
        }
        if !framed {
            return Err(PagedbError::catalog_row_invalid("rekey.framing"));
        }
        let stage: RekeyStage = if bytes[1] == 0 {
            RekeyStage::Intent
        } else if bytes[1] == 1 {
            RekeyStage::MainPagesTargetReadable
        } else if bytes[1] == 2 {
            RekeyStage::HeaderTargetPublished
        } else if bytes[1] == 3 {
            RekeyStage::MainDone
        } else {
            RekeyStage::SegmentsPending
        };
        let intent: RekeyIntent = RekeyIntent {
            source_mk_epoch: u64_from_le(bytes, 8),
            target_mk_epoch: u64_from_le(bytes, 16),
            source_cipher_id: bytes[4],
            target_cipher_id: bytes[5],
            same_kek: bytes[2] == 1,
            stage,
            source_hk_proof: take_16(bytes, 24),
            target_hk_proof: take_16(bytes, 40),
        };
        proof {
            lemma_intent_of_framed(bytes@, intent);
            assert forall|i: RekeyIntent| #![trigger intent_bytes(i)] bytes@ == intent_bytes(
                i,
            ) implies i == intent by {
                lemma_intent_bytes_injective(i, intent);
            }
        }
        match Catalog::check_rekey_intent(&intent) {
            Ok(()) => Ok(intent),
            Err(e) => Err(e),
        }
    }

    /// Refuses an intent that no row may hold.
    pub fn check_rekey_intent(intent: &RekeyIntent) -> (r: Result<()>)
        ensures
            r == match intent_fault(*intent) {
                Some(e) => Err::<(), PagedbError>(e),
                None => Ok::<(), PagedbError>(()),
            },
    {
        match validate_intent(intent) {
            Ok(()) => {},
            Err(e) => return Err(e),
        }
        if intent.source_cipher_id != intent.target_cipher_id {
            return Err(PagedbError::RekeyStateInvalid { field: "target_cipher_id" });
        }
        Ok(())
    }

    /// The intent that the rekey-state row holds.
    pub fn rekey_intent_of(value: &CatalogValue) -> (r: Result<RekeyIntent>)
        ensures
            r == match *value {
                CatalogValue::RekeyState(i) => match intent_fault(i) {
                    Some(e) => Err::<RekeyIntent, PagedbError>(e),
                    None => Ok::<RekeyIntent, PagedbError>(i),
                },
                _ => Err::<RekeyIntent, PagedbError>(PagedbError::row_invalid("rekey.framing")),
            },
    {
        match value {
            CatalogValue::RekeyState(intent) => match Catalog::check_rekey_intent(intent) {
                Ok(()) => Ok(*intent),
                Err(e) => Err(e),
            },
            _ => Err(PagedbError::catalog_row_invalid("rekey.framing")),
        }
    }

    /// The progress that a rekey-progress row holds.
    pub fn rekey_progress_of(value: &CatalogValue) -> (r: Result<RekeySegmentProgress>)
        ensures
            r == match *value {
                CatalogValue::RekeyProgress(p) => Ok::<RekeySegmentProgress, PagedbError>(p),
                _ => Err::<RekeySegmentProgress, PagedbError>(
                    PagedbError::row_invalid("rekey.segment_progress"),
                ),
            },
    {
        match value {
            CatalogValue::RekeyProgress(progress) => Ok(*progress),
            _ => Err(PagedbError::catalog_row_invalid("rekey.segment_progress")),
        }
    }
}

proof fn lemma_intent_parts(i: RekeyIntent)
    ensures
        ({
            let b = intent_bytes(i);
            &&& b.len() == 64
            &&& b[0] == 1
            &&& b[1] == stage_byte(i.stage)
            &&& b[2] == if i.same_kek {
                1u8
            } else {
                0u8
            }
            &&& b[3] == 0
            &&& b[4] == i.source_cipher_id
            &&& b[5] == i.target_cipher_id
            &&& b[6] == 0
            &&& b[7] == 0
            &&& b.subrange(8, 16) == le_bytes(i.source_mk_epoch as nat, 8)
            &&& b.subrange(16, 24) == le_bytes(i.target_mk_epoch as nat, 8)
            &&& b.subrange(24, 40) == i.source_hk_proof@
            &&& b.subrange(40, 56) == i.target_hk_proof@
            &&& b.subrange(56, 64) == seq![0u8, 0, 0, 0, 0, 0, 0, 0]
        }),
{
    lemma_le_bytes_len(i.source_mk_epoch as nat, 8);
    lemma_le_bytes_len(i.target_mk_epoch as nat, 8);
    let b = intent_bytes(i);
    assert(b.subrange(8, 16) =~= le_bytes(i.source_mk_epoch as nat, 8));
    assert(b.subrange(16, 24) =~= le_bytes(i.target_mk_epoch as nat, 8));
    assert(b.subrange(24, 40) =~= i.source_hk_proof@);
    assert(b.subrange(40, 56) =~= i.target_hk_proof@);
    assert(b.subrange(56, 64) =~= seq![0u8, 0, 0, 0, 0, 0, 0, 0]);
}

proof fn lemma_intent_framed(i: RekeyIntent)
    ensures
        intent_framed(intent_bytes(i)),
{
    lemma_intent_parts(i);
    let b = intent_bytes(i);
    assert(all_zero(b.subrange(56, 64))) by {
        let z = seq![0u8, 0, 0, 0, 0, 0, 0, 0];
        assert(all_zero(z));
    }
}

proof fn lemma_intent_bytes_injective(a: RekeyIntent, b: RekeyIntent)
    requires
        intent_bytes(a) == intent_bytes(b),
    ensures
        a == b,
{
    lemma_intent_parts(a);
    lemma_intent_parts(b);
    lemma_byte_range_8();
    lemma_le_round_trip(a.source_mk_epoch as nat, 8);
    lemma_le_round_trip(b.source_mk_epoch as nat, 8);
    lemma_le_round_trip(a.target_mk_epoch as nat, 8);
    lemma_le_round_trip(b.target_mk_epoch as nat, 8);
    assert(a.source_hk_proof =~= b.source_hk_proof);
    assert(a.target_hk_proof =~= b.target_hk_proof);
}

proof fn lemma_intent_of_framed(b: Seq<u8>, i: RekeyIntent)
    requires
        intent_framed(b),
        stage_byte(i.stage) == b[1],
        i.same_kek == (b[2] == 1),
        i.source_cipher_id == b[4],
        i.target_cipher_id == b[5],
        i.source_mk_epoch == le_value(b.subrange(8, 16)),
        i.target_mk_epoch == le_value(b.subrange(16, 24)),
        i.source_hk_proof@ == b.subrange(24, 40),
        i.target_hk_proof@ == b.subrange(40, 56),
    ensures
        b == intent_bytes(i),
{
    lemma_intent_parts(i);
    let c = intent_bytes(i);
    lemma_le_bytes_of_value(b.subrange(8, 16));
    lemma_le_bytes_of_value(b.subrange(16, 24));
    assert forall|k: int| 0 <= k < 64 implies b[k] == c[k] by {
        if 8 <= k < 16 {
            assert(b.subrange(8, 16)[k - 8] == c.subrange(8, 16)[k - 8]);
        } else if 16 <= k < 24 {
            assert(b.subrange(16, 24)[k - 16] == c.subrange(16, 24)[k - 16]);
        } else if 24 <= k < 40 {
            assert(b.subrange(24, 40)[k - 24] == c.subrange(24, 40)[k - 24]);
        } else if 40 <= k < 56 {
            assert(b.subrange(40, 56)[k - 40] == c.subrange(40, 56)[k - 40]);
        } else if 56 <= k {
            assert(b.subrange(56, 64)[k - 56] == 0);
            assert(c.subrange(56, 64)[k - 56] == 0);
        }
    }
    assert(b =~= c);
}

/// Two rekey intents with the same bytes are the same intent: what is read back
/// is what was written.
pub proof fn law_rekey_intent_round_trip(written: RekeyIntent, read: RekeyIntent)
    requires
        intent_bytes(written) == intent_bytes(read),
    ensures
        written == read,
{
    lemma_intent_bytes_injective(written, read);
}

/// A counter's value survives being written and read back.
pub proof fn law_counter_round_trip(value: u64)
    ensures
        le_bytes(value as nat, 8).len() == 8,
        le_value(le_bytes(value as nat, 8)) == value,
{
    lemma_le_bytes_len(value as nat, 8);
    lemma_byte_range_8();
    lemma_le_round_trip(value as nat, 8);
}

/// Two pins have the same key only if process and lease are the same.
pub proof fn law_reader_pin_keys_are_distinct(pid: u32, lease: u64, pid2: u32, lease2: u64)
    requires
        reader_pin_key_spec(pid, lease) == reader_pin_key_spec(pid2, lease2),
    ensures
        pid == pid2,
        lease == lease2,
{
    let a = reader_pin_key_spec(pid, lease);
    let b = reader_pin_key_spec(pid2, lease2);
    lemma_be_bytes_len(pid as nat, 4);
    lemma_be_bytes_len(pid2 as nat, 4);
    lemma_be_bytes_len(lease as nat, 8);
    lemma_be_bytes_len(lease2 as nat, 8);
    lemma_byte_range_8();
    lemma_be_round_trip(pid as nat, 4);
    lemma_be_round_trip(pid2 as nat, 4);
    lemma_be_round_trip(lease as nat, 8);
    lemma_be_round_trip(lease2 as nat, 8);
    assert(a.subrange(1, 5) =~= be_bytes(pid as nat, 4));
    assert(b.subrange(1, 5) =~= be_bytes(pid2 as nat, 4));
    assert(a.subrange(5, 13) =~= be_bytes(lease as nat, 8));
    assert(b.subrange(5, 13) =~= be_bytes(lease2 as nat, 8));
}

} // verus!
