//! Linking, unlinking and replacing segments in the catalog.

use vstd::prelude::*;
use vstd::string::StringSliceAdditionalSpecFns;
use vstd::utf8::{encode_utf8, encode_utf8_first_scalar};

use crate::catalog::{
    quota_key_spec, segment_key_spec, Catalog, CatalogValue, RealmQuotas, SegmentMeta,
    KIND_SEGMENT, MAX_SEGMENT_NAME_LEN,
};
use crate::codec::{copy_bytes, extend};
use crate::db::gc::capped_sum;
use crate::errors::{PagedbError, QuotaKind, Result};
use crate::ids::RealmId;
use crate::order::{lemma_lex_common_prefix, lemma_prefix_le, lex_le, lex_lt};
use crate::tree::{
    ascending, has_key, index_of_key, lemma_lookup_at, lemma_slot_exists, lemma_with_row, lookup,
    slot_of_key, with_row, without_row, BTree,
};

use super::txn::{later_cursor, SegmentSideEffect, WriteTxn};

verus! {

/// The first key of a realm's segments.
pub open spec fn realm_start(realm: RealmId) -> Seq<u8> {
    seq![KIND_SEGMENT] + realm.0@
}

/// The key before which a realm's segments end.
pub open spec fn realm_end(realm: RealmId) -> Seq<u8> {
    realm_start(realm).push(0xFF)
}

/// Whether a key is that of a segment of the realm.
pub open spec fn in_realm(realm: RealmId, key: Seq<u8>) -> bool {
    lex_le(realm_start(realm), key) && lex_lt(key, realm_end(realm))
}

/// The bytes that a realm's segments take, saturating; `None` when a row of
/// theirs is malformed.
pub open spec fn realm_bytes(s: Seq<(Seq<u8>, CatalogValue)>, realm: RealmId) -> Option<u64>
    decreases s.len(),
{
    if s.len() == 0 {
        Some(0)
    } else {
        match realm_bytes(s.drop_last(), realm) {
            None => None,
            Some(n) => if in_realm(realm, s.last().0) {
                match s.last().1 {
                    CatalogValue::Segment(m) => Some(capped_sum(n, m.total_bytes)),
                    _ => None,
                }
            } else {
                Some(n)
            },
        }
    }
}

/// The caps that the catalog records for a realm; none when it has no row.
pub open spec fn quotas_in(s: Seq<(Seq<u8>, CatalogValue)>, realm: RealmId) -> Result<RealmQuotas> {
    match lookup(s, quota_key_spec(realm)) {
        None => Ok(RealmQuotas { max_pages: None, max_segment_bytes: None }),
        Some(CatalogValue::Quotas(q)) => Ok(q),
        Some(_) => Err(PagedbError::row_invalid("quota.value")),
    }
}

/// What a total comes to when some bytes leave it and others join, never below
/// zero and never above what can be counted.
pub open spec fn projected(committed: u64, removed: u64, added: u64) -> u64 {
    capped_sum(
        if committed >= removed {
            (committed - removed) as u64
        } else {
            0
        },
        added,
    )
}

/// Whether the realm may have `added` more bytes of segments once `removed` are
/// gone.
pub open spec fn quota_verdict(
    s: Seq<(Seq<u8>, CatalogValue)>,
    realm: RealmId,
    added: u64,
    removed: u64,
) -> Result<()> {
    match quotas_in(s, realm) {
        Err(e) => Err(e),
        Ok(q) => match q.max_segment_bytes {
            None => Ok(()),
            Some(limit) => match realm_bytes(s, realm) {
                None => Err(PagedbError::row_invalid("segment.meta")),
                Some(committed) => if projected(committed, removed, added) > limit {
                    Err(
                        PagedbError::Quota {
                            realm,
                            kind: QuotaKind::SegmentBytes,
                            requested: projected(committed, removed, added),
                            limit,
                        },
                    )
                } else {
                    Ok(())
                },
            },
        },
    }
}

proof fn lemma_bytes_skip(s: Seq<(Seq<u8>, CatalogValue)>, realm: RealmId, a: int, b: int)
    requires
        0 <= a <= b <= s.len(),
        forall|j: int| #![trigger s[j]] a <= j < b ==> !in_realm(realm, s[j].0),
    ensures
        realm_bytes(s.take(a), realm) == realm_bytes(s.take(b), realm),
    decreases b - a,
{
    if a < b {
        assert(s.take(b).drop_last() =~= s.take(b - 1));
        assert(s.take(b).last() == s[b - 1]);
        lemma_bytes_skip(s, realm, a, b - 1);
    }
}

proof fn lemma_bytes_malformed(s: Seq<(Seq<u8>, CatalogValue)>, realm: RealmId, a: int, b: int)
    requires
        0 <= a <= b <= s.len(),
        realm_bytes(s.take(a), realm) is None,
    ensures
        realm_bytes(s.take(b), realm) is None,
    decreases b - a,
{
    if a < b {
        assert(s.take(b).drop_last() =~= s.take(b - 1));
        lemma_bytes_malformed(s, realm, a, b - 1);
    }
}

/// The bytes that a realm's segments take.
pub fn committed_segment_bytes(catalog: &BTree<CatalogValue>, realm: RealmId) -> (r: Result<u64>)
    requires
        catalog.wf(),
    ensures
        match r {
            Ok(n) => realm_bytes(catalog@, realm) == Some(n),
            Err(e) => realm_bytes(catalog@, realm) is None && e == PagedbError::row_invalid(
                "segment.meta",
            ),
        },
{
    let mut start: Vec<u8> = Vec::new();
    start.push(KIND_SEGMENT);
    extend(&mut start, realm.0.as_slice());
    let mut end: Vec<u8> = copy_bytes(&start);
    end.push(0xFF);
    proof {
        assert(start@ =~= realm_start(realm));
        assert(end@ =~= realm_end(realm));
    }
    let (lo, hi) = catalog.collect_range(&start, &end);
    let ghost s = catalog@;
    let mut committed: u64 = 0;
    let mut i: usize = lo;
    proof {
        assert(s.take(0) =~= Seq::<(Seq<u8>, CatalogValue)>::empty());
        lemma_bytes_skip(s, realm, 0, lo as int);
    }
    while i < hi
        invariant
            s == catalog@,
            lo <= i <= hi <= s.len(),
            forall|j: int|
                #![trigger s[j]]
                0 <= j < s.len() ==> (lo <= j < hi <==> in_realm(realm, s[j].0)),
            realm_bytes(s.take(i as int), realm) == Some(committed),
        decreases hi - i,
    {
        proof {
            assert(s.take(i + 1).drop_last() =~= s.take(i as int));
            assert(s.take(i + 1).last() == s[i as int]);
        }
        match Catalog::decode_segment_meta(catalog.value_at(i)) {
            Ok(meta) => {
                committed = committed.saturating_add(meta.total_bytes);
            },
            Err(e) => {
                proof {
                    lemma_bytes_malformed(s, realm, i + 1, s.len() as int);
                    assert(s.take(s.len() as int) =~= s);
                }
                return Err(e);
            },
        }
        i = i + 1;
    }
    proof {
        lemma_bytes_skip(s, realm, hi as int, s.len() as int);
        assert(s.take(s.len() as int) =~= s);
    }
    Ok(committed)
}

/// The caps that the catalog records for a realm.
pub fn quotas_of(catalog: &BTree<CatalogValue>, realm: RealmId) -> (r: Result<RealmQuotas>)
    requires
        catalog.wf(),
    ensures
        r == quotas_in(catalog@, realm),
{
    let key: Vec<u8> = Catalog::quota_key(realm);
    match catalog.get(&key) {
        Some(value) => Catalog::decode_realm_quotas(value),
        None => Ok(RealmQuotas::default()),
    }
}

impl WriteTxn {
    /// Whether the session's catalog changed to `rows`, with both trees'
    /// cursors brought together at the later one, and the effects `effects`
    /// were scheduled.
    pub open spec fn relinked(
        &self,
        after: WriteTxn,
        rows: Seq<(Seq<u8>, CatalogValue)>,
        effects: Seq<SegmentSideEffect>,
    ) -> bool {
        let cursor = later_cursor(self.btree.next(), self.catalog_tree.next());
        &&& after == (WriteTxn {
            btree: after.btree,
            catalog_tree: after.catalog_tree,
            pending_segments: after.pending_segments,
            ..*self
        })
        &&& after.btree@ == self.btree@
        &&& after.btree.root() == self.btree.root()
        &&& after.btree.next() == cursor
        &&& after.catalog_tree@ == rows
        &&& after.catalog_tree.root() == self.catalog_tree.root()
        &&& after.catalog_tree.next() == cursor
        &&& after.pending_segments@ == self.pending_segments@ + effects
    }

    /// Registers a segment under `name` in the catalog and schedules the
    /// promotion of its staging file.
    pub fn link_segment(&mut self, name: &str, meta: &SegmentMeta) -> (r: Result<()>)
        requires
            old(self).wf(),
        ensures
            final(self).wf(),
            ({
                let key = segment_key_spec(old(self).realm_id, name.spec_bytes());
                let rows = old(self).catalog_tree@;
                let verdict = quota_verdict(rows, meta.realm_id, meta.total_bytes, 0);
                if name.spec_bytes().len() > MAX_SEGMENT_NAME_LEN {
                    r == Err::<(), PagedbError>(PagedbError::NameTooLong) && *final(self) == *old(
                        self,
                    )
                } else if has_key(rows, key) {
                    r == Err::<(), PagedbError>(PagedbError::AlreadyLinked) && *final(self) == *old(
                        self,
                    )
                } else if verdict is Err {
                    r == verdict && *final(self) == *old(self)
                } else {
                    r is Ok && old(self).relinked(
                        *final(self),
                        with_row(rows, key, CatalogValue::Segment(*meta)),
                        seq![SegmentSideEffect::Promote { segment_id: meta.segment_id }],
                    )
                }
            }),
    {
        let key: Vec<u8> = match Catalog::segment_key(self.realm_id, name.as_bytes()) {
            Ok(key) => key,
            Err(e) => return Err(e),
        };
        if self.catalog_tree.get(&key).is_some() {
            return Err(PagedbError::AlreadyLinked);
        }
        match self.enforce_segment_bytes_quota(meta.realm_id, meta.total_bytes, 0) {
            Ok(()) => {},
            Err(e) => return Err(e),
        }
        self.sync_allocator_to_catalog();
        self.catalog_tree.put(&key, CatalogValue::Segment(*meta));
        self.sync_allocator_from_catalog();
        self.pending_segments.push(SegmentSideEffect::Promote { segment_id: meta.segment_id });
        proof {
            assert(self.pending_segments@ =~= old(self).pending_segments@ + seq![
                SegmentSideEffect::Promote { segment_id: meta.segment_id },
            ]);
        }
        Ok(())
    }

    /// Removes the catalog row of `name` and schedules the retirement of its
    /// segment.
    pub fn unlink_segment(&mut self, name: &str) -> (r: Result<()>)
        requires
            old(self).wf(),
        ensures
            final(self).wf(),
            ({
                let key = segment_key_spec(old(self).realm_id, name.spec_bytes());
                let rows = old(self).catalog_tree@;
                if name.spec_bytes().len() > MAX_SEGMENT_NAME_LEN {
                    r == Err::<(), PagedbError>(PagedbError::NameTooLong) && *final(self) == *old(
                        self,
                    )
                } else {
                    match lookup(rows, key) {
                        None => r == Err::<(), PagedbError>(PagedbError::NotLinked) && *final(self)
                            == *old(self),
                        Some(CatalogValue::Segment(m)) => r is Ok && old(self).relinked(
                            *final(self),
                            without_row(rows, key),
                            seq![
                                SegmentSideEffect::Tombstone {
                                    segment_id: m.segment_id,
                                    tombstone_commit_id: None,
                                },
                            ],
                        ),
                        Some(_) => r == Err::<(), PagedbError>(
                            PagedbError::row_invalid("segment.meta"),
                        ) && *final(self) == *old(self),
                    }
                }
            }),
    {
        let key: Vec<u8> = match Catalog::segment_key(self.realm_id, name.as_bytes()) {
            Ok(key) => key,
            Err(e) => return Err(e),
        };
        let meta: SegmentMeta = match self.catalog_tree.get(&key) {
            None => return Err(PagedbError::NotLinked),
            Some(value) => match Catalog::decode_segment_meta(value) {
                Ok(meta) => meta,
                Err(e) => return Err(e),
            },
        };
        self.sync_allocator_to_catalog();
        let _ = self.catalog_tree.delete(&key);
        self.sync_allocator_from_catalog();
        let effect: SegmentSideEffect = SegmentSideEffect::Tombstone {
            segment_id: meta.segment_id,
            tombstone_commit_id: None,
        };
        self.pending_segments.push(effect);
        proof {
            assert(self.pending_segments@ =~= old(self).pending_segments@ + seq![effect]);
        }
        Ok(())
    }

    /// Swaps the segment recorded under `name`: the old one is to be retired,
    /// the new one promoted.
    pub fn replace_segment(&mut self, name: &str, new_meta: &SegmentMeta) -> (r: Result<()>)
        requires
            old(self).wf(),
        ensures
            final(self).wf(),
            ({
                let key = segment_key_spec(old(self).realm_id, name.spec_bytes());
                let rows = old(self).catalog_tree@;
                if name.spec_bytes().len() > MAX_SEGMENT_NAME_LEN {
                    r == Err::<(), PagedbError>(PagedbError::NameTooLong) && *final(self) == *old(
                        self,
                    )
                } else {
                    match lookup(rows, key) {
                        None => r == Err::<(), PagedbError>(PagedbError::NotLinked) && *final(self)
                            == *old(self),
                        Some(CatalogValue::Segment(m)) => {
                            let verdict = quota_verdict(
                                rows,
                                new_meta.realm_id,
                                new_meta.total_bytes,
                                m.total_bytes,
                            );
                            if verdict is Err {
                                r == verdict && *final(self) == *old(self)
                            } else {
                                r is Ok && old(self).relinked(
                                    *final(self),
                                    with_row(rows, key, CatalogValue::Segment(*new_meta)),
                                    seq![
                                        SegmentSideEffect::Tombstone {
                                            segment_id: m.segment_id,
                                            tombstone_commit_id: None,
                                        },
                                        SegmentSideEffect::Promote {
                                            segment_id: new_meta.segment_id,
                                        },
                                    ],
                                )
                            }
                        },
                        Some(_) => r == Err::<(), PagedbError>(
                            PagedbError::row_invalid("segment.meta"),
                        ) && *final(self) == *old(self),
                    }
                }
            }),
    {
        let key: Vec<u8> = match Catalog::segment_key(self.realm_id, name.as_bytes()) {
            Ok(key) => key,
            Err(e) => return Err(e),
        };
        let old_meta: SegmentMeta = match self.catalog_tree.get(&key) {
            None => return Err(PagedbError::NotLinked),
            Some(value) => match Catalog::decode_segment_meta(value) {
                Ok(meta) => meta,
                Err(e) => return Err(e),
            },
        };
        match self.enforce_segment_bytes_quota(
            new_meta.realm_id,
            new_meta.total_bytes,
            old_meta.total_bytes,
        ) {
            Ok(()) => {},
            Err(e) => return Err(e),
        }
        self.sync_allocator_to_catalog();
        self.catalog_tree.put(&key, CatalogValue::Segment(*new_meta));
        self.sync_allocator_from_catalog();
        let retire: SegmentSideEffect = SegmentSideEffect::Tombstone {
            segment_id: old_meta.segment_id,
            tombstone_commit_id: None,
        };
        let promote: SegmentSideEffect = SegmentSideEffect::Promote {
            segment_id: new_meta.segment_id,
        };
        self.pending_segments.push(retire);
        self.pending_segments.push(promote);
        proof {
            assert(self.pending_segments@ =~= old(self).pending_segments@ + seq![retire, promote]);
        }
        Ok(())
    }

    /// Whether the realm's segments, as the session sees them, stay within
    /// their cap when `delta_remove_bytes` leave and `new_bytes` join.
    pub fn enforce_segment_bytes_quota(
        &self,
        realm: RealmId,
        new_bytes: u64,
        delta_remove_bytes: u64,
    ) -> (r: Result<()>)
        requires
            self.wf(),
        ensures
            r == quota_verdict(self.catalog_tree@, realm, new_bytes, delta_remove_bytes),
    {
        let quotas: RealmQuotas = match quotas_of(&self.catalog_tree, realm) {
            Ok(quotas) => quotas,
            Err(e) => return Err(e),
        };
        let limit: u64 = match quotas.max_segment_bytes {
            Some(limit) => limit,
            None => return Ok(()),
        };
        let committed: u64 = match committed_segment_bytes(&self.catalog_tree, realm) {
            Ok(committed) => committed,
            Err(e) => return Err(e),
        };
        let after_remove: u64 = committed.saturating_sub(delta_remove_bytes);
        let requested: u64 = after_remove.saturating_add(new_bytes);
        if requested > limit {
            return Err(
                PagedbError::Quota {
                    realm: realm,
                    kind: QuotaKind::SegmentBytes,
                    requested,
                    limit,
                },
            );
        }
        Ok(())
    }
}

/// The bytes that a realm's segments take, counted without a limit.
pub open spec fn exact_bytes(s: Seq<(Seq<u8>, CatalogValue)>, realm: RealmId) -> nat
    decreases s.len(),
{
    if s.len() == 0 {
        0
    } else {
        exact_bytes(s.drop_last(), realm) + row_bytes(s.last(), realm)
    }
}

/// What one row adds to a realm's bytes.
pub open spec fn row_bytes(row: (Seq<u8>, CatalogValue), realm: RealmId) -> nat {
    if in_realm(realm, row.0) && row.1 is Segment {
        row.1->Segment_0.total_bytes as nat
    } else {
        0
    }
}

/// Whether every row of the realm's segments is one.
pub open spec fn realm_readable(s: Seq<(Seq<u8>, CatalogValue)>, realm: RealmId) -> bool {
    forall|j: int| #![trigger s[j]] 0 <= j < s.len() && in_realm(realm, s[j].0) ==> s[j].1 is Segment
}

proof fn lemma_realm_bytes(s: Seq<(Seq<u8>, CatalogValue)>, realm: RealmId)
    ensures
        realm_bytes(s, realm) is Some <==> realm_readable(s, realm),
        realm_bytes(s, realm) is Some ==> realm_bytes(s, realm)->0 == if exact_bytes(s, realm)
            > u64::MAX {
            u64::MAX as nat
        } else {
            exact_bytes(s, realm)
        },
    decreases s.len(),
{
    if s.len() > 0 {
        let rest = s.drop_last();
        lemma_realm_bytes(rest, realm);
        if realm_readable(s, realm) {
            assert forall|j: int|
                #![trigger rest[j]]
                0 <= j < rest.len() && in_realm(realm, rest[j].0) implies rest[j].1 is Segment by {
                assert(s[j] == rest[j]);
            }
            assert(s[s.len() - 1] == s.last());
        } else {
            if realm_readable(rest, realm) {
                assert forall|j: int|
                    #![trigger s[j]]
                    0 <= j < s.len() - 1 && in_realm(realm, s[j].0) implies s[j].1 is Segment by {
                    assert(rest[j] == s[j]);
                }
            }
        }
    }
}

proof fn lemma_exact_insert(
    s: Seq<(Seq<u8>, CatalogValue)>,
    realm: RealmId,
    i: int,
    row: (Seq<u8>, CatalogValue),
)
    requires
        0 <= i <= s.len(),
    ensures
        exact_bytes(s.insert(i, row), realm) == exact_bytes(s, realm) + row_bytes(row, realm),
    decreases s.len(),
{
    let t = s.insert(i, row);
    if i == s.len() {
        assert(t.drop_last() =~= s);
        assert(t.last() == row);
    } else {
        assert(t.drop_last() =~= s.drop_last().insert(i, row));
        assert(t.last() == s.last());
        lemma_exact_insert(s.drop_last(), realm, i, row);
    }
}

proof fn lemma_exact_update(
    s: Seq<(Seq<u8>, CatalogValue)>,
    realm: RealmId,
    i: int,
    row: (Seq<u8>, CatalogValue),
)
    requires
        0 <= i < s.len(),
    ensures
        exact_bytes(s.update(i, row), realm) + row_bytes(s[i], realm) == exact_bytes(s, realm)
            + row_bytes(row, realm),
    decreases s.len(),
{
    let t = s.update(i, row);
    if i == s.len() - 1 {
        assert(t.drop_last() =~= s.drop_last());
        assert(t.last() == row);
        assert(s.last() == s[i]);
    } else {
        assert(t.drop_last() =~= s.drop_last().update(i, row));
        assert(t.last() == s.last());
        lemma_exact_update(s.drop_last(), realm, i, row);
        assert(s.drop_last()[i] == s[i]);
    }
}

proof fn lemma_key_in_realm(realm: RealmId, name: Seq<u8>)
    requires
        name.len() == 0 || name[0] < 0xFF,
    ensures
        in_realm(realm, segment_key_spec(realm, name)),
{
    let start = realm_start(realm);
    let key = segment_key_spec(realm, name);
    assert(key =~= start + name);
    assert(key.subrange(0, start.len() as int) =~= start);
    lemma_prefix_le(key, start);
    let ff = seq![0xFFu8];
    assert(realm_end(realm) =~= start + ff);
    lemma_lex_common_prefix(start, name, ff);
    reveal_with_fuel(lex_lt, 2);
}

/// A segment counts toward its realm's bytes whatever it is called.
pub proof fn law_every_segment_counts_toward_its_realm(realm: RealmId, name: Seq<char>)
    ensures
        in_realm(realm, segment_key_spec(realm, encode_utf8(name))),
{
    let bytes = encode_utf8(name);
    if name.len() > 0 {
        encode_utf8_first_scalar(name);
    }
    lemma_key_in_realm(realm, bytes);
}

/// A link that is accepted keeps the realm within its cap.
pub proof fn law_link_keeps_quota(
    s: Seq<(Seq<u8>, CatalogValue)>,
    key: Seq<u8>,
    meta: SegmentMeta,
    limit: u64,
)
    requires
        ascending(s),
        !has_key(s, key),
        in_realm(meta.realm_id, key),
        quotas_in(s, meta.realm_id) is Ok,
        quotas_in(s, meta.realm_id)->Ok_0.max_segment_bytes == Some(limit),
        quota_verdict(s, meta.realm_id, meta.total_bytes, 0) is Ok,
    ensures
        realm_bytes(with_row(s, key, CatalogValue::Segment(meta)), meta.realm_id) is Some,
        realm_bytes(with_row(s, key, CatalogValue::Segment(meta)), meta.realm_id)->0 <= limit,
{
    let realm = meta.realm_id;
    let row = (key, CatalogValue::Segment(meta));
    lemma_slot_exists(s, key);
    let i = slot_of_key(s, key);
    let t = s.insert(i, row);
    assert(t == with_row(s, key, CatalogValue::Segment(meta)));
    lemma_realm_bytes(s, realm);
    lemma_realm_bytes(t, realm);
    lemma_exact_insert(s, realm, i, row);
    assert(realm_readable(t, realm)) by {
        assert forall|j: int|
            #![trigger t[j]]
            0 <= j < t.len() && in_realm(realm, t[j].0) implies t[j].1 is Segment by {
            if j < i {
                assert(t[j] == s[j]);
            } else if j > i {
                assert(t[j] == s[j - 1]);
            }
        }
    }
}

/// A replacement that is accepted keeps the realm within its cap, where the old
/// segment counts toward the same realm and the realm's bytes could be counted.
pub proof fn law_replace_keeps_quota(
    s: Seq<(Seq<u8>, CatalogValue)>,
    key: Seq<u8>,
    old_meta: SegmentMeta,
    meta: SegmentMeta,
    limit: u64,
)
    requires
        ascending(s),
        lookup(s, key) == Some(CatalogValue::Segment(old_meta)),
        in_realm(meta.realm_id, key),
        quotas_in(s, meta.realm_id) is Ok,
        quotas_in(s, meta.realm_id)->Ok_0.max_segment_bytes == Some(limit),
        exact_bytes(s, meta.realm_id) <= u64::MAX,
        quota_verdict(s, meta.realm_id, meta.total_bytes, old_meta.total_bytes) is Ok,
    ensures
        realm_bytes(with_row(s, key, CatalogValue::Segment(meta)), meta.realm_id) is Some,
        realm_bytes(with_row(s, key, CatalogValue::Segment(meta)), meta.realm_id)->0 <= limit,
{
    let realm = meta.realm_id;
    let row = (key, CatalogValue::Segment(meta));
    let i = index_of_key(s, key);
    let t = s.update(i, row);
    assert(t == with_row(s, key, CatalogValue::Segment(meta)));
    lemma_realm_bytes(s, realm);
    lemma_realm_bytes(t, realm);
    lemma_exact_update(s, realm, i, row);
    assert(realm_readable(t, realm)) by {
        assert forall|j: int|
            #![trigger t[j]]
            0 <= j < t.len() && in_realm(realm, t[j].0) implies t[j].1 is Segment by {
            if j != i {
                assert(t[j] == s[j]);
            }
        }
    }
}

/// Unlinking a segment undoes its link: the catalog holds the rows it held
/// before.
pub proof fn law_unlink_undoes_link(
    s: Seq<(Seq<u8>, CatalogValue)>,
    key: Seq<u8>,
    meta: SegmentMeta,
)
    requires
        ascending(s),
        !has_key(s, key),
    ensures
        without_row(with_row(s, key, CatalogValue::Segment(meta)), key) == s,
{
    lemma_slot_exists(s, key);
    let i = slot_of_key(s, key);
    let value = CatalogValue::Segment(meta);
    lemma_with_row(s, key, value, i);
    let t = with_row(s, key, value);
    assert(t == s.insert(i, (key, value)));
    assert(t[i].0 == key);
    lemma_lookup_at(t, i);
    assert(t.remove(i) =~= s);
}

} // verus!
