//! Migration of immutable segments during a rekey. Each segment is copied into a
//! file of the target epoch, recorded by the source's identity, and swapped in
//! under the source's own catalog key.

use vstd::prelude::*;

use crate::catalog::{
    progress_key_spec, Catalog, CatalogValue, RekeyIntent, RekeySegmentProgress,
    RekeySegmentProgressState, SegmentMeta, KIND_REKEY_PROGRESS, KIND_SEGMENT,
};
use crate::codec::{copy_bytes, same_id, take_16};
use crate::db::handle::Db;
use crate::errors::{PagedbError, Result};
use crate::order::{
    has_prefix, lemma_lex_asymmetric, lemma_lex_irreflexive, lemma_lex_successor, lemma_prefix_le,
    lex_le, lex_lt,
};
use crate::tree::{
    ascending, has_key, index_of_key, is_slot, lemma_lookup_at, lemma_slot_exists, lemma_with_row,
    lemma_without_row, lookup, with_row, without_row, BTree,
};
use crate::write::SegmentSideEffect;

verus! {

/// Catalog rows read per batch while a rekey walks segment rows.
pub const REKEY_ROW_BATCH: usize = 256;

/// Whether a segment is still to be migrated. Segments of another cipher are
/// not part of the transition.
pub open spec fn needs_rekey(meta: SegmentMeta, intent: RekeyIntent) -> bool {
    meta.cipher_id == intent.source_cipher_id && meta.mk_epoch != intent.target_mk_epoch
}

/// Whether a segment is still to be migrated.
pub fn segment_needs_rekey(meta: &SegmentMeta, intent: &RekeyIntent) -> (needs: bool)
    ensures
        needs == needs_rekey(*meta, *intent),
{
    meta.cipher_id == intent.source_cipher_id && meta.mk_epoch != intent.target_mk_epoch
}

/// What a walk over the segment rows looks for.
#[derive(Debug, Clone, Copy)]
pub enum SegmentQuery {
    /// A segment that is still to be migrated.
    NeedsRekey(RekeyIntent),
    /// The segment with an id.
    HasId([u8; 16]),
}

/// Whether a segment is what the walk looks for.
pub open spec fn picks(q: SegmentQuery, meta: SegmentMeta) -> bool {
    match q {
        SegmentQuery::NeedsRekey(intent) => needs_rekey(meta, intent),
        SegmentQuery::HasId(id) => meta.segment_id == id,
    }
}

/// Whether the rows that begin with `prefix` are exactly those from `lo` up to
/// `hi`.
pub open spec fn is_run(
    s: Seq<(Seq<u8>, CatalogValue)>,
    prefix: Seq<u8>,
    lo: int,
    hi: int,
) -> bool {
    &&& 0 <= lo <= hi <= s.len()
    &&& forall|j: int|
        #![trigger s[j]]
        0 <= j < s.len() ==> (lo <= j < hi <==> has_prefix(s[j].0, prefix))
}

/// Which rows are segment rows.
pub open spec fn segment_run(s: Seq<(Seq<u8>, CatalogValue)>) -> (int, int) {
    choose|r: (int, int)| is_run(s, seq![KIND_SEGMENT], r.0, r.1)
}

/// What a walk over the segment rows comes to.
pub enum SegmentScan {
    Found(int),
    Absent,
    Malformed,
}

/// The first row from `at` up to `end` that the walk looks for.
pub open spec fn first_pick(
    s: Seq<(Seq<u8>, CatalogValue)>,
    at: int,
    end: int,
    q: SegmentQuery,
) -> Option<int>
    decreases end - at,
{
    if at >= end {
        None
    } else if s[at].1 is Segment && picks(q, s[at].1->Segment_0) {
        Some(at)
    } else {
        first_pick(s, at + 1, end, q)
    }
}

/// Whether a row from `at` up to `end` is no segment.
pub open spec fn batch_malformed(s: Seq<(Seq<u8>, CatalogValue)>, at: int, end: int) -> bool {
    exists|j: int| at <= j < end && !((#[trigger] s[j]).1 is Segment)
}

/// Where the batch that begins at `at` ends.
pub open spec fn batch_end(at: int, hi: int) -> int {
    if hi - at < REKEY_ROW_BATCH {
        hi
    } else {
        at + REKEY_ROW_BATCH
    }
}

/// Walks the rows from `at` up to `hi` in batches. A batch is decoded whole
/// before any of it is looked at, and the first batch that is malformed or holds
/// what is looked for decides.
pub open spec fn scan_from(
    s: Seq<(Seq<u8>, CatalogValue)>,
    at: int,
    hi: int,
    q: SegmentQuery,
) -> SegmentScan
    decreases hi - at,
{
    if at >= hi {
        SegmentScan::Absent
    } else if batch_malformed(s, at, batch_end(at, hi)) {
        SegmentScan::Malformed
    } else {
        match first_pick(s, at, batch_end(at, hi), q) {
            Some(i) => SegmentScan::Found(i),
            None => scan_from(s, batch_end(at, hi), hi, q),
        }
    }
}

/// Walks all segment rows.
pub open spec fn segment_scan(s: Seq<(Seq<u8>, CatalogValue)>, q: SegmentQuery) -> SegmentScan {
    let r = segment_run(s);
    scan_from(s, r.0, r.1, q)
}

proof fn lemma_segment_run(s: Seq<(Seq<u8>, CatalogValue)>, lo: int, hi: int)
    requires
        is_run(s, seq![KIND_SEGMENT], lo, hi),
    ensures
        is_run(s, seq![KIND_SEGMENT], segment_run(s).0, segment_run(s).1),
        lo < hi ==> segment_run(s) == (lo, hi),
        lo == hi ==> segment_run(s).0 == segment_run(s).1,
{
    let p = seq![KIND_SEGMENT];
    let w = (lo, hi);
    assert(is_run(s, p, w.0, w.1));
    let r = segment_run(s);
    assert(is_run(s, p, r.0, r.1));
    if lo < hi {
        assert(has_prefix(s[lo].0, p));
        assert(has_prefix(s[hi - 1].0, p));
        if r.0 < lo {
            assert(has_prefix(s[r.0].0, p));
        }
        if r.1 > hi {
            assert(has_prefix(s[r.1 - 1].0, p));
        }
    } else if r.0 < r.1 {
        assert(has_prefix(s[r.0].0, p));
    }
}

proof fn lemma_first_pick_none(
    s: Seq<(Seq<u8>, CatalogValue)>,
    at: int,
    end: int,
    q: SegmentQuery,
)
    requires
        at <= end,
        first_pick(s, at, end, q) is None,
    ensures
        forall|j: int|
            at <= j < end ==> !((#[trigger] s[j]).1 is Segment && picks(q, s[j].1->Segment_0)),
    decreases end - at,
{
    if at < end {
        lemma_first_pick_none(s, at + 1, end, q);
    }
}

fn query_picks(q: &SegmentQuery, meta: &SegmentMeta) -> (yes: bool)
    ensures
        yes == picks(*q, *meta),
{
    match q {
        SegmentQuery::NeedsRekey(intent) => segment_needs_rekey(meta, intent),
        SegmentQuery::HasId(id) => same_id(&meta.segment_id, id),
    }
}

/// Whether every row from `at` up to `end` is a segment.
fn decode_segment_batch(catalog: &BTree<CatalogValue>, at: usize, end: usize) -> (r: Result<()>)
    requires
        at <= end <= catalog@.len(),
    ensures
        match r {
            Ok(()) => !batch_malformed(catalog@, at as int, end as int),
            Err(e) => batch_malformed(catalog@, at as int, end as int) && e
                == PagedbError::row_invalid("segment.meta"),
        },
{
    let ghost s = catalog@;
    let mut i: usize = at;
    while i < end
        invariant
            s == catalog@,
            at <= i <= end <= s.len(),
            forall|j: int| at <= j < i ==> (#[trigger] s[j]).1 is Segment,
        decreases end - i,
    {
        match Catalog::decode_segment_meta(catalog.value_at(i)) {
            Ok(_) => {},
            Err(e) => {
                proof {
                    assert(!(s[i as int].1 is Segment));
                }
                return Err(e);
            },
        }
        i = i + 1;
    }
    Ok(())
}

/// Walks the segment rows of a catalog in batches, and gives the number of the
/// first row that is looked for.
pub fn scan_segments(catalog: &BTree<CatalogValue>, q: &SegmentQuery) -> (r: Result<Option<usize>>)
    requires
        catalog.wf(),
    ensures
        match r {
            Ok(Some(i)) => segment_scan(catalog@, *q) == SegmentScan::Found(i as int),
            Ok(None) => segment_scan(catalog@, *q) is Absent,
            Err(e) => segment_scan(catalog@, *q) is Malformed && e == PagedbError::row_invalid(
                "segment.meta",
            ),
        },
        r is Ok && r->Ok_0 is Some ==> {
            let i = r->Ok_0->0 as int;
            &&& i < catalog@.len()
            &&& has_prefix(catalog@[i].0, seq![KIND_SEGMENT])
            &&& catalog@[i].1 is Segment
            &&& picks(*q, catalog@[i].1->Segment_0)
        },
{
    let mut prefix: Vec<u8> = Vec::new();
    prefix.push(KIND_SEGMENT);
    proof {
        assert(prefix@ =~= seq![KIND_SEGMENT]);
    }
    let (lo, hi) = catalog.prefix_range(&prefix);
    let ghost s = catalog@;
    proof {
        lemma_segment_run(s, lo as int, hi as int);
    }
    let mut at: usize = lo;
    while at < hi
        invariant
            s == catalog@,
            lo <= at <= hi <= s.len(),
            is_run(s, seq![KIND_SEGMENT], lo as int, hi as int),
            segment_scan(s, *q) == scan_from(s, at as int, hi as int, *q),
        decreases hi - at,
    {
        let end: usize = if hi - at < REKEY_ROW_BATCH {
            hi
        } else {
            at + REKEY_ROW_BATCH
        };
        match decode_segment_batch(catalog, at, end) {
            Ok(()) => {},
            Err(e) => return Err(e),
        }
        let mut i: usize = at;
        while i < end
            invariant
                s == catalog@,
                lo <= at <= i <= end <= hi <= s.len(),
                is_run(s, seq![KIND_SEGMENT], lo as int, hi as int),
                !batch_malformed(s, at as int, end as int),
                at < hi,
                end == batch_end(at as int, hi as int),
                segment_scan(s, *q) == scan_from(s, at as int, hi as int, *q),
                first_pick(s, at as int, end as int, *q) == first_pick(s, i as int, end as int, *q),
            decreases end - i,
        {
            assert(s[i as int].1 is Segment);
            match catalog.value_at(i) {
                CatalogValue::Segment(meta) => {
                    if query_picks(q, meta) {
                        assert(has_prefix(s[i as int].0, seq![KIND_SEGMENT]));
                        return Ok(Some(i));
                    }
                },
                _ => {},
            }
            i = i + 1;
        }
        at = end;
    }
    Ok(None)
}

/// Whether the rows from `lo` up to `hi` are the first of a kind at or after a
/// cursor: a whole batch of them, or all that are left.
pub open spec fn is_batch(
    s: Seq<(Seq<u8>, CatalogValue)>,
    kind: u8,
    cursor: Seq<u8>,
    lo: int,
    hi: int,
) -> bool {
    &&& is_slot(s, cursor, lo)
    &&& lo <= hi <= s.len()
    &&& hi - lo <= REKEY_ROW_BATCH
    &&& forall|j: int| #![trigger s[j]] lo <= j < hi ==> has_prefix(s[j].0, seq![kind])
    &&& hi - lo < REKEY_ROW_BATCH ==> forall|j: int|
        #![trigger s[j]]
        hi <= j < s.len() ==> !has_prefix(s[j].0, seq![kind])
}

/// Whether the rows from `lo` up to `hi` are the first segment rows at or after
/// a cursor.
pub open spec fn is_segment_batch(
    s: Seq<(Seq<u8>, CatalogValue)>,
    cursor: Seq<u8>,
    lo: int,
    hi: int,
) -> bool {
    is_batch(s, KIND_SEGMENT, cursor, lo, hi)
}

/// The cursor that a walk goes on from: just past the last key of the batch. A
/// short batch ends the walk.
pub open spec fn next_cursor(s: Seq<(Seq<u8>, CatalogValue)>, lo: int, hi: int) -> Option<Seq<u8>> {
    if hi - lo < REKEY_ROW_BATCH {
        None
    } else {
        Some(s[hi - 1].0.push(0))
    }
}

/// One segment row of a catalog.
pub struct SegmentEntry {
    pub key: Vec<u8>,
    pub meta: SegmentMeta,
}

/// A batch of segment rows, and where the walk goes on, if it does.
pub struct SegmentBatch {
    pub entries: Vec<SegmentEntry>,
    pub next: Option<Vec<u8>>,
}

/// A batch of progress rows, and where the walk goes on, if it does.
pub struct ProgressBatch {
    pub rows: Vec<(Vec<u8>, CatalogValue)>,
    pub next: Option<Vec<u8>>,
}

/// Whether a cursor is the given one.
pub open spec fn is_cursor(cursor: Option<Vec<u8>>, expected: Option<Seq<u8>>) -> bool {
    match (cursor, expected) {
        (Some(c), Some(e)) => c@ == e,
        (None, None) => true,
        _ => false,
    }
}

/// Whether entries are the segment rows from `lo` up to `hi`.
pub open spec fn are_entries(
    entries: Seq<SegmentEntry>,
    s: Seq<(Seq<u8>, CatalogValue)>,
    lo: int,
    hi: int,
) -> bool {
    &&& entries.len() == hi - lo
    &&& forall|i: int|
        #![trigger entries[i]]
        0 <= i < entries.len() ==> entries[i].key@ == s[lo + i].0 && s[lo + i].1
            == CatalogValue::Segment(entries[i].meta)
}

/// Whether rows are those from `lo` up to `hi`.
pub open spec fn are_catalog_rows(
    rows: Seq<(Vec<u8>, CatalogValue)>,
    s: Seq<(Seq<u8>, CatalogValue)>,
    lo: int,
    hi: int,
) -> bool {
    &&& rows.len() == hi - lo
    &&& forall|i: int|
        #![trigger rows[i]]
        0 <= i < rows.len() ==> rows[i].0@ == s[lo + i].0 && rows[i].1 == s[lo + i].1
}

/// Where a walk goes on after the rows from `lo` up to `hi`.
fn cursor_after(catalog: &BTree<CatalogValue>, lo: usize, hi: usize) -> (next: Option<Vec<u8>>)
    requires
        lo <= hi <= catalog@.len(),
    ensures
        is_cursor(next, next_cursor(catalog@, lo as int, hi as int)),
{
    if hi - lo < REKEY_ROW_BATCH {
        return None;
    }
    let mut cursor: Vec<u8> = copy_bytes(catalog.key_at(hi - 1));
    cursor.push(0);
    Some(cursor)
}

/// What becomes of a linked segment in a rekey.
#[derive(Debug, Clone, Copy)]
pub enum MigrationPlan {
    /// It needs no migration and none was begun.
    Skip,
    /// A replacement was sealed before an interruption: go on with it rather
    /// than sealing a second copy.
    Resume { replacement_segment_id: [u8; 16] },
    /// Seal a replacement.
    Seal,
}

/// The progress that the catalog under a root records of a segment.
pub open spec fn progress_of(
    root_page_id: u64,
    s: Seq<(Seq<u8>, CatalogValue)>,
    source_id: [u8; 16],
) -> Result<Option<RekeySegmentProgress>> {
    if root_page_id == 0 {
        Ok(None)
    } else {
        match lookup(s, progress_key_spec(source_id)) {
            None => Ok(None),
            Some(CatalogValue::RekeyProgress(p)) => Ok(Some(p)),
            Some(_) => Err(PagedbError::row_invalid("rekey.segment_progress")),
        }
    }
}

/// What becomes of a progress row that the segment pass left behind.
#[derive(Debug, Clone, Copy)]
pub enum OrphanPlan {
    /// The source is linked after all, by the row with this number.
    Migrate { row: usize },
    /// The replacement was published: promote it, then drop the row.
    Finish { source_id: [u8; 16], replacement: SegmentMeta },
}

/// The segment that a walk found, under a root.
pub open spec fn found(
    root_page_id: u64,
    s: Seq<(Seq<u8>, CatalogValue)>,
    q: SegmentQuery,
) -> SegmentScan {
    if root_page_id == 0 {
        SegmentScan::Absent
    } else {
        segment_scan(s, q)
    }
}

/// How a progress row that was left behind is resolved.
pub open spec fn orphan_resolution(
    root_page_id: u64,
    s: Seq<(Seq<u8>, CatalogValue)>,
    intent: RekeyIntent,
    source_id: [u8; 16],
    progress: RekeySegmentProgress,
) -> Result<OrphanPlan> {
    let id = progress.replacement_segment_id;
    match found(root_page_id, s, SegmentQuery::HasId(source_id)) {
        SegmentScan::Malformed => Err(PagedbError::row_invalid("segment.meta")),
        SegmentScan::Found(i) => Ok(OrphanPlan::Migrate { row: i as usize }),
        SegmentScan::Absent => match found(root_page_id, s, SegmentQuery::HasId(id)) {
            SegmentScan::Malformed => Err(PagedbError::row_invalid("segment.meta")),
            SegmentScan::Absent => Err(
                PagedbError::RekeyReplacementMissing { replacement_segment_id: id },
            ),
            SegmentScan::Found(i) => {
                let meta = s[i].1->Segment_0;
                if meta.mk_epoch == intent.target_mk_epoch && meta.cipher_id
                    == intent.target_cipher_id {
                    Ok(OrphanPlan::Finish { source_id, replacement: meta })
                } else {
                    Err(PagedbError::RekeyReplacementMissing { replacement_segment_id: id })
                }
            },
        },
    }
}

/// The pages of a segment that a migration copies, from the first up to but not
/// including the last: all but the header and the footer.
pub fn rekey_page_range(meta: &SegmentMeta) -> (range: (u64, u64))
    ensures
        range.0 == 1,
        range.1 == copies_end(*meta),
{
    (1, if meta.page_count == 0 { 0 } else { meta.page_count - 1 })
}

/// Refuses a copy that did not land where its source stood.
pub fn check_copied_page(page_id: u64, copied_page_id: u64) -> (r: Result<()>)
    ensures
        r == if copied_page_id == page_id {
            Ok::<(), PagedbError>(())
        } else {
            Err::<(), PagedbError>(
                PagedbError::RekeyStateInvalid { field: "rekey.page_id_ordering" },
            )
        },
{
    if copied_page_id != page_id {
        return Err(PagedbError::RekeyStateInvalid { field: "rekey.page_id_ordering" });
    }
    Ok(())
}

/// Whether a replacement describes the same segment as its source.
pub open spec fn replaces(replacement: SegmentMeta, source: SegmentMeta) -> bool {
    &&& replacement.page_count == source.page_count
    &&& replacement.format_version == source.format_version
    &&& replacement.segment_kind == source.segment_kind
    &&& replacement.evictable == source.evictable
}

/// Refuses a sealed replacement that does not describe the same segment.
pub fn check_replacement(replacement: &SegmentMeta, source: &SegmentMeta) -> (r: Result<()>)
    ensures
        r == if replaces(*replacement, *source) {
            Ok::<(), PagedbError>(())
        } else {
            Err::<(), PagedbError>(
                PagedbError::RekeyStateInvalid { field: "rekey.replacement_metadata" },
            )
        },
{
    if replacement.page_count != source.page_count || replacement.format_version
        != source.format_version || replacement.segment_kind != source.segment_kind
        || replacement.evictable != source.evictable {
        return Err(PagedbError::RekeyStateInvalid { field: "rekey.replacement_metadata" });
    }
    Ok(())
}

/// The source that a progress row's key names.
pub fn progress_source_id(key: &[u8]) -> (r: Result<[u8; 16]>)
    ensures
        match r {
            Ok(id) => key@.len() == 17 && id@ == key@.subrange(1, 17),
            Err(e) => key@.len() != 17 && e == (PagedbError::RekeyStateInvalid {
                field: "rekey.segment_progress.key",
            }),
        },
{
    if key.len() != 17 {
        return Err(PagedbError::RekeyStateInvalid { field: "rekey.segment_progress.key" });
    }
    Ok(take_16(key, 1))
}

/// A published replacement that does not open is missing.
pub fn check_orphan_opened(opened: bool, replacement: &SegmentMeta) -> (r: Result<()>)
    ensures
        r == if opened {
            Ok::<(), PagedbError>(())
        } else {
            Err::<(), PagedbError>(
                PagedbError::RekeyReplacementMissing {
                    replacement_segment_id: replacement.segment_id,
                },
            )
        },
{
    if opened {
        Ok(())
    } else {
        Err(
            PagedbError::RekeyReplacementMissing {
                replacement_segment_id: replacement.segment_id,
            },
        )
    }
}

/// Records that a replacement of a segment was sealed.
pub fn write_rekey_progress(
    catalog: &mut BTree<CatalogValue>,
    source_id: &[u8; 16],
    replacement_segment_id: [u8; 16],
)
    requires
        old(catalog).wf(),
    ensures
        final(catalog).wf(),
        final(catalog)@ == with_row(
            old(catalog)@,
            progress_key_spec(*source_id),
            CatalogValue::RekeyProgress(
                RekeySegmentProgress {
                    replacement_segment_id,
                    state: RekeySegmentProgressState::Sealed,
                },
            ),
        ),
        final(catalog).root() == old(catalog).root(),
        final(catalog).next() == old(catalog).next(),
{
    let key: Vec<u8> = Catalog::rekey_segment_progress_key(source_id);
    catalog.put(
        &key,
        CatalogValue::RekeyProgress(
            RekeySegmentProgress {
                replacement_segment_id,
                state: RekeySegmentProgressState::Sealed,
            },
        ),
    );
}

/// Drops the record of a segment's migration.
pub fn delete_rekey_progress(catalog: &mut BTree<CatalogValue>, source_id: &[u8; 16])
    requires
        old(catalog).wf(),
    ensures
        final(catalog).wf(),
        final(catalog)@ == without_row(old(catalog)@, progress_key_spec(*source_id)),
        final(catalog).root() == old(catalog).root(),
        final(catalog).next() == old(catalog).next(),
{
    let key: Vec<u8> = Catalog::rekey_segment_progress_key(source_id);
    let _ = catalog.delete(&key);
}

/// Swaps a replacement in under its source's key, and says what becomes of the
/// two files: the replacement is promoted, then the source retired.
pub fn replace_rekey_segment(
    catalog: &mut BTree<CatalogValue>,
    source_key: &[u8],
    source_id: [u8; 16],
    replacement: &SegmentMeta,
) -> (effects: Vec<SegmentSideEffect>)
    requires
        old(catalog).wf(),
    ensures
        final(catalog).wf(),
        final(catalog)@ == with_row(
            old(catalog)@,
            source_key@,
            CatalogValue::Segment(*replacement),
        ),
        final(catalog).root() == old(catalog).root(),
        final(catalog).next() == old(catalog).next(),
        effects@ == seq![
            SegmentSideEffect::Promote { segment_id: replacement.segment_id },
            SegmentSideEffect::Tombstone { segment_id: source_id, tombstone_commit_id: None },
        ],
{
    catalog.put(source_key, CatalogValue::Segment(*replacement));
    let mut effects: Vec<SegmentSideEffect> = Vec::new();
    effects.push(SegmentSideEffect::Promote { segment_id: replacement.segment_id });
    effects.push(
        SegmentSideEffect::Tombstone { segment_id: source_id, tombstone_commit_id: None },
    );
    proof {
        assert(effects@ =~= seq![
            SegmentSideEffect::Promote { segment_id: replacement.segment_id },
            SegmentSideEffect::Tombstone { segment_id: source_id, tombstone_commit_id: None },
        ]);
    }
    effects
}

impl Db {
    /// Whether a linked segment is still to be migrated.
    pub fn rekey_segments_pending(&self, catalog: &BTree<CatalogValue>, intent: &RekeyIntent) -> (r:
        Result<bool>)
        requires
            catalog.wf(),
        ensures
            match found(
                self.writer.catalog_root_page_id,
                catalog@,
                SegmentQuery::NeedsRekey(*intent),
            ) {
                SegmentScan::Found(_) => r == Ok::<bool, PagedbError>(true),
                SegmentScan::Absent => r == Ok::<bool, PagedbError>(false),
                SegmentScan::Malformed => r == Err::<bool, PagedbError>(
                    PagedbError::row_invalid("segment.meta"),
                ),
            },
    {
        if self.writer.catalog_root_page_id == 0 {
            return Ok(false);
        }
        match scan_segments(catalog, &SegmentQuery::NeedsRekey(*intent)) {
            Ok(Some(_)) => Ok(true),
            Ok(None) => Ok(false),
            Err(e) => Err(e),
        }
    }

    /// One batch of segment rows at or after a cursor, as a range of row numbers.
    /// Every row of it is a segment. Resuming with the last key and a zero byte
    /// neither skips nor repeats a row.
    pub fn segment_batch_from(&self, catalog: &BTree<CatalogValue>, cursor: &[u8]) -> (r: Result<
        (usize, usize),
    >)
        requires
            catalog.wf(),
            lex_le(seq![KIND_SEGMENT], cursor@),
        ensures
            if self.writer.catalog_root_page_id == 0 {
                r == Ok::<(usize, usize), PagedbError>((0, 0))
            } else {
                match r {
                    Ok((lo, hi)) => is_segment_batch(catalog@, cursor@, lo as int, hi as int)
                        && !batch_malformed(catalog@, lo as int, hi as int),
                    Err(e) => e == PagedbError::row_invalid("segment.meta") && exists|
                        lo: int,
                        hi: int,
                    |
                        #[trigger] is_segment_batch(catalog@, cursor@, lo, hi) && batch_malformed(
                            catalog@,
                            lo,
                            hi,
                        ),
                }
            },
    {
        if self.writer.catalog_root_page_id == 0 {
            return Ok((0, 0));
        }
        let mut prefix: Vec<u8> = Vec::new();
        prefix.push(KIND_SEGMENT);
        proof {
            assert(prefix@ =~= seq![KIND_SEGMENT]);
        }
        let (lo, hi) = catalog.collect_prefix_batch_from(&prefix, cursor, REKEY_ROW_BATCH);
        proof {
            assert(is_segment_batch(catalog@, cursor@, lo as int, hi as int));
        }
        match decode_segment_batch(catalog, lo, hi) {
            Ok(()) => Ok((lo, hi)),
            Err(e) => Err(e),
        }
    }

    /// One step of the walk that migrates every linked segment: the rows to
    /// migrate at or after a cursor, and the cursor to go on from. The walk
    /// begins at the first key of segments. A migration replaces a row under its
    /// own key, so the cursor stays good while the catalog changes.
    pub fn migrate_rekey_segments(&self, catalog: &BTree<CatalogValue>, cursor: &[u8]) -> (r:
        Result<SegmentBatch>)
        requires
            catalog.wf(),
            lex_le(seq![KIND_SEGMENT], cursor@),
        ensures
            if self.writer.catalog_root_page_id == 0 {
                r is Ok && r->Ok_0.entries@.len() == 0 && r->Ok_0.next is None
            } else {
                match r {
                    Ok(batch) => exists|lo: int, hi: int|
                        {
                            &&& #[trigger] is_segment_batch(catalog@, cursor@, lo, hi)
                            &&& !batch_malformed(catalog@, lo, hi)
                            &&& are_entries(batch.entries@, catalog@, lo, hi)
                            &&& is_cursor(batch.next, next_cursor(catalog@, lo, hi))
                        },
                    Err(e) => e == PagedbError::row_invalid("segment.meta") && exists|
                        lo: int,
                        hi: int,
                    |
                        #[trigger] is_segment_batch(catalog@, cursor@, lo, hi) && batch_malformed(
                            catalog@,
                            lo,
                            hi,
                        ),
                }
            },
    {
        if self.writer.catalog_root_page_id == 0 {
            return Ok(SegmentBatch { entries: Vec::new(), next: None });
        }
        let (lo, hi) = match self.segment_batch_from(catalog, cursor) {
            Ok(range) => range,
            Err(e) => return Err(e),
        };
        let ghost s = catalog@;
        let mut entries: Vec<SegmentEntry> = Vec::new();
        let mut i: usize = lo;
        while i < hi
            invariant
                s == catalog@,
                lo <= i <= hi <= s.len(),
                !batch_malformed(s, lo as int, hi as int),
                are_entries(entries@, s, lo as int, i as int),
            decreases hi - i,
        {
            assert(s[i as int].1 is Segment);
            match catalog.value_at(i) {
                CatalogValue::Segment(meta) => {
                    entries.push(SegmentEntry { key: copy_bytes(catalog.key_at(i)), meta: *meta });
                },
                _ => {},
            }
            i = i + 1;
        }
        let next: Option<Vec<u8>> = cursor_after(catalog, lo, hi);
        Ok(SegmentBatch { entries, next })
    }

    /// One step of the walk over the progress rows that the migration left
    /// behind: the rows to resolve at or after a cursor, and the cursor to go on
    /// from. The walk begins at the first key of progress rows.
    pub fn drain_orphaned_rekey_progress(
        &self,
        catalog: &BTree<CatalogValue>,
        cursor: &[u8],
    ) -> (batch: ProgressBatch)
        requires
            catalog.wf(),
            lex_le(seq![KIND_REKEY_PROGRESS], cursor@),
        ensures
            if self.writer.catalog_root_page_id == 0 {
                batch.rows@.len() == 0 && batch.next is None
            } else {
                exists|lo: int, hi: int|
                    {
                        &&& #[trigger] is_batch(catalog@, KIND_REKEY_PROGRESS, cursor@, lo, hi)
                        &&& are_catalog_rows(batch.rows@, catalog@, lo, hi)
                        &&& is_cursor(batch.next, next_cursor(catalog@, lo, hi))
                    }
            },
    {
        if self.writer.catalog_root_page_id == 0 {
            return ProgressBatch { rows: Vec::new(), next: None };
        }
        let mut prefix: Vec<u8> = Vec::new();
        prefix.push(KIND_REKEY_PROGRESS);
        proof {
            assert(prefix@ =~= seq![KIND_REKEY_PROGRESS]);
        }
        let (lo, hi) = catalog.collect_prefix_batch_from(&prefix, cursor, REKEY_ROW_BATCH);
        proof {
            assert(is_batch(catalog@, KIND_REKEY_PROGRESS, cursor@, lo as int, hi as int));
        }
        let mut rows: Vec<(Vec<u8>, CatalogValue)> = Vec::new();
        let mut i: usize = lo;
        while i < hi
            invariant
                lo <= i <= hi <= catalog@.len(),
                are_catalog_rows(rows@, catalog@, lo as int, i as int),
            decreases hi - i,
        {
            rows.push((copy_bytes(catalog.key_at(i)), *catalog.value_at(i)));
            i = i + 1;
        }
        let next: Option<Vec<u8>> = cursor_after(catalog, lo, hi);
        ProgressBatch { rows, next }
    }

    /// The row of the segment with an id.
    pub fn segment_entry_by_id(&self, catalog: &BTree<CatalogValue>, segment_id: [u8; 16]) -> (r:
        Result<Option<usize>>)
        requires
            catalog.wf(),
        ensures
            match found(
                self.writer.catalog_root_page_id,
                catalog@,
                SegmentQuery::HasId(segment_id),
            ) {
                SegmentScan::Found(i) => r matches Ok(Some(row)) && row == i && row
                    < catalog@.len() && catalog@[i].1 is Segment
                    && catalog@[i].1->Segment_0.segment_id == segment_id,
                SegmentScan::Absent => r == Ok::<Option<usize>, PagedbError>(None),
                SegmentScan::Malformed => r == Err::<Option<usize>, PagedbError>(
                    PagedbError::row_invalid("segment.meta"),
                ),
            },
    {
        if self.writer.catalog_root_page_id == 0 {
            return Ok(None);
        }
        scan_segments(catalog, &SegmentQuery::HasId(segment_id))
    }

    /// What the catalog records of a segment's migration.
    pub fn rekey_progress_row(&self, catalog: &BTree<CatalogValue>, source_id: &[u8; 16]) -> (r:
        Result<Option<RekeySegmentProgress>>)
        requires
            catalog.wf(),
        ensures
            r == progress_of(self.writer.catalog_root_page_id, catalog@, *source_id),
    {
        if self.writer.catalog_root_page_id == 0 {
            return Ok(None);
        }
        let key: Vec<u8> = Catalog::rekey_segment_progress_key(source_id);
        match catalog.get(&key) {
            None => Ok(None),
            Some(value) => match Catalog::rekey_progress_of(value) {
                Ok(progress) => Ok(Some(progress)),
                Err(e) => Err(e),
            },
        }
    }

    /// What becomes of a linked segment.
    pub fn migrate_rekey_segment_entry(
        &self,
        catalog: &BTree<CatalogValue>,
        intent: &RekeyIntent,
        source: &SegmentMeta,
    ) -> (r: Result<MigrationPlan>)
        requires
            catalog.wf(),
        ensures
            r == match progress_of(
                self.writer.catalog_root_page_id,
                catalog@,
                source.segment_id,
            ) {
                Err(e) => Err::<MigrationPlan, PagedbError>(e),
                Ok(Some(p)) => Ok::<MigrationPlan, PagedbError>(
                    MigrationPlan::Resume { replacement_segment_id: p.replacement_segment_id },
                ),
                Ok(None) => Ok::<MigrationPlan, PagedbError>(
                    if needs_rekey(*source, *intent) {
                        MigrationPlan::Seal
                    } else {
                        MigrationPlan::Skip
                    },
                ),
            },
    {
        match self.rekey_progress_row(catalog, &source.segment_id) {
            Err(e) => Err(e),
            Ok(Some(progress)) => Ok(
                MigrationPlan::Resume { replacement_segment_id: progress.replacement_segment_id },
            ),
            Ok(None) => if segment_needs_rekey(source, intent) {
                Ok(MigrationPlan::Seal)
            } else {
                Ok(MigrationPlan::Skip)
            },
        }
    }

    /// Resolves a progress row that the segment pass left behind. Its source is
    /// absent from the catalog once a durable swap published the successor, which
    /// must then be linked under the target epoch and cipher.
    pub fn finish_orphaned_rekey_progress(
        &self,
        catalog: &BTree<CatalogValue>,
        intent: &RekeyIntent,
        key: &[u8],
        value: &CatalogValue,
    ) -> (r: Result<OrphanPlan>)
        requires
            catalog.wf(),
        ensures
            if key@.len() != 17 {
                r == Err::<OrphanPlan, PagedbError>(
                    PagedbError::RekeyStateInvalid { field: "rekey.segment_progress.key" },
                )
            } else {
                match *value {
                    CatalogValue::RekeyProgress(p) => exists|id: [u8; 16]|
                        #![trigger progress_key_spec(id)]
                        id@ == key@.subrange(1, 17) && r == orphan_resolution(
                            self.writer.catalog_root_page_id,
                            catalog@,
                            *intent,
                            id,
                            p,
                        ),
                    _ => r == Err::<OrphanPlan, PagedbError>(
                        PagedbError::row_invalid("rekey.segment_progress"),
                    ),
                }
            },
    {
        let source_id: [u8; 16] = match progress_source_id(key) {
            Ok(id) => id,
            Err(e) => return Err(e),
        };
        let progress: RekeySegmentProgress = match Catalog::rekey_progress_of(value) {
            Ok(progress) => progress,
            Err(e) => return Err(e),
        };
        proof {
            let _ = progress_key_spec(source_id);
        }
        match self.segment_entry_by_id(catalog, source_id) {
            Ok(Some(row)) => return Ok(OrphanPlan::Migrate { row }),
            Ok(None) => {},
            Err(e) => return Err(e),
        }
        let id: [u8; 16] = progress.replacement_segment_id;
        let row: usize = match self.segment_entry_by_id(catalog, id) {
            Ok(Some(row)) => row,
            Ok(None) => return Err(
                PagedbError::RekeyReplacementMissing { replacement_segment_id: id },
            ),
            Err(e) => return Err(e),
        };
        match catalog.value_at(row) {
            CatalogValue::Segment(meta) => if meta.mk_epoch == intent.target_mk_epoch
                && meta.cipher_id == intent.target_cipher_id {
                Ok(OrphanPlan::Finish { source_id, replacement: *meta })
            } else {
                Err(PagedbError::RekeyReplacementMissing { replacement_segment_id: id })
            },
            _ => Err(PagedbError::catalog_row_invalid("segment.meta")),
        }
    }
}

/// The catalog's rows once a segment was migrated: the replacement under the
/// source's key, and no record of the migration.
pub open spec fn migrated(
    s: Seq<(Seq<u8>, CatalogValue)>,
    key: Seq<u8>,
    source_id: [u8; 16],
    replacement: SegmentMeta,
) -> Seq<(Seq<u8>, CatalogValue)> {
    without_row(
        with_row(s, key, CatalogValue::Segment(replacement)),
        progress_key_spec(source_id),
    )
}

/// One segment's migration: its row, its identity, and what replaces it.
pub struct Migration {
    pub key: Seq<u8>,
    pub source_id: [u8; 16],
    pub replacement: SegmentMeta,
}

/// The catalog's rows once several segments were migrated, one after the other.
pub open spec fn migrated_all(
    s: Seq<(Seq<u8>, CatalogValue)>,
    moves: Seq<Migration>,
) -> Seq<(Seq<u8>, CatalogValue)>
    decreases moves.len(),
{
    if moves.len() == 0 {
        s
    } else {
        let m = moves.last();
        migrated(migrated_all(s, moves.drop_last()), m.key, m.source_id, m.replacement)
    }
}

/// Whether the moves are migrations of segment rows to the target of an intent.
pub open spec fn moves_to_target(moves: Seq<Migration>, intent: RekeyIntent) -> bool {
    forall|i: int|
        0 <= i < moves.len() ==> has_prefix((#[trigger] moves[i]).key, seq![KIND_SEGMENT])
            && moves[i].replacement.mk_epoch == intent.target_mk_epoch
}

/// Whether a move is about the key.
pub open spec fn moves_key(moves: Seq<Migration>, key: Seq<u8>) -> bool {
    exists|i: int| 0 <= i < moves.len() && (#[trigger] moves[i]).key == key
}

/// Migrating one segment puts the replacement under its key, leaves no record of
/// the migration, and touches no other row.
pub proof fn law_migration_touches_one_segment(
    s: Seq<(Seq<u8>, CatalogValue)>,
    key: Seq<u8>,
    source_id: [u8; 16],
    replacement: SegmentMeta,
    other: Seq<u8>,
)
    requires
        ascending(s),
        has_prefix(key, seq![KIND_SEGMENT]),
        other != key,
        other != progress_key_spec(source_id),
    ensures
        ({
            let t = migrated(s, key, source_id, replacement);
            &&& ascending(t)
            &&& lookup(t, key) == Some(CatalogValue::Segment(replacement))
            &&& lookup(t, progress_key_spec(source_id)) is None
            &&& lookup(t, other) == lookup(s, other)
        }),
{
    lemma_migrated(s, key, source_id, replacement);
}

proof fn lemma_migrated(
    s: Seq<(Seq<u8>, CatalogValue)>,
    key: Seq<u8>,
    source_id: [u8; 16],
    replacement: SegmentMeta,
)
    requires
        ascending(s),
        has_prefix(key, seq![KIND_SEGMENT]),
    ensures
        ({
            let t = migrated(s, key, source_id, replacement);
            &&& ascending(t)
            &&& lookup(t, key) == Some(CatalogValue::Segment(replacement))
            &&& lookup(t, progress_key_spec(source_id)) is None
            &&& forall|other: Seq<u8>|
                #![trigger lookup(t, other)]
                other != key && other != progress_key_spec(source_id) ==> lookup(t, other)
                    == lookup(s, other)
        }),
{
    let row = CatalogValue::Segment(replacement);
    let swapped = with_row(s, key, row);
    let progress = progress_key_spec(source_id);
    lemma_slot_exists(s, key);
    let i = choose|i: int| is_slot(s, key, i);
    lemma_with_row(s, key, row, i);
    lemma_without_row(swapped, progress);
    assert(progress[0] == KIND_REKEY_PROGRESS);
    assert(key[0] == KIND_SEGMENT) by {
        assert(key.subrange(0, 1)[0] == KIND_SEGMENT);
    }
    assert(key != progress);
    let t = migrated(s, key, source_id, replacement);
    assert forall|other: Seq<u8>| #![trigger lookup(t, other)] other != key && other
        != progress implies lookup(t, other) == lookup(s, other) by {
        assert(lookup(swapped, other) == lookup(s, other));
    }
}

proof fn lemma_migrated_all(
    s: Seq<(Seq<u8>, CatalogValue)>,
    moves: Seq<Migration>,
    intent: RekeyIntent,
    key: Seq<u8>,
)
    requires
        ascending(s),
        moves_to_target(moves, intent),
        has_prefix(key, seq![KIND_SEGMENT]),
    ensures
        ascending(migrated_all(s, moves)),
        moves_key(moves, key) ==> lookup(migrated_all(s, moves), key) is Some && lookup(
            migrated_all(s, moves),
            key,
        )->0 is Segment && lookup(migrated_all(s, moves), key)->0->Segment_0.mk_epoch
            == intent.target_mk_epoch,
        !moves_key(moves, key) ==> lookup(migrated_all(s, moves), key) == lookup(s, key),
    decreases moves.len(),
{
    if moves.len() > 0 {
        let front = moves.drop_last();
        let m = moves.last();
        assert(moves[moves.len() - 1] == m);
        assert(moves_to_target(front, intent)) by {
            assert forall|i: int| 0 <= i < front.len() implies has_prefix(
                (#[trigger] front[i]).key,
                seq![KIND_SEGMENT],
            ) && front[i].replacement.mk_epoch == intent.target_mk_epoch by {
                assert(front[i] == moves[i]);
            }
        }
        lemma_migrated_all(s, front, intent, key);
        let before = migrated_all(s, front);
        lemma_migrated(before, m.key, m.source_id, m.replacement);
        let progress = progress_key_spec(m.source_id);
        assert(progress[0] == KIND_REKEY_PROGRESS);
        assert(key[0] == KIND_SEGMENT) by {
            assert(key.subrange(0, 1)[0] == KIND_SEGMENT);
        }
        assert(key != progress);
        let after = migrated_all(s, moves);
        if key == m.key {
            assert(moves_key(moves, key));
        } else {
            assert(lookup(after, key) == lookup(before, key));
            if moves_key(moves, key) {
                let i = choose|i: int| 0 <= i < moves.len() && (#[trigger] moves[i]).key == key;
                assert(front[i] == moves[i]);
                assert(moves_key(front, key));
            } else if moves_key(front, key) {
                let i = choose|i: int| 0 <= i < front.len() && (#[trigger] front[i]).key == key;
                assert(moves[i] == front[i]);
            }
        }
    }
}

/// Once every segment that needed it was migrated to the target epoch, none is
/// pending: the check that ends a rekey passes.
pub proof fn law_migrated_segments_are_not_pending(
    s: Seq<(Seq<u8>, CatalogValue)>,
    moves: Seq<Migration>,
    intent: RekeyIntent,
    key: Seq<u8>,
)
    requires
        ascending(s),
        moves_to_target(moves, intent),
        has_prefix(key, seq![KIND_SEGMENT]),
        lookup(s, key) is Some,
        lookup(s, key)->0 is Segment,
        needs_rekey(lookup(s, key)->0->Segment_0, intent) ==> moves_key(moves, key),
    ensures
        lookup(migrated_all(s, moves), key) is Some,
        lookup(migrated_all(s, moves), key)->0 is Segment,
        !needs_rekey(lookup(migrated_all(s, moves), key)->0->Segment_0, intent),
{
    lemma_migrated_all(s, moves, intent, key);
}

proof fn lemma_scan(s: Seq<(Seq<u8>, CatalogValue)>, at: int, hi: int, q: SegmentQuery)
    requires
        0 <= at <= hi <= s.len(),
        forall|j: int| at <= j < hi ==> (#[trigger] s[j]).1 is Segment,
    ensures
        scan_from(s, at, hi, q) is Absent <==> forall|j: int|
            at <= j < hi ==> !picks(q, (#[trigger] s[j]).1->Segment_0),
        !(scan_from(s, at, hi, q) is Malformed),
    decreases hi - at,
{
    if at < hi {
        let end = batch_end(at, hi);
        lemma_scan(s, end, hi, q);
        if first_pick(s, at, end, q) is None {
            lemma_first_pick_none(s, at, end, q);
        } else {
            lemma_first_pick_some(s, at, end, q);
        }
    }
}

proof fn lemma_first_pick_some(
    s: Seq<(Seq<u8>, CatalogValue)>,
    at: int,
    end: int,
    q: SegmentQuery,
)
    requires
        first_pick(s, at, end, q) is Some,
    ensures
        ({
            let i = first_pick(s, at, end, q)->0;
            at <= i < end && s[i].1 is Segment && picks(q, s[i].1->Segment_0)
        }),
    decreases end - at,
{
    if at < end && !(s[at].1 is Segment && picks(q, s[at].1->Segment_0)) {
        lemma_first_pick_some(s, at + 1, end, q);
    }
}

/// Over well-formed rows the walk in batches is exact: it finds nothing exactly
/// when no segment is what it looks for.
pub proof fn law_segment_walk_is_exact(
    s: Seq<(Seq<u8>, CatalogValue)>,
    lo: int,
    hi: int,
    q: SegmentQuery,
)
    requires
        is_run(s, seq![KIND_SEGMENT], lo, hi),
        forall|j: int| lo <= j < hi ==> (#[trigger] s[j]).1 is Segment,
    ensures
        !(segment_scan(s, q) is Malformed),
        segment_scan(s, q) is Absent <==> forall|j: int|
            lo <= j < hi ==> !picks(q, (#[trigger] s[j]).1->Segment_0),
{
    lemma_segment_run(s, lo, hi);
    lemma_scan(s, lo, hi, q);
}

/// One batch of a walk: the catalog's rows at that time, where the walk stood,
/// and which rows the batch had.
pub struct WalkedBatch {
    pub rows: Seq<(Seq<u8>, CatalogValue)>,
    pub cursor: Seq<u8>,
    pub lo: int,
    pub hi: int,
}

/// Whether two catalogs link segments under the same keys.
pub open spec fn same_segment_keys(
    a: Seq<(Seq<u8>, CatalogValue)>,
    b: Seq<(Seq<u8>, CatalogValue)>,
) -> bool {
    forall|key: Seq<u8>|
        has_prefix(key, seq![KIND_SEGMENT]) ==> (#[trigger] has_key(a, key) <==> has_key(b, key))
}

/// Whether batch `k` of a walk goes on from where the one before it ended.
pub open spec fn batch_follows(walk: Seq<WalkedBatch>, k: int) -> bool {
    Some(walk[k].cursor) == next_cursor(walk[k - 1].rows, walk[k - 1].lo, walk[k - 1].hi)
}

/// Whether the batches are those of a whole walk over the segments: it begins at
/// their first key, goes on from cursor to cursor, and ends with a short batch.
pub open spec fn walks_all(walk: Seq<WalkedBatch>) -> bool {
    &&& walk.len() > 0
    &&& walk[0].cursor == seq![KIND_SEGMENT]
    &&& forall|k: int|
        #![trigger walk[k]]
        0 <= k < walk.len() ==> ascending(walk[k].rows) && is_segment_batch(
            walk[k].rows,
            walk[k].cursor,
            walk[k].lo,
            walk[k].hi,
        )
    &&& forall|k: int| 0 < k < walk.len() ==> #[trigger] batch_follows(walk, k)
    &&& next_cursor(walk.last().rows, walk.last().lo, walk.last().hi) is None
}

/// Whether every batch of a walk finds segments under the keys that the first one
/// found them under.
pub open spec fn keys_stay(walk: Seq<WalkedBatch>) -> bool {
    forall|k: int|
        0 <= k < walk.len() ==> same_segment_keys(walk[0].rows, (#[trigger] walk[k]).rows)
}

/// Whether a batch has the row of a key.
pub open spec fn has_row(batch: WalkedBatch, key: Seq<u8>) -> bool {
    exists|j: int| batch.lo <= j < batch.hi && (#[trigger] batch.rows[j]).0 == key
}

/// Whether one of the first `n` batches has the row of a key.
pub open spec fn visited(walk: Seq<WalkedBatch>, n: int, key: Seq<u8>) -> bool {
    exists|k: int| 0 <= k < n && has_row(#[trigger] walk[k], key)
}

proof fn lemma_visited_below(walk: Seq<WalkedBatch>, n: int, key: Seq<u8>)
    requires
        walks_all(walk),
        keys_stay(walk),
        0 <= n < walk.len(),
        has_prefix(key, seq![KIND_SEGMENT]),
        has_key(walk[0].rows, key),
        lex_lt(key, walk[n].cursor),
    ensures
        visited(walk, n, key),
    decreases n,
{
    if n == 0 {
        lemma_prefix_le(key, seq![KIND_SEGMENT]);
        if key != seq![KIND_SEGMENT] {
            lemma_lex_asymmetric(key, seq![KIND_SEGMENT]);
        } else {
            lemma_lex_irreflexive(key);
        }
    } else {
        let b = walk[n - 1];
        assert(batch_follows(walk, n));
        assert(same_segment_keys(walk[0].rows, b.rows));
        assert(has_key(b.rows, key));
        let j = index_of_key(b.rows, key);
        assert(b.rows[j].0 == key);
        let last = b.rows[b.hi - 1].0;
        if j < b.lo {
            assert(lex_lt(key, b.cursor));
            lemma_visited_below(walk, n - 1, key);
            let k = choose|k: int| 0 <= k < n - 1 && has_row(#[trigger] walk[k], key);
            assert(has_row(walk[k], key));
        } else if j < b.hi {
            assert(has_row(walk[n - 1], key));
        } else {
            assert(lex_lt(last, key));
            lemma_lex_successor(last, key);
            if last.push(0) == key {
                lemma_lex_irreflexive(key);
            } else {
                lemma_lex_asymmetric(last.push(0), key);
            }
        }
    }
}

/// A walk over the segments passes over none: every segment that is linked when
/// it begins is in one of its batches, though the catalog changes under it, as
/// long as the segments stay under their keys.
pub proof fn law_rekey_walk_visits_every_segment(walk: Seq<WalkedBatch>, key: Seq<u8>)
    requires
        walks_all(walk),
        keys_stay(walk),
        has_prefix(key, seq![KIND_SEGMENT]),
        has_key(walk[0].rows, key),
    ensures
        visited(walk, walk.len() as int, key),
{
    let n = walk.len() - 1;
    let b = walk[n];
    assert(b == walk.last());
    assert(same_segment_keys(walk[0].rows, b.rows));
    assert(has_key(b.rows, key));
    let j = index_of_key(b.rows, key);
    assert(b.rows[j].0 == key);
    if j < b.lo {
        assert(lex_lt(key, b.cursor));
        lemma_visited_below(walk, n, key);
        let k = choose|k: int| 0 <= k < n && has_row(#[trigger] walk[k], key);
        assert(has_row(walk[k], key));
    } else {
        assert(has_row(walk[n], key));
    }
}

/// Whether a move is the migration of a linked segment: the replacement stands for
/// the segment that is there, under the target's key.
pub open spec fn is_migration(
    s: Seq<(Seq<u8>, CatalogValue)>,
    m: Migration,
    intent: RekeyIntent,
) -> bool {
    &&& has_prefix(m.key, seq![KIND_SEGMENT])
    &&& lookup(s, m.key) matches Some(CatalogValue::Segment(source))
    &&& source.segment_id == m.source_id
    &&& replaces(m.replacement, source)
    &&& m.replacement.mk_epoch == intent.target_mk_epoch
}

/// Whether each move is the migration of a segment as the moves before it left
/// the catalog.
pub open spec fn are_migrations(
    s: Seq<(Seq<u8>, CatalogValue)>,
    moves: Seq<Migration>,
    intent: RekeyIntent,
) -> bool {
    forall|i: int|
        0 <= i < moves.len() ==> is_migration(
            migrated_all(s, moves.take(i)),
            #[trigger] moves[i],
            intent,
        )
}

proof fn lemma_migrations_front(
    s: Seq<(Seq<u8>, CatalogValue)>,
    moves: Seq<Migration>,
    intent: RekeyIntent,
    n: int,
)
    requires
        are_migrations(s, moves, intent),
        0 <= n <= moves.len(),
    ensures
        are_migrations(s, moves.take(n), intent),
        moves_to_target(moves.take(n), intent),
{
    let front = moves.take(n);
    assert forall|i: int| 0 <= i < front.len() implies is_migration(
        migrated_all(s, front.take(i)),
        #[trigger] front[i],
        intent,
    ) by {
        assert(front.take(i) =~= moves.take(i));
        assert(front[i] == moves[i]);
    }
}

proof fn lemma_segments_stay(
    s: Seq<(Seq<u8>, CatalogValue)>,
    moves: Seq<Migration>,
    intent: RekeyIntent,
    key: Seq<u8>,
)
    requires
        ascending(s),
        are_migrations(s, moves, intent),
        has_prefix(key, seq![KIND_SEGMENT]),
    ensures
        lookup(s, key) is None ==> lookup(migrated_all(s, moves), key) is None,
        lookup(s, key) matches Some(CatalogValue::Segment(old)) ==> {
            &&& lookup(migrated_all(s, moves), key) matches Some(CatalogValue::Segment(new))
            &&& replaces(new, old)
        },
    decreases moves.len(),
{
    if moves.len() > 0 {
        let n = moves.len() - 1;
        let front = moves.drop_last();
        assert(front =~= moves.take(n));
        lemma_migrations_front(s, moves, intent, n);
        lemma_segments_stay(s, front, intent, key);
        let m = moves.last();
        assert(moves[n] == m);
        let before = migrated_all(s, front);
        lemma_migrated_all(s, front, intent, key);
        lemma_migrated(before, m.key, m.source_id, m.replacement);
        let progress = progress_key_spec(m.source_id);
        assert(progress[0] == KIND_REKEY_PROGRESS);
        assert(key[0] == KIND_SEGMENT) by {
            assert(key.subrange(0, 1)[0] == KIND_SEGMENT);
        }
        let after = migrated_all(s, moves);
        if key != m.key {
            assert(lookup(after, key) == lookup(before, key));
        }
    }
}

/// A rekey keeps every segment: once its walk is over, the same keys are linked,
/// and each links a segment that stands for the one it linked before, with as many
/// pages, of the same kind and format; and every segment of the store's cipher is
/// under the target epoch.
///
/// `moves` are the migrations of the walk, in order; `done[k]` says how many were
/// done when batch `k` was read. What the pages of a segment hold is copied
/// outside: the law speaks of its row.
pub proof fn law_rekey_keeps_every_segment(
    s: Seq<(Seq<u8>, CatalogValue)>,
    walk: Seq<WalkedBatch>,
    done: Seq<int>,
    moves: Seq<Migration>,
    intent: RekeyIntent,
    key: Seq<u8>,
)
    requires
        ascending(s),
        walks_all(walk),
        walk[0].rows == s,
        are_migrations(s, moves, intent),
        done.len() == walk.len(),
        forall|k: int, x: Seq<u8>|
            #![trigger lookup(walk[k].rows, x)]
            0 <= k < walk.len() && has_prefix(x, seq![KIND_SEGMENT]) ==> 0 <= done[k] <= moves.len()
                && lookup(walk[k].rows, x) == lookup(migrated_all(s, moves.take(done[k])), x),
        forall|k: int, j: int|
            #![trigger walk[k].rows[j]]
            0 <= k < walk.len() && walk[k].lo <= j < walk[k].hi && walk[k].rows[j].1 is Segment
                && needs_rekey(walk[k].rows[j].1->Segment_0, intent) ==> moves_key(
                moves,
                walk[k].rows[j].0,
            ),
        has_prefix(key, seq![KIND_SEGMENT]),
    ensures
        has_key(migrated_all(s, moves), key) <==> has_key(s, key),
        lookup(s, key) matches Some(CatalogValue::Segment(old)) ==> {
            &&& lookup(migrated_all(s, moves), key) matches Some(CatalogValue::Segment(new))
            &&& replaces(new, old)
            &&& !needs_rekey(new, intent)
            &&& old.cipher_id == intent.source_cipher_id ==> new.mk_epoch == intent.target_mk_epoch
        },
{
    assert forall|k: int| 0 <= k < walk.len() implies same_segment_keys(
        walk[0].rows,
        (#[trigger] walk[k]).rows,
    ) by {
        assert forall|x: Seq<u8>| has_prefix(x, seq![KIND_SEGMENT]) implies (#[trigger] has_key(
            walk[0].rows,
            x,
        ) <==> has_key(walk[k].rows, x)) by {
            assert(lookup(walk[k].rows, x) == lookup(migrated_all(s, moves.take(done[k])), x));
            lemma_migrations_front(s, moves, intent, done[k]);
            lemma_segments_stay(s, moves.take(done[k]), intent, x);
            if lookup(s, x) is Some && !(lookup(s, x)->0 is Segment) {
                lemma_other_rows_stay(s, moves.take(done[k]), intent, x);
            }
        }
    }
    let all = moves.take(moves.len() as int);
    assert(all =~= moves);
    lemma_migrations_front(s, moves, intent, moves.len() as int);
    lemma_segments_stay(s, moves, intent, key);
    lemma_migrated_all(s, moves, intent, key);
    if lookup(s, key) is Some && lookup(s, key)->0 is Segment {
        law_rekey_walk_visits_every_segment(walk, key);
        let k = choose|k: int| 0 <= k < walk.len() && has_row(#[trigger] walk[k], key);
        let j = choose|j: int|
            walk[k].lo <= j < walk[k].hi && (#[trigger] walk[k].rows[j]).0 == key;
        lemma_lookup_at(walk[k].rows, j);
        let so_far = moves.take(done[k]);
        assert(lookup(walk[k].rows, key) == Some(walk[k].rows[j].1));
        assert(lookup(walk[k].rows, key) == lookup(migrated_all(s, so_far), key));
        if !moves_key(moves, key) {
            lemma_migrations_front(s, moves, intent, done[k]);
            lemma_migrated_all(s, so_far, intent, key);
            assert(!moves_key(so_far, key)) by {
                if moves_key(so_far, key) {
                    let i = choose|i: int|
                        0 <= i < so_far.len() && (#[trigger] so_far[i]).key == key;
                    assert(moves[i] == so_far[i]);
                }
            }
        }
    } else if lookup(s, key) is Some {
        lemma_other_rows_stay(s, moves, intent, key);
    }
}

proof fn lemma_other_rows_stay(
    s: Seq<(Seq<u8>, CatalogValue)>,
    moves: Seq<Migration>,
    intent: RekeyIntent,
    key: Seq<u8>,
)
    requires
        ascending(s),
        are_migrations(s, moves, intent),
        has_prefix(key, seq![KIND_SEGMENT]),
        lookup(s, key) is Some,
        !(lookup(s, key)->0 is Segment),
    ensures
        lookup(migrated_all(s, moves), key) == lookup(s, key),
    decreases moves.len(),
{
    if moves.len() > 0 {
        let n = moves.len() - 1;
        let front = moves.drop_last();
        assert(front =~= moves.take(n));
        lemma_migrations_front(s, moves, intent, n);
        lemma_other_rows_stay(s, front, intent, key);
        let m = moves.last();
        assert(moves[n] == m);
        let before = migrated_all(s, front);
        lemma_migrated_all(s, front, intent, key);
        lemma_migrated(before, m.key, m.source_id, m.replacement);
        let progress = progress_key_spec(m.source_id);
        assert(progress[0] == KIND_REKEY_PROGRESS);
        assert(key[0] == KIND_SEGMENT) by {
            assert(key.subrange(0, 1)[0] == KIND_SEGMENT);
        }
        let after = migrated_all(s, moves);
        assert(lookup(after, key) == lookup(before, key));
    }
}

/// One page that a migration copied: which page of the source it read, where the
/// copy landed, and what the page holds.
pub struct PageCopy {
    pub page_id: u64,
    pub copied_page_id: u64,
    pub body: Seq<u8>,
}

/// The first page past those that a migration copies.
pub open spec fn copies_end(source: SegmentMeta) -> int {
    if source.page_count == 0 {
        0
    } else {
        source.page_count - 1
    }
}

/// A replacement holds what its source holds, page by page: once every page
/// between header and footer was copied in order, each copy landing where its
/// source stood, and the replacement was accepted, each page id of the replacement
/// gives what that id of the source gives, and there is no other page. The
/// contents are what reading the pages gives, under whichever key they are sealed.
pub proof fn law_replacement_holds_the_same_pages(
    source: SegmentMeta,
    replacement: SegmentMeta,
    source_pages: Map<u64, Seq<u8>>,
    replacement_pages: Map<u64, Seq<u8>>,
    copies: Seq<PageCopy>,
    page_id: u64,
)
    requires
        replaces(replacement, source),
        copies.len() == if copies_end(source) > 1 {
            copies_end(source) - 1
        } else {
            0
        },
        forall|i: int|
            #![trigger copies[i]]
            0 <= i < copies.len() ==> {
                &&& copies[i].page_id == i + 1
                &&& copies[i].copied_page_id == copies[i].page_id
                &&& source_pages[copies[i].page_id] == copies[i].body
                &&& replacement_pages[copies[i].copied_page_id] == copies[i].body
            },
        1 <= page_id < copies_end(replacement),
    ensures
        page_id < copies_end(source),
        replacement_pages[page_id] == source_pages[page_id],
{
    assert(copies[page_id - 1].page_id == page_id);
}

} // verus!
