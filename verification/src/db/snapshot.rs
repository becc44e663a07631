//! Snapshot export, restore, and incremental apply: what an artifact must say,
//! which pages and segments a delta stands for, and the header that installs a
//! target.

use vstd::prelude::*;
use vstd::string::*;

use crate::catalog::{CatalogValue, SegmentMeta, KIND_SEGMENT};
use crate::codec::{lemma_le_bytes_of_value, u64_from_le};
use crate::errors::{IoKind, PagedbError, Result};
use crate::header::{
    encode_free_list_root, encode_root_ref, is_page_size_log2, page_size_log2, root_ref,
    HeaderCursor, MainDbHeaderFields, MAIN_FORMAT_VERSION,
};
use crate::ids::{ActiveSlot, CommitId};
use crate::read::ReadTxn;
use crate::sets::{lemma_take_to_set, PageSet, SegmentSet};
use crate::tree::BTree;

use super::handle::{poison_kept, poisoned, snapshot_of, Db, ReaderSnapshot, WriterState};
use super::history_carry::CarriedHistory;
use super::manifest_validation::{SnapshotManifest, KIND_FULL, KIND_INCREMENTAL};
use super::open::existing::records_state;
use super::segment::{collect_segments, lists_prefix, prefix_malformed, JournalAction};

verus! {

/// The page size that a manifest records for one that does not fit its field.
pub const FALLBACK_PAGE_SIZE: u32 = 4096;

/// What a failed export or restore is allowed to delete.
#[derive(Debug, Clone, Copy, PartialEq, Eq, Structural)]
pub enum DestinationOwnership {
    /// The directory did not exist; a failure removes it entirely.
    Created,
    /// The directory already existed and was empty; a failure removes only the
    /// contents written into it.
    PreExisting,
}

/// Requires an empty destination and records whether it already existed.
/// `listed` says whether the directory has an entry.
pub fn claim_empty_destination(listed: core::result::Result<bool, IoKind>) -> (r: Result<
    DestinationOwnership,
>)
    ensures
        r == match listed {
            Ok(true) => Err::<DestinationOwnership, PagedbError>(
                PagedbError::Io(IoKind::AlreadyExists),
            ),
            Ok(false) => Ok::<DestinationOwnership, PagedbError>(DestinationOwnership::PreExisting),
            Err(IoKind::NotFound) => Ok::<DestinationOwnership, PagedbError>(
                DestinationOwnership::Created,
            ),
            Err(kind) => Err::<DestinationOwnership, PagedbError>(PagedbError::Io(kind)),
        },
{
    match listed {
        Ok(true) => Err(PagedbError::Io(IoKind::AlreadyExists)),
        Ok(false) => Ok(DestinationOwnership::PreExisting),
        Err(IoKind::NotFound) => Ok(DestinationOwnership::Created),
        Err(kind) => Err(PagedbError::Io(kind)),
    }
}

/// The ids of segments, as a set.
pub open spec fn ids_of(metas: Seq<SegmentMeta>) -> Set<[u8; 16]> {
    metas.map_values(|m: SegmentMeta| m.segment_id).to_set()
}

/// The ids of segments, as a set.
pub fn segment_ids(metas: &Vec<SegmentMeta>) -> (ids: SegmentSet)
    ensures
        ids.wf(),
        ids@ == ids_of(metas@),
{
    let ghost all = metas@.map_values(|m: SegmentMeta| m.segment_id);
    let mut ids: SegmentSet = SegmentSet::new();
    let mut i: usize = 0;
    proof {
        assert(all.take(0).to_set() =~= Set::<[u8; 16]>::empty());
    }
    while i < metas.len()
        invariant
            i <= metas@.len(),
            all == metas@.map_values(|m: SegmentMeta| m.segment_id),
            ids.wf(),
            ids@ == all.take(i as int).to_set(),
        decreases metas@.len() - i,
    {
        proof {
            lemma_take_to_set(all, i as int);
        }
        ids.insert(metas[i].segment_id);
        i = i + 1;
    }
    proof {
        assert(all.take(i as int) =~= all);
    }
    ids
}

/// The segments that a catalog names, in key order. A root of 0 is an empty
/// catalog.
pub fn catalog_segment_metas(root_page_id: u64, catalog: &BTree<CatalogValue>) -> (r: Result<
    Vec<SegmentMeta>,
>)
    requires
        catalog.wf(),
    ensures
        if root_page_id == 0 {
            r is Ok && r->Ok_0@.len() == 0
        } else {
            match r {
                Ok(out) => lists_prefix(catalog@, seq![KIND_SEGMENT], out@) && !prefix_malformed(
                    catalog@,
                    seq![KIND_SEGMENT],
                ),
                Err(e) => prefix_malformed(catalog@, seq![KIND_SEGMENT]) && e
                    == PagedbError::row_invalid("segment.meta"),
            }
        },
{
    if root_page_id == 0 {
        return Ok(Vec::new());
    }
    let mut prefix: Vec<u8> = Vec::new();
    prefix.push(KIND_SEGMENT);
    proof {
        assert(prefix@ =~= seq![KIND_SEGMENT]);
    }
    collect_segments(catalog, &prefix)
}

/// The pages that a delta must carry: what the target reaches and a reader of
/// the base does not see. Producer and follower derive it alike.
pub open spec fn delta_pages(target: Set<u64>, base_visible: Set<u64>) -> Set<u64> {
    target.difference(base_visible)
}

/// The pages of a delta, in ascending order.
pub fn delta_page_ids(target: &PageSet, base_visible: &PageSet) -> (delta: PageSet)
    requires
        target.wf(),
        base_visible.wf(),
    ensures
        delta.wf(),
        delta@ == delta_pages(target@, base_visible@),
{
    target.difference(base_visible)
}

/// The pages that a published state occupies: those of each of its trees and of
/// the free-list chain, where the state has a root for it.
pub open spec fn published_pages(
    snapshot: ReaderSnapshot,
    data: Set<u64>,
    catalog: Set<u64>,
    history: Set<u64>,
    chain: Set<u64>,
) -> Set<u64> {
    Set::new(
        |p: u64|
            {
                ||| snapshot.root_page_id != 0 && data.contains(p)
                ||| snapshot.catalog_root_page_id != 0 && catalog.contains(p)
                ||| snapshot.commit_history_root_page_id != 0 && history.contains(p)
                ||| snapshot.free_list_root_page_id != 0 && chain.contains(p)
            },
    )
}

/// The pages that a published state occupies, wider than what a reader sees: a
/// verbatim copy must contain every page that its header names.
pub fn collect_published_page_ids(
    snapshot: &ReaderSnapshot,
    data: &PageSet,
    catalog: &PageSet,
    history: &PageSet,
    chain: &PageSet,
) -> (pages: PageSet)
    requires
        data.wf(),
        catalog.wf(),
        history.wf(),
        chain.wf(),
    ensures
        pages.wf(),
        pages@ == published_pages(*snapshot, data@, catalog@, history@, chain@),
{
    let mut pages: PageSet = PageSet::new();
    if snapshot.root_page_id != 0 {
        pages.extend(data);
    }
    if snapshot.catalog_root_page_id != 0 {
        pages.extend(catalog);
    }
    if snapshot.commit_history_root_page_id != 0 {
        pages.extend(history);
    }
    if snapshot.free_list_root_page_id != 0 {
        pages.extend(chain);
    }
    proof {
        assert(pages@ =~= published_pages(*snapshot, data@, catalog@, history@, chain@));
    }
    pages
}

/// The highest page that a copy of the main file must hold; the second header
/// page when there is no other.
pub fn highest_required_page(pages: &PageSet) -> (page: u64)
    requires
        pages.wf(),
    ensures
        pages@ == Set::<u64>::empty() ==> page == 1,
        pages@ != Set::<u64>::empty() ==> pages@.contains(page) && forall|p: u64|
            #[trigger] pages@.contains(p) ==> p <= page,
{
    let n: usize = pages.len();
    if n == 0 {
        proof {
            assert(pages@ =~= Set::<u64>::empty());
        }
        return 1;
    }
    let page: u64 = pages.at(n - 1);
    proof {
        assert forall|p: u64| #[trigger] pages@.contains(p) implies p <= page by {
            let j = pages.list().index_of(p);
            assert(pages.list()[j] == p);
            assert(pages.list()[n - 1] == page);
        }
    }
    page
}

/// A count as a manifest records it.
pub open spec fn count_field(n: nat) -> u32 {
    if n <= u32::MAX {
        n as u32
    } else {
        u32::MAX
    }
}

fn segments_count(n: usize) -> (count: u32)
    ensures
        count == count_field(n as nat),
{
    if n as u64 <= u32::MAX as u64 {
        n as u32
    } else {
        u32::MAX
    }
}

/// The segments that are in `current` and not in `base`, in order.
pub open spec fn new_segment_ids(current: Seq<SegmentMeta>, base: Set<[u8; 16]>) -> Seq<[u8; 16]>
    decreases current.len(),
{
    if current.len() == 0 {
        Seq::empty()
    } else {
        let before = new_segment_ids(current.drop_last(), base);
        if base.contains(current.last().segment_id) {
            before
        } else {
            before.push(current.last().segment_id)
        }
    }
}

/// The segments that are in `current` and not in `base`, in order.
pub fn new_segments(current: &Vec<SegmentMeta>, base: &SegmentSet) -> (ids: Vec<[u8; 16]>)
    ensures
        ids@ == new_segment_ids(current@, base@),
{
    let mut ids: Vec<[u8; 16]> = Vec::new();
    let mut i: usize = 0;
    while i < current.len()
        invariant
            i <= current@.len(),
            ids@ == new_segment_ids(current@.take(i as int), base@),
        decreases current@.len() - i,
    {
        proof {
            assert(current@.take(i + 1).drop_last() =~= current@.take(i as int));
            assert(current@.take(i + 1).last() == current@[i as int]);
        }
        if !base.contains(&current[i].segment_id) {
            ids.push(current[i].segment_id);
        }
        i = i + 1;
    }
    proof {
        assert(current@.take(i as int) =~= current@);
    }
    ids
}

/// Whether a manifest describes the state that a pinned reader sees of this
/// store.
pub open spec fn manifest_describes(db: Db, txn: ReadTxn, m: SnapshotManifest) -> bool {
    &&& m.version == 1
    &&& m.target_commit == txn.commit_id.0
    &&& m.file_id == db.file_id
    &&& m.mk_epoch == db.mk_epoch
    &&& m.kek_salt == db.kek_salt
    &&& m.cipher_id == db.cipher_id.byte()
    &&& m.page_size == if db.page_size <= u32::MAX {
        db.page_size as u32
    } else {
        FALLBACK_PAGE_SIZE
    }
    &&& m.next_page_id_at_target == txn.next_page_id
    &&& m.realm_id == db.realm_id.0
    &&& m.target_active_root_page_id == txn.root_page_id
    &&& m.target_catalog_root_page_id == txn.catalog_root_page_id
}

/// What an export of the current state writes down.
pub struct FullExport {
    pub manifest: SnapshotManifest,
    pub segment_ids: Vec<[u8; 16]>,
    pub highest_required_main_page: u64,
}

/// Whether an export is that of the whole state that a pinned reader sees, with
/// these segments.
pub open spec fn is_full_export(
    db: Db,
    txn: ReadTxn,
    segments: Seq<SegmentMeta>,
    export: FullExport,
) -> bool {
    &&& manifest_describes(db, txn, export.manifest)
    &&& export.manifest.kind == KIND_FULL
    &&& export.manifest.base_commit == 0
    &&& export.manifest.segments_count == count_field(segments.len())
    &&& export.segment_ids@ == segments.map_values(|m: SegmentMeta| m.segment_id)
}

/// What an export of the changes since a base commit writes down.
pub struct IncrementalExport {
    pub manifest: SnapshotManifest,
    pub new_segments: Vec<[u8; 16]>,
    pub changed_page_ids: PageSet,
    pub base_next_page_id: u64,
}

/// The first root or number by which a restored state is not the one that its
/// manifest declares.
pub open spec fn restored_fault(m: SnapshotManifest, snapshot: ReaderSnapshot) -> Option<
    PagedbError,
> {
    if snapshot.commit_id != m.target_commit {
        Some(PagedbError::SnapshotIncompatible { field: "target_commit" })
    } else if snapshot.next_page_id != m.next_page_id_at_target {
        Some(PagedbError::SnapshotIncompatible { field: "next_page_id_at_target" })
    } else if snapshot.root_page_id != m.target_active_root_page_id {
        Some(PagedbError::SnapshotIncompatible { field: "target_active_root_page_id" })
    } else if snapshot.catalog_root_page_id != m.target_catalog_root_page_id {
        Some(PagedbError::SnapshotIncompatible { field: "target_catalog_root_page_id" })
    } else {
        None
    }
}

fn check_restored_roots(manifest: &SnapshotManifest, snapshot: &ReaderSnapshot) -> (r: Result<()>)
    ensures
        r == match restored_fault(*manifest, *snapshot) {
            Some(e) => Err::<(), PagedbError>(e),
            None => Ok::<(), PagedbError>(()),
        },
{
    if snapshot.commit_id != manifest.target_commit {
        return Err(PagedbError::SnapshotIncompatible { field: "target_commit" });
    }
    if snapshot.next_page_id != manifest.next_page_id_at_target {
        return Err(PagedbError::SnapshotIncompatible { field: "next_page_id_at_target" });
    }
    if snapshot.root_page_id != manifest.target_active_root_page_id {
        return Err(PagedbError::SnapshotIncompatible { field: "target_active_root_page_id" });
    }
    if snapshot.catalog_root_page_id != manifest.target_catalog_root_page_id {
        return Err(PagedbError::SnapshotIncompatible { field: "target_catalog_root_page_id" });
    }
    Ok(())
}

/// What opening a restored copy and going through it found.
pub struct RestoredCopy {
    pub snapshot: ReaderSnapshot,
    /// Whether its trees could be walked.
    pub walked: Result<()>,
    /// The segments that its catalog names.
    pub segments: Result<Vec<SegmentMeta>>,
    /// The names of its segment files, each as the id it spells, if it spells
    /// one.
    pub files: Result<Vec<Option<[u8; 16]>>>,
    /// Whether every page of every segment could be read.
    pub read_through: Result<()>,
}

/// The ids that names spell.
pub open spec fn spelled_ids(names: Seq<Option<[u8; 16]>>) -> Set<[u8; 16]> {
    Set::new(|id: [u8; 16]| names.contains(Some(id)))
}

/// Whether a name spells no id.
pub open spec fn has_stray_name(names: Seq<Option<[u8; 16]>>) -> bool {
    exists|i: int| 0 <= i < names.len() && (#[trigger] names[i]) is None
}

/// Why a restored copy is not what its manifest declares, if it is not. What is
/// looked at first decides.
pub open spec fn copy_fault(m: SnapshotManifest, copy: RestoredCopy) -> Option<PagedbError> {
    if restored_fault(m, copy.snapshot) is Some {
        restored_fault(m, copy.snapshot)
    } else if copy.walked is Err {
        Some(copy.walked->Err_0)
    } else if copy.segments is Err {
        Some(copy.segments->Err_0)
    } else if copy.files is Err {
        Some(copy.files->Err_0)
    } else if has_stray_name(copy.files->Ok_0@) {
        Some(PagedbError::SnapshotArtifactInvalid { field: "segment.name" })
    } else if spelled_ids(copy.files->Ok_0@) != ids_of(copy.segments->Ok_0@) || spelled_ids(
        copy.files->Ok_0@,
    ).len() != m.segments_count {
        Some(PagedbError::SnapshotArtifactInvalid { field: "segments" })
    } else if copy.read_through is Err {
        Some(copy.read_through->Err_0)
    } else {
        None
    }
}

fn collect_spelled(names: &Vec<Option<[u8; 16]>>) -> (r: Option<SegmentSet>)
    ensures
        match r {
            Some(ids) => ids.wf() && ids@ == spelled_ids(names@) && !has_stray_name(names@),
            None => has_stray_name(names@),
        },
{
    let mut ids: SegmentSet = SegmentSet::new();
    let mut i: usize = 0;
    while i < names.len()
        invariant
            i <= names@.len(),
            ids.wf(),
            forall|j: int| 0 <= j < i ==> (#[trigger] names@[j]) is Some,
            forall|id: [u8; 16]| #[trigger]
                ids@.contains(id) <==> names@.take(i as int).contains(Some(id)),
        decreases names@.len() - i,
    {
        let ghost before = names@.take(i as int);
        let ghost now = names@.take(i + 1);
        proof {
            assert(now =~= before.push(names@[i as int]));
        }
        match names[i] {
            None => {
                proof {
                    assert(names@[i as int] is None);
                }
                return None;
            },
            Some(id) => {
                let ghost held = ids@;
                ids.insert(id);
                proof {
                    assert forall|x: [u8; 16]| #[trigger] ids@.contains(x) <==> now.contains(
                        Some(x),
                    ) by {
                        if before.contains(Some(x)) {
                            let k = before.index_of(Some(x));
                            assert(now[k] == Some(x));
                        }
                        if x == id {
                            assert(now[i as int] == Some(x));
                        }
                        if now.contains(Some(x)) {
                            let k = now.index_of(Some(x));
                            if k < i {
                                assert(before[k] == Some(x));
                            }
                        }
                        assert(held.contains(x) <==> before.contains(Some(x)));
                    }
                }
            },
        }
        i = i + 1;
    }
    proof {
        assert(names@.take(i as int) =~= names@);
        assert(ids@ =~= spelled_ids(names@));
    }
    Some(ids)
}

/// Rejects a restored copy that is not the one its manifest declares.
pub fn validate_restored_snapshot(manifest: &SnapshotManifest, copy: RestoredCopy) -> (r: Result<()>)
    ensures
        r == match copy_fault(*manifest, copy) {
            Some(e) => Err::<(), PagedbError>(e),
            None => Ok::<(), PagedbError>(()),
        },
{
    match check_restored_roots(manifest, &copy.snapshot) {
        Ok(()) => {},
        Err(e) => return Err(e),
    }
    match copy.walked {
        Ok(()) => {},
        Err(e) => return Err(e),
    }
    let segments: Vec<SegmentMeta> = match copy.segments {
        Ok(segments) => segments,
        Err(e) => return Err(e),
    };
    let files: Vec<Option<[u8; 16]>> = match copy.files {
        Ok(files) => files,
        Err(e) => return Err(e),
    };
    let actual: SegmentSet = match collect_spelled(&files) {
        Some(ids) => ids,
        None => return Err(PagedbError::SnapshotArtifactInvalid { field: "segment.name" }),
    };
    let expected: SegmentSet = segment_ids(&segments);
    proof {
        lemma_listed_len(actual);
    }
    if !actual.equals(&expected) || actual.len() as u64 != manifest.segments_count as u64 {
        return Err(PagedbError::SnapshotArtifactInvalid { field: "segments" });
    }
    match copy.read_through {
        Ok(()) => Ok(()),
        Err(e) => Err(e),
    }
}

/// What screening the segment files of a full snapshot comes to. Each name is
/// given as the id it spells, if it spells one.
pub open spec fn screened(names: Seq<Option<[u8; 16]>>, declared: u32) -> Result<()> {
    if exists|i: int| 0 <= i < names.len() && i <= u32::MAX && (#[trigger] names[i]) is None {
        Err(PagedbError::SnapshotArtifactInvalid { field: "segment.name" })
    } else if names.len() > u32::MAX {
        Err(PagedbError::SnapshotArtifactInvalid { field: "segments_count" })
    } else if names.len() != declared {
        Err(PagedbError::SnapshotArtifactInvalid { field: "segments" })
    } else {
        Ok(())
    }
}

/// Screens the segment files of a full snapshot before anything opens them. A
/// file that is no segment identity is an undeclared sidecar.
pub fn screen_snapshot_segments(names: &Vec<Option<[u8; 16]>>, declared: u32) -> (r: Result<()>)
    ensures
        r == screened(names@, declared),
{
    let mut copied: u32 = 0;
    let mut i: usize = 0;
    while i < names.len()
        invariant
            i <= names@.len(),
            copied == i,
            forall|j: int| 0 <= j < i ==> (#[trigger] names@[j]) is Some,
        decreases names@.len() - i,
    {
        if names[i].is_none() {
            proof {
                assert(names@[i as int] is None);
            }
            return Err(PagedbError::SnapshotArtifactInvalid { field: "segment.name" });
        }
        match copied.checked_add(1) {
            Some(n) => {
                copied = n;
            },
            None => {
                return Err(PagedbError::SnapshotArtifactInvalid { field: "segments_count" });
            },
        }
        i = i + 1;
    }
    if copied != declared {
        return Err(PagedbError::SnapshotArtifactInvalid { field: "segments" });
    }
    Ok(())
}

/// Whether a failure to list the segment directory of a full snapshot may be
/// passed over: only when it is missing and no segment is declared.
pub fn segment_directory_may_be_missing(kind: IoKind, declared: u32) -> (may: bool)
    ensures
        may == (kind is NotFound && declared == 0),
{
    matches!(kind, IoKind::NotFound) && declared == 0
}

/// Refuses to restore from anything but a full snapshot.
pub fn check_restore_kind(manifest: &SnapshotManifest) -> (r: Result<()>)
    ensures
        r == if manifest.kind == KIND_FULL {
            Ok::<(), PagedbError>(())
        } else {
            Err::<(), PagedbError>(PagedbError::SnapshotIncompatible { field: "kind" })
        },
{
    if manifest.kind != KIND_FULL {
        Err(PagedbError::SnapshotIncompatible { field: "kind" })
    } else {
        Ok(())
    }
}

/// What an authenticated delta changes: the pages that only the base reached,
/// and the segments that come and go.
pub struct ApplyPlan {
    /// Pages that a reader of the base could reach and the target does not.
    pub reclaimed: PageSet,
    pub promoted: SegmentSet,
    pub tombstoned: SegmentSet,
    pub segments_tombstoned: u32,
}

/// Why a staged target is not the one its delta claims, if it is not.
pub open spec fn delta_fault(
    m: SnapshotManifest,
    delta: Set<u64>,
    target: Set<u64>,
    base_visible: Set<u64>,
    promoted: nat,
    tombstoned: nat,
) -> Option<PagedbError> {
    if delta != delta_pages(target, base_visible) {
        Some(PagedbError::SnapshotArtifactInvalid { field: "pages.delta.reachability" })
    } else if promoted != m.segments_count {
        Some(PagedbError::SnapshotArtifactInvalid { field: "segments_count" })
    } else if tombstoned > u32::MAX {
        Some(PagedbError::SnapshotIncompatible { field: "segments_count" })
    } else {
        None
    }
}

/// How many segments a set holds.
pub open spec fn size_of_difference(a: Set<[u8; 16]>, b: Set<[u8; 16]>) -> nat {
    a.difference(b).len()
}

/// A set of segments holds as many as it lists.
pub proof fn lemma_listed_len(s: SegmentSet)
    requires
        s.wf(),
    ensures
        s@.len() == s.list().len(),
{
    let l = s.list();
    assert forall|i: int, j: int| 0 <= i < l.len() && 0 <= j < l.len() && i != j implies l[i]
        != l[j] by {
        if i < j {
            assert(crate::order::lex_lt(l[i]@, l[j]@));
            crate::order::lemma_lex_irreflexive(l[i]@);
        } else {
            assert(crate::order::lex_lt(l[j]@, l[i]@));
            crate::order::lemma_lex_irreflexive(l[i]@);
        }
    }
    l.unique_seq_to_set();
}

/// Compares a staged target with what the delta claims of it, and works out
/// what installing it changes. `delta` are the pages that the delta carries,
/// `target` those that the target's roots reach, `base_visible` those that a
/// reader of the base reaches.
pub fn plan_apply(
    manifest: &SnapshotManifest,
    delta: &PageSet,
    target: &PageSet,
    base_visible: &PageSet,
    target_segments: &Vec<SegmentMeta>,
    base_segments: &SegmentSet,
) -> (r: Result<ApplyPlan>)
    requires
        delta.wf(),
        target.wf(),
        base_visible.wf(),
    ensures
        ({
            let target_ids = ids_of(target_segments@);
            let fault = delta_fault(
                *manifest,
                delta@,
                target@,
                base_visible@,
                size_of_difference(target_ids, base_segments@),
                size_of_difference(base_segments@, target_ids),
            );
            match r {
                Ok(plan) => {
                    &&& fault is None
                    &&& plan.reclaimed.wf()
                    &&& plan.reclaimed@ == base_visible@.difference(target@)
                    &&& plan.promoted.wf()
                    &&& plan.promoted@ == target_ids.difference(base_segments@)
                    &&& plan.tombstoned.wf()
                    &&& plan.tombstoned@ == base_segments@.difference(target_ids)
                    &&& plan.segments_tombstoned == plan.tombstoned.list().len()
                },
                Err(e) => fault == Some(e),
            }
        }),
{
    let expected: PageSet = delta_page_ids(target, base_visible);
    if !delta.equals(&expected) {
        return Err(PagedbError::SnapshotArtifactInvalid { field: "pages.delta.reachability" });
    }
    let reclaimed: PageSet = base_visible.difference(target);
    let target_ids: SegmentSet = segment_ids(target_segments);
    let promoted: SegmentSet = target_ids.difference(base_segments);
    let tombstoned: SegmentSet = base_segments.difference(&target_ids);
    proof {
        lemma_listed_len(promoted);
        lemma_listed_len(tombstoned);
    }
    if promoted.len() as u64 != manifest.segments_count as u64 {
        return Err(PagedbError::SnapshotArtifactInvalid { field: "segments_count" });
    }
    if tombstoned.len() as u64 > u32::MAX as u64 {
        return Err(PagedbError::SnapshotIncompatible { field: "segments_count" });
    }
    let segments_tombstoned: u32 = tombstoned.len() as u32;
    Ok(ApplyPlan { reclaimed, promoted, tombstoned, segments_tombstoned })
}

/// The actions of an apply: every promotion, then every retirement, which takes
/// the target commit as its tombstone's.
pub open spec fn planned_actions(
    staged: Seq<[u8; 16]>,
    tombstoned: Seq<[u8; 16]>,
    commit: u64,
) -> Seq<JournalAction> {
    staged.map_values(|id: [u8; 16]| JournalAction::Promote { segment_id: id })
        + tombstoned.map_values(
        |id: [u8; 16]|
            JournalAction::Tombstone { segment_id: id, tombstone_commit_id: commit },
    )
}

/// The actions of an apply, in the order the journal records them.
pub fn apply_actions(staged: &Vec<[u8; 16]>, tombstoned: &SegmentSet, commit: u64) -> (actions: Vec<
    JournalAction,
>)
    ensures
        actions@ == planned_actions(staged@, tombstoned.list(), commit),
{
    let ghost want = planned_actions(staged@, tombstoned.list(), commit);
    let mut actions: Vec<JournalAction> = Vec::new();
    let mut i: usize = 0;
    while i < staged.len()
        invariant
            i <= staged@.len(),
            want == planned_actions(staged@, tombstoned.list(), commit),
            actions@ == want.take(i as int),
        decreases staged@.len() - i,
    {
        actions.push(JournalAction::Promote { segment_id: staged[i] });
        proof {
            assert(actions@ =~= want.take(i + 1));
        }
        i = i + 1;
    }
    let mut k: usize = 0;
    while k < tombstoned.len()
        invariant
            k <= tombstoned.list().len(),
            want == planned_actions(staged@, tombstoned.list(), commit),
            actions@ == want.take(staged@.len() + k),
        decreases tombstoned.list().len() - k,
    {
        actions.push(
            JournalAction::Tombstone { segment_id: tombstoned.at(k), tombstone_commit_id: commit },
        );
        proof {
            assert(actions@ =~= want.take(staged@.len() + k + 1));
        }
        k = k + 1;
    }
    proof {
        assert(want.take(want.len() as int) =~= want);
    }
    actions
}

/// The allocation cursor that an apply starts from: past the target's pages and
/// past the follower's own.
pub fn apply_alloc_cursor(manifest: &SnapshotManifest, state: &WriterState) -> (cursor: u64)
    ensures
        cursor >= manifest.next_page_id_at_target,
        cursor >= state.next_page_id,
        cursor == manifest.next_page_id_at_target || cursor == state.next_page_id,
{
    if manifest.next_page_id_at_target >= state.next_page_id {
        manifest.next_page_id_at_target
    } else {
        state.next_page_id
    }
}

/// A target image that is complete but for its header.
#[derive(Debug, Clone, Copy)]
pub struct StagedTarget {
    pub commit_id: u64,
    pub root_page_id: u64,
    pub catalog_root_page_id: u64,
    pub next_page_id: u64,
    pub free_list_root_page_id: u64,
    pub history_root_page_id: u64,
    pub history_root_version: u64,
    pub history_count: Option<u64>,
    pub journal_id: [u8; 16],
}

/// What a target image holds.
pub open spec fn target_image(
    m: SnapshotManifest,
    carried: CarriedHistory,
    free_list_root_page_id: u64,
    next_page_id: u64,
    journal_id: [u8; 16],
) -> StagedTarget {
    StagedTarget {
        commit_id: m.target_commit,
        root_page_id: m.target_active_root_page_id,
        catalog_root_page_id: m.target_catalog_root_page_id,
        next_page_id,
        free_list_root_page_id,
        history_root_page_id: carried.root_page_id,
        history_root_version: carried.root_version,
        history_count: carried.entry_count,
        journal_id,
    }
}

/// Puts together what a target image holds: the roots that the manifest names,
/// the follower's own metadata where it was moved to, and the journal of what
/// is left to do.
pub fn staged_target(
    manifest: &SnapshotManifest,
    carried: &CarriedHistory,
    free_list_root_page_id: u64,
    next_page_id: u64,
    journal_id: [u8; 16],
) -> (t: StagedTarget)
    ensures
        t == target_image(*manifest, *carried, free_list_root_page_id, next_page_id, journal_id),
{
    StagedTarget {
        commit_id: manifest.target_commit,
        root_page_id: manifest.target_active_root_page_id,
        catalog_root_page_id: manifest.target_catalog_root_page_id,
        next_page_id,
        free_list_root_page_id,
        history_root_page_id: carried.root_page_id,
        history_root_version: carried.root_version,
        history_count: carried.entry_count,
        journal_id,
    }
}

/// The writer state once a target is installed. How the handle was restored
/// and what it retains stay its own.
pub open spec fn installed(state: WriterState, t: StagedTarget) -> WriterState {
    WriterState {
        root_page_id: t.root_page_id,
        next_page_id: t.next_page_id,
        latest_commit_id: t.commit_id,
        catalog_root_page_id: t.catalog_root_page_id,
        catalog_root_txn_id: t.commit_id,
        free_list_root_page_id: t.free_list_root_page_id,
        commit_history_root_page_id: t.history_root_page_id,
        commit_history_root_version: t.history_root_version,
        commit_history_count: t.history_count,
        pending_apply_journal_id: t.journal_id,
        ..state
    }
}

/// Whether `f` is the header that installs a target over `state`.
pub open spec fn is_apply_header(
    db: Db,
    state: WriterState,
    t: StagedTarget,
    seq: u64,
    counter_anchor: u64,
    f: MainDbHeaderFields,
) -> bool {
    &&& f.format_version == MAIN_FORMAT_VERSION
    &&& f.cipher_id == db.cipher_id.byte()
    &&& is_page_size_log2(db.page_size as int, f.page_size_log2)
    &&& f.flags == 0
    &&& f.file_id == db.file_id
    &&& f.kek_salt == db.kek_salt
    &&& f.mk_epoch == db.mk_epoch
    &&& f.seq == seq
    &&& f.active_root_page_id == t.root_page_id
    &&& f.active_root_txn_id == t.commit_id
    &&& f.counter_anchor == counter_anchor
    &&& f.commit_id == CommitId(t.commit_id)
    &&& f.free_list_root@ == root_ref(t.free_list_root_page_id, 0)
    &&& f.catalog_root@ == root_ref(t.catalog_root_page_id, t.commit_id)
    &&& root_ref(f.apply_journal_root_page_id, f.apply_journal_root_version) == t.journal_id@
    &&& f.commit_history_root_page_id == t.history_root_page_id
    &&& f.commit_history_root_version == t.history_root_version
    &&& f.restore_mode == state.restore_mode
    &&& f.next_page_id == t.next_page_id
    &&& f.commit_retain_policy_tag == state.commit_retain_policy_tag
    &&& f.commit_retain_policy_value == state.commit_retain_policy_value
    &&& f.realm_id == db.realm_id
}

/// The two header fields that carry a journal's id.
pub fn encode_journal_id(journal_id: &[u8; 16]) -> (fields: (u64, u64))
    ensures
        root_ref(fields.0, fields.1) == journal_id@,
{
    let page: u64 = u64_from_le(journal_id.as_slice(), 0);
    let version: u64 = u64_from_le(journal_id.as_slice(), 8);
    proof {
        let lo = journal_id@.subrange(0, 8);
        let hi = journal_id@.subrange(8, 16);
        lemma_le_bytes_of_value(lo);
        lemma_le_bytes_of_value(hi);
        assert(root_ref(page, version) =~= lo + hi);
        assert(lo + hi =~= journal_id@);
    }
    (page, version)
}

/// How the swap of a staged image for the live one went, step by step.
#[derive(Debug, Clone, Copy, PartialEq, Eq, Structural)]
pub struct SwapOutcome {
    pub renamed: bool,
    pub directory_synced: bool,
    /// The slot of the staged image that the target header was written to.
    pub slot: ActiveSlot,
    pub seq: u64,
    pub anchored: bool,
}

/// What is left to do once a target is installed.
#[derive(Debug, Clone, Copy, PartialEq, Eq, Structural)]
pub enum ApplyTail {
    /// The target is published.
    Published,
    /// The journal that the header names is to be reconciled before the target
    /// is published.
    ReconcileJournal,
}

/// What a swap leaves of a handle, and what is reported.
pub open spec fn swapped(
    before: Db,
    t: StagedTarget,
    has_actions: bool,
    swap: SwapOutcome,
    r: Result<ApplyTail>,
    after: Db,
) -> bool {
    let unpublished = Err::<ApplyTail, PagedbError>(
        PagedbError::DurablyCommittedButUnpublished { commit: CommitId(t.commit_id) },
    );
    let advanced = Db {
        header_cursor: HeaderCursor { slot: swap.slot, seq: swap.seq },
        writer: installed(before.writer, t),
        ..before
    };
    if !swap.renamed || !swap.directory_synced {
        r == unpublished && after == poisoned(before, CommitId(t.commit_id))
    } else if !swap.anchored {
        r == unpublished && after == poisoned(advanced, CommitId(t.commit_id))
    } else if has_actions {
        r == Ok::<ApplyTail, PagedbError>(ApplyTail::ReconcileJournal) && after == advanced
    } else {
        r == Ok::<ApplyTail, PagedbError>(ApplyTail::Published) && after == (Db {
            snapshot: snapshot_of(installed(before.writer, t)),
            ..advanced
        })
    }
}

/// Where the last `/` of a path is, if it has one.
pub open spec fn last_slash(path: Seq<char>) -> int
    decreases path.len(),
{
    if path.len() == 0 {
        -1
    } else if path.last() == '/' {
        path.len() - 1
    } else {
        last_slash(path.drop_last())
    }
}

impl Db {
    /// The directory that the main file is in.
    pub fn main_db_parent_dir(&self) -> (dir: &str)
        ensures
            dir@ == if last_slash(self.main_db_path@) <= 0 {
                seq!['/']
            } else {
                self.main_db_path@.take(last_slash(self.main_db_path@))
            },
    {
        let path: &str = self.main_db_path.as_str();
        let ghost chars = self.main_db_path@;
        let mut n: usize = path.unicode_len();
        proof {
            reveal_strlit("/");
            assert("/"@ =~= seq!['/']);
            assert(chars.take(n as int) =~= chars);
        }
        while n > 0
            invariant
                chars == path@,
                chars == self.main_db_path@,
                n <= chars.len(),
                last_slash(chars) == last_slash(chars.take(n as int)),
                "/"@ == seq!['/'],
            decreases n,
        {
            proof {
                assert(chars.take(n as int).drop_last() =~= chars.take(n - 1));
                assert(chars.take(n as int).last() == chars[n - 1]);
            }
            if path.get_char(n - 1) == '/' {
                if n == 1 {
                    return "/";
                }
                proof {
                    assert(chars.subrange(0, n - 1) =~= chars.take(n - 1));
                }
                return path.substring_char(0, n - 1);
            }
            n = n - 1;
        }
        "/"
    }

    fn manifest_page_size(&self) -> (size: u32)
        ensures
            size == if self.page_size <= u32::MAX {
                self.page_size as u32
            } else {
                FALLBACK_PAGE_SIZE
            },
    {
        if self.page_size as u64 <= u32::MAX as u64 {
            self.page_size as u32
        } else {
            FALLBACK_PAGE_SIZE
        }
    }

    fn snapshot_manifest(&self, txn: &ReadTxn, kind: u8, base_commit: u64, count: u32) -> (m:
        SnapshotManifest)
        ensures
            manifest_describes(*self, *txn, m),
            m.kind == kind,
            m.base_commit == base_commit,
            m.segments_count == count,
    {
        SnapshotManifest {
            version: 1,
            kind,
            target_commit: txn.commit_id.0,
            base_commit,
            file_id: self.file_id,
            mk_epoch: self.mk_epoch,
            kek_salt: self.kek_salt,
            cipher_id: self.cipher_id.as_byte(),
            page_size: self.manifest_page_size(),
            next_page_id_at_target: txn.next_page_id,
            segments_count: count,
            realm_id: self.realm_id.0,
            target_active_root_page_id: txn.root_page_id,
            target_catalog_root_page_id: txn.catalog_root_page_id,
        }
    }

    /// What a full snapshot of the state pinned by `txn` writes down. The
    /// published state gives the length that the copy of the main file must
    /// have.
    pub fn snapshot_to(&self, txn: &ReadTxn, segments: &Vec<SegmentMeta>, published: &PageSet) -> (r:
        Result<FullExport>)
        requires
            published.wf(),
        ensures
            match r {
                Ok(export) => {
                    &&& self.poisoned_commit is None
                    &&& is_full_export(*self, *txn, segments@, export)
                    &&& published@ == Set::<u64>::empty() ==> export.highest_required_main_page == 1
                    &&& published@ != Set::<u64>::empty() ==> published@.contains(
                        export.highest_required_main_page,
                    ) && forall|p: u64| #[trigger]
                        published@.contains(p) ==> p <= export.highest_required_main_page
                },
                Err(e) => self.poisoned_commit is Some && e
                    == (PagedbError::DurablyCommittedButUnpublished {
                    commit: self.poisoned_commit->0,
                }),
            },
    {
        match self.ensure_usable() {
            Ok(()) => {},
            Err(e) => return Err(e),
        }
        let mut ids: Vec<[u8; 16]> = Vec::new();
        let mut i: usize = 0;
        let ghost all = segments@.map_values(|m: SegmentMeta| m.segment_id);
        while i < segments.len()
            invariant
                i <= segments@.len(),
                all == segments@.map_values(|m: SegmentMeta| m.segment_id),
                ids@ == all.take(i as int),
            decreases segments@.len() - i,
        {
            ids.push(segments[i].segment_id);
            proof {
                assert(ids@ =~= all.take(i + 1));
            }
            i = i + 1;
        }
        proof {
            assert(all.take(i as int) =~= all);
        }
        let manifest: SnapshotManifest = self.snapshot_manifest(
            txn,
            KIND_FULL,
            0,
            segments_count(ids.len()),
        );
        Ok(
            FullExport {
                manifest,
                segment_ids: ids,
                highest_required_main_page: highest_required_page(published),
            },
        )
    }

    /// What a snapshot of the changes between `base` and `txn` writes down. The
    /// page sets are those that the two snapshots' trees reach.
    pub fn snapshot_incremental_to(
        &self,
        txn: &ReadTxn,
        base: &ReadTxn,
        target_pages: &PageSet,
        base_pages: &PageSet,
        current_segments: &Vec<SegmentMeta>,
        base_segments: &Vec<SegmentMeta>,
    ) -> (r: Result<IncrementalExport>)
        requires
            target_pages.wf(),
            base_pages.wf(),
        ensures
            match r {
                Ok(export) => {
                    let base_ids = if base.catalog_root_page_id == 0 {
                        Set::<[u8; 16]>::empty()
                    } else {
                        ids_of(base_segments@)
                    };
                    &&& self.poisoned_commit is None
                    &&& manifest_describes(*self, *txn, export.manifest)
                    &&& export.manifest.kind == KIND_INCREMENTAL
                    &&& export.manifest.base_commit == base.commit_id.0
                    &&& export.new_segments@ == new_segment_ids(current_segments@, base_ids)
                    &&& export.manifest.segments_count == count_field(export.new_segments@.len())
                    &&& export.changed_page_ids.wf()
                    &&& export.changed_page_ids@ == delta_pages(target_pages@, base_pages@)
                    &&& export.base_next_page_id == base.next_page_id
                },
                Err(e) => self.poisoned_commit is Some && e
                    == (PagedbError::DurablyCommittedButUnpublished {
                    commit: self.poisoned_commit->0,
                }),
            },
    {
        match self.ensure_usable() {
            Ok(()) => {},
            Err(e) => return Err(e),
        }
        let base_ids: SegmentSet = if base.catalog_root_page_id == 0 {
            SegmentSet::new()
        } else {
            segment_ids(base_segments)
        };
        let fresh: Vec<[u8; 16]> = new_segments(current_segments, &base_ids);
        let manifest: SnapshotManifest = self.snapshot_manifest(
            txn,
            KIND_INCREMENTAL,
            base.commit_id.0,
            segments_count(fresh.len()),
        );
        Ok(
            IncrementalExport {
                manifest,
                new_segments: fresh,
                changed_page_ids: delta_page_ids(target_pages, base_pages),
                base_next_page_id: base.next_page_id,
            },
        )
    }

    /// The header that installs a staged target. It goes into the staged
    /// image's inactive slot, above the sequence number of the live header.
    pub fn apply_header_fields(&self, t: &StagedTarget, counter_anchor: u64) -> (r: Result<
        MainDbHeaderFields,
    >)
        ensures
            match r {
                Ok(f) => {
                    &&& self.header_cursor.seq < u64::MAX
                    &&& is_apply_header(
                        *self,
                        self.writer,
                        *t,
                        (self.header_cursor.seq + 1) as u64,
                        counter_anchor,
                        f,
                    )
                },
                Err(PagedbError::ArithmeticOverflow { what }) => what == "header sequence"
                    && self.header_cursor.seq == u64::MAX,
                Err(e) => e == PagedbError::Unsupported && self.header_cursor.seq < u64::MAX
                    && !self.page_size_supported(),
            },
    {
        let seq: u64 = match self.header_cursor.next_seq() {
            Ok(seq) => seq,
            Err(e) => return Err(e),
        };
        let log2: u8 = match page_size_log2(self.page_size) {
            Ok(log2) => log2,
            Err(e) => return Err(e),
        };
        let (journal_page, journal_version) = encode_journal_id(&t.journal_id);
        Ok(
            MainDbHeaderFields {
                format_version: MAIN_FORMAT_VERSION,
                cipher_id: self.cipher_id.as_byte(),
                page_size_log2: log2,
                flags: 0,
                file_id: self.file_id,
                kek_salt: self.kek_salt,
                mk_epoch: self.mk_epoch,
                seq,
                active_root_page_id: t.root_page_id,
                active_root_txn_id: t.commit_id,
                counter_anchor,
                commit_id: CommitId(t.commit_id),
                free_list_root: encode_free_list_root(t.free_list_root_page_id),
                catalog_root: encode_root_ref(t.catalog_root_page_id, t.commit_id),
                apply_journal_root_page_id: journal_page,
                apply_journal_root_version: journal_version,
                commit_history_root_page_id: t.history_root_page_id,
                commit_history_root_version: t.history_root_version,
                restore_mode: self.writer.restore_mode,
                next_page_id: t.next_page_id,
                commit_retain_policy_tag: self.writer.commit_retain_policy_tag,
                commit_retain_policy_value: self.writer.commit_retain_policy_value,
                realm_id: self.realm_id,
            },
        )
    }

    /// Ends an apply once the staged image was to replace the live one. The
    /// rename is the commit point: a failure from there on leaves the handle
    /// poisoned, since the durable image can only be told by reopening. Readers
    /// stay on the old snapshot until the anchor is committed and the journal's
    /// actions are reconciled.
    pub fn install_target(
        &mut self,
        t: &StagedTarget,
        has_actions: bool,
        swap: SwapOutcome,
    ) -> (r: Result<ApplyTail>)
        ensures
            poison_kept(*old(self), *final(self)),
            swapped(*old(self), *t, has_actions, swap, r, *final(self)),
    {
        let commit: CommitId = CommitId(t.commit_id);
        if !swap.renamed || !swap.directory_synced {
            self.poison(commit);
            return Err(PagedbError::DurablyCommittedButUnpublished { commit });
        }
        self.header_cursor = HeaderCursor { slot: swap.slot, seq: swap.seq };
        self.writer.latest_commit_id = t.commit_id;
        self.writer.next_page_id = t.next_page_id;
        self.writer.root_page_id = t.root_page_id;
        self.writer.catalog_root_page_id = t.catalog_root_page_id;
        self.writer.catalog_root_txn_id = t.commit_id;
        self.writer.free_list_root_page_id = t.free_list_root_page_id;
        self.writer.commit_history_root_page_id = t.history_root_page_id;
        self.writer.commit_history_root_version = t.history_root_version;
        self.writer.commit_history_count = t.history_count;
        self.writer.pending_apply_journal_id = t.journal_id;
        if !swap.anchored {
            self.poison(commit);
            return Err(PagedbError::DurablyCommittedButUnpublished { commit });
        }
        if has_actions {
            return Ok(ApplyTail::ReconcileJournal);
        }
        let state: WriterState = self.writer;
        self.publish_snapshot(&state);
        Ok(ApplyTail::Published)
    }
}

/// The header of an apply records the state that the handle goes on with, its
/// journal included: a store reopened after the swap stands at the target and
/// knows what is left to reconcile.
pub proof fn law_apply_header_records_target(
    db: Db,
    t: StagedTarget,
    seq: u64,
    counter_anchor: u64,
    f: MainDbHeaderFields,
)
    requires
        is_apply_header(db, db.writer, t, seq, counter_anchor, f),
    ensures
        records_state(f, installed(db.writer, t)),
{
}

proof fn lemma_new_ids(current: Seq<SegmentMeta>, base: Set<[u8; 16]>)
    ensures
        forall|x: [u8; 16]| #[trigger]
            new_segment_ids(current, base).contains(x) <==> ids_of(current).contains(x)
                && !base.contains(x),
    decreases current.len(),
{
    let all = current.map_values(|m: SegmentMeta| m.segment_id);
    if current.len() > 0 {
        let before = current.drop_last();
        lemma_new_ids(before, base);
        let all_before = before.map_values(|m: SegmentMeta| m.segment_id);
        let last = current.last().segment_id;
        assert(all =~= all_before.push(last));
        let old_ids = new_segment_ids(before, base);
        let out = new_segment_ids(current, base);
        assert forall|x: [u8; 16]| #[trigger] out.contains(x) <==> ids_of(current).contains(x)
            && !base.contains(x) by {
            assert(old_ids.contains(x) <==> ids_of(before).contains(x) && !base.contains(x));
            if all_before.contains(x) {
                let i = all_before.index_of(x);
                assert(all[i] == x);
            }
            if x == last {
                assert(all[all.len() - 1] == x);
            }
            if all.contains(x) {
                let i = all.index_of(x);
                if i < all_before.len() {
                    assert(all_before[i] == x);
                }
            }
            if old_ids.contains(x) {
                let i = old_ids.index_of(x);
                assert(out[i] == x);
            }
            if out.contains(x) {
                let i = out.index_of(x);
                if i < old_ids.len() {
                    assert(old_ids[i] == x);
                }
            }
            if x == last && !base.contains(last) {
                assert(out[out.len() - 1] == x);
            }
        }
    } else {
        assert(all =~= Seq::<[u8; 16]>::empty());
    }
}

proof fn lemma_new_ids_distinct(current: Seq<SegmentMeta>, base: Set<[u8; 16]>)
    requires
        current.map_values(|m: SegmentMeta| m.segment_id).no_duplicates(),
    ensures
        new_segment_ids(current, base).no_duplicates(),
    decreases current.len(),
{
    if current.len() > 0 {
        let all = current.map_values(|m: SegmentMeta| m.segment_id);
        let before = current.drop_last();
        let all_before = before.map_values(|m: SegmentMeta| m.segment_id);
        assert(all =~= all_before.push(current.last().segment_id));
        assert forall|i: int, j: int|
            0 <= i < all_before.len() && 0 <= j < all_before.len() && i != j implies all_before[i]
            != all_before[j] by {
            assert(all[i] != all[j]);
        }
        lemma_new_ids_distinct(before, base);
        lemma_new_ids(before, base);
        let out = new_segment_ids(before, base);
        let last = current.last().segment_id;
        assert(!out.contains(last)) by {
            if out.contains(last) {
                assert(ids_of(before).contains(last));
                let i = all_before.index_of(last);
                assert(all[i] == all[all.len() - 1]);
            }
        }
        assert forall|i: int, j: int|
            0 <= i < out.push(last).len() && 0 <= j < out.push(last).len() && i != j implies out.push(
            last,
        )[i] != out.push(last)[j] by {
            if i < out.len() && j < out.len() {
                assert(out[i] != out[j]);
            } else if i < out.len() {
                assert(out.contains(out[i]));
            } else if j < out.len() {
                assert(out.contains(out[j]));
            }
        }
    }
}

/// A healthy delta is accepted: the pages and the segment count that the
/// producer writes down for a base and a target are exactly those that a
/// follower at that base expects.
pub proof fn law_producer_delta_is_accepted(
    m: SnapshotManifest,
    target: Set<u64>,
    base: Set<u64>,
    current: Seq<SegmentMeta>,
    base_ids: Set<[u8; 16]>,
)
    requires
        current.map_values(|s: SegmentMeta| s.segment_id).no_duplicates(),
        m.segments_count == count_field(new_segment_ids(current, base_ids).len()),
        new_segment_ids(current, base_ids).len() <= u32::MAX,
        size_of_difference(base_ids, ids_of(current)) <= u32::MAX,
    ensures
        delta_fault(
            m,
            delta_pages(target, base),
            target,
            base,
            size_of_difference(ids_of(current), base_ids),
            size_of_difference(base_ids, ids_of(current)),
        ) is None,
{
    let out = new_segment_ids(current, base_ids);
    lemma_new_ids(current, base_ids);
    lemma_new_ids_distinct(current, base_ids);
    assert(out.to_set() =~= ids_of(current).difference(base_ids)) by {
        assert forall|x: [u8; 16]| out.to_set().contains(x) <==> ids_of(current).difference(
            base_ids,
        ).contains(x) by {
            assert(out.contains(x) <==> ids_of(current).contains(x) && !base_ids.contains(x));
        }
    }
    out.unique_seq_to_set();
}

/// Installing a target leaves no page without an owner: what the base showed
/// its readers is either still reached by the target or reclaimed, and nothing
/// that the target reaches is reclaimed.
pub proof fn law_apply_accounts_for_base_pages(target: Set<u64>, base_visible: Set<u64>, page: u64)
    requires
        base_visible.contains(page),
    ensures
        target.contains(page) <==> !base_visible.difference(target).contains(page),
        delta_pages(target, base_visible).disjoint(base_visible),
{
}

/// The segments after an apply are those of the target: each of the base's is
/// kept or retired, each of the target's was there or is promoted.
pub proof fn law_apply_reaches_target_segments(base: Set<[u8; 16]>, target: Set<[u8; 16]>)
    ensures
        base.difference(base.difference(target)).union(target.difference(base)) == target,
{
    assert(base.difference(base.difference(target)).union(target.difference(base)) =~= target);
}

} // verus!
