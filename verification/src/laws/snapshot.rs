//! Laws of exports and of what a snapshot is made of.

use vstd::prelude::*;

use crate::catalog::{CatalogValue, SegmentMeta};
use crate::db::handle::{Db, ReaderSnapshot, WriterState};
use crate::db::history_carry::CarriedHistory;
use crate::db::manifest_validation::SnapshotManifest;
use crate::db::open::existing::writer_from_header;
use crate::db::segment::{metas_of, JournalAction};
use crate::db::snapshot::{
    apply_actions, apply_alloc_cursor, catalog_segment_metas, check_restore_kind,
    claim_empty_destination, collect_published_page_ids, delta_page_ids, encode_journal_id,
    highest_required_page, ids_of, last_slash, lemma_listed_len, new_segment_ids, plan_apply,
    screen_snapshot_segments, segment_directory_may_be_missing, segment_ids, spelled_ids,
    staged_target, validate_restored_snapshot, ApplyPlan, ApplyTail, DestinationOwnership,
    FullExport, IncrementalExport, RestoredCopy, StagedTarget, SwapOutcome,
};
use crate::errors::{IoKind, PagedbError, Result};
use crate::header::{law_root_ref_round_trip, MainDbHeaderFields};
use crate::ids::CommitId;
use crate::order::has_prefix;
use crate::read::ReadTxn;
use crate::sets::{PageSet, SegmentSet};
use crate::tree::BTree;

use super::bytes::{eight_up, law_eight_bytes_up};
use super::store::lemma_one_byte_prefix;

verus! {

/// The published pages are those that can be walked to: for each root that the
/// published header names, every page walked from it, and no other page.
pub proof fn law_published_pages_are_those_walked(
    snapshot: &ReaderSnapshot,
    data: &PageSet,
    catalog: &PageSet,
    history: &PageSet,
    chain: &PageSet,
    pages: PageSet,
    page: u64,
)
    requires
        call_ensures(collect_published_page_ids, (snapshot, data, catalog, history, chain), pages),
    ensures
        snapshot.root_page_id != 0 && data@.contains(page) ==> pages@.contains(page),
        snapshot.catalog_root_page_id != 0 && catalog@.contains(page) ==> pages@.contains(page),
        snapshot.commit_history_root_page_id != 0 && history@.contains(page) ==> pages@.contains(
            page,
        ),
        snapshot.free_list_root_page_id != 0 && chain@.contains(page) ==> pages@.contains(page),
        pages@.contains(page) ==> {
            ||| snapshot.root_page_id != 0 && data@.contains(page)
            ||| snapshot.catalog_root_page_id != 0 && catalog@.contains(page)
            ||| snapshot.commit_history_root_page_id != 0 && history@.contains(page)
            ||| snapshot.free_list_root_page_id != 0 && chain@.contains(page)
        },
{
}

/// A full export asks for every page that the published header leads to: the
/// highest page that it requires is at least each page walked from a root that the
/// header names.
pub proof fn law_full_export_covers_published_pages(
    db: &Db,
    txn: &ReadTxn,
    segments: &Vec<SegmentMeta>,
    snapshot: &ReaderSnapshot,
    data: &PageSet,
    catalog: &PageSet,
    history: &PageSet,
    chain: &PageSet,
    pages: &PageSet,
    export: FullExport,
    page: u64,
)
    requires
        call_ensures(collect_published_page_ids, (snapshot, data, catalog, history, chain), *pages),
        call_ensures(
            Db::snapshot_to,
            (db, txn, segments, pages),
            Ok::<FullExport, PagedbError>(export),
        ),
    ensures
        snapshot.root_page_id != 0 && data@.contains(page) ==> page
            <= export.highest_required_main_page,
        snapshot.catalog_root_page_id != 0 && catalog@.contains(page) ==> page
            <= export.highest_required_main_page,
        snapshot.commit_history_root_page_id != 0 && history@.contains(page) ==> page
            <= export.highest_required_main_page,
        snapshot.free_list_root_page_id != 0 && chain@.contains(page) ==> page
            <= export.highest_required_main_page,
        export.highest_required_main_page != 1 ==> {
            let top = export.highest_required_main_page;
            ||| snapshot.root_page_id != 0 && data@.contains(top)
            ||| snapshot.catalog_root_page_id != 0 && catalog@.contains(top)
            ||| snapshot.commit_history_root_page_id != 0 && history@.contains(top)
            ||| snapshot.free_list_root_page_id != 0 && chain@.contains(top)
        },
{
    law_published_pages_are_those_walked(snapshot, data, catalog, history, chain, *pages, page);
    law_published_pages_are_those_walked(
        snapshot,
        data,
        catalog,
        history,
        chain,
        *pages,
        export.highest_required_main_page,
    );
}

/// A full export describes the reader that it is made of: its commit, roots and
/// cursor, the identity of the store, and one id for each segment, in order; its base
/// is none. Only a poisoned handle refuses.
pub proof fn law_full_export_describes_the_reader(
    db: &Db,
    txn: &ReadTxn,
    segments: &Vec<SegmentMeta>,
    published: &PageSet,
    r: Result<FullExport>,
)
    requires
        call_ensures(Db::snapshot_to, (db, txn, segments, published), r),
    ensures
        r is Ok <==> db.poisoned_commit is None,
        r is Err ==> r->Err_0 == (PagedbError::DurablyCommittedButUnpublished {
            commit: db.poisoned_commit->0,
        }),
        r is Ok ==> {
            let m = r->Ok_0.manifest;
            &&& m.version == 1 && m.kind == 0 && m.base_commit == 0
            &&& m.target_commit == txn.commit_id.0
            &&& m.target_active_root_page_id == txn.root_page_id
            &&& m.target_catalog_root_page_id == txn.catalog_root_page_id
            &&& m.next_page_id_at_target == txn.next_page_id
            &&& m.file_id == db.file_id && m.kek_salt == db.kek_salt && m.mk_epoch == db.mk_epoch
            &&& m.realm_id == db.realm_id.0
            &&& m.cipher_id == if db.cipher_id is Aes256Gcm {
                1u8
            } else {
                2u8
            }
            &&& db.page_size <= u32::MAX ==> m.page_size == db.page_size
            &&& segments@.len() <= u32::MAX ==> m.segments_count == segments@.len()
            &&& r->Ok_0.segment_ids@.len() == segments@.len()
            &&& forall|i: int|
                0 <= i < segments@.len() ==> #[trigger] r->Ok_0.segment_ids@[i]
                    == segments@[i].segment_id
        },
{
}

/// An incremental export holds what the target has and the base has not: the pages
/// and the segments, each exactly; it is from the base's commit to the target's, and
/// says from which page on the base had none.
pub proof fn law_incremental_export_is_the_difference(
    db: &Db,
    txn: &ReadTxn,
    base: &ReadTxn,
    target_pages: &PageSet,
    base_pages: &PageSet,
    current: &Vec<SegmentMeta>,
    base_segments: &Vec<SegmentMeta>,
    export: IncrementalExport,
    page: u64,
    id: [u8; 16],
)
    requires
        call_ensures(
            Db::snapshot_incremental_to,
            (db, txn, base, target_pages, base_pages, current, base_segments),
            Ok::<IncrementalExport, PagedbError>(export),
        ),
    ensures
        export.changed_page_ids@.contains(page) <==> target_pages@.contains(page)
            && !base_pages@.contains(page),
        ({
            let named = exists|i: int|
                0 <= i < current@.len() && (#[trigger] current@[i]).segment_id == id;
            let in_base = base.catalog_root_page_id != 0 && exists|i: int|
                0 <= i < base_segments@.len() && (#[trigger] base_segments@[i]).segment_id == id;
            export.new_segments@.contains(id) <==> named && !in_base
        }),
        export.manifest.version == 1 && export.manifest.kind == 1,
        export.manifest.base_commit == base.commit_id.0,
        export.manifest.target_commit == txn.commit_id.0,
        export.manifest.target_active_root_page_id == txn.root_page_id,
        export.manifest.target_catalog_root_page_id == txn.catalog_root_page_id,
        export.manifest.next_page_id_at_target == txn.next_page_id,
        export.manifest.file_id == db.file_id && export.manifest.kek_salt == db.kek_salt,
        export.manifest.mk_epoch == db.mk_epoch && export.manifest.realm_id == db.realm_id.0,
        export.new_segments@.len() <= u32::MAX ==> export.manifest.segments_count
            == export.new_segments@.len(),
        export.base_next_page_id == base.next_page_id,
        db.poisoned_commit is None,
{
    let base_ids = if base.catalog_root_page_id == 0 {
        Set::<[u8; 16]>::empty()
    } else {
        ids_of(base_segments@)
    };
    lemma_new_ids(current@, base_ids, id);
    lemma_ids_of(base_segments@, id);
}

proof fn lemma_ids_of(metas: Seq<SegmentMeta>, id: [u8; 16])
    ensures
        ids_of(metas).contains(id) <==> exists|i: int|
            0 <= i < metas.len() && (#[trigger] metas[i]).segment_id == id,
{
    let ids = metas.map_values(|m: SegmentMeta| m.segment_id);
    if ids_of(metas).contains(id) {
        let i = choose|i: int| 0 <= i < ids.len() && ids[i] == id;
        assert(metas[i].segment_id == id);
    }
    if exists|i: int| 0 <= i < metas.len() && (#[trigger] metas[i]).segment_id == id {
        let i = choose|i: int| 0 <= i < metas.len() && (#[trigger] metas[i]).segment_id == id;
        assert(ids[i] == id);
    }
}

proof fn lemma_new_ids(current: Seq<SegmentMeta>, base: Set<[u8; 16]>, id: [u8; 16])
    ensures
        new_segment_ids(current, base).contains(id) <==> !base.contains(id) && exists|i: int|
            0 <= i < current.len() && (#[trigger] current[i]).segment_id == id,
    decreases current.len(),
{
    if current.len() > 0 {
        let rest = current.drop_last();
        lemma_new_ids(rest, base, id);
        let before = new_segment_ids(rest, base);
        let last = current.last().segment_id;
        let n = current.len() - 1;
        assert(current[n].segment_id == last);
        if new_segment_ids(rest, base).contains(id) {
            let i = choose|i: int| 0 <= i < before.len() && before[i] == id;
            assert(before.push(last)[i] == id);
            let j = choose|j: int| 0 <= j < rest.len() && (#[trigger] rest[j]).segment_id == id;
            assert(current[j].segment_id == id);
        }
        if before.push(last).contains(id) {
            let i = choose|i: int| 0 <= i < before.push(last).len() && before.push(last)[i] == id;
            if i < before.len() {
                assert(before[i] == id);
            }
        }
        if last == id {
            assert(before.push(last)[before.len() as int] == id);
        }
        if exists|i: int| 0 <= i < current.len() && (#[trigger] current[i]).segment_id == id {
            let i = choose|i: int| 0 <= i < current.len() && (#[trigger] current[i]).segment_id
                == id;
            if i < n {
                assert(rest[i].segment_id == id);
            }
        }
    }
}

/// The segments of a catalog are the rows under the segments' kind, in the order of
/// their keys; none without a catalog; a row there that is no segment is refused.
pub proof fn law_catalog_lists_its_segments(
    root: u64,
    catalog: &BTree<CatalogValue>,
    r: Result<Vec<SegmentMeta>>,
    id: [u8; 16],
    metas: &Vec<SegmentMeta>,
    ids: SegmentSet,
)
    requires
        catalog.wf(),
        call_ensures(catalog_segment_metas, (root, catalog), r),
        call_ensures(segment_ids, (metas,), ids),
    ensures
        root == 0 ==> r is Ok && r->Ok_0@.len() == 0,
        root != 0 ==> (r is Ok <==> forall|j: int|
            #![trigger catalog@[j]]
            0 <= j < catalog@.len() && catalog@[j].0.len() > 0 && catalog@[j].0[0] == 1
                ==> catalog@[j].1 is Segment),
        r is Err ==> r->Err_0 is Corruption,
        root != 0 && r is Ok ==> {
            let named = exists|j: int|
                #![trigger catalog@[j]]
                0 <= j < catalog@.len() && catalog@[j].0.len() > 0 && catalog@[j].0[0] == 1
                    && catalog@[j].1->Segment_0.segment_id == id;
            named <==> exists|i: int|
                0 <= i < r->Ok_0@.len() && (#[trigger] r->Ok_0@[i]).segment_id == id
        },
        ids@.contains(id) <==> exists|i: int|
            0 <= i < metas@.len() && (#[trigger] metas@[i]).segment_id == id,
{
    lemma_ids_of(metas@, id);
    assert forall|j: int| #![trigger catalog@[j]] 0 <= j < catalog@.len() implies (has_prefix(
        catalog@[j].0,
        seq![1u8],
    ) <==> catalog@[j].0.len() > 0 && catalog@[j].0[0] == 1) by {
        lemma_one_byte_prefix(catalog@[j].0, 1);
    }
    if root != 0 {
        if r is Err {
            let j = choose|j: int|
                0 <= j < catalog@.len() && has_prefix((#[trigger] catalog@[j]).0, seq![1u8]) && !(
                catalog@[j].1 is Segment);
            assert(catalog@[j].0[0] == 1);
        } else {
            let out = r->Ok_0@;
            let (lo, hi) = choose|lo: int, hi: int|
                {
                    &&& #[trigger] metas_of(catalog@, lo, hi) == out
                    &&& 0 <= lo <= hi <= catalog@.len()
                    &&& forall|j: int|
                        #![trigger catalog@[j]]
                        0 <= j < catalog@.len() ==> (lo <= j < hi <==> has_prefix(
                            catalog@[j].0,
                            seq![1u8],
                        ))
                    &&& forall|j: int|
                        #![trigger catalog@[j]]
                        lo <= j < hi ==> catalog@[j].1 is Segment
                };
            if exists|i: int| 0 <= i < out.len() && (#[trigger] out[i]).segment_id == id {
                let i = choose|i: int| 0 <= i < out.len() && (#[trigger] out[i]).segment_id == id;
                let row = catalog@[lo + i];
                assert(row.0[0] == 1 && row.1->Segment_0.segment_id == id);
            }
            if exists|j: int|
                #![trigger catalog@[j]]
                0 <= j < catalog@.len() && catalog@[j].0.len() > 0 && catalog@[j].0[0] == 1
                    && catalog@[j].1->Segment_0.segment_id == id {
                let j = choose|j: int|
                    #![trigger catalog@[j]]
                    0 <= j < catalog@.len() && catalog@[j].0.len() > 0 && catalog@[j].0[0] == 1
                        && catalog@[j].1->Segment_0.segment_id == id;
                assert(out[j - lo].segment_id == id);
            }
        }
    }
}

/// The pages of a delta are those of the target that the base does not show.
pub proof fn law_delta_is_the_difference(
    target: &PageSet,
    base: &PageSet,
    delta: PageSet,
    highest: u64,
    page: u64,
)
    requires
        call_ensures(delta_page_ids, (target, base), delta),
        call_ensures(highest_required_page, (target,), highest),
    ensures
        delta@.contains(page) <==> target@.contains(page) && !base@.contains(page),
        target@.contains(page) ==> page <= highest && target@.contains(highest),
        highest != 1 ==> target@.contains(highest),
{
    if highest != 1 {
        assert(target@ != Set::<u64>::empty());
    }
}

/// A manifest is admitted where it is an increment for this very store: of version 1
/// and the incremental kind, with nothing in its reserved bytes, of the same file,
/// salt, epoch, cipher, page size and realm, from the commit that is published here
/// to a later one, with a cursor that does not fall back and roots that are pages
/// below it or none.
pub proof fn law_manifest_is_admitted(
    db: &Db,
    m: &SnapshotManifest,
    reserved: &[u8],
    r: Result<()>,
)
    requires
        call_ensures(Db::validate_incremental_manifest, (db, m, reserved), r),
    ensures
        r is Ok <==> {
            &&& m.version == 1 && m.kind == 1
            &&& forall|i: int| 0 <= i < reserved@.len() ==> #[trigger] reserved@[i] == 0
            &&& m.file_id == db.file_id && m.kek_salt == db.kek_salt && m.mk_epoch == db.mk_epoch
            &&& m.cipher_id == if db.cipher_id is Aes256Gcm {
                1u8
            } else {
                2u8
            }
            &&& m.page_size == db.page_size
            &&& m.realm_id == db.realm_id.0
            &&& m.base_commit == db.snapshot.commit_id
            &&& m.target_commit > m.base_commit
            &&& m.next_page_id_at_target >= db.snapshot.next_page_id && m.next_page_id_at_target >= 4
            &&& m.target_active_root_page_id == 0 || 4 <= m.target_active_root_page_id
                < m.next_page_id_at_target
            &&& m.target_catalog_root_page_id == 0 || 4 <= m.target_catalog_root_page_id
                < m.next_page_id_at_target
        },
        r is Err ==> r->Err_0 is SnapshotIncompatible,
        m.version != 1 ==> r == Err::<(), PagedbError>(
            PagedbError::SnapshotIncompatible { field: "version" },
        ),
        m.version == 1 && m.kind != 1 ==> r == Err::<(), PagedbError>(
            PagedbError::SnapshotIncompatible { field: "kind" },
        ),
{
}

/// What a producer exports from a base is admitted by whoever stands at that base:
/// the same store at the base's commit, and nothing allocated there that the target's
/// cursor has not passed.
pub proof fn law_export_is_admitted_at_its_base(
    producer: &Db,
    txn: &ReadTxn,
    base: &ReadTxn,
    target_pages: &PageSet,
    base_pages: &PageSet,
    current: &Vec<SegmentMeta>,
    base_segments: &Vec<SegmentMeta>,
    export: IncrementalExport,
    follower: &Db,
    reserved: &[u8],
    r: Result<()>,
)
    requires
        call_ensures(
            Db::snapshot_incremental_to,
            (producer, txn, base, target_pages, base_pages, current, base_segments),
            Ok::<IncrementalExport, PagedbError>(export),
        ),
        call_ensures(
            Db::validate_incremental_manifest,
            (follower, &export.manifest, reserved),
            r,
        ),
        forall|i: int| 0 <= i < reserved@.len() ==> #[trigger] reserved@[i] == 0,
        follower.file_id == producer.file_id,
        follower.kek_salt == producer.kek_salt,
        follower.mk_epoch == producer.mk_epoch,
        follower.cipher_id == producer.cipher_id,
        follower.page_size == producer.page_size,
        producer.page_size <= u32::MAX,
        follower.realm_id == producer.realm_id,
        follower.snapshot.commit_id == base.commit_id.0,
        base.commit_id.0 < txn.commit_id.0,
        follower.snapshot.next_page_id <= txn.next_page_id,
        txn.next_page_id >= 4,
        txn.root_page_id == 0 || 4 <= txn.root_page_id < txn.next_page_id,
        txn.catalog_root_page_id == 0 || 4 <= txn.catalog_root_page_id < txn.next_page_id,
    ensures
        r is Ok,
{
}

/// An apply is planned where the delta is the difference between target and base,
/// and as many segments come as the manifest says. Then what is given up are the
/// base's pages that the target does not reach, and the segments are those that are
/// new and those that are gone.
pub proof fn law_apply_plan(
    m: &SnapshotManifest,
    delta: &PageSet,
    target: &PageSet,
    base: &PageSet,
    target_segments: &Vec<SegmentMeta>,
    base_segments: &SegmentSet,
    r: Result<ApplyPlan>,
    page: u64,
    id: [u8; 16],
)
    requires
        call_ensures(plan_apply, (m, delta, target, base, target_segments, base_segments), r),
    ensures
        r is Ok ==> {
            let plan = r->Ok_0;
            let named = exists|i: int|
                0 <= i < target_segments@.len() && (#[trigger] target_segments@[i]).segment_id
                    == id;
            &&& delta@.contains(page) <==> target@.contains(page) && !base@.contains(page)
            &&& plan.reclaimed@.contains(page) <==> base@.contains(page) && !target@.contains(page)
            &&& plan.promoted@.contains(id) <==> named && !base_segments@.contains(id)
            &&& plan.tombstoned@.contains(id) <==> base_segments@.contains(id) && !named
        },
        delta@.contains(page) != (target@.contains(page) && !base@.contains(page)) ==> r == Err::<
            ApplyPlan,
            PagedbError,
        >(PagedbError::SnapshotArtifactInvalid { field: "pages.delta.reachability" }),
{
    lemma_ids_of(target_segments@, id);
    if delta@ == target@.difference(base@) {
        assert(delta@.contains(page) == (target@.contains(page) && !base@.contains(page)));
    }
}

/// The segments of an apply are promoted and then tombstoned under the target's
/// commit, each once and in order.
pub proof fn law_apply_actions(
    staged: &Vec<[u8; 16]>,
    tombstoned: &SegmentSet,
    commit: u64,
    actions: Vec<JournalAction>,
    i: int,
)
    requires
        call_ensures(apply_actions, (staged, tombstoned, commit), actions),
    ensures
        actions@.len() == staged@.len() + tombstoned.list().len(),
        0 <= i < staged@.len() ==> actions@[i] == (JournalAction::Promote {
            segment_id: staged@[i],
        }),
        staged@.len() <= i < actions@.len() ==> actions@[i] == (JournalAction::Tombstone {
            segment_id: tombstoned.list()[i - staged@.len()],
            tombstone_commit_id: commit,
        }),
{
}

/// An apply allocates past the target's pages and past the follower's own. Its image
/// is at the manifest's commit and roots, with the history, the free list, the cursor
/// and the journal that it was staged with. A journal's id is two numbers.
pub proof fn law_apply_image(
    m: &SnapshotManifest,
    state: &WriterState,
    cursor: u64,
    carried: &CarriedHistory,
    free_list: u64,
    next: u64,
    journal: [u8; 16],
    t: StagedTarget,
    id: &[u8; 16],
    fields: (u64, u64),
)
    requires
        call_ensures(apply_alloc_cursor, (m, state), cursor),
        call_ensures(staged_target, (m, carried, free_list, next, journal), t),
        call_ensures(encode_journal_id, (id,), fields),
    ensures
        cursor >= m.next_page_id_at_target && cursor >= state.next_page_id,
        cursor == m.next_page_id_at_target || cursor == state.next_page_id,
        t.commit_id == m.target_commit,
        t.root_page_id == m.target_active_root_page_id,
        t.catalog_root_page_id == m.target_catalog_root_page_id,
        t.next_page_id == next,
        t.free_list_root_page_id == free_list,
        t.history_root_page_id == carried.root_page_id,
        t.history_root_version == carried.root_version,
        t.history_count == carried.entry_count,
        t.journal_id == journal,
        fields.0 == eight_up(id@.subrange(0, 8)),
        fields.1 == eight_up(id@.subrange(8, 16)),
{
    law_root_ref_round_trip(fields.0, fields.1);
    law_eight_bytes_up(id@.subrange(0, 8));
    law_eight_bytes_up(id@.subrange(8, 16));
}

/// A store reopened from the header of an apply stands at the target, with what was
/// carried over and the journal pending.
pub proof fn law_apply_survives_a_reopen(
    db: &Db,
    t: &StagedTarget,
    anchor: u64,
    f: MainDbHeaderFields,
    state: WriterState,
)
    requires
        call_ensures(
            Db::apply_header_fields,
            (db, t, anchor),
            Ok::<MainDbHeaderFields, PagedbError>(f),
        ),
        call_ensures(writer_from_header, (&f,), state),
    ensures
        f.seq == db.header_cursor.seq + 1 && f.counter_anchor == anchor,
        f.file_id == db.file_id && f.kek_salt == db.kek_salt && f.mk_epoch == db.mk_epoch,
        f.realm_id == db.realm_id && f.format_version == 1 && f.flags == 0,
        state.latest_commit_id == t.commit_id,
        state.root_page_id == t.root_page_id,
        state.next_page_id == t.next_page_id,
        state.catalog_root_page_id == t.catalog_root_page_id,
        state.catalog_root_txn_id == t.commit_id,
        state.free_list_root_page_id == t.free_list_root_page_id,
        state.commit_history_root_page_id == t.history_root_page_id,
        state.commit_history_root_version == t.history_root_version,
        state.pending_apply_journal_id@ == t.journal_id@,
        state.restore_mode == db.writer.restore_mode,
        state.commit_retain_policy_tag == db.writer.commit_retain_policy_tag,
        state.commit_retain_policy_value == db.writer.commit_retain_policy_value,
{
    law_root_ref_round_trip(t.catalog_root_page_id, t.commit_id);
    law_root_ref_round_trip(t.free_list_root_page_id, 0);
}

/// A target takes force all at once: until the image is renamed and the rename is
/// durable the writer stays where it was; from then on it is at the target. Readers
/// see the target only where everything is done and no segment is left to reconcile;
/// what did not get there poisons the handle.
pub proof fn law_target_is_installed(
    db: &mut Db,
    t: &StagedTarget,
    has_actions: bool,
    swap: SwapOutcome,
    r: Result<ApplyTail>,
)
    requires
        old(db).poisoned_commit is None,
        call_ensures(Db::install_target, (db, t, has_actions, swap), r),
    ensures
        r is Ok <==> swap.renamed && swap.directory_synced && swap.anchored,
        r is Ok ==> (r->Ok_0 is ReconcileJournal <==> has_actions),
        r is Err ==> {
            &&& r->Err_0 == (PagedbError::DurablyCommittedButUnpublished {
                commit: CommitId(t.commit_id),
            })
            &&& final(db).poisoned_commit == Some(CommitId(t.commit_id))
        },
        r is Ok ==> final(db).poisoned_commit is None,
        !(swap.renamed && swap.directory_synced) ==> final(db).writer == old(db).writer && final(db).header_cursor == old(db).header_cursor,
        swap.renamed && swap.directory_synced ==> {
            &&& final(db).writer.latest_commit_id == t.commit_id
            &&& final(db).writer.root_page_id == t.root_page_id
            &&& final(db).writer.catalog_root_page_id == t.catalog_root_page_id
            &&& final(db).writer.catalog_root_txn_id == t.commit_id
            &&& final(db).writer.next_page_id == t.next_page_id
            &&& final(db).writer.free_list_root_page_id == t.free_list_root_page_id
            &&& final(db).writer.commit_history_root_page_id == t.history_root_page_id
            &&& final(db).writer.commit_history_root_version == t.history_root_version
            &&& final(db).writer.commit_history_count == t.history_count
            &&& final(db).writer.pending_apply_journal_id == t.journal_id
            &&& final(db).header_cursor.slot == swap.slot
            &&& final(db).header_cursor.seq == swap.seq
        },
        r is Ok && !has_actions ==> {
            &&& final(db).snapshot.commit_id == t.commit_id
            &&& final(db).snapshot.root_page_id == t.root_page_id
            &&& final(db).snapshot.catalog_root_page_id == t.catalog_root_page_id
            &&& final(db).snapshot.next_page_id == t.next_page_id
            &&& final(db).snapshot.free_list_root_page_id == t.free_list_root_page_id
            &&& final(db).snapshot.commit_history_root_page_id == t.history_root_page_id
        },
        r is Err || has_actions ==> final(db).snapshot == old(db).snapshot,
        final(db).tracked_readers == old(db).tracked_readers,
{
}

/// The directory of the main file is what stands before its last slash, and the root
/// where that is nothing.
pub proof fn law_parent_directory(db: &Db, dir: &str, i: int)
    requires
        call_ensures(Db::main_db_parent_dir, (db,), dir),
    ensures
        0 < i < db.main_db_path@.len() && db.main_db_path@[i] == '/' && (forall|j: int|
            i < j < db.main_db_path@.len() ==> #[trigger] db.main_db_path@[j] != '/') ==> dir@
            == db.main_db_path@.take(i),
        (forall|j: int|
            0 < j < db.main_db_path@.len() ==> #[trigger] db.main_db_path@[j] != '/') ==> dir@
            == seq!['/'],
{
    lemma_last_slash(db.main_db_path@);
    let path = db.main_db_path@;
    let at = last_slash(path);
    if 0 < i < path.len() && path[i] == '/' && (forall|j: int|
        i < j < path.len() ==> #[trigger] path[j] != '/') {
        if at > i {
            assert(path[at] != '/');
        }
    }
    if forall|j: int| 0 < j < path.len() ==> #[trigger] path[j] != '/' {
        if at > 0 {
            assert(path[at] != '/');
        }
    }
}

proof fn lemma_last_slash(path: Seq<char>)
    ensures
        -1 <= last_slash(path) < path.len(),
        last_slash(path) >= 0 ==> path[last_slash(path)] == '/',
        forall|j: int| last_slash(path) < j < path.len() ==> #[trigger] path[j] != '/',
    decreases path.len(),
{
    if path.len() > 0 && path.last() != '/' {
        lemma_last_slash(path.drop_last());
        assert forall|j: int| last_slash(path) < j < path.len() implies #[trigger] path[j]
            != '/' by {
            if j < path.len() - 1 {
                assert(path.drop_last()[j] == path[j]);
            }
        }
    }
}

/// A destination is claimed where it holds nothing or is not there; who made it is
/// remembered. Anything in it, and any other failure to look, refuses it.
pub proof fn law_destination_is_claimed(
    listed: core::result::Result<bool, IoKind>,
    r: Result<DestinationOwnership>,
)
    requires
        call_ensures(claim_empty_destination, (listed,), r),
    ensures
        listed == Ok::<bool, IoKind>(true) ==> r == Err::<DestinationOwnership, PagedbError>(
            PagedbError::Io(IoKind::AlreadyExists),
        ),
        listed == Ok::<bool, IoKind>(false) ==> r == Ok::<DestinationOwnership, PagedbError>(
            DestinationOwnership::PreExisting,
        ),
        listed == Err::<bool, IoKind>(IoKind::NotFound) ==> r == Ok::<
            DestinationOwnership,
            PagedbError,
        >(DestinationOwnership::Created),
        listed is Err && !(listed->Err_0 is NotFound) ==> r == Err::<
            DestinationOwnership,
            PagedbError,
        >(PagedbError::Io(listed->Err_0)),
{
}

/// The segment files of a snapshot are as many as it declares, and each has the name
/// of a segment. A missing directory stands for none, and only where none is
/// declared. Only a full snapshot is restored.
pub proof fn law_snapshot_files_are_screened(
    names: &Vec<Option<[u8; 16]>>,
    declared: u32,
    r: Result<()>,
    kind: IoKind,
    may: bool,
    m: &SnapshotManifest,
    checked: Result<()>,
)
    requires
        call_ensures(screen_snapshot_segments, (names, declared), r),
        call_ensures(segment_directory_may_be_missing, (kind, declared), may),
        call_ensures(check_restore_kind, (m,), checked),
    ensures
        r is Ok ==> names@.len() == declared && forall|i: int|
            0 <= i < names@.len() ==> (#[trigger] names@[i]) is Some,
        names@.len() == declared && (forall|i: int|
            0 <= i < names@.len() ==> (#[trigger] names@[i]) is Some) ==> r is Ok,
        r is Err ==> r->Err_0 is SnapshotArtifactInvalid,
        may <==> kind is NotFound && declared == 0,
        checked is Ok <==> m.kind == 0,
        m.kind != 0 ==> checked->Err_0 == (PagedbError::SnapshotIncompatible { field: "kind" }),
{
}

/// A restored copy is accepted where it stands at the manifest's commit, cursor and
/// roots, its trees could be walked, its files are its segments, as many as the
/// manifest says, and all of them could be read. Otherwise the first of these that
/// fails is said.
pub proof fn law_restored_copy_is_checked(m: &SnapshotManifest, copy: RestoredCopy, r: Result<()>)
    requires
        call_ensures(validate_restored_snapshot, (m, copy), r),
    ensures
        r is Ok ==> {
            &&& copy.snapshot.commit_id == m.target_commit
            &&& copy.snapshot.next_page_id == m.next_page_id_at_target
            &&& copy.snapshot.root_page_id == m.target_active_root_page_id
            &&& copy.snapshot.catalog_root_page_id == m.target_catalog_root_page_id
            &&& copy.walked is Ok && copy.segments is Ok && copy.files is Ok
            &&& copy.read_through is Ok
            &&& forall|i: int|
                0 <= i < copy.files->Ok_0@.len() ==> (#[trigger] copy.files->Ok_0@[i]) is Some
            &&& forall|id: [u8; 16]|
                copy.files->Ok_0@.contains(Some(id)) <==> #[trigger] ids_of(
                    copy.segments->Ok_0@,
                ).contains(id)
        },
        copy.snapshot.commit_id != m.target_commit ==> r == Err::<(), PagedbError>(
            PagedbError::SnapshotIncompatible { field: "target_commit" },
        ),
        copy.snapshot.commit_id == m.target_commit && copy.snapshot.next_page_id
            != m.next_page_id_at_target ==> r == Err::<(), PagedbError>(
            PagedbError::SnapshotIncompatible { field: "next_page_id_at_target" },
        ),
        copy.snapshot.commit_id == m.target_commit && copy.snapshot.next_page_id
            == m.next_page_id_at_target && copy.snapshot.root_page_id
            != m.target_active_root_page_id ==> r == Err::<(), PagedbError>(
            PagedbError::SnapshotIncompatible { field: "target_active_root_page_id" },
        ),
{
    if r is Ok {
        assert forall|id: [u8; 16]|
            copy.files->Ok_0@.contains(Some(id)) <==> #[trigger] ids_of(
                copy.segments->Ok_0@,
            ).contains(id) by {
            assert(spelled_ids(copy.files->Ok_0@).contains(id) <==> copy.files->Ok_0@.contains(
                Some(id),
            ));
        }
    }
}

/// When a plan is owed: the delta holds exactly what the target reaches and the base
/// does not, as many segments are new as the manifest says, and those that are gone can
/// be counted. Another number of new segments is refused.
pub proof fn law_apply_plan_is_owed(
    m: &SnapshotManifest,
    delta: &PageSet,
    target: &PageSet,
    base: &PageSet,
    target_segments: &Vec<SegmentMeta>,
    base_segments: &SegmentSet,
    r: Result<ApplyPlan>,
    named: SegmentSet,
    fresh: SegmentSet,
    gone: SegmentSet,
)
    requires
        call_ensures(plan_apply, (m, delta, target, base, target_segments, base_segments), r),
        call_ensures(segment_ids, (target_segments,), named),
        call_ensures(SegmentSet::difference, (&named, base_segments), fresh),
        call_ensures(SegmentSet::difference, (base_segments, &named), gone),
    ensures
        ({
            let exact = forall|p: u64| #[trigger]
                delta@.contains(p) <==> target@.contains(p) && !base@.contains(p);
            &&& r is Ok <==> exact && fresh.list().len() == m.segments_count && gone.list().len()
                <= u32::MAX
            &&& !exact ==> r == Err::<ApplyPlan, PagedbError>(
                PagedbError::SnapshotArtifactInvalid { field: "pages.delta.reachability" },
            )
            &&& exact && fresh.list().len() != m.segments_count ==> r == Err::<
                ApplyPlan,
                PagedbError,
            >(PagedbError::SnapshotArtifactInvalid { field: "segments_count" })
            &&& r is Ok ==> r->Ok_0.segments_tombstoned == gone.list().len()
        }),
{
    lemma_listed_len(fresh);
    lemma_listed_len(gone);
    if r is Ok {
        lemma_listed_len(r->Ok_0.tombstoned);
    }
    if forall|p: u64| #[trigger]
        delta@.contains(p) <==> target@.contains(p) && !base@.contains(p) {
        assert(delta@ =~= target@.difference(base@));
    }
}

} // verus!
