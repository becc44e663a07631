//! Laws of segments: how they are linked, counted against their quotas, listed,
//! promoted and retired, and of the pins that readers leave in the catalog.

use vstd::prelude::*;
use vstd::string::StringSliceAdditionalSpecFns;

use crate::catalog::{CatalogValue, RealmQuotas, SegmentMeta};
use crate::codec::be_value;
use crate::db::handle::{Db, PendingTombstone, SegmentReconciliation};
use crate::db::pins::{
    cleanup_stale_reader_pins, delete_pin_rows, fresh_rows, holds_commit, insert_pin_row, is_stale,
    law_min_pin_protects_every_pin, min_durable_reader_commit, min_pinned, without_pins,
};
use crate::db::segment::{
    collect_segments, effect_target, law_pin_scan_is_exact, law_settle_loses_no_tombstone,
    lists_prefix, metas_of, names_segment, reclaimed_bytes, reclaimed_count,
    reconcile_journal_actions, settled, DrainOutcome, EffectEvent, EffectStep, EffectTarget,
    JournalAction, ReconcileStep,
};
use crate::errors::{CorruptionDetail, IoKind, PagedbError, QuotaKind, Result};
use crate::ids::RealmId;
use crate::order::{has_prefix, lemma_lex_common_prefix, lemma_prefix_le, lemma_prefix_run, lex_lt};
use crate::read::ReadTxn;
use crate::tree::{
    ascending, has_key, lemma_slot_exists, lemma_with_row, lemma_without_row, lookup, slot_of_key,
    BTree,
};
use crate::write::segments::{
    committed_segment_bytes, in_realm, quotas_of, realm_bytes, realm_end, realm_start,
};
use crate::write::txn::{SegmentSideEffect, WriteTxn};

use super::store::lemma_one_byte_prefix;

verus! {

/// A promotion looks for the live file, then for the staged one, and renames it; a
/// segment that is in neither place is lost. A retirement looks for the parked file,
/// then for the live one, parks it and removes it; one that is in neither place is
/// gone already.
pub proof fn law_effect_steps(
    id: [u8; 16],
    begun: EffectStep,
    live: Option<Result<EffectStep>>,
    not_live: Option<Result<EffectStep>>,
    staged: Option<Result<EffectStep>>,
    lost: Option<Result<EffectStep>>,
    renamed: Option<Result<EffectStep>>,
    parked: Option<Result<EffectStep>>,
    not_parked: Option<Result<EffectStep>>,
    to_park: Option<Result<EffectStep>>,
    gone: Option<Result<EffectStep>>,
    put: Option<Result<EffectStep>>,
    removed: Option<Result<EffectStep>>,
)
    requires
        call_ensures(Db::promote_segment, (), begun),
        call_ensures(
            Db::advance_effect,
            (id, EffectStep::ProbePromoted, EffectEvent::Present),
            live,
        ),
        call_ensures(
            Db::advance_effect,
            (id, EffectStep::ProbePromoted, EffectEvent::Absent),
            not_live,
        ),
        call_ensures(
            Db::advance_effect,
            (id, EffectStep::ProbeStaging, EffectEvent::Present),
            staged,
        ),
        call_ensures(
            Db::advance_effect,
            (id, EffectStep::ProbeStaging, EffectEvent::Absent),
            lost,
        ),
        call_ensures(
            Db::advance_effect,
            (id, EffectStep::RenameStaging, EffectEvent::Finished),
            renamed,
        ),
        call_ensures(
            Db::advance_effect,
            (id, EffectStep::ProbeParked, EffectEvent::Present),
            parked,
        ),
        call_ensures(
            Db::advance_effect,
            (id, EffectStep::ProbeParked, EffectEvent::Absent),
            not_parked,
        ),
        call_ensures(
            Db::advance_effect,
            (id, EffectStep::ProbeLive, EffectEvent::Present),
            to_park,
        ),
        call_ensures(
            Db::advance_effect,
            (id, EffectStep::ProbeLive, EffectEvent::Absent),
            gone,
        ),
        call_ensures(
            Db::advance_effect,
            (id, EffectStep::ParkLive, EffectEvent::Finished),
            put,
        ),
        call_ensures(
            Db::advance_effect,
            (id, EffectStep::RemoveParked, EffectEvent::Finished),
            removed,
        ),
    ensures
        ({
            let done = Some(
                Ok::<EffectStep, PagedbError>(EffectStep::Done(SegmentReconciliation::Complete)),
            );
            &&& begun is ProbePromoted
            &&& live == done
            &&& not_live == Some(Ok::<EffectStep, PagedbError>(EffectStep::ProbeStaging))
            &&& staged == Some(Ok::<EffectStep, PagedbError>(EffectStep::RenameStaging))
            &&& lost == Some(
                Err::<EffectStep, PagedbError>(
                    PagedbError::Corruption(CorruptionDetail::StagingMissing { segment_id: id }),
                ),
            )
            &&& renamed == done
            &&& parked == Some(Ok::<EffectStep, PagedbError>(EffectStep::RemoveParked))
            &&& not_parked == Some(Ok::<EffectStep, PagedbError>(EffectStep::ProbeLive))
            &&& to_park == Some(Ok::<EffectStep, PagedbError>(EffectStep::ParkLive))
            &&& gone == done
            &&& put == Some(Ok::<EffectStep, PagedbError>(EffectStep::RemoveParked))
            &&& removed == done
        }),
{
}

/// A segment that a reader pins is not retired: its tombstone is queued, once, and
/// the effect is put off. One that nobody pins is looked for where it is parked, and
/// nothing changes.
pub proof fn law_pinned_segment_is_put_off(
    db: &mut Db,
    id: [u8; 16],
    commit: u64,
    pinned: bool,
    step: EffectStep,
    entry: PendingTombstone,
)
    requires
        call_ensures(Db::tombstone_segment, (db, id, commit, pinned), step),
    ensures
        pinned ==> step == EffectStep::Done(SegmentReconciliation::Deferred),
        !pinned ==> step is ProbeParked && *final(db) == *old(db),
        pinned ==> (final(db).pending_tombstones@.contains(entry) <==> old(db).pending_tombstones@.contains(entry) || entry == (PendingTombstone {
            segment_id: id,
            commit_id: commit,
        })),
        old(db).pending_tombstones@.no_duplicates() ==> final(db).pending_tombstones@.no_duplicates(),
        *final(db) == (Db { pending_tombstones: final(db).pending_tombstones, ..*old(db) }),
{
    lemma_queued(
        old(db).pending_tombstones@,
        PendingTombstone { segment_id: id, commit_id: commit },
        entry,
    );
}

proof fn lemma_queued(
    queue: Seq<PendingTombstone>,
    added: PendingTombstone,
    entry: PendingTombstone,
)
    ensures
        crate::db::segment::enqueued(queue, added).contains(entry) <==> queue.contains(entry)
            || entry == added,
        queue.no_duplicates() ==> crate::db::segment::enqueued(queue, added).no_duplicates(),
{
    let after = queue.push(added);
    if !queue.contains(added) {
        assert(after[queue.len() as int] == added);
        if queue.contains(entry) {
            let i = choose|i: int| 0 <= i < queue.len() && queue[i] == entry;
            assert(after[i] == entry);
        }
        if after.contains(entry) {
            let i = choose|i: int| 0 <= i < after.len() && after[i] == entry;
            if i < queue.len() {
                assert(queue[i] == entry);
            }
        }
        if queue.no_duplicates() {
            assert forall|i: int, j: int|
                0 <= i < after.len() && 0 <= j < after.len() && i != j implies after[i]
                != after[j] by {
                if i == queue.len() {
                    assert(queue[j] == after[j]);
                } else if j == queue.len() {
                    assert(queue[i] == after[i]);
                }
            }
        }
    }
}

/// A queue of tombstones takes each once, hands out its first ones up to a limit and
/// keeps the rest.
pub proof fn law_tombstone_queue(
    db: &mut Db,
    added: PendingTombstone,
    unit: (),
    taken: &mut Db,
    limit: usize,
    batch: Vec<PendingTombstone>,
    entry: PendingTombstone,
)
    requires
        call_ensures(Db::enqueue_pending_tombstone, (db, added), unit),
        call_ensures(Db::take_pending_tombstones, (taken, limit), batch),
    ensures
        final(db).pending_tombstones@.contains(entry) <==> old(db).pending_tombstones@.contains(
            entry,
        ) || entry == added,
        old(db).pending_tombstones@.no_duplicates() ==> final(db).pending_tombstones@.no_duplicates(),
        batch@ + final(taken).pending_tombstones@ == old(taken).pending_tombstones@,
        batch@.len() <= limit,
        batch@.len() == limit || final(taken).pending_tombstones@.len() == 0,
{
    lemma_queued(old(db).pending_tombstones@, added, entry);
    let queue = old(taken).pending_tombstones@;
    let n = if queue.len() < limit {
        queue.len() as int
    } else {
        limit as int
    };
    assert(queue.take(n) + queue.skip(n) =~= queue);
}

/// A batch that was attempted loses nothing: what is pinned, what failed and what was
/// not reached is queued again, what is gone or reclaimed is not, and the reclaimed
/// ones are counted with their bytes.
pub proof fn law_tombstone_batch_is_settled(
    db: &mut Db,
    batch: &Vec<PendingTombstone>,
    outcomes: &Vec<DrainOutcome>,
    reclaimed: (u64, u64),
    k: int,
)
    requires
        outcomes@.len() <= batch@.len(),
        call_ensures(Db::settle_tombstone_batch, (db, batch, outcomes), reclaimed),
        0 <= k < batch@.len(),
    ensures
        k >= outcomes@.len() || outcomes@[k] is Pinned || outcomes@[k] is Failed ==> final(db).pending_tombstones@.contains(batch@[k]),
        forall|x: PendingTombstone|
            old(db).pending_tombstones@.contains(x) ==> #[trigger] final(db).pending_tombstones@.contains(x),
        reclaimed.0 == outcomes@.filter(|o: DrainOutcome| o is Reclaimed).len(),
        outcomes@.len() > 0 && (forall|i: int|
            0 <= i < outcomes@.len() ==> !((#[trigger] outcomes@[i]) is Reclaimed)) ==> reclaimed.1
            == 0,
        0 <= k < outcomes@.len() && outcomes@[k] is Reclaimed ==> reclaimed.1
            >= outcomes@[k]->Reclaimed_0,
        outcomes@.len() == 1 && outcomes@[0] is Reclaimed ==> reclaimed.1
            == outcomes@[0]->Reclaimed_0,
        (forall|i: int|
            0 <= i < outcomes@.len() ==> (#[trigger] outcomes@[i]) is Gone || outcomes@[i]
                is Reclaimed) && outcomes@.len() == batch@.len() ==> final(db).pending_tombstones@
            == old(db).pending_tombstones@,
{
    law_settle_loses_no_tombstone(old(db).pending_tombstones@, batch@, outcomes@);
    let b = batch@[k];
    lemma_reclaimed(outcomes@, k);
    if (forall|i: int|
        0 <= i < outcomes@.len() ==> (#[trigger] outcomes@[i]) is Gone || outcomes@[i]
            is Reclaimed) && outcomes@.len() == batch@.len() {
        lemma_all_settled(old(db).pending_tombstones@, batch@, outcomes@);
    }
}

proof fn lemma_all_settled(
    queue: Seq<PendingTombstone>,
    batch: Seq<PendingTombstone>,
    outcomes: Seq<DrainOutcome>,
)
    requires
        outcomes.len() == batch.len(),
        forall|i: int|
            0 <= i < outcomes.len() ==> (#[trigger] outcomes[i]) is Gone || outcomes[i]
                is Reclaimed,
    ensures
        settled(queue, batch, outcomes) == queue,
    decreases batch.len(),
{
    if batch.len() > 0 {
        let rest = outcomes.drop_first();
        assert(outcomes[0] is Gone || outcomes[0] is Reclaimed);
        assert forall|i: int| 0 <= i < rest.len() implies (#[trigger] rest[i]) is Gone || rest[i]
            is Reclaimed by {
            assert(rest[i] == outcomes[i + 1]);
        }
        lemma_all_settled(queue, batch.drop_first(), rest);
    }
}

proof fn lemma_reclaimed(outcomes: Seq<DrainOutcome>, k: int)
    ensures
        reclaimed_count(outcomes) == outcomes.filter(|o: DrainOutcome| o is Reclaimed).len(),
        (forall|i: int| 0 <= i < outcomes.len() ==> !((#[trigger] outcomes[i]) is Reclaimed))
            ==> reclaimed_bytes(outcomes) == 0,
        0 <= k < outcomes.len() && outcomes[k] is Reclaimed ==> reclaimed_bytes(outcomes)
            >= outcomes[k]->Reclaimed_0,
        outcomes.len() == 1 && outcomes[0] is Reclaimed ==> reclaimed_bytes(outcomes)
            == outcomes[0]->Reclaimed_0,
    decreases outcomes.len(),
{
    reveal(Seq::filter);
    if outcomes.len() > 0 {
        let rest = outcomes.drop_last();
        lemma_reclaimed(rest, k);
        assert forall|i: int| 0 <= i < rest.len() implies #[trigger] rest[i] == outcomes[i] by {}
        if forall|i: int| 0 <= i < outcomes.len() ==> !((#[trigger] outcomes[i]) is Reclaimed) {
            assert(!(outcomes[outcomes.len() - 1] is Reclaimed));
            assert forall|i: int| 0 <= i < rest.len() implies !((#[trigger] rest[i])
                is Reclaimed) by {
                assert(rest[i] == outcomes[i]);
            }
        }
        if 0 <= k < rest.len() {
            assert(rest[k] == outcomes[k]);
        }
        if outcomes.len() == 1 {
            assert(reclaimed_bytes(rest) == 0);
        }
    }
}

/// Effects are put off where one of them is. A set that failed is tried once more,
/// and then its result stands. A file that is not there has no length.
pub proof fn law_effects_are_reconciled(
    outcomes: &Vec<SegmentReconciliation>,
    all: SegmentReconciliation,
    retried: bool,
    outcome: Result<SegmentReconciliation>,
    step: ReconcileStep,
    measured: Result<u64>,
    len: Result<Option<u64>>,
)
    requires
        call_ensures(Db::apply_segment_effects, (outcomes,), all),
        call_ensures(Db::reconcile_segment_effects, (retried, outcome), step),
        call_ensures(Db::live_segment_len, (measured,), len),
    ensures
        all is Deferred <==> exists|i: int|
            0 <= i < outcomes@.len() && (#[trigger] outcomes@[i]) is Deferred,
        step is Retry <==> outcome is Err && !retried,
        step is Finished ==> step->Finished_0 == outcome,
        measured is Ok ==> len == Ok::<Option<u64>, PagedbError>(Some(measured->Ok_0)),
        measured == Err::<u64, PagedbError>(PagedbError::Io(IoKind::NotFound)) ==> len == Ok::<
            Option<u64>,
            PagedbError,
        >(None),
        measured is Err && measured->Err_0 != PagedbError::Io(IoKind::NotFound) ==> len == Err::<
            Option<u64>,
            PagedbError,
        >(measured->Err_0),
{
    if exists|i: int| 0 <= i < outcomes@.len() && (#[trigger] outcomes@[i]) is Deferred {
        let i = choose|i: int| 0 <= i < outcomes@.len() && (#[trigger] outcomes@[i]) is Deferred;
        assert(outcomes@[i] == SegmentReconciliation::Deferred);
    }
}

/// What a session leaves to be done to a segment is done under its own commit, or
/// under the one that it names; what a journal names is what was planned.
pub proof fn law_effect_targets(
    id: [u8; 16],
    commit: u64,
    own: u64,
    promote: EffectTarget,
    retire: EffectTarget,
    retire_own: EffectTarget,
    actions: &Vec<JournalAction>,
    effects: Vec<SegmentSideEffect>,
    i: int,
)
    requires
        call_ensures(
            effect_target,
            (SegmentSideEffect::Promote { segment_id: id }, commit),
            promote,
        ),
        call_ensures(
            effect_target,
            (
                SegmentSideEffect::Tombstone { segment_id: id, tombstone_commit_id: None },
                commit,
            ),
            retire,
        ),
        call_ensures(
            effect_target,
            (
                SegmentSideEffect::Tombstone { segment_id: id, tombstone_commit_id: Some(own) },
                commit,
            ),
            retire_own,
        ),
        call_ensures(reconcile_journal_actions, (actions,), effects),
        0 <= i < actions@.len(),
    ensures
        promote == (EffectTarget::Promote { segment_id: id }),
        retire == (EffectTarget::Retire { segment_id: id, commit_id: commit }),
        retire_own == (EffectTarget::Retire { segment_id: id, commit_id: own }),
        effects@.len() == actions@.len(),
        actions@[i] is Promote ==> effects@[i] == (SegmentSideEffect::Promote {
            segment_id: actions@[i]->Promote_segment_id,
        }),
        actions@[i] is Tombstone ==> effects@[i] == (SegmentSideEffect::Tombstone {
            segment_id: actions@[i]->Tombstone_segment_id,
            tombstone_commit_id: Some(actions@[i]->tombstone_commit_id),
        }),
{
}

/// A segment is pinned where the catalog of some reader names it, and only there.
pub proof fn law_segment_is_pinned_by_its_readers(
    db: &Db,
    id: &[u8; 16],
    catalogs: &Vec<BTree<CatalogValue>>,
    r: Result<bool>,
    i: int,
    j: int,
)
    requires
        catalogs@.len() == db.tracked_readers@.len(),
        call_ensures(Db::segment_id_is_reader_pinned, (db, id, catalogs), r),
    ensures
        r == Ok::<bool, PagedbError>(true) ==> exists|k: int|
            0 <= k < db.tracked_readers@.len() && (
            #[trigger] db.tracked_readers@[k]).catalog_root_page_id != 0 && names_segment(
                catalogs@[k]@,
                *id,
            ),
        r == Ok::<bool, PagedbError>(false) && 0 <= i < db.tracked_readers@.len()
            && db.tracked_readers@[i].catalog_root_page_id != 0 && 0 <= j < catalogs@[i]@.len()
            && catalogs@[i]@[j].0.len() > 0 && catalogs@[i]@[j].0[0] == 1 && catalogs@[i]@[j].1
            is Segment ==> catalogs@[i]@[j].1->Segment_0.segment_id != *id,
        r is Err ==> r->Err_0 is Corruption,
{
    law_pin_scan_is_exact(db.tracked_readers@, catalogs@, *id);
    if 0 <= i < db.tracked_readers@.len() && 0 <= j < catalogs@[i]@.len() {
        let reader = db.tracked_readers@[i];
        let row = catalogs@[i]@[j];
        lemma_one_byte_prefix(row.0, 1);
    }
}

/// Whether a key is a segment's of a realm: 1, the realm, and a name that does not
/// begin with the byte 255.
pub open spec fn is_of_realm(realm: RealmId, key: Seq<u8>) -> bool {
    &&& key.len() >= 17
    &&& key[0] == 1
    &&& key.subrange(1, 17) == realm.0@
    &&& key.len() == 17 || key[17] < 255
}

proof fn lemma_of_realm(realm: RealmId, key: Seq<u8>)
    ensures
        in_realm(realm, key) <==> is_of_realm(realm, key),
{
    let start = realm_start(realm);
    let end = realm_end(realm);
    let ff = seq![0xFFu8];
    reveal_with_fuel(lex_lt, 2);
    assert(end =~= start + ff);
    assert(end.subrange(0, start.len() as int) =~= start);
    assert(seq![1u8][0] == 1u8);
    if key.len() >= 17 {
        assert(key.subrange(0, 17) =~= seq![key[0]] + key.subrange(1, 17));
        assert(start.subrange(1, 17) =~= realm.0@);
        if key[0] == 1 && key.subrange(1, 17) == realm.0@ {
            assert(key.subrange(0, 17) =~= start);
        }
    }
    if has_prefix(key, start) {
        let rest = key.subrange(17, key.len() as int);
        assert(key =~= start + rest);
        lemma_lex_common_prefix(start, rest, ff);
        lemma_prefix_le(key, start);
        assert(start[0] == 1u8);
        assert(key.subrange(0, 17)[0] == key[0]);
        assert(key.subrange(1, 17) =~= key.subrange(0, 17).subrange(1, 17));
        if rest.len() > 0 {
            assert(rest[0] == key[17]);
        }
    }
    if in_realm(realm, key) {
        lemma_prefix_run(key, end, start);
    }
}

/// The bytes of a realm's segments in a catalog.
pub open spec fn bytes_of_realm(rows: Seq<(Seq<u8>, CatalogValue)>, realm: RealmId) -> int
    decreases rows.len(),
{
    if rows.len() == 0 {
        0
    } else {
        bytes_of_realm(rows.drop_last(), realm) + if is_of_realm(realm, rows.last().0) {
            rows.last().1->Segment_0.total_bytes as int
        } else {
            0
        }
    }
}

proof fn lemma_bytes_of_realm(rows: Seq<(Seq<u8>, CatalogValue)>, realm: RealmId)
    ensures
        realm_bytes(rows, realm) is Some <==> forall|j: int|
            #![trigger rows[j]]
            0 <= j < rows.len() && is_of_realm(realm, rows[j].0) ==> rows[j].1 is Segment,
        realm_bytes(rows, realm) is Some ==> bytes_of_realm(rows, realm) >= 0 && realm_bytes(
            rows,
            realm,
        )->0 == if bytes_of_realm(rows, realm) <= u64::MAX {
            bytes_of_realm(rows, realm)
        } else {
            u64::MAX as int
        },
    decreases rows.len(),
{
    if rows.len() > 0 {
        let rest = rows.drop_last();
        lemma_bytes_of_realm(rest, realm);
        lemma_of_realm(realm, rows.last().0);
        assert forall|j: int| #![trigger rest[j]] 0 <= j < rest.len() implies rest[j]
            == rows[j] by {}
        let last = rows[rows.len() - 1];
        if realm_bytes(rows, realm) is Some {
            assert forall|j: int|
                #![trigger rows[j]]
                0 <= j < rows.len() && is_of_realm(realm, rows[j].0) implies rows[j].1
                is Segment by {
                if j < rest.len() {
                    assert(rest[j] == rows[j]);
                }
            }
        } else if forall|j: int|
            #![trigger rows[j]]
            0 <= j < rows.len() && is_of_realm(realm, rows[j].0) ==> rows[j].1 is Segment {
            assert forall|j: int|
                #![trigger rest[j]]
                0 <= j < rest.len() && is_of_realm(realm, rest[j].0) implies rest[j].1
                is Segment by {
                assert(rest[j] == rows[j]);
            }
        }
    }
}

/// The bytes that a realm has are those of its segments, added up, and at most the
/// greatest number there is. A row of the realm that is no segment is refused.
pub proof fn law_realm_bytes_are_added_up(
    catalog: &BTree<CatalogValue>,
    realm: RealmId,
    r: Result<u64>,
)
    requires
        call_ensures(committed_segment_bytes, (catalog, realm), r),
    ensures
        r is Ok <==> forall|j: int|
            #![trigger catalog@[j]]
            0 <= j < catalog@.len() && is_of_realm(realm, catalog@[j].0) ==> catalog@[j].1
                is Segment,
        r is Err ==> r->Err_0 is Corruption,
        r is Ok && bytes_of_realm(catalog@, realm) <= u64::MAX ==> r->Ok_0 == bytes_of_realm(
            catalog@,
            realm,
        ),
        r is Ok && bytes_of_realm(catalog@, realm) > u64::MAX ==> r->Ok_0 == u64::MAX,
{
    lemma_bytes_of_realm(catalog@, realm);
}

/// The quotas of a realm are what its quota row holds, and no cap without a row; a
/// session and the handle read the same. What is set is what is read back.
pub proof fn law_quotas_are_read(
    db: &Db,
    catalog: &BTree<CatalogValue>,
    realm: RealmId,
    quotas: Result<RealmQuotas>,
    published: Result<RealmQuotas>,
)
    requires
        db.poisoned_commit is None,
        call_ensures(quotas_of, (catalog, realm), quotas),
        call_ensures(Db::realm_quotas, (db, catalog, realm), published),
    ensures
        published == quotas,
        quotas == match lookup(catalog@, seq![7u8] + realm.0@) {
            None => Ok::<RealmQuotas, PagedbError>(
                RealmQuotas { max_pages: None, max_segment_bytes: None },
            ),
            Some(CatalogValue::Quotas(q)) => Ok::<RealmQuotas, PagedbError>(q),
            Some(_) => Err::<RealmQuotas, PagedbError>(PagedbError::row_invalid("quota.value")),
        },
{
}

/// Quotas that are set are the realm's from then on, and no other row changes. A
/// poisoned handle sets none.
pub proof fn law_quotas_are_set(
    db: &Db,
    catalog: &mut BTree<CatalogValue>,
    realm: RealmId,
    quotas: RealmQuotas,
    r: Result<()>,
    after: &BTree<CatalogValue>,
    read: Result<RealmQuotas>,
    key: Seq<u8>,
)
    requires
        old(catalog).wf(),
        call_ensures(Db::set_realm_quotas, (db, catalog, realm, quotas), r),
        after@ == final(catalog)@,
        call_ensures(quotas_of, (after, realm), read),
    ensures
        r is Ok <==> db.poisoned_commit is None,
        r is Ok ==> read == Ok::<RealmQuotas, PagedbError>(quotas),
        r is Ok && key != seq![7u8] + realm.0@ ==> lookup(final(catalog)@, key) == lookup(
            old(catalog)@,
            key,
        ),
        r is Err ==> *final(catalog) == *old(catalog),
{
    let k = seq![7u8] + realm.0@;
    lemma_slot_exists(old(catalog)@, k);
    lemma_with_row(
        old(catalog)@,
        k,
        CatalogValue::Quotas(quotas),
        slot_of_key(old(catalog)@, k),
    );
}

/// A realm's cap is held to: what it has, less what goes, with what comes. Without a
/// cap anything passes; a request past the cap is refused with what it would come to.
pub proof fn law_quota_is_enforced(
    txn: &WriteTxn,
    realm: RealmId,
    added: u64,
    removed: u64,
    r: Result<()>,
    quotas: Result<RealmQuotas>,
    committed: Result<u64>,
)
    requires
        call_ensures(
            WriteTxn::enforce_segment_bytes_quota,
            (txn, realm, added, removed),
            r,
        ),
        call_ensures(quotas_of, (&txn.catalog_tree, realm), quotas),
        call_ensures(committed_segment_bytes, (&txn.catalog_tree, realm), committed),
    ensures
        quotas is Err ==> r == Err::<(), PagedbError>(quotas->Err_0),
        quotas is Ok && quotas->Ok_0.max_segment_bytes is None ==> r is Ok,
        quotas is Ok && quotas->Ok_0.max_segment_bytes is Some && committed is Err ==> r == Err::<
            (),
            PagedbError,
        >(committed->Err_0),
        quotas is Ok && quotas->Ok_0.max_segment_bytes is Some && committed is Ok ==> {
            let limit = quotas->Ok_0.max_segment_bytes->0;
            let left: int = if committed->Ok_0 >= removed {
                committed->Ok_0 - removed
            } else {
                0
            };
            let wanted: int = if left + added <= u64::MAX {
                left + added
            } else {
                u64::MAX as int
            };
            &&& r is Ok <==> wanted <= limit
            &&& r is Err ==> r->Err_0 == (PagedbError::Quota {
                realm,
                kind: QuotaKind::SegmentBytes,
                requested: wanted as u64,
                limit,
            })
        },
{
}

/// A segment is linked under a name that is free and not too long, and where the cap
/// of its realm allows it: then the catalog names it there, and the session is to
/// promote it. What is refused changes nothing.
pub proof fn law_segment_is_linked(
    txn: &mut WriteTxn,
    name: &str,
    meta: &SegmentMeta,
    r: Result<()>,
    before: &WriteTxn,
    allowed: Result<()>,
    key: Seq<u8>,
)
    requires
        old(txn).wf(),
        call_ensures(WriteTxn::link_segment, (txn, name, meta), r),
        *before == *old(txn),
        call_ensures(
            WriteTxn::enforce_segment_bytes_quota,
            (before, meta.realm_id, meta.total_bytes, 0),
            allowed,
        ),
    ensures
        ({
            let own = seq![1u8] + old(txn).realm_id.0@ + name.spec_bytes();
            let taken = has_key(old(txn).catalog_tree@, own);
            &&& r is Ok <==> name.spec_bytes().len() <= 1024 && !taken && allowed is Ok
            &&& name.spec_bytes().len() > 1024 ==> r->Err_0 is NameTooLong
            &&& name.spec_bytes().len() <= 1024 && taken ==> r->Err_0 is AlreadyLinked
            &&& name.spec_bytes().len() <= 1024 && !taken && allowed is Err ==> r == allowed
            &&& r is Err ==> *final(txn) == *old(txn)
            &&& r is Ok ==> {
                &&& lookup(final(txn).catalog_tree@, own) == Some(CatalogValue::Segment(*meta))
                &&& key != own ==> lookup(final(txn).catalog_tree@, key) == lookup(
                    old(txn).catalog_tree@,
                    key,
                )
                &&& final(txn).pending_segments@ == old(txn).pending_segments@.push(
                    SegmentSideEffect::Promote { segment_id: meta.segment_id },
                )
                &&& final(txn).btree@ == old(txn).btree@
                &&& final(txn).btree.root() == old(txn).btree.root()
                &&& final(txn).catalog_tree.root() == old(txn).catalog_tree.root()
                &&& final(txn).btree.next() == final(txn).catalog_tree.next()
                &&& final(txn).btree.next() >= old(txn).btree.next()
                &&& final(txn).btree.next() >= old(txn).catalog_tree.next()
                &&& final(txn).realm_id == old(txn).realm_id
                &&& final(txn).txn_seq == old(txn).txn_seq
            }
        }),
{
    let own = seq![1u8] + old(txn).realm_id.0@ + name.spec_bytes();
    lemma_slot_exists(old(txn).catalog_tree@, own);
    lemma_with_row(
        old(txn).catalog_tree@,
        own,
        CatalogValue::Segment(*meta),
        slot_of_key(old(txn).catalog_tree@, own),
    );
    assert(old(txn).pending_segments@ + seq![
        SegmentSideEffect::Promote { segment_id: meta.segment_id },
    ] =~= old(txn).pending_segments@.push(
        SegmentSideEffect::Promote { segment_id: meta.segment_id },
    ));
}

/// A segment is unlinked where the name is linked: then the catalog names nothing
/// there, and the session is to retire what it named. Unlinking what was just linked
/// leaves the catalog as it was.
pub proof fn law_segment_is_unlinked(
    txn: &mut WriteTxn,
    name: &str,
    r: Result<()>,
    key: Seq<u8>,
)
    requires
        old(txn).wf(),
        call_ensures(WriteTxn::unlink_segment, (txn, name), r),
    ensures
        ({
            let own = seq![1u8] + old(txn).realm_id.0@ + name.spec_bytes();
            let row = lookup(old(txn).catalog_tree@, own);
            &&& r is Ok <==> name.spec_bytes().len() <= 1024 && row is Some && row->0 is Segment
            &&& name.spec_bytes().len() > 1024 ==> r->Err_0 is NameTooLong
            &&& name.spec_bytes().len() <= 1024 && row is None ==> r->Err_0 is NotLinked
            &&& name.spec_bytes().len() <= 1024 && row is Some && !(row->0 is Segment)
                ==> r->Err_0 is Corruption
            &&& r is Err ==> *final(txn) == *old(txn)
            &&& r is Ok ==> {
                &&& lookup(final(txn).catalog_tree@, own) is None
                &&& key != own ==> lookup(final(txn).catalog_tree@, key) == lookup(
                    old(txn).catalog_tree@,
                    key,
                )
                &&& final(txn).pending_segments@ == old(txn).pending_segments@.push(
                    SegmentSideEffect::Tombstone {
                        segment_id: row->0->Segment_0.segment_id,
                        tombstone_commit_id: None,
                    },
                )
                &&& final(txn).btree@ == old(txn).btree@
                &&& final(txn).btree.root() == old(txn).btree.root()
                &&& final(txn).catalog_tree.root() == old(txn).catalog_tree.root()
            }
        }),
{
    let own = seq![1u8] + old(txn).realm_id.0@ + name.spec_bytes();
    lemma_without_row(old(txn).catalog_tree@, own);
    if r is Ok {
        let id = lookup(old(txn).catalog_tree@, own)->0->Segment_0.segment_id;
        let effect = SegmentSideEffect::Tombstone { segment_id: id, tombstone_commit_id: None };
        assert(old(txn).pending_segments@ + seq![effect] =~= old(txn).pending_segments@.push(
            effect,
        ));
    }
}

/// A segment is replaced where the name is linked and the cap allows the new one for
/// the old one: then the catalog names the new one there, and the session is to
/// retire the old one and promote the new one.
pub proof fn law_segment_is_replaced(
    txn: &mut WriteTxn,
    name: &str,
    meta: &SegmentMeta,
    r: Result<()>,
    before: &WriteTxn,
    allowed: Result<()>,
    key: Seq<u8>,
)
    requires
        old(txn).wf(),
        call_ensures(WriteTxn::replace_segment, (txn, name, meta), r),
        *before == *old(txn),
        lookup(
            old(txn).catalog_tree@,
            seq![1u8] + old(txn).realm_id.0@ + name.spec_bytes(),
        ) matches Some(CatalogValue::Segment(m)) ==> call_ensures(
            WriteTxn::enforce_segment_bytes_quota,
            (before, meta.realm_id, meta.total_bytes, m.total_bytes),
            allowed,
        ),
    ensures
        ({
            let own = seq![1u8] + old(txn).realm_id.0@ + name.spec_bytes();
            let row = lookup(old(txn).catalog_tree@, own);
            let linked = name.spec_bytes().len() <= 1024 && row is Some && row->0 is Segment;
            &&& r is Ok <==> linked && allowed is Ok
            &&& linked && allowed is Err ==> r == allowed
            &&& name.spec_bytes().len() > 1024 ==> r->Err_0 is NameTooLong
            &&& name.spec_bytes().len() <= 1024 && row is None ==> r->Err_0 is NotLinked
            &&& r is Err ==> *final(txn) == *old(txn)
            &&& r is Ok ==> {
                &&& lookup(final(txn).catalog_tree@, own) == Some(CatalogValue::Segment(*meta))
                &&& key != own ==> lookup(final(txn).catalog_tree@, key) == lookup(
                    old(txn).catalog_tree@,
                    key,
                )
                &&& final(txn).pending_segments@.len() == old(txn).pending_segments@.len() + 2
                &&& final(txn).pending_segments@.drop_last().last()
                    == (SegmentSideEffect::Tombstone {
                    segment_id: row->0->Segment_0.segment_id,
                    tombstone_commit_id: None,
                })
                &&& final(txn).pending_segments@.last() == (SegmentSideEffect::Promote {
                    segment_id: meta.segment_id,
                })
                &&& final(txn).btree@ == old(txn).btree@
                &&& final(txn).btree.root() == old(txn).btree.root()
                &&& final(txn).catalog_tree.root() == old(txn).catalog_tree.root()
            }
        }),
{
    let own = seq![1u8] + old(txn).realm_id.0@ + name.spec_bytes();
    lemma_slot_exists(old(txn).catalog_tree@, own);
    lemma_with_row(
        old(txn).catalog_tree@,
        own,
        CatalogValue::Segment(*meta),
        slot_of_key(old(txn).catalog_tree@, own),
    );
}

/// A segment that is linked is found by its name in the published catalog, by the
/// handle and by a reader at that catalog, with its views' budget.
pub proof fn law_linked_segment_is_found(
    txn: &mut WriteTxn,
    name: &str,
    meta: &SegmentMeta,
    db: &Db,
    catalog: &BTree<CatalogValue>,
    found: Result<SegmentMeta>,
    opened: Result<(SegmentMeta, u64)>,
    reader: &ReadTxn,
    reading: &mut Db,
    read: Result<(SegmentMeta, u64)>,
)
    requires
        old(txn).wf(),
        call_ensures(WriteTxn::link_segment, (txn, name, meta), Ok::<(), PagedbError>(())),
        catalog@ == final(txn).catalog_tree@,
        db.snapshot.catalog_root_page_id != 0,
        db.poisoned_commit is None,
        call_ensures(Db::lookup_segment, (db, old(txn).realm_id, name, catalog), found),
        call_ensures(Db::open_segment, (db, old(txn).realm_id, name, catalog), opened),
        reader.catalog_root_page_id != 0,
        reader.realm_id == old(txn).realm_id,
        !old(reading).aborted_readers@.contains(reader.entry_id),
        call_ensures(ReadTxn::open_segment, (reader, reading, catalog, name), read),
    ensures
        found == Ok::<SegmentMeta, PagedbError>(*meta),
        opened == Ok::<(SegmentMeta, u64), PagedbError>(
            (*meta, db.options.mmap_view_scratch_bytes as u64),
        ),
        read == Ok::<(SegmentMeta, u64), PagedbError>(
            (*meta, old(reading).options.mmap_view_scratch_bytes as u64),
        ),
{
    let own = seq![1u8] + old(txn).realm_id.0@ + name.spec_bytes();
    lemma_slot_exists(old(txn).catalog_tree@, own);
    lemma_with_row(
        old(txn).catalog_tree@,
        own,
        CatalogValue::Segment(*meta),
        slot_of_key(old(txn).catalog_tree@, own),
    );
}

/// A segment that no row names is not found, and neither is any without a catalog.
pub proof fn law_unlinked_segment_is_not_found(
    db: &Db,
    realm: RealmId,
    name: &str,
    catalog: &BTree<CatalogValue>,
    found: Result<SegmentMeta>,
    opened: Result<(SegmentMeta, u64)>,
)
    requires
        call_ensures(Db::lookup_segment, (db, realm, name, catalog), found),
        call_ensures(Db::open_segment, (db, realm, name, catalog), opened),
        db.poisoned_commit is None,
    ensures
        db.snapshot.catalog_root_page_id == 0 ==> found == Err::<SegmentMeta, PagedbError>(
            PagedbError::NotFound,
        ),
        db.snapshot.catalog_root_page_id != 0 && name.spec_bytes().len() <= 1024 && !has_key(
            catalog@,
            seq![1u8] + realm.0@ + name.spec_bytes(),
        ) ==> found == Err::<SegmentMeta, PagedbError>(PagedbError::NotFound),
        db.snapshot.catalog_root_page_id != 0 && name.spec_bytes().len() > 1024 ==> found == Err::<
            SegmentMeta,
            PagedbError,
        >(PagedbError::NameTooLong),
        found is Err ==> opened == Err::<(SegmentMeta, u64), PagedbError>(found->Err_0),
        found is Ok ==> opened is Ok,
{
}

/// The segments with a prefix are the rows whose key begins with it, in order, each
/// once; a row there that is no segment is refused. The handle and a reader list the
/// names of a realm in this way.
pub proof fn law_segments_are_listed(
    catalog: &BTree<CatalogValue>,
    prefix: &[u8],
    r: Result<Vec<SegmentMeta>>,
    j: int,
)
    requires
        catalog.wf(),
        call_ensures(collect_segments, (catalog, prefix), r),
        0 <= j < catalog@.len(),
    ensures
        r is Err ==> r->Err_0 is Corruption && exists|k: int|
            0 <= k < catalog@.len() && has_prefix((#[trigger] catalog@[k]).0, prefix@) && !(
            catalog@[k].1 is Segment),
        r is Ok && has_prefix(catalog@[j].0, prefix@) ==> catalog@[j].1 is Segment && exists|i: int|
            0 <= i < r->Ok_0@.len() && #[trigger] r->Ok_0@[i] == catalog@[j].1->Segment_0,
        r is Ok ==> forall|i: int|
            #![trigger r->Ok_0@[i]]
            0 <= i < r->Ok_0@.len() ==> exists|k: int|
                0 <= k < catalog@.len() && has_prefix((#[trigger] catalog@[k]).0, prefix@)
                    && catalog@[k].1 == CatalogValue::Segment(r->Ok_0@[i]),
        r is Ok ==> exists|lo: int, hi: int|
            0 <= lo <= hi <= catalog@.len() && r->Ok_0@ == (#[trigger] catalog@.subrange(
                lo,
                hi,
            )).map_values(|row: (Seq<u8>, CatalogValue)| row.1->Segment_0),
{
    if r is Ok {
        let out = r->Ok_0@;
        let (lo, hi) = choose|lo: int, hi: int|
            {
                &&& #[trigger] metas_of(catalog@, lo, hi) == out
                &&& 0 <= lo <= hi <= catalog@.len()
                &&& forall|k: int|
                    #![trigger catalog@[k]]
                    0 <= k < catalog@.len() ==> (lo <= k < hi <==> has_prefix(
                        catalog@[k].0,
                        prefix@,
                    ))
                &&& forall|k: int|
                    #![trigger catalog@[k]]
                    lo <= k < hi ==> catalog@[k].1 is Segment
            };
        let row = catalog@[j];
        if has_prefix(row.0, prefix@) {
            assert(out[j - lo] == row.1->Segment_0);
        }
        assert(out =~= catalog@.subrange(lo, hi).map_values(
            |row: (Seq<u8>, CatalogValue)| row.1->Segment_0,
        ));
        assert forall|i: int| #![trigger out[i]] 0 <= i < out.len() implies exists|k: int|
            0 <= k < catalog@.len() && has_prefix((#[trigger] catalog@[k]).0, prefix@)
                && catalog@[k].1 == CatalogValue::Segment(out[i]) by {
            let k = lo + i;
            assert(catalog@[k].1 == CatalogValue::Segment(out[i]));
        }
    }
}

/// A reader's pin is a row under its process and its lease, with what it is pinned
/// to, and it lapses when the lease does. Every other row stays.
pub proof fn law_pin_is_written(
    catalog: &mut BTree<CatalogValue>,
    pid: u32,
    lease: u64,
    commit: u64,
    root: u64,
    catalog_root: u64,
    now: u64,
    seconds: u64,
    unit: (),
    own: Vec<u8>,
    key: Seq<u8>,
)
    requires
        old(catalog).wf(),
        now + seconds <= u64::MAX,
        call_ensures(
            insert_pin_row,
            (catalog, pid, lease, commit, root, catalog_root, now, seconds),
            unit,
        ),
        call_ensures(crate::catalog::Catalog::reader_pin_key, (pid, lease), own),
    ensures
        lookup(final(catalog)@, own@) is Some,
        ({
            let row = lookup(final(catalog)@, own@)->0;
            &&& row is ReaderPin
            &&& row->ReaderPin_0.commit_id == commit
            &&& row->ReaderPin_0.root_page_id == root
            &&& row->ReaderPin_0.catalog_root_page_id == catalog_root
            &&& row->ReaderPin_0.expires_unix_seconds == now + seconds
        }),
        key != own@ ==> lookup(final(catalog)@, key) == lookup(old(catalog)@, key),
{
    let value = crate::db::pins::pin_row(commit, root, catalog_root, (now + seconds) as u64);
    lemma_slot_exists(old(catalog)@, own@);
    lemma_with_row(old(catalog)@, own@, value, slot_of_key(old(catalog)@, own@));
}

/// Pins that are deleted are gone, every other row stays, and whether anything went
/// is said.
pub proof fn law_pins_are_deleted(
    catalog: &mut BTree<CatalogValue>,
    pins: &Vec<(u32, u64)>,
    deleted: bool,
    key: Seq<u8>,
    i: int,
    own: Vec<u8>,
)
    requires
        old(catalog).wf(),
        call_ensures(delete_pin_rows, (catalog, pins), deleted),
        0 <= i < pins@.len() ==> call_ensures(
            crate::catalog::Catalog::reader_pin_key,
            (pins@[i].0, pins@[i].1),
            own,
        ),
    ensures
        0 <= i < pins@.len() ==> lookup(final(catalog)@, own@) is None,
        lookup(final(catalog)@, key) is Some ==> lookup(final(catalog)@, key) == lookup(
            old(catalog)@,
            key,
        ),
        key.len() == 0 || key[0] != 6 ==> lookup(final(catalog)@, key) == lookup(
            old(catalog)@,
            key,
        ),
        !deleted ==> final(catalog)@ == old(catalog)@,
{
    lemma_deleted(old(catalog)@, pins@, key, i);
}

proof fn lemma_deleted(s: Seq<(Seq<u8>, CatalogValue)>, pins: Seq<(u32, u64)>, key: Seq<u8>, i: int)
    requires
        ascending(s),
    ensures
        ascending(without_pins(s, pins)),
        0 <= i < pins.len() ==> lookup(
            without_pins(s, pins),
            crate::catalog::reader_pin_key_spec(pins[i].0, pins[i].1),
        ) is None,
        lookup(without_pins(s, pins), key) is Some ==> lookup(without_pins(s, pins), key) == lookup(
            s,
            key,
        ),
        key.len() == 0 || key[0] != 6 ==> lookup(without_pins(s, pins), key) == lookup(s, key),
    decreases pins.len(),
{
    if pins.len() > 0 {
        let rest = pins.drop_last();
        let before = without_pins(s, rest);
        let gone = crate::catalog::reader_pin_key_spec(pins.last().0, pins.last().1);
        lemma_deleted(s, rest, key, i);
        lemma_without_row(before, gone);
        assert(gone[0] == 6);
        if 0 <= i < rest.len() {
            assert(rest[i] == pins[i]);
            let other = crate::catalog::reader_pin_key_spec(pins[i].0, pins[i].1);
            if other != gone {
                assert(lookup(crate::tree::without_row(before, gone), other) == lookup(
                    before,
                    other,
                ));
            }
        }
    }
}

/// Whether a row is a pin that is no longer needed: one of this process, one that
/// has lapsed, or one whose key is cut short.
pub open spec fn is_left_over(row: (Seq<u8>, CatalogValue), pid: u32, now: u64) -> bool {
    &&& row.0.len() > 0
    &&& row.0[0] == 6
    &&& {
        ||| row.0.len() < 13
        ||| row.0[4] + 0x100 * row.0[3] + 0x1_0000 * row.0[2] + 0x100_0000 * row.0[1] == pid
        ||| row.1 is ReaderPin && row.1->ReaderPin_0.expires_unix_seconds < now
    }
}

/// Left-over pins are cleared away and nothing else is, in order.
pub proof fn law_left_over_pins_are_cleared(
    catalog: &mut BTree<CatalogValue>,
    pid: u32,
    now: u64,
    deleted: bool,
)
    requires
        call_ensures(cleanup_stale_reader_pins, (catalog, pid, now), deleted),
    ensures
        final(catalog)@ == old(catalog)@.filter(
            |row: (Seq<u8>, CatalogValue)| !is_left_over(row, pid, now),
        ),
        deleted <==> final(catalog)@ != old(catalog)@,
{
    lemma_fresh(old(catalog)@, pid, now);
}

proof fn lemma_fresh(s: Seq<(Seq<u8>, CatalogValue)>, pid: u32, now: u64)
    ensures
        fresh_rows(s, pid, now) == s.filter(
            |row: (Seq<u8>, CatalogValue)| !is_left_over(row, pid, now),
        ),
    decreases s.len(),
{
    reveal(Seq::filter);
    if s.len() > 0 {
        lemma_fresh(s.drop_last(), pid, now);
        lemma_left_over(s.last(), pid, now);
    } else {
        assert(s.filter(|row: (Seq<u8>, CatalogValue)| !is_left_over(row, pid, now)) =~= s);
    }
}

proof fn lemma_pid(key: Seq<u8>)
    requires
        key.len() >= 5,
    ensures
        be_value(key.subrange(1, 5)) == key[4] + 0x100 * key[3] + 0x1_0000 * key[2] + 0x100_0000
            * key[1],
{
    let s = key.subrange(1, 5);
    reveal_with_fuel(be_value, 5);
    let s1 = s.drop_last();
    let s2 = s1.drop_last();
    let s3 = s2.drop_last();
    assert(s.last() == key[4] && s1.last() == key[3] && s2.last() == key[2] && s3.last()
        == key[1]);
    assert(s3.drop_last().len() == 0);
}

proof fn lemma_left_over(row: (Seq<u8>, CatalogValue), pid: u32, now: u64)
    ensures
        is_stale(row, pid, now) <==> is_left_over(row, pid, now),
{
    lemma_one_byte_prefix(row.0, 6);
    if row.0.len() >= 5 {
        lemma_pid(row.0);
    }
}

/// Whether a row holds a commit against this process: another's pin that has not
/// lapsed.
pub open spec fn is_held(row: (Seq<u8>, CatalogValue), pid: u32, now: u64) -> bool {
    &&& row.0.len() > 0
    &&& row.0[0] == 6
    &&& !(row.0.len() >= 5 && row.0[4] + 0x100 * row.0[3] + 0x1_0000 * row.0[2] + 0x100_0000
        * row.0[1] == pid)
    &&& row.1 is ReaderPin
    &&& row.1->ReaderPin_0.expires_unix_seconds >= now
}

/// The least commit that the pins of others hold: no pin that has not lapsed is below
/// it, and it is one of them or no bound at all.
pub proof fn law_least_pinned_commit(
    root: u64,
    catalog: &BTree<CatalogValue>,
    pid: u32,
    now: u64,
    least: u64,
    i: int,
)
    requires
        call_ensures(min_durable_reader_commit, (root, catalog, pid, now), least),
    ensures
        root == 0 ==> least == u64::MAX,
        root != 0 && 0 <= i < catalog@.len() && is_held(catalog@[i], pid, now) ==> least
            <= catalog@[i].1->ReaderPin_0.commit_id,
        least != u64::MAX ==> exists|j: int|
            0 <= j < catalog@.len() && is_held(#[trigger] catalog@[j], pid, now)
                && catalog@[j].1->ReaderPin_0.commit_id == least,
{
    lemma_least(catalog@, pid, now);
    if root != 0 && 0 <= i < catalog@.len() && is_held(catalog@[i], pid, now) {
        lemma_held(catalog@[i], pid, now);
        law_min_pin_protects_every_pin(catalog@, pid, now, i);
    }
}

proof fn lemma_held(row: (Seq<u8>, CatalogValue), pid: u32, now: u64)
    ensures
        holds_commit(row, pid, now) <==> is_held(row, pid, now),
{
    lemma_one_byte_prefix(row.0, 6);
    if row.0.len() >= 5 {
        lemma_pid(row.0);
    }
}

proof fn lemma_least(s: Seq<(Seq<u8>, CatalogValue)>, pid: u32, now: u64)
    ensures
        min_pinned(s, pid, now) != u64::MAX ==> exists|j: int|
            0 <= j < s.len() && is_held(#[trigger] s[j], pid, now)
                && s[j].1->ReaderPin_0.commit_id == min_pinned(s, pid, now),
    decreases s.len(),
{
    if s.len() > 0 {
        let rest = s.drop_last();
        lemma_least(rest, pid, now);
        lemma_held(s.last(), pid, now);
        let m = min_pinned(s, pid, now);
        if m != u64::MAX {
            if holds_commit(s.last(), pid, now) && s.last().1->ReaderPin_0.commit_id < min_pinned(
                rest,
                pid,
                now,
            ) {
                assert(is_held(s[s.len() - 1], pid, now));
            } else {
                let j = choose|j: int|
                    0 <= j < rest.len() && is_held(#[trigger] rest[j], pid, now)
                        && rest[j].1->ReaderPin_0.commit_id == min_pinned(rest, pid, now);
                assert(is_held(s[j], pid, now));
            }
        }
    }
}

/// The pins that are queued to be deleted are handed out, all of them and once.
pub proof fn law_queued_pins_are_handed_out(db: &mut Db, pins: Vec<(u32, u64)>)
    requires
        call_ensures(Db::drain_pending_pin_deletes, (db,), pins),
    ensures
        pins@ == old(db).pending_pin_deletes@,
        final(db).pending_pin_deletes@.len() == 0,
        final(db).tracked_readers == old(db).tracked_readers,
        final(db).snapshot == old(db).snapshot,
        final(db).writer == old(db).writer,
{
}

/// The handle and a reader list the segments of a realm whose names begin alike: what
/// the rows under the realm and that beginning list. There is none without a catalog,
/// and a beginning of more than 1024 bytes is refused.
pub proof fn law_names_of_a_realm_are_listed(
    db: &Db,
    realm: RealmId,
    prefix: &str,
    catalog: &BTree<CatalogValue>,
    key: &[u8],
    rows: Result<Vec<SegmentMeta>>,
    r: Result<Vec<SegmentMeta>>,
    reader: &ReadTxn,
    reading: &mut Db,
    s: Result<Vec<SegmentMeta>>,
)
    requires
        catalog.wf(),
        key@ == seq![1u8] + realm.0@ + prefix.spec_bytes(),
        call_ensures(collect_segments, (catalog, key), rows),
        call_ensures(Db::list_segments, (db, realm, prefix, catalog), r),
        reader.realm_id == realm,
        call_ensures(ReadTxn::list_segments, (reader, reading, catalog, prefix), s),
    ensures
        db.poisoned_commit is Some ==> r == Err::<Vec<SegmentMeta>, PagedbError>(
            PagedbError::DurablyCommittedButUnpublished { commit: db.poisoned_commit->0 },
        ),
        db.poisoned_commit is None && db.snapshot.catalog_root_page_id == 0 ==> r is Ok
            && r->Ok_0@.len() == 0,
        db.poisoned_commit is None && db.snapshot.catalog_root_page_id != 0
            && prefix.spec_bytes().len() > 1024 ==> r == Err::<Vec<SegmentMeta>, PagedbError>(
            PagedbError::NameTooLong,
        ),
        db.poisoned_commit is None && db.snapshot.catalog_root_page_id != 0
            && prefix.spec_bytes().len() <= 1024 ==> alike(r, rows),
        old(reading).aborted_readers@.contains(reader.entry_id) ==> s == Err::<
            Vec<SegmentMeta>,
            PagedbError,
        >(PagedbError::Aborted),
        !old(reading).aborted_readers@.contains(reader.entry_id) && reader.catalog_root_page_id
            == 0 ==> s is Ok && s->Ok_0@.len() == 0,
        !old(reading).aborted_readers@.contains(reader.entry_id) && reader.catalog_root_page_id
            != 0 && prefix.spec_bytes().len() > 1024 ==> s == Err::<
            Vec<SegmentMeta>,
            PagedbError,
        >(PagedbError::NameTooLong),
        !old(reading).aborted_readers@.contains(reader.entry_id) && reader.catalog_root_page_id
            != 0 && prefix.spec_bytes().len() <= 1024 ==> alike(s, rows),
{
    if rows is Ok && r is Ok && lists_prefix(catalog@, key@, r->Ok_0@) {
        lemma_lists_alike(catalog@, key@, rows->Ok_0@, r->Ok_0@);
    }
    if rows is Ok && s is Ok && lists_prefix(catalog@, key@, s->Ok_0@) {
        lemma_lists_alike(catalog@, key@, rows->Ok_0@, s->Ok_0@);
    }
}

/// Whether two listings come to the same: the same segments in the same order, or the
/// same refusal.
pub open spec fn alike(a: Result<Vec<SegmentMeta>>, b: Result<Vec<SegmentMeta>>) -> bool {
    match (a, b) {
        (Ok(x), Ok(y)) => x@ == y@,
        (Err(x), Err(y)) => x == y,
        _ => false,
    }
}

proof fn lemma_lists_alike(
    s: Seq<(Seq<u8>, CatalogValue)>,
    prefix: Seq<u8>,
    a: Seq<SegmentMeta>,
    b: Seq<SegmentMeta>,
)
    requires
        lists_prefix(s, prefix, a),
        lists_prefix(s, prefix, b),
    ensures
        a == b,
{
    let (lo, hi) = choose|lo: int, hi: int|
        {
            &&& #[trigger] metas_of(s, lo, hi) == a
            &&& 0 <= lo <= hi <= s.len()
            &&& forall|j: int|
                #![trigger s[j]]
                0 <= j < s.len() ==> (lo <= j < hi <==> has_prefix(s[j].0, prefix))
            &&& forall|j: int| #![trigger s[j]] lo <= j < hi ==> s[j].1 is Segment
        };
    let (at, end) = choose|lo: int, hi: int|
        {
            &&& #[trigger] metas_of(s, lo, hi) == b
            &&& 0 <= lo <= hi <= s.len()
            &&& forall|j: int|
                #![trigger s[j]]
                0 <= j < s.len() ==> (lo <= j < hi <==> has_prefix(s[j].0, prefix))
            &&& forall|j: int| #![trigger s[j]] lo <= j < hi ==> s[j].1 is Segment
        };
    if lo < hi {
        assert(has_prefix(s[lo].0, prefix));
        assert(has_prefix(s[hi - 1].0, prefix));
    }
    if at < end {
        assert(has_prefix(s[at].0, prefix));
        assert(has_prefix(s[end - 1].0, prefix));
    }
    assert(a =~= b);
}

} // verus!
