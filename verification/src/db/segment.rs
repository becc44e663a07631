//! Segment lookup, listing, reader-pin checks, and the reconciliation of
//! segment files with a durable catalog.

use vstd::prelude::*;
use vstd::string::StringSliceAdditionalSpecFns;

use crate::catalog::{
    segment_key_spec, Catalog, CatalogValue, SegmentMeta, KIND_SEGMENT, MAX_SEGMENT_NAME_LEN,
};
use crate::codec::{copy_bytes, same_id};
use crate::errors::{CorruptionDetail, IoKind, PagedbError, Result};
use crate::ids::RealmId;
use crate::order::{has_prefix, lemma_lex_irreflexive, lex_le};
use crate::tree::{is_slot, lemma_resume_after, lemma_slot, lookup, BTree};
use crate::write::SegmentSideEffect;

use super::handle::{poison_kept, Db, PendingTombstone, SegmentReconciliation, TrackedReader};

verus! {

/// Catalog segment rows read per batch while testing a reader snapshot for a
/// pin.
pub const READER_PIN_ROW_BATCH: usize = 256;

/// How many deferred tombstones one commit re-evaluates.
pub const MAX_TOMBSTONES_PER_COMMIT: usize = 32;

/// What a walk over segment rows in search of an id comes to.
pub enum PinScan {
    Found,
    Absent,
    Malformed,
}

/// Walks the segment rows of `s` in order: the first row that has the id or is
/// malformed decides.
pub open spec fn pin_scan(s: Seq<(Seq<u8>, CatalogValue)>, id: [u8; 16]) -> PinScan
    decreases s.len(),
{
    if s.len() == 0 {
        PinScan::Absent
    } else if !has_prefix(s[0].0, seq![KIND_SEGMENT]) {
        pin_scan(s.drop_first(), id)
    } else {
        match s[0].1 {
            CatalogValue::Segment(m) => if m.segment_id == id {
                PinScan::Found
            } else {
                pin_scan(s.drop_first(), id)
            },
            _ => PinScan::Malformed,
        }
    }
}

/// Walks the catalogs of the readers in order; a reader without a catalog root
/// pins nothing.
pub open spec fn readers_scan(
    readers: Seq<TrackedReader>,
    catalogs: Seq<BTree<CatalogValue>>,
    id: [u8; 16],
) -> PinScan
    decreases readers.len(),
{
    if readers.len() == 0 {
        PinScan::Absent
    } else if readers[0].catalog_root_page_id == 0 {
        readers_scan(readers.drop_first(), catalogs.drop_first(), id)
    } else {
        match pin_scan(catalogs[0]@, id) {
            PinScan::Absent => readers_scan(readers.drop_first(), catalogs.drop_first(), id),
            other => other,
        }
    }
}

proof fn lemma_pin_scan_skip(s: Seq<(Seq<u8>, CatalogValue)>, id: [u8; 16], a: int, b: int)
    requires
        0 <= a <= b <= s.len(),
        forall|j: int|
            #![trigger s[j]]
            a <= j < b ==> !has_prefix(s[j].0, seq![KIND_SEGMENT]) || (s[j].1 is Segment
                && s[j].1->Segment_0.segment_id != id),
    ensures
        pin_scan(s.skip(a), id) == pin_scan(s.skip(b), id),
    decreases b - a,
{
    if a < b {
        assert(s.skip(a)[0] == s[a]);
        assert(s.skip(a).drop_first() =~= s.skip(a + 1));
        lemma_pin_scan_skip(s, id, a + 1, b);
    }
}

/// Walks the segment rows of a catalog, batch by batch, in search of an id.
fn scan_catalog_for(catalog: &BTree<CatalogValue>, id: &[u8; 16]) -> (found: Result<bool>)
    requires
        catalog.wf(),
    ensures
        match found {
            Ok(true) => pin_scan(catalog@, *id) is Found,
            Ok(false) => pin_scan(catalog@, *id) is Absent,
            Err(e) => pin_scan(catalog@, *id) is Malformed && e == PagedbError::row_invalid(
                "segment.meta",
            ),
        },
{
    let mut prefix: Vec<u8> = Vec::new();
    prefix.push(KIND_SEGMENT);
    let mut cursor: Vec<u8> = copy_bytes(&prefix);
    let ghost s = catalog@;
    let ghost p = seq![KIND_SEGMENT];
    let mut done: usize = catalog.lower_bound(&prefix);
    proof {
        assert(prefix@ =~= p);
        assert(s.skip(0) =~= s);
        assert forall|j: int| #![trigger s[j]] 0 <= j < done implies !has_prefix(s[j].0, p) by {
            if has_prefix(s[j].0, p) {
                crate::order::lemma_prefix_le(s[j].0, p);
                if p == s[j].0 {
                    lemma_lex_irreflexive(p);
                } else {
                    crate::order::lemma_lex_asymmetric(p, s[j].0);
                }
            }
        }
        lemma_pin_scan_skip(s, *id, 0, done as int);
    }
    let len: usize = catalog.len();
    loop
        invariant
            catalog.wf(),
            s == catalog@,
            len == s.len(),
            p == seq![KIND_SEGMENT],
            prefix@ == p,
            lex_le(p, cursor@),
            done <= s.len(),
            is_slot(s, cursor@, done as int),
            pin_scan(s, *id) == pin_scan(s.skip(done as int), *id),
        decreases len - done,
    {
        let (lo, hi) = catalog.collect_prefix_batch_from(&prefix, &cursor, READER_PIN_ROW_BATCH);
        proof {
            lemma_slot(s, cursor@, lo as int);
            lemma_slot(s, cursor@, done as int);
        }
        if lo == hi {
            proof {
                lemma_pin_scan_skip(s, *id, done as int, s.len() as int);
                assert(s.skip(s.len() as int) =~= Seq::<(Seq<u8>, CatalogValue)>::empty());
            }
            return Ok(false);
        }
        cursor = copy_bytes(catalog.key_at(hi - 1));
        cursor.push(0);
        let exhausted: bool = hi - lo < READER_PIN_ROW_BATCH;
        proof {
            lemma_resume_after(s, hi - 1);
            let k = s[hi - 1].0;
            crate::order::lemma_prefix_le(k, p);
            crate::order::lemma_lex_successor(k, k);
            if p != k {
                crate::order::lemma_lex_transitive(p, k, cursor@);
            }
        }
        let mut i: usize = lo;
        while i < hi
            invariant
                s == catalog@,
                p == seq![KIND_SEGMENT],
                lo <= i <= hi <= s.len(),
                forall|j: int| #![trigger s[j]] lo <= j < hi ==> has_prefix(s[j].0, p),
                pin_scan(s, *id) == pin_scan(s.skip(i as int), *id),
            decreases hi - i,
        {
            proof {
                assert(s.skip(i as int)[0] == s[i as int]);
                assert(s.skip(i as int).drop_first() =~= s.skip(i + 1));
            }
            match Catalog::decode_segment_meta(catalog.value_at(i)) {
                Ok(meta) => {
                    if same_id(&meta.segment_id, id) {
                        return Ok(true);
                    }
                },
                Err(e) => return Err(e),
            }
            i = i + 1;
        }
        done = hi;
        if exhausted {
            proof {
                lemma_pin_scan_skip(s, *id, hi as int, s.len() as int);
                assert(s.skip(s.len() as int) =~= Seq::<(Seq<u8>, CatalogValue)>::empty());
            }
            return Ok(false);
        }
    }
}

/// The metadata of the rows `lo..hi`, when each of them is a segment row.
pub open spec fn metas_of(s: Seq<(Seq<u8>, CatalogValue)>, lo: int, hi: int) -> Seq<SegmentMeta> {
    Seq::new((hi - lo) as nat, |i: int| s[lo + i].1->Segment_0)
}

/// Whether `out` are the segments of the rows that begin with `prefix`, in key
/// order.
pub open spec fn lists_prefix(
    s: Seq<(Seq<u8>, CatalogValue)>,
    prefix: Seq<u8>,
    out: Seq<SegmentMeta>,
) -> bool {
    exists|lo: int, hi: int|
        {
            &&& #[trigger] metas_of(s, lo, hi) == out
            &&& 0 <= lo <= hi <= s.len()
            &&& forall|j: int|
                #![trigger s[j]]
                0 <= j < s.len() ==> (lo <= j < hi <==> has_prefix(s[j].0, prefix))
            &&& forall|j: int| #![trigger s[j]] lo <= j < hi ==> s[j].1 is Segment
        }
}

/// Whether a row that begins with `prefix` is no segment.
pub open spec fn prefix_malformed(s: Seq<(Seq<u8>, CatalogValue)>, prefix: Seq<u8>) -> bool {
    exists|j: int|
        0 <= j < s.len() && has_prefix((#[trigger] s[j]).0, prefix) && !(s[j].1 is Segment)
}

/// The segments whose keys begin with `prefix`, in key order.
pub fn collect_segments(catalog: &BTree<CatalogValue>, prefix: &[u8]) -> (r: Result<Vec<SegmentMeta>>)
    requires
        catalog.wf(),
    ensures
        match r {
            Ok(out) => lists_prefix(catalog@, prefix@, out@) && !prefix_malformed(
                catalog@,
                prefix@,
            ),
            Err(e) => prefix_malformed(catalog@, prefix@) && e == PagedbError::row_invalid(
                "segment.meta",
            ),
        },
{
    let (lo, hi) = catalog.prefix_range(prefix);
    let ghost s = catalog@;
    let mut out: Vec<SegmentMeta> = Vec::new();
    let mut i: usize = lo;
    while i < hi
        invariant
            s == catalog@,
            lo <= i <= hi <= s.len(),
            out@ == metas_of(s, lo as int, i as int),
            forall|j: int|
                #![trigger s[j]]
                0 <= j < s.len() ==> (lo <= j < hi <==> has_prefix(s[j].0, prefix@)),
            forall|j: int| #![trigger s[j]] lo <= j < i ==> s[j].1 is Segment,
        decreases hi - i,
    {
        match Catalog::decode_segment_meta(catalog.value_at(i)) {
            Ok(meta) => {
                out.push(meta);
                proof {
                    assert(out@ =~= metas_of(s, lo as int, i + 1));
                }
            },
            Err(e) => {
                proof {
                    assert(has_prefix(s[i as int].0, prefix@));
                }
                return Err(e);
            },
        }
        i = i + 1;
    }
    proof {
        assert(metas_of(s, lo as int, hi as int) == out@);
        if prefix_malformed(s, prefix@) {
            let j = choose|j: int|
                0 <= j < s.len() && has_prefix((#[trigger] s[j]).0, prefix@) && !(s[j].1 is Segment);
            assert(lo <= j < hi);
        }
    }
    Ok(out)
}

/// One segment that a promotion or a retirement is about. A retirement carries
/// the commit that its tombstone is named after.
#[derive(Debug, Clone, Copy)]
pub enum EffectTarget {
    Promote { segment_id: [u8; 16] },
    Retire { segment_id: [u8; 16], commit_id: u64 },
}

/// What reconciling one segment effect does next.
#[derive(Debug, Clone, Copy, PartialEq, Eq, Structural)]
pub enum EffectStep {
    /// Promotion: look whether the live file is there already.
    ProbePromoted,
    /// Promotion: look whether the staging file is there.
    ProbeStaging,
    /// Promotion: rename the staging file to the live path.
    RenameStaging,
    /// Retirement: look whether the tombstone is parked already.
    ProbeParked,
    /// Retirement: look whether the live file is there.
    ProbeLive,
    /// Retirement: rename the live file to the tombstone.
    ParkLive,
    /// Retirement: remove the parked tombstone.
    RemoveParked,
    /// Nothing is left to do.
    Done(SegmentReconciliation),
}

/// What came of an effect's step.
#[derive(Debug, Clone, Copy, PartialEq, Eq, Structural)]
pub enum EffectEvent {
    /// The probed file is there.
    Present,
    /// The probed file is not there.
    Absent,
    /// The rename or the removal was performed.
    Finished,
}

/// The step that follows. A published segment in neither of its two places is
/// lost data, which is no lookup miss. `None` where the event does not answer
/// the step.
pub open spec fn next_effect(segment_id: [u8; 16], step: EffectStep, event: EffectEvent) -> Option<
    Result<EffectStep>,
> {
    match (step, event) {
        (EffectStep::ProbePromoted, EffectEvent::Present) => Some(
            Ok(EffectStep::Done(SegmentReconciliation::Complete)),
        ),
        (EffectStep::ProbePromoted, EffectEvent::Absent) => Some(Ok(EffectStep::ProbeStaging)),
        (EffectStep::ProbeStaging, EffectEvent::Present) => Some(Ok(EffectStep::RenameStaging)),
        (EffectStep::ProbeStaging, EffectEvent::Absent) => Some(
            Err(PagedbError::Corruption(CorruptionDetail::StagingMissing { segment_id })),
        ),
        (EffectStep::RenameStaging, EffectEvent::Finished) => Some(
            Ok(EffectStep::Done(SegmentReconciliation::Complete)),
        ),
        (EffectStep::ProbeParked, EffectEvent::Present) => Some(Ok(EffectStep::RemoveParked)),
        (EffectStep::ProbeParked, EffectEvent::Absent) => Some(Ok(EffectStep::ProbeLive)),
        (EffectStep::ProbeLive, EffectEvent::Present) => Some(Ok(EffectStep::ParkLive)),
        (EffectStep::ProbeLive, EffectEvent::Absent) => Some(
            Ok(EffectStep::Done(SegmentReconciliation::Complete)),
        ),
        (EffectStep::ParkLive, EffectEvent::Finished) => Some(Ok(EffectStep::RemoveParked)),
        (EffectStep::RemoveParked, EffectEvent::Finished) => Some(
            Ok(EffectStep::Done(SegmentReconciliation::Complete)),
        ),
        _ => None,
    }
}

/// The segment files on disk.
#[verifier::ext_equal]
pub struct SegmentFiles {
    pub live: Set<[u8; 16]>,
    pub staging: Set<[u8; 16]>,
    pub parked: Set<([u8; 16], u64)>,
}

/// The first step of an effect that no reader pin defers.
pub open spec fn first_effect(target: EffectTarget) -> EffectStep {
    match target {
        EffectTarget::Promote { .. } => EffectStep::ProbePromoted,
        EffectTarget::Retire { .. } => EffectStep::ProbeParked,
    }
}

/// The segment that an effect is about.
pub open spec fn target_segment(target: EffectTarget) -> [u8; 16] {
    match target {
        EffectTarget::Promote { segment_id } => segment_id,
        EffectTarget::Retire { segment_id, .. } => segment_id,
    }
}

/// What the files on disk answer to a step.
pub open spec fn answer(files: SegmentFiles, target: EffectTarget, step: EffectStep) -> EffectEvent {
    let id = target_segment(target);
    let there = match step {
        EffectStep::ProbePromoted => files.live.contains(id),
        EffectStep::ProbeLive => files.live.contains(id),
        EffectStep::ProbeStaging => files.staging.contains(id),
        EffectStep::ProbeParked => files.parked.contains((id, target->commit_id)),
        _ => false,
    };
    match step {
        EffectStep::RenameStaging => EffectEvent::Finished,
        EffectStep::ParkLive => EffectEvent::Finished,
        EffectStep::RemoveParked => EffectEvent::Finished,
        _ => if there {
            EffectEvent::Present
        } else {
            EffectEvent::Absent
        },
    }
}

/// The files on disk once a step was performed.
pub open spec fn performed(files: SegmentFiles, target: EffectTarget, step: EffectStep) -> SegmentFiles {
    let id = target_segment(target);
    match step {
        EffectStep::RenameStaging => SegmentFiles {
            live: files.live.insert(id),
            staging: files.staging.remove(id),
            ..files
        },
        EffectStep::ParkLive => SegmentFiles {
            live: files.live.remove(id),
            parked: files.parked.insert((id, target->commit_id)),
            ..files
        },
        EffectStep::RemoveParked => SegmentFiles {
            parked: files.parked.remove((id, target->commit_id)),
            ..files
        },
        _ => files,
    }
}

/// The files after `n` steps of an effect, begun at `step`, with the step it
/// has come to; an effect that has failed or is done takes no further step.
pub open spec fn effect_run(files: SegmentFiles, target: EffectTarget, step: EffectStep, n: nat) -> (
    SegmentFiles,
    Result<EffectStep>,
)
    decreases n,
{
    if n == 0 || step is Done {
        (files, Ok(step))
    } else {
        match next_effect(target_segment(target), step, answer(files, target, step)) {
            Some(Ok(next)) => effect_run(
                performed(files, target, step),
                target,
                next,
                (n - 1) as nat,
            ),
            Some(Err(e)) => (files, Err(e)),
            None => (files, Ok(step)),
        }
    }
}

/// No effect takes more steps than these.
pub open spec fn effect_bound() -> nat {
    5
}

/// The files where an effect is in force: a promoted segment is live and no
/// longer staged, a retired one is neither live nor parked.
pub open spec fn settled_files(files: SegmentFiles, target: EffectTarget) -> SegmentFiles {
    match target {
        EffectTarget::Promote { segment_id } => if files.live.contains(segment_id) {
            files
        } else {
            SegmentFiles {
                live: files.live.insert(segment_id),
                staging: files.staging.remove(segment_id),
                ..files
            }
        },
        EffectTarget::Retire { segment_id, commit_id } => SegmentFiles {
            live: files.live.remove(segment_id),
            parked: files.parked.remove((segment_id, commit_id)),
            ..files
        },
    }
}

/// Whether the files are such as an effect can meet: a segment to be promoted
/// is live or staged, and one to be retired is not live and parked at once.
pub open spec fn effect_meets(files: SegmentFiles, target: EffectTarget) -> bool {
    match target {
        EffectTarget::Promote { segment_id } => files.live.contains(segment_id)
            || files.staging.contains(segment_id),
        EffectTarget::Retire { segment_id, commit_id } => !(files.live.contains(segment_id)
            && files.parked.contains((segment_id, commit_id))),
    }
}

/// An effect always comes to its end, and leaves the files where it is in
/// force, touching no other segment's.
pub proof fn law_effect_takes_force(files: SegmentFiles, target: EffectTarget)
    requires
        effect_meets(files, target),
    ensures
        effect_run(files, target, first_effect(target), effect_bound()) == (
            settled_files(files, target),
            Ok::<EffectStep, PagedbError>(EffectStep::Done(SegmentReconciliation::Complete)),
        ),
{
    reveal_with_fuel(effect_run, 6);
    let end = effect_run(files, target, first_effect(target), effect_bound());
    assert(end.0 =~= settled_files(files, target));
}

/// Replaying an effect converges: wherever an attempt was interrupted, a new
/// attempt over what it left leads to the same files as an attempt that was
/// never interrupted, and a replay of a finished effect changes nothing.
pub proof fn law_effect_replay_converges(files: SegmentFiles, target: EffectTarget, n: nat)
    requires
        effect_meets(files, target),
    ensures
        ({
            let left = effect_run(files, target, first_effect(target), n).0;
            &&& effect_meets(left, target)
            &&& effect_run(left, target, first_effect(target), effect_bound()).0 == effect_run(
                files,
                target,
                first_effect(target),
                effect_bound(),
            ).0
        }),
{
    let left = effect_run(files, target, first_effect(target), n).0;
    lemma_effect_prefix(files, target, n);
    law_effect_takes_force(files, target);
    law_effect_takes_force(left, target);
    assert(settled_files(left, target) =~= settled_files(files, target));
}

proof fn lemma_effect_prefix(files: SegmentFiles, target: EffectTarget, n: nat)
    requires
        effect_meets(files, target),
    ensures
        effect_meets(effect_run(files, target, first_effect(target), n).0, target),
        settled_files(effect_run(files, target, first_effect(target), n).0, target)
            =~= settled_files(files, target),
{
    reveal_with_fuel(effect_run, 6);
}

/// A segment that is neither live nor staged cannot be promoted: the loss is
/// reported, and nothing is touched.
pub proof fn law_lost_segment_is_reported(files: SegmentFiles, segment_id: [u8; 16])
    requires
        !files.live.contains(segment_id),
        !files.staging.contains(segment_id),
    ensures
        effect_run(
            files,
            EffectTarget::Promote { segment_id },
            EffectStep::ProbePromoted,
            effect_bound(),
        ) == (
            files,
            Err::<EffectStep, PagedbError>(
                PagedbError::Corruption(CorruptionDetail::StagingMissing { segment_id }),
            ),
        ),
{
    reveal_with_fuel(effect_run, 6);
}

/// What an attempt to reconcile a set of effects leads to.
#[derive(Debug, PartialEq, Eq)]
pub enum ReconcileStep {
    /// Attempt the whole set once more.
    Retry,
    /// This is the result.
    Finished(Result<SegmentReconciliation>),
}

/// The queue with `entry` in it, once.
pub open spec fn enqueued(queue: Seq<PendingTombstone>, entry: PendingTombstone) -> Seq<
    PendingTombstone,
> {
    if queue.contains(entry) {
        queue
    } else {
        queue.push(entry)
    }
}

/// The queue with each of `entries` in it, once, in order.
pub open spec fn enqueued_all(
    queue: Seq<PendingTombstone>,
    entries: Seq<PendingTombstone>,
) -> Seq<PendingTombstone>
    decreases entries.len(),
{
    if entries.len() == 0 {
        queue
    } else {
        enqueued_all(enqueued(queue, entries[0]), entries.drop_first())
    }
}

/// What became of one deferred tombstone.
#[derive(Debug, Clone, Copy, PartialEq, Eq, Structural)]
pub enum DrainOutcome {
    /// A reader still pins the segment.
    Pinned,
    /// The file was gone already.
    Gone,
    /// The file was reclaimed; this many bytes.
    Reclaimed(u64),
    /// The attempt failed.
    Failed,
}

/// The queue after a batch was attempted: pinned entries go back, and a failure
/// puts back its entry and all that were not reached.
pub open spec fn settled(
    queue: Seq<PendingTombstone>,
    batch: Seq<PendingTombstone>,
    outcomes: Seq<DrainOutcome>,
) -> Seq<PendingTombstone>
    decreases batch.len(),
{
    if batch.len() == 0 {
        queue
    } else if outcomes.len() == 0 || outcomes[0] is Failed {
        enqueued_all(queue, batch)
    } else if outcomes[0] is Pinned {
        settled(enqueued(queue, batch[0]), batch.drop_first(), outcomes.drop_first())
    } else {
        settled(queue, batch.drop_first(), outcomes.drop_first())
    }
}

/// How many of the first `n` outcomes reclaimed a file.
pub open spec fn reclaimed_count(outcomes: Seq<DrainOutcome>) -> nat
    decreases outcomes.len(),
{
    if outcomes.len() == 0 {
        0
    } else {
        reclaimed_count(outcomes.drop_last()) + if outcomes.last() is Reclaimed {
            1nat
        } else {
            0nat
        }
    }
}

/// How many bytes the outcomes reclaimed, saturating.
pub open spec fn reclaimed_bytes(outcomes: Seq<DrainOutcome>) -> u64
    decreases outcomes.len(),
{
    if outcomes.len() == 0 {
        0
    } else {
        let before = reclaimed_bytes(outcomes.drop_last());
        match outcomes.last() {
            DrainOutcome::Reclaimed(n) => if before + n > u64::MAX {
                u64::MAX
            } else {
                (before + n) as u64
            },
            _ => before,
        }
    }
}

/// An action that an apply journal records.
#[derive(Debug, Clone, Copy)]
pub enum JournalAction {
    Promote { segment_id: [u8; 16] },
    Tombstone { segment_id: [u8; 16], tombstone_commit_id: u64 },
}

/// The effect that a journal action stands for. A journal tombstone keeps its
/// recorded commit.
pub open spec fn effect_of(action: JournalAction) -> SegmentSideEffect {
    match action {
        JournalAction::Promote { segment_id } => SegmentSideEffect::Promote { segment_id },
        JournalAction::Tombstone { segment_id, tombstone_commit_id } => {
            SegmentSideEffect::Tombstone {
                segment_id,
                tombstone_commit_id: Some(tombstone_commit_id),
            }
        },
    }
}

/// What an effect is about in a commit: a tombstone without a commit of its own
/// takes that of the commit.
pub open spec fn target_of(effect: SegmentSideEffect, commit_id: u64) -> EffectTarget {
    match effect {
        SegmentSideEffect::Promote { segment_id } => EffectTarget::Promote { segment_id },
        SegmentSideEffect::Tombstone { segment_id, tombstone_commit_id } => EffectTarget::Retire {
            segment_id,
            commit_id: match tombstone_commit_id {
                Some(own) => own,
                None => commit_id,
            },
        },
    }
}

/// What an effect is about in a commit.
pub fn effect_target(effect: SegmentSideEffect, commit_id: u64) -> (target: EffectTarget)
    ensures
        target == target_of(effect, commit_id),
{
    match effect {
        SegmentSideEffect::Promote { segment_id } => EffectTarget::Promote { segment_id },
        SegmentSideEffect::Tombstone { segment_id, tombstone_commit_id } => EffectTarget::Retire {
            segment_id,
            commit_id: match tombstone_commit_id {
                Some(own) => own,
                None => commit_id,
            },
        },
    }
}

/// The effects that the actions of a journal stand for, in order.
pub fn reconcile_journal_actions(actions: &Vec<JournalAction>) -> (effects: Vec<SegmentSideEffect>)
    ensures
        effects@ == actions@.map_values(|a: JournalAction| effect_of(a)),
{
    let mut effects: Vec<SegmentSideEffect> = Vec::new();
    let mut i: usize = 0;
    while i < actions.len()
        invariant
            i <= actions@.len(),
            effects@.len() == i,
            forall|j: int| 0 <= j < i ==> #[trigger] effects@[j] == effect_of(actions@[j]),
        decreases actions@.len() - i,
    {
        let effect: SegmentSideEffect = match actions[i] {
            JournalAction::Promote { segment_id } => SegmentSideEffect::Promote { segment_id },
            JournalAction::Tombstone { segment_id, tombstone_commit_id } => {
                SegmentSideEffect::Tombstone {
                    segment_id,
                    tombstone_commit_id: Some(tombstone_commit_id),
                }
            },
        };
        effects.push(effect);
        i = i + 1;
    }
    proof {
        assert(effects@ =~= actions@.map_values(|a: JournalAction| effect_of(a)));
    }
    effects
}

impl Db {
    /// Whether any tracked reader's catalog snapshot contains the segment.
    /// `catalogs` holds, reader by reader, the rows under its catalog root.
    pub fn segment_id_is_reader_pinned(
        &self,
        segment_id: &[u8; 16],
        catalogs: &Vec<BTree<CatalogValue>>,
    ) -> (r: Result<bool>)
        requires
            catalogs@.len() == self.tracked_readers@.len(),
            forall|i: int| 0 <= i < catalogs@.len() ==> (#[trigger] catalogs@[i]).wf(),
        ensures
            match r {
                Ok(true) => readers_scan(self.tracked_readers@, catalogs@, *segment_id) is Found,
                Ok(false) => readers_scan(self.tracked_readers@, catalogs@, *segment_id) is Absent,
                Err(e) => readers_scan(self.tracked_readers@, catalogs@, *segment_id) is Malformed
                    && e == PagedbError::row_invalid("segment.meta"),
            },
    {
        let ghost readers = self.tracked_readers@;
        let mut i: usize = 0;
        proof {
            assert(readers.skip(0) =~= readers);
            assert(catalogs@.skip(0) =~= catalogs@);
        }
        while i < self.tracked_readers.len()
            invariant
                readers == self.tracked_readers@,
                catalogs@.len() == readers.len(),
                forall|k: int| 0 <= k < catalogs@.len() ==> (#[trigger] catalogs@[k]).wf(),
                i <= readers.len(),
                readers_scan(readers, catalogs@, *segment_id) == readers_scan(
                    readers.skip(i as int),
                    catalogs@.skip(i as int),
                    *segment_id,
                ),
            decreases readers.len() - i,
        {
            proof {
                assert(readers.skip(i as int).drop_first() =~= readers.skip(i + 1));
                assert(catalogs@.skip(i as int).drop_first() =~= catalogs@.skip(i + 1));
                assert(readers.skip(i as int)[0] == readers[i as int]);
                assert(catalogs@.skip(i as int)[0] == catalogs@[i as int]);
            }
            if self.tracked_readers[i].catalog_root_page_id != 0 {
                match scan_catalog_for(&catalogs[i], segment_id) {
                    Ok(found) => {
                        if found {
                            return Ok(true);
                        }
                    },
                    Err(e) => return Err(e),
                }
            }
            i = i + 1;
        }
        proof {
            assert(readers.skip(i as int) =~= Seq::<TrackedReader>::empty());
        }
        Ok(false)
    }

    /// Lists segments in `realm` whose names start with `prefix`. `catalog`
    /// holds the rows under the published catalog root; it is not looked at
    /// when that root is 0.
    pub fn list_segments(
        &self,
        realm: RealmId,
        prefix: &str,
        catalog: &BTree<CatalogValue>,
    ) -> (r: Result<Vec<SegmentMeta>>)
        requires
            catalog.wf(),
            self.snapshot.catalog_root_page_id != 0 ==> catalog.root()
                == self.snapshot.catalog_root_page_id,
        ensures
            if self.poisoned_commit is Some {
                r == Err::<Vec<SegmentMeta>, PagedbError>(
                    PagedbError::DurablyCommittedButUnpublished { commit: self.poisoned_commit->0 },
                )
            } else if self.snapshot.catalog_root_page_id == 0 {
                r is Ok && r->Ok_0@.len() == 0
            } else if prefix.spec_bytes().len() > MAX_SEGMENT_NAME_LEN {
                r == Err::<Vec<SegmentMeta>, PagedbError>(PagedbError::NameTooLong)
            } else if prefix_malformed(catalog@, segment_key_spec(realm, prefix.spec_bytes())) {
                r == Err::<Vec<SegmentMeta>, PagedbError>(PagedbError::row_invalid("segment.meta"))
            } else {
                r is Ok && lists_prefix(
                    catalog@,
                    segment_key_spec(realm, prefix.spec_bytes()),
                    r->Ok_0@,
                )
            },
    {
        match self.ensure_usable() {
            Ok(()) => {},
            Err(e) => return Err(e),
        }
        if self.snapshot.catalog_root_page_id == 0 {
            return Ok(Vec::new());
        }
        match Catalog::segment_key(realm, prefix.as_bytes()) {
            Ok(start) => collect_segments(catalog, &start),
            Err(e) => Err(e),
        }
    }

    /// The segment `name` of `realm` in the published catalog.
    pub fn lookup_segment(
        &self,
        realm: RealmId,
        name: &str,
        catalog: &BTree<CatalogValue>,
    ) -> (r: Result<SegmentMeta>)
        requires
            catalog.wf(),
            self.snapshot.catalog_root_page_id != 0 ==> catalog.root()
                == self.snapshot.catalog_root_page_id,
        ensures
            if self.snapshot.catalog_root_page_id == 0 {
                r == Err::<SegmentMeta, PagedbError>(PagedbError::NotFound)
            } else if name.spec_bytes().len() > MAX_SEGMENT_NAME_LEN {
                r == Err::<SegmentMeta, PagedbError>(PagedbError::NameTooLong)
            } else {
                r == match lookup(catalog@, segment_key_spec(realm, name.spec_bytes())) {
                    None => Err::<SegmentMeta, PagedbError>(PagedbError::NotFound),
                    Some(CatalogValue::Segment(meta)) => Ok::<SegmentMeta, PagedbError>(meta),
                    Some(_) => Err::<SegmentMeta, PagedbError>(
                        PagedbError::row_invalid("segment.meta"),
                    ),
                }
            },
    {
        if self.snapshot.catalog_root_page_id == 0 {
            return Err(PagedbError::NotFound);
        }
        let key: Vec<u8> = match Catalog::segment_key(realm, name.as_bytes()) {
            Ok(key) => key,
            Err(e) => return Err(e),
        };
        match catalog.get(&key) {
            None => Err(PagedbError::NotFound),
            Some(value) => Catalog::decode_segment_meta(value),
        }
    }

    /// Resolves a segment for reading against the live catalog, with the bytes
    /// that its mapped views may take.
    pub fn open_segment(
        &self,
        realm: RealmId,
        name: &str,
        catalog: &BTree<CatalogValue>,
    ) -> (r: Result<(SegmentMeta, u64)>)
        requires
            catalog.wf(),
            self.snapshot.catalog_root_page_id != 0 ==> catalog.root()
                == self.snapshot.catalog_root_page_id,
        ensures
            if self.poisoned_commit is Some {
                r == Err::<(SegmentMeta, u64), PagedbError>(
                    PagedbError::DurablyCommittedButUnpublished { commit: self.poisoned_commit->0 },
                )
            } else if self.snapshot.catalog_root_page_id == 0 {
                r == Err::<(SegmentMeta, u64), PagedbError>(PagedbError::NotFound)
            } else if name.spec_bytes().len() > MAX_SEGMENT_NAME_LEN {
                r == Err::<(SegmentMeta, u64), PagedbError>(PagedbError::NameTooLong)
            } else {
                r == match lookup(catalog@, segment_key_spec(realm, name.spec_bytes())) {
                    None => Err::<(SegmentMeta, u64), PagedbError>(PagedbError::NotFound),
                    Some(CatalogValue::Segment(meta)) => Ok::<(SegmentMeta, u64), PagedbError>(
                        (meta, self.options.mmap_view_scratch_bytes as u64),
                    ),
                    Some(_) => Err::<(SegmentMeta, u64), PagedbError>(
                        PagedbError::row_invalid("segment.meta"),
                    ),
                }
            },
    {
        match self.ensure_usable() {
            Ok(()) => {},
            Err(e) => return Err(e),
        }
        match self.lookup_segment(realm, name, catalog) {
            Ok(meta) => Ok((meta, self.options.mmap_view_scratch_bytes as u64)),
            Err(e) => Err(e),
        }
    }

    /// The first step of a promotion.
    pub fn promote_segment() -> (step: EffectStep)
        ensures
            step == EffectStep::ProbePromoted,
    {
        EffectStep::ProbePromoted
    }

    /// The first step of a retirement: defer it while a reader pins the
    /// segment.
    pub fn tombstone_segment(&mut self, segment_id: [u8; 16], commit_id: u64, pinned: bool) -> (step:
        EffectStep)
        ensures
            poison_kept(*old(self), *final(self)),
            *final(self) == (Db {
                pending_tombstones: final(self).pending_tombstones,
                ..*old(self)
            }),
            pinned ==> {
                &&& step == EffectStep::Done(SegmentReconciliation::Deferred)
                &&& final(self).pending_tombstones@ == enqueued(
                    old(self).pending_tombstones@,
                    PendingTombstone { segment_id, commit_id },
                )
            },
            !pinned ==> {
                &&& step == first_effect(EffectTarget::Retire { segment_id, commit_id })
                &&& *final(self) == *old(self)
            },
    {
        if pinned {
            self.enqueue_pending_tombstone(PendingTombstone { segment_id, commit_id });
            EffectStep::Done(SegmentReconciliation::Deferred)
        } else {
            EffectStep::ProbeParked
        }
    }

    /// The step of an effect that follows. `None` where the event does not
    /// answer the step.
    pub fn advance_effect(segment_id: [u8; 16], step: EffectStep, event: EffectEvent) -> (next:
        Option<Result<EffectStep>>)
        ensures
            next == next_effect(segment_id, step, event),
    {
        match (step, event) {
            (EffectStep::ProbePromoted, EffectEvent::Present) => {
                Some(Ok(EffectStep::Done(SegmentReconciliation::Complete)))
            },
            (EffectStep::ProbePromoted, EffectEvent::Absent) => Some(Ok(EffectStep::ProbeStaging)),
            (EffectStep::ProbeStaging, EffectEvent::Present) => Some(Ok(EffectStep::RenameStaging)),
            (EffectStep::ProbeStaging, EffectEvent::Absent) => {
                Some(Err(PagedbError::Corruption(CorruptionDetail::StagingMissing { segment_id })))
            },
            (EffectStep::RenameStaging, EffectEvent::Finished) => {
                Some(Ok(EffectStep::Done(SegmentReconciliation::Complete)))
            },
            (EffectStep::ProbeParked, EffectEvent::Present) => Some(Ok(EffectStep::RemoveParked)),
            (EffectStep::ProbeParked, EffectEvent::Absent) => Some(Ok(EffectStep::ProbeLive)),
            (EffectStep::ProbeLive, EffectEvent::Present) => Some(Ok(EffectStep::ParkLive)),
            (EffectStep::ProbeLive, EffectEvent::Absent) => {
                Some(Ok(EffectStep::Done(SegmentReconciliation::Complete)))
            },
            (EffectStep::ParkLive, EffectEvent::Finished) => Some(Ok(EffectStep::RemoveParked)),
            (EffectStep::RemoveParked, EffectEvent::Finished) => {
                Some(Ok(EffectStep::Done(SegmentReconciliation::Complete)))
            },
            _ => None,
        }
    }

    /// What a set of effects that were all reconciled comes to: deferred as
    /// soon as one of them is.
    pub fn apply_segment_effects(outcomes: &Vec<SegmentReconciliation>) -> (r: SegmentReconciliation)
        ensures
            r == if outcomes@.contains(SegmentReconciliation::Deferred) {
                SegmentReconciliation::Deferred
            } else {
                SegmentReconciliation::Complete
            },
    {
        let mut i: usize = 0;
        while i < outcomes.len()
            invariant
                i <= outcomes@.len(),
                forall|j: int|
                    0 <= j < i ==> #[trigger] outcomes@[j] != SegmentReconciliation::Deferred,
            decreases outcomes@.len() - i,
        {
            if outcomes[i] == SegmentReconciliation::Deferred {
                proof {
                    assert(outcomes@[i as int] == SegmentReconciliation::Deferred);
                }
                return SegmentReconciliation::Deferred;
            }
            i = i + 1;
        }
        SegmentReconciliation::Complete
    }

    /// A set of effects that failed is attempted once more, as a whole; the
    /// second attempt decides.
    pub fn reconcile_segment_effects(
        retried: bool,
        outcome: Result<SegmentReconciliation>,
    ) -> (step: ReconcileStep)
        ensures
            step == if outcome is Err && !retried {
                ReconcileStep::Retry
            } else {
                ReconcileStep::Finished(outcome)
            },
    {
        match outcome {
            Ok(done) => ReconcileStep::Finished(Ok(done)),
            Err(e) => {
                if retried {
                    ReconcileStep::Finished(Err(e))
                } else {
                    ReconcileStep::Retry
                }
            },
        }
    }

    /// The size of a segment's live file, from what measuring it came to. An
    /// absent file is `None` rather than zero: it was not reclaimed by the
    /// caller.
    pub fn live_segment_len(measured: Result<u64>) -> (r: Result<Option<u64>>)
        ensures
            r == match measured {
                Ok(len) => Ok::<Option<u64>, PagedbError>(Some(len)),
                Err(PagedbError::Io(IoKind::NotFound)) => Ok::<Option<u64>, PagedbError>(None),
                Err(e) => Err::<Option<u64>, PagedbError>(e),
            },
    {
        match measured {
            Ok(len) => Ok(Some(len)),
            Err(PagedbError::Io(IoKind::NotFound)) => Ok(None),
            Err(e) => Err(e),
        }
    }

    /// Remembers a deferred tombstone, once.
    pub fn enqueue_pending_tombstone(&mut self, pending: PendingTombstone)
        ensures
            poison_kept(*old(self), *final(self)),
            *final(self) == (Db {
                pending_tombstones: final(self).pending_tombstones,
                ..*old(self)
            }),
            final(self).pending_tombstones@ == enqueued(old(self).pending_tombstones@, pending),
    {
        let mut i: usize = 0;
        while i < self.pending_tombstones.len()
            invariant
                *self == *old(self),
                i <= self.pending_tombstones@.len(),
                forall|j: int| 0 <= j < i ==> #[trigger] self.pending_tombstones@[j] != pending,
            decreases self.pending_tombstones@.len() - i,
        {
            let entry: PendingTombstone = self.pending_tombstones[i];
            if same_id(&entry.segment_id, &pending.segment_id) && entry.commit_id
                == pending.commit_id {
                proof {
                    assert(self.pending_tombstones@[i as int] == pending);
                    assert(self.pending_tombstones@.contains(pending));
                }
                return;
            }
            i = i + 1;
        }
        self.pending_tombstones.push(pending);
    }

    /// Takes the oldest deferred tombstones off the queue, so many at most.
    pub fn take_pending_tombstones(&mut self, limit: usize) -> (batch: Vec<PendingTombstone>)
        ensures
            poison_kept(*old(self), *final(self)),
            *final(self) == (Db {
                pending_tombstones: final(self).pending_tombstones,
                ..*old(self)
            }),
            ({
                let queue = old(self).pending_tombstones@;
                let n = if queue.len() < limit {
                    queue.len() as int
                } else {
                    limit as int
                };
                batch@ == queue.take(n) && final(self).pending_tombstones@ == queue.skip(n)
            }),
    {
        let n: usize = if self.pending_tombstones.len() < limit {
            self.pending_tombstones.len()
        } else {
            limit
        };
        let ghost queue = self.pending_tombstones@;
        let mut batch: Vec<PendingTombstone> = Vec::new();
        let mut rest: Vec<PendingTombstone> = Vec::new();
        let mut i: usize = 0;
        while i < self.pending_tombstones.len()
            invariant
                *self == *old(self),
                queue == self.pending_tombstones@,
                n <= queue.len(),
                i <= queue.len(),
                batch@ == queue.take(if i < n {
                    i as int
                } else {
                    n as int
                }),
                rest@ == if i < n {
                    Seq::<PendingTombstone>::empty()
                } else {
                    queue.subrange(n as int, i as int)
                },
            decreases queue.len() - i,
        {
            let entry: PendingTombstone = self.pending_tombstones[i];
            if i < n {
                batch.push(entry);
                proof {
                    assert(batch@ =~= queue.take(i + 1));
                }
            } else {
                rest.push(entry);
                proof {
                    assert(rest@ =~= queue.subrange(n as int, i + 1));
                }
            }
            i = i + 1;
            proof {
                if i == n {
                    assert(rest@ =~= queue.subrange(n as int, i as int));
                }
            }
        }
        proof {
            assert(rest@ =~= queue.skip(n as int));
        }
        self.pending_tombstones = rest;
        batch
    }

    /// Settles a batch of deferred tombstones by what became of each. The
    /// outcomes are those of the entries attempted, in order; an attempt that
    /// failed is the last. Returns how many files and bytes were reclaimed.
    pub fn settle_tombstone_batch(
        &mut self,
        batch: &Vec<PendingTombstone>,
        outcomes: &Vec<DrainOutcome>,
    ) -> (reclaimed: (u64, u64))
        requires
            outcomes@.len() <= batch@.len(),
            forall|i: int|
                0 <= i < outcomes@.len() - 1 ==> !((#[trigger] outcomes@[i]) is Failed),
        ensures
            poison_kept(*old(self), *final(self)),
            *final(self) == (Db {
                pending_tombstones: final(self).pending_tombstones,
                ..*old(self)
            }),
            final(self).pending_tombstones@ == settled(
                old(self).pending_tombstones@,
                batch@,
                outcomes@,
            ),
            reclaimed.0 == reclaimed_count(outcomes@),
            reclaimed.1 == reclaimed_bytes(outcomes@),
    {
        let mut count: u64 = 0;
        let mut bytes: u64 = 0;
        let mut i: usize = 0;
        let ghost start = self.pending_tombstones@;
        proof {
            assert(batch@.skip(0) =~= batch@);
            assert(outcomes@.skip(0) =~= outcomes@);
        }
        let mut stopped: bool = false;
        while i < outcomes.len() && !stopped
            invariant
                outcomes@.len() <= batch@.len(),
                forall|k: int|
                    0 <= k < outcomes@.len() - 1 ==> !((#[trigger] outcomes@[k]) is Failed),
                i <= outcomes@.len(),
                *self == (Db { pending_tombstones: self.pending_tombstones, ..*old(self) }),
                settled(start, batch@, outcomes@) == settled(
                    self.pending_tombstones@,
                    batch@.skip(i as int),
                    outcomes@.skip(i as int),
                ),
                start == old(self).pending_tombstones@,
                count <= i,
                count == reclaimed_count(outcomes@.take(i as int)),
                bytes == reclaimed_bytes(outcomes@.take(i as int)),
                stopped ==> i == outcomes@.len() - 1 && outcomes@[i as int] is Failed,
            decreases
                outcomes@.len() - i,
                if stopped {
                    0int
                } else {
                    1int
                },
        {
            proof {
                assert(batch@.skip(i as int)[0] == batch@[i as int]);
                assert(outcomes@.skip(i as int)[0] == outcomes@[i as int]);
                assert(batch@.skip(i as int).drop_first() =~= batch@.skip(i + 1));
                assert(outcomes@.skip(i as int).drop_first() =~= outcomes@.skip(i + 1));
                assert(outcomes@.take(i + 1).drop_last() =~= outcomes@.take(i as int));
                assert(outcomes@.take(i + 1).last() == outcomes@[i as int]);
            }
            match outcomes[i] {
                DrainOutcome::Failed => {
                    stopped = true;
                },
                DrainOutcome::Pinned => {
                    self.enqueue_pending_tombstone(batch[i]);
                    i = i + 1;
                },
                DrainOutcome::Gone => {
                    i = i + 1;
                },
                DrainOutcome::Reclaimed(n) => {
                    count = count + 1;
                    bytes = bytes.saturating_add(n);
                    i = i + 1;
                },
            }
        }
        proof {
            if stopped {
                assert(outcomes@.skip(i as int)[0] is Failed);
                assert(outcomes@.take(i + 1) =~= outcomes@);
                assert(outcomes@.take(i + 1).drop_last() =~= outcomes@.take(i as int));
                assert(outcomes@.take(i + 1).last() == outcomes@[i as int]);
            } else {
                assert(outcomes@.take(i as int) =~= outcomes@);
                assert(outcomes@.skip(i as int).len() == 0);
            }
            assert(settled(
                self.pending_tombstones@,
                batch@.skip(i as int),
                outcomes@.skip(i as int),
            ) == enqueued_all(self.pending_tombstones@, batch@.skip(i as int)));
        }
        let mut k: usize = i;
        let ghost mid = self.pending_tombstones@;
        while k < batch.len()
            invariant
                i <= k <= batch@.len(),
                *self == (Db { pending_tombstones: self.pending_tombstones, ..*old(self) }),
                enqueued_all(mid, batch@.skip(i as int)) == enqueued_all(
                    self.pending_tombstones@,
                    batch@.skip(k as int),
                ),
            decreases batch@.len() - k,
        {
            proof {
                assert(batch@.skip(k as int)[0] == batch@[k as int]);
                assert(batch@.skip(k as int).drop_first() =~= batch@.skip(k + 1));
            }
            self.enqueue_pending_tombstone(batch[k]);
            k = k + 1;
        }
        proof {
            assert(batch@.skip(k as int).len() == 0);
        }
        (count, bytes)
    }
}

proof fn lemma_enqueued(queue: Seq<PendingTombstone>, entry: PendingTombstone)
    ensures
        forall|x: PendingTombstone| #[trigger]
            enqueued(queue, entry).contains(x) <==> queue.contains(x) || x == entry,
        queue.no_duplicates() ==> enqueued(queue, entry).no_duplicates(),
{
    if !queue.contains(entry) {
        let after = queue.push(entry);
        assert forall|x: PendingTombstone| #[trigger] after.contains(x) <==> queue.contains(x) || x
            == entry by {
            if queue.contains(x) {
                let i = queue.index_of(x);
                assert(after[i] == x);
            }
            if x == entry {
                assert(after[queue.len() as int] == x);
            }
            if after.contains(x) {
                let i = after.index_of(x);
                if i < queue.len() {
                    assert(queue[i] == x);
                }
            }
        }
        if queue.no_duplicates() {
            assert forall|i: int, j: int|
                0 <= i < after.len() && 0 <= j < after.len() && i != j implies after[i]
                != after[j] by {
                if i < queue.len() && j < queue.len() {
                    assert(queue[i] != queue[j]);
                } else if i < queue.len() {
                    assert(queue.contains(queue[i]));
                } else if j < queue.len() {
                    assert(queue.contains(queue[j]));
                }
            }
        }
    }
}

proof fn lemma_enqueued_all(queue: Seq<PendingTombstone>, entries: Seq<PendingTombstone>)
    ensures
        forall|x: PendingTombstone| #[trigger]
            enqueued_all(queue, entries).contains(x) <==> queue.contains(x) || entries.contains(x),
        queue.no_duplicates() ==> enqueued_all(queue, entries).no_duplicates(),
    decreases entries.len(),
{
    if entries.len() > 0 {
        lemma_enqueued(queue, entries[0]);
        lemma_enqueued_all(enqueued(queue, entries[0]), entries.drop_first());
        let first = enqueued(queue, entries[0]);
        let rest = entries.drop_first();
        assert forall|x: PendingTombstone| #[trigger]
            enqueued_all(queue, entries).contains(x) <==> queue.contains(x) || entries.contains(
                x,
            ) by {
            assert(enqueued_all(first, rest).contains(x) <==> first.contains(x) || rest.contains(
                x,
            ));
            assert(first.contains(x) <==> queue.contains(x) || x == entries[0]);
            if entries.contains(x) {
                let i = entries.index_of(x);
                if i > 0 {
                    assert(rest[i - 1] == x);
                }
            }
            if rest.contains(x) {
                let i = rest.index_of(x);
                assert(entries[i + 1] == x);
            }
        }
    }
}

/// Settling a batch loses no record of a file that still needs reclaiming: what
/// was queued stays queued, and of the batch every entry goes back whose
/// segment is still pinned, whose attempt failed, or that was not reached. No
/// entry is ever queued twice.
pub proof fn law_settle_loses_no_tombstone(
    queue: Seq<PendingTombstone>,
    batch: Seq<PendingTombstone>,
    outcomes: Seq<DrainOutcome>,
)
    requires
        outcomes.len() <= batch.len(),
    ensures
        forall|x: PendingTombstone|
            queue.contains(x) ==> #[trigger] settled(queue, batch, outcomes).contains(x),
        forall|k: int|
            0 <= k < batch.len() && (k >= outcomes.len() || outcomes[k] is Pinned || outcomes[k]
                is Failed) ==> settled(queue, batch, outcomes).contains(#[trigger] batch[k]),
        queue.no_duplicates() ==> settled(queue, batch, outcomes).no_duplicates(),
    decreases batch.len(),
{
    if batch.len() > 0 {
        let rest = batch.drop_first();
        if outcomes.len() == 0 || outcomes[0] is Failed {
            lemma_enqueued_all(queue, batch);
            assert forall|k: int| 0 <= k < batch.len() implies settled(
                queue,
                batch,
                outcomes,
            ).contains(#[trigger] batch[k]) by {
                assert(batch.contains(batch[k]));
            }
        } else {
            let q = if outcomes[0] is Pinned {
                enqueued(queue, batch[0])
            } else {
                queue
            };
            lemma_enqueued(queue, batch[0]);
            law_settle_loses_no_tombstone(q, rest, outcomes.drop_first());
            let end = settled(q, rest, outcomes.drop_first());
            assert(end == settled(queue, batch, outcomes));
            assert forall|x: PendingTombstone| queue.contains(x) implies #[trigger] settled(
                queue,
                batch,
                outcomes,
            ).contains(x) by {
                assert(enqueued(queue, batch[0]).contains(x));
                assert(q.contains(x));
                assert(end.contains(x));
            }
            assert forall|k: int|
                0 <= k < batch.len() && (k >= outcomes.len() || outcomes[k] is Pinned || outcomes[k]
                    is Failed) implies settled(queue, batch, outcomes).contains(
                #[trigger] batch[k],
            ) by {
                if k > 0 {
                    assert(rest[k - 1] == batch[k]);
                    if k < outcomes.len() {
                        assert(outcomes.drop_first()[k - 1] == outcomes[k]);
                    }
                } else {
                    assert(enqueued(queue, batch[0]).contains(batch[0]));
                    assert(q.contains(batch[0]));
                    assert(end.contains(batch[0]));
                }
            }
        }
    }
}

/// Whether a catalog names a segment.
pub open spec fn names_segment(s: Seq<(Seq<u8>, CatalogValue)>, id: [u8; 16]) -> bool {
    exists|j: int|
        0 <= j < s.len() && has_prefix((#[trigger] s[j]).0, seq![KIND_SEGMENT]) && s[j].1
            is Segment && s[j].1->Segment_0.segment_id == id
}

proof fn lemma_pin_scan_exact(s: Seq<(Seq<u8>, CatalogValue)>, id: [u8; 16])
    ensures
        pin_scan(s, id) is Found ==> names_segment(s, id),
        pin_scan(s, id) is Absent ==> !names_segment(s, id),
    decreases s.len(),
{
    if s.len() > 0 {
        let rest = s.drop_first();
        lemma_pin_scan_exact(rest, id);
        if names_segment(rest, id) {
            let j = choose|j: int|
                0 <= j < rest.len() && has_prefix((#[trigger] rest[j]).0, seq![KIND_SEGMENT])
                    && rest[j].1 is Segment && rest[j].1->Segment_0.segment_id == id;
            assert(s[j + 1] == rest[j]);
        }
        if names_segment(s, id) {
            let j = choose|j: int|
                0 <= j < s.len() && has_prefix((#[trigger] s[j]).0, seq![KIND_SEGMENT]) && s[j].1
                    is Segment && s[j].1->Segment_0.segment_id == id;
            if j > 0 {
                assert(rest[j - 1] == s[j]);
            }
        }
    }
}

/// A segment counts as pinned exactly when the catalog of some tracked reader
/// names it, unless a malformed row was met: no segment is retired under a
/// reader that can still resolve it.
pub proof fn law_pin_scan_is_exact(
    readers: Seq<TrackedReader>,
    catalogs: Seq<BTree<CatalogValue>>,
    id: [u8; 16],
)
    requires
        readers.len() == catalogs.len(),
    ensures
        readers_scan(readers, catalogs, id) is Found ==> exists|i: int|
            0 <= i < readers.len() && (#[trigger] readers[i]).catalog_root_page_id != 0
                && names_segment(catalogs[i]@, id),
        readers_scan(readers, catalogs, id) is Absent ==> forall|i: int|
            0 <= i < readers.len() && (#[trigger] readers[i]).catalog_root_page_id != 0
                ==> !names_segment(catalogs[i]@, id),
    decreases readers.len(),
{
    if readers.len() > 0 {
        let rr = readers.drop_first();
        let cc = catalogs.drop_first();
        law_pin_scan_is_exact(rr, cc, id);
        lemma_pin_scan_exact(catalogs[0]@, id);
        if readers_scan(readers, catalogs, id) is Found {
            if readers[0].catalog_root_page_id != 0 && pin_scan(catalogs[0]@, id) is Found {
                assert(names_segment(catalogs[0]@, id));
            } else {
                let i = choose|i: int|
                    0 <= i < rr.len() && (#[trigger] rr[i]).catalog_root_page_id != 0
                        && names_segment(cc[i]@, id);
                assert(readers[i + 1] == rr[i] && catalogs[i + 1] == cc[i]);
            }
        }
        if readers_scan(readers, catalogs, id) is Absent {
            assert forall|i: int|
                0 <= i < readers.len() && (#[trigger] readers[i]).catalog_root_page_id
                    != 0 implies !names_segment(catalogs[i]@, id) by {
                if i > 0 {
                    assert(rr[i - 1] == readers[i] && cc[i - 1] == catalogs[i]);
                }
            }
        }
    }
}

} // verus!
