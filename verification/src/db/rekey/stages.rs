//! The stages of a rekey: its start, its durable steps, the catalog commits
//! that record them, and what a failure leaves behind.

use vstd::prelude::*;

use crate::catalog::{
    epochs_advance, intent_fault, stage_byte, Catalog, CatalogValue, RekeyIntent, RekeyStage,
    KIND_REKEY_STATE,
};
use crate::db::handle::{
    poison_kept, poisoned, snapshot_of, Db, PendingKeyRetirement, SegmentReconciliation, WriterState,
};
use crate::db::history::{decode_commit_meta, history_key, meta_of};
use crate::db::open::existing::{is_writer_of, records_state};
use crate::db::reader::begun_at;
use crate::db::reclaim::{names_page, tagged, CHAIN_METADATA_CID};
use crate::db::snapshot::encode_journal_id;
use crate::errors::{PagedbError, Result};
use crate::header::{
    encode_free_list_root, encode_root_ref, page_size_log2, root_ref, HeaderCursor,
    MainDbHeaderFields,
};
use crate::ids::{ActiveSlot, CipherId, CommitId};
use crate::mode::DbMode;
use crate::read::ReadTxn;
use crate::tree::{has_key, index_of_key, lookup, rows_at, with_row, without_row, BTree};
use crate::write::txn::later_cursor;

use super::intent::{
    cipher_fault, intent_proof, proof_of, same_proof, validate_intent_for_current_cipher,
};
use super::keyring::{DerivedKey, EpochKeyring, MasterKey};
use super::recovery::{lacks_target_proof, write_intent_row};

verus! {

/// The intent that the catalog under a root holds.
pub open spec fn loaded_intent(
    root_page_id: u64,
    s: Seq<(Seq<u8>, CatalogValue)>,
    current_cipher_id: u8,
) -> Result<Option<RekeyIntent>> {
    if root_page_id == 0 {
        Ok(None)
    } else {
        match lookup(s, seq![KIND_REKEY_STATE]) {
            None => Ok(None),
            Some(CatalogValue::RekeyState(i)) => match intent_fault(i) {
                Some(e) => Err(e),
                None => match cipher_fault(i, current_cipher_id) {
                    Some(e) => Err(e),
                    None => Ok(Some(i)),
                },
            },
            Some(_) => Err(PagedbError::row_invalid("rekey.framing")),
        }
    }
}

/// The intent that begins a rekey, given the proofs of the key in use, of the
/// key supplied for the source epoch, and of the target key.
pub open spec fn opening_intent(
    db: Db,
    new_mk_epoch: u64,
    source_proof: [u8; 16],
    supplied_source_proof: [u8; 16],
    target_proof: [u8; 16],
) -> RekeyIntent {
    RekeyIntent {
        source_mk_epoch: db.mk_epoch,
        target_mk_epoch: new_mk_epoch,
        source_cipher_id: db.cipher_id.byte(),
        target_cipher_id: db.cipher_id.byte(),
        same_kek: source_proof@ == supplied_source_proof@,
        stage: RekeyStage::Intent,
        source_hk_proof: source_proof,
        target_hk_proof: target_proof,
    }
}

/// Whether an intent begins a rekey with the given header keys: that of the
/// handle, that supplied for the source epoch, and that of the target epoch.
pub open spec fn begins_rekey(
    db: Db,
    new_mk_epoch: u64,
    source_hk: DerivedKey,
    supplied_source_hk: DerivedKey,
    target_hk: DerivedKey,
    i: RekeyIntent,
) -> bool {
    let e = db.mk_epoch;
    let n = new_mk_epoch;
    let c = db.cipher_id.byte();
    let source = proof_of(source_hk, db.file_id, db.kek_salt, e, n, e, c);
    let supplied = proof_of(supplied_source_hk, db.file_id, db.kek_salt, e, n, e, c);
    let target = proof_of(target_hk, db.file_id, db.kek_salt, e, n, n, c);
    &&& i.source_mk_epoch == e
    &&& i.target_mk_epoch == n
    &&& i.source_cipher_id == c
    &&& i.target_cipher_id == c
    &&& i.same_kek == (source == supplied)
    &&& i.stage == RekeyStage::Intent
    &&& i.source_hk_proof@ == source
    &&& i.target_hk_proof@ == target
}

/// Whether an intent begins a rekey with the same key-encryption key, without a
/// proof of the target key.
pub open spec fn begins_unproven(
    db: Db,
    target_epoch: u64,
    source_proof: [u8; 16],
    i: RekeyIntent,
) -> bool {
    &&& i == opening_intent(db, target_epoch, source_proof, source_proof, i.target_hk_proof)
    &&& lacks_target_proof(i)
}

/// What refuses a rekey before anything is written.
pub open spec fn rekey_refusal(db: Db, new_mk_epoch: u64) -> Option<PagedbError> {
    if db.poisoned_commit is Some {
        Some(PagedbError::DurablyCommittedButUnpublished { commit: db.poisoned_commit->0 })
    } else if db.mode != DbMode::Standalone {
        Some(PagedbError::Unsupported)
    } else if new_mk_epoch == 0 || new_mk_epoch <= db.mk_epoch {
        Some(PagedbError::RekeyStateInvalid { field: "rekey.target_mk_epoch" })
    } else {
        None
    }
}

/// What a rekey does next. Every step runs with the target epoch active.
#[derive(Debug, Clone, Copy, PartialEq, Eq, Structural)]
pub enum RekeyStep {
    /// Re-seal the data tree, the retained history roots and the free list, and
    /// flush. The catalog stays readable under the source key.
    RewriteMainPages,
    /// Write the intent under a header of the target epoch.
    PublishTargetHeader,
    /// Re-seal the catalog and the free list, and flush.
    RewriteCatalogPages,
    /// Record that the main file is done.
    RecordMainDone,
    /// Record that only segments are left.
    RecordSegmentsPending,
    /// Migrate every segment.
    MigrateSegments,
    /// Look whether a segment still needs migrating.
    CheckSegments,
    /// Drop the intent.
    ClearIntent,
    /// The rekey is complete.
    Done,
}

/// The step that an intent resumes at.
pub open spec fn resume_at(stage: RekeyStage) -> RekeyStep {
    match stage {
        RekeyStage::Intent => RekeyStep::RewriteMainPages,
        RekeyStage::MainPagesTargetReadable => RekeyStep::PublishTargetHeader,
        RekeyStage::HeaderTargetPublished => RekeyStep::RewriteCatalogPages,
        RekeyStage::MainDone => RekeyStep::RecordSegmentsPending,
        RekeyStage::SegmentsPending => RekeyStep::MigrateSegments,
    }
}

/// The step that follows one that succeeded.
pub open spec fn next_rekey(step: RekeyStep) -> RekeyStep {
    match step {
        RekeyStep::RewriteMainPages => RekeyStep::PublishTargetHeader,
        RekeyStep::PublishTargetHeader => RekeyStep::RewriteCatalogPages,
        RekeyStep::RewriteCatalogPages => RekeyStep::RecordMainDone,
        RekeyStep::RecordMainDone => RekeyStep::RecordSegmentsPending,
        RekeyStep::RecordSegmentsPending => RekeyStep::MigrateSegments,
        RekeyStep::MigrateSegments => RekeyStep::CheckSegments,
        RekeyStep::CheckSegments => RekeyStep::ClearIntent,
        RekeyStep::ClearIntent => RekeyStep::Done,
        RekeyStep::Done => RekeyStep::Done,
    }
}

/// The stage that an intent has once a step succeeded.
pub open spec fn stage_after(step: RekeyStep, stage: RekeyStage) -> RekeyStage {
    match step {
        RekeyStep::RewriteMainPages => RekeyStage::MainPagesTargetReadable,
        RekeyStep::PublishTargetHeader => RekeyStage::HeaderTargetPublished,
        RekeyStep::RecordMainDone => RekeyStage::MainDone,
        RekeyStep::RecordSegmentsPending => RekeyStage::SegmentsPending,
        _ => stage,
    }
}

/// Whether a step writes the intent among the catalog's rows.
pub open spec fn writes_intent(step: RekeyStep) -> bool {
    step == RekeyStep::PublishTargetHeader || step == RekeyStep::RecordMainDone || step
        == RekeyStep::RecordSegmentsPending
}

/// The catalog's rows that a step makes durable.
pub open spec fn step_rows(
    s: Seq<(Seq<u8>, CatalogValue)>,
    intent: RekeyIntent,
    step: RekeyStep,
) -> Seq<(Seq<u8>, CatalogValue)> {
    if writes_intent(step) {
        with_row(
            s,
            seq![KIND_REKEY_STATE],
            CatalogValue::RekeyState(
                RekeyIntent { stage: stage_after(step, intent.stage), ..intent },
            ),
        )
    } else if step == RekeyStep::ClearIntent {
        without_row(s, seq![KIND_REKEY_STATE])
    } else {
        s
    }
}

/// Edits the catalog's rows for a step that a catalog commit then makes
/// durable, and moves the intent to the stage it stands for.
pub fn stage_rekey_rows(
    catalog: &mut BTree<CatalogValue>,
    intent: &mut RekeyIntent,
    step: RekeyStep,
)
    requires
        old(catalog).wf(),
    ensures
        final(catalog).wf(),
        final(catalog)@ == step_rows(old(catalog)@, *old(intent), step),
        final(catalog).root() == old(catalog).root(),
        final(catalog).next() == old(catalog).next(),
        *final(intent) == (RekeyIntent {
            stage: stage_after(step, old(intent).stage),
            ..*old(intent)
        }),
{
    match step {
        RekeyStep::RewriteMainPages => {
            intent.stage = RekeyStage::MainPagesTargetReadable;
        },
        RekeyStep::PublishTargetHeader => {
            intent.stage = RekeyStage::HeaderTargetPublished;
            write_intent_row(catalog, intent);
        },
        RekeyStep::RecordMainDone => {
            intent.stage = RekeyStage::MainDone;
            write_intent_row(catalog, intent);
        },
        RekeyStep::RecordSegmentsPending => {
            intent.stage = RekeyStage::SegmentsPending;
            write_intent_row(catalog, intent);
        },
        RekeyStep::ClearIntent => {
            let key: Vec<u8> = Catalog::rekey_state_key();
            let _ = catalog.delete(&key);
        },
        _ => {},
    }
}

/// The handle after a step of a rekey failed: nothing of it can be undone in
/// place, so only a fresh open may go on.
pub open spec fn failed_rekey(db: Db) -> Db {
    poisoned(db, CommitId(db.writer.latest_commit_id))
}

/// Why a step of a rekey failed, if it did. The outcome of the segment check is
/// whether a segment still needs migrating.
pub open spec fn step_fault(intent: RekeyIntent, step: RekeyStep, outcome: Result<bool>) -> Option<
    PagedbError,
> {
    match outcome {
        Err(e) => Some(e),
        Ok(pending) => if step == RekeyStep::CheckSegments && pending {
            Some(PagedbError::RekeyStateInvalid { field: "rekey.segments_pending" })
        } else if step == RekeyStep::ClearIntent && intent.source_cipher_id != 1
            && intent.source_cipher_id != 2 {
            Some(PagedbError::UnknownCipher { cipher_id: intent.source_cipher_id })
        } else {
            None
        },
    }
}

/// How a failed step is reported.
pub open spec fn rekey_failure(db: Db, e: PagedbError) -> PagedbError {
    PagedbError::RekeyTargetEpochActivated {
        commit: CommitId(db.writer.latest_commit_id),
        source: Box::new(e),
    }
}

/// The handle after a step of a rekey succeeded: publication moves it to the
/// target epoch, and completion retires the source key or remembers to.
pub open spec fn advanced(db: Db, after: Db, intent: RekeyIntent, step: RekeyStep) -> bool {
    if step == RekeyStep::PublishTargetHeader {
        after == (Db { mk_epoch: intent.target_mk_epoch, ..db })
    } else if step == RekeyStep::ClearIntent {
        &&& after == (Db { pending_key_retirements: after.pending_key_retirements, ..db })
        &&& exists|cipher_id: CipherId|
            #![trigger cipher_id.byte()]
            cipher_id.byte() == intent.source_cipher_id
                && after.pending_key_retirements@ == if db.tracked_readers@.len() == 0
                || db.pending_key_retirements@.contains(
                PendingKeyRetirement { epoch: intent.source_mk_epoch, cipher_id },
            ) {
                db.pending_key_retirements@
            } else {
                db.pending_key_retirements@.push(
                    PendingKeyRetirement { epoch: intent.source_mk_epoch, cipher_id },
                )
            }
    } else {
        after == db
    }
}

/// The keys after a step of a rekey succeeded: completion drops the source key
/// at once when no reader can still need it.
pub open spec fn keys_after(
    db: Db,
    keys: Map<(u64, u8), MasterKey>,
    intent: RekeyIntent,
    step: RekeyStep,
) -> Map<(u64, u8), MasterKey> {
    if step == RekeyStep::ClearIntent && db.tracked_readers@.len() == 0 {
        keys.remove((intent.source_mk_epoch, intent.source_cipher_id))
    } else {
        keys
    }
}

/// The epochs and ciphers whose keys are due for retirement.
pub open spec fn retired_ids(due: Seq<PendingKeyRetirement>) -> Set<(u64, u8)>
    decreases due.len(),
{
    if due.len() == 0 {
        Set::empty()
    } else {
        retired_ids(due.drop_last()).insert((due.last().epoch, due.last().cipher_id.byte()))
    }
}

/// The roots that a history row names, each with the cursor that bounds its
/// tree. The row's free-list root is not among them: its chain may have been
/// recycled since.
pub open spec fn row_roots(value: Seq<u8>) -> Seq<(u64, u64)> {
    let m = meta_of(value);
    let data = if m.active_root_page_id == 0 {
        Seq::<(u64, u64)>::empty()
    } else {
        seq![(m.active_root_page_id, m.next_page_id)]
    };
    if m.catalog_root_page_id == 0 {
        data
    } else {
        data.push((m.catalog_root_page_id, m.next_page_id))
    }
}

/// The roots that the rows name, in order.
pub open spec fn history_roots(s: Seq<(Seq<u8>, Seq<u8>)>) -> Seq<(u64, u64)>
    decreases s.len(),
{
    if s.len() == 0 {
        Seq::empty()
    } else {
        history_roots(s.drop_last()) + row_roots(s.last().1)
    }
}

/// Whether every history row is long enough to decode.
pub open spec fn history_decodes(s: Seq<(Seq<u8>, Seq<u8>)>) -> bool {
    forall|i: int| 0 <= i < s.len() ==> (#[trigger] s[i]).1.len() >= 40
}

/// The roots that the retained history still hands to readers. All of them must
/// be re-sealed: a rekey that passed one over would leave a retained commit
/// under a key that no longer exists.
pub fn retained_history_roots(history: &BTree<Vec<u8>>) -> (r: Result<Vec<(u64, u64)>>)
    ensures
        match r {
            Ok(roots) => history_decodes(history@) && roots@ == history_roots(history@),
            Err(e) => !history_decodes(history@) && e == PagedbError::row_invalid(
                "commit_history.meta",
            ),
        },
{
    let mut roots: Vec<(u64, u64)> = Vec::new();
    let len: usize = history.len();
    let ghost s = history@;
    let mut i: usize = 0;
    proof {
        assert(s.take(0) =~= Seq::<(Seq<u8>, Seq<u8>)>::empty());
    }
    while i < len
        invariant
            s == history@,
            len == s.len(),
            i <= len,
            roots@ == history_roots(s.take(i as int)),
            forall|j: int| 0 <= j < i ==> (#[trigger] s[j]).1.len() >= 40,
        decreases len - i,
    {
        let value: &Vec<u8> = history.value_at(i);
        match decode_commit_meta(value) {
            Ok(m) => {
                if m.active_root_page_id != 0 {
                    roots.push((m.active_root_page_id, m.next_page_id));
                }
                if m.catalog_root_page_id != 0 {
                    roots.push((m.catalog_root_page_id, m.next_page_id));
                }
                proof {
                    assert(s.take(i + 1).drop_last() =~= s.take(i as int));
                    assert(s.take(i + 1).last() == s[i as int]);
                    assert(roots@ =~= history_roots(s.take(i as int)) + row_roots(s[i as int].1));
                }
            },
            Err(e) => {
                proof {
                    assert(s[i as int].1.len() < 40);
                }
                return Err(e);
            },
        }
        i = i + 1;
    }
    proof {
        assert(s.take(i as int) =~= s);
    }
    Ok(roots)
}

/// Where a page that the free list names begins in the file.
pub fn free_page_offset(page_id: u64, page_size: usize) -> (r: Result<u64>)
    ensures
        r == if page_id * page_size <= u64::MAX {
            Ok::<u64, PagedbError>((page_id * page_size) as u64)
        } else {
            Err::<u64, PagedbError>(
                PagedbError::ArithmeticOverflow { what: "free-list page offset" },
            )
        },
{
    match page_id.checked_mul(page_size as u64) {
        Some(offset) => Ok(offset),
        None => Err(PagedbError::ArithmeticOverflow { what: "free-list page offset" }),
    }
}

/// A page kind, and whether pages of it stand in the main file.
#[derive(Debug, Clone, Copy, PartialEq, Eq, Structural)]
pub struct PageRole {
    pub kind: u8,
    pub in_main_file: bool,
}

/// The kind to authenticate a page of the main file under, from the two bytes
/// it begins with and what its kind byte stands for. A cleared page has none.
pub fn main_page_kind(envelope: &[u8; 2], role: Result<PageRole>) -> (r: Result<Option<u8>>)
    ensures
        r == if envelope@[0] == 0 && envelope@[1] == 0 {
            Ok::<Option<u8>, PagedbError>(None)
        } else {
            match role {
                Ok(found) => if found.in_main_file {
                    Ok::<Option<u8>, PagedbError>(Some(found.kind))
                } else {
                    Err::<Option<u8>, PagedbError>(PagedbError::IllegalPageKind)
                },
                Err(e) => Err::<Option<u8>, PagedbError>(e),
            }
        },
{
    if envelope[0] == 0 && envelope[1] == 0 {
        return Ok(None);
    }
    match role {
        Ok(found) => if found.in_main_file {
            Ok(Some(found.kind))
        } else {
            Err(PagedbError::IllegalPageKind)
        },
        Err(e) => Err(e),
    }
}

/// The free-list entries once a catalog rewrite superseded pages: those that
/// were there, the superseded ones under the current commit, and the chain's own
/// pages, which no reader ever visits.
pub open spec fn rekeyed_entries(
    window: Seq<(u64, u64)>,
    chain_pages: Seq<u64>,
    freed: Seq<u64>,
    commit: u64,
) -> Seq<(u64, u64)> {
    window + tagged(freed, commit) + tagged(chain_pages, CHAIN_METADATA_CID)
}

/// A catalog rewrite that a rekey is about to name in a header.
#[derive(Debug, Clone, Copy, PartialEq, Eq, Structural)]
pub struct RekeyCatalogCommit {
    pub catalog_root_page_id: u64,
    pub next_page_id: u64,
}

/// The writer state once the header of a rekey's catalog commit is durable.
pub open spec fn rekeyed(state: WriterState, c: RekeyCatalogCommit) -> WriterState {
    WriterState {
        catalog_root_page_id: c.catalog_root_page_id,
        next_page_id: c.next_page_id,
        ..state
    }
}

/// Whether a writer state that a rekey came to still names what readers read: only
/// the catalog, the cursor and the free list moved.
pub open spec fn rekey_kept(before: WriterState, after: WriterState) -> bool {
    after == (WriterState {
        catalog_root_page_id: after.catalog_root_page_id,
        next_page_id: after.next_page_id,
        free_list_root_page_id: after.free_list_root_page_id,
        ..before
    })
}

/// Whether `f` is the header of a rekey's catalog commit: the epoch, the catalog
/// and the cursor are the given ones, all else is what the state holds.
pub open spec fn is_rekey_header(
    db: Db,
    c: RekeyCatalogCommit,
    mk_epoch: u64,
    seq: u64,
    counter_anchor: u64,
    f: MainDbHeaderFields,
) -> bool {
    &&& db.names_this_store(f)
    &&& f.mk_epoch == mk_epoch
    &&& f.seq == seq
    &&& f.active_root_page_id == db.writer.root_page_id
    &&& f.active_root_txn_id == db.writer.latest_commit_id
    &&& f.counter_anchor == counter_anchor
    &&& f.commit_id == CommitId(db.writer.latest_commit_id)
    &&& f.free_list_root@ == root_ref(db.writer.free_list_root_page_id, 0)
    &&& f.catalog_root@ == root_ref(c.catalog_root_page_id, db.writer.catalog_root_txn_id)
    &&& root_ref(f.apply_journal_root_page_id, f.apply_journal_root_version)
        == db.writer.pending_apply_journal_id@
    &&& f.commit_history_root_page_id == db.writer.commit_history_root_page_id
    &&& f.commit_history_root_version == db.writer.commit_history_root_version
    &&& f.restore_mode == db.writer.restore_mode
    &&& f.next_page_id == c.next_page_id
    &&& f.commit_retain_policy_tag == db.writer.commit_retain_policy_tag
    &&& f.commit_retain_policy_value == db.writer.commit_retain_policy_value
}

impl Db {
    /// Begins a rekey to a later epoch: the intent to write, at the source epoch,
    /// before anything else. The header keys are that of the handle, and those
    /// that the supplied key-encryption key yields for the source and the target
    /// epoch.
    pub fn rekey_db(
        &self,
        new_mk_epoch: u64,
        source_hk: &DerivedKey,
        supplied_source_hk: &DerivedKey,
        target_hk: &DerivedKey,
    ) -> (r: Result<RekeyIntent>)
        ensures
            match rekey_refusal(*self, new_mk_epoch) {
                Some(e) => r == Err::<RekeyIntent, PagedbError>(e),
                None => r is Ok && begins_rekey(
                    *self,
                    new_mk_epoch,
                    *source_hk,
                    *supplied_source_hk,
                    *target_hk,
                    r->Ok_0,
                ),
            },
    {
        match self.ensure_usable() {
            Ok(()) => {},
            Err(e) => return Err(e),
        }
        if self.mode != DbMode::Standalone {
            return Err(PagedbError::Unsupported);
        }
        if new_mk_epoch == 0 || new_mk_epoch <= self.mk_epoch {
            return Err(PagedbError::RekeyStateInvalid { field: "rekey.target_mk_epoch" });
        }
        let source_epoch: u64 = self.mk_epoch;
        let cipher_id: u8 = self.cipher_id.as_byte();
        let source_proof: [u8; 16] = match intent_proof(
            source_hk,
            &self.file_id,
            &self.kek_salt,
            source_epoch,
            new_mk_epoch,
            source_epoch,
            cipher_id,
        ) {
            Ok(bytes) => bytes,
            Err(e) => return Err(e),
        };
        let supplied_source_proof: [u8; 16] = match intent_proof(
            supplied_source_hk,
            &self.file_id,
            &self.kek_salt,
            source_epoch,
            new_mk_epoch,
            source_epoch,
            cipher_id,
        ) {
            Ok(bytes) => bytes,
            Err(e) => return Err(e),
        };
        let target_proof: [u8; 16] = match intent_proof(
            target_hk,
            &self.file_id,
            &self.kek_salt,
            source_epoch,
            new_mk_epoch,
            new_mk_epoch,
            cipher_id,
        ) {
            Ok(bytes) => bytes,
            Err(e) => return Err(e),
        };
        Ok(self.begin_intent(new_mk_epoch, &source_proof, &supplied_source_proof, &target_proof))
    }

    /// The intent that begins a rekey, from its proofs.
    pub fn begin_intent(
        &self,
        new_mk_epoch: u64,
        source_proof: &[u8; 16],
        supplied_source_proof: &[u8; 16],
        target_proof: &[u8; 16],
    ) -> (intent: RekeyIntent)
        ensures
            intent == opening_intent(
                *self,
                new_mk_epoch,
                *source_proof,
                *supplied_source_proof,
                *target_proof,
            ),
    {
        let cipher_id: u8 = self.cipher_id.as_byte();
        RekeyIntent {
            source_mk_epoch: self.mk_epoch,
            target_mk_epoch: new_mk_epoch,
            source_cipher_id: cipher_id,
            target_cipher_id: cipher_id,
            same_kek: same_proof(source_proof, supplied_source_proof),
            stage: RekeyStage::Intent,
            source_hk_proof: *source_proof,
            target_hk_proof: *target_proof,
        }
    }

    /// The rekey intent that the catalog holds, if there is one.
    pub fn load_rekey_intent(&self, catalog: &BTree<CatalogValue>) -> (r: Result<
        Option<RekeyIntent>,
    >)
        requires
            catalog.wf(),
        ensures
            r == loaded_intent(
                self.writer.catalog_root_page_id,
                catalog@,
                self.cipher_id.byte(),
            ),
    {
        if self.writer.catalog_root_page_id == 0 {
            return Ok(None);
        }
        let key: Vec<u8> = Catalog::rekey_state_key();
        let value: &CatalogValue = match catalog.get(&key) {
            Some(value) => value,
            None => return Ok(None),
        };
        let intent: RekeyIntent = match Catalog::rekey_intent_of(value) {
            Ok(intent) => intent,
            Err(e) => return Err(e),
        };
        match validate_intent_for_current_cipher(&intent, self.cipher_id.as_byte()) {
            Ok(()) => Ok(Some(intent)),
            Err(e) => Err(e),
        }
    }

    /// The epoch that a rekey under way leads to.
    pub fn load_rekey_watermark(&self, catalog: &BTree<CatalogValue>) -> (r: Result<Option<u64>>)
        requires
            catalog.wf(),
        ensures
            r == match loaded_intent(
                self.writer.catalog_root_page_id,
                catalog@,
                self.cipher_id.byte(),
            ) {
                Ok(Some(i)) => Ok::<Option<u64>, PagedbError>(Some(i.target_mk_epoch)),
                Ok(None) => Ok::<Option<u64>, PagedbError>(None),
                Err(e) => Err::<Option<u64>, PagedbError>(e),
            },
    {
        match self.load_rekey_intent(catalog) {
            Ok(Some(intent)) => Ok(Some(intent.target_mk_epoch)),
            Ok(None) => Ok(None),
            Err(e) => Err(e),
        }
    }

    /// Leaves an intent at its first stage among the catalog's rows, as a rekey
    /// with the same key-encryption key does that is interrupted at once. It
    /// carries no proof of the target key.
    pub fn inject_incomplete_rekey_watermark(
        &self,
        catalog: &mut BTree<CatalogValue>,
        target_epoch: u64,
        source_proof: [u8; 16],
    ) -> (r: Result<()>)
        requires
            old(catalog).wf(),
        ensures
            final(catalog).wf(),
            if self.poisoned_commit is Some {
                &&& r == Err::<(), PagedbError>(
                    PagedbError::DurablyCommittedButUnpublished { commit: self.poisoned_commit->0 },
                )
                &&& *final(catalog) == *old(catalog)
            } else if self.mode != DbMode::Standalone {
                r == Err::<(), PagedbError>(PagedbError::Unsupported) && *final(catalog) == *old(
                    catalog,
                )
            } else {
                &&& r is Ok
                &&& final(catalog).root() == old(catalog).root()
                &&& final(catalog).next() == old(catalog).next()
                &&& exists|i: RekeyIntent|
                    #[trigger] begins_unproven(*self, target_epoch, source_proof, i)
                        && final(catalog)@ == with_row(
                        old(catalog)@,
                        seq![KIND_REKEY_STATE],
                        CatalogValue::RekeyState(i),
                    )
            },
    {
        match self.ensure_usable() {
            Ok(()) => {},
            Err(e) => return Err(e),
        }
        if self.mode != DbMode::Standalone {
            return Err(PagedbError::Unsupported);
        }
        let unproven: [u8; 16] = [0u8; 16];
        let intent: RekeyIntent = self.begin_intent(
            target_epoch,
            &source_proof,
            &source_proof,
            &unproven,
        );
        write_intent_row(catalog, &intent);
        proof {
            assert(begins_unproven(*self, target_epoch, source_proof, intent));
        }
        Ok(())
    }

    /// Refuses to go on with an intent whose keys do not prove to be the
    /// leased ones.
    pub fn check_rekey_proofs(
        intent: &RekeyIntent,
        source_proof: &[u8; 16],
        target_proof: &[u8; 16],
    ) -> (r: Result<()>)
        ensures
            r == if source_proof@ == intent.source_hk_proof@ && target_proof@
                == intent.target_hk_proof@ {
                Ok::<(), PagedbError>(())
            } else {
                Err::<(), PagedbError>(
                    PagedbError::RekeyCounterpartKeyInvalid {
                        source_epoch: intent.source_mk_epoch,
                        target_epoch: intent.target_mk_epoch,
                    },
                )
            },
    {
        if !same_proof(source_proof, &intent.source_hk_proof) || !same_proof(
            target_proof,
            &intent.target_hk_proof,
        ) {
            return Err(
                PagedbError::RekeyCounterpartKeyInvalid {
                    source_epoch: intent.source_mk_epoch,
                    target_epoch: intent.target_mk_epoch,
                },
            );
        }
        Ok(())
    }

    /// Admits an intent with the header keys of its leased master keys, and says
    /// where to go on.
    pub fn resume_rekey_locked(
        &self,
        intent: &RekeyIntent,
        source_hk: &DerivedKey,
        target_hk: &DerivedKey,
    ) -> (r: Result<RekeyStep>)
        ensures
            ({
                let i = *intent;
                let source = proof_of(
                    *source_hk,
                    self.file_id,
                    self.kek_salt,
                    i.source_mk_epoch,
                    i.target_mk_epoch,
                    i.source_mk_epoch,
                    i.source_cipher_id,
                );
                let target = proof_of(
                    *target_hk,
                    self.file_id,
                    self.kek_salt,
                    i.source_mk_epoch,
                    i.target_mk_epoch,
                    i.target_mk_epoch,
                    i.target_cipher_id,
                );
                match cipher_fault(i, self.cipher_id.byte()) {
                    Some(e) => r == Err::<RekeyStep, PagedbError>(e),
                    None => if source == i.source_hk_proof@ && target == i.target_hk_proof@ {
                        r == Ok::<RekeyStep, PagedbError>(resume_at(i.stage))
                    } else {
                        r == Err::<RekeyStep, PagedbError>(
                            PagedbError::RekeyCounterpartKeyInvalid {
                                source_epoch: i.source_mk_epoch,
                                target_epoch: i.target_mk_epoch,
                            },
                        )
                    },
                }
            }),
    {
        match validate_intent_for_current_cipher(intent, self.cipher_id.as_byte()) {
            Ok(()) => {},
            Err(e) => return Err(e),
        }
        let source_proof: [u8; 16] = match intent_proof(
            source_hk,
            &self.file_id,
            &self.kek_salt,
            intent.source_mk_epoch,
            intent.target_mk_epoch,
            intent.source_mk_epoch,
            intent.source_cipher_id,
        ) {
            Ok(bytes) => bytes,
            Err(e) => return Err(e),
        };
        let target_proof: [u8; 16] = match intent_proof(
            target_hk,
            &self.file_id,
            &self.kek_salt,
            intent.source_mk_epoch,
            intent.target_mk_epoch,
            intent.target_mk_epoch,
            intent.target_cipher_id,
        ) {
            Ok(bytes) => bytes,
            Err(e) => return Err(e),
        };
        match Db::check_rekey_proofs(intent, &source_proof, &target_proof) {
            Ok(()) => {},
            Err(e) => return Err(e),
        }
        Ok(first_rekey_step(intent.stage))
    }

    /// The intent to resume; its absence is an error here.
    pub fn resume_rekey_intent(&self, catalog: &BTree<CatalogValue>) -> (r: Result<RekeyIntent>)
        requires
            catalog.wf(),
        ensures
            r == match loaded_intent(
                self.writer.catalog_root_page_id,
                catalog@,
                self.cipher_id.byte(),
            ) {
                Ok(Some(i)) => Ok::<RekeyIntent, PagedbError>(i),
                Ok(None) => Err::<RekeyIntent, PagedbError>(
                    PagedbError::RekeyStateInvalid { field: "rekey.intent_missing" },
                ),
                Err(e) => Err::<RekeyIntent, PagedbError>(e),
            },
    {
        match self.load_rekey_intent(catalog) {
            Ok(Some(intent)) => Ok(intent),
            Ok(None) => Err(PagedbError::RekeyStateInvalid { field: "rekey.intent_missing" }),
            Err(e) => Err(e),
        }
    }

    /// Takes what a step of a rekey came to and says what follows. The outcome
    /// of the segment check is whether a segment still needs migrating; that of
    /// every other step is ignored when it succeeded. A failure leaves the
    /// handle poisoned.
    pub fn finish_rekey_locked(
        &mut self,
        keyring: &mut EpochKeyring,
        intent: &RekeyIntent,
        step: RekeyStep,
        outcome: Result<bool>,
    ) -> (r: Result<RekeyStep>)
        requires
            old(keyring).wf(),
        ensures
            poison_kept(*old(self), *final(self)),
            rekey_kept(old(self).writer, final(self).writer),
            final(keyring).wf(),
            match step_fault(*intent, step, outcome) {
                Some(e) => {
                    &&& r == Err::<RekeyStep, PagedbError>(rekey_failure(*old(self), e))
                    &&& *final(self) == failed_rekey(*old(self))
                    &&& final(keyring)@ == old(keyring)@
                },
                None => {
                    &&& r == Ok::<RekeyStep, PagedbError>(next_rekey(step))
                    &&& advanced(*old(self), *final(self), *intent, step)
                    &&& final(keyring)@ == keys_after(*old(self), old(keyring)@, *intent, step)
                },
            },
    {
        let fault: Option<PagedbError> = match outcome {
            Err(e) => Some(e),
            Ok(pending) => match step {
                RekeyStep::CheckSegments => if pending {
                    Some(PagedbError::RekeyStateInvalid { field: "rekey.segments_pending" })
                } else {
                    None
                },
                RekeyStep::ClearIntent => match CipherId::from_byte(intent.source_cipher_id) {
                    Ok(cipher_id) => {
                        if self.retire_rekey_source_when_safe(intent.source_mk_epoch, cipher_id) {
                            keyring.remove(intent.source_mk_epoch, cipher_id);
                        }
                        None
                    },
                    Err(e) => Some(e),
                },
                RekeyStep::PublishTargetHeader => {
                    self.mk_epoch = intent.target_mk_epoch;
                    None
                },
                _ => None,
            },
        };
        if let Some(e) = fault {
            let commit: CommitId = CommitId(self.writer.latest_commit_id);
            self.poison(commit);
            return Err(PagedbError::RekeyTargetEpochActivated { commit, source: Box::new(e) });
        }
        Ok(following_rekey_step(step))
    }

    /// Drops the source keys whose retirement was deferred, once no tracked
    /// reader remains.
    pub fn retire_due_keys(&mut self, keyring: &mut EpochKeyring)
        requires
            old(keyring).wf(),
        ensures
            poison_kept(*old(self), *final(self)),
            final(keyring).wf(),
            *final(self) == (Db {
                pending_key_retirements: final(self).pending_key_retirements,
                ..*old(self)
            }),
            if old(self).tracked_readers@.len() == 0 {
                &&& final(self).pending_key_retirements@.len() == 0
                &&& final(keyring)@ == old(keyring)@.remove_keys(
                    retired_ids(old(self).pending_key_retirements@),
                )
            } else {
                *final(self) == *old(self) && final(keyring)@ == old(keyring)@
            },
    {
        let due: Vec<PendingKeyRetirement> = self.drain_pending_key_retirements();
        let ghost before = keyring@;
        let mut i: usize = 0;
        proof {
            assert(due@.take(0) =~= Seq::<PendingKeyRetirement>::empty());
            assert(before.remove_keys(Set::<(u64, u8)>::empty()) =~= before);
        }
        while i < due.len()
            invariant
                i <= due@.len(),
                keyring.wf(),
                keyring@ == before.remove_keys(retired_ids(due@.take(i as int))),
            decreases due@.len() - i,
        {
            keyring.remove(due[i].epoch, due[i].cipher_id);
            proof {
                assert(due@.take(i + 1).drop_last() =~= due@.take(i as int));
                assert(due@.take(i + 1).last() == due@[i as int]);
                assert(keyring@ =~= before.remove_keys(retired_ids(due@.take(i + 1))));
            }
            i = i + 1;
        }
        proof {
            assert(due@.take(i as int) =~= due@);
            if due@.len() == 0 {
                assert(before.remove_keys(retired_ids(due@)) =~= before);
            }
        }
    }

    /// The free-list entries to write once a catalog rewrite superseded pages;
    /// none when it superseded no page.
    pub fn record_rekey_freed_pages(
        &self,
        window: &Vec<(u64, u64)>,
        chain_pages: &Vec<u64>,
        freed: &Vec<u64>,
    ) -> (entries: Option<Vec<(u64, u64)>>)
        ensures
            match entries {
                None => freed@.len() == 0,
                Some(out) => freed@.len() != 0 && out@ == rekeyed_entries(
                    window@,
                    chain_pages@,
                    freed@,
                    self.writer.latest_commit_id,
                ),
            },
    {
        if freed.len() == 0 {
            return None;
        }
        let mut out: Vec<(u64, u64)> = Vec::new();
        let mut i: usize = 0;
        while i < window.len()
            invariant
                i <= window@.len(),
                out@ == window@.take(i as int),
            decreases window@.len() - i,
        {
            out.push(window[i]);
            proof {
                assert(out@ =~= window@.take(i + 1));
            }
            i = i + 1;
        }
        proof {
            assert(window@.take(i as int) =~= window@);
        }
        push_tagged(&mut out, freed, self.writer.latest_commit_id);
        push_tagged(&mut out, chain_pages, CHAIN_METADATA_CID);
        Some(out)
    }

    /// Goes on with a free-list chain that was rewritten for a rekey.
    pub fn adopt_rekey_chain(&mut self, free_list_root_page_id: u64)
        ensures
            poison_kept(*old(self), *final(self)),
            rekey_kept(old(self).writer, final(self).writer),
            *final(self) == (Db {
                writer: WriterState { free_list_root_page_id, ..old(self).writer },
                ..*old(self)
            }),
    {
        self.writer.free_list_root_page_id = free_list_root_page_id;
    }

    /// The catalog commit of a rekey: the rewritten catalog, and a cursor that
    /// never falls behind the state's.
    pub fn rekey_catalog_commit(&self, catalog_root_page_id: u64, next_page_id: u64) -> (c:
        RekeyCatalogCommit)
        ensures
            c == (RekeyCatalogCommit {
                catalog_root_page_id,
                next_page_id: later_cursor(next_page_id, self.writer.next_page_id),
            }),
    {
        RekeyCatalogCommit {
            catalog_root_page_id,
            next_page_id: if next_page_id >= self.writer.next_page_id {
                next_page_id
            } else {
                self.writer.next_page_id
            },
        }
    }

    /// The header of a rekey's catalog commit. It preserves what an ordinary
    /// commit would reset: a pending apply journal, the restore mode and the
    /// retention fields.
    pub fn rekey_header_fields(
        &self,
        c: &RekeyCatalogCommit,
        mk_epoch: u64,
        counter_anchor: u64,
    ) -> (r: Result<MainDbHeaderFields>)
        ensures
            match r {
                Ok(f) => {
                    &&& self.header_cursor.seq < u64::MAX
                    &&& is_rekey_header(
                        *self,
                        *c,
                        mk_epoch,
                        (self.header_cursor.seq + 1) as u64,
                        counter_anchor,
                        f,
                    )
                },
                Err(PagedbError::ArithmeticOverflow { what }) => what == "header sequence"
                    && self.header_cursor.seq == u64::MAX,
                Err(e) => e == PagedbError::Unsupported && self.header_cursor.seq < u64::MAX
                    && !self.page_size_supported(),
            },
    {
        let seq: u64 = match self.header_cursor.next_seq() {
            Ok(seq) => seq,
            Err(e) => return Err(e),
        };
        let (journal_page_id, journal_version) = encode_journal_id(
            &self.writer.pending_apply_journal_id,
        );
        let log2: u8 = match page_size_log2(self.page_size) {
            Ok(log2) => log2,
            Err(e) => return Err(e),
        };
        Ok(
            MainDbHeaderFields {
                format_version: self.format_version,
                cipher_id: self.cipher_id.as_byte(),
                page_size_log2: log2,
                flags: self.header_flags,
                file_id: self.file_id,
                kek_salt: self.kek_salt,
                mk_epoch,
                seq,
                active_root_page_id: self.writer.root_page_id,
                active_root_txn_id: self.writer.latest_commit_id,
                counter_anchor,
                commit_id: CommitId(self.writer.latest_commit_id),
                free_list_root: encode_free_list_root(self.writer.free_list_root_page_id),
                catalog_root: encode_root_ref(
                    c.catalog_root_page_id,
                    self.writer.catalog_root_txn_id,
                ),
                apply_journal_root_page_id: journal_page_id,
                apply_journal_root_version: journal_version,
                commit_history_root_page_id: self.writer.commit_history_root_page_id,
                commit_history_root_version: self.writer.commit_history_root_version,
                restore_mode: self.writer.restore_mode,
                next_page_id: c.next_page_id,
                commit_retain_policy_tag: self.writer.commit_retain_policy_tag,
                commit_retain_policy_value: self.writer.commit_retain_policy_value,
                realm_id: self.realm_id,
            },
        )
    }

    /// Ends a rekey's catalog commit by how its last steps went: the header
    /// write, the anchor and the segment effects.
    pub fn commit_rekey_catalog_root(
        &mut self,
        c: &RekeyCatalogCommit,
        header: Result<(ActiveSlot, u64)>,
        anchored: bool,
        reconciled: Result<SegmentReconciliation>,
    ) -> (r: Result<SegmentReconciliation>)
        ensures
            poison_kept(*old(self), *final(self)),
            rekey_kept(old(self).writer, final(self).writer),
            match header {
                Err(e) => r == Err::<SegmentReconciliation, PagedbError>(e) && *final(self) == *old(
                    self,
                ),
                Ok((slot, seq)) => {
                    let after = Db {
                        header_cursor: HeaderCursor { slot, seq },
                        writer: rekeyed(old(self).writer, *c),
                        ..*old(self)
                    };
                    let commit = CommitId(old(self).writer.latest_commit_id);
                    if anchored && reconciled is Ok {
                        r == reconciled && *final(self) == (Db {
                            snapshot: snapshot_of(after.writer),
                            ..after
                        })
                    } else {
                        &&& r == Err::<SegmentReconciliation, PagedbError>(
                            PagedbError::DurablyCommittedButUnpublished { commit },
                        )
                        &&& *final(self) == poisoned(after, commit)
                    }
                },
            },
    {
        let (slot, seq) = match header {
            Ok(written) => written,
            Err(e) => return Err(e),
        };
        self.header_cursor = HeaderCursor { slot, seq };
        self.writer.catalog_root_page_id = c.catalog_root_page_id;
        self.writer.next_page_id = c.next_page_id;
        let state: WriterState = self.writer;
        self.finish_durable_commit(
            &state,
            CommitId(state.latest_commit_id),
            anchored,
            reconciled,
        )
    }
}

/// The step that a stage resumes at.
fn first_rekey_step(stage: RekeyStage) -> (step: RekeyStep)
    ensures
        step == resume_at(stage),
{
    match stage {
        RekeyStage::Intent => RekeyStep::RewriteMainPages,
        RekeyStage::MainPagesTargetReadable => RekeyStep::PublishTargetHeader,
        RekeyStage::HeaderTargetPublished => RekeyStep::RewriteCatalogPages,
        RekeyStage::MainDone => RekeyStep::RecordSegmentsPending,
        RekeyStage::SegmentsPending => RekeyStep::MigrateSegments,
    }
}

/// The step that follows one that succeeded.
fn following_rekey_step(step: RekeyStep) -> (next: RekeyStep)
    ensures
        next == next_rekey(step),
{
    match step {
        RekeyStep::RewriteMainPages => RekeyStep::PublishTargetHeader,
        RekeyStep::PublishTargetHeader => RekeyStep::RewriteCatalogPages,
        RekeyStep::RewriteCatalogPages => RekeyStep::RecordMainDone,
        RekeyStep::RecordMainDone => RekeyStep::RecordSegmentsPending,
        RekeyStep::RecordSegmentsPending => RekeyStep::MigrateSegments,
        RekeyStep::MigrateSegments => RekeyStep::CheckSegments,
        RekeyStep::CheckSegments => RekeyStep::ClearIntent,
        RekeyStep::ClearIntent => RekeyStep::Done,
        RekeyStep::Done => RekeyStep::Done,
    }
}

fn push_tagged(out: &mut Vec<(u64, u64)>, pages: &Vec<u64>, commit: u64)
    ensures
        final(out)@ == old(out)@ + tagged(pages@, commit),
{
    let mut i: usize = 0;
    proof {
        assert(out@ =~= old(out)@ + tagged(pages@.take(0), commit));
    }
    while i < pages.len()
        invariant
            i <= pages@.len(),
            out@ == old(out)@ + tagged(pages@.take(i as int), commit),
        decreases pages@.len() - i,
    {
        out.push((commit, pages[i]));
        proof {
            assert(out@ =~= old(out)@ + tagged(pages@.take(i + 1), commit));
        }
        i = i + 1;
    }
    proof {
        assert(pages@.take(i as int) =~= pages@);
    }
}

/// How many steps a rekey that meets no failure still takes.
pub open spec fn rekey_steps_left(step: RekeyStep) -> nat {
    match step {
        RekeyStep::RewriteMainPages => 8,
        RekeyStep::PublishTargetHeader => 7,
        RekeyStep::RewriteCatalogPages => 6,
        RekeyStep::RecordMainDone => 5,
        RekeyStep::RecordSegmentsPending => 4,
        RekeyStep::MigrateSegments => 3,
        RekeyStep::CheckSegments => 2,
        RekeyStep::ClearIntent => 1,
        RekeyStep::Done => 0,
    }
}

/// The step that `n` successes lead to.
pub open spec fn after_successes(step: RekeyStep, n: nat) -> RekeyStep
    decreases n,
{
    if n == 0 {
        step
    } else {
        after_successes(next_rekey(step), (n - 1) as nat)
    }
}

/// Whatever stage an interruption left, a resumed rekey that meets no failure
/// completes, and on its way passes the check that no segment is left behind and
/// drops the intent.
pub proof fn law_every_stage_resumes_to_completion(stage: RekeyStage)
    ensures
        ({
            let left = rekey_steps_left(resume_at(stage));
            &&& after_successes(resume_at(stage), left) == RekeyStep::Done
            &&& left >= 3
            &&& after_successes(resume_at(stage), (left - 2) as nat) == RekeyStep::CheckSegments
            &&& after_successes(resume_at(stage), (left - 1) as nat) == RekeyStep::ClearIntent
        }),
{
    reveal_with_fuel(after_successes, 9);
}

/// Resuming from a stage that a step made durable goes on with the step that
/// follows: no durable step is repeated and none is passed over. The one stage
/// that is never written down is reached again by repeating the rewrite.
pub proof fn law_resume_continues_where_it_stopped(step: RekeyStep, stage: RekeyStage)
    requires
        writes_intent(step),
    ensures
        resume_at(stage_after(step, stage)) == next_rekey(step),
        stage_after(step, stage) != RekeyStage::MainPagesTargetReadable,
        next_rekey(resume_at(RekeyStage::Intent)) == resume_at(
            RekeyStage::MainPagesTargetReadable,
        ),
{
}

/// A rekey's stages only advance: the step that an intent resumes at, and every
/// step after it, moves the stage forward or leaves it.
pub proof fn law_rekey_stages_only_advance(stage: RekeyStage, n: nat)
    ensures
        stage_byte(stage_after(after_successes(resume_at(stage), n), stage)) >= stage_byte(stage),
    decreases n,
{
    lemma_steps_left(resume_at(stage), n);
}

proof fn lemma_steps_left(step: RekeyStep, n: nat)
    ensures
        rekey_steps_left(after_successes(step, n)) <= rekey_steps_left(step),
    decreases n,
{
    if n > 0 {
        lemma_steps_left(next_rekey(step), (n - 1) as nat);
    }
}

/// A completed rekey keeps the target key, and drops the source key at once when
/// no reader is tracked, else when the last of them is gone.
pub proof fn law_completed_rekey_retires_the_source(
    db: Db,
    after: Db,
    keys: Map<(u64, u8), MasterKey>,
    intent: RekeyIntent,
)
    requires
        advanced(db, after, intent, RekeyStep::ClearIntent),
        epochs_advance(intent),
        keys.dom().contains((intent.target_mk_epoch, intent.target_cipher_id)),
    ensures
        ({
            let source = (intent.source_mk_epoch, intent.source_cipher_id);
            let target = (intent.target_mk_epoch, intent.target_cipher_id);
            let kept = keys_after(db, keys, intent, RekeyStep::ClearIntent);
            &&& kept.dom().contains(target) && kept[target] == keys[target]
            &&& db.tracked_readers@.len() == 0 ==> !kept.dom().contains(source)
            &&& db.tracked_readers@.len() != 0 ==> kept == keys && retired_ids(
                after.pending_key_retirements@,
            ).contains(source)
        }),
{
    let source = (intent.source_mk_epoch, intent.source_cipher_id);
    if db.tracked_readers@.len() != 0 {
        let c = choose|cipher_id: CipherId|
            #![trigger cipher_id.byte()]
            cipher_id.byte() == intent.source_cipher_id
                && after.pending_key_retirements@ == if db.tracked_readers@.len() == 0
                || db.pending_key_retirements@.contains(
                PendingKeyRetirement { epoch: intent.source_mk_epoch, cipher_id },
            ) {
                db.pending_key_retirements@
            } else {
                db.pending_key_retirements@.push(
                    PendingKeyRetirement { epoch: intent.source_mk_epoch, cipher_id },
                )
            };
        let entry = PendingKeyRetirement { epoch: intent.source_mk_epoch, cipher_id: c };
        let due = after.pending_key_retirements@;
        if db.pending_key_retirements@.contains(entry) {
            let i = choose|i: int| 0 <= i < due.len() && due[i] == entry;
            lemma_retired(due, i);
        } else {
            lemma_retired(due, due.len() - 1);
        }
    }
}

proof fn lemma_retired(due: Seq<PendingKeyRetirement>, i: int)
    requires
        0 <= i < due.len(),
    ensures
        retired_ids(due).contains((due[i].epoch, due[i].cipher_id.byte())),
    decreases due.len(),
{
    if i < due.len() - 1 {
        lemma_retired(due.drop_last(), i);
        assert(due.drop_last()[i] == due[i]);
    }
}

/// The header of a rekey's catalog commit records the state that the handle
/// goes on with, journal, restore mode and retention fields included: a reopen
/// after any of its commits loses nothing.
pub proof fn law_rekey_header_records_state(
    db: Db,
    c: RekeyCatalogCommit,
    mk_epoch: u64,
    seq: u64,
    counter_anchor: u64,
    f: MainDbHeaderFields,
)
    requires
        is_rekey_header(db, c, mk_epoch, seq, counter_anchor, f),
    ensures
        records_state(f, rekeyed(db.writer, c)),
{
}

/// A rekey's catalog commits are no commits to readers: the data root, the
/// history and the commit number stay.
pub proof fn law_rekey_commit_keeps_data(state: WriterState, c: RekeyCatalogCommit)
    ensures
        rekeyed(state, c).root_page_id == state.root_page_id,
        rekeyed(state, c).latest_commit_id == state.latest_commit_id,
        rekeyed(state, c).commit_history_root_page_id == state.commit_history_root_page_id,
        rekeyed(state, c).free_list_root_page_id == state.free_list_root_page_id,
        rekey_kept(state, rekeyed(state, c)),
{
}

/// No page that a rekey supersedes is lost: each is on the free list, as are the
/// pages that were there and the chain's own.
pub proof fn law_rekey_abandons_no_page(
    window: Seq<(u64, u64)>,
    chain_pages: Seq<u64>,
    freed: Seq<u64>,
    commit: u64,
    page: u64,
)
    requires
        names_page(window, page) || chain_pages.contains(page) || freed.contains(page),
    ensures
        names_page(rekeyed_entries(window, chain_pages, freed, commit), page),
{
    let out = rekeyed_entries(window, chain_pages, freed, commit);
    if names_page(window, page) {
        let i = choose|i: int| 0 <= i < window.len() && (#[trigger] window[i]).1 == page;
        assert(out[i] == window[i]);
    } else if freed.contains(page) {
        let i = choose|i: int| 0 <= i < freed.len() && freed[i] == page;
        assert(out[window.len() + i].1 == page);
    } else {
        let i = choose|i: int| 0 <= i < chain_pages.len() && chain_pages[i] == page;
        assert(out[window.len() + freed.len() + i].1 == page);
    }
}

/// Every root that a retained commit hands to readers is among those that a
/// rekey re-seals, bounded by that commit's own cursor.
pub proof fn law_rekey_covers_retained_commits(s: Seq<(Seq<u8>, Seq<u8>)>, i: int)
    requires
        0 <= i < s.len(),
    ensures
        ({
            let m = meta_of(s[i].1);
            &&& m.active_root_page_id != 0 ==> history_roots(s).contains(
                (m.active_root_page_id, m.next_page_id),
            )
            &&& m.catalog_root_page_id != 0 ==> history_roots(s).contains(
                (m.catalog_root_page_id, m.next_page_id),
            )
        }),
    decreases s.len(),
{
    let m = meta_of(s[i].1);
    let all = history_roots(s);
    let front = history_roots(s.drop_last());
    let back = row_roots(s.last().1);
    assert(all == front + back);
    let data = (m.active_root_page_id, m.next_page_id);
    let catalog = (m.catalog_root_page_id, m.next_page_id);
    if i < s.len() - 1 {
        law_rekey_covers_retained_commits(s.drop_last(), i);
        assert(s.drop_last()[i] == s[i]);
        if m.active_root_page_id != 0 {
            let k = choose|k: int| 0 <= k < front.len() && front[k] == data;
            assert(all[k] == data);
        }
        if m.catalog_root_page_id != 0 {
            let k = choose|k: int| 0 <= k < front.len() && front[k] == catalog;
            assert(all[k] == catalog);
        }
    } else {
        if m.active_root_page_id != 0 {
            assert(back[0] == data);
            assert(all[front.len() as int] == data);
        }
        if m.catalog_root_page_id != 0 {
            assert(back[back.len() - 1] == catalog);
            assert(all[all.len() - 1] == catalog);
        }
    }
}

/// Whether a rekey re-seals what stands under a root: that of the latest commit,
/// or one that the history hands to readers.
pub open spec fn is_resealed(db: Db, history: Seq<(Seq<u8>, Seq<u8>)>, root: u64) -> bool {
    root == db.snapshot.root_page_id || exists|next: u64|
        #[trigger] history_roots(history).contains((root, next))
}

/// What a page holds: its sealed bytes, opened under the epoch that it is sealed
/// under.
pub open spec fn opened_pages(
    unseal: spec_fn(u64, u64, Seq<u8>) -> Seq<u8>,
    epochs: Map<u64, u64>,
    sealed: Map<u64, Seq<u8>>,
) -> Map<u64, Seq<u8>> {
    Map::new(|p: u64| true, |p: u64| unseal(epochs[p], p, sealed[p]))
}

/// Sealing pages anew keeps every row: where each page that a rekey rewrites is
/// opened under its epoch and sealed under the target's, and the others are left
/// alone, the rows of any tree are what they were.
///
/// `seal` and `unseal` are the cipher, from an epoch, a page id and bytes to sealed
/// bytes and back; all that is asked of it is that it undoes what it did. `rows_of`
/// is what the pages that hold a tree come to.
pub proof fn law_resealing_keeps_rows<T>(
    seal: spec_fn(u64, u64, Seq<u8>) -> Seq<u8>,
    unseal: spec_fn(u64, u64, Seq<u8>) -> Seq<u8>,
    epochs: Map<u64, u64>,
    sealed: Map<u64, Seq<u8>>,
    target_epoch: u64,
    rewritten: Set<u64>,
    later_epochs: Map<u64, u64>,
    later_sealed: Map<u64, Seq<u8>>,
    rows_of: spec_fn(Map<u64, Seq<u8>>) -> T,
)
    requires
        forall|epoch: u64, p: u64, bytes: Seq<u8>|
            unseal(epoch, p, #[trigger] seal(epoch, p, bytes)) == bytes,
        forall|p: u64|
            #[trigger] rewritten.contains(p) ==> later_epochs[p] == target_epoch && later_sealed[p]
                == seal(target_epoch, p, unseal(epochs[p], p, sealed[p])),
        forall|p: u64|
            !#[trigger] rewritten.contains(p) ==> later_epochs[p] == epochs[p] && later_sealed[p]
                == sealed[p],
    ensures
        rows_of(opened_pages(unseal, later_epochs, later_sealed)) == rows_of(
            opened_pages(unseal, epochs, sealed),
        ),
{
    let before = opened_pages(unseal, epochs, sealed);
    let after = opened_pages(unseal, later_epochs, later_sealed);
    assert forall|p: u64| #[trigger] after[p] == before[p] by {
        if rewritten.contains(p) {
            assert(later_sealed[p] == seal(target_epoch, p, unseal(epochs[p], p, sealed[p])));
        }
    }
    assert(after =~= before);
}

/// A rekey keeps what every retained commit reads: after it, and after the store
/// is reopened, each commit that could be read before can be read, and gives for
/// every key what it gave.
///
/// `before` is the handle before the rekey and `last` the state that its commits
/// came to; `header` records it and `reopened` is opened from that header. The
/// maps are what the store's pages hold before the rekey and after it. Re-sealing
/// a page under another key leaves what the page holds.
pub proof fn law_rekey_keeps_retained_reads(
    before: Db,
    last: WriterState,
    header: MainDbHeaderFields,
    reopened: Db,
    commit: CommitId,
    history: BTree<Vec<u8>>,
    history_pages: Map<u64, Seq<(Seq<u8>, Seq<u8>)>>,
    r: Result<ReadTxn>,
    reading: Db,
    later_history: BTree<Vec<u8>>,
    later_history_pages: Map<u64, Seq<(Seq<u8>, Seq<u8>)>>,
    later_r: Result<ReadTxn>,
    later_reading: Db,
    pages: Map<u64, Seq<(Seq<u8>, Seq<u8>)>>,
    later_pages: Map<u64, Seq<(Seq<u8>, Seq<u8>)>>,
    tree: BTree<Vec<u8>>,
    later_tree: BTree<Vec<u8>>,
    key: Seq<u8>,
)
    requires
        before.snapshot == snapshot_of(before.writer),
        rekey_kept(before.writer, last),
        records_state(header, last),
        is_writer_of(reopened.writer, header),
        reopened.snapshot == snapshot_of(reopened.writer),
        reopened.poisoned_commit is None,
        history.root() == before.snapshot.commit_history_root_page_id,
        history.is_stored(history_pages),
        later_history.root() == reopened.snapshot.commit_history_root_page_id,
        later_history.is_stored(later_history_pages),
        rows_at(later_history_pages, history.root()) == rows_at(history_pages, history.root()),
        forall|root: u64|
            is_resealed(before, history@, root) ==> #[trigger] rows_at(later_pages, root)
                == rows_at(pages, root),
        begun_at(before, commit, history@, r, reading),
        r is Ok,
        begun_at(reopened, commit, later_history@, later_r, later_reading),
        tree.root() == r->Ok_0.root_page_id,
        tree.is_stored(pages),
        later_r is Ok ==> later_tree.root() == later_r->Ok_0.root_page_id,
        later_tree.is_stored(later_pages),
    ensures
        later_r is Ok,
        later_r->Ok_0.root_page_id == r->Ok_0.root_page_id,
        lookup(later_tree@, key) == lookup(tree@, key),
{
    assert(later_history@ == history@);
    let root = r->Ok_0.root_page_id;
    if commit.0 != before.snapshot.commit_id {
        let k = history_key(commit.0);
        let i = index_of_key(history@, k);
        let value = lookup(history@, k)->0;
        assert(has_key(history@, k));
        assert(history@[i].1 == value);
        law_rekey_covers_retained_commits(history@, i);
        if root != 0 {
            assert(history_roots(history@).contains((root, meta_of(value).next_page_id)));
        }
    }
    if root != 0 {
        assert(is_resealed(before, history@, root));
    }
    assert(rows_at(later_pages, root) == rows_at(pages, root));
}

/// A catalog holds no intent once the step that drops it ran, and exactly the
/// recorded one after a step that writes it.
pub proof fn law_recorded_intent_is_read_back(
    s: Seq<(Seq<u8>, CatalogValue)>,
    intent: RekeyIntent,
    step: RekeyStep,
    root_page_id: u64,
    current_cipher_id: u8,
)
    requires
        crate::tree::ascending(s),
        root_page_id != 0,
        intent_fault(intent) is None,
        intent.source_cipher_id == current_cipher_id,
        writes_intent(step) || step == RekeyStep::ClearIntent,
    ensures
        loaded_intent(root_page_id, step_rows(s, intent, step), current_cipher_id) == if step
            == RekeyStep::ClearIntent {
            Ok::<Option<RekeyIntent>, PagedbError>(None)
        } else {
            Ok::<Option<RekeyIntent>, PagedbError>(
                Some(RekeyIntent { stage: stage_after(step, intent.stage), ..intent }),
            )
        },
{
    let key = seq![KIND_REKEY_STATE];
    if step == RekeyStep::ClearIntent {
        crate::tree::lemma_without_row(s, key);
    } else {
        let staged = RekeyIntent { stage: stage_after(step, intent.stage), ..intent };
        crate::tree::lemma_slot_exists(s, key);
        let i = choose|i: int| crate::tree::is_slot(s, key, i);
        crate::tree::lemma_with_row(s, key, CatalogValue::RekeyState(staged), i);
    }
}

} // verus!
