//! Laws of changing a store's keys: what proves a key, which keys are held, where an
//! interrupted change is taken up, and what it leaves of segments and pages.

use vstd::prelude::*;

use crate::catalog::{CatalogValue, RekeyIntent, RekeySegmentProgress, RekeyStage, SegmentMeta};
use crate::codec::{le_bytes, lemma_byte_range_8, lemma_le_bytes_len, lemma_le_round_trip};
use crate::db::handle::{Db, PendingKeyRetirement, SegmentReconciliation, WriterState};
use crate::db::open::existing::writer_from_header;
use crate::db::reclaim::tagged;
use crate::db::rekey::intent::{
    hmac_sha256_of, intent_proof, proof_of_digest, validate_intent,
    validate_intent_for_current_cipher, write_proof_message,
};
use crate::db::rekey::keyring::{DerivedKey, EpochKeyring, MasterKey};
use crate::db::rekey::recovery::{
    key_if_proven, matching_key, needs_target_proof, pair_keys, resolve_rekey_key_pair,
    write_intent_row, DerivedPair, KekCandidate, RekeyProofContext, RekeyProofSpec,
};
use crate::db::rekey::segments::{
    are_catalog_rows, are_entries, batch_malformed, check_copied_page, check_orphan_opened,
    check_replacement, delete_rekey_progress, is_batch, is_cursor, is_run, is_segment_batch,
    law_segment_walk_is_exact, next_cursor, orphan_resolution, progress_source_id, rekey_page_range,
    replace_rekey_segment, segment_needs_rekey, write_rekey_progress, MigrationPlan, OrphanPlan,
    ProgressBatch, SegmentBatch, SegmentQuery,
};
use crate::db::rekey::stages::{
    begins_unproven, free_page_offset, law_rekey_covers_retained_commits, main_page_kind,
    retained_history_roots, retired_ids, stage_rekey_rows, PageRole, RekeyCatalogCommit, RekeyStep,
};
use crate::errors::{PagedbError, Result};
use crate::header::{law_root_ref_round_trip, MainDbHeaderFields};
use crate::ids::{ActiveSlot, CipherId, CommitId};
use crate::order::{
    has_prefix, lemma_lex_asymmetric, lemma_lex_successor, lemma_lex_transitive, lex_lt,
};
use crate::tree::{
    ascending, has_key, lemma_lookup_at, lemma_slot_exists, lemma_with_row, lemma_without_row,
    lookup, slot_of_key, with_row, BTree,
};
use crate::write::txn::SegmentSideEffect;

use super::bytes::{eight_up, law_eight_bytes_up};
use super::store::lemma_one_byte_prefix;

verus! {

/// What a proof is made over: the words `pagedb/rekey-proof/v1`, the file, the salt,
/// the two epochs of the change, the epoch that is proved, and the cipher.
pub proof fn law_proof_message(
    file: &[u8; 16],
    salt: &[u8; 16],
    source: u64,
    target: u64,
    epoch: u64,
    cipher: u8,
    message: Vec<u8>,
)
    requires
        call_ensures(write_proof_message, (file, salt, source, target, epoch, cipher), message),
    ensures
        message@.len() == 78,
        message@.subrange(0, 21) == seq![
            112u8, 97, 103, 101, 100, 98, 47, 114, 101, 107, 101, 121, 45, 112, 114, 111, 111, 102,
            47, 118, 49,
        ],
        message@.subrange(21, 37) == file@,
        message@.subrange(37, 53) == salt@,
        eight_up(message@.subrange(53, 61)) == source,
        eight_up(message@.subrange(61, 69)) == target,
        eight_up(message@.subrange(69, 77)) == epoch,
        message@[77] == cipher,
{
    lemma_byte_range_8();
    lemma_le_bytes_len(source as nat, 8);
    lemma_le_bytes_len(target as nat, 8);
    lemma_le_bytes_len(epoch as nat, 8);
    lemma_le_round_trip(source as nat, 8);
    lemma_le_round_trip(target as nat, 8);
    lemma_le_round_trip(epoch as nat, 8);
    let domain = crate::db::rekey::intent::proof_domain();
    assert(domain.len() == 21);
    assert(message@.subrange(0, 21) =~= domain);
    assert(message@.subrange(21, 37) =~= file@);
    assert(message@.subrange(37, 53) =~= salt@);
    assert(message@.subrange(53, 61) =~= le_bytes(source as nat, 8));
    assert(message@.subrange(61, 69) =~= le_bytes(target as nat, 8));
    assert(message@.subrange(69, 77) =~= le_bytes(epoch as nat, 8));
    law_eight_bytes_up(message@.subrange(53, 61));
    law_eight_bytes_up(message@.subrange(61, 69));
    law_eight_bytes_up(message@.subrange(69, 77));
}

/// A proof is the first sixteen bytes of the digest of its message under the derived
/// key, and there always is one.
pub proof fn law_proof_is_of_its_message(
    hk: &DerivedKey,
    file: &[u8; 16],
    salt: &[u8; 16],
    source: u64,
    target: u64,
    epoch: u64,
    cipher: u8,
    message: Vec<u8>,
    r: Result<[u8; 16]>,
    digest: &[u8; 32],
    cut: [u8; 16],
)
    requires
        call_ensures(write_proof_message, (file, salt, source, target, epoch, cipher), message),
        call_ensures(intent_proof, (hk, file, salt, source, target, epoch, cipher), r),
        call_ensures(proof_of_digest, (digest,), cut),
    ensures
        r is Ok,
        r->Ok_0@ == hmac_sha256_of(hk.0@, message@).subrange(0, 16),
        cut@ == digest@.subrange(0, 16),
{
}

/// A change of keys is valid where its epoch advances and its ciphers are known; for
/// a store, where both are the store's own.
pub proof fn law_intent_is_validated(
    intent: &RekeyIntent,
    r: Result<()>,
    cipher: u8,
    own: Result<()>,
)
    requires
        call_ensures(validate_intent, (intent,), r),
        call_ensures(validate_intent_for_current_cipher, (intent, cipher), own),
    ensures
        r is Ok <==> intent.target_mk_epoch > intent.source_mk_epoch && (intent.source_cipher_id
            == 1 || intent.source_cipher_id == 2) && (intent.target_cipher_id == 1
            || intent.target_cipher_id == 2),
        intent.target_mk_epoch <= intent.source_mk_epoch ==> r == Err::<(), PagedbError>(
            PagedbError::RekeyStateInvalid { field: "rekey.target_mk_epoch" },
        ),
        r is Err ==> own == r,
        own is Ok <==> r is Ok && intent.source_cipher_id == cipher && intent.target_cipher_id
            == cipher,
        r is Ok && intent.source_cipher_id != cipher ==> own == Err::<(), PagedbError>(
            PagedbError::RekeyStateInvalid { field: "source_cipher_id" },
        ),
        r is Ok && intent.source_cipher_id == cipher && intent.target_cipher_id != cipher ==> own
            == Err::<(), PagedbError>(
            PagedbError::RekeyStateInvalid { field: "target_cipher_id" },
        ),
{
}

/// A key that was installed is the one that is leased for its epoch and cipher, until
/// it is removed; the keys of other epochs and ciphers stay as they are. A key that
/// is not held is missed by its epoch and cipher.
pub proof fn law_keyring(
    ring: &mut EpochKeyring,
    epoch: u64,
    cipher: CipherId,
    mk: MasterKey,
    unit: (),
    cut: &mut EpochKeyring,
    before: &EpochKeyring,
    with: &EpochKeyring,
    without: &EpochKeyring,
    e: u64,
    c: CipherId,
    was: Result<MasterKey>,
    installed: Result<MasterKey>,
    removed: Result<MasterKey>,
)
    requires
        old(ring).wf(),
        call_ensures(EpochKeyring::install, (ring, epoch, cipher, mk), unit),
        old(cut)@ == old(ring)@,
        call_ensures(EpochKeyring::remove, (cut, epoch, cipher), unit),
        *before == *old(ring),
        *with == *final(ring),
        *without == *final(cut),
        call_ensures(EpochKeyring::lease, (before, e, c), was),
        call_ensures(EpochKeyring::lease, (with, e, c), installed),
        call_ensures(EpochKeyring::lease, (without, e, c), removed),
    ensures
        e == epoch && c == cipher ==> installed == Ok::<MasterKey, PagedbError>(mk),
        e == epoch && c == cipher ==> removed is Err,
        !(e == epoch && c == cipher) ==> installed == was && removed == was,
        was is Err ==> was->Err_0 == (PagedbError::MissingPersistedKey {
            mk_epoch: e,
            cipher_id: if c is Aes256Gcm {
                1u8
            } else {
                2u8
            },
        }),
{
}

/// A new ring holds its one key, and a copy holds what the ring holds.
pub proof fn law_new_keyring(
    epoch: u64,
    cipher: CipherId,
    mk: MasterKey,
    ring: EpochKeyring,
    copy: EpochKeyring,
    e: u64,
    c: CipherId,
    r: Result<MasterKey>,
    s: Result<MasterKey>,
)
    requires
        call_ensures(EpochKeyring::new, (epoch, cipher, mk), ring),
        call_ensures(EpochKeyring::duplicate, (&ring,), copy),
        call_ensures(EpochKeyring::lease, (&ring, e, c), r),
        call_ensures(EpochKeyring::lease, (&copy, e, c), s),
    ensures
        r is Ok <==> e == epoch && c == cipher,
        r is Ok ==> r->Ok_0 == mk,
        s == r,
{
}

/// A key is taken where it proves itself, for the file, the salt and the epochs of the
/// change and for its own side: by the proof that is recorded.
pub proof fn law_key_proves_itself(
    keys: &DerivedPair,
    context: &RekeyProofContext,
    side: &RekeyProofSpec,
    r: Result<Option<MasterKey>>,
    proof_bytes: Result<[u8; 16]>,
    mk: MasterKey,
    derived: &[u8; 16],
    expected: &[u8; 16],
    key: Option<MasterKey>,
)
    requires
        call_ensures(matching_key, (keys, context, side), r),
        call_ensures(
            intent_proof,
            (
                &keys.hk,
                &context.file_id,
                &context.salt,
                context.source_epoch,
                context.target_epoch,
                side.epoch,
                side.cipher_id,
            ),
            proof_bytes,
        ),
        call_ensures(key_if_proven, (mk, derived, expected), key),
    ensures
        r is Ok,
        r->Ok_0 is Some <==> proof_bytes->Ok_0@ == side.expected@,
        r->Ok_0 is Some ==> r->Ok_0->0 == keys.mk,
        key is Some <==> derived@ == expected@,
        key is Some ==> key->0 == mk,
{
}

/// With one key-encryption key for both epochs both of its keys must prove
/// themselves. With two, one yields the source's key and the other the target's; which
/// of them is supplied first does not matter for that. Without the second the change
/// cannot be taken up, and a pair that does not prove itself is refused.
pub proof fn law_key_pair(
    primary: &KekCandidate,
    other: &KekCandidate,
    context: &RekeyProofContext,
    source: &RekeyProofSpec,
    target: &RekeyProofSpec,
    sp: Option<MasterKey>,
    tp: Option<MasterKey>,
    so: Option<MasterKey>,
    to: Option<MasterKey>,
    same: Result<(MasterKey, MasterKey)>,
    alone: Result<(MasterKey, MasterKey)>,
    both: Result<(MasterKey, MasterKey)>,
    pair: Option<(MasterKey, MasterKey)>,
)
    requires
        call_ensures(
            matching_key,
            (&primary.source, context, source),
            Ok::<Option<MasterKey>, PagedbError>(sp),
        ),
        call_ensures(
            matching_key,
            (&primary.target, context, target),
            Ok::<Option<MasterKey>, PagedbError>(tp),
        ),
        call_ensures(
            matching_key,
            (&other.source, context, source),
            Ok::<Option<MasterKey>, PagedbError>(so),
        ),
        call_ensures(
            matching_key,
            (&other.target, context, target),
            Ok::<Option<MasterKey>, PagedbError>(to),
        ),
        call_ensures(
            resolve_rekey_key_pair,
            (primary, None, context, source, target, true),
            same,
        ),
        call_ensures(
            resolve_rekey_key_pair,
            (primary, None, context, source, target, false),
            alone,
        ),
        call_ensures(
            resolve_rekey_key_pair,
            (primary, Some(other), context, source, target, false),
            both,
        ),
        call_ensures(pair_keys, (sp, tp, so, to), pair),
    ensures
        ({
            let invalid = PagedbError::RekeyCounterpartKeyInvalid {
                source_epoch: context.source_epoch,
                target_epoch: context.target_epoch,
            };
            &&& same is Ok <==> sp is Some && tp is Some
            &&& same is Ok ==> same->Ok_0 == (sp->0, tp->0)
            &&& same is Err ==> same->Err_0 == invalid
            &&& alone == Err::<(MasterKey, MasterKey), PagedbError>(
                PagedbError::RekeyResumeKeyRequired {
                    source_epoch: context.source_epoch,
                    target_epoch: context.target_epoch,
                },
            )
            &&& sp is Some && to is Some ==> both == Ok::<(MasterKey, MasterKey), PagedbError>(
                (sp->0, to->0),
            )
            &&& !(sp is Some && to is Some) && so is Some && tp is Some ==> both == Ok::<
                (MasterKey, MasterKey),
                PagedbError,
            >((so->0, tp->0))
            &&& !(sp is Some && to is Some) && !(so is Some && tp is Some) ==> both == Err::<
                (MasterKey, MasterKey),
                PagedbError,
            >(invalid)
            &&& pair is Some <==> both is Ok
            &&& pair is Some ==> pair->0 == both->Ok_0
        }),
{
}

/// Where a change was interrupted, its two keys are resolved and both installed, each
/// for its epoch and cipher, and nothing else of the ring changes; keys that do not
/// resolve install nothing. Without an interrupted change there is nothing to do.
pub proof fn law_recovery_installs_both_keys(
    db: &Db,
    ring: &mut EpochKeyring,
    intent: &RekeyIntent,
    primary: &KekCandidate,
    other: Option<&KekCandidate>,
    r: Result<bool>,
    pair: Result<(MasterKey, MasterKey)>,
    context: &RekeyProofContext,
    source: &RekeyProofSpec,
    target: &RekeyProofSpec,
    idle: &mut EpochKeyring,
    none: Result<bool>,
    id: (u64, u8),
)
    requires
        old(ring).wf(),
        intent.source_cipher_id == 1 || intent.source_cipher_id == 2,
        intent.target_cipher_id == 1 || intent.target_cipher_id == 2,
        call_ensures(Db::admit_rekey_recovery, (db, ring, Some(intent), primary, other), r),
        context.file_id == db.file_id && context.salt == db.kek_salt,
        context.source_epoch == intent.source_mk_epoch && context.target_epoch
            == intent.target_mk_epoch,
        source.epoch == intent.source_mk_epoch && source.cipher_id == intent.source_cipher_id
            && source.expected == intent.source_hk_proof,
        target.epoch == intent.target_mk_epoch && target.cipher_id == intent.target_cipher_id
            && target.expected == intent.target_hk_proof,
        call_ensures(
            resolve_rekey_key_pair,
            (primary, other, context, source, target, intent.same_kek),
            pair,
        ),
        call_ensures(Db::admit_rekey_recovery, (db, idle, None, primary, other), none),
    ensures
        r is Ok <==> pair is Ok,
        r is Ok ==> r->Ok_0,
        r is Err ==> r->Err_0 == pair->Err_0 && final(ring)@ == old(ring)@,
        r is Ok ==> {
            let s = (intent.source_mk_epoch, intent.source_cipher_id);
            let t = (intent.target_mk_epoch, intent.target_cipher_id);
            &&& final(ring)@.dom().contains(t) && final(ring)@[t] == (pair->Ok_0).1
            &&& s != t ==> final(ring)@.dom().contains(s) && final(ring)@[s] == (pair->Ok_0).0
            &&& id != s && id != t ==> (final(ring)@.dom().contains(id) <==> old(ring)@.dom().contains(id)) && (old(ring)@.dom().contains(id) ==> final(ring)@[id] == old(ring)@[id])
        },
        none == Ok::<bool, PagedbError>(false),
        final(idle)@ == old(idle)@,
{
}

/// An older record that lacks the target's proof is completed with it: the record is
/// written back with a proof that the target's key gives, the key is installed, and
/// nothing else of the record changes.
pub proof fn law_missing_proof_is_completed(
    db: &Db,
    catalog: &mut BTree<CatalogValue>,
    ring: &mut EpochKeyring,
    intent: &mut RekeyIntent,
    target: &DerivedPair,
    cipher: CipherId,
    r: Result<()>,
    proof_bytes: Result<[u8; 16]>,
    recorded: &RekeyIntent,
    lacks: bool,
)
    requires
        old(catalog).wf(),
        old(ring).wf(),
        call_ensures(
            Db::persist_legacy_rekey_proof,
            (db, catalog, ring, intent, target, cipher),
            r,
        ),
        call_ensures(
            intent_proof,
            (
                &target.hk,
                &db.file_id,
                &db.kek_salt,
                old(intent).source_mk_epoch,
                old(intent).target_mk_epoch,
                old(intent).target_mk_epoch,
                old(intent).target_cipher_id,
            ),
            proof_bytes,
        ),
        call_ensures(needs_target_proof, (recorded,), lacks),
    ensures
        r is Ok,
        final(intent).target_hk_proof@ == proof_bytes->Ok_0@,
        *final(intent) == (RekeyIntent {
            target_hk_proof: final(intent).target_hk_proof,
            ..*old(intent)
        }),
        lookup(final(catalog)@, seq![3u8]) == Some(CatalogValue::RekeyState(*final(intent))),
        final(ring)@.dom().contains(
            (
                old(intent).target_mk_epoch,
                if cipher is Aes256Gcm {
                    1u8
                } else {
                    2u8
                },
            ),
        ),
        lacks <==> recorded.same_kek && forall|i: int|
            0 <= i < 16 ==> #[trigger] recorded.target_hk_proof@[i] == 0,
{
    let k = seq![3u8];
    lemma_slot_exists(old(catalog)@, k);
    lemma_with_row(
        old(catalog)@,
        k,
        CatalogValue::RekeyState(*final(intent)),
        slot_of_key(old(catalog)@, k),
    );
}

/// A change of keys is begun by a usable Standalone handle for a later epoch. Its
/// record names the store's epoch and cipher, the new epoch, a proof of each key, and
/// whether the key that was supplied is the one in use.
pub proof fn law_rekey_is_begun(
    db: &Db,
    epoch: u64,
    source_hk: &DerivedKey,
    supplied_hk: &DerivedKey,
    target_hk: &DerivedKey,
    r: Result<RekeyIntent>,
    source: Result<[u8; 16]>,
    supplied: Result<[u8; 16]>,
    target: Result<[u8; 16]>,
    cipher: u8,
    a: &[u8; 16],
    b: &[u8; 16],
    c: &[u8; 16],
    made: RekeyIntent,
)
    requires
        call_ensures(Db::rekey_db, (db, epoch, source_hk, supplied_hk, target_hk), r),
        cipher == if db.cipher_id is Aes256Gcm {
            1u8
        } else {
            2u8
        },
        call_ensures(
            intent_proof,
            (
                source_hk,
                &db.file_id,
                &db.kek_salt,
                db.mk_epoch,
                epoch,
                db.mk_epoch,
                cipher,
            ),
            source,
        ),
        call_ensures(
            intent_proof,
            (
                supplied_hk,
                &db.file_id,
                &db.kek_salt,
                db.mk_epoch,
                epoch,
                db.mk_epoch,
                cipher,
            ),
            supplied,
        ),
        call_ensures(
            intent_proof,
            (target_hk, &db.file_id, &db.kek_salt, db.mk_epoch, epoch, epoch, cipher),
            target,
        ),
        call_ensures(Db::begin_intent, (db, epoch, a, b, c), made),
    ensures
        r is Ok <==> db.poisoned_commit is None && db.mode is Standalone && epoch > db.mk_epoch,
        db.poisoned_commit is None && !(db.mode is Standalone) ==> r == Err::<
            RekeyIntent,
            PagedbError,
        >(PagedbError::Unsupported),
        db.poisoned_commit is None && db.mode is Standalone && epoch <= db.mk_epoch ==> r == Err::<
            RekeyIntent,
            PagedbError,
        >(PagedbError::RekeyStateInvalid { field: "rekey.target_mk_epoch" }),
        r is Ok ==> {
            let i = r->Ok_0;
            &&& i.source_mk_epoch == db.mk_epoch && i.target_mk_epoch == epoch
            &&& i.source_cipher_id == cipher && i.target_cipher_id == cipher
            &&& i.stage is Intent
            &&& i.source_hk_proof@ == source->Ok_0@
            &&& i.target_hk_proof@ == target->Ok_0@
            &&& i.same_kek <==> source->Ok_0@ == supplied->Ok_0@
        },
        made.source_mk_epoch == db.mk_epoch && made.target_mk_epoch == epoch,
        made.source_cipher_id == cipher && made.target_cipher_id == cipher,
        made.stage is Intent,
        made.source_hk_proof == *a && made.target_hk_proof == *c,
        made.same_kek <==> a@ == b@,
{
}

/// A recorded change is found in the row for it, and refused where it is not a valid
/// one for the store's cipher. Its target epoch is what recovery is told, and what is
/// to be resumed must be there.
pub proof fn law_recorded_rekey_is_loaded(
    db: &Db,
    catalog: &BTree<CatalogValue>,
    r: Result<Option<RekeyIntent>>,
    mark: Result<Option<u64>>,
    resumed: Result<RekeyIntent>,
)
    requires
        call_ensures(Db::load_rekey_intent, (db, catalog), r),
        call_ensures(Db::load_rekey_watermark, (db, catalog), mark),
        call_ensures(Db::resume_rekey_intent, (db, catalog), resumed),
    ensures
        ({
            let cipher = if db.cipher_id is Aes256Gcm {
                1u8
            } else {
                2u8
            };
            let there = db.writer.catalog_root_page_id != 0 && has_key(catalog@, seq![3u8]);
            &&& !there ==> r == Ok::<Option<RekeyIntent>, PagedbError>(None)
            &&& there && lookup(catalog@, seq![3u8])->0 is RekeyState ==> {
                let i = lookup(catalog@, seq![3u8])->0->RekeyState_0;
                &&& r is Ok <==> i.target_mk_epoch > i.source_mk_epoch && i.source_cipher_id
                    == cipher && i.target_cipher_id == cipher
                &&& r is Ok ==> r->Ok_0 == Some(i)
            }
            &&& there && !(lookup(catalog@, seq![3u8])->0 is RekeyState) ==> r is Err
                && r->Err_0 is Corruption
            &&& r is Err ==> mark == Err::<Option<u64>, PagedbError>(r->Err_0) && resumed == Err::<
                RekeyIntent,
                PagedbError,
            >(r->Err_0)
            &&& r is Ok && r->Ok_0 is Some ==> mark == Ok::<Option<u64>, PagedbError>(
                Some((r->Ok_0->0).target_mk_epoch),
            ) && resumed == Ok::<RekeyIntent, PagedbError>(r->Ok_0->0)
            &&& r is Ok && r->Ok_0 is None ==> mark == Ok::<Option<u64>, PagedbError>(None)
                && resumed == Err::<RekeyIntent, PagedbError>(
                PagedbError::RekeyStateInvalid { field: "rekey.intent_missing" },
            )
        }),
{
}

/// A change is taken up where it stopped, once both keys prove themselves: at the
/// main pages, at the header, at the catalog's pages, at the record that only segments
/// are left, or at the segments, by the stage that is recorded.
pub proof fn law_rekey_is_taken_up(
    db: &Db,
    intent: &RekeyIntent,
    source_hk: &DerivedKey,
    target_hk: &DerivedKey,
    r: Result<RekeyStep>,
    valid: Result<()>,
    source: &[u8; 16],
    target: &[u8; 16],
    s: Result<[u8; 16]>,
    t: Result<[u8; 16]>,
    checked: Result<()>,
    cipher: u8,
)
    requires
        call_ensures(Db::resume_rekey_locked, (db, intent, source_hk, target_hk), r),
        cipher == if db.cipher_id is Aes256Gcm {
            1u8
        } else {
            2u8
        },
        call_ensures(validate_intent_for_current_cipher, (intent, cipher), valid),
        call_ensures(
            intent_proof,
            (
                source_hk,
                &db.file_id,
                &db.kek_salt,
                intent.source_mk_epoch,
                intent.target_mk_epoch,
                intent.source_mk_epoch,
                intent.source_cipher_id,
            ),
            s,
        ),
        call_ensures(
            intent_proof,
            (
                target_hk,
                &db.file_id,
                &db.kek_salt,
                intent.source_mk_epoch,
                intent.target_mk_epoch,
                intent.target_mk_epoch,
                intent.target_cipher_id,
            ),
            t,
        ),
        s is Ok ==> source@ == s->Ok_0@,
        t is Ok ==> target@ == t->Ok_0@,
        call_ensures(Db::check_rekey_proofs, (intent, source, target), checked),
    ensures
        checked is Ok <==> source@ == intent.source_hk_proof@ && target@
            == intent.target_hk_proof@,
        checked is Err ==> checked->Err_0 == (PagedbError::RekeyCounterpartKeyInvalid {
            source_epoch: intent.source_mk_epoch,
            target_epoch: intent.target_mk_epoch,
        }),
        valid is Err ==> r == Err::<RekeyStep, PagedbError>(valid->Err_0),
        valid is Ok && checked is Err ==> r == Err::<RekeyStep, PagedbError>(checked->Err_0),
        valid is Ok && checked is Ok ==> r == Ok::<RekeyStep, PagedbError>(
            match intent.stage {
                RekeyStage::Intent => RekeyStep::RewriteMainPages,
                RekeyStage::MainPagesTargetReadable => RekeyStep::PublishTargetHeader,
                RekeyStage::HeaderTargetPublished => RekeyStep::RewriteCatalogPages,
                RekeyStage::MainDone => RekeyStep::RecordSegmentsPending,
                RekeyStage::SegmentsPending => RekeyStep::MigrateSegments,
            },
        ),
{
}

/// A change goes step by step from the main pages to the header, the catalog's pages,
/// the two records, the segments, the check that none is left, and the removal of its
/// record. The handle moves to the new epoch with the header and at no other step. A
/// step that fails, or a check that finds a segment left, ends it and poisons the
/// handle; the keys stay.
pub proof fn law_rekey_goes_on(
    db: &mut Db,
    ring: &mut EpochKeyring,
    intent: &RekeyIntent,
    step: RekeyStep,
    outcome: Result<bool>,
    r: Result<RekeyStep>,
)
    requires
        old(ring).wf(),
        old(db).poisoned_commit is None,
        intent.source_cipher_id == 1 || intent.source_cipher_id == 2,
        call_ensures(Db::finish_rekey_locked, (db, ring, intent, step, outcome), r),
    ensures
        r is Ok <==> outcome is Ok && !(step is CheckSegments && outcome->Ok_0),
        r is Ok ==> r->Ok_0 == match step {
            RekeyStep::RewriteMainPages => RekeyStep::PublishTargetHeader,
            RekeyStep::PublishTargetHeader => RekeyStep::RewriteCatalogPages,
            RekeyStep::RewriteCatalogPages => RekeyStep::RecordMainDone,
            RekeyStep::RecordMainDone => RekeyStep::RecordSegmentsPending,
            RekeyStep::RecordSegmentsPending => RekeyStep::MigrateSegments,
            RekeyStep::MigrateSegments => RekeyStep::CheckSegments,
            RekeyStep::CheckSegments => RekeyStep::ClearIntent,
            RekeyStep::ClearIntent => RekeyStep::Done,
            RekeyStep::Done => RekeyStep::Done,
        },
        r is Ok && step is PublishTargetHeader ==> final(db).mk_epoch == intent.target_mk_epoch,
        !(r is Ok && step is PublishTargetHeader) ==> final(db).mk_epoch == old(db).mk_epoch,
        r is Ok && !(step is PublishTargetHeader || step is ClearIntent) ==> *final(db) == *old(db),
        r is Err ==> {
            &&& r->Err_0 is RekeyTargetEpochActivated
            &&& r->Err_0->RekeyTargetEpochActivated_commit == CommitId(
                old(db).writer.latest_commit_id,
            )
            &&& final(db).poisoned_commit == Some(CommitId(old(db).writer.latest_commit_id))
            &&& final(ring)@ == old(ring)@
        },
        outcome is Err ==> *r->Err_0->RekeyTargetEpochActivated_source == outcome->Err_0,
        outcome is Ok && r is Err ==> *r->Err_0->RekeyTargetEpochActivated_source
            == (PagedbError::RekeyStateInvalid { field: "rekey.segments_pending" }),
        r is Ok ==> final(db).poisoned_commit is None,
        final(db).snapshot == old(db).snapshot,
        final(db).writer == old(db).writer,
        !(step is ClearIntent) ==> final(ring)@ == old(ring)@,
{
}

/// When a change is complete, the source's key goes at once where nobody reads, and
/// is kept for the readers, to be dropped after them, where somebody does. The
/// target's key stays.
pub proof fn law_rekey_retires_the_source_key(
    db: &mut Db,
    ring: &mut EpochKeyring,
    intent: &RekeyIntent,
    pending: bool,
    r: Result<RekeyStep>,
    id: (u64, u8),
)
    requires
        old(ring).wf(),
        intent.source_cipher_id == 1 || intent.source_cipher_id == 2,
        call_ensures(
            Db::finish_rekey_locked,
            (
                db,
                ring,
                intent,
                RekeyStep::ClearIntent,
                Ok::<bool, PagedbError>(pending),
            ),
            r,
        ),
    ensures
        r is Ok,
        ({
            let source = (intent.source_mk_epoch, intent.source_cipher_id);
            &&& old(db).tracked_readers@.len() == 0 ==> (final(ring)@.dom().contains(id) <==> old(ring)@.dom().contains(id) && id != source)
            &&& old(db).tracked_readers@.len() > 0 ==> final(ring)@ == old(ring)@
            &&& old(ring)@.dom().contains(id) && id != source ==> final(ring)@[id] == old(ring)@[id]
            &&& old(db).tracked_readers@.len() > 0 ==> exists|i: int|
                0 <= i < final(db).pending_key_retirements@.len() && (#[trigger] final(db).pending_key_retirements@[i]).epoch == intent.source_mk_epoch
        }),
{
    if old(db).tracked_readers@.len() > 0 {
        let before = old(db).pending_key_retirements@;
        let after = final(db).pending_key_retirements@;
        let c = choose|c: CipherId|
            #![trigger c.byte()]
            c.byte() == intent.source_cipher_id && after == if before.contains(
                PendingKeyRetirement { epoch: intent.source_mk_epoch, cipher_id: c },
            ) {
                before
            } else {
                before.push(PendingKeyRetirement { epoch: intent.source_mk_epoch, cipher_id: c })
            };
        let entry = PendingKeyRetirement { epoch: intent.source_mk_epoch, cipher_id: c };
        if before.contains(entry) {
            let i = choose|i: int| 0 <= i < before.len() && before[i] == entry;
            assert(after[i].epoch == intent.source_mk_epoch);
        } else {
            assert(after[before.len() as int].epoch == intent.source_mk_epoch);
        }
    }
}

/// The stage is recorded with the header, when the main file is done and when only
/// segments are left; the record goes when the change is complete. Other steps write
/// nothing. What is recorded is read back as it was recorded.
pub proof fn law_rekey_stage_is_recorded(
    catalog: &mut BTree<CatalogValue>,
    intent: &mut RekeyIntent,
    step: RekeyStep,
    unit: (),
    key: Seq<u8>,
)
    requires
        old(catalog).wf(),
        call_ensures(stage_rekey_rows, (catalog, intent, step), unit),
    ensures
        final(intent).stage == match step {
            RekeyStep::RewriteMainPages => RekeyStage::MainPagesTargetReadable,
            RekeyStep::PublishTargetHeader => RekeyStage::HeaderTargetPublished,
            RekeyStep::RecordMainDone => RekeyStage::MainDone,
            RekeyStep::RecordSegmentsPending => RekeyStage::SegmentsPending,
            _ => old(intent).stage,
        },
        *final(intent) == (RekeyIntent { stage: final(intent).stage, ..*old(intent) }),
        step is PublishTargetHeader || step is RecordMainDone || step is RecordSegmentsPending
            ==> lookup(final(catalog)@, seq![3u8]) == Some(
            CatalogValue::RekeyState(*final(intent)),
        ),
        step is ClearIntent ==> lookup(final(catalog)@, seq![3u8]) is None,
        key != seq![3u8] ==> lookup(final(catalog)@, key) == lookup(old(catalog)@, key),
        !(step is PublishTargetHeader || step is RecordMainDone || step is RecordSegmentsPending
            || step is ClearIntent) ==> final(catalog)@ == old(catalog)@,
{
    let k = seq![3u8];
    lemma_slot_exists(old(catalog)@, k);
    lemma_with_row(
        old(catalog)@,
        k,
        CatalogValue::RekeyState(*final(intent)),
        slot_of_key(old(catalog)@, k),
    );
    lemma_without_row(old(catalog)@, k);
}

/// A record of a change is written to its own row, and no other row changes.
pub proof fn law_intent_row_is_written(
    catalog: &mut BTree<CatalogValue>,
    intent: &RekeyIntent,
    unit: (),
    key: Seq<u8>,
)
    requires
        old(catalog).wf(),
        call_ensures(write_intent_row, (catalog, intent), unit),
    ensures
        lookup(final(catalog)@, seq![3u8]) == Some(CatalogValue::RekeyState(*intent)),
        key != seq![3u8] ==> lookup(final(catalog)@, key) == lookup(old(catalog)@, key),
{
    let k = seq![3u8];
    lemma_slot_exists(old(catalog)@, k);
    lemma_with_row(
        old(catalog)@,
        k,
        CatalogValue::RekeyState(*intent),
        slot_of_key(old(catalog)@, k),
    );
}

/// Keys that are due go once nobody reads: those that are queued, and no others.
pub proof fn law_due_keys_are_dropped(
    db: &mut Db,
    ring: &mut EpochKeyring,
    unit: (),
    id: (u64, u8),
    i: int,
)
    requires
        old(ring).wf(),
        call_ensures(Db::retire_due_keys, (db, ring), unit),
    ensures
        old(db).tracked_readers@.len() > 0 ==> *final(db) == *old(db) && final(ring)@ == old(ring)@,
        old(db).tracked_readers@.len() == 0 ==> {
            &&& final(db).pending_key_retirements@.len() == 0
            &&& 0 <= i < old(db).pending_key_retirements@.len() ==> !final(ring)@.dom().contains(
                (
                    old(db).pending_key_retirements@[i].epoch,
                    old(db).pending_key_retirements@[i].cipher_id.byte(),
                ),
            )
            &&& old(ring)@.dom().contains(id) && (forall|j: int|
                0 <= j < old(db).pending_key_retirements@.len() ==> (#[trigger] old(db).pending_key_retirements@[j]).epoch != id.0) ==> final(ring)@.dom().contains(id)
                && final(ring)@[id] == old(ring)@[id]
        },
{
    lemma_retired(old(db).pending_key_retirements@, id, i);
}

/// What is queued to be retired is exactly what is queued.
pub proof fn lemma_retired(due: Seq<PendingKeyRetirement>, id: (u64, u8), i: int)
    ensures
        0 <= i < due.len() ==> retired_ids(due).contains((due[i].epoch, due[i].cipher_id.byte())),
        (forall|j: int| 0 <= j < due.len() ==> (#[trigger] due[j]).epoch != id.0) ==> !retired_ids(
            due,
        ).contains(id),
    decreases due.len(),
{
    if due.len() > 0 {
        let rest = due.drop_last();
        lemma_retired(rest, id, i);
        let n = due.len() - 1;
        if 0 <= i < n {
            assert(rest[i] == due[i]);
        }
        if forall|j: int| 0 <= j < due.len() ==> (#[trigger] due[j]).epoch != id.0 {
            assert(due[n].epoch != id.0);
            assert forall|j: int| 0 <= j < rest.len() implies (#[trigger] rest[j]).epoch
                != id.0 by {
                assert(rest[j] == due[j]);
            }
        }
    }
}

/// The pages that a change of keys gives up join the free list under the latest
/// commit, and the pages that held the list join it as belonging to none; nothing that
/// was on it is lost. Where it gives up none the list stays.
pub proof fn law_rekey_frees_its_pages(
    db: &Db,
    window: &Vec<(u64, u64)>,
    chain: &Vec<u64>,
    freed: &Vec<u64>,
    entries: Option<Vec<(u64, u64)>>,
    changed: &mut Db,
    root: u64,
    unit: (),
)
    requires
        call_ensures(Db::record_rekey_freed_pages, (db, window, chain, freed), entries),
        call_ensures(Db::adopt_rekey_chain, (changed, root), unit),
    ensures
        entries is None <==> freed@.len() == 0,
        entries is Some ==> entries->0@ == window@ + freed@.map_values(
            |p: u64| (db.writer.latest_commit_id, p),
        ) + chain@.map_values(|p: u64| (0u64, p)),
        final(changed).writer.free_list_root_page_id == root,
        final(changed).writer.root_page_id == old(changed).writer.root_page_id,
        final(changed).writer.catalog_root_page_id == old(changed).writer.catalog_root_page_id,
        final(changed).writer.next_page_id == old(changed).writer.next_page_id,
        final(changed).writer.latest_commit_id == old(changed).writer.latest_commit_id,
        final(changed).snapshot == old(changed).snapshot,
{
    assert(tagged(freed@, db.writer.latest_commit_id) =~= freed@.map_values(
        |p: u64| (db.writer.latest_commit_id, p),
    ));
    assert(tagged(chain@, 0) =~= chain@.map_values(|p: u64| (0u64, p)));
}

/// A header of a change of keys is the next one, under the epoch that it is written
/// for, at the catalog that was written and at the data, the commit, the history and
/// the journal that are there. Reopened from it the store is at the same commit.
pub proof fn law_rekey_header(
    db: &Db,
    root: u64,
    next: u64,
    c: RekeyCatalogCommit,
    epoch: u64,
    anchor: u64,
    f: MainDbHeaderFields,
    state: WriterState,
)
    requires
        call_ensures(Db::rekey_catalog_commit, (db, root, next), c),
        call_ensures(
            Db::rekey_header_fields,
            (db, &c, epoch, anchor),
            Ok::<MainDbHeaderFields, PagedbError>(f),
        ),
        call_ensures(writer_from_header, (&f,), state),
    ensures
        c.catalog_root_page_id == root,
        c.next_page_id >= next && c.next_page_id >= db.writer.next_page_id,
        c.next_page_id == next || c.next_page_id == db.writer.next_page_id,
        f.mk_epoch == epoch && f.seq == db.header_cursor.seq + 1 && f.counter_anchor == anchor,
        f.file_id == db.file_id && f.kek_salt == db.kek_salt && f.realm_id == db.realm_id,
        state.root_page_id == db.writer.root_page_id,
        state.latest_commit_id == db.writer.latest_commit_id,
        state.catalog_root_page_id == root,
        state.catalog_root_txn_id == db.writer.catalog_root_txn_id,
        state.next_page_id == c.next_page_id,
        state.free_list_root_page_id == db.writer.free_list_root_page_id,
        state.commit_history_root_page_id == db.writer.commit_history_root_page_id,
        state.commit_history_root_version == db.writer.commit_history_root_version,
        state.pending_apply_journal_id@ == db.writer.pending_apply_journal_id@,
        state.restore_mode == db.writer.restore_mode,
        state.commit_retain_policy_tag == db.writer.commit_retain_policy_tag,
        state.commit_retain_policy_value == db.writer.commit_retain_policy_value,
{
    law_root_ref_round_trip(root, db.writer.catalog_root_txn_id);
    law_root_ref_round_trip(db.writer.free_list_root_page_id, 0);
}

/// A catalog that a change of keys wrote is published under the commit that is there,
/// once its header is written, its anchor committed and its segments reconciled;
/// without the header nothing changes, and after it a failure poisons the handle.
pub proof fn law_rekey_catalog_is_published(
    db: &mut Db,
    c: &RekeyCatalogCommit,
    header: Result<(ActiveSlot, u64)>,
    anchored: bool,
    reconciled: Result<SegmentReconciliation>,
    r: Result<SegmentReconciliation>,
)
    requires
        old(db).poisoned_commit is None,
        call_ensures(
            Db::commit_rekey_catalog_root,
            (db, c, header, anchored, reconciled),
            r,
        ),
    ensures
        header is Err ==> r == Err::<SegmentReconciliation, PagedbError>(header->Err_0)
            && *final(db) == *old(db),
        header is Ok ==> {
            &&& r is Ok <==> anchored && reconciled is Ok
            &&& final(db).writer.catalog_root_page_id == c.catalog_root_page_id
            &&& final(db).writer.next_page_id == c.next_page_id
            &&& final(db).writer.root_page_id == old(db).writer.root_page_id
            &&& final(db).writer.latest_commit_id == old(db).writer.latest_commit_id
            &&& final(db).writer.commit_history_root_page_id == old(db).writer.commit_history_root_page_id
            &&& final(db).header_cursor.slot == (header->Ok_0).0
            &&& final(db).header_cursor.seq == (header->Ok_0).1
        },
        header is Ok && r is Ok ==> {
            &&& r == reconciled
            &&& final(db).snapshot.catalog_root_page_id == c.catalog_root_page_id
            &&& final(db).snapshot.commit_id == old(db).writer.latest_commit_id
            &&& final(db).snapshot.root_page_id == old(db).writer.root_page_id
            &&& final(db).snapshot.next_page_id == c.next_page_id
            &&& final(db).poisoned_commit is None
        },
        header is Ok && r is Err ==> {
            &&& r->Err_0 == (PagedbError::DurablyCommittedButUnpublished {
                commit: CommitId(old(db).writer.latest_commit_id),
            })
            &&& final(db).poisoned_commit == Some(CommitId(old(db).writer.latest_commit_id))
            &&& final(db).snapshot == old(db).snapshot
        },
{
}

/// The roots that the history retains are the data and the catalog root of each row,
/// where there is one, with the cursor of that commit; a row that is cut short is
/// refused.
pub proof fn law_retained_roots(
    history: &BTree<Vec<u8>>,
    r: Result<Vec<(u64, u64)>>,
    i: int,
)
    requires
        call_ensures(retained_history_roots, (history,), r),
        0 <= i < history@.len(),
    ensures
        r is Ok ==> history@[i].1.len() >= 40,
        (forall|j: int| 0 <= j < history@.len() ==> (#[trigger] history@[j]).1.len() >= 40) ==> r
            is Ok,
        r is Err ==> r->Err_0 is Corruption,
        r is Ok ==> {
            let data = eight_up(history@[i].1.subrange(0, 8));
            let catalog = eight_up(history@[i].1.subrange(8, 16));
            let next = eight_up(history@[i].1.subrange(24, 32));
            &&& data != 0 ==> r->Ok_0@.contains((data as u64, next as u64))
            &&& catalog != 0 ==> r->Ok_0@.contains((catalog as u64, next as u64))
        },
{
    if r is Ok {
        let row = history@[i];
        law_rekey_covers_retained_commits(history@, i);
        law_eight_bytes_up(row.1.subrange(0, 8));
        law_eight_bytes_up(row.1.subrange(8, 16));
        law_eight_bytes_up(row.1.subrange(24, 32));
    }
}

/// A page stands at its number times the page size. A page of the main file is of the
/// kind that its first bytes say, where that kind belongs there; a cleared page is of
/// none.
pub proof fn law_main_pages(
    page: u64,
    size: usize,
    offset: Result<u64>,
    envelope: &[u8; 2],
    role: Result<PageRole>,
    kind: Result<Option<u8>>,
)
    requires
        call_ensures(free_page_offset, (page, size), offset),
        call_ensures(main_page_kind, (envelope, role), kind),
    ensures
        page * size <= u64::MAX ==> offset is Ok && offset->Ok_0 == page * size,
        page * size > u64::MAX ==> offset is Err && offset->Err_0 is ArithmeticOverflow,
        envelope@[0] == 0 && envelope@[1] == 0 ==> kind == Ok::<Option<u8>, PagedbError>(None),
        !(envelope@[0] == 0 && envelope@[1] == 0) && role is Err ==> kind == Err::<
            Option<u8>,
            PagedbError,
        >(role->Err_0),
        !(envelope@[0] == 0 && envelope@[1] == 0) && role is Ok && role->Ok_0.in_main_file ==> kind
            == Ok::<Option<u8>, PagedbError>(Some(role->Ok_0.kind)),
        !(envelope@[0] == 0 && envelope@[1] == 0) && role is Ok && !role->Ok_0.in_main_file
            ==> kind == Err::<Option<u8>, PagedbError>(PagedbError::IllegalPageKind),
{
}

/// A segment is to be migrated where it is of the source's cipher and not yet of the
/// target's epoch. One with a replacement sealed goes on with it; one without gets one
/// where it needs it.
pub proof fn law_segment_migration(
    db: &Db,
    catalog: &BTree<CatalogValue>,
    intent: &RekeyIntent,
    source: &SegmentMeta,
    needs: bool,
    progress: Result<Option<RekeySegmentProgress>>,
    r: Result<MigrationPlan>,
)
    requires
        call_ensures(segment_needs_rekey, (source, intent), needs),
        call_ensures(Db::rekey_progress_row, (db, catalog, &source.segment_id), progress),
        call_ensures(Db::migrate_rekey_segment_entry, (db, catalog, intent, source), r),
    ensures
        needs <==> source.cipher_id == intent.source_cipher_id && source.mk_epoch
            != intent.target_mk_epoch,
        ({
            let key = seq![8u8] + source.segment_id@;
            let there = db.writer.catalog_root_page_id != 0 && has_key(catalog@, key);
            &&& !there ==> progress == Ok::<Option<RekeySegmentProgress>, PagedbError>(None)
            &&& there && lookup(catalog@, key)->0 is RekeyProgress ==> progress == Ok::<
                Option<RekeySegmentProgress>,
                PagedbError,
            >(Some(lookup(catalog@, key)->0->RekeyProgress_0))
            &&& there && !(lookup(catalog@, key)->0 is RekeyProgress) ==> progress is Err
                && progress->Err_0 is Corruption
        }),
        progress is Err ==> r == Err::<MigrationPlan, PagedbError>(progress->Err_0),
        progress is Ok && progress->Ok_0 is Some ==> r == Ok::<MigrationPlan, PagedbError>(
            MigrationPlan::Resume {
                replacement_segment_id: (progress->Ok_0->0).replacement_segment_id,
            },
        ),
        progress is Ok && progress->Ok_0 is None && needs ==> r == Ok::<
            MigrationPlan,
            PagedbError,
        >(MigrationPlan::Seal),
        progress is Ok && progress->Ok_0 is None && !needs ==> r == Ok::<
            MigrationPlan,
            PagedbError,
        >(MigrationPlan::Skip),
{
}

/// A sealed replacement is recorded under its source and forgotten with it; the
/// replacement takes the source's place in the catalog, is to be promoted, and the
/// source is to be retired. Every other row stays.
pub proof fn law_segment_is_migrated(
    recording: &mut BTree<CatalogValue>,
    source: &[u8; 16],
    replacement: [u8; 16],
    unit: (),
    forgetting: &mut BTree<CatalogValue>,
    replacing: &mut BTree<CatalogValue>,
    source_key: &[u8],
    meta: &SegmentMeta,
    effects: Vec<SegmentSideEffect>,
    key: Seq<u8>,
)
    requires
        old(recording).wf(),
        old(forgetting).wf(),
        old(replacing).wf(),
        call_ensures(write_rekey_progress, (recording, source, replacement), unit),
        call_ensures(delete_rekey_progress, (forgetting, source), unit),
        call_ensures(replace_rekey_segment, (replacing, source_key, *source, meta), effects),
    ensures
        ({
            let own = seq![8u8] + source@;
            &&& lookup(final(recording)@, own) is Some
            &&& lookup(final(recording)@, own)->0 is RekeyProgress
            &&& lookup(final(recording)@, own)->0->RekeyProgress_0.replacement_segment_id
                == replacement
            &&& lookup(final(forgetting)@, own) is None
            &&& key != own ==> lookup(final(recording)@, key) == lookup(old(recording)@, key)
            &&& key != own ==> lookup(final(forgetting)@, key) == lookup(old(forgetting)@, key)
        }),
        lookup(final(replacing)@, source_key@) == Some(CatalogValue::Segment(*meta)),
        key != source_key@ ==> lookup(final(replacing)@, key) == lookup(old(replacing)@, key),
        effects@.len() == 2,
        effects@[0] == (SegmentSideEffect::Promote { segment_id: meta.segment_id }),
        effects@[1] == (SegmentSideEffect::Tombstone {
            segment_id: *source,
            tombstone_commit_id: None,
        }),
{
    let own = seq![8u8] + source@;
    let value = CatalogValue::RekeyProgress(
        RekeySegmentProgress {
            replacement_segment_id: replacement,
            state: crate::catalog::RekeySegmentProgressState::Sealed,
        },
    );
    lemma_slot_exists(old(recording)@, own);
    lemma_with_row(old(recording)@, own, value, slot_of_key(old(recording)@, own));
    lemma_without_row(old(forgetting)@, own);
    lemma_slot_exists(old(replacing)@, source_key@);
    lemma_with_row(
        old(replacing)@,
        source_key@,
        CatalogValue::Segment(*meta),
        slot_of_key(old(replacing)@, source_key@),
    );
}

/// A replacement is copied page by page, from page 1 up to but not including the last
/// of the source, in order and under the same numbers, and it stands for its source
/// where it is of the same size, version and kind, and as evictable.
pub proof fn law_replacement_is_checked(
    meta: &SegmentMeta,
    range: (u64, u64),
    page: u64,
    copied: u64,
    paged: Result<()>,
    replacement: &SegmentMeta,
    checked: Result<()>,
    key: &[u8],
    id: Result<[u8; 16]>,
    opened: bool,
    orphan: Result<()>,
)
    requires
        call_ensures(rekey_page_range, (meta,), range),
        call_ensures(check_copied_page, (page, copied), paged),
        call_ensures(check_replacement, (replacement, meta), checked),
        call_ensures(progress_source_id, (key,), id),
        call_ensures(check_orphan_opened, (opened, replacement), orphan),
    ensures
        range.0 == 1,
        meta.page_count > 0 ==> range.1 == meta.page_count - 1,
        meta.page_count == 0 ==> range.1 == 0,
        paged is Ok <==> page == copied,
        paged is Err ==> paged->Err_0 == (PagedbError::RekeyStateInvalid {
            field: "rekey.page_id_ordering",
        }),
        checked is Ok <==> replacement.page_count == meta.page_count && replacement.format_version
            == meta.format_version && replacement.segment_kind == meta.segment_kind
            && replacement.evictable == meta.evictable,
        checked is Err ==> checked->Err_0 == (PagedbError::RekeyStateInvalid {
            field: "rekey.replacement_metadata",
        }),
        id is Ok <==> key@.len() == 17,
        id is Ok ==> id->Ok_0@ == key@.subrange(1, 17),
        orphan is Ok <==> opened,
        orphan is Err ==> orphan->Err_0 == (PagedbError::RekeyReplacementMissing {
            replacement_segment_id: replacement.segment_id,
        }),
{
}

/// A walk over the segments finds one that is looked for exactly where there is one,
/// in a catalog whose segment rows are segments: one that still needs migrating, or
/// the one with an id. So the check that none is left is right.
pub proof fn law_segment_walk(
    db: &Db,
    catalog: &BTree<CatalogValue>,
    intent: &RekeyIntent,
    id: [u8; 16],
    prefix: &[u8],
    range: (usize, usize),
    pending: Result<bool>,
    by_id: Result<Option<usize>>,
    j: int,
)
    requires
        prefix@ == seq![1u8],
        call_ensures(BTree::<CatalogValue>::prefix_range, (catalog, prefix), range),
        forall|k: int|
            #![trigger catalog@[k]]
            0 <= k < catalog@.len() && catalog@[k].0.len() > 0 && catalog@[k].0[0] == 1
                ==> catalog@[k].1 is Segment,
        db.writer.catalog_root_page_id != 0,
        call_ensures(Db::rekey_segments_pending, (db, catalog, intent), pending),
        call_ensures(Db::segment_entry_by_id, (db, catalog, id), by_id),
        0 <= j < catalog@.len(),
        catalog@[j].0.len() > 0 && catalog@[j].0[0] == 1,
    ensures
        pending is Ok,
        catalog@[j].1->Segment_0.cipher_id == intent.source_cipher_id
            && catalog@[j].1->Segment_0.mk_epoch != intent.target_mk_epoch ==> pending->Ok_0,
        pending->Ok_0 ==> exists|k: int|
            #![trigger catalog@[k]]
            0 <= k < catalog@.len() && catalog@[k].0[0] == 1 && catalog@[k].1->Segment_0.cipher_id
                == intent.source_cipher_id && catalog@[k].1->Segment_0.mk_epoch
                != intent.target_mk_epoch,
        by_id is Ok,
        catalog@[j].1->Segment_0.segment_id == id ==> by_id->Ok_0 is Some,
        by_id->Ok_0 is Some ==> by_id->Ok_0->0 < catalog@.len()
            && catalog@[by_id->Ok_0->0 as int].1->Segment_0.segment_id == id,
{
    let lo = range.0 as int;
    let hi = range.1 as int;
    assert(is_run(catalog@, seq![1u8], lo, hi));
    assert forall|k: int| #![trigger catalog@[k]] 0 <= k < catalog@.len() implies (has_prefix(
        catalog@[k].0,
        seq![1u8],
    ) <==> catalog@[k].0.len() > 0 && catalog@[k].0[0] == 1) by {
        lemma_one_byte_prefix(catalog@[k].0, 1);
    }
    assert forall|k: int| lo <= k < hi implies (#[trigger] catalog@[k]).1 is Segment by {
        assert(has_prefix(catalog@[k].0, seq![1u8]));
    }
    law_segment_walk_is_exact(catalog@, lo, hi, SegmentQuery::NeedsRekey(*intent));
    law_segment_walk_is_exact(catalog@, lo, hi, SegmentQuery::HasId(id));
    let row = catalog@[j];
    assert(lo <= j < hi);
    if pending->Ok_0 {
        let k = choose|k: int|
            lo <= k < hi && crate::db::rekey::segments::picks(
                SegmentQuery::NeedsRekey(*intent),
                (#[trigger] catalog@[k]).1->Segment_0,
            );
        assert(catalog@[k].0[0] == 1);
    }
}

/// What is left of a migration whose source is not walked to: where the source is
/// linked it is migrated by its row; else its replacement must be linked, under the
/// target's epoch and cipher, and is promoted.
pub proof fn law_orphaned_migration(
    db: &Db,
    catalog: &BTree<CatalogValue>,
    intent: &RekeyIntent,
    key: &[u8],
    value: &CatalogValue,
    r: Result<OrphanPlan>,
)
    requires
        call_ensures(
            Db::finish_orphaned_rekey_progress,
            (db, catalog, intent, key, value),
            r,
        ),
    ensures
        key@.len() != 17 ==> r == Err::<OrphanPlan, PagedbError>(
            PagedbError::RekeyStateInvalid { field: "rekey.segment_progress.key" },
        ),
        key@.len() == 17 && !(*value is RekeyProgress) ==> r is Err && r->Err_0 is Corruption,
        r is Ok ==> key@.len() == 17 && *value is RekeyProgress && match r->Ok_0 {
            OrphanPlan::Migrate { row } => true,
            OrphanPlan::Finish { source_id, replacement } => source_id@ == key@.subrange(1, 17)
                && replacement.mk_epoch == intent.target_mk_epoch && replacement.cipher_id
                == intent.target_cipher_id,
        },
        r is Err && r->Err_0 is RekeyReplacementMissing ==> *value is RekeyProgress
            && r->Err_0->replacement_segment_id
            == value->RekeyProgress_0.replacement_segment_id,
        db.writer.catalog_root_page_id == 0 && key@.len() == 17 && *value is RekeyProgress ==> r
            == Err::<OrphanPlan, PagedbError>(
            PagedbError::RekeyReplacementMissing {
                replacement_segment_id: value->RekeyProgress_0.replacement_segment_id,
            },
        ),
{
}

/// A batch of segments begins at the cursor and leaves none out: each of its entries
/// is a segment row at or past the cursor, and each segment row at or past the cursor
/// is in the batch or at or past the next cursor. There is a next one exactly where the
/// batch is full, at 256 rows.
pub proof fn law_segment_batches(
    db: &Db,
    catalog: &BTree<CatalogValue>,
    cursor: &[u8],
    r: Result<SegmentBatch>,
    j: int,
    i: int,
)
    requires
        catalog.wf(),
        db.writer.catalog_root_page_id != 0,
        call_ensures(Db::migrate_rekey_segments, (db, catalog, cursor), r),
    ensures
        r is Ok ==> {
            let batch = r->Ok_0;
            &&& batch.entries@.len() <= 256
            &&& batch.next is Some <==> batch.entries@.len() == 256
            &&& 0 <= i < batch.entries@.len() ==> {
                &&& lookup(catalog@, batch.entries@[i].key@) == Some(
                    CatalogValue::Segment(batch.entries@[i].meta),
                )
                &&& batch.entries@[i].key@[0] == 1
                &&& !lex_lt(batch.entries@[i].key@, cursor@)
                &&& batch.next is Some ==> lex_lt(batch.entries@[i].key@, batch.next->0@)
            }
            &&& 0 <= j < catalog@.len() && catalog@[j].0.len() > 0 && catalog@[j].0[0] == 1
                && !lex_lt(catalog@[j].0, cursor@) ==> {
                ||| exists|k: int|
                    0 <= k < batch.entries@.len() && (#[trigger] batch.entries@[k]).key@
                        == catalog@[j].0
                ||| batch.next is Some && !lex_lt(catalog@[j].0, batch.next->0@)
            }
        },
        r is Err ==> r->Err_0 is Corruption && exists|k: int|
            0 <= k < catalog@.len() && (#[trigger] catalog@[k]).0.len() > 0 && catalog@[k].0[0]
                == 1 && !(catalog@[k].1 is Segment),
{
    let s = catalog@;
    if r is Ok {
        let batch = r->Ok_0;
        let (lo, hi) = choose|lo: int, hi: int|
            {
                &&& #[trigger] is_segment_batch(s, cursor@, lo, hi)
                &&& !batch_malformed(s, lo, hi)
                &&& are_entries(batch.entries@, s, lo, hi)
                &&& is_cursor(batch.next, next_cursor(s, lo, hi))
            };
        lemma_batch_is_whole(s, 1, cursor@, lo, hi, j);
        if 0 <= i < batch.entries@.len() {
            lemma_batch_row(s, 1, cursor@, lo, hi, lo + i);
            lemma_lookup_at(s, lo + i);
            assert(batch.entries@[i].key@ == s[lo + i].0);
        }
        if lo <= j < hi {
            assert(batch.entries@[j - lo].key@ == s[j].0);
        }
    } else {
        let (lo, hi) = choose|lo: int, hi: int|
            #[trigger] is_segment_batch(s, cursor@, lo, hi) && batch_malformed(s, lo, hi);
        let k = choose|k: int| lo <= k < hi && !((#[trigger] s[k]).1 is Segment);
        lemma_one_byte_prefix(s[k].0, 1);
        assert(has_prefix(s[k].0, seq![1u8]));
        assert(s[k].0.len() > 0);
    }
}

/// A batch of what is left of migrations begins at the cursor and leaves none out, in
/// the same way.
pub proof fn law_progress_batches(
    db: &Db,
    catalog: &BTree<CatalogValue>,
    cursor: &[u8],
    batch: ProgressBatch,
    j: int,
    i: int,
)
    requires
        catalog.wf(),
        db.writer.catalog_root_page_id != 0,
        call_ensures(Db::drain_orphaned_rekey_progress, (db, catalog, cursor), batch),
    ensures
        batch.rows@.len() <= 256,
        batch.next is Some <==> batch.rows@.len() == 256,
        0 <= i < batch.rows@.len() ==> {
            &&& lookup(catalog@, batch.rows@[i].0@) == Some(batch.rows@[i].1)
            &&& batch.rows@[i].0@[0] == 8
            &&& !lex_lt(batch.rows@[i].0@, cursor@)
            &&& batch.next is Some ==> lex_lt(batch.rows@[i].0@, batch.next->0@)
        },
        0 <= j < catalog@.len() && catalog@[j].0.len() > 0 && catalog@[j].0[0] == 8 && !lex_lt(
            catalog@[j].0,
            cursor@,
        ) ==> {
            ||| exists|k: int|
                0 <= k < batch.rows@.len() && (#[trigger] batch.rows@[k]).0@ == catalog@[j].0
            ||| batch.next is Some && !lex_lt(catalog@[j].0, batch.next->0@)
        },
{
    let s = catalog@;
    let (lo, hi) = choose|lo: int, hi: int|
        {
            &&& #[trigger] is_batch(s, 8, cursor@, lo, hi)
            &&& are_catalog_rows(batch.rows@, s, lo, hi)
            &&& is_cursor(batch.next, next_cursor(s, lo, hi))
        };
    lemma_batch_is_whole(s, 8, cursor@, lo, hi, j);
    if 0 <= i < batch.rows@.len() {
        lemma_batch_row(s, 8, cursor@, lo, hi, lo + i);
        lemma_lookup_at(s, lo + i);
        assert(batch.rows@[i].0@ == s[lo + i].0);
    }
    if lo <= j < hi {
        assert(batch.rows@[j - lo].0@ == s[j].0);
    }
}

proof fn lemma_batch_row(
    s: Seq<(Seq<u8>, CatalogValue)>,
    kind: u8,
    cursor: Seq<u8>,
    lo: int,
    hi: int,
    k: int,
)
    requires
        ascending(s),
        is_batch(s, kind, cursor, lo, hi),
        lo <= k < hi,
    ensures
        s[k].0.len() > 0 && s[k].0[0] == kind,
        !lex_lt(s[k].0, cursor),
        lex_lt(s[k].0, s[hi - 1].0.push(0)),
{
    lemma_one_byte_prefix(s[k].0, kind);
    assert(has_prefix(s[k].0, seq![kind]));
    lemma_lex_successor(s[hi - 1].0, s[k].0);
    if k < hi - 1 {
        assert(lex_lt(s[k].0, s[hi - 1].0));
        lemma_lex_transitive(s[k].0, s[hi - 1].0, s[hi - 1].0.push(0));
    }
}

proof fn lemma_batch_is_whole(
    s: Seq<(Seq<u8>, CatalogValue)>,
    kind: u8,
    cursor: Seq<u8>,
    lo: int,
    hi: int,
    j: int,
)
    requires
        ascending(s),
        is_batch(s, kind, cursor, lo, hi),
    ensures
        0 <= j < s.len() && s[j].0.len() > 0 && s[j].0[0] == kind && !lex_lt(s[j].0, cursor) ==> {
            ||| lo <= j < hi
            ||| hi - lo == 256 && !lex_lt(s[j].0, s[hi - 1].0.push(0))
        },
{
    if 0 <= j < s.len() && s[j].0.len() > 0 && s[j].0[0] == kind && !lex_lt(s[j].0, cursor) {
        lemma_one_byte_prefix(s[j].0, kind);
        assert(has_prefix(s[j].0, seq![kind]));
        assert(lo <= j);
        if hi <= j && hi - lo == 256 {
            assert(lex_lt(s[hi - 1].0, s[j].0));
            let next = s[hi - 1].0.push(0);
            lemma_lex_successor(s[hi - 1].0, s[j].0);
            if lex_lt(s[j].0, next) {
                lemma_lex_asymmetric(s[j].0, next);
            }
        }
    }
}

/// A change that is recorded for want of the target's proof is one with the key in use:
/// it names the store's epoch and cipher, the new epoch and the source's proof, and its
/// target proof is all zeros.
pub proof fn law_unproven_rekey_is_recorded(
    db: &Db,
    catalog: &mut BTree<CatalogValue>,
    epoch: u64,
    source: [u8; 16],
    r: Result<()>,
    key: Seq<u8>,
)
    requires
        old(catalog).wf(),
        call_ensures(
            Db::inject_incomplete_rekey_watermark,
            (db, catalog, epoch, source),
            r,
        ),
    ensures
        r is Ok <==> db.poisoned_commit is None && db.mode is Standalone,
        r is Err ==> *final(catalog) == *old(catalog),
        r is Ok ==> {
            let row = lookup(final(catalog)@, seq![3u8]);
            &&& row is Some
            &&& row->0 is RekeyState
            &&& row->0->RekeyState_0.source_mk_epoch == db.mk_epoch
            &&& row->0->RekeyState_0.target_mk_epoch == epoch
            &&& row->0->RekeyState_0.source_hk_proof == source
            &&& row->0->RekeyState_0.same_kek
            &&& row->0->RekeyState_0.stage is Intent
            &&& forall|i: int|
                0 <= i < 16 ==> #[trigger] row->0->RekeyState_0.target_hk_proof@[i] == 0
            &&& key != seq![3u8] ==> lookup(final(catalog)@, key) == lookup(old(catalog)@, key)
        },
{
    if r is Ok {
        let k = seq![3u8];
        let intent = choose|i: RekeyIntent|
            #[trigger] begins_unproven(*db, epoch, source, i) && final(catalog)@ == with_row(
                old(catalog)@,
                k,
                CatalogValue::RekeyState(i),
            );
        lemma_slot_exists(old(catalog)@, k);
        lemma_with_row(
            old(catalog)@,
            k,
            CatalogValue::RekeyState(intent),
            slot_of_key(old(catalog)@, k),
        );
    }
}

/// In a catalog whose segment rows are segments, what is left of a migration is
/// finished from its source where the source is linked, by the row that links it; else
/// from its replacement, the one that is recorded, where that is linked under the
/// target's epoch and cipher. Otherwise the replacement is missing.
pub proof fn law_orphan_is_resolved(
    db: &Db,
    catalog: &BTree<CatalogValue>,
    intent: &RekeyIntent,
    key: &[u8],
    value: &CatalogValue,
    r: Result<OrphanPlan>,
    prefix: &[u8],
    range: (usize, usize),
    source: [u8; 16],
    by_source: Result<Option<usize>>,
    by_replacement: Result<Option<usize>>,
)
    requires
        prefix@ == seq![1u8],
        call_ensures(BTree::<CatalogValue>::prefix_range, (catalog, prefix), range),
        forall|k: int|
            #![trigger catalog@[k]]
            0 <= k < catalog@.len() && catalog@[k].0.len() > 0 && catalog@[k].0[0] == 1
                ==> catalog@[k].1 is Segment,
        db.writer.catalog_root_page_id != 0,
        key@.len() == 17,
        source@ == key@.subrange(1, 17),
        *value is RekeyProgress,
        call_ensures(Db::finish_orphaned_rekey_progress, (db, catalog, intent, key, value), r),
        call_ensures(Db::segment_entry_by_id, (db, catalog, source), by_source),
        call_ensures(
            Db::segment_entry_by_id,
            (db, catalog, value->RekeyProgress_0.replacement_segment_id),
            by_replacement,
        ),
    ensures
        by_source is Ok && by_replacement is Ok,
        by_source->Ok_0 is Some ==> r == Ok::<OrphanPlan, PagedbError>(
            OrphanPlan::Migrate { row: by_source->Ok_0->0 },
        ),
        by_source->Ok_0 is None && by_replacement->Ok_0 is Some ==> {
            let meta = catalog@[by_replacement->Ok_0->0 as int].1->Segment_0;
            r == if meta.mk_epoch == intent.target_mk_epoch && meta.cipher_id
                == intent.target_cipher_id {
                Ok::<OrphanPlan, PagedbError>(
                    OrphanPlan::Finish { source_id: source, replacement: meta },
                )
            } else {
                Err::<OrphanPlan, PagedbError>(
                    PagedbError::RekeyReplacementMissing {
                        replacement_segment_id: value->RekeyProgress_0.replacement_segment_id,
                    },
                )
            }
        },
        by_source->Ok_0 is None && by_replacement->Ok_0 is None ==> r == Err::<
            OrphanPlan,
            PagedbError,
        >(
            PagedbError::RekeyReplacementMissing {
                replacement_segment_id: value->RekeyProgress_0.replacement_segment_id,
            },
        ),
{
    let lo = range.0 as int;
    let hi = range.1 as int;
    assert(is_run(catalog@, seq![1u8], lo, hi));
    assert forall|k: int| lo <= k < hi implies (#[trigger] catalog@[k]).1 is Segment by {
        lemma_one_byte_prefix(catalog@[k].0, 1);
        assert(has_prefix(catalog@[k].0, seq![1u8]));
    }
    law_segment_walk_is_exact(catalog@, lo, hi, SegmentQuery::HasId(source));
    law_segment_walk_is_exact(
        catalog@,
        lo,
        hi,
        SegmentQuery::HasId(value->RekeyProgress_0.replacement_segment_id),
    );
    let id = choose|id: [u8; 16]|
        id@ == key@.subrange(1, 17) && r == #[trigger] orphan_resolution(
            db.writer.catalog_root_page_id,
            catalog@,
            *intent,
            id,
            value->RekeyProgress_0,
        );
    assert(id == source);
}

/// An interrupted change under a cipher that is not known is refused by that cipher,
/// the source's first, and installs no key.
pub proof fn law_recovery_needs_known_ciphers(
    db: &Db,
    ring: &mut EpochKeyring,
    intent: &RekeyIntent,
    primary: &KekCandidate,
    other: Option<&KekCandidate>,
    r: Result<bool>,
)
    requires
        old(ring).wf(),
        call_ensures(Db::admit_rekey_recovery, (db, ring, Some(intent), primary, other), r),
        !(intent.source_cipher_id == 1 || intent.source_cipher_id == 2) || !(
        intent.target_cipher_id == 1 || intent.target_cipher_id == 2),
    ensures
        r == Err::<bool, PagedbError>(
            PagedbError::UnknownCipher {
                cipher_id: if intent.source_cipher_id == 1 || intent.source_cipher_id == 2 {
                    intent.target_cipher_id
                } else {
                    intent.source_cipher_id
                },
            },
        ),
        final(ring)@ == old(ring)@,
{
}

} // verus!
