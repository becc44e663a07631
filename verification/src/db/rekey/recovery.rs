//! Admission of an interrupted rekey: which keys a durable intent needs, and
//! whether the keys at hand are those.

use vstd::prelude::*;

use crate::catalog::{CatalogValue, RekeyIntent, KIND_REKEY_STATE};
use crate::db::handle::Db;
use crate::db::manifest_validation::{all_zero, is_all_zero};
use crate::errors::{PagedbError, Result};
use crate::ids::CipherId;
use crate::tree::{with_row, BTree};

use super::intent::{intent_proof, proof_of, same_proof};
use super::keyring::{DerivedKey, EpochKeyring, MasterKey};

verus! {

/// What a key-encryption key yields for one epoch of the store.
#[derive(Clone, Copy)]
pub struct DerivedPair {
    pub mk: MasterKey,
    pub hk: DerivedKey,
}

/// What a key-encryption key yields for the two epochs of a rekey.
#[derive(Clone, Copy)]
pub struct KekCandidate {
    pub source: DerivedPair,
    pub target: DerivedPair,
}

/// What every proof of one rekey binds.
#[derive(Debug, Clone, Copy)]
pub struct RekeyProofContext {
    pub file_id: [u8; 16],
    pub salt: [u8; 16],
    pub source_epoch: u64,
    pub target_epoch: u64,
}

/// One side of a rekey, with the proof that its key must give.
#[derive(Debug, Clone, Copy)]
pub struct RekeyProofSpec {
    pub epoch: u64,
    pub cipher_id: u8,
    pub expected: [u8; 16],
}

/// Whether the keys prove to be those of one side of a rekey.
pub open spec fn proves(
    keys: DerivedPair,
    context: RekeyProofContext,
    spec_side: RekeyProofSpec,
) -> bool {
    proof_of(
        keys.hk,
        context.file_id,
        context.salt,
        context.source_epoch,
        context.target_epoch,
        spec_side.epoch,
        spec_side.cipher_id,
    ) == spec_side.expected@
}

/// The master key, when the proof it derives is the expected one.
pub fn key_if_proven(mk: MasterKey, derived: &[u8; 16], expected: &[u8; 16]) -> (key: Option<
    MasterKey,
>)
    ensures
        key == if derived@ == expected@ {
            Some(mk)
        } else {
            None
        },
{
    if same_proof(derived, expected) {
        Some(mk)
    } else {
        None
    }
}

/// The master key of the pair, when it proves to belong to one side of the
/// rekey.
pub fn matching_key(
    keys: &DerivedPair,
    context: &RekeyProofContext,
    spec_side: &RekeyProofSpec,
) -> (r: Result<Option<MasterKey>>)
    ensures
        r == Ok::<Option<MasterKey>, PagedbError>(
            if proves(*keys, *context, *spec_side) {
                Some(keys.mk)
            } else {
                None
            },
        ),
{
    let derived: [u8; 16] = match intent_proof(
        &keys.hk,
        &context.file_id,
        &context.salt,
        context.source_epoch,
        context.target_epoch,
        spec_side.epoch,
        spec_side.cipher_id,
    ) {
        Ok(derived) => derived,
        Err(e) => return Err(e),
    };
    Ok(key_if_proven(keys.mk, &derived, &spec_side.expected))
}

/// The pair that two key-encryption keys give, each in one role: the first as
/// source with the second as target, or the other way round.
pub open spec fn paired(
    source_primary: Option<MasterKey>,
    target_primary: Option<MasterKey>,
    source_counterpart: Option<MasterKey>,
    target_counterpart: Option<MasterKey>,
) -> Option<(MasterKey, MasterKey)> {
    if source_primary is Some && target_counterpart is Some {
        Some((source_primary->0, target_counterpart->0))
    } else if source_counterpart is Some && target_primary is Some {
        Some((source_counterpart->0, target_primary->0))
    } else {
        None
    }
}

fn zip_keys(a: Option<MasterKey>, b: Option<MasterKey>) -> (pair: Option<(MasterKey, MasterKey)>)
    ensures
        pair == if a is Some && b is Some {
            Some((a->0, b->0))
        } else {
            None
        },
{
    match (a, b) {
        (Some(x), Some(y)) => Some((x, y)),
        _ => None,
    }
}

/// The pair that the matches give.
pub fn pair_keys(
    source_primary: Option<MasterKey>,
    target_primary: Option<MasterKey>,
    source_counterpart: Option<MasterKey>,
    target_counterpart: Option<MasterKey>,
) -> (pair: Option<(MasterKey, MasterKey)>)
    ensures
        pair == paired(source_primary, target_primary, source_counterpart, target_counterpart),
{
    match zip_keys(source_primary, target_counterpart) {
        Some(pair) => Some(pair),
        None => zip_keys(source_counterpart, target_primary),
    }
}

/// The key that a proof hands out.
pub open spec fn match_of(
    keys: DerivedPair,
    context: RekeyProofContext,
    spec_side: RekeyProofSpec,
) -> Option<MasterKey> {
    if proves(keys, context, spec_side) {
        Some(keys.mk)
    } else {
        None
    }
}

/// The source and target keys of a rekey. With one key-encryption key, it must
/// prove both sides. With two, the counterpart is required and each must prove
/// its own side, in either order.
pub open spec fn resolved_pair(
    primary: KekCandidate,
    counterpart: Option<KekCandidate>,
    context: RekeyProofContext,
    source_spec: RekeyProofSpec,
    target_spec: RekeyProofSpec,
    same_kek: bool,
) -> Result<(MasterKey, MasterKey)> {
    let invalid = PagedbError::RekeyCounterpartKeyInvalid {
        source_epoch: context.source_epoch,
        target_epoch: context.target_epoch,
    };
    let sp = match_of(primary.source, context, source_spec);
    let tp = match_of(primary.target, context, target_spec);
    if same_kek {
        if sp is Some && tp is Some {
            Ok((sp->0, tp->0))
        } else {
            Err(invalid)
        }
    } else {
        match counterpart {
            None => Err(
                PagedbError::RekeyResumeKeyRequired {
                    source_epoch: context.source_epoch,
                    target_epoch: context.target_epoch,
                },
            ),
            Some(other) => {
                let pair = paired(
                    sp,
                    tp,
                    match_of(other.source, context, source_spec),
                    match_of(other.target, context, target_spec),
                );
                match pair {
                    Some(keys) => Ok(keys),
                    None => Err(invalid),
                }
            },
        }
    }
}

/// Finds the source and target keys of a rekey among the keys at hand. A key
/// that is not at hand is never guessed.
pub fn resolve_rekey_key_pair(
    primary: &KekCandidate,
    counterpart: Option<&KekCandidate>,
    context: &RekeyProofContext,
    source_spec: &RekeyProofSpec,
    target_spec: &RekeyProofSpec,
    same_kek: bool,
) -> (r: Result<(MasterKey, MasterKey)>)
    ensures
        r == resolved_pair(
            *primary,
            match counterpart {
                Some(other) => Some(*other),
                None => None,
            },
            *context,
            *source_spec,
            *target_spec,
            same_kek,
        ),
{
    let source_primary: Option<MasterKey> = match matching_key(
        &primary.source,
        context,
        source_spec,
    ) {
        Ok(found) => found,
        Err(e) => return Err(e),
    };
    let target_primary: Option<MasterKey> = match matching_key(
        &primary.target,
        context,
        target_spec,
    ) {
        Ok(found) => found,
        Err(e) => return Err(e),
    };
    if same_kek {
        return match zip_keys(source_primary, target_primary) {
            Some(pair) => Ok(pair),
            None => Err(
                PagedbError::RekeyCounterpartKeyInvalid {
                    source_epoch: context.source_epoch,
                    target_epoch: context.target_epoch,
                },
            ),
        };
    }
    let other: &KekCandidate = match counterpart {
        Some(other) => other,
        None => return Err(
            PagedbError::RekeyResumeKeyRequired {
                source_epoch: context.source_epoch,
                target_epoch: context.target_epoch,
            },
        ),
    };
    let source_counterpart: Option<MasterKey> = match matching_key(
        &other.source,
        context,
        source_spec,
    ) {
        Ok(found) => found,
        Err(e) => return Err(e),
    };
    let target_counterpart: Option<MasterKey> = match matching_key(
        &other.target,
        context,
        target_spec,
    ) {
        Ok(found) => found,
        Err(e) => return Err(e),
    };
    match pair_keys(source_primary, target_primary, source_counterpart, target_counterpart) {
        Some(pair) => Ok(pair),
        None => Err(
            PagedbError::RekeyCounterpartKeyInvalid {
                source_epoch: context.source_epoch,
                target_epoch: context.target_epoch,
            },
        ),
    }
}

/// What the proofs of an intent on this store bind.
pub open spec fn context_of(db: Db, intent: RekeyIntent) -> RekeyProofContext {
    RekeyProofContext {
        file_id: db.file_id,
        salt: db.kek_salt,
        source_epoch: intent.source_mk_epoch,
        target_epoch: intent.target_mk_epoch,
    }
}

/// The source side of an intent.
pub open spec fn source_side(intent: RekeyIntent) -> RekeyProofSpec {
    RekeyProofSpec {
        epoch: intent.source_mk_epoch,
        cipher_id: intent.source_cipher_id,
        expected: intent.source_hk_proof,
    }
}

/// The target side of an intent.
pub open spec fn target_side(intent: RekeyIntent) -> RekeyProofSpec {
    RekeyProofSpec {
        epoch: intent.target_mk_epoch,
        cipher_id: intent.target_cipher_id,
        expected: intent.target_hk_proof,
    }
}

/// Whether an intent was written without the proof of its target key: the key
/// stays the same, and the proof is all zero.
pub open spec fn lacks_target_proof(intent: RekeyIntent) -> bool {
    intent.same_kek && all_zero(intent.target_hk_proof@)
}

/// Whether an intent was written without the proof of its target key.
pub fn needs_target_proof(intent: &RekeyIntent) -> (lacks: bool)
    ensures
        lacks == lacks_target_proof(*intent),
{
    intent.same_kek && is_all_zero(intent.target_hk_proof.as_slice())
}

impl Db {
    /// Establishes both epoch keys of a durable intent before anything else
    /// reads the catalog. Nothing is installed unless both keys are proven.
    /// Says whether there was an intent to admit.
    pub fn admit_rekey_recovery(
        &self,
        keyring: &mut EpochKeyring,
        intent: Option<&RekeyIntent>,
        primary: &KekCandidate,
        counterpart: Option<&KekCandidate>,
    ) -> (r: Result<bool>)
        requires
            old(keyring).wf(),
        ensures
            final(keyring).wf(),
            ({
                let other = match counterpart {
                    Some(other) => Some(*other),
                    None => None,
                };
                match intent {
                    None => r == Ok::<bool, PagedbError>(false) && final(keyring)@ == old(keyring)@,
                    Some(i) => if i.source_cipher_id != 1 && i.source_cipher_id != 2 {
                        &&& r == Err::<bool, PagedbError>(
                            PagedbError::UnknownCipher { cipher_id: i.source_cipher_id },
                        )
                        &&& final(keyring)@ == old(keyring)@
                    } else if i.target_cipher_id != 1 && i.target_cipher_id != 2 {
                        &&& r == Err::<bool, PagedbError>(
                            PagedbError::UnknownCipher { cipher_id: i.target_cipher_id },
                        )
                        &&& final(keyring)@ == old(keyring)@
                    } else {
                        match resolved_pair(
                            *primary,
                            other,
                            context_of(*self, *i),
                            source_side(*i),
                            target_side(*i),
                            i.same_kek,
                        ) {
                            Ok(pair) => {
                                &&& r == Ok::<bool, PagedbError>(true)
                                &&& final(keyring)@ == old(keyring)@.insert(
                                    (i.source_mk_epoch, i.source_cipher_id),
                                    pair.0,
                                ).insert((i.target_mk_epoch, i.target_cipher_id), pair.1)
                            },
                            Err(e) => {
                                &&& r == Err::<bool, PagedbError>(e)
                                &&& final(keyring)@ == old(keyring)@
                            },
                        }
                    },
                }
            }),
    {
        let intent: &RekeyIntent = match intent {
            Some(intent) => intent,
            None => return Ok(false),
        };
        let source_cipher: CipherId = match CipherId::from_byte(intent.source_cipher_id) {
            Ok(cipher) => cipher,
            Err(e) => return Err(e),
        };
        let target_cipher: CipherId = match CipherId::from_byte(intent.target_cipher_id) {
            Ok(cipher) => cipher,
            Err(e) => return Err(e),
        };
        let context: RekeyProofContext = RekeyProofContext {
            file_id: self.file_id,
            salt: self.kek_salt,
            source_epoch: intent.source_mk_epoch,
            target_epoch: intent.target_mk_epoch,
        };
        let source_spec: RekeyProofSpec = RekeyProofSpec {
            epoch: intent.source_mk_epoch,
            cipher_id: intent.source_cipher_id,
            expected: intent.source_hk_proof,
        };
        let target_spec: RekeyProofSpec = RekeyProofSpec {
            epoch: intent.target_mk_epoch,
            cipher_id: intent.target_cipher_id,
            expected: intent.target_hk_proof,
        };
        match resolve_rekey_key_pair(
            primary,
            counterpart,
            &context,
            &source_spec,
            &target_spec,
            intent.same_kek,
        ) {
            Ok((source_key, target_key)) => {
                keyring.install(intent.source_mk_epoch, source_cipher, source_key);
                keyring.install(intent.target_mk_epoch, target_cipher, target_key);
                Ok(true)
            },
            Err(e) => Err(e),
        }
    }

    /// Gives an intent that lacks it the proof of its target key, installs that
    /// key, and writes the intent back among the catalog's rows.
    pub fn persist_legacy_rekey_proof(
        &self,
        catalog: &mut BTree<CatalogValue>,
        keyring: &mut EpochKeyring,
        intent: &mut RekeyIntent,
        target: &DerivedPair,
        target_cipher: CipherId,
    ) -> (r: Result<()>)
        requires
            old(catalog).wf(),
            old(keyring).wf(),
        ensures
            r is Ok,
            final(catalog).wf(),
            final(keyring).wf(),
            *final(intent) == (RekeyIntent {
                target_hk_proof: final(intent).target_hk_proof,
                ..*old(intent)
            }),
            proves(*target, context_of(*self, *final(intent)), target_side(*final(intent))),
            final(keyring)@ == old(keyring)@.insert(
                (old(intent).target_mk_epoch, target_cipher.byte()),
                target.mk,
            ),
            final(catalog)@ == with_row(
                old(catalog)@,
                seq![KIND_REKEY_STATE],
                CatalogValue::RekeyState(*final(intent)),
            ),
            final(catalog).root() == old(catalog).root(),
            final(catalog).next() == old(catalog).next(),
    {
        let derived: [u8; 16] = match intent_proof(
            &target.hk,
            &self.file_id,
            &self.kek_salt,
            intent.source_mk_epoch,
            intent.target_mk_epoch,
            intent.target_mk_epoch,
            intent.target_cipher_id,
        ) {
            Ok(derived) => derived,
            Err(e) => return Err(e),
        };
        intent.target_hk_proof = derived;
        keyring.install(intent.target_mk_epoch, target_cipher, target.mk);
        write_intent_row(catalog, intent);
        Ok(())
    }
}

/// Stores the intent among the catalog's rows.
pub fn write_intent_row(catalog: &mut BTree<CatalogValue>, intent: &RekeyIntent)
    requires
        old(catalog).wf(),
    ensures
        final(catalog).wf(),
        final(catalog)@ == with_row(
            old(catalog)@,
            seq![KIND_REKEY_STATE],
            CatalogValue::RekeyState(*intent),
        ),
        final(catalog).root() == old(catalog).root(),
        final(catalog).next() == old(catalog).next(),
{
    let key: Vec<u8> = crate::catalog::Catalog::rekey_state_key();
    catalog.put(&key, CatalogValue::RekeyState(*intent));
}

/// An interrupted change of the key-encryption key is resumed with the two keys
/// in either order: one order is accepted exactly when the other is, and unless
/// both keys prove both sides, the pair that comes out is the same.
pub proof fn law_key_order_does_not_matter(
    a: KekCandidate,
    b: KekCandidate,
    context: RekeyProofContext,
    source_spec: RekeyProofSpec,
    target_spec: RekeyProofSpec,
)
    ensures
        resolved_pair(a, Some(b), context, source_spec, target_spec, false) is Ok
            <==> resolved_pair(b, Some(a), context, source_spec, target_spec, false) is Ok,
        !(proves(a.source, context, source_spec) && proves(a.target, context, target_spec)
            && proves(b.source, context, source_spec) && proves(b.target, context, target_spec))
            ==> resolved_pair(a, Some(b), context, source_spec, target_spec, false)
            == resolved_pair(b, Some(a), context, source_spec, target_spec, false),
{
}

/// A change of the key-encryption key is never resumed with one key alone, and
/// a counterpart that proves neither side is never accepted.
pub proof fn law_counterpart_is_never_guessed(
    primary: KekCandidate,
    counterpart: KekCandidate,
    context: RekeyProofContext,
    source_spec: RekeyProofSpec,
    target_spec: RekeyProofSpec,
)
    requires
        !proves(counterpart.source, context, source_spec),
        !proves(counterpart.target, context, target_spec),
    ensures
        resolved_pair(primary, None, context, source_spec, target_spec, false) == Err::<
            (MasterKey, MasterKey),
            PagedbError,
        >(
            PagedbError::RekeyResumeKeyRequired {
                source_epoch: context.source_epoch,
                target_epoch: context.target_epoch,
            },
        ),
        resolved_pair(primary, Some(counterpart), context, source_spec, target_spec, false) == Err::<
            (MasterKey, MasterKey),
            PagedbError,
        >(
            PagedbError::RekeyCounterpartKeyInvalid {
                source_epoch: context.source_epoch,
                target_epoch: context.target_epoch,
            },
        ),
{
}

} // verus!
