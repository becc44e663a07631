//! What a durable rekey intent must satisfy, and the proofs by which it
//! recognises its keys.

use hmac::{Hmac, Mac};
use sha2::Sha256;
use subtle::ConstantTimeEq;
use vstd::prelude::*;

use crate::catalog::{transition_fault, RekeyIntent};
use crate::codec::{
    extend, le_bytes, lemma_byte_range_8, lemma_le_bytes_len, lemma_le_injective, take_16,
    u64_to_le,
};
use crate::db::rekey::keyring::DerivedKey;
use crate::errors::{IoKind, PagedbError, Result};
use crate::ids::CipherId;

verus! {

/// What the HMAC-SHA-256 of a message under a key is.
pub uninterp spec fn hmac_sha256_of(key: Seq<u8>, message: Seq<u8>) -> Seq<u8>;

/// `hmac::Hmac::<Sha256>`: made from the key by `new_from_slice`, fed the
/// message by `update`, and read by `finalize`. The digest is the HMAC-SHA-256
/// of the message under the key, a function of those two alone. There is always
/// one: a key of any length is accepted, padded when it is short and hashed
/// when it is long.
#[verifier::external_body]
fn hmac_sha256(key: &[u8], message: &[u8]) -> (digest: Option<[u8; 32]>)
    ensures
        digest is Some,
        digest->0@ == hmac_sha256_of(key@, message@),
{
    match Hmac::<Sha256>::new_from_slice(key) {
        Ok(mut mac) => {
            mac.update(message);
            Some(mac.finalize().into_bytes().into())
        },
        Err(_) => None,
    }
}

/// `subtle::ConstantTimeEq::ct_eq` on the two arrays as slices: whether they
/// hold the same bytes. That it takes the same time whatever they hold is
/// outside of what a contract can say.
#[verifier::external_body]
pub(crate) fn same_proof(a: &[u8; 16], b: &[u8; 16]) -> (same: bool)
    ensures
        same == (a@ == b@),
{
    bool::from(a.ct_eq(b))
}

/// The bytes that every rekey proof begins with: `pagedb/rekey-proof/v1`.
pub open spec fn proof_domain() -> Seq<u8> {
    seq![
        112u8, 97, 103, 101, 100, 98, 47, 114, 101, 107, 101, 121, 45, 112, 114, 111, 111, 102, 47,
        118, 49,
    ]
}

/// The message of a rekey proof: the domain, the store's identity, the
/// transition, and the epoch and cipher that the proof speaks for.
pub open spec fn proof_message(
    file_id: [u8; 16],
    kek_salt: [u8; 16],
    source_epoch: u64,
    target_epoch: u64,
    proof_epoch: u64,
    cipher_id: u8,
) -> Seq<u8> {
    proof_domain() + file_id@ + kek_salt@ + le_bytes(source_epoch as nat, 8) + le_bytes(
        target_epoch as nat,
        8,
    ) + le_bytes(proof_epoch as nat, 8) + seq![cipher_id]
}

/// A rekey proof: the first half of the message's HMAC under the header key.
pub open spec fn proof_of(
    hk: DerivedKey,
    file_id: [u8; 16],
    kek_salt: [u8; 16],
    source_epoch: u64,
    target_epoch: u64,
    proof_epoch: u64,
    cipher_id: u8,
) -> Seq<u8> {
    hmac_sha256_of(
        hk.0@,
        proof_message(file_id, kek_salt, source_epoch, target_epoch, proof_epoch, cipher_id),
    ).subrange(0, 16)
}

/// Writes out the message of a rekey proof.
pub fn write_proof_message(
    file_id: &[u8; 16],
    kek_salt: &[u8; 16],
    source_epoch: u64,
    target_epoch: u64,
    proof_epoch: u64,
    cipher_id: u8,
) -> (message: Vec<u8>)
    ensures
        message@ == proof_message(
            *file_id,
            *kek_salt,
            source_epoch,
            target_epoch,
            proof_epoch,
            cipher_id,
        ),
{
    let domain: [u8; 21] = [
        112, 97, 103, 101, 100, 98, 47, 114, 101, 107, 101, 121, 45, 112, 114, 111, 111, 102, 47,
        118, 49,
    ];
    let s: [u8; 8] = u64_to_le(source_epoch);
    let t: [u8; 8] = u64_to_le(target_epoch);
    let p: [u8; 8] = u64_to_le(proof_epoch);
    let mut message: Vec<u8> = Vec::new();
    extend(&mut message, domain.as_slice());
    extend(&mut message, file_id.as_slice());
    extend(&mut message, kek_salt.as_slice());
    extend(&mut message, s.as_slice());
    extend(&mut message, t.as_slice());
    extend(&mut message, p.as_slice());
    message.push(cipher_id);
    proof {
        assert(domain@ =~= proof_domain());
        assert(message@ =~= proof_message(
            *file_id,
            *kek_salt,
            source_epoch,
            target_epoch,
            proof_epoch,
            cipher_id,
        ));
    }
    message
}

/// The proof that a digest holds: its first half.
pub fn proof_of_digest(digest: &[u8; 32]) -> (proof_bytes: [u8; 16])
    ensures
        proof_bytes@ == digest@.subrange(0, 16),
{
    take_16(digest.as_slice(), 0)
}

/// The proof that a header key belongs to one side of a rekey of this store.
pub fn intent_proof(
    hk: &DerivedKey,
    file_id: &[u8; 16],
    kek_salt: &[u8; 16],
    source_epoch: u64,
    target_epoch: u64,
    proof_epoch: u64,
    cipher_id: u8,
) -> (r: Result<[u8; 16]>)
    ensures
        r is Ok,
        r->Ok_0@ == proof_of(
            *hk,
            *file_id,
            *kek_salt,
            source_epoch,
            target_epoch,
            proof_epoch,
            cipher_id,
        ),
{
    let message: Vec<u8> = write_proof_message(
        file_id,
        kek_salt,
        source_epoch,
        target_epoch,
        proof_epoch,
        cipher_id,
    );
    match hmac_sha256(hk.0.as_slice(), &message) {
        Some(digest) => Ok(proof_of_digest(&digest)),
        None => Err(PagedbError::Io(IoKind::Other)),
    }
}

/// Refuses an intent whose epoch does not advance or whose ciphers are not
/// known.
pub fn validate_intent(intent: &RekeyIntent) -> (r: Result<()>)
    ensures
        r == match transition_fault(*intent) {
            Some(e) => Err::<(), PagedbError>(e),
            None => Ok::<(), PagedbError>(()),
        },
{
    if intent.target_mk_epoch == 0 || intent.target_mk_epoch <= intent.source_mk_epoch {
        return Err(PagedbError::RekeyStateInvalid { field: "rekey.target_mk_epoch" });
    }
    match CipherId::from_byte(intent.source_cipher_id) {
        Ok(_) => {},
        Err(e) => return Err(e),
    }
    match CipherId::from_byte(intent.target_cipher_id) {
        Ok(_) => {},
        Err(e) => return Err(e),
    }
    Ok(())
}

/// What is wrong with an intent on a store with the given cipher.
pub open spec fn cipher_fault(intent: RekeyIntent, current_cipher_id: u8) -> Option<PagedbError> {
    if transition_fault(intent) is Some {
        transition_fault(intent)
    } else if intent.source_cipher_id != current_cipher_id {
        Some(PagedbError::RekeyStateInvalid { field: "source_cipher_id" })
    } else if intent.target_cipher_id != current_cipher_id {
        Some(PagedbError::RekeyStateInvalid { field: "target_cipher_id" })
    } else {
        None
    }
}

/// Rekey changes key material only. There is no choosing of a cipher, so an
/// intent may never bring in a mixed-cipher transition.
pub fn validate_intent_for_current_cipher(intent: &RekeyIntent, current_cipher_id: u8) -> (r: Result<
    (),
>)
    ensures
        r == match cipher_fault(*intent, current_cipher_id) {
            Some(e) => Err::<(), PagedbError>(e),
            None => Ok::<(), PagedbError>(()),
        },
{
    match validate_intent(intent) {
        Ok(()) => {},
        Err(e) => return Err(e),
    }
    if intent.source_cipher_id != current_cipher_id {
        return Err(PagedbError::RekeyStateInvalid { field: "source_cipher_id" });
    }
    if intent.target_cipher_id != current_cipher_id {
        return Err(PagedbError::RekeyStateInvalid { field: "target_cipher_id" });
    }
    Ok(())
}

/// A proof's message determines everything that the proof binds: two proofs
/// over the same message speak of the same store, the same transition, the same
/// epoch and the same cipher.
pub proof fn law_proof_binds_identity_and_transition(
    file_a: [u8; 16],
    salt_a: [u8; 16],
    source_a: u64,
    target_a: u64,
    epoch_a: u64,
    cipher_a: u8,
    file_b: [u8; 16],
    salt_b: [u8; 16],
    source_b: u64,
    target_b: u64,
    epoch_b: u64,
    cipher_b: u8,
)
    requires
        proof_message(file_a, salt_a, source_a, target_a, epoch_a, cipher_a) == proof_message(
            file_b,
            salt_b,
            source_b,
            target_b,
            epoch_b,
            cipher_b,
        ),
    ensures
        file_a == file_b,
        salt_a == salt_b,
        source_a == source_b,
        target_a == target_b,
        epoch_a == epoch_b,
        cipher_a == cipher_b,
{
    lemma_message_parts(file_a, salt_a, source_a, target_a, epoch_a, cipher_a);
    lemma_message_parts(file_b, salt_b, source_b, target_b, epoch_b, cipher_b);
    lemma_byte_range_8();
    assert(file_a =~= file_b);
    assert(salt_a =~= salt_b);
    lemma_le_injective(source_a as nat, source_b as nat, 8);
    lemma_le_injective(target_a as nat, target_b as nat, 8);
    lemma_le_injective(epoch_a as nat, epoch_b as nat, 8);
}

proof fn lemma_message_parts(
    file_id: [u8; 16],
    kek_salt: [u8; 16],
    source_epoch: u64,
    target_epoch: u64,
    proof_epoch: u64,
    cipher_id: u8,
)
    ensures
        ({
            let m = proof_message(
                file_id,
                kek_salt,
                source_epoch,
                target_epoch,
                proof_epoch,
                cipher_id,
            );
            &&& m.subrange(21, 37) == file_id@
            &&& m.subrange(37, 53) == kek_salt@
            &&& m.subrange(53, 61) == le_bytes(source_epoch as nat, 8)
            &&& m.subrange(61, 69) == le_bytes(target_epoch as nat, 8)
            &&& m.subrange(69, 77) == le_bytes(proof_epoch as nat, 8)
            &&& m[77] == cipher_id
        }),
{
    lemma_le_bytes_len(source_epoch as nat, 8);
    lemma_le_bytes_len(target_epoch as nat, 8);
    lemma_le_bytes_len(proof_epoch as nat, 8);
    let m = proof_message(file_id, kek_salt, source_epoch, target_epoch, proof_epoch, cipher_id);
    assert(m.subrange(21, 37) =~= file_id@);
    assert(m.subrange(37, 53) =~= kek_salt@);
    assert(m.subrange(53, 61) =~= le_bytes(source_epoch as nat, 8));
    assert(m.subrange(61, 69) =~= le_bytes(target_epoch as nat, 8));
    assert(m.subrange(69, 77) =~= le_bytes(proof_epoch as nat, 8));
}

/// An intent that a row may hold is admitted by the stores of its cipher and by
/// no others.
pub proof fn law_intent_is_admitted_by_its_cipher(intent: RekeyIntent, current_cipher_id: u8)
    requires
        crate::catalog::intent_fault(intent) is None,
    ensures
        cipher_fault(intent, current_cipher_id) is None <==> current_cipher_id
            == intent.source_cipher_id,
{
}

} // verus!
