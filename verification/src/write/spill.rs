//! Spill storage of a write transaction: encrypted chunks in a temporary file
//! that is discarded when the session ends.

use vstd::prelude::*;

use crate::codec::{
    le_bytes, lemma_byte_range_8, lemma_le_bytes_len, lemma_le_injective, u64_to_le,
};
use crate::db::gc::capped_sum;
use crate::db::handle::{poison_kept, Db};
use crate::errors::{PagedbError, QuotaKind, Result};
use crate::ids::{CipherId, RealmId};
use crate::paths::{decimal, spill_path};

use super::txn::WriteTxn;

verus! {

/// How many bytes authenticate a chunk.
pub const TAG_LEN: u64 = 16;

/// The page kind that stands for spilled bytes in what authenticates them.
pub const SPILL_PAGE_KIND: u8 = 0xFE;

/// Where one chunk of a session's spill file is. Held in memory only.
#[derive(Debug, Clone, Copy)]
pub struct SpillSegmentMeta {
    /// Where the chunk's body starts in the file.
    pub offset: u64,
    /// Length of the plaintext.
    pub plaintext_len: u32,
    /// Length of the body, without the tag that follows it.
    pub ciphertext_len: u32,
    /// The nonce that the chunk was encrypted under.
    pub nonce_bytes: [u8; 12],
}

/// Opaque handle to an appended chunk.
#[derive(Debug, Clone, Copy)]
pub struct ScratchOffset(u64);

impl ScratchOffset {
    /// Which chunk of the session it is.
    pub closed spec fn index(&self) -> u64 {
        self.0
    }
}

/// What is bound to a chunk when it is encrypted.
#[derive(Debug, Clone, Copy)]
pub struct AadFields {
    pub cipher_id: u8,
    pub page_kind: u8,
    pub mk_epoch: u64,
    pub page_id: u64,
    pub realm_id: RealmId,
    pub segment_id: [u8; 16],
}

/// The nonce of a chunk: six bytes of the session's number, then six of the
/// chunk's.
pub open spec fn spill_nonce(txn_seq: u64, index: u64) -> Seq<u8> {
    le_bytes(txn_seq as nat, 6) + le_bytes(index as nat, 6)
}

/// What is bound to a chunk: cipher, kind, key epoch, the chunk's number, realm
/// and file.
pub open spec fn spill_aad(db: Db, index: u64) -> AadFields {
    AadFields {
        cipher_id: CipherId::Aes256Gcm.byte(),
        page_kind: SPILL_PAGE_KIND,
        mk_epoch: db.mk_epoch,
        page_id: index,
        realm_id: db.realm_id,
        segment_id: db.file_id,
    }
}

/// What the key of a session's chunks is derived from, beside the label of spill
/// keys: the master key of an epoch, the file, the open, and the session.
#[derive(Debug, Clone, Copy, PartialEq, Eq)]
pub struct SpillKeyInputs {
    pub mk_epoch: u64,
    pub file_id: [u8; 16],
    pub spill_epoch: [u8; 16],
    pub txn_seq: u64,
}

/// What the key of a session's chunks is derived from.
pub open spec fn spill_key_of(db: Db, txn_seq: u64) -> SpillKeyInputs {
    SpillKeyInputs {
        mk_epoch: db.mk_epoch,
        file_id: db.file_id,
        spill_epoch: db.spill_epoch,
        txn_seq,
    }
}

/// A chunk that may be appended.
#[derive(Debug, Clone, Copy)]
pub struct SpillWrite {
    pub segment_index: u64,
    pub key: SpillKeyInputs,
    pub nonce: [u8; 12],
    pub aad: AadFields,
    pub body_offset: u64,
    pub tag_offset: u64,
    pub new_total: u64,
}

/// A chunk that may be read back.
#[derive(Debug, Clone, Copy)]
pub struct SpillRead {
    pub key: SpillKeyInputs,
    pub nonce: [u8; 12],
    pub aad: AadFields,
    pub body_offset: u64,
    pub body_len: u32,
    pub tag_offset: u64,
    pub plaintext_len: u32,
}

/// Whether chunk `i` ends, tag included, where the next one begins, or where
/// the file ends.
pub open spec fn chunk_is_followed(segs: Seq<SpillSegmentMeta>, used: u64, i: int) -> bool {
    segs[i].offset + segs[i].ciphertext_len + TAG_LEN == if i + 1 < segs.len() {
        segs[i + 1].offset
    } else {
        used
    }
}

/// Whether `w` is where a chunk with a body of this length goes in a session, and
/// what it is encrypted under.
pub open spec fn is_planned(session: WriteTxn, db: Db, body_len: u64, w: SpillWrite) -> bool {
    &&& w.segment_index == session.spill_segments@.len()
    &&& w.key == spill_key_of(db, session.txn_seq)
    &&& w.nonce@ == spill_nonce(session.txn_seq, w.segment_index)
    &&& w.aad == spill_aad(db, w.segment_index)
    &&& w.body_offset == session.spill_bytes_used
    &&& w.tag_offset == session.spill_bytes_used + body_len
    &&& w.new_total == session.spill_bytes_used + body_len + TAG_LEN
}

/// What appending a chunk leaves of a session: the chunk is recorded last, or is
/// refused because a length does not fit its record.
pub open spec fn appended(
    before: WriteTxn,
    w: SpillWrite,
    plaintext_len: usize,
    body_len: usize,
    r: Result<ScratchOffset>,
    after: WriteTxn,
) -> bool {
    if plaintext_len <= u32::MAX && body_len <= u32::MAX {
        &&& r is Ok
        &&& r->Ok_0.index() == w.segment_index
        &&& after == (WriteTxn {
            spill_bytes_used: w.new_total,
            spill_segments: after.spill_segments,
            ..before
        })
        &&& after.spill_segments@ == before.spill_segments@.push(
            SpillSegmentMeta {
                offset: w.body_offset,
                plaintext_len: plaintext_len as u32,
                ciphertext_len: body_len as u32,
                nonce_bytes: w.nonce,
            },
        )
    } else {
        &&& r == Err::<ScratchOffset, PagedbError>(PagedbError::PayloadTooLarge)
        &&& after == before
    }
}

/// Whether `s` is where a session's chunk is and what it is decrypted under.
pub open spec fn is_read_of(session: WriteTxn, db: Db, index: u64, s: SpillRead) -> bool {
    let chunk = session.spill_segments@[index as int];
    &&& s.key == spill_key_of(db, session.txn_seq)
    &&& s.nonce@ == spill_nonce(session.txn_seq, index)
    &&& s.aad == spill_aad(db, index)
    &&& s.body_offset == chunk.offset
    &&& s.body_len == chunk.ciphertext_len
    &&& s.tag_offset == chunk.offset + chunk.ciphertext_len
    &&& s.plaintext_len == chunk.plaintext_len
}

/// What reading a handle in a session comes to: an appended chunk is always
/// found.
pub open spec fn chunk_found(session: WriteTxn, db: Db, index: u64, r: Result<SpillRead>) -> bool {
    match r {
        Ok(s) => index < session.spill_segments@.len() && is_read_of(session, db, index, s),
        Err(e) => index >= session.spill_segments@.len() && e == PagedbError::NotFound,
    }
}

/// An append that was attempted: what the session and the bytes of its file were
/// before and after it.
pub struct AppendAttempt {
    pub before: WriteTxn,
    pub file_before: Map<int, u8>,
    pub write: SpillWrite,
    pub plaintext_len: usize,
    pub body_len: usize,
    pub result: Result<ScratchOffset>,
    pub after: WriteTxn,
    pub file_after: Map<int, u8>,
}

impl AppendAttempt {
    /// Whether it was an append: planned for the session, whose file it wrote
    /// from the place planned for it on, if it wrote at all.
    pub open spec fn happened(self) -> bool {
        &&& self.before.spill_wf()
        &&& self.before.spill_path is Some
        &&& self.write.segment_index == self.before.spill_segments@.len()
        &&& self.write.body_offset == self.before.spill_bytes_used
        &&& self.write.new_total == self.write.body_offset + self.body_len + TAG_LEN
        &&& appended(
            self.before,
            self.write,
            self.plaintext_len,
            self.body_len,
            self.result,
            self.after,
        )
        &&& self.after.spill_wf()
        &&& forall|i: int|
            0 <= i < self.write.body_offset ==> #[trigger] self.file_after[i]
                == self.file_before[i]
    }
}

/// Whether the attempts followed each other, from a session and its file on.
pub open spec fn attempts_follow(
    session: WriteTxn,
    file: Map<int, u8>,
    attempts: Seq<AppendAttempt>,
) -> bool
    decreases attempts.len(),
{
    if attempts.len() == 0 {
        true
    } else {
        let last = attempts.last();
        let (before, file_before) = after_attempts(session, file, attempts.drop_last());
        &&& attempts_follow(session, file, attempts.drop_last())
        &&& last.happened()
        &&& last.before == before
        &&& last.file_before == file_before
    }
}

/// The session and its file after attempts.
pub open spec fn after_attempts(
    session: WriteTxn,
    file: Map<int, u8>,
    attempts: Seq<AppendAttempt>,
) -> (WriteTxn, Map<int, u8>) {
    if attempts.len() == 0 {
        (session, file)
    } else {
        (attempts.last().after, attempts.last().file_after)
    }
}

/// A view of a write transaction that spills bytes.
pub struct SpillScope<'scope> {
    pub txn: &'scope mut WriteTxn,
}

impl WriteTxn {
    /// The chunks stand one after the other from the start of the file, each
    /// followed by its tag, and each under the nonce of its number. The file is
    /// named once there is a chunk.
    pub open spec fn spill_wf(&self) -> bool {
        let segs = self.spill_segments@;
        &&& segs.len() > 0 ==> self.spill_path is Some
        &&& segs.len() == 0 ==> self.spill_bytes_used == 0
        &&& segs.len() > 0 ==> segs[0].offset == 0
        &&& forall|i: int|
            0 <= i < segs.len() ==> #[trigger] chunk_is_followed(segs, self.spill_bytes_used, i)
        &&& forall|i: int|
            #![trigger segs[i]]
            0 <= i < segs.len() ==> segs[i].nonce_bytes@ == spill_nonce(self.txn_seq, i as u64)
    }

    /// The nonce of the session's chunk with this number.
    pub fn next_spill_nonce(&self, segment_index: u64) -> (nonce: [u8; 12])
        ensures
            nonce@ == spill_nonce(self.txn_seq, segment_index),
    {
        let s: [u8; 8] = u64_to_le(self.txn_seq);
        let x: [u8; 8] = u64_to_le(segment_index);
        let nonce: [u8; 12] = [
            s[0], s[1], s[2], s[3], s[4], s[5],
            x[0], x[1], x[2], x[3], x[4], x[5],
        ];
        proof {
            lemma_low_bytes(self.txn_seq as nat);
            lemma_low_bytes(segment_index as nat);
            lemma_le_bytes_len(self.txn_seq as nat, 6);
            lemma_le_bytes_len(segment_index as nat, 6);
            assert(nonce@ =~= spill_nonce(self.txn_seq, segment_index));
        }
        nonce
    }

    /// What the key of the session's chunks is derived from.
    pub fn spill_key_inputs(&self, db: &Db) -> (key: SpillKeyInputs)
        ensures
            key == spill_key_of(*db, self.txn_seq),
    {
        SpillKeyInputs {
            mk_epoch: db.mk_epoch,
            file_id: db.file_id,
            spill_epoch: db.spill_epoch,
            txn_seq: self.txn_seq,
        }
    }

    /// The path of the spill file, which is named on the first use.
    pub fn ensure_spill_path(&mut self) -> (path: String)
        ensures
            *final(self) == (WriteTxn { spill_path: final(self).spill_path, ..*old(self) }),
            final(self).spill_path == Some(path),
            old(self).spill_path is Some ==> *final(self) == *old(self),
            old(self).spill_path is None ==> path@ == "tmp/scratch-"@ + decimal(
                old(self).txn_seq as nat,
            ),
    {
        match &self.spill_path {
            Some(path) => path.clone(),
            None => {
                let path: String = spill_path(self.txn_seq);
                self.spill_path = Some(path.clone());
                path
            },
        }
    }

    /// A view that spills bytes within the handle's scratch budget.
    pub fn spill_scope<'scope>(&'scope mut self) -> (scope: SpillScope<'scope>)
        ensures
            scope.session() == *old(self),
            *final(scope.txn) == *final(self),
    {
        SpillScope { txn: self }
    }
}

fn spill_aad_fields(db: &Db, index: u64) -> (aad: AadFields)
    ensures
        aad == spill_aad(*db, index),
{
    AadFields {
        cipher_id: CipherId::Aes256Gcm.as_byte(),
        page_kind: SPILL_PAGE_KIND,
        mk_epoch: db.mk_epoch,
        page_id: index,
        realm_id: db.realm_id,
        segment_id: db.file_id,
    }
}

impl<'scope> SpillScope<'scope> {
    /// The session that spills.
    pub open spec fn session(&self) -> WriteTxn {
        *self.txn
    }

    /// Where a chunk with a body of this length goes and what it is encrypted
    /// under; refused when it would exceed the scratch budget. A chunk that is
    /// not refused has a file to go to: it is named here on the first use.
    pub fn plan_append(&mut self, db: &Db, body_len: u64) -> (r: Result<SpillWrite>)
        requires
            body_len + TAG_LEN <= u64::MAX,
            old(self).session().spill_bytes_used + body_len + TAG_LEN <= u64::MAX
                || db.options.scratch_bytes < u64::MAX,
        ensures
            *final(final(self).txn) == *final(old(self).txn),
            old(self).session().spill_wf() ==> final(self).session().spill_wf(),
            ({
                let before = old(self).session();
                let after = final(self).session();
                let new_total = capped_sum(before.spill_bytes_used, (body_len + TAG_LEN) as u64);
                match r {
                    Ok(w) => {
                        &&& new_total <= db.options.scratch_bytes
                        &&& is_planned(before, *db, body_len, w)
                        &&& after == (WriteTxn { spill_path: after.spill_path, ..before })
                        &&& after.spill_path is Some
                        &&& before.spill_path is Some ==> after == before
                        &&& before.spill_path is None ==> after.spill_path->0@ == "tmp/scratch-"@
                            + decimal(before.txn_seq as nat)
                    },
                    Err(e) => {
                        &&& new_total > db.options.scratch_bytes
                        &&& e == (PagedbError::Quota {
                            realm: db.realm_id,
                            kind: QuotaKind::ScratchPages,
                            requested: new_total,
                            limit: db.options.scratch_bytes as u64,
                        })
                        &&& after == before
                    },
                }
            }),
    {
        let limit: u64 = db.options.scratch_bytes as u64;
        let segment_index: u64 = self.txn.spill_segments.len() as u64;
        let used: u64 = self.txn.spill_bytes_used;
        let new_total: u64 = used.saturating_add(body_len + TAG_LEN);
        if new_total > limit {
            return Err(
                PagedbError::Quota {
                    realm: db.realm_id,
                    kind: QuotaKind::ScratchPages,
                    requested: new_total,
                    limit,
                },
            );
        }
        let _ = self.txn.ensure_spill_path();
        Ok(
            SpillWrite {
                segment_index,
                key: self.txn.spill_key_inputs(db),
                nonce: self.txn.next_spill_nonce(segment_index),
                aad: spill_aad_fields(db, segment_index),
                body_offset: used,
                tag_offset: used + body_len,
                new_total,
            },
        )
    }

    /// Records a chunk that was written as planned. A chunk whose length does
    /// not fit its record is refused, and is overwritten by the next one.
    pub fn append(
        &mut self,
        db: &mut Db,
        write: &SpillWrite,
        plaintext_len: usize,
        body_len: usize,
    ) -> (r: Result<ScratchOffset>)
        requires
            old(self).session().spill_wf(),
            old(self).session().spill_path is Some,
            write.segment_index == old(self).session().spill_segments@.len(),
            write.nonce@ == spill_nonce(old(self).session().txn_seq, write.segment_index),
            write.body_offset == old(self).session().spill_bytes_used,
            write.new_total == write.body_offset + body_len + TAG_LEN,
        ensures
            poison_kept(*old(db), *final(db)),
            *final(final(self).txn) == *final(old(self).txn),
            final(self).session().spill_wf(),
            appended(
                old(self).session(),
                *write,
                plaintext_len,
                body_len,
                r,
                final(self).session(),
            ),
            *final(db) == if r is Ok {
                Db { spill_bytes_in_use: write.new_total, ..*old(db) }
            } else {
                *old(db)
            },
    {
        if plaintext_len as u64 > u32::MAX as u64 || body_len as u64 > u32::MAX as u64 {
            return Err(PagedbError::PayloadTooLarge);
        }
        let ghost before = self.txn.spill_segments@;
        let meta: SpillSegmentMeta = SpillSegmentMeta {
            offset: write.body_offset,
            plaintext_len: plaintext_len as u32,
            ciphertext_len: body_len as u32,
            nonce_bytes: write.nonce,
        };
        self.txn.spill_segments.push(meta);
        self.txn.spill_bytes_used = write.new_total;
        db.spill_bytes_in_use = write.new_total;
        proof {
            let after = self.txn.spill_segments@;
            assert(after == before.push(meta));
            assert forall|i: int| 0 <= i < after.len() implies #[trigger] chunk_is_followed(
                after,
                self.txn.spill_bytes_used,
                i,
            ) by {
                if i < before.len() {
                    assert(chunk_is_followed(before, old(self).session().spill_bytes_used, i));
                }
            }
            assert forall|i: int|
                #![trigger after[i]]
                0 <= i < after.len() implies after[i].nonce_bytes@ == spill_nonce(
                self.txn.txn_seq,
                i as u64,
            ) by {
                if i < before.len() {
                    assert(after[i] == before[i]);
                }
            }
        }
        Ok(ScratchOffset(write.segment_index))
    }

    /// Where an appended chunk is and what it is decrypted under.
    pub fn read(&self, db: &Db, handle: ScratchOffset) -> (r: Result<SpillRead>)
        requires
            self.session().spill_wf(),
        ensures
            chunk_found(self.session(), *db, handle.index(), r),
    {
        let index: u64 = handle.0;
        if index >= self.txn.spill_segments.len() as u64 {
            return Err(PagedbError::NotFound);
        }
        let meta: SpillSegmentMeta = self.txn.spill_segments[index as usize];
        proof {
            let segs = self.session().spill_segments@;
            assert(meta == segs[index as int]);
            assert(chunk_is_followed(segs, self.session().spill_bytes_used, index as int));
        }
        Ok(
            SpillRead {
                key: self.txn.spill_key_inputs(db),
                nonce: meta.nonce_bytes,
                aad: spill_aad_fields(db, index),
                body_offset: meta.offset,
                body_len: meta.ciphertext_len,
                tag_offset: meta.offset + meta.ciphertext_len as u64,
                plaintext_len: meta.plaintext_len,
            },
        )
    }
}

proof fn lemma_low_bytes(x: nat)
    ensures
        le_bytes(x, 8).take(6) == le_bytes(x, 6),
{
    reveal_with_fuel(le_bytes, 9);
    assert(le_bytes(x, 8).take(6) =~= le_bytes(x, 6));
}

/// Two chunks never share a nonce, be they of one session or of two, as long as
/// sessions and chunks are numbered within six bytes.
pub proof fn law_spill_nonces_are_distinct(seq_a: u64, index_a: u64, seq_b: u64, index_b: u64)
    requires
        seq_a < 0x1_0000_0000_0000,
        seq_b < 0x1_0000_0000_0000,
        index_a < 0x1_0000_0000_0000,
        index_b < 0x1_0000_0000_0000,
        spill_nonce(seq_a, index_a) == spill_nonce(seq_b, index_b),
    ensures
        seq_a == seq_b,
        index_a == index_b,
{
    lemma_byte_range_8();
    lemma_le_bytes_len(seq_a as nat, 6);
    lemma_le_bytes_len(seq_b as nat, 6);
    lemma_le_bytes_len(index_a as nat, 6);
    lemma_le_bytes_len(index_b as nat, 6);
    let a = spill_nonce(seq_a, index_a);
    let b = spill_nonce(seq_b, index_b);
    assert(a.subrange(0, 6) =~= le_bytes(seq_a as nat, 6));
    assert(b.subrange(0, 6) =~= le_bytes(seq_b as nat, 6));
    assert(a.subrange(6, 12) =~= le_bytes(index_a as nat, 6));
    assert(b.subrange(6, 12) =~= le_bytes(index_b as nat, 6));
    lemma_le_injective(seq_a as nat, seq_b as nat, 6);
    lemma_le_injective(index_a as nat, index_b as nat, 6);
}

proof fn lemma_chunks_stay(
    session: WriteTxn,
    file: Map<int, u8>,
    attempts: Seq<AppendAttempt>,
    index: int,
)
    requires
        session.spill_wf(),
        0 <= index < session.spill_segments@.len(),
        attempts_follow(session, file, attempts),
    ensures
        ({
            let (last, bytes) = after_attempts(session, file, attempts);
            let chunk = session.spill_segments@[index];
            &&& last.spill_wf()
            &&& last.txn_seq == session.txn_seq
            &&& session.spill_bytes_used <= last.spill_bytes_used
            &&& index < last.spill_segments@.len()
            &&& last.spill_segments@[index] == chunk
            &&& forall|i: int|
                0 <= i < session.spill_bytes_used ==> #[trigger] bytes[i] == file[i]
        }),
    decreases attempts.len(),
{
    if attempts.len() > 0 {
        lemma_chunks_stay(session, file, attempts.drop_last(), index);
    }
}

/// No two chunks are encrypted under one key and one nonce, be they of one
/// session, of two, or of two opens of a store, as long as the chunks of a session
/// are numbered within six bytes and no two opens have the same identity.
pub proof fn law_spill_key_and_nonce_are_used_once(
    a: Db,
    seq_a: u64,
    index_a: u64,
    b: Db,
    seq_b: u64,
    index_b: u64,
)
    requires
        index_a < 0x1_0000_0000_0000,
        index_b < 0x1_0000_0000_0000,
        spill_key_of(a, seq_a) == spill_key_of(b, seq_b),
        spill_nonce(seq_a, index_a) == spill_nonce(seq_b, index_b),
    ensures
        a.file_id == b.file_id,
        a.spill_epoch == b.spill_epoch,
        seq_a == seq_b,
        index_a == index_b,
{
    lemma_byte_range_8();
    lemma_le_bytes_len(seq_a as nat, 6);
    lemma_le_bytes_len(index_a as nat, 6);
    lemma_le_bytes_len(index_b as nat, 6);
    let x = spill_nonce(seq_a, index_a);
    let y = spill_nonce(seq_b, index_b);
    assert(x.subrange(6, 12) =~= le_bytes(index_a as nat, 6));
    assert(y.subrange(6, 12) =~= le_bytes(index_b as nat, 6));
    lemma_le_injective(index_a as nat, index_b as nat, 6);
}

/// The bytes of a file from one place up to another.
pub open spec fn bytes_at(file: Map<int, u8>, from: int, to: int) -> Seq<u8> {
    Seq::new((to - from) as nat, |i: int| file[from + i])
}

/// What was spilled is read back: after any further appends, successful or
/// refused, reading the handle of a chunk finds it, and what is decrypted is what
/// was appended.
///
/// `seal` and `unseal` are the cipher: from a key, a nonce, the bound fields and a
/// plaintext to a body with its tag, and back. All that is asked of it is that it
/// undoes what it did. `file` is what the file holds once the chunk was written.
pub proof fn law_spilled_chunk_is_read_back(
    seal: spec_fn(SpillKeyInputs, Seq<u8>, AadFields, Seq<u8>) -> Seq<u8>,
    unseal: spec_fn(SpillKeyInputs, Seq<u8>, AadFields, Seq<u8>) -> Seq<u8>,
    plaintext: Seq<u8>,
    begun: WriteTxn,
    db: Db,
    w: SpillWrite,
    body_len: usize,
    r: Result<ScratchOffset>,
    session: WriteTxn,
    file: Map<int, u8>,
    attempts: Seq<AppendAttempt>,
    later_db: Db,
    read: Result<SpillRead>,
)
    requires
        forall|key: SpillKeyInputs, nonce: Seq<u8>, aad: AadFields, bytes: Seq<u8>|
            unseal(key, nonce, aad, #[trigger] seal(key, nonce, aad, bytes)) == bytes,
        begun.spill_wf(),
        is_planned(begun, db, body_len as u64, w),
        plaintext.len() <= usize::MAX,
        bytes_at(file, w.body_offset as int, w.tag_offset + TAG_LEN) == seal(
            w.key,
            w.nonce@,
            w.aad,
            plaintext,
        ),
        appended(begun, w, plaintext.len() as usize, body_len, r, session),
        r is Ok,
        session.spill_wf(),
        attempts_follow(session, file, attempts),
        later_db.mk_epoch == db.mk_epoch,
        later_db.realm_id == db.realm_id,
        later_db.file_id == db.file_id,
        later_db.spill_epoch == db.spill_epoch,
        chunk_found(after_attempts(session, file, attempts).0, later_db, r->Ok_0.index(), read),
    ensures
        read is Ok,
        read->Ok_0.key == w.key,
        read->Ok_0.nonce@ == w.nonce@,
        read->Ok_0.aad == w.aad,
        read->Ok_0.body_offset == w.body_offset,
        read->Ok_0.body_len == body_len,
        read->Ok_0.tag_offset == w.tag_offset,
        read->Ok_0.plaintext_len == plaintext.len(),
        unseal(
            read->Ok_0.key,
            read->Ok_0.nonce@,
            read->Ok_0.aad,
            bytes_at(
                after_attempts(session, file, attempts).1,
                read->Ok_0.body_offset as int,
                read->Ok_0.tag_offset + TAG_LEN,
            ),
        ) == plaintext,
{
    lemma_chunks_stay(session, file, attempts, w.segment_index as int);
    let later = after_attempts(session, file, attempts).1;
    let from = w.body_offset as int;
    let to = w.tag_offset + TAG_LEN;
    assert(bytes_at(later, from, to) =~= bytes_at(file, from, to));
}

/// The chunks of a session do not overlap: each ends, tag included, no later
/// than the next begins.
pub proof fn law_spill_chunks_do_not_overlap(txn: WriteTxn, i: int, j: int)
    requires
        txn.spill_wf(),
        0 <= i < j < txn.spill_segments@.len(),
    ensures
        txn.spill_segments@[i].offset + txn.spill_segments@[i].ciphertext_len + TAG_LEN
            <= txn.spill_segments@[j].offset,
    decreases j - i,
{
    let segs = txn.spill_segments@;
    assert(chunk_is_followed(segs, txn.spill_bytes_used, i));
    if i + 1 < j {
        law_spill_chunks_do_not_overlap(txn, i + 1, j);
    }
}

} // verus!
