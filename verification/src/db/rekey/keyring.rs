//! Epoch-key routing while pages of several epochs are readable at once.

use vstd::prelude::*;

use crate::errors::{PagedbError, Result};
use crate::ids::CipherId;

verus! {

/// A master key, from which the page keys of one epoch are drawn.
#[derive(Clone, Copy)]
pub struct MasterKey(pub [u8; 32]);

/// A header key, which signs the headers of one epoch.
#[derive(Clone, Copy)]
pub struct DerivedKey(pub [u8; 32]);

/// One key with the epoch and cipher that it serves.
#[derive(Clone, Copy)]
pub struct EpochKey {
    pub epoch: u64,
    pub cipher_id: u8,
    pub key: MasterKey,
}

/// Master keys by their on-disk epoch and cipher. What is leased is handed out
/// by value, so a reader keeps its key while a rekey changes the writer's.
pub struct EpochKeyring {
    keys: Vec<EpochKey>,
}

/// The keys as a map from epoch and cipher byte.
pub open spec fn keys_of(s: Seq<EpochKey>) -> Map<(u64, u8), MasterKey>
    decreases s.len(),
{
    if s.len() == 0 {
        Map::empty()
    } else {
        keys_of(s.drop_last()).insert((s.last().epoch, s.last().cipher_id), s.last().key)
    }
}

proof fn lemma_keys_of(s: Seq<EpochKey>, id: (u64, u8))
    ensures
        keys_of(s).dom().contains(id) <==> exists|i: int|
            0 <= i < s.len() && (#[trigger] s[i]).epoch == id.0 && s[i].cipher_id == id.1,
    decreases s.len(),
{
    if s.len() > 0 {
        lemma_keys_of(s.drop_last(), id);
        if keys_of(s.drop_last()).dom().contains(id) {
            let i = choose|i: int|
                0 <= i < s.drop_last().len() && (#[trigger] s.drop_last()[i]).epoch == id.0
                    && s.drop_last()[i].cipher_id == id.1;
            assert(s[i] == s.drop_last()[i]);
        }
        if exists|i: int|
            0 <= i < s.len() && (#[trigger] s[i]).epoch == id.0 && s[i].cipher_id == id.1 {
            let i = choose|i: int|
                0 <= i < s.len() && (#[trigger] s[i]).epoch == id.0 && s[i].cipher_id == id.1;
            if i < s.len() - 1 {
                assert(s.drop_last()[i] == s[i]);
            }
        }
    }
}

/// Whether no two entries serve the same epoch and cipher.
pub open spec fn keys_distinct(s: Seq<EpochKey>) -> bool {
    forall|i: int, j: int|
        #![trigger s[i], s[j]]
        0 <= i < j < s.len() ==> s[i].epoch != s[j].epoch || s[i].cipher_id != s[j].cipher_id
}

proof fn lemma_key_at(s: Seq<EpochKey>, i: int)
    requires
        keys_distinct(s),
        0 <= i < s.len(),
    ensures
        keys_of(s).dom().contains((s[i].epoch, s[i].cipher_id)),
        keys_of(s)[(s[i].epoch, s[i].cipher_id)] == s[i].key,
    decreases s.len(),
{
    if i < s.len() - 1 {
        assert(s.drop_last()[i] == s[i]);
        assert(keys_distinct(s.drop_last())) by {
            assert forall|a: int, b: int|
                #![trigger s.drop_last()[a], s.drop_last()[b]]
                0 <= a < b < s.drop_last().len() implies s.drop_last()[a].epoch
                != s.drop_last()[b].epoch || s.drop_last()[a].cipher_id
                != s.drop_last()[b].cipher_id by {
                assert(s[a] == s.drop_last()[a]);
                assert(s[b] == s.drop_last()[b]);
            }
        }
        lemma_key_at(s.drop_last(), i);
        assert(s[i].epoch != s.last().epoch || s[i].cipher_id != s.last().cipher_id);
    }
}

/// Dropping an entry drops its id and nothing else.
proof fn lemma_keys_without(s: Seq<EpochKey>, i: int)
    requires
        keys_distinct(s),
        0 <= i < s.len(),
    ensures
        keys_distinct(s.remove(i)),
        keys_of(s.remove(i)) == keys_of(s).remove((s[i].epoch, s[i].cipher_id)),
{
    let t = s.remove(i);
    let id = (s[i].epoch, s[i].cipher_id);
    assert forall|a: int, b: int| #![trigger t[a], t[b]] 0 <= a < b < t.len() implies t[a].epoch
        != t[b].epoch || t[a].cipher_id != t[b].cipher_id by {
        let a0 = if a < i { a } else { a + 1 };
        let b0 = if b < i { b } else { b + 1 };
        assert(t[a] == s[a0]);
        assert(t[b] == s[b0]);
    }
    assert forall|k: (u64, u8)| #![trigger keys_of(t).dom().contains(k)] keys_of(t).dom().contains(
        k,
    ) <==> keys_of(s).remove(id).dom().contains(k) by {
        lemma_keys_of(t, k);
        lemma_keys_of(s, k);
        if keys_of(t).dom().contains(k) {
            let a = choose|a: int|
                0 <= a < t.len() && (#[trigger] t[a]).epoch == k.0 && t[a].cipher_id == k.1;
            let a0 = if a < i { a } else { a + 1 };
            assert(t[a] == s[a0]);
            if a0 < i {
                assert(s[a0].epoch != s[i].epoch || s[a0].cipher_id != s[i].cipher_id);
            } else {
                assert(s[i].epoch != s[a0].epoch || s[i].cipher_id != s[a0].cipher_id);
            }
        }
        if keys_of(s).dom().contains(k) && k != id {
            let a0 = choose|a: int|
                0 <= a < s.len() && (#[trigger] s[a]).epoch == k.0 && s[a].cipher_id == k.1;
            let a = if a0 < i { a0 } else { a0 - 1 };
            assert(t[a] == s[a0]);
        }
    }
    assert forall|k: (u64, u8)|
        keys_of(t).dom().contains(k) implies #[trigger] keys_of(t)[k] == keys_of(s).remove(id)[k] by {
        lemma_keys_of(t, k);
        let a = choose|a: int|
            0 <= a < t.len() && (#[trigger] t[a]).epoch == k.0 && t[a].cipher_id == k.1;
        let a0 = if a < i { a } else { a + 1 };
        assert(t[a] == s[a0]);
        lemma_key_at(t, a);
        lemma_key_at(s, a0);
    }
    assert(keys_of(t) =~= keys_of(s).remove(id));
}

/// Adding an entry for an id that has none adds it and nothing else.
proof fn lemma_keys_with(s: Seq<EpochKey>, entry: EpochKey)
    requires
        keys_distinct(s),
        !keys_of(s).dom().contains((entry.epoch, entry.cipher_id)),
    ensures
        keys_distinct(s.push(entry)),
        keys_of(s.push(entry)) == keys_of(s).insert((entry.epoch, entry.cipher_id), entry.key),
{
    let t = s.push(entry);
    assert(t.drop_last() =~= s);
    lemma_keys_of(s, (entry.epoch, entry.cipher_id));
    assert forall|a: int, b: int| #![trigger t[a], t[b]] 0 <= a < b < t.len() implies t[a].epoch
        != t[b].epoch || t[a].cipher_id != t[b].cipher_id by {
        assert(t[a] == s[a]);
        if b < s.len() {
            assert(t[b] == s[b]);
        }
    }
}

impl View for EpochKeyring {
    type V = Map<(u64, u8), MasterKey>;

    closed spec fn view(&self) -> Map<(u64, u8), MasterKey> {
        keys_of(self.keys@)
    }
}

impl EpochKeyring {
    /// No two entries serve the same epoch and cipher.
    pub closed spec fn wf(&self) -> bool {
        keys_distinct(self.keys@)
    }

    /// A keyring that holds one key.
    pub fn new(epoch: u64, cipher_id: CipherId, mk: MasterKey) -> (ring: EpochKeyring)
        ensures
            ring.wf(),
            ring@ == Map::<(u64, u8), MasterKey>::empty().insert((epoch, cipher_id.byte()), mk),
    {
        let mut keys: Vec<EpochKey> = Vec::new();
        keys.push(EpochKey { epoch, cipher_id: cipher_id.as_byte(), key: mk });
        proof {
            assert(keys@.drop_last() =~= Seq::<EpochKey>::empty());
            reveal_with_fuel(keys_of, 2);
        }
        EpochKeyring { keys }
    }

    /// Where the entry of an epoch and cipher stands.
    fn position(&self, epoch: u64, cipher_id: u8) -> (at: Option<usize>)
        ensures
            match at {
                Some(i) => i < self.keys@.len() && self.keys@[i as int].epoch == epoch
                    && self.keys@[i as int].cipher_id == cipher_id,
                None => !self@.dom().contains((epoch, cipher_id)),
            },
    {
        let mut i: usize = 0;
        while i < self.keys.len()
            invariant
                i <= self.keys@.len(),
                forall|j: int|
                    0 <= j < i ==> (#[trigger] self.keys@[j]).epoch != epoch
                        || self.keys@[j].cipher_id != cipher_id,
            decreases self.keys@.len() - i,
        {
            if self.keys[i].epoch == epoch && self.keys[i].cipher_id == cipher_id {
                return Some(i);
            }
            i = i + 1;
        }
        proof {
            lemma_keys_of(self.keys@, (epoch, cipher_id));
        }
        None
    }

    /// Adds a key, in place of one for the same epoch and cipher.
    pub fn install(&mut self, epoch: u64, cipher_id: CipherId, mk: MasterKey)
        requires
            old(self).wf(),
        ensures
            final(self).wf(),
            final(self)@ == old(self)@.insert((epoch, cipher_id.byte()), mk),
    {
        self.remove(epoch, cipher_id);
        let entry: EpochKey = EpochKey { epoch, cipher_id: cipher_id.as_byte(), key: mk };
        proof {
            lemma_keys_with(self.keys@, entry);
        }
        self.keys.push(entry);
        proof {
            assert(self@ =~= old(self)@.insert((epoch, cipher_id.byte()), mk));
        }
    }

    /// The key of an epoch and cipher.
    pub fn lease(&self, epoch: u64, cipher_id: CipherId) -> (r: Result<MasterKey>)
        requires
            self.wf(),
        ensures
            r == if self@.dom().contains((epoch, cipher_id.byte())) {
                Ok::<MasterKey, PagedbError>(self@[(epoch, cipher_id.byte())])
            } else {
                Err::<MasterKey, PagedbError>(
                    PagedbError::MissingPersistedKey {
                        mk_epoch: epoch,
                        cipher_id: cipher_id.byte(),
                    },
                )
            },
    {
        match self.position(epoch, cipher_id.as_byte()) {
            Some(i) => {
                proof {
                    lemma_key_at(self.keys@, i as int);
                }
                Ok(self.keys[i].key)
            },
            None => Err(
                PagedbError::MissingPersistedKey {
                    mk_epoch: epoch,
                    cipher_id: cipher_id.as_byte(),
                },
            ),
        }
    }

    /// Drops the key of an epoch and cipher, if there is one.
    pub fn remove(&mut self, epoch: u64, cipher_id: CipherId)
        requires
            old(self).wf(),
        ensures
            final(self).wf(),
            final(self)@ == old(self)@.remove((epoch, cipher_id.byte())),
    {
        match self.position(epoch, cipher_id.as_byte()) {
            Some(i) => {
                proof {
                    lemma_keys_without(self.keys@, i as int);
                }
                self.keys.remove(i);
            },
            None => {
                proof {
                    assert(self@ =~= old(self)@.remove((epoch, cipher_id.byte())));
                }
            },
        }
    }

    /// An independent keyring with the same keys: what is installed or dropped
    /// in one later does not show in the other.
    pub fn duplicate(&self) -> (copy: EpochKeyring)
        requires
            self.wf(),
        ensures
            copy.wf(),
            copy@ == self@,
    {
        let mut keys: Vec<EpochKey> = Vec::new();
        let mut i: usize = 0;
        while i < self.keys.len()
            invariant
                i <= self.keys@.len(),
                keys@ == self.keys@.take(i as int),
            decreases self.keys@.len() - i,
        {
            keys.push(self.keys[i]);
            proof {
                assert(keys@ =~= self.keys@.take(i + 1));
            }
            i = i + 1;
        }
        proof {
            assert(self.keys@.take(i as int) =~= self.keys@);
        }
        EpochKeyring { keys }
    }
}

} // verus!
