//! Identities: commits, realms, ciphers and header slots.

use vstd::prelude::*;

use crate::errors::{PagedbError, Result};

verus! {

/// The number of a commit. Later commits have larger numbers.
#[derive(Debug, Clone, Copy, PartialEq, Eq, PartialOrd, Ord, Structural)]
pub struct CommitId(pub u64);

/// The name of a key domain inside a store.
#[derive(Debug, Clone, Copy, PartialEq, Eq)]
pub struct RealmId(pub [u8; 16]);

/// Which of the two header slots is meant.
#[derive(Debug, Clone, Copy, PartialEq, Eq, Structural)]
pub enum ActiveSlot {
    A,
    B,
}

/// The cipher that seals pages.
#[derive(Debug, Clone, Copy, PartialEq, Eq, Structural)]
pub enum CipherId {
    Aes256Gcm,
    ChaCha20Poly1305,
}

impl CipherId {
    /// The byte that stands for the cipher on disk.
    pub open spec fn byte(self) -> u8 {
        match self {
            CipherId::Aes256Gcm => 1,
            CipherId::ChaCha20Poly1305 => 2,
        }
    }

    /// The byte that stands for the cipher on disk.
    pub fn as_byte(self) -> (b: u8)
        ensures
            b == self.byte(),
    {
        match self {
            CipherId::Aes256Gcm => 1,
            CipherId::ChaCha20Poly1305 => 2,
        }
    }

    /// The cipher that a byte stands for.
    pub fn from_byte(b: u8) -> (r: Result<CipherId>)
        ensures
            match r {
                Ok(c) => c.byte() == b,
                Err(e) => b != 1 && b != 2 && e == (PagedbError::UnknownCipher { cipher_id: b }),
            },
    {
        if b == 1 {
            Ok(CipherId::Aes256Gcm)
        } else if b == 2 {
            Ok(CipherId::ChaCha20Poly1305)
        } else {
            Err(PagedbError::UnknownCipher { cipher_id: b })
        }
    }
}

impl ActiveSlot {
    /// The slot that a header write alternates to.
    pub open spec fn other(self) -> ActiveSlot {
        match self {
            ActiveSlot::A => ActiveSlot::B,
            ActiveSlot::B => ActiveSlot::A,
        }
    }
}

} // verus!
