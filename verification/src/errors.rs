//! What can go wrong, as the callers of the library see it.

use vstd::prelude::*;

use crate::ids::{CommitId, RealmId};
use crate::mode::DbMode;

verus! {

/// What kind of failure the file layer reported.
#[derive(Debug, Clone, Copy, PartialEq, Eq, Structural)]
pub enum IoKind {
    NotFound,
    AlreadyExists,
    Other,
}

/// What a damaged store was found to hold.
#[non_exhaustive]
#[derive(Debug, PartialEq, Eq)]
pub enum CorruptionDetail {
    /// No header slot verifies.
    HeaderUnverifiable,
    /// A catalog row does not have the shape its kind demands.
    CatalogRowInvalid { field: &'static str },
    /// A published segment is in neither of its two places.
    StagingMissing { segment_id: [u8; 16] },
}

/// Which budget a request would exceed.
#[non_exhaustive]
#[derive(Debug, Clone, Copy, PartialEq, Eq, Structural)]
pub enum QuotaKind {
    ScratchPages,
    SegmentBytes,
}

/// Every failure of the transaction layer.
#[allow(inconsistent_fields)]
#[non_exhaustive]
#[derive(Debug, PartialEq, Eq)]
pub enum PagedbError {
    Io(IoKind),
    NotFound,
    Unsupported,
    Aborted,
    ReadOnly,
    AlreadyOpen,
    AlreadyLocked,
    WriterPresent,
    ReadersPresent,
    RestoredNotPromoted,
    AlreadyLinked,
    NotLinked,
    NameTooLong,
    PayloadTooLarge,
    AppendNotMonotonic,
    NonceCounterExhausted,
    ReadersPinningTruncatedRange,
    KeyMismatch,
    IllegalPageKind,
    UnknownCipher { cipher_id: u8 },
    WrongMode { operation: &'static str, required: DbMode, actual: DbMode },
    PageSizeMismatch { stored: usize, supplied: usize },
    FormatVersionUnsupported { stored: u16, supported: u16 },
    HeaderCapabilityUnsupported { unknown_flags: u32 },
    Corruption(CorruptionDetail),
    ArithmeticOverflow { what: &'static str },
    Quota { realm: RealmId, kind: QuotaKind, requested: u64, limit: u64 },
    DeferredFreeBacklog { pending: u64, oldest_commit: u64 },
    CommitGone { commit: CommitId, oldest_available: CommitId },
    DurablyCommittedButUnpublished { commit: CommitId },
    SnapshotIncompatible { field: &'static str },
    SnapshotArtifactInvalid { field: &'static str },
    RekeyStateInvalid { field: &'static str },
    RekeyResumeKeyRequired { source_epoch: u64, target_epoch: u64 },
    RekeyCounterpartKeyInvalid { source_epoch: u64, target_epoch: u64 },
    RekeyReplacementMissing { replacement_segment_id: [u8; 16] },
    RekeyTargetEpochActivated { commit: CommitId, source: Box<PagedbError> },
    MissingPersistedKey { mk_epoch: u64, cipher_id: u8 },
}

impl PagedbError {
    /// The error that reports a malformed catalog row.
    pub open spec fn row_invalid(field: &'static str) -> PagedbError {
        PagedbError::Corruption(CorruptionDetail::CatalogRowInvalid { field })
    }

    /// A catalog row whose `field` is malformed.
    pub fn catalog_row_invalid(field: &'static str) -> (e: PagedbError)
        ensures
            e == PagedbError::row_invalid(field),
    {
        PagedbError::Corruption(CorruptionDetail::CatalogRowInvalid { field })
    }
}

/// The result of an operation that may fail.
pub type Result<T> = core::result::Result<T, PagedbError>;

} // verus!
