//! Mode policy, sentinel acquisition, and the order of an open.

use vstd::prelude::*;

use crate::db::handle::{poison_kept, Db};
use crate::errors::{IoKind, PagedbError, Result};
use crate::mode::{DbMode, FROZEN_READERS_LOCK_PATH, OBSERVERS_LOCK_PATH, WRITER_LOCK_PATH};
use crate::options::OpenOptions;

verus! {

/// How a mode may touch the store's files.
#[derive(Debug, Clone, Copy, PartialEq, Eq, Structural)]
pub enum PersistentAccess {
    ReadOnly,
    ReadWrite,
}

/// What a mode may do about interrupted work that it finds.
#[derive(Debug, Clone, Copy, PartialEq, Eq, Structural)]
pub enum RecoveryAuthority {
    VerifyOnly,
    ApplyOnly,
    Standalone,
}

/// The sentinel lock that a handle of a mode keeps.
#[derive(Debug, Clone, Copy, PartialEq, Eq, Structural)]
pub enum LongLivedLock {
    Writer,
    FrozenReader,
    Observer,
}

/// How a file is opened.
#[derive(Debug, Clone, Copy, PartialEq, Eq, Structural)]
pub enum OpenMode {
    Read,
    ReadWrite,
}

/// The complete authority matrix for a handle mode.
///
/// Both the open flow and every runtime mode gate resolve against this one
/// table, so "which modes may do X" is stated once.
#[derive(Debug, Clone, Copy, PartialEq, Eq, Structural)]
pub struct DbModeCapabilities {
    pub persistent_access: PersistentAccess,
    pub recovery_authority: RecoveryAuthority,
    pub long_lived_lock: LongLivedLock,
    /// Observer retries are a read-path tolerance, not an access authority.
    pub allows_observer_retry: bool,
}

impl DbModeCapabilities {
    /// Whether an open of this mode may create a store that is not there.
    pub fn bootstraps(self) -> (b: bool)
        ensures
            b == (self.recovery_authority is Standalone),
    {
        matches!(self.recovery_authority, RecoveryAuthority::Standalone)
    }

    /// How the main file is opened.
    pub fn main_db_open_mode(self) -> (m: OpenMode)
        ensures
            m == match self.persistent_access {
                PersistentAccess::ReadOnly => OpenMode::Read,
                PersistentAccess::ReadWrite => OpenMode::ReadWrite,
            },
    {
        match self.persistent_access {
            PersistentAccess::ReadOnly => OpenMode::Read,
            PersistentAccess::ReadWrite => OpenMode::ReadWrite,
        }
    }

    /// Whether the pager must refuse to write.
    pub fn read_only_file_access(self) -> (b: bool)
        ensures
            b == (self.persistent_access is ReadOnly),
    {
        matches!(self.persistent_access, PersistentAccess::ReadOnly)
    }

    /// Write transactions and segment creation: only a full writer may add
    /// user data to the store.
    pub fn allows_user_writes(self) -> (b: bool)
        ensures
            b == (self.recovery_authority is Standalone),
    {
        matches!(self.recovery_authority, RecoveryAuthority::Standalone)
    }

    /// Whole-store rewrites that publish no new user data but relocate or
    /// re-seal every byte.
    pub fn allows_store_maintenance(self) -> (b: bool)
        ensures
            b == (self.recovery_authority is Standalone),
    {
        self.runs_standalone_recovery()
    }

    /// Applying an incremental snapshot: only an apply-authority handle is
    /// licensed to install a producer's page space over its own.
    pub fn applies_incremental_snapshots(self) -> (b: bool)
        ensures
            b == (self.recovery_authority is ApplyOnly),
    {
        matches!(self.recovery_authority, RecoveryAuthority::ApplyOnly)
    }

    /// Promotion to `Follower`: only the mode that holds the frozen-reader
    /// lock has anything to trade for the writer lock.
    pub fn promotes_to_follower(self) -> (b: bool)
        ensures
            b == (self.long_lived_lock is FrozenReader),
    {
        matches!(self.long_lived_lock, LongLivedLock::FrozenReader)
    }

    /// Whether an interrupted apply may be completed.
    pub fn applies_interrupted_apply(self) -> (b: bool)
        ensures
            b == !(self.recovery_authority is VerifyOnly),
    {
        matches!(
            self.recovery_authority,
            RecoveryAuthority::ApplyOnly | RecoveryAuthority::Standalone
        )
    }

    /// Whether an open repairs what it finds.
    pub fn runs_standalone_recovery(self) -> (b: bool)
        ensures
            b == (self.recovery_authority is Standalone),
    {
        matches!(self.recovery_authority, RecoveryAuthority::Standalone)
    }

    /// Whether a restored snapshot that was not promoted is refused.
    pub fn rejects_unpromoted_restore(self) -> (b: bool)
        ensures
            b == (self.recovery_authority is Standalone),
    {
        self.runs_standalone_recovery()
    }

    /// The sentinel lock that the handle keeps.
    pub fn long_lived_lock(self) -> (lock: LongLivedLock)
        ensures
            lock == self.long_lived_lock,
    {
        self.long_lived_lock
    }

    /// Whether reads may be retried against an active writer.
    pub fn allows_observer_retry(self) -> (b: bool)
        ensures
            b == self.allows_observer_retry,
    {
        self.allows_observer_retry
    }
}

/// The row of the authority matrix for a mode.
pub open spec fn capabilities_of(mode: DbMode) -> DbModeCapabilities {
    match mode {
        DbMode::Standalone => DbModeCapabilities {
            persistent_access: PersistentAccess::ReadWrite,
            recovery_authority: RecoveryAuthority::Standalone,
            long_lived_lock: LongLivedLock::Writer,
            allows_observer_retry: false,
        },
        DbMode::Follower => DbModeCapabilities {
            persistent_access: PersistentAccess::ReadWrite,
            recovery_authority: RecoveryAuthority::ApplyOnly,
            long_lived_lock: LongLivedLock::Writer,
            allows_observer_retry: false,
        },
        DbMode::ReadOnly => DbModeCapabilities {
            persistent_access: PersistentAccess::ReadOnly,
            recovery_authority: RecoveryAuthority::VerifyOnly,
            long_lived_lock: LongLivedLock::FrozenReader,
            allows_observer_retry: false,
        },
        DbMode::Observer => DbModeCapabilities {
            persistent_access: PersistentAccess::ReadOnly,
            recovery_authority: RecoveryAuthority::VerifyOnly,
            long_lived_lock: LongLivedLock::Observer,
            allows_observer_retry: true,
        },
    }
}

impl DbMode {
    /// The row of the authority matrix for this mode.
    pub fn open_capabilities(self) -> (c: DbModeCapabilities)
        ensures
            c == capabilities_of(self),
    {
        match self {
            DbMode::Standalone => DbModeCapabilities {
                persistent_access: PersistentAccess::ReadWrite,
                recovery_authority: RecoveryAuthority::Standalone,
                long_lived_lock: LongLivedLock::Writer,
                allows_observer_retry: false,
            },
            DbMode::Follower => DbModeCapabilities {
                persistent_access: PersistentAccess::ReadWrite,
                recovery_authority: RecoveryAuthority::ApplyOnly,
                long_lived_lock: LongLivedLock::Writer,
                allows_observer_retry: false,
            },
            DbMode::ReadOnly => DbModeCapabilities {
                persistent_access: PersistentAccess::ReadOnly,
                recovery_authority: RecoveryAuthority::VerifyOnly,
                long_lived_lock: LongLivedLock::FrozenReader,
                allows_observer_retry: false,
            },
            DbMode::Observer => DbModeCapabilities {
                persistent_access: PersistentAccess::ReadOnly,
                recovery_authority: RecoveryAuthority::VerifyOnly,
                long_lived_lock: LongLivedLock::Observer,
                allows_observer_retry: true,
            },
        }
    }
}

/// The path of a sentinel lock.
pub open spec fn lock_path_of(lock: LongLivedLock) -> &'static str {
    match lock {
        LongLivedLock::Writer => WRITER_LOCK_PATH,
        LongLivedLock::FrozenReader => FROZEN_READERS_LOCK_PATH,
        LongLivedLock::Observer => OBSERVERS_LOCK_PATH,
    }
}

/// The path of a sentinel lock.
pub fn lock_path(lock: LongLivedLock) -> (path: &'static str)
    ensures
        path == lock_path_of(lock),
{
    match lock {
        LongLivedLock::Writer => WRITER_LOCK_PATH,
        LongLivedLock::FrozenReader => FROZEN_READERS_LOCK_PATH,
        LongLivedLock::Observer => OBSERVERS_LOCK_PATH,
    }
}

/// What a failed lock attempt is reported as: contention as `on_contention`,
/// anything else as itself.
pub open spec fn lock_failure(error: PagedbError, on_contention: PagedbError) -> PagedbError {
    if error is AlreadyLocked {
        on_contention
    } else {
        error
    }
}

/// Reports contention as `on_contention`, anything else as itself.
pub fn map_lock_contention(error: PagedbError, on_contention: PagedbError) -> (e: PagedbError)
    ensures
        e == lock_failure(error, on_contention),
{
    if matches!(error, PagedbError::AlreadyLocked) {
        on_contention
    } else {
        error
    }
}

/// Whether a file is there, from what opening it for reading came to: only a
/// missing file is an absence, any other failure stays a failure.
pub open spec fn presence(opened: Result<()>) -> Result<bool> {
    match opened {
        Ok(()) => Ok(true),
        Err(PagedbError::Io(IoKind::NotFound)) => Ok(false),
        Err(e) => Err(e),
    }
}

/// Whether a file is there, from what opening it for reading came to.
pub fn path_exists(opened: Result<()>) -> (r: Result<bool>)
    ensures
        r == presence(opened),
{
    match opened {
        Ok(()) => Ok(true),
        Err(PagedbError::Io(IoKind::NotFound)) => Ok(false),
        Err(e) => Err(e),
    }
}

/// What an open does next.
#[derive(Debug, Clone, Copy, PartialEq, Eq, Structural)]
pub enum OpenStep {
    /// Look whether the store is there, before any lock is taken.
    ProbeMain,
    /// Take the acquisition lock, which is held until the mode's own lock is.
    LockAcquisition,
    /// Look whether the store is there, under the acquisition lock.
    ProbeMainLocked,
    /// Read the restore mode of the store that is there.
    PeekRestore,
    /// Try the lock exclusively and give it back: nobody may hold it.
    ProbeLock { lock: LongLivedLock, exists: bool },
    /// Take the mode's own lock.
    HoldLock { lock: LongLivedLock, exists: bool },
    /// Open the store that is there.
    OpenExisting,
    /// Create a store.
    Bootstrap,
}

/// What came of an open's step.
#[derive(Debug, PartialEq, Eq)]
pub enum OpenEvent {
    /// The store is there.
    Present,
    /// The store is not there.
    Absent,
    /// The lock was granted.
    Locked,
    /// The restore mode that the store's header records.
    RestoreMode(u8),
    /// The step failed.
    Failed(PagedbError),
}

/// The first step of an open. A missing store ends an open that may not create
/// one, before a lock leaves a trace in an otherwise empty directory.
pub open spec fn first_step(mode: DbMode) -> OpenStep {
    if capabilities_of(mode).recovery_authority is Standalone {
        OpenStep::LockAcquisition
    } else {
        OpenStep::ProbeMain
    }
}

/// The step that begins to take a mode's lock: a writer first excludes frozen
/// readers, a frozen reader first excludes a writer, an observer excludes
/// nobody.
pub open spec fn interlock_step(mode: DbMode, exists: bool) -> OpenStep {
    match capabilities_of(mode).long_lived_lock {
        LongLivedLock::Writer => OpenStep::ProbeLock { lock: LongLivedLock::FrozenReader, exists },
        LongLivedLock::FrozenReader => OpenStep::ProbeLock { lock: LongLivedLock::Writer, exists },
        LongLivedLock::Observer => OpenStep::HoldLock { lock: LongLivedLock::Observer, exists },
    }
}

/// What contention on a probed lock means.
pub open spec fn probe_refusal(lock: LongLivedLock) -> PagedbError {
    match lock {
        LongLivedLock::FrozenReader => PagedbError::ReadersPresent,
        LongLivedLock::Writer => PagedbError::WriterPresent,
        LongLivedLock::Observer => PagedbError::AlreadyLocked,
    }
}

/// What contention on the mode's own lock means.
pub open spec fn hold_refusal(lock: LongLivedLock) -> PagedbError {
    match lock {
        LongLivedLock::Writer => PagedbError::AlreadyOpen,
        LongLivedLock::FrozenReader => PagedbError::AlreadyLocked,
        LongLivedLock::Observer => PagedbError::AlreadyLocked,
    }
}

/// The step that follows, or the error that ends the open. `None` where the
/// event does not answer the step.
pub open spec fn next_step(mode: DbMode, step: OpenStep, event: OpenEvent) -> Option<
    Result<OpenStep>,
> {
    let caps = capabilities_of(mode);
    match (step, event) {
        (OpenStep::ProbeMain, OpenEvent::Present) => Some(Ok(OpenStep::LockAcquisition)),
        (OpenStep::ProbeMain, OpenEvent::Absent) => Some(Err(PagedbError::NotFound)),
        (OpenStep::ProbeMain, OpenEvent::Failed(e)) => Some(Err(e)),
        (OpenStep::LockAcquisition, OpenEvent::Locked) => Some(Ok(OpenStep::ProbeMainLocked)),
        (OpenStep::LockAcquisition, OpenEvent::Failed(e)) => Some(Err(e)),
        (OpenStep::ProbeMainLocked, OpenEvent::Present) => if caps.recovery_authority is Standalone {
            Some(Ok(OpenStep::PeekRestore))
        } else {
            Some(Ok(interlock_step(mode, true)))
        },
        (OpenStep::ProbeMainLocked, OpenEvent::Absent) => if caps.recovery_authority is Standalone {
            Some(Ok(interlock_step(mode, false)))
        } else {
            Some(Err(PagedbError::NotFound))
        },
        (OpenStep::ProbeMainLocked, OpenEvent::Failed(e)) => Some(Err(e)),
        (OpenStep::PeekRestore, OpenEvent::RestoreMode(restore)) => if restore == 2 {
            Some(Err(PagedbError::RestoredNotPromoted))
        } else {
            Some(Ok(interlock_step(mode, true)))
        },
        (OpenStep::PeekRestore, OpenEvent::Failed(e)) => Some(Err(e)),
        (OpenStep::ProbeLock { lock, exists }, OpenEvent::Locked) => Some(
            Ok(OpenStep::HoldLock { lock: caps.long_lived_lock, exists }),
        ),
        (OpenStep::ProbeLock { lock, exists }, OpenEvent::Failed(e)) => Some(
            Err(lock_failure(e, probe_refusal(lock))),
        ),
        (OpenStep::HoldLock { lock, exists }, OpenEvent::Locked) => Some(
            Ok(
                if exists {
                    OpenStep::OpenExisting
                } else {
                    OpenStep::Bootstrap
                },
            ),
        ),
        (OpenStep::HoldLock { lock, exists }, OpenEvent::Failed(e)) => Some(
            Err(lock_failure(e, hold_refusal(lock))),
        ),
        _ => None,
    }
}

/// The first step of an open.
pub fn open_start(mode: DbMode) -> (step: OpenStep)
    ensures
        step == first_step(mode),
{
    if mode.open_capabilities().bootstraps() {
        OpenStep::LockAcquisition
    } else {
        OpenStep::ProbeMain
    }
}

/// The step that begins to take a mode's lock.
pub fn acquire_interlocking_mode_lock(mode: DbMode, exists: bool) -> (step: OpenStep)
    ensures
        step == interlock_step(mode, exists),
{
    match mode.open_capabilities().long_lived_lock() {
        LongLivedLock::Writer => OpenStep::ProbeLock { lock: LongLivedLock::FrozenReader, exists },
        LongLivedLock::FrozenReader => OpenStep::ProbeLock { lock: LongLivedLock::Writer, exists },
        LongLivedLock::Observer => OpenStep::HoldLock { lock: LongLivedLock::Observer, exists },
    }
}

/// The step that follows, or the error that ends the open. `None` where the
/// event does not answer the step.
pub fn open_with_mode(mode: DbMode, step: OpenStep, event: OpenEvent) -> (next: Option<
    Result<OpenStep>,
>)
    ensures
        next == next_step(mode, step, event),
{
    let caps: DbModeCapabilities = mode.open_capabilities();
    match (step, event) {
        (OpenStep::ProbeMain, OpenEvent::Present) => Some(Ok(OpenStep::LockAcquisition)),
        (OpenStep::ProbeMain, OpenEvent::Absent) => Some(Err(PagedbError::NotFound)),
        (OpenStep::ProbeMain, OpenEvent::Failed(e)) => Some(Err(e)),
        (OpenStep::LockAcquisition, OpenEvent::Locked) => Some(Ok(OpenStep::ProbeMainLocked)),
        (OpenStep::LockAcquisition, OpenEvent::Failed(e)) => Some(Err(e)),
        (OpenStep::ProbeMainLocked, OpenEvent::Present) => {
            if caps.rejects_unpromoted_restore() {
                Some(Ok(OpenStep::PeekRestore))
            } else {
                Some(Ok(acquire_interlocking_mode_lock(mode, true)))
            }
        },
        (OpenStep::ProbeMainLocked, OpenEvent::Absent) => {
            if caps.bootstraps() {
                Some(Ok(acquire_interlocking_mode_lock(mode, false)))
            } else {
                Some(Err(PagedbError::NotFound))
            }
        },
        (OpenStep::ProbeMainLocked, OpenEvent::Failed(e)) => Some(Err(e)),
        (OpenStep::PeekRestore, OpenEvent::RestoreMode(restore)) => {
            if restore == 2 {
                Some(Err(PagedbError::RestoredNotPromoted))
            } else {
                Some(Ok(acquire_interlocking_mode_lock(mode, true)))
            }
        },
        (OpenStep::PeekRestore, OpenEvent::Failed(e)) => Some(Err(e)),
        (OpenStep::ProbeLock { lock, exists }, OpenEvent::Locked) => {
            Some(Ok(OpenStep::HoldLock { lock: caps.long_lived_lock(), exists }))
        },
        (OpenStep::ProbeLock { lock, exists }, OpenEvent::Failed(e)) => {
            let refusal: PagedbError = match lock {
                LongLivedLock::FrozenReader => PagedbError::ReadersPresent,
                LongLivedLock::Writer => PagedbError::WriterPresent,
                LongLivedLock::Observer => PagedbError::AlreadyLocked,
            };
            Some(Err(map_lock_contention(e, refusal)))
        },
        (OpenStep::HoldLock { lock, exists }, OpenEvent::Locked) => {
            Some(
                Ok(
                    if exists {
                        OpenStep::OpenExisting
                    } else {
                        OpenStep::Bootstrap
                    },
                ),
            )
        },
        (OpenStep::HoldLock { lock, exists }, OpenEvent::Failed(e)) => {
            let refusal: PagedbError = match lock {
                LongLivedLock::Writer => PagedbError::AlreadyOpen,
                LongLivedLock::FrozenReader => PagedbError::AlreadyLocked,
                LongLivedLock::Observer => PagedbError::AlreadyLocked,
            };
            Some(Err(map_lock_contention(e, refusal)))
        },
        _ => None,
    }
}

/// The options a handle of `mode` runs with: reads are retried only where the
/// mode allows it.
pub open spec fn mode_options(mode: DbMode, options: OpenOptions) -> OpenOptions {
    if capabilities_of(mode).allows_observer_retry {
        options
    } else {
        OpenOptions { observer_retry_count: 0, ..options }
    }
}

/// The options a handle of `mode` runs with.
pub fn options_for_mode(mode: DbMode, options: OpenOptions) -> (out: OpenOptions)
    ensures
        out == mode_options(mode, options),
{
    if mode.open_capabilities().allows_observer_retry() {
        options
    } else {
        OpenOptions { observer_retry_count: 0, ..options }
    }
}

/// An open that is about to begin.
#[derive(Debug, Clone, Copy)]
pub struct OpenAttempt {
    pub mode: DbMode,
    pub options: OpenOptions,
    pub step: OpenStep,
}

/// The beginning of an open in `mode`.
pub open spec fn attempt_in(mode: DbMode, options: OpenOptions) -> OpenAttempt {
    OpenAttempt { mode, options: mode_options(mode, options), step: first_step(mode) }
}

fn attempt(mode: DbMode, options: OpenOptions) -> (a: OpenAttempt)
    ensures
        a == attempt_in(mode, options),
{
    OpenAttempt { mode, options: options_for_mode(mode, options), step: open_start(mode) }
}

/// What a promotion does next.
#[derive(Debug, Clone, Copy, PartialEq, Eq, Structural)]
pub enum PromotionStep {
    /// Take the acquisition lock, then give back the frozen-reader lock.
    LockAcquisition,
    /// Try the frozen-reader lock exclusively and give it back.
    ProbeFrozen,
    /// Take the writer lock.
    HoldWriter,
    /// The handle is a follower.
    Promoted,
}

impl Db {
    /// Begins to open a store as its writer, creating it where there is none.
    pub fn open(options: OpenOptions) -> (a: OpenAttempt)
        ensures
            a == attempt_in(DbMode::Standalone, options),
    {
        attempt(DbMode::Standalone, options)
    }

    /// Begins to open a frozen snapshot without write access.
    pub fn open_read_only(options: OpenOptions) -> (a: OpenAttempt)
        ensures
            a == attempt_in(DbMode::ReadOnly, options),
    {
        attempt(DbMode::ReadOnly, options)
    }

    /// Begins to open a best-effort view of a store that may have a writer.
    pub fn open_observer(options: OpenOptions) -> (a: OpenAttempt)
        ensures
            a == attempt_in(DbMode::Observer, options),
    {
        attempt(DbMode::Observer, options)
    }

    /// Turn away an operation this handle's mode does not authorize.
    /// `required` is the mode the embedder is told to reopen or promote into.
    pub fn require_mode(&self, operation: &'static str, required: DbMode, authorized: bool) -> (r:
        Result<()>)
        ensures
            r == if authorized {
                Ok::<(), PagedbError>(())
            } else {
                Err::<(), PagedbError>(
                    PagedbError::WrongMode { operation, required, actual: self.mode },
                )
            },
    {
        if authorized {
            Ok(())
        } else {
            Err(PagedbError::WrongMode { operation, required, actual: self.mode })
        }
    }

    /// Whether a fresh segment may be created: only by a usable full writer.
    pub fn create_segment(&self) -> (r: Result<()>)
        ensures
            r == if self.poisoned_commit is Some {
                Err::<(), PagedbError>(
                    PagedbError::DurablyCommittedButUnpublished { commit: self.poisoned_commit->0 },
                )
            } else if self.mode is Standalone {
                Ok::<(), PagedbError>(())
            } else {
                Err::<(), PagedbError>(
                    PagedbError::WrongMode {
                        operation: "create_segment",
                        required: DbMode::Standalone,
                        actual: self.mode,
                    },
                )
            },
    {
        match self.ensure_usable() {
            Ok(()) => {},
            Err(e) => return Err(e),
        }
        self.require_mode(
            "create_segment",
            DbMode::Standalone,
            self.mode.open_capabilities().allows_user_writes(),
        )
    }

    /// Finishes an open: the handle holds one sentinel lock, and a full writer
    /// must keep holding it to commit.
    pub fn finish_open(&mut self, mode: DbMode)
        ensures
            poison_kept(*old(self), *final(self)),
            *final(self) == (Db {
                mode,
                sentinel_locks: 1,
                lock_required: mode is Standalone,
                ..*old(self)
            }),
    {
        self.mode = mode;
        self.sentinel_locks = 1;
        self.lock_required = mode.open_capabilities().allows_user_writes();
    }

    /// Begins to promote a frozen read-only handle to `Follower`.
    pub fn promote_to_follower(&self) -> (r: Result<PromotionStep>)
        ensures
            r == if self.poisoned_commit is Some {
                Err::<PromotionStep, PagedbError>(
                    PagedbError::DurablyCommittedButUnpublished { commit: self.poisoned_commit->0 },
                )
            } else if self.mode is ReadOnly {
                Ok::<PromotionStep, PagedbError>(PromotionStep::LockAcquisition)
            } else {
                Err::<PromotionStep, PagedbError>(
                    PagedbError::WrongMode {
                        operation: "promote_to_follower",
                        required: DbMode::ReadOnly,
                        actual: self.mode,
                    },
                )
            },
    {
        match self.ensure_usable() {
            Ok(()) => {},
            Err(e) => return Err(e),
        }
        match self.require_mode(
            "promote_to_follower",
            DbMode::ReadOnly,
            self.mode.open_capabilities().promotes_to_follower(),
        ) {
            Ok(()) => Ok(PromotionStep::LockAcquisition),
            Err(e) => Err(e),
        }
    }

    /// Carries a promotion on by whether the lock of its step was granted. The
    /// frozen-reader lock is given back once the acquisition lock is held; the
    /// handle is a follower once it holds the writer lock.
    pub fn promotion_next(&mut self, step: PromotionStep, lock: Result<()>) -> (r: Result<
        PromotionStep,
    >)
        ensures
            poison_kept(*old(self), *final(self)),
            match (step, lock) {
                (PromotionStep::LockAcquisition, Ok(())) => r == Ok::<PromotionStep, PagedbError>(
                    PromotionStep::ProbeFrozen,
                ) && *final(self) == (Db { sentinel_locks: 0, ..*old(self) }),
                (PromotionStep::LockAcquisition, Err(e)) => r == Err::<PromotionStep, PagedbError>(
                    e,
                ) && *final(self) == *old(self),
                (PromotionStep::ProbeFrozen, Ok(())) => r == Ok::<PromotionStep, PagedbError>(
                    PromotionStep::HoldWriter,
                ) && *final(self) == *old(self),
                (PromotionStep::ProbeFrozen, Err(e)) => r == Err::<PromotionStep, PagedbError>(
                    lock_failure(e, PagedbError::ReadersPresent),
                ) && *final(self) == *old(self),
                (PromotionStep::HoldWriter, Ok(())) => r == Ok::<PromotionStep, PagedbError>(
                    PromotionStep::Promoted,
                ) && *final(self) == (Db {
                    sentinel_locks: 1,
                    lock_required: true,
                    mode: DbMode::Follower,
                    ..*old(self)
                }),
                (PromotionStep::HoldWriter, Err(e)) => r == Err::<PromotionStep, PagedbError>(
                    lock_failure(e, PagedbError::AlreadyOpen),
                ) && *final(self) == *old(self),
                (PromotionStep::Promoted, _) => r == Ok::<PromotionStep, PagedbError>(
                    PromotionStep::Promoted,
                ) && *final(self) == *old(self),
            },
    {
        match (step, lock) {
            (PromotionStep::LockAcquisition, Ok(())) => {
                self.sentinel_locks = 0;
                Ok(PromotionStep::ProbeFrozen)
            },
            (PromotionStep::LockAcquisition, Err(e)) => Err(e),
            (PromotionStep::ProbeFrozen, Ok(())) => Ok(PromotionStep::HoldWriter),
            (PromotionStep::ProbeFrozen, Err(e)) => Err(
                map_lock_contention(e, PagedbError::ReadersPresent),
            ),
            (PromotionStep::HoldWriter, Ok(())) => {
                self.sentinel_locks = 1;
                self.lock_required = true;
                self.mode = DbMode::Follower;
                Ok(PromotionStep::Promoted)
            },
            (PromotionStep::HoldWriter, Err(e)) => Err(
                map_lock_contention(e, PagedbError::AlreadyOpen),
            ),
            (PromotionStep::Promoted, _) => Ok(PromotionStep::Promoted),
        }
    }
}

/// Where an open stands after the events so far; `None` once it has failed or
/// an event did not answer its step.
pub open spec fn open_run(mode: DbMode, events: Seq<OpenEvent>) -> Option<OpenStep>
    decreases events.len(),
{
    if events.len() == 0 {
        Some(first_step(mode))
    } else {
        match open_run(mode, events.drop_last()) {
            None => None,
            Some(step) => match next_step(mode, step, events.last()) {
                Some(Ok(next)) => Some(next),
                _ => None,
            },
        }
    }
}

/// What is known of an open by where it stands.
spec fn open_invariant(mode: DbMode, events: Seq<OpenEvent>, step: OpenStep) -> bool {
    let standalone = mode is Standalone;
    let seen_present = events.contains(OpenEvent::Present);
    match step {
        OpenStep::ProbeMain => !standalone,
        OpenStep::LockAcquisition => true,
        OpenStep::ProbeMainLocked => true,
        OpenStep::PeekRestore => standalone && seen_present,
        OpenStep::ProbeLock { lock, exists } => {
            &&& exists ==> seen_present
            &&& !exists ==> standalone
            &&& exists && standalone ==> exists|r: u8|
                r != 2 && #[trigger] events.contains(OpenEvent::RestoreMode(r))
        },
        OpenStep::HoldLock { lock, exists } => {
            &&& lock == capabilities_of(mode).long_lived_lock
            &&& exists ==> seen_present
            &&& !exists ==> standalone
            &&& exists && standalone ==> exists|r: u8|
                r != 2 && #[trigger] events.contains(OpenEvent::RestoreMode(r))
        },
        OpenStep::OpenExisting => {
            &&& seen_present
            &&& standalone ==> exists|r: u8|
                r != 2 && #[trigger] events.contains(OpenEvent::RestoreMode(r))
            &&& events.len() > 0
            &&& events.last() is Locked
            &&& open_run(mode, events.drop_last()) == Some(
                OpenStep::HoldLock { lock: capabilities_of(mode).long_lived_lock, exists: true },
            )
        },
        OpenStep::Bootstrap => {
            &&& standalone
            &&& events.len() > 0
            &&& events.last() is Locked
            &&& open_run(mode, events.drop_last()) == Some(
                OpenStep::HoldLock { lock: LongLivedLock::Writer, exists: false },
            )
        },
    }
}

proof fn lemma_open_invariant(mode: DbMode, events: Seq<OpenEvent>)
    requires
        open_run(mode, events) is Some,
    ensures
        open_invariant(mode, events, open_run(mode, events)->0),
    decreases events.len(),
{
    if events.len() > 0 {
        let before = events.drop_last();
        lemma_open_invariant(mode, before);
        assert forall|e: OpenEvent| #[trigger] before.contains(e) implies events.contains(e) by {
            let i = before.index_of(e);
            assert(events[i] == e);
        }
        assert(events[events.len() - 1] == events.last());
        assert(events.contains(events.last()));
        if let OpenEvent::RestoreMode(r) = events.last() {
            assert(events.contains(OpenEvent::RestoreMode(r)));
        }
        if exists|r: u8| r != 2 && #[trigger] before.contains(OpenEvent::RestoreMode(r)) {
            let r = choose|r: u8| r != 2 && #[trigger] before.contains(OpenEvent::RestoreMode(r));
            assert(events.contains(OpenEvent::RestoreMode(r)));
        }
    }
}

/// Only a full writer ever creates a store, and only after it was granted the
/// writer lock.
pub proof fn law_only_a_locked_writer_bootstraps(mode: DbMode, events: Seq<OpenEvent>)
    requires
        open_run(mode, events) == Some(OpenStep::Bootstrap),
    ensures
        mode is Standalone,
        events.last() is Locked,
        open_run(mode, events.drop_last()) == Some(
            OpenStep::HoldLock { lock: LongLivedLock::Writer, exists: false },
        ),
{
    lemma_open_invariant(mode, events);
}

/// A store is opened only where it was found, only under the mode's own lock,
/// and by a full writer only where its restore mode was read and is not that
/// of a restored snapshot awaiting promotion.
pub proof fn law_open_existing_is_guarded(mode: DbMode, events: Seq<OpenEvent>)
    requires
        open_run(mode, events) == Some(OpenStep::OpenExisting),
    ensures
        events.contains(OpenEvent::Present),
        open_run(mode, events.drop_last()) == Some(
            OpenStep::HoldLock { lock: capabilities_of(mode).long_lived_lock, exists: true },
        ),
        events.last() is Locked,
        mode is Standalone ==> exists|r: u8|
            r != 2 && #[trigger] events.contains(OpenEvent::RestoreMode(r)),
{
    lemma_open_invariant(mode, events);
}

/// Writers and frozen readers exclude each other: each probes the lock that
/// the other keeps, before it takes its own.
pub proof fn law_writer_and_frozen_reader_interlock(writer: DbMode, reader: DbMode, exists: bool)
    requires
        capabilities_of(writer).long_lived_lock is Writer,
        capabilities_of(reader).long_lived_lock is FrozenReader,
    ensures
        interlock_step(writer, exists) == (OpenStep::ProbeLock {
            lock: capabilities_of(reader).long_lived_lock,
            exists,
        }),
        interlock_step(reader, exists) == (OpenStep::ProbeLock {
            lock: capabilities_of(writer).long_lived_lock,
            exists,
        }),
{
}

/// The matrix grants each authority to the modes that it is meant for: user
/// writes and recovery to `Standalone` alone, applying deltas to `Follower`
/// alone, promotion to `ReadOnly` alone, and retries to `Observer` alone; a
/// mode may write files exactly when it holds the writer lock; and `ReadOnly`
/// differs from `Observer` only in its lock and in retries.
pub proof fn law_authority_matrix(mode: DbMode)
    ensures
        capabilities_of(mode).recovery_authority is Standalone <==> mode is Standalone,
        capabilities_of(mode).recovery_authority is ApplyOnly <==> mode is Follower,
        capabilities_of(mode).long_lived_lock is FrozenReader <==> mode is ReadOnly,
        capabilities_of(mode).allows_observer_retry <==> mode is Observer,
        capabilities_of(mode).persistent_access is ReadWrite <==> capabilities_of(
            mode,
        ).long_lived_lock is Writer,
        capabilities_of(mode).persistent_access is ReadOnly <==> capabilities_of(
            mode,
        ).recovery_authority is VerifyOnly,
        capabilities_of(DbMode::Observer) == (DbModeCapabilities {
            long_lived_lock: LongLivedLock::Observer,
            allows_observer_retry: true,
            ..capabilities_of(DbMode::ReadOnly)
        }),
{
}

} // verus!
