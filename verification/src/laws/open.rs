//! Laws of opening a store: which locks guard it and what recovery has gone
//! through before a handle is given out.

use vstd::prelude::*;

use crate::db::handle::Db;
use crate::db::open::modes::{
    lock_path, map_lock_contention, open_start, open_with_mode, options_for_mode, path_exists,
    DbModeCapabilities, LongLivedLock, OpenAttempt, OpenEvent, OpenMode, OpenStep, PromotionStep,
};
use crate::db::open::recovery::{recover_open_state, recovery_start, RecoveryEvent, RecoveryStep};
use crate::errors::{IoKind, PagedbError, Result};
use crate::header::MainDbHeaderFields;
use crate::mode::DbMode;
use crate::options::OpenOptions;

verus! {

/// Whether `steps` is a run of recovery in `mode` from a header: it begins with the
/// step that recovery starts with, and each step is followed by the one that its
/// event led to.
pub open spec fn is_recovery(
    mode: DbMode,
    f: MainDbHeaderFields,
    steps: Seq<RecoveryStep>,
    events: Seq<RecoveryEvent>,
) -> bool {
    &&& steps.len() == events.len() + 1
    &&& call_ensures(recovery_start, (mode, &f), Ok::<RecoveryStep, PagedbError>(steps[0]))
    &&& forall|i: int|
        #![trigger events[i]]
        0 <= i < events.len() ==> call_ensures(
            recover_open_state,
            (mode, steps[i], events[i]),
            Some(Ok::<RecoveryStep, PagedbError>(steps[i + 1])),
        )
}

/// Recovery that is done has looked for an interrupted rekey last, and either there
/// was none or the one to the recorded epoch was resumed and finished. Before that
/// a Standalone open has removed what a compaction left, if it left anything, and
/// finished repairing the catalog; any other has finished verifying it. A journal
/// that the header names was completed before anything else.
pub proof fn law_recovery_leaves_nothing_out(
    mode: DbMode,
    f: MainDbHeaderFields,
    steps: Seq<RecoveryStep>,
    events: Seq<RecoveryEvent>,
)
    requires
        is_recovery(mode, f, steps, events),
        steps.last() is Done,
    ensures
        exists|i: int|
            {
                &&& 0 < i < events.len()
                &&& (#[trigger] steps[i]) is LoadRekey
                &&& {
                    ||| events[i] == RecoveryEvent::Rekey(None) && i + 1 == events.len()
                    ||| {
                        &&& mode is Standalone
                        &&& i + 2 == events.len()
                        &&& steps[i + 1] is ResumeRekey
                        &&& events[i] == RecoveryEvent::Rekey(
                            Some(steps[i + 1]->ResumeRekey_target_epoch),
                        )
                        &&& events[i + 1] is Finished
                    }
                }
                &&& events[i - 1] is Finished
                &&& mode is Standalone ==> {
                    &&& steps[i - 1] is RepairCatalog
                    &&& i >= 2
                    &&& steps[i - 2] is RemoveCompaction
                    &&& events[i - 2] is Finished || events[i - 2] == RecoveryEvent::Failed(
                        PagedbError::Io(IoKind::NotFound),
                    )
                }
                &&& !(mode is Standalone) ==> steps[i - 1] is VerifyCatalog
            },
        f.apply_journal_root_page_id != 0 || f.apply_journal_root_version != 0 ==> {
            &&& steps[0] is RetryApplyJournal
            &&& events[0] is Finished
            &&& mode is Standalone || mode is Follower
        },
{
    let a = events[0];
    let base: int = if steps[0] is RetryApplyJournal {
        1
    } else {
        0
    };
    let b = events[base];
    if mode is Standalone {
        let c = events[base + 1];
        let d = events[base + 2];
        assert(steps[base + 2] is LoadRekey);
        if !(events[base + 2] == RecoveryEvent::Rekey(None)) {
            let e = events[base + 3];
            let g = events[base + 4];
        } else {
            let e = events[base + 3];
        }
    } else {
        let c = events[base + 1];
        assert(steps[base + 1] is LoadRekey);
        let d = events[base + 2];
    }
}

/// Recovery gets to its end when every step succeeds: from the first step of a
/// Standalone open without a journal to the removal of compaction leftovers, the
/// repair, the look for a rekey and, where one is recorded, its resumption; of any
/// other open to the verification and the look for a rekey, which may find none.
pub proof fn law_recovery_completes(
    mode: DbMode,
    f: MainDbHeaderFields,
    epoch: u64,
    begun: Result<RecoveryStep>,
    retried: Option<Result<RecoveryStep>>,
    cleaned: Option<Result<RecoveryStep>>,
    repaired: Option<Result<RecoveryStep>>,
    verified: Option<Result<RecoveryStep>>,
    found_none: Option<Result<RecoveryStep>>,
    found: Option<Result<RecoveryStep>>,
    resumed: Option<Result<RecoveryStep>>,
)
    requires
        call_ensures(recovery_start, (mode, &f), begun),
        call_ensures(
            recover_open_state,
            (mode, RecoveryStep::RetryApplyJournal, RecoveryEvent::Finished),
            retried,
        ),
        call_ensures(
            recover_open_state,
            (mode, RecoveryStep::RemoveCompaction, RecoveryEvent::Finished),
            cleaned,
        ),
        call_ensures(
            recover_open_state,
            (mode, RecoveryStep::RepairCatalog, RecoveryEvent::Finished),
            repaired,
        ),
        call_ensures(
            recover_open_state,
            (mode, RecoveryStep::VerifyCatalog, RecoveryEvent::Finished),
            verified,
        ),
        call_ensures(
            recover_open_state,
            (mode, RecoveryStep::LoadRekey, RecoveryEvent::Rekey(None)),
            found_none,
        ),
        call_ensures(
            recover_open_state,
            (mode, RecoveryStep::LoadRekey, RecoveryEvent::Rekey(Some(epoch))),
            found,
        ),
        call_ensures(
            recover_open_state,
            (
                mode,
                RecoveryStep::ResumeRekey { target_epoch: epoch },
                RecoveryEvent::Finished,
            ),
            resumed,
        ),
    ensures
        ({
            let journal = f.apply_journal_root_page_id != 0 || f.apply_journal_root_version != 0;
            let first = if mode is Standalone {
                RecoveryStep::RemoveCompaction
            } else {
                RecoveryStep::VerifyCatalog
            };
            &&& begun == if !journal {
                Ok::<RecoveryStep, PagedbError>(first)
            } else if mode is Standalone || mode is Follower {
                Ok::<RecoveryStep, PagedbError>(RecoveryStep::RetryApplyJournal)
            } else {
                Err::<RecoveryStep, PagedbError>(PagedbError::Unsupported)
            }
            &&& retried == Some(Ok::<RecoveryStep, PagedbError>(first))
        }),
        cleaned == Some(Ok::<RecoveryStep, PagedbError>(RecoveryStep::RepairCatalog)),
        repaired == Some(Ok::<RecoveryStep, PagedbError>(RecoveryStep::LoadRekey)),
        verified == Some(Ok::<RecoveryStep, PagedbError>(RecoveryStep::LoadRekey)),
        found_none == Some(Ok::<RecoveryStep, PagedbError>(RecoveryStep::Done)),
        mode is Standalone ==> found == Some(
            Ok::<RecoveryStep, PagedbError>(RecoveryStep::ResumeRekey { target_epoch: epoch }),
        ),
        !(mode is Standalone) ==> found == Some(
            Err::<RecoveryStep, PagedbError>(PagedbError::Unsupported),
        ),
        resumed == Some(Ok::<RecoveryStep, PagedbError>(RecoveryStep::Done)),
{
}

/// A step that fails ends recovery with its own error. The one exception is a
/// removal that finds no compaction leftovers, after which recovery goes on.
pub proof fn law_recovery_passes_failures_on(
    mode: DbMode,
    step: RecoveryStep,
    e: PagedbError,
    r: Option<Result<RecoveryStep>>,
)
    requires
        call_ensures(recover_open_state, (mode, step, RecoveryEvent::Failed(e)), r),
        !(step is Done),
    ensures
        step is RemoveCompaction && e == PagedbError::Io(IoKind::NotFound) ==> r == Some(
            Ok::<RecoveryStep, PagedbError>(RecoveryStep::RepairCatalog),
        ),
        !(step is RemoveCompaction && e == PagedbError::Io(IoKind::NotFound)) ==> r == Some(
            Err::<RecoveryStep, PagedbError>(e),
        ),
{
}

/// Whether `steps` is a run of an open in `mode`: it begins with the step that the
/// open starts with, and each step is followed by the one that its event led to.
pub open spec fn is_open(mode: DbMode, steps: Seq<OpenStep>, events: Seq<OpenEvent>) -> bool {
    &&& steps.len() == events.len() + 1
    &&& call_ensures(open_start, (mode,), steps[0])
    &&& forall|i: int|
        #![trigger events[i]]
        0 <= i < events.len() ==> call_ensures(
            open_with_mode,
            (mode, steps[i], events[i]),
            Some(Ok::<OpenStep, PagedbError>(steps[i + 1])),
        )
}

/// A store that is there is opened under the lock of the mode and past the locks
/// that exclude it. A Standalone open has read, under the acquisition lock, that the
/// store is not one that awaits promotion; it and a Follower have found nobody
/// reading a frozen store and hold the writer's lock; a read-only open has found no
/// writer and holds the frozen readers' lock; an observer holds the observers'.
/// Without the store none but a Standalone open gets anywhere.
pub proof fn law_open_goes_past_every_lock(
    mode: DbMode,
    steps: Seq<OpenStep>,
    events: Seq<OpenEvent>,
)
    requires
        is_open(mode, steps, events),
        steps.last() is OpenExisting,
    ensures
        mode is Standalone ==> {
            &&& steps == seq![
                OpenStep::LockAcquisition,
                OpenStep::ProbeMainLocked,
                OpenStep::PeekRestore,
                OpenStep::ProbeLock { lock: LongLivedLock::FrozenReader, exists: true },
                OpenStep::HoldLock { lock: LongLivedLock::Writer, exists: true },
                OpenStep::OpenExisting,
            ]
            &&& events[0] is Locked && events[1] is Present && events[3] is Locked && events[4]
                is Locked
            &&& events[2] is RestoreMode
            &&& events[2]->RestoreMode_0 != 2
        },
        mode is Follower ==> {
            &&& steps == seq![
                OpenStep::ProbeMain,
                OpenStep::LockAcquisition,
                OpenStep::ProbeMainLocked,
                OpenStep::ProbeLock { lock: LongLivedLock::FrozenReader, exists: true },
                OpenStep::HoldLock { lock: LongLivedLock::Writer, exists: true },
                OpenStep::OpenExisting,
            ]
            &&& events[0] is Present && events[1] is Locked && events[2] is Present && events[3]
                is Locked && events[4] is Locked
        },
        mode is ReadOnly ==> {
            &&& steps == seq![
                OpenStep::ProbeMain,
                OpenStep::LockAcquisition,
                OpenStep::ProbeMainLocked,
                OpenStep::ProbeLock { lock: LongLivedLock::Writer, exists: true },
                OpenStep::HoldLock { lock: LongLivedLock::FrozenReader, exists: true },
                OpenStep::OpenExisting,
            ]
            &&& events[0] is Present && events[1] is Locked && events[2] is Present && events[3]
                is Locked && events[4] is Locked
        },
        mode is Observer ==> {
            &&& steps == seq![
                OpenStep::ProbeMain,
                OpenStep::LockAcquisition,
                OpenStep::ProbeMainLocked,
                OpenStep::HoldLock { lock: LongLivedLock::Observer, exists: true },
                OpenStep::OpenExisting,
            ]
            &&& events[0] is Present && events[1] is Locked && events[2] is Present && events[3]
                is Locked
        },
{
    let a = events[0];
    let b = events[1];
    let c = events[2];
    let d = events[3];
    let e = events[4];
    let f = events[5];
    match mode {
        DbMode::Standalone => {
            assert(steps =~= seq![
                OpenStep::LockAcquisition,
                OpenStep::ProbeMainLocked,
                OpenStep::PeekRestore,
                OpenStep::ProbeLock { lock: LongLivedLock::FrozenReader, exists: true },
                OpenStep::HoldLock { lock: LongLivedLock::Writer, exists: true },
                OpenStep::OpenExisting,
            ]);
        },
        DbMode::Follower => {
            assert(steps =~= seq![
                OpenStep::ProbeMain,
                OpenStep::LockAcquisition,
                OpenStep::ProbeMainLocked,
                OpenStep::ProbeLock { lock: LongLivedLock::FrozenReader, exists: true },
                OpenStep::HoldLock { lock: LongLivedLock::Writer, exists: true },
                OpenStep::OpenExisting,
            ]);
        },
        DbMode::ReadOnly => {
            assert(steps =~= seq![
                OpenStep::ProbeMain,
                OpenStep::LockAcquisition,
                OpenStep::ProbeMainLocked,
                OpenStep::ProbeLock { lock: LongLivedLock::Writer, exists: true },
                OpenStep::HoldLock { lock: LongLivedLock::FrozenReader, exists: true },
                OpenStep::OpenExisting,
            ]);
        },
        DbMode::Observer => {
            assert(steps =~= seq![
                OpenStep::ProbeMain,
                OpenStep::LockAcquisition,
                OpenStep::ProbeMainLocked,
                OpenStep::HoldLock { lock: LongLivedLock::Observer, exists: true },
                OpenStep::OpenExisting,
            ]);
        },
    }
}

/// A store is created only by a Standalone open that found none, found nobody
/// reading a frozen one, and holds the writer's lock.
pub proof fn law_only_a_writer_creates(
    mode: DbMode,
    steps: Seq<OpenStep>,
    events: Seq<OpenEvent>,
)
    requires
        is_open(mode, steps, events),
        steps.last() is Bootstrap,
    ensures
        mode is Standalone,
        steps == seq![
            OpenStep::LockAcquisition,
            OpenStep::ProbeMainLocked,
            OpenStep::ProbeLock { lock: LongLivedLock::FrozenReader, exists: false },
            OpenStep::HoldLock { lock: LongLivedLock::Writer, exists: false },
            OpenStep::Bootstrap,
        ],
        events[0] is Locked && events[1] is Absent && events[2] is Locked && events[3] is Locked,
{
    let a = events[0];
    let b = events[1];
    let c = events[2];
    let d = events[3];
    let e = events[4];
    let f = events[5];
    if mode is Standalone {
        assert(steps =~= seq![
            OpenStep::LockAcquisition,
            OpenStep::ProbeMainLocked,
            OpenStep::ProbeLock { lock: LongLivedLock::FrozenReader, exists: false },
            OpenStep::HoldLock { lock: LongLivedLock::Writer, exists: false },
            OpenStep::Bootstrap,
        ]);
    }
}

/// An open that cannot go on says why: a store that is missing or awaits promotion
/// by an error of its own, a lock that someone holds by who holds it, and any other
/// failure by the failure itself.
pub proof fn law_open_refusals(
    mode: DbMode,
    step: OpenStep,
    e: PagedbError,
    failed: Option<Result<OpenStep>>,
    absent: Option<Result<OpenStep>>,
    absent_locked: Option<Result<OpenStep>>,
    restore: u8,
    peeked: Option<Result<OpenStep>>,
)
    requires
        !(step is OpenExisting || step is Bootstrap),
        call_ensures(open_with_mode, (mode, step, OpenEvent::Failed(e)), failed),
        call_ensures(open_with_mode, (mode, OpenStep::ProbeMain, OpenEvent::Absent), absent),
        call_ensures(
            open_with_mode,
            (mode, OpenStep::ProbeMainLocked, OpenEvent::Absent),
            absent_locked,
        ),
        call_ensures(
            open_with_mode,
            (mode, OpenStep::PeekRestore, OpenEvent::RestoreMode(restore)),
            peeked,
        ),
    ensures
        failed is Some,
        failed->0 is Err,
        ({
            let said = failed->0->Err_0;
            &&& !(e is AlreadyLocked) || !(step is ProbeLock || step is HoldLock) ==> said == e
            &&& e is AlreadyLocked && step is ProbeLock && step->ProbeLock_lock is FrozenReader
                ==> said is ReadersPresent
            &&& e is AlreadyLocked && step is ProbeLock && step->ProbeLock_lock is Writer ==> said
                is WriterPresent
            &&& e is AlreadyLocked && step is HoldLock && step->HoldLock_lock is Writer ==> said
                is AlreadyOpen
            &&& e is AlreadyLocked && step is HoldLock && !(step->HoldLock_lock is Writer) ==> said
                is AlreadyLocked
        }),
        absent == Some(Err::<OpenStep, PagedbError>(PagedbError::NotFound)),
        !(mode is Standalone) ==> absent_locked == Some(
            Err::<OpenStep, PagedbError>(PagedbError::NotFound),
        ),
        mode is Standalone ==> absent_locked is Some && absent_locked->0 is Ok,
        restore == 2 ==> peeked == Some(
            Err::<OpenStep, PagedbError>(PagedbError::RestoredNotPromoted),
        ),
        restore != 2 ==> peeked is Some && peeked->0 is Ok,
{
}

/// What a mode may do: only Standalone writes, maintains, creates and recovers; only
/// a Follower applies increments, only a read-only handle is promoted; Standalone and
/// Follower write files and hold the writer's lock; only an observer retries.
pub proof fn law_modes_may_do(
    mode: DbMode,
    caps: DbModeCapabilities,
    bootstraps: bool,
    file_mode: OpenMode,
    read_only: bool,
    writes: bool,
    maintains: bool,
    applies: bool,
    promotes: bool,
    finishes_apply: bool,
    recovers: bool,
    rejects: bool,
    lock: LongLivedLock,
    retries: bool,
)
    requires
        call_ensures(DbMode::open_capabilities, (mode,), caps),
        call_ensures(DbModeCapabilities::bootstraps, (caps,), bootstraps),
        call_ensures(DbModeCapabilities::main_db_open_mode, (caps,), file_mode),
        call_ensures(DbModeCapabilities::read_only_file_access, (caps,), read_only),
        call_ensures(DbModeCapabilities::allows_user_writes, (caps,), writes),
        call_ensures(DbModeCapabilities::allows_store_maintenance, (caps,), maintains),
        call_ensures(DbModeCapabilities::applies_incremental_snapshots, (caps,), applies),
        call_ensures(DbModeCapabilities::promotes_to_follower, (caps,), promotes),
        call_ensures(DbModeCapabilities::applies_interrupted_apply, (caps,), finishes_apply),
        call_ensures(DbModeCapabilities::runs_standalone_recovery, (caps,), recovers),
        call_ensures(DbModeCapabilities::rejects_unpromoted_restore, (caps,), rejects),
        call_ensures(DbModeCapabilities::long_lived_lock, (caps,), lock),
        call_ensures(DbModeCapabilities::allows_observer_retry, (caps,), retries),
    ensures
        bootstraps <==> mode is Standalone,
        writes <==> mode is Standalone,
        maintains <==> mode is Standalone,
        recovers <==> mode is Standalone,
        rejects <==> mode is Standalone,
        applies <==> mode is Follower,
        promotes <==> mode is ReadOnly,
        finishes_apply <==> mode is Standalone || mode is Follower,
        read_only <==> mode is ReadOnly || mode is Observer,
        file_mode is Read <==> read_only,
        file_mode is ReadWrite <==> !read_only,
        retries <==> mode is Observer,
        lock is Writer <==> mode is Standalone || mode is Follower,
        lock is FrozenReader <==> mode is ReadOnly,
        lock is Observer <==> mode is Observer,
{
}

/// Each lock has a file of its own.
pub proof fn law_locks_have_files(
    writer: &'static str,
    frozen: &'static str,
    observer: &'static str,
)
    requires
        call_ensures(lock_path, (LongLivedLock::Writer,), writer),
        call_ensures(lock_path, (LongLivedLock::FrozenReader,), frozen),
        call_ensures(lock_path, (LongLivedLock::Observer,), observer),
    ensures
        writer == ".writer.lock",
        frozen == ".frozen_readers.lock",
        observer == ".observers.lock",
{
}

/// Contention on a lock is told as the caller of the lock wants it told, any other
/// failure as it is. A file that cannot be found is not there; any other failure to
/// look is one.
pub proof fn law_lock_and_probe_failures(
    e: PagedbError,
    told: PagedbError,
    mapped: PagedbError,
    opened: Result<()>,
    there: Result<bool>,
)
    requires
        call_ensures(map_lock_contention, (e, told), mapped),
        call_ensures(path_exists, (opened,), there),
    ensures
        e is AlreadyLocked ==> mapped == told,
        !(e is AlreadyLocked) ==> mapped == e,
        opened is Ok ==> there == Ok::<bool, PagedbError>(true),
        opened == Err::<(), PagedbError>(PagedbError::Io(IoKind::NotFound)) ==> there == Ok::<
            bool,
            PagedbError,
        >(false),
        opened is Err && opened->Err_0 != PagedbError::Io(IoKind::NotFound) ==> there == Err::<
            bool,
            PagedbError,
        >(opened->Err_0),
{
}

/// An open begins in the mode that was asked for with the options that were given;
/// retries are left to observers.
pub proof fn law_open_attempts(
    options: OpenOptions,
    standalone: OpenAttempt,
    read_only: OpenAttempt,
    observer: OpenAttempt,
    mode: DbMode,
    kept: OpenOptions,
)
    requires
        call_ensures(Db::open, (options,), standalone),
        call_ensures(Db::open_read_only, (options,), read_only),
        call_ensures(Db::open_observer, (options,), observer),
        call_ensures(options_for_mode, (mode, options), kept),
    ensures
        standalone.mode is Standalone && standalone.step is LockAcquisition,
        read_only.mode is ReadOnly && read_only.step is ProbeMain,
        observer.mode is Observer && observer.step is ProbeMain,
        standalone.options == (OpenOptions { observer_retry_count: 0, ..options }),
        read_only.options == standalone.options,
        observer.options == options,
        mode is Observer ==> kept == options,
        !(mode is Observer) ==> kept == (OpenOptions { observer_retry_count: 0, ..options }),
{
}

/// A handle that was opened is in its mode and holds one lock, which a Standalone
/// handle must hold to write.
pub proof fn law_opened_handle_is_locked(
    db: &mut Db,
    mode: DbMode,
    unit: (),
    after: &Db,
    held: bool,
    satisfied: bool,
)
    requires
        call_ensures(Db::finish_open, (db, mode), unit),
        *after == *final(db),
        call_ensures(Db::holds_write_lock, (after,), held),
        call_ensures(Db::write_lock_satisfied, (after,), satisfied),
    ensures
        final(db).mode == mode,
        held,
        satisfied,
        final(db).lock_required <==> mode is Standalone,
        final(db).writer == old(db).writer,
        final(db).snapshot == old(db).snapshot,
        final(db).poisoned_commit == old(db).poisoned_commit,
        final(db).options == old(db).options,
{
}

/// A handle that needs a lock to write is satisfied only while it holds one.
pub proof fn law_write_lock(db: &Db, held: bool, satisfied: bool)
    requires
        call_ensures(Db::holds_write_lock, (db,), held),
        call_ensures(Db::write_lock_satisfied, (db,), satisfied),
    ensures
        held <==> db.sentinel_locks != 0,
        satisfied <==> held || !db.lock_required,
{
}

/// A read-only handle becomes a Follower step by step: it gives up its own lock once
/// it has the acquisition lock, then nobody else may be reading, then it takes the
/// writer's lock, holds it and needs it. A step that fails leaves the handle as it
/// is; who is in the way is said.
pub proof fn law_promotion_steps(
    db: &Db,
    begun: Result<PromotionStep>,
    a: &mut Db,
    after_acquisition: Result<PromotionStep>,
    b: &mut Db,
    after_probe: Result<PromotionStep>,
    c: &mut Db,
    after_hold: Result<PromotionStep>,
    f: &mut Db,
    step: PromotionStep,
    e: PagedbError,
    failed: Result<PromotionStep>,
)
    requires
        call_ensures(Db::promote_to_follower, (db,), begun),
        call_ensures(
            Db::promotion_next,
            (a, PromotionStep::LockAcquisition, Ok::<(), PagedbError>(())),
            after_acquisition,
        ),
        call_ensures(
            Db::promotion_next,
            (b, PromotionStep::ProbeFrozen, Ok::<(), PagedbError>(())),
            after_probe,
        ),
        call_ensures(
            Db::promotion_next,
            (c, PromotionStep::HoldWriter, Ok::<(), PagedbError>(())),
            after_hold,
        ),
        call_ensures(Db::promotion_next, (f, step, Err::<(), PagedbError>(e)), failed),
        !(step is Promoted),
    ensures
        begun is Ok <==> db.poisoned_commit is None && db.mode is ReadOnly,
        begun is Ok ==> begun->Ok_0 is LockAcquisition,
        begun is Err && db.poisoned_commit is None ==> begun->Err_0 == (PagedbError::WrongMode {
            operation: "promote_to_follower",
            required: DbMode::ReadOnly,
            actual: db.mode,
        }),
        after_acquisition == Ok::<PromotionStep, PagedbError>(PromotionStep::ProbeFrozen),
        final(a).sentinel_locks == 0,
        final(a).mode == old(a).mode,
        after_probe == Ok::<PromotionStep, PagedbError>(PromotionStep::HoldWriter),
        *final(b) == *old(b),
        after_hold == Ok::<PromotionStep, PagedbError>(PromotionStep::Promoted),
        final(c).mode is Follower,
        final(c).sentinel_locks == 1,
        final(c).lock_required,
        final(c).writer == old(c).writer && final(c).snapshot == old(c).snapshot,
        *final(f) == *old(f),
        failed is Err,
        !(e is AlreadyLocked) || step is LockAcquisition ==> failed->Err_0 == e,
        e is AlreadyLocked && step is ProbeFrozen ==> failed->Err_0 is ReadersPresent,
        e is AlreadyLocked && step is HoldWriter ==> failed->Err_0 is AlreadyOpen,
{
}

/// An operation that a handle is not authorized for is refused with the mode that
/// it takes and the mode that the handle is in. Segments are created by a usable
/// Standalone handle only.
pub proof fn law_operations_need_their_mode(
    db: &Db,
    operation: &'static str,
    required: DbMode,
    authorized: bool,
    r: Result<()>,
    created: Result<()>,
)
    requires
        call_ensures(Db::require_mode, (db, operation, required, authorized), r),
        call_ensures(Db::create_segment, (db,), created),
    ensures
        authorized <==> r is Ok,
        !authorized ==> r->Err_0 == (PagedbError::WrongMode {
            operation,
            required,
            actual: db.mode,
        }),
        created is Ok <==> db.poisoned_commit is None && db.mode is Standalone,
        db.poisoned_commit is Some ==> created->Err_0
            == (PagedbError::DurablyCommittedButUnpublished { commit: db.poisoned_commit->0 }),
        db.poisoned_commit is None && !(db.mode is Standalone) ==> created->Err_0
            == (PagedbError::WrongMode {
            operation: "create_segment",
            required: DbMode::Standalone,
            actual: db.mode,
        }),
{
}

} // verus!
