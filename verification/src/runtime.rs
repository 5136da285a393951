//! The native runtime, of which a process has one: who holds it, and when it is shut down.
//!
//! The runtime is initialized for the first lease and shut down with the last one. Once shut
//! down it cannot be initialized again in the same process.

use crate::config;
use crate::config::{FingerprintView, InitFingerprint, MemStoreConfig};
use crate::error;
use crate::error::{ErrorKind, Failure, MemStoreStoreError};
use crate::status;
use crate::status::CResult;
use vstd::prelude::*;

verus! {

/// The state of the runtime.
pub enum RuntimeState {
    Uninitialized,
    Active { fingerprint: InitFingerprint, leases: usize },
    Closed,
}

/// The content of a `RuntimeState`.
pub enum RuntimeView {
    Uninitialized,
    Active { fingerprint: FingerprintView, leases: nat },
    Closed,
}

impl RuntimeView {
    /// An active runtime is held by someone.
    pub open spec fn well_formed(self) -> bool {
        self matches RuntimeView::Active { leases, .. } ==> 1 <= leases <= usize::MAX
    }
}

impl View for RuntimeState {
    type V = RuntimeView;

    open spec fn view(&self) -> RuntimeView {
        match *self {
            RuntimeState::Uninitialized => RuntimeView::Uninitialized,
            RuntimeState::Active { fingerprint, leases } => RuntimeView::Active {
                fingerprint: fingerprint@,
                leases: leases as nat,
            },
            RuntimeState::Closed => RuntimeView::Closed,
        }
    }
}

/// The answer to more leases than can be counted.
pub open spec fn lease_overflow() -> Failure {
    error::failure(ErrorKind::Internal, "MemStore runtime lease count overflowed"@)
}

/// The answer to a lease with other options than the runtime was initialized with.
pub open spec fn other_options() -> Failure {
    error::failure(
        ErrorKind::Unavailable,
        "MemStore runtime is already initialized with different options"@,
    )
}

/// The answer to a lease after the runtime was shut down.
pub open spec fn permanently_closed() -> Failure {
    error::failure(
        ErrorKind::Unavailable,
        "MemStore runtime was permanently closed in this process"@,
    )
}

/// The answer to a release before any lease.
pub open spec fn not_initialized() -> Failure {
    error::failure(
        ErrorKind::Internal,
        "MemStore runtime lease released before initialization"@,
    )
}

/// What a request for a lease comes to.
pub enum AcquireVerdict {
    /// The runtime has to be initialized first.
    Initialize,
    /// The lease is granted or refused.
    Done(Result<(), Failure>),
}

/// What a request for a lease comes to, and the state after it.
pub open spec fn acquired(state: RuntimeView, wanted: FingerprintView) -> (
    RuntimeView,
    AcquireVerdict,
) {
    match state {
        RuntimeView::Uninitialized => (state, AcquireVerdict::Initialize),
        RuntimeView::Active { fingerprint, leases } => if fingerprint != wanted {
            (state, AcquireVerdict::Done(Err(other_options())))
        } else if leases == usize::MAX {
            (state, AcquireVerdict::Done(Err(lease_overflow())))
        } else {
            (
                RuntimeView::Active { fingerprint, leases: leases + 1 },
                AcquireVerdict::Done(Ok(())),
            )
        },
        RuntimeView::Closed => (state, AcquireVerdict::Done(Err(permanently_closed()))),
    }
}

/// The state after an attempt to initialize the runtime, and its outcome.
pub open spec fn initialized(
    wanted: FingerprintView,
    code: CResult,
    serviceable: bool,
) -> (RuntimeView, Result<(), Failure>) {
    if code == status::RET_MMS_OK {
        (RuntimeView::Active { fingerprint: wanted, leases: 1 }, Ok(()))
    } else {
        (
            RuntimeView::Uninitialized,
            Err(status::status_failure(code, "initialize"@, serviceable)),
        )
    }
}

/// What the release of a lease comes to.
pub enum ReleaseVerdict {
    /// The native runtime has to be shut down.
    Exit,
    /// Nothing is left to do.
    Done(Result<(), Failure>),
}

/// What the release of a lease comes to, and the state after it.
pub open spec fn released(state: RuntimeView) -> (RuntimeView, ReleaseVerdict) {
    match state {
        RuntimeView::Active { fingerprint, leases } => if leases > 1 {
            (
                RuntimeView::Active { fingerprint, leases: (leases - 1) as nat },
                ReleaseVerdict::Done(Ok(())),
            )
        } else {
            (RuntimeView::Closed, ReleaseVerdict::Exit)
        },
        RuntimeView::Uninitialized => (state, ReleaseVerdict::Done(Err(not_initialized()))),
        RuntimeView::Closed => (state, ReleaseVerdict::Done(Ok(()))),
    }
}

/// What a request for a lease comes to, on executable values.
pub enum AcquireStep {
    /// The runtime has to be initialized with the options of the settings.
    Initialize,
    /// The lease is granted or refused.
    Done(Result<(), MemStoreStoreError>),
}

impl View for AcquireStep {
    type V = AcquireVerdict;

    open spec fn view(&self) -> AcquireVerdict {
        match *self {
            AcquireStep::Initialize => AcquireVerdict::Initialize,
            AcquireStep::Done(outcome) => AcquireVerdict::Done(error::settled(outcome)),
        }
    }
}

/// What the release of a lease comes to, on executable values.
pub enum ReleaseStep {
    /// The native runtime has to be shut down.
    Exit,
    /// Nothing is left to do.
    Done(Result<(), MemStoreStoreError>),
}

impl View for ReleaseStep {
    type V = ReleaseVerdict;

    open spec fn view(&self) -> ReleaseVerdict {
        match *self {
            ReleaseStep::Exit => ReleaseVerdict::Exit,
            ReleaseStep::Done(outcome) => ReleaseVerdict::Done(error::settled(outcome)),
        }
    }
}

impl RuntimeState {
    /// Asks for a lease of the runtime with these settings. Where the answer is to initialize it,
    /// `complete_initialize` takes the outcome.
    pub fn acquire(&mut self, config: &MemStoreConfig) -> (step: AcquireStep)
        ensures
            (final(self)@, step@) == acquired(old(self)@, config::fingerprint_of(config@)),
            old(self)@.well_formed() ==> final(self)@.well_formed(),
    {
        let wanted = InitFingerprint::from(config);
        match self {
            RuntimeState::Uninitialized => AcquireStep::Initialize,
            RuntimeState::Active { fingerprint, leases } => {
                if !fingerprint.matches(&wanted) {
                    return AcquireStep::Done(
                        Err(
                            MemStoreStoreError::Unavailable(
                                "MemStore runtime is already initialized with different options".to_owned(),
                            ),
                        ),
                    );
                }
                match leases.checked_add(1) {
                    Some(more) => {
                        *leases = more;
                        AcquireStep::Done(Ok(()))
                    },
                    None => AcquireStep::Done(
                        Err(
                            MemStoreStoreError::Internal(
                                "MemStore runtime lease count overflowed".to_owned(),
                            ),
                        ),
                    ),
                }
            },
            RuntimeState::Closed => AcquireStep::Done(
                Err(
                    MemStoreStoreError::Unavailable(
                        "MemStore runtime was permanently closed in this process".to_owned(),
                    ),
                ),
            ),
        }
    }

    /// Takes the status that the native initialization returned.
    pub fn complete_initialize(
        &mut self,
        config: &MemStoreConfig,
        code: CResult,
        serviceable: bool,
    ) -> (outcome: Result<(), MemStoreStoreError>)
        requires
            old(self)@ is Uninitialized,
        ensures
            (final(self)@, error::settled(outcome)) == initialized(
                config::fingerprint_of(config@),
                code,
                serviceable,
            ),
            final(self)@.well_formed(),
    {
        if code != status::RET_MMS_OK {
            return Err(status::map_native_status(code, "initialize", serviceable));
        }
        *self = RuntimeState::Active { fingerprint: InitFingerprint::from(config), leases: 1 };
        Ok(())
    }

    /// Gives a lease back.
    pub fn release(&mut self) -> (step: ReleaseStep)
        ensures
            (final(self)@, step@) == released(old(self)@),
            old(self)@.well_formed() ==> final(self)@.well_formed(),
    {
        match self {
            RuntimeState::Active { leases, .. } => {
                if *leases > 1 {
                    *leases = *leases - 1;
                    return ReleaseStep::Done(Ok(()));
                }
            },
            RuntimeState::Uninitialized => {
                return ReleaseStep::Done(
                    Err(
                        MemStoreStoreError::Internal(
                            "MemStore runtime lease released before initialization".to_owned(),
                        ),
                    ),
                );
            },
            RuntimeState::Closed => return ReleaseStep::Done(Ok(())),
        }
        *self = RuntimeState::Closed;
        ReleaseStep::Exit
    }
}

// Laws.

/// A lease that is granted and given back leaves the runtime as it was.
pub proof fn release_undoes_acquire(state: RuntimeView, wanted: FingerprintView)
    requires
        state.well_formed(),
        state is Active,
        acquired(state, wanted).1 == AcquireVerdict::Done(Ok(())),
    ensures
        released(acquired(state, wanted).0) == (state, ReleaseVerdict::Done(Ok(()))),
{
}

/// The shutdown is final: no request changes a closed runtime, and none gets a lease of it.
pub proof fn closed_is_final(wanted: FingerprintView)
    ensures
        acquired(RuntimeView::Closed, wanted) == (
            RuntimeView::Closed,
            AcquireVerdict::Done(Err(permanently_closed())),
        ),
        released(RuntimeView::Closed) == (RuntimeView::Closed, ReleaseVerdict::Done(Ok(()))),
{
}

/// A failed initialization leaves the runtime uninitialized, so that it can be tried again.
pub proof fn failed_initialization_can_be_repeated(
    wanted: FingerprintView,
    code: CResult,
    serviceable: bool,
)
    requires
        code != status::RET_MMS_OK,
    ensures
        initialized(wanted, code, serviceable).0 == RuntimeView::Uninitialized,
        initialized(wanted, code, serviceable).1 is Err,
        acquired(initialized(wanted, code, serviceable).0, wanted).1 == AcquireVerdict::Initialize,
{
}

/// A runtime is never shared by settings with different fingerprints.
pub proof fn leases_share_one_fingerprint(state: RuntimeView, wanted: FingerprintView)
    requires
        acquired(state, wanted).1 == AcquireVerdict::Done(Ok(())),
    ensures
        state matches RuntimeView::Active { fingerprint, .. } && fingerprint == wanted,
        acquired(state, wanted).0 matches RuntimeView::Active { fingerprint, .. } && fingerprint
            == wanted,
{
}

/// The state after `count` releases.
pub open spec fn after_releases(state: RuntimeView, count: nat) -> RuntimeView
    decreases count,
{
    if count == 0 {
        state
    } else {
        released(after_releases(state, (count - 1) as nat)).0
    }
}

/// With `leases` leases the native runtime is shut down by the release of the last one and by no
/// other.
pub proof fn the_last_release_shuts_down(fingerprint: FingerprintView, leases: nat, count: nat)
    requires
        1 <= leases <= usize::MAX,
    ensures
        count < leases ==> after_releases(
            RuntimeView::Active { fingerprint, leases },
            count,
        ) == (RuntimeView::Active { fingerprint, leases: (leases - count) as nat }),
        count >= leases ==> after_releases(RuntimeView::Active { fingerprint, leases }, count)
            == RuntimeView::Closed,
        released(after_releases(RuntimeView::Active { fingerprint, leases }, count)).1
            is Exit <==> count + 1 == leases,
    decreases count,
{
    if count > 0 {
        the_last_release_shuts_down(fingerprint, leases, (count - 1) as nat);
    }
}

/// A lease is granted exactly by an active runtime that was initialized with the same options and
/// whose leases can be counted. It counts one more then, and nothing changes otherwise.
pub proof fn only_an_active_runtime_grants_leases(state: RuntimeView, wanted: FingerprintView)
    ensures
        ({
            let (after, verdict) = acquired(state, wanted);
            match state {
                RuntimeView::Uninitialized => verdict == AcquireVerdict::Initialize && after
                    == state,
                RuntimeView::Active { fingerprint, leases } => {
                    &&& verdict == AcquireVerdict::Done(Ok(())) <==> fingerprint == wanted
                        && leases != usize::MAX
                    &&& verdict == AcquireVerdict::Done(Ok(())) ==> after == (
                    RuntimeView::Active { fingerprint, leases: leases + 1 })
                    &&& verdict != AcquireVerdict::Done(Ok(())) ==> after == state
                    &&& fingerprint != wanted ==> (verdict matches AcquireVerdict::Done(
                        Err(failure),
                    ) && failure.kind == ErrorKind::Unavailable)
                    &&& fingerprint == wanted && leases == usize::MAX ==> (
                    verdict matches AcquireVerdict::Done(Err(failure)) && failure.kind
                        == ErrorKind::Internal)
                },
                RuntimeView::Closed => {
                    &&& after == state
                    &&& verdict matches AcquireVerdict::Done(Err(failure))
                    &&& failure.kind == ErrorKind::Unavailable
                },
            }
        }),
{
}

/// An initialization succeeds exactly with status 0. It leaves one lease, with the options that
/// were wanted.
pub proof fn only_status_zero_initializes(
    wanted: FingerprintView,
    code: CResult,
    serviceable: bool,
)
    ensures
        ({
            let (after, outcome) = initialized(wanted, code, serviceable);
            &&& outcome is Ok <==> code == 0
            &&& code == 0 ==> after == (RuntimeView::Active { fingerprint: wanted, leases: 1 })
            &&& code != 0 ==> after == RuntimeView::Uninitialized
            &&& code != 0 ==> outcome == Err::<(), Failure>(
                status::status_failure(code, "initialize"@, serviceable),
            )
        }),
{
}

/// A release before any lease is an internal error and changes nothing.
pub proof fn a_release_needs_a_lease()
    ensures
        released(RuntimeView::Uninitialized).0 == RuntimeView::Uninitialized,
        released(RuntimeView::Uninitialized).1 matches ReleaseVerdict::Done(Err(failure))
            && failure.kind == ErrorKind::Internal,
{
}

/// The state and what is to be done are seen as they are.
pub proof fn the_runtime_is_seen_whole(
    fingerprint: InitFingerprint,
    leases: usize,
    outcome: Result<(), MemStoreStoreError>,
)
    ensures
        RuntimeState::Uninitialized@ == RuntimeView::Uninitialized,
        RuntimeState::Closed@ == RuntimeView::Closed,
        (RuntimeState::Active { fingerprint, leases })@ == (RuntimeView::Active {
            fingerprint: fingerprint@,
            leases: leases as nat,
        }),
        AcquireStep::Initialize@ == AcquireVerdict::Initialize,
        ReleaseStep::Exit@ == ReleaseVerdict::Exit,
        outcome is Ok ==> AcquireStep::Done(outcome)@ == AcquireVerdict::Done(Ok(())),
        outcome is Ok ==> ReleaseStep::Done(outcome)@ == ReleaseVerdict::Done(Ok(())),
        outcome matches Err(error) ==> AcquireStep::Done(outcome)@ == AcquireVerdict::Done(
            Err(error@),
        ),
        outcome matches Err(error) ==> ReleaseStep::Done(outcome)@ == ReleaseVerdict::Done(
            Err(error@),
        ),
{
}

} // verus!
