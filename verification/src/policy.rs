//! What a driver does when a step fails, and how long it waits before it
//! tries again.

use vstd::prelude::*;

verus! {

/// The causes of failure that a driver meets.
#[derive(Clone, Copy, Debug, PartialEq, Eq, Structural)]
pub enum ErrorKind {
    /// A machine of an unregistered module was offered for admission.
    AdmissionRejected,
    /// A persisted state names a module that has no decoder.
    DecoderMissing,
    /// A state's encoding is not read back as the state.
    EncodingFailure,
    /// A transition function aborted.
    TransitionPanicked,
    /// The commit lost against a conflicting writer.
    CommitConflict,
    /// A trigger failed instead of yielding a value.
    TriggerFailed,
    /// The cancellation token fired while a trigger was awaited.
    TriggerCancelled,
    /// The executor is stopping.
    Shutdown,
}

/// What follows a failure.
#[derive(Clone, Copy, Debug, PartialEq, Eq, Structural)]
pub enum Policy {
    /// The caller is told; nothing changed.
    Report,
    /// The executor cannot go on.
    Fatal,
    /// The machine is left as it is and not driven.
    SkipMachine,
    /// The transaction is rolled back, the failure is logged, the machine
    /// ends and is not tried again.
    FailMachine,
    /// The whole cycle is run again after a backoff.
    RetryCycle,
    /// The triggers are raced again after a backoff.
    RaceAgain,
    /// The driver ends without writing.
    ExitDriver,
    /// The driver finishes the commit it is in, or aborts it, and ends.
    Drain,
}

/// The policy for each cause of failure; `strict` says whether a missing
/// decoder stops the executor.
pub open spec fn policy_of(kind: ErrorKind, strict: bool) -> Policy {
    match kind {
        ErrorKind::AdmissionRejected => Policy::Report,
        ErrorKind::DecoderMissing => if strict {
            Policy::Fatal
        } else {
            Policy::SkipMachine
        },
        ErrorKind::EncodingFailure => Policy::Fatal,
        ErrorKind::TransitionPanicked => Policy::FailMachine,
        ErrorKind::CommitConflict => Policy::RetryCycle,
        ErrorKind::TriggerFailed => Policy::RaceAgain,
        ErrorKind::TriggerCancelled => Policy::ExitDriver,
        ErrorKind::Shutdown => Policy::Drain,
    }
}

/// Decides what follows a failure.
pub fn policy_for(kind: ErrorKind, strict: bool) -> (policy: Policy)
    ensures
        policy == policy_of(kind, strict),
{
    match kind {
        ErrorKind::AdmissionRejected => Policy::Report,
        ErrorKind::DecoderMissing => if strict {
            Policy::Fatal
        } else {
            Policy::SkipMachine
        },
        ErrorKind::EncodingFailure => Policy::Fatal,
        ErrorKind::TransitionPanicked => Policy::FailMachine,
        ErrorKind::CommitConflict => Policy::RetryCycle,
        ErrorKind::TriggerFailed => Policy::RaceAgain,
        ErrorKind::TriggerCancelled => Policy::ExitDriver,
        ErrorKind::Shutdown => Policy::Drain,
    }
}

/// The first delay, in milliseconds.
pub const BACKOFF_INITIAL_MS: u64 = 1_000;

/// The longest delay before jitter, in milliseconds.
pub const BACKOFF_CAP_MS: u64 = 30_000;

/// The delay before the retry that follows `attempt` failed tries, in
/// milliseconds and before jitter: one second at first, doubled with each
/// try, and thirty seconds at most.
pub open spec fn backoff_ms(attempt: nat) -> nat
    decreases attempt,
{
    if attempt == 0 {
        BACKOFF_INITIAL_MS as nat
    } else {
        let doubled = 2 * backoff_ms((attempt - 1) as nat);
        if doubled > BACKOFF_CAP_MS {
            BACKOFF_CAP_MS as nat
        } else {
            doubled
        }
    }
}

/// A delay lies between one and thirty seconds and never shrinks from one
/// try to the next.
pub proof fn lemma_backoff_bounds(attempt: nat)
    ensures
        BACKOFF_INITIAL_MS <= backoff_ms(attempt) <= BACKOFF_CAP_MS,
        backoff_ms(attempt) <= backoff_ms(attempt + 1),
    decreases attempt,
{
    if attempt > 0 {
        lemma_backoff_bounds((attempt - 1) as nat);
    }
}

/// Once the delay has reached its cap it stays there.
pub proof fn lemma_backoff_capped(reached: nat, attempt: nat)
    requires
        backoff_ms(reached) == BACKOFF_CAP_MS,
        reached <= attempt,
    ensures
        backoff_ms(attempt) == BACKOFF_CAP_MS,
    decreases attempt,
{
    if reached < attempt {
        lemma_backoff_capped(reached, (attempt - 1) as nat);
    }
}

/// Computes the delay before the retry that follows `attempt` failed tries.
pub fn backoff_delay_ms(attempt: u32) -> (delay: u64)
    ensures
        delay == backoff_ms(attempt as nat),
{
    let mut delay: u64 = BACKOFF_INITIAL_MS;
    let mut i: u32 = 0;
    while i < attempt && delay < BACKOFF_CAP_MS
        invariant
            i <= attempt,
            delay == backoff_ms(i as nat),
            delay <= BACKOFF_CAP_MS,
        decreases attempt - i,
    {
        delay = if delay * 2 > BACKOFF_CAP_MS {
            BACKOFF_CAP_MS
        } else {
            delay * 2
        };
        i += 1;
    }
    proof {
        if i < attempt {
            lemma_backoff_capped(i as nat, attempt as nat);
        }
    }
    delay
}

/// The delay with its jitter: `roll` picks, evenly, one of the delays from
/// a quarter below `base` to a quarter above it.
pub open spec fn jittered_ms(base: nat, roll: nat) -> nat {
    (base - base / 4 + roll % (2 * (base / 4) + 1)) as nat
}

/// Spreads a delay by up to a quarter to either side. `roll` is a random
/// number of the caller's.
pub fn jittered_delay_ms(base: u64, roll: u64) -> (delay: u64)
    requires
        base <= BACKOFF_CAP_MS,
    ensures
        delay == jittered_ms(base as nat, roll as nat),
        base - base / 4 <= delay <= base + base / 4,
{
    let quarter: u64 = base / 4;
    base - quarter + roll % (2 * quarter + 1)
}

} // verus!
