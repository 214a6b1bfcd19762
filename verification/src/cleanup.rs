//! The bounded cleanup cascade run on quit, Ctrl-C and exit requests:
//!
//! ```text
//! 10s outer (whole cleanup)
//!   ├── 3s shutdown hook (the connector's graceful stop, runs first)
//!   └── 3s kill of the tracked processes
//! ```
//!
//! The decisions of the cascade are a state machine: the caller performs
//! each action (with its time budget) and reports how it ended.

use vstd::prelude::*;

verus! {

/// Budget of the whole cascade, in seconds.
pub const OUTER_TIMEOUT: u64 = 10;

/// Budget of the shutdown hook, in seconds.
pub const HOOK_TIMEOUT: u64 = 3;

/// Budget of killing the tracked processes, in seconds.
pub const KILL_TIMEOUT: u64 = 3;

/// The shutdown hook that does nothing, registered when the connector
/// brings none of its own.
#[derive(Debug, Clone, Copy)]
pub struct NoopShutdownHook;

/// Where the cascade stands.
#[derive(Debug, Clone, Copy, PartialEq, Eq, Structural)]
pub enum CleanupStage {
    /// Not started.
    Idle,
    /// The shutdown hook is running.
    Hook,
    /// The tracked processes are being killed.
    Kill,
    /// Finished; a new run may start.
    Done,
}

/// What the caller reports.
#[derive(Debug, Clone, Copy, PartialEq, Eq, Structural)]
pub enum CleanupEvent {
    /// A run is asked for; whether a shutdown hook is registered.
    Start { hook_registered: bool },
    /// The hook returned or used up its budget.
    HookEnded,
    /// The kill step returned or used up its budget.
    KillEnded,
    /// The outer budget ran out.
    OuterTimeout,
}

/// What the caller does next.
#[derive(Debug, Clone, Copy, PartialEq, Eq, Structural)]
pub enum CleanupAction {
    /// Run the shutdown hook for at most `budget_secs`.
    RunHook { budget_secs: u64 },
    /// Kill every tracked process, for at most `budget_secs`;
    /// `hook_skipped` when there was no hook to run (worth a warning).
    KillTracked { budget_secs: u64, hook_skipped: bool },
    /// The cascade is over; `timed_out` when the outer budget ran out
    /// (worth an error line).
    Finish { timed_out: bool },
    /// Nothing to do for this event.
    Wait,
}

/// The transition table of the cascade.
pub open spec fn cleanup_next(stage: CleanupStage, event: CleanupEvent) -> (CleanupStage, CleanupAction) {
    match (stage, event) {
        (CleanupStage::Idle, CleanupEvent::Start { hook_registered })
        | (CleanupStage::Done, CleanupEvent::Start { hook_registered }) => if hook_registered {
            (CleanupStage::Hook, CleanupAction::RunHook { budget_secs: HOOK_TIMEOUT })
        } else {
            (CleanupStage::Kill, CleanupAction::KillTracked { budget_secs: KILL_TIMEOUT, hook_skipped: true })
        },
        (CleanupStage::Hook, CleanupEvent::HookEnded) => (
            CleanupStage::Kill,
            CleanupAction::KillTracked { budget_secs: KILL_TIMEOUT, hook_skipped: false },
        ),
        (CleanupStage::Kill, CleanupEvent::KillEnded) => (CleanupStage::Done, CleanupAction::Finish { timed_out: false }),
        (CleanupStage::Hook, CleanupEvent::OuterTimeout) | (CleanupStage::Kill, CleanupEvent::OuterTimeout) => (
            CleanupStage::Done,
            CleanupAction::Finish { timed_out: true },
        ),
        _ => (stage, CleanupAction::Wait),
    }
}

/// The next stage of the cascade and what to do, given what happened.
pub fn cleanup_step(stage: CleanupStage, event: CleanupEvent) -> (r: (CleanupStage, CleanupAction))
    ensures
        r == cleanup_next(stage, event),
{
    match (stage, event) {
        (CleanupStage::Idle, CleanupEvent::Start { hook_registered })
        | (CleanupStage::Done, CleanupEvent::Start { hook_registered }) => if hook_registered {
            (CleanupStage::Hook, CleanupAction::RunHook { budget_secs: HOOK_TIMEOUT })
        } else {
            (CleanupStage::Kill, CleanupAction::KillTracked { budget_secs: KILL_TIMEOUT, hook_skipped: true })
        },
        (CleanupStage::Hook, CleanupEvent::HookEnded) => (
            CleanupStage::Kill,
            CleanupAction::KillTracked { budget_secs: KILL_TIMEOUT, hook_skipped: false },
        ),
        (CleanupStage::Kill, CleanupEvent::KillEnded) => (CleanupStage::Done, CleanupAction::Finish { timed_out: false }),
        (CleanupStage::Hook, CleanupEvent::OuterTimeout) | (CleanupStage::Kill, CleanupEvent::OuterTimeout) => (
            CleanupStage::Done,
            CleanupAction::Finish { timed_out: true },
        ),
        _ => (stage, CleanupAction::Wait),
    }
}

/// The hook and the kill step together fit in the outer budget.
pub proof fn lemma_budgets_fit()
    ensures
        HOOK_TIMEOUT + KILL_TIMEOUT <= OUTER_TIMEOUT,
{
}

/// A run, started from rest, runs the hook first when one is registered,
/// then kills the tracked processes, then finishes; without a hook it
/// goes straight to the kill step. A finished cascade starts over the
/// same way.
pub proof fn lemma_cascade_order(from: CleanupStage, hook_registered: bool)
    requires
        from == CleanupStage::Idle || from == CleanupStage::Done,
    ensures
        hook_registered ==> cleanup_next(from, CleanupEvent::Start { hook_registered }) == (
            CleanupStage::Hook,
            CleanupAction::RunHook { budget_secs: HOOK_TIMEOUT },
        ),
        !hook_registered ==> cleanup_next(from, CleanupEvent::Start { hook_registered }) == (
            CleanupStage::Kill,
            CleanupAction::KillTracked { budget_secs: KILL_TIMEOUT, hook_skipped: true },
        ),
        cleanup_next(CleanupStage::Hook, CleanupEvent::HookEnded) == (
            CleanupStage::Kill,
            CleanupAction::KillTracked { budget_secs: KILL_TIMEOUT, hook_skipped: false },
        ),
        cleanup_next(CleanupStage::Kill, CleanupEvent::KillEnded) == (
            CleanupStage::Done,
            CleanupAction::Finish { timed_out: false },
        ),
{
}

/// The outer timeout ends a running cascade at once; nothing else ends
/// it before the kill step has ended.
pub proof fn lemma_cascade_ends(stage: CleanupStage, event: CleanupEvent)
    ensures
        (stage == CleanupStage::Hook || stage == CleanupStage::Kill) && event == CleanupEvent::OuterTimeout
            ==> cleanup_next(stage, event) == (CleanupStage::Done, CleanupAction::Finish { timed_out: true }),
        stage != CleanupStage::Done && cleanup_next(stage, event).0 == CleanupStage::Done ==> (
        event == CleanupEvent::OuterTimeout || (stage == CleanupStage::Kill && event
            == CleanupEvent::KillEnded)),
        cleanup_next(stage, event).1 is KillTracked ==> cleanup_next(stage, event).0 == CleanupStage::Kill,
{
}

} // verus!
