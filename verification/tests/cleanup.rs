//! The cleanup cascade: its budgets and the order of its steps.

use std::time::Duration;

use tauri_shell::cleanup::{
    cleanup_step, CleanupAction, CleanupEvent, CleanupStage, NoopShutdownHook, HOOK_TIMEOUT,
    KILL_TIMEOUT, OUTER_TIMEOUT,
};

#[test]
fn timeouts_match_spec() {
    // Sanity check: the public constants haven't drifted from the spec.
    assert_eq!(Duration::from_secs(OUTER_TIMEOUT), Duration::from_secs(10));
    assert_eq!(Duration::from_secs(HOOK_TIMEOUT), Duration::from_secs(3));
    assert_eq!(Duration::from_secs(KILL_TIMEOUT), Duration::from_secs(3));
}

#[test]
fn noop_hook_completes_immediately() {
    let (s, a) = cleanup_step(CleanupStage::Idle, CleanupEvent::Start { hook_registered: true });
    assert_eq!(s, CleanupStage::Hook);
    assert_eq!(a, CleanupAction::RunHook { budget_secs: 3 });
    let (s, a) = cleanup_step(s, CleanupEvent::HookEnded);
    assert_eq!(s, CleanupStage::Kill);
    assert_eq!(a, CleanupAction::KillTracked { budget_secs: 3, hook_skipped: false });
    let (s, a) = cleanup_step(s, CleanupEvent::KillEnded);
    assert_eq!(s, CleanupStage::Done);
    assert_eq!(a, CleanupAction::Finish { timed_out: false });
}

#[test]
fn cleanup_with_no_hook_still_drains_processes() {
    let _hook = NoopShutdownHook;
    let (s, a) = cleanup_step(CleanupStage::Idle, CleanupEvent::Start { hook_registered: false });
    assert_eq!(s, CleanupStage::Kill);
    assert_eq!(a, CleanupAction::KillTracked { budget_secs: 3, hook_skipped: true });
}

#[test]
fn cleanup_is_idempotent() {
    let (s, a) = cleanup_step(CleanupStage::Done, CleanupEvent::Start { hook_registered: true });
    assert_eq!(s, CleanupStage::Hook);
    assert_eq!(a, CleanupAction::RunHook { budget_secs: 3 });
}

#[test]
fn outer_timeout_finishes_a_running_cascade() {
    for stage in [CleanupStage::Hook, CleanupStage::Kill] {
        let (s, a) = cleanup_step(stage, CleanupEvent::OuterTimeout);
        assert_eq!(s, CleanupStage::Done);
        assert_eq!(a, CleanupAction::Finish { timed_out: true });
    }
    // An out-of-place event changes nothing.
    let (s, a) = cleanup_step(CleanupStage::Idle, CleanupEvent::KillEnded);
    assert_eq!(s, CleanupStage::Idle);
    assert_eq!(a, CleanupAction::Wait);
}
