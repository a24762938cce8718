use queued_build_hook::hook::{
    HookAction, HookEvent, HookOutcome, HookRun, CANCEL_POLL_INTERVAL, TERM_GRACE,
};
use queued_build_hook::terminate::{TermAction, TermEvent, Termination};

const SEC: u64 = 1_000_000_000;

/// Feeds `events` to a fresh run and returns the actions, the first one included.
fn actions(retries: u32, interval: u128, events: &[HookEvent]) -> Vec<HookAction> {
    let (mut run, first) = HookRun::start(retries, interval);
    let mut out = vec![first];
    for event in events {
        let (next, action) = run.step(*event);
        run = next;
        out.push(action);
    }
    out
}

const GO: HookEvent = HookEvent::Begin { cancel: false };
const POLL: HookAction = HookAction::Poll { after: 0 };

#[test]
fn success_ends_the_run() {
    assert_eq!(
        actions(
            3,
            0,
            &[
                GO,
                HookEvent::Spawned,
                HookEvent::Running { cancel: false },
                HookEvent::Exited { success: true, now: 1 },
            ]
        ),
        vec![
            HookAction::CheckCancel,
            HookAction::Spawn,
            POLL,
            HookAction::Poll { after: CANCEL_POLL_INTERVAL },
            HookAction::Finish(HookOutcome::Success),
        ]
    );
}

#[test]
fn run_fails_after_its_last_attempt() {
    assert_eq!(
        actions(
            2,
            30 * SEC as u128,
            &[
                GO,
                HookEvent::SpawnFailed { now: SEC },
                HookEvent::Clock { now: SEC, cancel: false },
                HookEvent::Clock { now: 31 * SEC - 1, cancel: false },
                HookEvent::Clock { now: 31 * SEC, cancel: false },
                GO,
                HookEvent::Spawned,
                HookEvent::Exited { success: false, now: 40 * SEC },
            ]
        ),
        vec![
            HookAction::CheckCancel,
            HookAction::Spawn,
            HookAction::CheckBackoff { after: 0 },
            HookAction::CheckBackoff { after: CANCEL_POLL_INTERVAL },
            HookAction::CheckBackoff { after: CANCEL_POLL_INTERVAL },
            HookAction::CheckCancel,
            HookAction::Spawn,
            POLL,
            HookAction::Finish(HookOutcome::Failed),
        ]
    );
}

#[test]
fn hook_that_cannot_be_waited_for_is_terminated_and_retried() {
    assert_eq!(
        actions(
            2,
            5,
            &[
                GO,
                HookEvent::Spawned,
                HookEvent::WaitFailed,
                HookEvent::Terminated { now: 100 },
                HookEvent::Clock { now: 102, cancel: false },
                HookEvent::Clock { now: 105, cancel: false },
            ]
        ),
        vec![
            HookAction::CheckCancel,
            HookAction::Spawn,
            POLL,
            HookAction::Terminate,
            HookAction::CheckBackoff { after: 0 },
            // A backoff shorter than the usual interval is polled at its end.
            HookAction::CheckBackoff { after: 5 },
            HookAction::CheckCancel,
        ]
    );
}

#[test]
fn cancel_before_an_attempt_spawns_nothing() {
    assert_eq!(
        actions(3, 0, &[HookEvent::Begin { cancel: true }]),
        vec![HookAction::CheckCancel, HookAction::Finish(HookOutcome::Cancelled)]
    );
}

#[test]
fn cancel_in_flight_terminates_the_hook() {
    assert_eq!(
        actions(
            1,
            0,
            &[
                GO,
                HookEvent::Spawned,
                HookEvent::Running { cancel: true },
                HookEvent::Terminated { now: 7 },
            ]
        ),
        vec![
            HookAction::CheckCancel,
            HookAction::Spawn,
            POLL,
            HookAction::Terminate,
            HookAction::Finish(HookOutcome::Cancelled),
        ]
    );
}

#[test]
fn cancel_in_the_backoff_ends_the_run_unless_it_is_over() {
    let early = [
        GO,
        HookEvent::SpawnFailed { now: 0 },
        HookEvent::Clock { now: 9, cancel: true },
    ];
    assert_eq!(
        actions(2, 10, &early).last(),
        Some(&HookAction::Finish(HookOutcome::Cancelled))
    );
    let late = [
        GO,
        HookEvent::SpawnFailed { now: 0 },
        HookEvent::Clock { now: 10, cancel: true },
    ];
    assert_eq!(actions(2, 10, &late).last(), Some(&HookAction::CheckCancel));
}

#[test]
fn backoff_of_any_length_is_kept() {
    let events = [
        GO,
        HookEvent::SpawnFailed { now: u64::MAX },
        HookEvent::Clock { now: u64::MAX, cancel: false },
    ];
    assert_eq!(
        actions(2, u128::MAX, &events).last(),
        Some(&HookAction::CheckBackoff { after: CANCEL_POLL_INTERVAL })
    );
}

#[test]
fn no_attempts_fail_at_once() {
    assert_eq!(actions(0, 0, &[]), vec![HookAction::Finish(HookOutcome::Failed)]);
}

fn term_actions(events: &[TermEvent]) -> Vec<TermAction> {
    let (mut state, first) = Termination::start();
    let mut out = vec![first];
    for event in events {
        let (next, action) = state.step(*event);
        state = next;
        out.push(action);
    }
    out
}

#[test]
fn group_of_a_hook_that_exits_in_its_grace_is_killed_after_it() {
    assert_eq!(
        term_actions(&[
            TermEvent::Signalled { now: SEC },
            TermEvent::Clock { now: SEC },
            TermEvent::Running,
            TermEvent::Clock { now: SEC + 1 },
            TermEvent::Exited,
            TermEvent::Clock { now: SEC + TERM_GRACE - 1 },
            TermEvent::Clock { now: SEC + TERM_GRACE },
            TermEvent::Killed,
        ]),
        vec![
            TermAction::SendTerm,
            TermAction::CheckClock { after: 0 },
            TermAction::Poll,
            TermAction::CheckClock { after: CANCEL_POLL_INTERVAL },
            TermAction::Poll,
            TermAction::CheckClock { after: CANCEL_POLL_INTERVAL },
            TermAction::CheckClock { after: CANCEL_POLL_INTERVAL },
            TermAction::SendKill,
            TermAction::Finish,
        ]
    );
}

#[test]
fn hook_that_outlives_its_grace_is_killed() {
    assert_eq!(
        term_actions(&[
            TermEvent::Signalled { now: SEC },
            TermEvent::Clock { now: SEC + TERM_GRACE },
            TermEvent::Killed,
        ]),
        vec![
            TermAction::SendTerm,
            TermAction::CheckClock { after: 0 },
            TermAction::SendKill,
            TermAction::Finish,
        ]
    );
}

#[test]
fn hook_that_cannot_be_polled_is_killed() {
    assert_eq!(
        term_actions(&[
            TermEvent::Signalled { now: 0 },
            TermEvent::Clock { now: 0 },
            TermEvent::PollFailed,
        ])
        .last(),
        Some(&TermAction::SendKill)
    );
}

#[test]
fn intervals_are_a_tenth_of_a_second_and_two_seconds() {
    assert_eq!(CANCEL_POLL_INTERVAL, SEC / 10);
    assert_eq!(TERM_GRACE, 2 * SEC);
}
