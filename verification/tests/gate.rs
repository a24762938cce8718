use queued_build_hook::gate::{Gate, PARK_TIMEOUT, REASON_MANUAL, REASON_METERED};

#[test]
fn blocked_tracks_any_reason() {
    let mut g = Gate::new();
    assert!(!g.blocked());
    g.set(REASON_METERED, true);
    assert!(g.blocked());
    assert!(g.has(REASON_METERED));
    assert!(!g.has(REASON_MANUAL));
    // A second reason keeps it blocked until BOTH clear.
    g.set(REASON_MANUAL, true);
    g.set(REASON_METERED, false);
    assert!(g.blocked());
    g.set(REASON_MANUAL, false);
    assert!(!g.blocked());
}

#[test]
fn wait_returns_immediately_when_unblocked() {
    let g = Gate::new();
    assert!(g.wait_while_blocked(|| false).is_none());
}

#[test]
fn wait_returns_when_should_stop() {
    let mut g = Gate::new();
    g.set(REASON_MANUAL, true);
    // Blocked, but should_stop short-circuits the park.
    assert!(g.wait_while_blocked(|| true).is_none());
}

#[test]
fn wait_parks_while_blocked() {
    let mut g = Gate::new();
    g.set(REASON_METERED, true);
    assert_eq!(g.wait_while_blocked(|| false), Some(PARK_TIMEOUT));
    assert_eq!(PARK_TIMEOUT, 1_000_000_000);
}

#[test]
fn redundant_updates_wake_nobody() {
    let mut g = Gate::new();
    g.set(REASON_MANUAL, true);
    assert_eq!(g.wakeups, 1);
    g.set(REASON_MANUAL, true);
    assert_eq!(g.wakeups, 1);
    g.set(REASON_METERED, false);
    assert_eq!(g.wakeups, 1);
    g.set(REASON_MANUAL, false);
    assert_eq!(g.wakeups, 2);
}

#[test]
fn notify_all_wakes_and_changes_no_reason() {
    let mut g = Gate { reasons: REASON_METERED, wakeups: u64::MAX };
    g.notify_all();
    assert_eq!(g, Gate { reasons: REASON_METERED, wakeups: 0 });
}

#[test]
fn updates_of_two_sources_are_both_kept() {
    let mut a = Gate::new();
    a.set(REASON_METERED, true);
    a.set(REASON_MANUAL, true);
    a.set(REASON_METERED, false);
    let mut b = Gate::new();
    b.set(REASON_MANUAL, true);
    b.set(REASON_METERED, true);
    b.set(REASON_METERED, false);
    assert_eq!(a.reasons, b.reasons);
    assert_eq!(a.reasons, REASON_MANUAL);
}
