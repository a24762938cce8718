use queued_build_hook::gate::{Gate, REASON_MANUAL, REASON_METERED};
use queued_build_hook::network_state::{
    is_metered_value, NetworkState, Notice, WatchEvent, WatchReport, Watcher, NM_IFACE,
};

fn changed(interface: &str, metered: Option<u32>) -> WatchEvent {
    WatchEvent::Changed { interface: interface.into(), metered }
}

#[test]
fn yes_and_guessed_yes_are_metered() {
    let metered: Vec<u32> = (0..10).filter(|v| is_metered_value(*v)).collect();
    assert_eq!(metered, vec![1, 3]);
    assert!(!is_metered_value(u32::MAX));
}

#[test]
fn metered_flag_lives_in_the_shared_gate() {
    let mut gate = Gate::new();
    let network = NetworkState::new();
    assert!(!network.is_available());
    assert!(!network.is_metered(&gate));
    assert!(network.set_metered(&mut gate, true));
    assert!(!network.set_metered(&mut gate, true));
    assert!(network.is_metered(&gate));
    assert!(gate.has(REASON_METERED));
}

#[test]
fn watcher_follows_the_property() {
    let mut gate = Gate::new();
    let mut network = NetworkState::new();
    let mut watcher = Watcher::new();

    let report = watcher.step(&mut network, &mut gate, WatchEvent::Reached(1));
    assert_eq!(
        report,
        WatchReport { metered_changed: true, notice: Notice::Available, reconnect_after: None }
    );
    assert!(network.is_available());
    assert!(gate.has(REASON_METERED));

    // Another interface, or no number: nothing to react to.
    watcher.step(&mut network, &mut gate, changed("org.freedesktop.DBus", Some(2)));
    watcher.step(&mut network, &mut gate, changed(NM_IFACE, None));
    assert!(gate.has(REASON_METERED));

    let report = watcher.step(&mut network, &mut gate, changed(NM_IFACE, Some(4)));
    assert!(report.metered_changed);
    assert_eq!(report.notice, Notice::Silent);
    assert!(!gate.blocked());
}

#[test]
fn losing_network_manager_fails_open() {
    for event in [WatchEvent::Ended, WatchEvent::Failed] {
        let mut gate = Gate::new();
        let mut network = NetworkState::new();
        let mut watcher = Watcher::new();
        gate.set(REASON_MANUAL, true);
        watcher.step(&mut network, &mut gate, WatchEvent::Reached(3));
        assert!(gate.has(REASON_METERED));
        let report = watcher.step(&mut network, &mut gate, event);
        assert!(report.metered_changed);
        assert!(!network.is_available());
        assert!(!gate.has(REASON_METERED));
        assert!(gate.has(REASON_MANUAL));
        assert_eq!(report.reconnect_after, Some(1));
    }
}

#[test]
fn reconnects_back_off_and_start_anew_after_a_stream() {
    let mut gate = Gate::new();
    let mut network = NetworkState::new();
    let mut watcher = Watcher::new();
    let waits: Vec<u64> = (0..8)
        .map(|_| {
            watcher.step(&mut network, &mut gate, WatchEvent::Failed).reconnect_after.unwrap()
        })
        .collect();
    assert_eq!(waits, vec![1, 2, 4, 8, 16, 30, 30, 30]);
    let report = watcher.step(&mut network, &mut gate, WatchEvent::Ended);
    assert_eq!(report.notice, Notice::Reconnecting);
    assert_eq!(report.reconnect_after, Some(1));
    let report = watcher.step(&mut network, &mut gate, WatchEvent::Failed);
    assert_eq!(report.reconnect_after, Some(2));
}

#[test]
fn unreachable_is_announced_once() {
    let mut gate = Gate::new();
    let mut network = NetworkState::new();
    let mut watcher = Watcher::new();
    let notices: Vec<Notice> = (0..3)
        .map(|_| watcher.step(&mut network, &mut gate, WatchEvent::Failed).notice)
        .collect();
    assert_eq!(
        notices,
        vec![Notice::Unreachable, Notice::StillUnreachable, Notice::StillUnreachable]
    );
}
