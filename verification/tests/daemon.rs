use std::path::PathBuf;

use queued_build_hook::clock::NANOS_PER_SEC;
use queued_build_hook::daemon::{handle_connection, process, DaemonOpts, SocketKind, State};
use queued_build_hook::gate::{REASON_MANUAL, REASON_METERED};
use queued_build_hook::metrics::{CompletedBatch, RunningBatch};
use queued_build_hook::protocol::{BatchAverage, Request, Response, StatusReport};

fn opts(retries: u32, concurrency: usize, pause_on_metered: bool) -> DaemonOpts {
    DaemonOpts {
        hook: PathBuf::from("/bin/true"),
        socket: PathBuf::from("./pusher.sock"),
        control_socket: None,
        concurrency,
        retries,
        retry_interval: 0,
        pause_on_metered,
    }
}

fn test_state() -> State {
    State::new(opts(1, 1, false), 0)
}

fn enqueue(paths: &[&str]) -> Request {
    Request::Enqueue {
        drv_path: None,
        out_paths: paths.iter().map(|p| p.to_string()).collect(),
    }
}

fn report(state: &mut State, kind: SocketKind, now: u64) -> StatusReport {
    match process(Request::Status, state, kind, now) {
        Response::Status(s) => s,
        other => panic!("expected Status, got {other:?}"),
    }
}

fn seconds(mean: BatchAverage) -> f64 {
    mean.total_nanos as f64 / 1e9 / mean.batches as f64
}

fn message(resp: Response) -> String {
    match resp {
        Response::Error { message } => message,
        other => panic!("expected Error, got {other:?}"),
    }
}

#[test]
fn enqueue_pushes_and_acks() {
    let mut state = test_state();
    let resp = process(
        Request::Enqueue {
            drv_path: None,
            out_paths: vec!["/nix/store/abc".into()],
        },
        &mut state,
        SocketKind::Full,
        0,
    );
    assert!(matches!(resp, Response::Ack));
    assert_eq!(state.queue.len(), 1);
}

#[test]
fn enqueue_is_rejected_on_the_control_socket() {
    let mut state = test_state();
    let resp = process(
        Request::Enqueue {
            drv_path: None,
            out_paths: vec!["/nix/store/abc".into()],
        },
        &mut state,
        SocketKind::ControlOnly,
        0,
    );
    assert!(matches!(resp, Response::Error { .. }));
    assert_eq!(state.queue.len(), 0);
    assert_eq!(message(resp), "enqueue not permitted on the control socket");
}

#[test]
fn enqueue_with_empty_paths_returns_error() {
    let mut state = test_state();
    let resp = process(
        Request::Enqueue {
            drv_path: None,
            out_paths: vec![],
        },
        &mut state,
        SocketKind::Full,
        0,
    );
    assert!(matches!(resp, Response::Error { .. }));
    assert_eq!(state.queue.len(), 0);
    assert_eq!(message(resp), "out_paths must not be empty");
}

#[test]
fn status_returns_zero_state_for_fresh_daemon() {
    let mut state = test_state();
    let resp = process(Request::Status, &mut state, SocketKind::Full, 0);
    match resp {
        Response::Status(s) => {
            assert_eq!(s.queue_depth, 0);
            assert_eq!(s.in_flight, 0);
            assert_eq!(s.processed_total, 0);
            assert_eq!(s.failed_total, 0);
            // No batches yet → fields stay None rather than guess values.
            assert!(s.avg_batch_seconds.is_none());
            assert!(s.current_batch.is_none());
            assert!(s.last_completed.is_none());
            assert!(!s.paused);
        }
        other => panic!("expected Status, got {other:?}"),
    }
}

#[test]
fn pause_and_resume_toggle_manual_gate_and_status() {
    let mut state = test_state();
    assert!(!state.gate.blocked());

    assert!(matches!(
        process(Request::Pause, &mut state, SocketKind::ControlOnly, 0),
        Response::Ack
    ));
    assert!(state.gate.has(REASON_MANUAL));
    match process(Request::Status, &mut state, SocketKind::ControlOnly, 0) {
        Response::Status(s) => assert!(s.paused),
        other => panic!("expected Status, got {other:?}"),
    }

    // Idempotent: a second pause stays paused.
    assert!(matches!(
        process(Request::Pause, &mut state, SocketKind::ControlOnly, 0),
        Response::Ack
    ));
    assert!(state.gate.has(REASON_MANUAL));

    assert!(matches!(
        process(Request::Resume, &mut state, SocketKind::ControlOnly, 0),
        Response::Ack
    ));
    assert!(!state.gate.blocked());
    match process(Request::Status, &mut state, SocketKind::ControlOnly, 0) {
        Response::Status(s) => assert!(!s.paused),
        other => panic!("expected Status, got {other:?}"),
    }
}

#[test]
fn status_reflects_recent_batches_after_completions() {
    let mut state = test_state();
    // Seed one running and one completed batch directly.
    state.metrics.current = Some(RunningBatch {
        drv_path: Some("/nix/store/cur.drv".into()),
        paths_count: 2,
        closure_bytes: Some(4096),
        started: 0,
    });
    let done = CompletedBatch {
        drv_path: Some("/nix/store/done.drv".into()),
        paths_count: 1,
        closure_bytes: Some(2048),
        duration: 7 * NANOS_PER_SEC,
        completed: 0,
    };
    state.metrics.rolling.push_back(done.copy());
    state.metrics.last_completed = Some(done);
    match process(Request::Status, &mut state, SocketKind::Full, 0) {
        Response::Status(s) => {
            assert_eq!(s.avg_batch_seconds.map(seconds), Some(7.0));
            let cur = s.current_batch.expect("current_batch present");
            assert_eq!(cur.paths_count, 2);
            assert_eq!(cur.closure_bytes, Some(4096));
            let last = s.last_completed.expect("last_completed present");
            assert_eq!(last.duration_seconds, 7);
            assert_eq!(last.closure_bytes, Some(2048));
        }
        other => panic!("expected Status, got {other:?}"),
    }
}

#[test]
fn status_times_are_whole_seconds_and_never_negative() {
    let mut state = State::new(opts(1, 1, false), 5 * NANOS_PER_SEC);
    state.metrics.current = Some(RunningBatch {
        drv_path: Some("/nix/store/cur.drv".into()),
        paths_count: 2,
        closure_bytes: None,
        started: 7 * NANOS_PER_SEC,
    });
    state.metrics.last_completed = Some(CompletedBatch {
        drv_path: None,
        paths_count: 3,
        closure_bytes: None,
        duration: 2_999_999_999,
        completed: 6 * NANOS_PER_SEC,
    });
    let s = report(&mut state, SocketKind::Full, 9 * NANOS_PER_SEC - 1);
    assert_eq!(s.uptime_seconds, 3);
    let cur = s.current_batch.unwrap();
    assert_eq!(cur.drv_path.as_deref(), Some("/nix/store/cur.drv"));
    assert_eq!(cur.started_seconds_ago, 1);
    let last = s.last_completed.unwrap();
    assert_eq!(last.duration_seconds, 2);
    assert_eq!(last.completed_seconds_ago, 2);
    assert_eq!(last.paths_count, 3);

    let early = report(&mut state, SocketKind::Full, 0);
    assert_eq!(early.uptime_seconds, 0);
    assert_eq!(early.current_batch.unwrap().started_seconds_ago, 0);
}

#[test]
fn attempts_and_workers_are_at_least_one() {
    assert_eq!(State::new(opts(0, 0, false), 0).retries, 1);
    assert_eq!(State::new(opts(3, 0, false), 0).retries, 3);
    assert_eq!(opts(0, 0, false).worker_count(), 1);
    assert_eq!(opts(0, 4, false).worker_count(), 4);
}

#[test]
fn network_is_reported_only_when_watched() {
    let mut unwatched = test_state();
    assert!(report(&mut unwatched, SocketKind::Full, 0).network.is_none());

    let mut watched = State::new(opts(1, 1, true), 0);
    watched.gate.set(REASON_METERED, true);
    let network = report(&mut watched, SocketKind::ControlOnly, 0).network.unwrap();
    assert!(!network.nm_available);
    assert!(network.metered);
}

#[test]
fn resume_does_not_lift_a_metered_pause() {
    let mut state = test_state();
    state.gate.set(REASON_METERED, true);
    process(Request::Pause, &mut state, SocketKind::Full, 0);
    process(Request::Resume, &mut state, SocketKind::Full, 0);
    assert!(state.gate.blocked());
    assert!(state.gate.has(REASON_METERED));
    assert!(!report(&mut state, SocketKind::Full, 0).paused);
}

#[test]
fn resume_undoes_pause() {
    let mut state = test_state();
    state.gate.set(REASON_METERED, true);
    let before = state.gate.reasons;
    process(Request::Pause, &mut state, SocketKind::Full, 0);
    assert_ne!(state.gate.reasons, before);
    process(Request::Resume, &mut state, SocketKind::Full, 0);
    assert_eq!(state.gate.reasons, before);
}

#[test]
fn paused_daemon_keeps_accepting() {
    let mut state = test_state();
    process(Request::Pause, &mut state, SocketKind::Full, 0);
    let resp = process(enqueue(&["/nix/store/a"]), &mut state, SocketKind::Full, 0);
    assert!(matches!(resp, Response::Ack));
    assert_eq!(report(&mut state, SocketKind::Full, 0).queue_depth, 1);
}

#[test]
fn requests_keep_the_order_of_the_queue() {
    let mut state = test_state();
    for path in ["/nix/store/a", "/nix/store/b", "/nix/store/c"] {
        process(enqueue(&[path]), &mut state, SocketKind::Full, 0);
        process(Request::Pause, &mut state, SocketKind::Full, 0);
        process(enqueue(&[path]), &mut state, SocketKind::ControlOnly, 0);
        process(Request::Status, &mut state, SocketKind::Full, 0);
    }
    let queued: Vec<&str> = state.queue.iter().map(|j| j.out_paths[0].as_str()).collect();
    assert_eq!(queued, vec!["/nix/store/a", "/nix/store/b", "/nix/store/c"]);
}

#[test]
fn enqueue_wakes_a_waiting_worker_and_a_refusal_does_not() {
    let mut state = test_state();
    process(enqueue(&[]), &mut state, SocketKind::Full, 0);
    process(enqueue(&["/nix/store/a"]), &mut state, SocketKind::ControlOnly, 0);
    assert_eq!(state.queue_wakeups, 0);
    process(enqueue(&["/nix/store/a"]), &mut state, SocketKind::Full, 0);
    assert_eq!(state.queue_wakeups, 1);
    state.wake_all();
    assert_eq!(state.queue_wakeups, 2);
    assert_eq!(state.gate.wakeups, 1);
    assert!(!state.gate.blocked());
}

#[test]
fn unreadable_request_is_answered_with_an_error() {
    let mut state = test_state();
    let resp = handle_connection(Err("empty request".into()), &mut state, SocketKind::Full, 0);
    assert_eq!(message(resp), "decode: empty request");
    let resp = handle_connection(Ok(enqueue(&["/nix/store/a"])), &mut state, SocketKind::Full, 0);
    assert!(matches!(resp, Response::Ack));
    assert_eq!(state.queue.len(), 1);
}

#[test]
fn hooks_abort_on_pause_and_shutdown() {
    let mut state = test_state();
    assert!(!state.should_cancel(false));
    assert!(state.should_cancel(true));
    process(Request::Pause, &mut state, SocketKind::Full, 0);
    assert!(state.should_cancel(false));
}
