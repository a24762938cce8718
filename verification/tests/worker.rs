use std::path::PathBuf;

use queued_build_hook::daemon::{process, DaemonOpts, Job, SocketKind, State};
use queued_build_hook::gate::{PARK_TIMEOUT, REASON_METERED};
use queued_build_hook::hook::{HookAction, HookEvent, HookOutcome};
use queued_build_hook::network_state::{NetworkState, WatchEvent, Watcher};
use queued_build_hook::protocol::{Request, Response};
use queued_build_hook::worker::{hook_env, run_hook, Worker, WorkerAction, WorkerEvent};

const LOOK: WorkerEvent = WorkerEvent::Woken { shutdown: false, now: 1 };
const LEAVE: WorkerEvent = WorkerEvent::Woken { shutdown: true, now: 1 };

fn state_with(paths: &[&str]) -> State {
    let mut state = State::new(
        DaemonOpts {
            hook: PathBuf::from("/bin/true"),
            socket: PathBuf::from("./pusher.sock"),
            control_socket: None,
            concurrency: 1,
            retries: 2,
            retry_interval: 5,
            pause_on_metered: false,
        },
        0,
    );
    for path in paths {
        let req = Request::Enqueue { drv_path: None, out_paths: vec![path.to_string()] };
        assert!(matches!(process(req, &mut state, SocketKind::Full, 0), Response::Ack));
    }
    state
}

fn running(state: &mut State, worker: Worker, now: u64) -> Worker {
    let (worker, action) = worker.step(state, LOOK);
    assert_eq!(action, WorkerAction::Look);
    let (worker, action) = worker.step(state, LOOK);
    assert_eq!(action, WorkerAction::SizeClosure);
    let (worker, action) =
        worker.step(state, WorkerEvent::Sized { closure_bytes: Some(10), now });
    assert_eq!(action, WorkerAction::RunHook);
    worker
}

fn ended(state: &mut State, worker: Worker, outcome: HookOutcome, now: u64) -> Worker {
    let (worker, action) =
        worker.step(state, WorkerEvent::HookEnded { outcome, now, shutdown: false });
    assert_eq!(action, WorkerAction::Look);
    worker
}

fn job_of(worker: &Worker) -> &str {
    match worker {
        Worker::Parked(job) => &job.out_paths[0],
        Worker::Sizing(batch) | Worker::Running(batch) => &batch.job.out_paths[0],
        other => panic!("no job: {other:?}"),
    }
}

#[test]
fn worker_runs_jobs_in_order_and_counts_them() {
    let mut state = state_with(&["/a", "/b", "/c"]);
    let mut worker = Worker::Idle;
    for (path, outcome) in [
        ("/a", HookOutcome::Success),
        ("/b", HookOutcome::Failed),
        ("/c", HookOutcome::Success),
    ] {
        worker = running(&mut state, worker, 100);
        assert_eq!(job_of(&worker), path);
        assert_eq!(state.in_flight, 1);
        assert_eq!(state.metrics.current.as_ref().unwrap().closure_bytes, Some(10));
        worker = ended(&mut state, worker, outcome, 150);
        assert_eq!(state.in_flight, 0);
        assert!(state.metrics.current.is_none());
    }
    assert_eq!((state.processed_total, state.failed_total), (2, 1));
    assert_eq!(state.metrics.rolling.len(), 2);
    let last = state.metrics.last_completed.as_ref().unwrap();
    assert_eq!((last.duration, last.completed, last.paths_count), (50, 150, 1));
    let (worker, action) = worker.step(&mut state, LOOK);
    assert_eq!(action, WorkerAction::AwaitJob);
    assert!(matches!(worker, Worker::Idle));
}

#[test]
fn paused_worker_parks_with_its_job() {
    let mut state = state_with(&["/a"]);
    process(Request::Pause, &mut state, SocketKind::ControlOnly, 0);
    let (worker, _) = Worker::Idle.step(&mut state, LOOK);
    let (worker, action) = worker.step(&mut state, LOOK);
    assert_eq!(action, WorkerAction::AwaitRelease { at_most: PARK_TIMEOUT });
    assert_eq!(job_of(&worker), "/a");
    assert_eq!((state.queue.len(), state.in_flight), (0, 0));
    process(Request::Resume, &mut state, SocketKind::ControlOnly, 0);
    let (worker, action) = worker.step(&mut state, LOOK);
    assert_eq!(action, WorkerAction::SizeClosure);
    assert_eq!(job_of(&worker), "/a");
}

#[test]
fn cancelled_job_is_requeued_first_and_not_counted() {
    let mut state = state_with(&["/a", "/b"]);
    let worker = running(&mut state, Worker::Idle, 0);
    ended(&mut state, worker, HookOutcome::Cancelled, 9);
    assert_eq!((state.processed_total, state.failed_total), (0, 0));
    assert_eq!(state.metrics.rolling.len(), 0);
    let queued: Vec<&str> = state.queue.iter().map(|j| j.out_paths[0].as_str()).collect();
    assert_eq!(queued, vec!["/a", "/b"]);
}

#[test]
fn pause_cancels_an_upload_and_resume_completes_it() {
    let mut state = state_with(&["/nix/store/fake-aaa"]);
    let worker = running(&mut state, Worker::Idle, 0);
    let (run, action) = run_hook(&state);
    assert_eq!(action, HookAction::CheckCancel);
    let (run, _) = run.step(HookEvent::Begin { cancel: state.should_cancel(false) });
    let (run, _) = run.step(HookEvent::Spawned);

    process(Request::Pause, &mut state, SocketKind::ControlOnly, 0);
    let (run, action) = run.step(HookEvent::Running { cancel: state.should_cancel(false) });
    assert_eq!(action, HookAction::Terminate);
    let (_, action) = run.step(HookEvent::Terminated { now: 1 });
    assert_eq!(action, HookAction::Finish(HookOutcome::Cancelled));
    let worker = ended(&mut state, worker, HookOutcome::Cancelled, 1);

    // The job is taken again and parked, so it shows neither in the queue nor in
    // flight.
    let (worker, _) = worker.step(&mut state, LOOK);
    let (worker, action) = worker.step(&mut state, LOOK);
    assert_eq!(action, WorkerAction::AwaitRelease { at_most: PARK_TIMEOUT });
    match process(Request::Status, &mut state, SocketKind::ControlOnly, 1) {
        Response::Status(s) => {
            assert_eq!((s.queue_depth, s.in_flight), (0, 0));
            assert_eq!((s.processed_total, s.failed_total), (0, 0));
            assert!(s.paused);
        }
        other => panic!("expected Status, got {other:?}"),
    }

    process(Request::Resume, &mut state, SocketKind::ControlOnly, 1);
    let (worker, action) = worker.step(&mut state, LOOK);
    assert_eq!(action, WorkerAction::SizeClosure);
    let (worker, _) =
        worker.step(&mut state, WorkerEvent::Sized { closure_bytes: None, now: 2 });
    ended(&mut state, worker, HookOutcome::Success, 3);
    match process(Request::Status, &mut state, SocketKind::ControlOnly, 3) {
        Response::Status(s) => {
            assert_eq!((s.queue_depth, s.processed_total), (0, 1));
            assert!(!s.paused);
        }
        other => panic!("expected Status, got {other:?}"),
    }
}

#[test]
fn workers_leave_on_shutdown() {
    let mut state = state_with(&[]);
    let (worker, action) = Worker::Idle.step(&mut state, LEAVE);
    assert_eq!(action, WorkerAction::Exit);
    assert!(matches!(worker, Worker::Stopped));

    let mut state = state_with(&["/a"]);
    process(Request::Pause, &mut state, SocketKind::Full, 0);
    let (worker, action) = Worker::Idle.step(&mut state, LEAVE);
    assert_eq!(action, WorkerAction::Look);
    let (_, action) = worker.step(&mut state, LEAVE);
    assert_eq!(action, WorkerAction::Exit);

    let mut state = state_with(&["/a"]);
    let worker = running(&mut state, Worker::Idle, 0);
    worker.step(
        &mut state,
        WorkerEvent::HookEnded { outcome: HookOutcome::Cancelled, now: 1, shutdown: true },
    );
    assert_eq!((state.queue.len(), state.in_flight), (0, 0));
    assert_eq!((state.processed_total, state.failed_total), (0, 0));
}

#[test]
fn in_flight_counts_running_workers() {
    let mut state = state_with(&["/a", "/b", "/c"]);
    let first = running(&mut state, Worker::Idle, 0);
    let second = running(&mut state, Worker::Idle, 1);
    assert_eq!(state.in_flight, 2);
    assert_eq!((job_of(&first), job_of(&second)), ("/a", "/b"));
    assert_eq!(state.metrics.current.as_ref().unwrap().started, 1);
    ended(&mut state, second, HookOutcome::Failed, 2);
    assert_eq!(state.in_flight, 1);
    // The hook that still runs is shown.
    assert_eq!(state.metrics.current.as_ref().unwrap().started, 0);
    let second = running(&mut state, Worker::Idle, 2);
    assert_eq!(job_of(&second), "/c");
    ended(&mut state, first, HookOutcome::Failed, 2);
    assert_eq!(state.in_flight, 1);
    assert_eq!(state.metrics.current.as_ref().unwrap().started, 2);
    ended(&mut state, second, HookOutcome::Success, 3);
    assert_eq!(state.in_flight, 0);
    assert!(state.metrics.current.is_none());
}

#[test]
fn hook_finds_its_outputs_in_the_environment() {
    let env = hook_env(&Job {
        drv_path: Some("/nix/store/x.drv".into()),
        out_paths: vec!["/nix/store/a".into(), "/nix/store/b".into()],
    });
    assert_eq!(env.drv_path.as_deref(), Some("/nix/store/x.drv"));
    assert_eq!(env.out_paths, "/nix/store/a /nix/store/b");
    assert!(hook_env(&Job { drv_path: None, out_paths: vec!["/a".into()] }).drv_path.is_none());
}

#[test]
fn status_shows_the_running_and_the_last_successful_batch() {
    let mut state = state_with(&["/a", "/b"]);
    let sec = 1_000_000_000;
    let worker = running(&mut state, Worker::Idle, sec);
    let report = state.report(4 * sec);
    let current = report.current_batch.unwrap();
    assert_eq!((current.paths_count, current.started_seconds_ago), (1, 3));
    assert!(report.last_completed.is_none());

    let worker = ended(&mut state, worker, HookOutcome::Success, 6 * sec);
    let worker = running(&mut state, worker, 7 * sec);
    ended(&mut state, worker, HookOutcome::Failed, 8 * sec);
    let report = state.report(10 * sec);
    assert!(report.current_batch.is_none());
    let last = report.last_completed.unwrap();
    assert_eq!((last.duration_seconds, last.completed_seconds_ago), (5, 4));
    assert_eq!(last.closure_bytes, Some(10));
}

#[test]
fn batch_shows_while_it_is_sized() {
    let mut state = state_with(&["/a", "/b"]);
    let (worker, _) = Worker::Idle.step(&mut state, LOOK);
    assert!(state.metrics.current.is_none());
    let (worker, action) = worker.step(&mut state, LOOK);
    assert_eq!(action, WorkerAction::SizeClosure);
    let report = state.report(1_000_000_001);
    assert_eq!(report.in_flight, 0);
    let current = report.current_batch.unwrap();
    assert_eq!((current.closure_bytes, current.started_seconds_ago), (None, 1));

    // A hook that runs is shown before a batch that is sized.
    let other = running(&mut state, Worker::Idle, 5);
    assert_eq!(state.metrics.current.as_ref().unwrap().closure_bytes, Some(10));
    ended(&mut state, other, HookOutcome::Success, 6);
    assert_eq!(state.metrics.current.as_ref().unwrap().closure_bytes, None);

    let (worker, _) =
        worker.step(&mut state, WorkerEvent::Sized { closure_bytes: Some(7), now: 8 });
    assert_eq!(state.metrics.current.as_ref().unwrap().closure_bytes, Some(7));
    ended(&mut state, worker, HookOutcome::Success, 9);
    assert!(state.metrics.current.is_none());
}

/// The acked jobs that a daemon accounts for: counted, queued or held.
fn accounted(state: &State, workers: &[&Worker]) -> u64 {
    let held = workers
        .iter()
        .filter(|w| !matches!(w, Worker::Idle | Worker::Stopped))
        .count();
    state.processed_total + state.failed_total + (state.queue.len() + held) as u64
}

#[test]
fn counts_add_up_over_a_run() {
    let mut state = state_with(&["/a", "/b", "/c"]);
    let first = running(&mut state, Worker::Idle, 1);
    let second = running(&mut state, Worker::Idle, 2);
    assert_eq!(accounted(&state, &[&first, &second]), 3);

    process(Request::Pause, &mut state, SocketKind::ControlOnly, 3);
    let first = ended(&mut state, first, HookOutcome::Cancelled, 4);
    let second = ended(&mut state, second, HookOutcome::Success, 5);
    let (first, _) = first.step(&mut state, LOOK);
    let (first, _) = first.step(&mut state, LOOK);
    assert_eq!(job_of(&first), "/a");
    assert_eq!(accounted(&state, &[&first, &second]), 3);

    let refused = Request::Enqueue { drv_path: None, out_paths: vec!["/x".to_string()] };
    process(refused, &mut state, SocketKind::ControlOnly, 6);
    let accepted = Request::Enqueue { drv_path: None, out_paths: vec!["/d".to_string()] };
    process(accepted, &mut state, SocketKind::Full, 6);
    assert_eq!(accounted(&state, &[&first, &second]), 4);

    process(Request::Resume, &mut state, SocketKind::ControlOnly, 7);
    let (first, _) = first.step(&mut state, LOOK);
    let (first, _) = first.step(&mut state, WorkerEvent::Sized { closure_bytes: None, now: 8 });
    let first = ended(&mut state, first, HookOutcome::Failed, 9);
    assert_eq!((state.processed_total, state.failed_total), (1, 1));
    assert_eq!(accounted(&state, &[&first, &second]), 4);
}

#[test]
fn lone_worker_ends_jobs_in_the_order_of_their_acks() {
    let paths = ["/a", "/b", "/c", "/d"];
    let mut state = state_with(&paths);
    let mut worker = Worker::Idle;
    let mut finished = Vec::new();
    for round in 0..8 {
        worker = running(&mut state, worker, round);
        let job = job_of(&worker).to_string();
        // Every other upload is cancelled first.
        let outcome = if round % 2 == 0 { HookOutcome::Cancelled } else { HookOutcome::Success };
        worker = ended(&mut state, worker, outcome, round);
        if outcome == HookOutcome::Success {
            finished.push(job);
        }
    }
    assert_eq!(finished, paths);
}

#[test]
fn pause_lasts_until_a_resume_whatever_happens() {
    let mut state = state_with(&["/a"]);
    let mut network = NetworkState::new();
    let mut watcher = Watcher::new();
    process(Request::Pause, &mut state, SocketKind::ControlOnly, 0);
    for event in [WatchEvent::Reached(1), WatchEvent::Ended, WatchEvent::Failed] {
        watcher.step(&mut network, &mut state.gate, event);
        assert!(state.report(0).paused);
    }
    state.wake_all();
    let (worker, _) = Worker::Idle.step(&mut state, LOOK);
    let (_, action) = worker.step(&mut state, LOOK);
    assert_eq!(action, WorkerAction::AwaitRelease { at_most: PARK_TIMEOUT });
    process(Request::Status, &mut state, SocketKind::Full, 0);
    assert!(state.report(0).paused);

    watcher.step(&mut network, &mut state.gate, WatchEvent::Reached(3));
    process(Request::Resume, &mut state, SocketKind::ControlOnly, 0);
    assert!(!state.report(0).paused);
    assert!(state.gate.has(REASON_METERED) && state.should_cancel(false));
}
