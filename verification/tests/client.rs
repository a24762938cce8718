use std::path::PathBuf;

use queued_build_hook::client::{enqueue, pause, resume, status, CallError, Connecting, Retry};
use queued_build_hook::daemon::{process, DaemonOpts, SocketKind, State};
use queued_build_hook::protocol::{Request, Response};
use queued_build_hook::text::split_whitespace;
use queued_build_hook::worker::hook_env;

fn text(s: &str) -> Option<String> {
    Some(s.to_string())
}

fn fresh() -> State {
    State::new(
        DaemonOpts {
            hook: PathBuf::from("/bin/true"),
            socket: PathBuf::from("./pusher.sock"),
            control_socket: None,
            concurrency: 1,
            retries: 1,
            retry_interval: 0,
            pause_on_metered: false,
        },
        0,
    )
}

fn failure(e: CallError) -> String {
    match e {
        CallError::Failed(message) => message,
        CallError::Unexpected(other) => panic!("unexpected response: {other:?}"),
    }
}

#[test]
fn nothing_to_forward_is_no_call() {
    assert!(enqueue(text("/nix/store/x.drv"), None).is_none());
    assert!(enqueue(None, text("")).is_none());
    assert!(enqueue(None, text(" \n")).is_none());
}

#[test]
fn enqueue_reads_the_environment() {
    let call = enqueue(text("/nix/store/x.drv"), text(" /nix/store/a  /nix/store/b\n")).unwrap();
    match call.request {
        Request::Enqueue { drv_path, out_paths } => {
            assert_eq!(drv_path.as_deref(), Some("/nix/store/x.drv"));
            assert_eq!(out_paths, vec!["/nix/store/a", "/nix/store/b"]);
        }
        other => panic!("expected Enqueue, got {other:?}"),
    }
    match enqueue(text(""), text("/nix/store/a")).unwrap().request {
        Request::Enqueue { drv_path, .. } => assert!(drv_path.is_none()),
        other => panic!("expected Enqueue, got {other:?}"),
    }
}

#[test]
fn submitted_outputs_reach_the_hook() {
    let mut state = fresh();
    let call = enqueue(None, text("/nix/store/a /nix/store/b")).unwrap();
    let reply = process(call.request.clone(), &mut state, SocketKind::Full, 0);
    assert!(call.finish(Ok(reply)).is_ok());
    let env = hook_env(&state.queue[0]);
    assert_eq!(split_whitespace(&env.out_paths), vec!["/nix/store/a", "/nix/store/b"]);
}

#[test]
fn control_calls_succeed_on_both_sockets() {
    for kind in [SocketKind::Full, SocketKind::ControlOnly] {
        let mut state = fresh();
        for call in [pause(), resume()] {
            let reply = process(call.request.clone(), &mut state, kind, 0);
            assert!(matches!(call.finish(Ok(reply)), Ok(None)));
        }
        let call = status();
        let reply = process(call.request.clone(), &mut state, kind, 0);
        assert_eq!(call.finish(Ok(reply)).unwrap().unwrap().queue_depth, 0);
    }
}

#[test]
fn refusal_is_an_error() {
    let reply = Response::Error { message: "out_paths must not be empty".into() };
    let e = pause().finish(Ok(reply)).unwrap_err();
    assert_eq!(failure(e), "daemon error: out_paths must not be empty");
}

#[test]
fn broken_connection_is_an_error() {
    let e = status().finish(Err("read: gone".into())).unwrap_err();
    assert_eq!(failure(e), "read: gone");
}

#[test]
fn other_responses_are_unexpected() {
    assert!(matches!(
        status().finish(Ok(Response::Ack)),
        Err(CallError::Unexpected(Response::Ack))
    ));
    let report = process(Request::Status, &mut fresh(), SocketKind::Full, 0);
    assert!(matches!(
        resume().finish(Ok(report)),
        Err(CallError::Unexpected(Response::Status(_)))
    ));
}

#[test]
fn connecting_backs_off_and_gives_up() {
    let mut connecting = Connecting::new();
    let mut waits = Vec::new();
    while let Retry::After(millis) = connecting.failed() {
        waits.push(millis);
    }
    assert_eq!(waits, vec![100, 200, 400, 800, 1600, 2000, 2000, 2000, 2000]);
    assert_eq!(connecting.attempt, 10);
}
