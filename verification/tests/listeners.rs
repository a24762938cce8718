use std::path::PathBuf;

use queued_build_hook::daemon::{DaemonOpts, SocketKind};
use queued_build_hook::listeners::{
    build_listeners, plan_listeners, AcceptAction, AcceptLoop, Accepted, Listener, ListenerPlan,
    Source,
};
use queued_build_hook::socket_activation::{systemd_listeners, Activation, ListenEnv, NamedFds};

fn text(s: &str) -> Option<String> {
    Some(s.to_string())
}

fn activation(fds: &str, names: Option<&str>) -> Activation {
    let mut env = ListenEnv { pid: text("42"), fds: text(fds), names: names.map(String::from) };
    let activation = systemd_listeners(&mut env, 42);
    assert!(env.pid.is_none() && env.fds.is_none() && env.names.is_none());
    activation
}

fn not_activated() -> Activation {
    let mut env = ListenEnv { pid: None, fds: None, names: None };
    systemd_listeners(&mut env, 42)
}

fn opts(control: bool) -> DaemonOpts {
    DaemonOpts {
        hook: PathBuf::from("/bin/true"),
        socket: PathBuf::from("./pusher.sock"),
        control_socket: if control { Some(PathBuf::from("./control.sock")) } else { None },
        concurrency: 1,
        retries: 1,
        retry_interval: 0,
        pause_on_metered: false,
    }
}

fn plan(activation: Activation, control: bool) -> ListenerPlan {
    plan_listeners(activation, &opts(control))
}

fn built(activation: Activation, control: bool) -> Result<Vec<Listener>, String> {
    build_listeners(activation, &opts(control))
}

fn full(source: Source) -> Listener {
    Listener { source, kind: SocketKind::Full }
}

fn control(source: Source) -> Listener {
    Listener { source, kind: SocketKind::ControlOnly }
}

#[test]
fn fds_go_by_their_listed_names() {
    let mut a = activation("3", Some("enqueue:control:"));
    assert_eq!(a.fds, vec![3, 4, 5]);
    assert_eq!(a.listeners.sorted_names(), vec!["control", "enqueue", "fd5"]);
    assert_eq!(a.listeners.remove("control"), Some(4));
    assert_eq!(a.listeners.remove("control"), None);
    assert_eq!(a.listeners.remove("fd5"), Some(5));
    assert_eq!(a.listeners.take_single(), Some(3));
    assert_eq!(a.listeners.take_single(), None);
}

#[test]
fn unnamed_fds_go_by_their_numbers() {
    let a = activation("10", None);
    assert_eq!(
        a.listeners.sorted_names(),
        vec!["fd10", "fd11", "fd12", "fd3", "fd4", "fd5", "fd6", "fd7", "fd8", "fd9"]
    );
}

#[test]
fn of_one_name_the_last_fd_stays() {
    let mut a = activation("3", Some("x:x:x"));
    assert_eq!(a.fds, vec![3, 4, 5]);
    assert_eq!(a.listeners.sorted_names(), vec!["x"]);
    assert_eq!(a.listeners.take_single(), Some(5));
    let replaced: Vec<(&str, i32)> =
        a.replaced.iter().map(|r| (r.name.as_str(), r.fd)).collect();
    assert_eq!(replaced, vec![("x", 3), ("x", 4)]);
}

#[test]
fn inserting_hands_out_what_it_replaces() {
    let mut fds = NamedFds::new();
    assert_eq!(fds.insert("a".into(), 7), None);
    assert_eq!(fds.insert("b".into(), 8), None);
    assert_eq!(fds.insert("a".into(), 9), Some(7));
    assert_eq!(fds.take_single(), None);
    assert_eq!(fds.remove("a"), Some(9));
    assert_eq!(fds.remove("b"), Some(8));
}

#[test]
fn without_activation_there_are_no_fds() {
    for (pid, fds) in [
        (None, text("1")),
        (text("42"), None),
        (text("41"), text("1")),
        (text("42"), text("0")),
        (text("42"), text("-1")),
        (text("x"), text("1")),
        (text("42"), text("one")),
    ] {
        let mut env = ListenEnv { pid, fds, names: text("enqueue") };
        let a = systemd_listeners(&mut env, 42);
        assert!(a.fds.is_empty());
        assert!(a.listeners.is_empty());
        assert!(a.replaced.is_empty());
        assert!(env.pid.is_none() && env.fds.is_none() && env.names.is_none());
    }
}

#[test]
fn second_call_finds_nothing() {
    let mut env = ListenEnv { pid: text("42"), fds: text("2"), names: None };
    assert_eq!(systemd_listeners(&mut env, 42).fds, vec![3, 4]);
    let again = systemd_listeners(&mut env, 42);
    assert!(again.fds.is_empty());
    assert!(again.listeners.is_empty());
}

#[test]
fn activated_sockets_are_taken_over() {
    assert_eq!(
        built(activation("2", Some("control:enqueue")), true),
        Ok(vec![full(Source::Activated(4)), control(Source::Activated(3))])
    );
}

#[test]
fn configured_paths_are_bound_without_activation() {
    assert_eq!(built(not_activated(), false), Ok(vec![full(Source::Bind)]));
    assert_eq!(
        built(not_activated(), true),
        Ok(vec![full(Source::Bind), control(Source::Bind)])
    );
}

#[test]
fn configured_paths_are_ignored_under_activation() {
    assert_eq!(
        built(activation("1", Some("enqueue")), true),
        Ok(vec![full(Source::Activated(3))])
    );
    assert_eq!(built(activation("1", None), true), Ok(vec![full(Source::Activated(3))]));
}

#[test]
fn lone_unnamed_fd_is_the_enqueue_socket() {
    assert_eq!(built(activation("1", None), false), Ok(vec![full(Source::Activated(3))]));
    assert_eq!(
        built(activation("2", Some("legacy:control")), false),
        Ok(vec![full(Source::Activated(3)), control(Source::Activated(4))])
    );
}

#[test]
fn lone_control_fd_is_not_adopted_as_the_enqueue_socket() {
    for path in [false, true] {
        let p = plan(activation("1", Some("control")), path);
        assert_eq!(p.listeners, vec![control(Source::Activated(3))]);
        assert!(p.unrecognized.is_empty());
        assert!(p.enqueue_missing);
        assert_eq!(
            built(activation("1", Some("control")), path),
            Err("no enqueue socket among the socket-activation fds".into())
        );
    }
}

#[test]
fn unrecognized_fds_are_refused_by_name() {
    let p = plan(activation("4", Some("zeta:enqueue:alpha:control")), false);
    assert_eq!(p.unrecognized, vec!["alpha", "zeta"]);
    assert_eq!(
        built(activation("3", Some("enqueue:foo:bar")), false),
        Err("unrecognized socket-activation fds: [\"bar\", \"foo\"]".into())
    );
    assert_eq!(
        built(activation("2", None), true),
        Err("unrecognized socket-activation fds: [\"fd3\", \"fd4\"]".into())
    );
    assert_eq!(
        built(activation("2", Some("enqueue:a\"b")), true),
        Err("unrecognized socket-activation fds: [\"a\\\"b\"]".into())
    );
}

#[test]
fn repeated_names_are_refused() {
    assert_eq!(
        built(activation("2", Some("enqueue:enqueue")), false),
        Err("unrecognized socket-activation fds: [\"enqueue\"]".into())
    );
    let p = plan(activation("5", Some("b:enqueue:b:a:b")), false);
    assert_eq!(p.listeners, vec![full(Source::Activated(4))]);
    assert_eq!(p.unrecognized, vec!["a", "b", "b", "b"]);
}

#[test]
fn plan_without_objection_has_no_refusal() {
    let p = plan(activation("1", Some("enqueue")), false);
    assert_eq!(p.refusal(), None);
    assert!(!p.enqueue_missing);
}

#[test]
fn accept_loop_sleeps_only_when_all_would_block() {
    let mut accept = AcceptLoop::new(2);
    for (results, idle) in [
        ([Accepted::WouldBlock, Accepted::WouldBlock], true),
        ([Accepted::Connection, Accepted::WouldBlock], false),
        ([Accepted::WouldBlock, Accepted::Connection], false),
        ([Accepted::Failed, Accepted::WouldBlock], true),
    ] {
        for (i, result) in results.iter().enumerate() {
            assert_eq!(accept.step(false), AcceptAction::Poll(i));
            accept.record(*result);
        }
        if idle {
            assert_eq!(accept.step(false), AcceptAction::Sleep(100));
        }
    }
}

#[test]
fn accept_loop_stops_between_passes() {
    let mut accept = AcceptLoop::new(2);
    assert_eq!(accept.step(false), AcceptAction::Poll(0));
    accept.record(Accepted::Connection);
    assert_eq!(accept.step(true), AcceptAction::Poll(1));
    accept.record(Accepted::WouldBlock);
    assert_eq!(accept.step(true), AcceptAction::Stop);
    assert_eq!(AcceptLoop::new(1).step(true), AcceptAction::Stop);
    assert_eq!(AcceptLoop::new(0).step(false), AcceptAction::Sleep(100));
}
