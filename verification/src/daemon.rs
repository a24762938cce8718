//! The daemon's state, and how it answers requests.
//!
//! Ack-on-receipt: the daemon acks the client as soon as the message is appended
//! to the queue, so build-side hooks never wait on worker progress.

use std::collections::VecDeque;
use std::path::PathBuf;

use vstd::prelude::*;

use crate::clock::{seconds_between, seconds_since};
use crate::gate::{one_more, Gate, REASON_MANUAL, REASON_METERED};
use crate::metrics::{average, MetricsState, MetricsView};
use crate::network_state::NetworkState;
use crate::protocol::{labelled, NetworkStatus, Request, Response, StatusReport};

verus! {

/// `std::path::PathBuf`, carried through as it is: nothing is claimed of what a
/// path holds.
#[verifier::external_type_specification]
#[verifier::external_body]
pub struct ExPathBuf(PathBuf);

/// How the daemon is to run.
pub struct DaemonOpts {
    /// The real post-build-hook.
    pub hook: PathBuf,
    /// The socket that carries every request.
    pub socket: PathBuf,
    /// Optional second socket carrying only control commands (pause/resume/
    /// status). Split out so it can be group-owned separately from the enqueue
    /// socket: callers who may pause need not be able to enqueue. `None`
    /// disables the control socket (control still works on the main socket).
    pub control_socket: Option<PathBuf>,
    /// Worker threads; at least one runs.
    pub concurrency: usize,
    /// Attempts for each job; at least one is made.
    pub retries: u32,
    /// The backoff between two attempts, in nanoseconds.
    pub retry_interval: u128,
    /// Whether to park while NetworkManager reports a metered connection.
    pub pause_on_metered: bool,
}

/// `n`, and at least one.
pub open spec fn at_least_one(n: int) -> int {
    if n < 1 {
        1
    } else {
        n
    }
}

impl DaemonOpts {
    /// How many workers the daemon runs.
    pub fn worker_count(&self) -> (workers: usize)
        ensures
            workers == at_least_one(self.concurrency as int),
    {
        if self.concurrency < 1 {
            1
        } else {
            self.concurrency
        }
    }
}

/// What a listener is allowed to carry. The permission split between the
/// enqueue and control sockets is a *capability* boundary, not just a filesystem
/// one: the control socket is scoped to a lower-privilege principal, so the
/// daemon must also refuse `Enqueue` there. Otherwise anyone who can pause could
/// also push arbitrary paths (and trigger a signed `nix copy`).
#[derive(Clone, Copy, Debug, PartialEq, Eq, Structural)]
pub enum SocketKind {
    /// Enqueue socket: every request type.
    Full,
    /// Control socket: status/pause/resume only; `Enqueue` is rejected.
    ControlOnly,
}

/// A batch in the queue.
#[derive(Debug)]
pub struct Job {
    pub drv_path: Option<String>,
    pub out_paths: Vec<String>,
}

/// All that the daemon's threads share.
pub struct State {
    /// The batches that wait, the next one first.
    pub queue: VecDeque<Job>,
    /// How often a worker that waits for a job was to be woken, modulo the range
    /// of `u64`.
    pub queue_wakeups: u64,
    /// The hooks that run.
    pub in_flight: usize,
    /// The batches whose hook succeeded.
    pub processed_total: u64,
    /// The batches dropped after their last attempt.
    pub failed_total: u64,
    /// When the daemon started.
    pub started: u64,
    /// The hook to run.
    pub hook: PathBuf,
    /// Attempts for each job.
    pub retries: u32,
    /// The backoff between two attempts, in nanoseconds.
    pub retry_interval: u128,
    /// Unified park gate. Fed by the manual pause/resume commands and (when
    /// `--pause-on-metered` is on) the watcher. Workers park here before
    /// running a hook and cancel an in-flight hook when it becomes blocked.
    pub gate: Gate,
    /// `Some` when --pause-on-metered is on. Status-only view; parking is driven
    /// by `gate`.
    pub network: Option<NetworkState>,
    /// What is remembered of the batches.
    pub metrics: MetricsState,
}

/// The contents of a [`State`].
pub ghost struct StateView {
    pub queue: Seq<Job>,
    pub queue_wakeups: u64,
    pub in_flight: usize,
    pub processed_total: u64,
    pub failed_total: u64,
    pub started: u64,
    pub hook: PathBuf,
    pub retries: u32,
    pub retry_interval: u128,
    pub gate: Gate,
    pub network: Option<NetworkState>,
    pub metrics: MetricsView,
}

impl View for State {
    type V = StateView;

    open spec fn view(&self) -> StateView {
        StateView {
            queue: self.queue@,
            queue_wakeups: self.queue_wakeups,
            in_flight: self.in_flight,
            processed_total: self.processed_total,
            failed_total: self.failed_total,
            started: self.started,
            hook: self.hook,
            retries: self.retries,
            retry_interval: self.retry_interval,
            gate: self.gate,
            network: self.network,
            metrics: self.metrics@,
        }
    }
}

impl StateView {
    /// The state of a daemon that has just started with `opts`.
    pub open spec fn fresh(opts: DaemonOpts, now: u64) -> StateView {
        StateView {
            queue: Seq::empty(),
            queue_wakeups: 0,
            in_flight: 0,
            processed_total: 0,
            failed_total: 0,
            started: now,
            hook: opts.hook,
            retries: at_least_one(opts.retries as int) as u32,
            retry_interval: opts.retry_interval,
            gate: Gate { reasons: 0, wakeups: 0 },
            network: if opts.pause_on_metered {
                Some(NetworkState { available: false })
            } else {
                None
            },
            metrics: MetricsView::empty(),
        }
    }

    /// The status report at `now`.
    pub open spec fn status(self, now: u64) -> StatusReport {
        StatusReport {
            queue_depth: self.queue.len() as usize,
            in_flight: self.in_flight,
            processed_total: self.processed_total,
            failed_total: self.failed_total,
            uptime_seconds: seconds_between(self.started, now),
            avg_batch_seconds: average(self.metrics.rolling),
            current_batch: match self.metrics.current {
                Some(batch) => Some(batch.reported(now)),
                None => None,
            },
            last_completed: match self.metrics.last_completed {
                Some(batch) => Some(batch.reported(now)),
                None => None,
            },
            network: match self.network {
                Some(network) => Some(
                    NetworkStatus {
                        nm_available: network.available,
                        metered: self.gate.is_active(REASON_METERED),
                    },
                ),
                None => None,
            },
            paused: self.gate.is_active(REASON_MANUAL),
        }
    }

    /// The state with `job` at the end of its queue, and a waiting worker woken.
    pub open spec fn with_job(self, job: Job) -> StateView {
        StateView {
            queue: self.queue.push(job),
            queue_wakeups: one_more(self.queue_wakeups),
            ..self
        }
    }

    /// The state with a manual pause set or lifted.
    pub open spec fn with_manual_pause(self, active: bool) -> StateView {
        StateView { gate: self.gate.updated(REASON_MANUAL, active), ..self }
    }

    /// The state with idle and parked workers woken.
    pub open spec fn with_all_woken(self) -> StateView {
        StateView {
            queue_wakeups: one_more(self.queue_wakeups),
            gate: Gate { wakeups: one_more(self.gate.wakeups), reasons: self.gate.reasons },
            ..self
        }
    }

    /// Whether hooks are to abort: the daemon is paused, metered or shutting
    /// down.
    pub open spec fn cancels(self, shutdown: bool) -> bool {
        shutdown || self.gate.is_blocked()
    }
}

/// The state after `req` came over a socket of `kind`.
pub open spec fn after_request(state: StateView, req: Request, kind: SocketKind) -> StateView {
    match req {
        Request::Enqueue { drv_path, out_paths } => if kind is Full && out_paths@.len() > 0 {
            state.with_job(Job { drv_path, out_paths })
        } else {
            state
        },
        Request::Status => state,
        Request::Pause => state.with_manual_pause(true),
        Request::Resume => state.with_manual_pause(false),
    }
}

/// Whether `resp` is the answer that `req` over a socket of `kind` gets at `now`.
pub open spec fn is_answer(
    state: StateView,
    req: Request,
    kind: SocketKind,
    now: u64,
    resp: Response,
) -> bool {
    match req {
        Request::Enqueue { drv_path, out_paths } => if kind is ControlOnly {
            resp matches Response::Error { message } && message@
                == "enqueue not permitted on the control socket"@
        } else if out_paths@.len() == 0 {
            resp matches Response::Error { message } && message@ == "out_paths must not be empty"@
        } else {
            resp is Ack
        },
        Request::Status => resp == Response::Status(state.status(now)),
        Request::Pause => resp is Ack,
        Request::Resume => resp is Ack,
    }
}

impl State {
    /// The state of a daemon that starts at `now`.
    pub fn new(opts: DaemonOpts, now: u64) -> (state: State)
        ensures
            state@ == StateView::fresh(opts, now),
    {
        State {
            queue: VecDeque::new(),
            queue_wakeups: 0,
            in_flight: 0,
            processed_total: 0,
            failed_total: 0,
            started: now,
            hook: opts.hook,
            retries: if opts.retries < 1 {
                1
            } else {
                opts.retries
            },
            retry_interval: opts.retry_interval,
            gate: Gate::new(),
            network: if opts.pause_on_metered {
                Some(NetworkState::new())
            } else {
                None
            },
            metrics: MetricsState::new(),
        }
    }

    /// True when an in-flight or about-to-start hook should abort: the pause gate
    /// is blocked (paused / metered) or the daemon is shutting down.
    pub fn should_cancel(&self, shutdown: bool) -> (cancel: bool)
        ensures
            cancel == self@.cancels(shutdown),
    {
        shutdown || self.gate.blocked()
    }

    /// Wakes idle and parked workers so they observe a shutdown and exit.
    pub fn wake_all(&mut self)
        ensures
            final(self)@ == old(self)@.with_all_woken(),
    {
        self.queue_wakeups = self.queue_wakeups.wrapping_add(1);
        self.gate.notify_all();
    }

    /// The status report at `now`.
    pub fn report(&self, now: u64) -> (report: StatusReport)
        ensures
            report == self@.status(now),
    {
        StatusReport {
            queue_depth: self.queue.len(),
            in_flight: self.in_flight,
            processed_total: self.processed_total,
            failed_total: self.failed_total,
            uptime_seconds: seconds_since(self.started, now),
            avg_batch_seconds: self.metrics.average_duration(),
            current_batch: match &self.metrics.current {
                Some(batch) => Some(batch.report(now)),
                None => None,
            },
            last_completed: match &self.metrics.last_completed {
                Some(batch) => Some(batch.report(now)),
                None => None,
            },
            network: match &self.network {
                Some(network) => Some(
                    NetworkStatus {
                        nm_available: network.is_available(),
                        metered: network.is_metered(&self.gate),
                    },
                ),
                None => None,
            },
            paused: self.gate.has(REASON_MANUAL),
        }
    }
}

/// Carries out `req`, which came over a socket of `kind`, and answers it.
pub fn process(req: Request, state: &mut State, kind: SocketKind, now: u64) -> (resp: Response)
    ensures
        final(state)@ == after_request(old(state)@, req, kind),
        is_answer(old(state)@, req, kind, now, resp),
{
    match req {
        Request::Enqueue { drv_path, out_paths } => {
            // The control socket is reachable by lower-privilege callers; enqueue
            // (which runs a signed `nix copy`) must stay on the enqueue socket.
            if kind == SocketKind::ControlOnly {
                return Response::Error {
                    message: "enqueue not permitted on the control socket".to_owned(),
                };
            }
            if out_paths.len() == 0 {
                return Response::Error { message: "out_paths must not be empty".to_owned() };
            }
            state.queue.push_back(Job { drv_path, out_paths });
            state.queue_wakeups = state.queue_wakeups.wrapping_add(1);
            Response::Ack
        },
        Request::Status => Response::Status(state.report(now)),
        Request::Pause => {
            state.gate.set(REASON_MANUAL, true);
            Response::Ack
        },
        Request::Resume => {
            state.gate.set(REASON_MANUAL, false);
            Response::Ack
        },
    }
}

/// Answers what came over a connection to a socket of `kind`: a request, or what
/// kept it from being read.
pub fn handle_connection(
    decoded: Result<Request, String>,
    state: &mut State,
    kind: SocketKind,
    now: u64,
) -> (resp: Response)
    ensures
        match decoded {
            Ok(req) => final(state)@ == after_request(old(state)@, req, kind) && is_answer(
                old(state)@,
                req,
                kind,
                now,
                resp,
            ),
            Err(e) => final(state)@ == old(state)@ && (resp matches Response::Error { message }
                && message@ == "decode"@ + ": "@ + e@),
        },
{
    match decoded {
        Ok(req) => process(req, state, kind, now),
        Err(e) => Response::Error { message: labelled("decode", e.as_str()) },
    }
}

} // verus!
