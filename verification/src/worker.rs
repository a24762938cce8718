//! A worker: pulls a job, parks while uploads are paused, sizes the batch, runs
//! its hook and books the outcome.
//!
//! Whoever drives a [`Worker`] performs each [`WorkerAction`] and hands back the
//! [`WorkerEvent`] that came of it.

use vstd::prelude::*;

use crate::clock::{elapsed, nanos_since};
use crate::daemon::{Job, State, StateView};
use crate::gate::{one_more, PARK_TIMEOUT};
use crate::hook::{fresh_run, HookAction, HookOutcome, HookRun};
use crate::metrics::{copy_text, pruned, CompletedBatch, MetricsView, RunningBatch};
use crate::text::{is_word, join_with_spaces, joined, law_split_undoes_join, texts, words};

verus! {

/// A batch that is being sized, or whose hook runs.
#[derive(Debug)]
pub struct Batch {
    /// The job.
    pub job: Job,
    /// The size of its closure, if known.
    pub closure_bytes: Option<u64>,
    /// When the hook started; before that, when the sizing did.
    pub started: u64,
}

/// Where a worker stands. The job that it pulled stays its own until its outcome
/// is booked.
#[derive(Debug)]
pub enum Worker {
    /// Looking for a job.
    Idle,
    /// Holding a job while uploads may be paused.
    Parked(Job),
    /// Waiting for the size of its job's closure. Until then, and on failure, no
    /// guess is written to the status report: the caller sees "unknown".
    Sizing(Batch),
    /// Running its job's hook.
    Running(Batch),
    /// Gone.
    Stopped,
}

/// What the driver of a worker reports back.
#[derive(Debug)]
pub enum WorkerEvent {
    /// The worker looks again; and whether the daemon is shutting down.
    Woken { shutdown: bool, now: u64 },
    /// The closure was sized, or could not be.
    Sized { closure_bytes: Option<u64>, now: u64 },
    /// The hook run ended; and whether the daemon is shutting down.
    HookEnded { outcome: HookOutcome, now: u64, shutdown: bool },
}

/// What the driver of a worker is to do.
#[derive(Clone, Copy, Debug, PartialEq, Eq, Structural)]
pub enum WorkerAction {
    /// Wait until a job may have come.
    AwaitJob,
    /// Wait until uploads may go on, so many nanoseconds at most.
    AwaitRelease { at_most: u64 },
    /// Look again at once.
    Look,
    /// Size the closure of the job.
    SizeClosure,
    /// Run the hook of the job.
    RunHook,
    /// End the thread.
    Exit,
}

/// One more of something that is counted modulo the range of `usize`.
pub open spec fn count_up(n: usize) -> usize {
    if n == usize::MAX {
        0
    } else {
        (n + 1) as usize
    }
}

/// One less of something that is counted modulo the range of `usize`.
pub open spec fn count_down(n: usize) -> usize {
    if n == 0 {
        usize::MAX
    } else {
        (n - 1) as usize
    }
}

impl Batch {
    /// What the metrics say of the batch while it is under way.
    pub open spec fn as_running(self) -> RunningBatch {
        RunningBatch {
            drv_path: self.job.drv_path,
            paths_count: self.job.out_paths@.len() as usize,
            closure_bytes: self.closure_bytes,
            started: self.started,
        }
    }

    /// What the metrics say of the batch once its hook succeeded at `now`.
    pub open spec fn as_completed(self, now: u64) -> CompletedBatch {
        CompletedBatch {
            drv_path: self.job.drv_path,
            paths_count: self.job.out_paths@.len() as usize,
            closure_bytes: self.closure_bytes,
            duration: elapsed(self.started, now),
            completed: now,
        }
    }

    /// What the metrics say of the batch while it is under way.
    fn running(&self) -> (entry: RunningBatch)
        ensures
            entry == self.as_running(),
    {
        RunningBatch {
            drv_path: copy_text(&self.job.drv_path),
            paths_count: self.job.out_paths.len(),
            closure_bytes: self.closure_bytes,
            started: self.started,
        }
    }
}

impl StateView {
    /// The state once a worker began to size `batch`.
    pub open spec fn with_batch_sizing(self, batch: Batch) -> StateView {
        StateView { metrics: self.metrics.with_sizing(batch.as_running()), ..self }
    }

    /// The state once the hook of `batch` started, which was `sized` before.
    pub open spec fn with_batch_begun(self, sized: Batch, batch: Batch) -> StateView {
        StateView {
            in_flight: count_up(self.in_flight),
            metrics: self.metrics.with_running(sized.as_running()@, batch.as_running()),
            ..self
        }
    }

    /// The state once the hook run of `batch` ended. A success and a failure are
    /// counted. A cancelled batch is not counted either way: it goes back to the
    /// front of the queue so it is retried first, unless the daemon is shutting
    /// down and its queue is discarded anyway.
    pub open spec fn with_batch_ended(
        self,
        batch: Batch,
        outcome: HookOutcome,
        now: u64,
        shutdown: bool,
    ) -> StateView {
        let ended = StateView {
            in_flight: count_down(self.in_flight),
            metrics: self.metrics.with_ended(batch.as_running()@),
            ..self
        };
        match outcome {
            HookOutcome::Success => StateView {
                processed_total: one_more(self.processed_total),
                metrics: MetricsView {
                    rolling: pruned(self.metrics.rolling.push(batch.as_completed(now)), now),
                    last_completed: Some(batch.as_completed(now)),
                    ..ended.metrics
                },
                ..ended
            },
            HookOutcome::Failed => StateView {
                failed_total: one_more(self.failed_total),
                ..ended
            },
            HookOutcome::Cancelled => if shutdown {
                ended
            } else {
                StateView { queue: seq![batch.job] + self.queue, ..ended }
            },
        }
    }
}

/// A worker, the state that it shares and what it does next.
pub ghost struct Step {
    pub worker: Worker,
    pub state: StateView,
    pub action: WorkerAction,
}

impl Worker {
    /// Whether `event` can come now.
    pub open spec fn expects(self, event: WorkerEvent) -> bool {
        match self {
            Worker::Idle => event is Woken,
            Worker::Parked(_) => event is Woken,
            Worker::Sizing(_) => event is Sized,
            Worker::Running(_) => event is HookEnded,
            Worker::Stopped => false,
        }
    }

    /// The job that the worker holds, if any.
    pub open spec fn held(self) -> Option<Job> {
        match self {
            Worker::Idle => None,
            Worker::Parked(job) => Some(job),
            Worker::Sizing(batch) => Some(batch.job),
            Worker::Running(batch) => Some(batch.job),
            Worker::Stopped => None,
        }
    }

    /// An idle worker looks: it takes the first job, leaves on a shutdown, or
    /// waits.
    pub open spec fn looks_for_a_job(state: StateView, shutdown: bool) -> Step {
        if state.queue.len() > 0 {
            Step {
                worker: Worker::Parked(state.queue[0]),
                state: StateView { queue: state.queue.skip(1), ..state },
                action: WorkerAction::Look,
            }
        } else if shutdown {
            Step { worker: Worker::Stopped, state, action: WorkerAction::Exit }
        } else {
            Step { worker: Worker::Idle, state, action: WorkerAction::AwaitJob }
        }
    }

    /// A worker with a job looks: it leaves on a shutdown, stays while uploads
    /// are paused, or goes on.
    pub open spec fn looks_for_release(
        job: Job,
        state: StateView,
        shutdown: bool,
        now: u64,
    ) -> Step {
        if shutdown {
            Step { worker: Worker::Stopped, state, action: WorkerAction::Exit }
        } else if state.gate.is_blocked() {
            Step {
                worker: Worker::Parked(job),
                state,
                action: WorkerAction::AwaitRelease { at_most: PARK_TIMEOUT },
            }
        } else {
            let batch = Batch { job, closure_bytes: None, started: now };
            Step {
                worker: Worker::Sizing(batch),
                state: state.with_batch_sizing(batch),
                action: WorkerAction::SizeClosure,
            }
        }
    }

    /// Where `event` takes the worker and the state, and what to do then.
    pub open spec fn next(self, state: StateView, event: WorkerEvent) -> Step {
        match (self, event) {
            (Worker::Idle, WorkerEvent::Woken { shutdown, .. }) => Worker::looks_for_a_job(
                state,
                shutdown,
            ),
            (
                Worker::Parked(job),
                WorkerEvent::Woken { shutdown, now },
            ) => Worker::looks_for_release(job, state, shutdown, now),
            (Worker::Sizing(sized), WorkerEvent::Sized { closure_bytes, now }) => {
                let batch = Batch { job: sized.job, closure_bytes, started: now };
                Step {
                    worker: Worker::Running(batch),
                    state: state.with_batch_begun(sized, batch),
                    action: WorkerAction::RunHook,
                }
            },
            (Worker::Running(batch), WorkerEvent::HookEnded { outcome, now, shutdown }) => Step {
                worker: Worker::Idle,
                state: state.with_batch_ended(batch, outcome, now, shutdown),
                action: WorkerAction::Look,
            },
            _ => Step { worker: self, state, action: WorkerAction::Look },
        }
    }

    /// Takes an event in, updates the shared state, and says what to do next.
    pub fn step(self, state: &mut State, event: WorkerEvent) -> (next: (Worker, WorkerAction))
        requires
            self.expects(event),
        ensures
            ({
                let step = self.next(old(state)@, event);
                &&& next.0 == step.worker
                &&& next.1 == step.action
                &&& final(state)@ == step.state
            }),
    {
        match (self, event) {
            (Worker::Idle, WorkerEvent::Woken { shutdown, .. }) => {
                let ghost queued = state.queue@;
                match state.queue.pop_front() {
                    Some(job) => {
                        assert(state.queue@ =~= queued.skip(1));
                        (Worker::Parked(job), WorkerAction::Look)
                    },
                    None => if shutdown {
                        (Worker::Stopped, WorkerAction::Exit)
                    } else {
                        (Worker::Idle, WorkerAction::AwaitJob)
                    },
                }
            },
            (Worker::Parked(job), WorkerEvent::Woken { shutdown, now }) => {
                let should_stop = || -> (stop: bool)
                    ensures
                        stop == shutdown,
                    { shutdown };
                match state.gate.wait_while_blocked(should_stop) {
                    Some(at_most) => (
                        Worker::Parked(job),
                        WorkerAction::AwaitRelease { at_most },
                    ),
                    None => if shutdown {
                        (Worker::Stopped, WorkerAction::Exit)
                    } else {
                        let batch = Batch { job, closure_bytes: None, started: now };
                        state.metrics.begin_sizing(batch.running());
                        (Worker::Sizing(batch), WorkerAction::SizeClosure)
                    },
                }
            },
            (Worker::Sizing(sized), WorkerEvent::Sized { closure_bytes, now }) => {
                let entry = sized.running();
                let batch = Batch { job: sized.job, closure_bytes, started: now };
                state.metrics.begin_running(&entry, batch.running());
                state.in_flight = state.in_flight.wrapping_add(1);
                (Worker::Running(batch), WorkerAction::RunHook)
            },
            (Worker::Running(batch), WorkerEvent::HookEnded { outcome, now, shutdown }) => {
                end_batch(state, batch, outcome, now, shutdown);
                (Worker::Idle, WorkerAction::Look)
            },
            // No other event can come.
            _ => vstd::pervasive::unreached(),
        }
    }
}

/// What a job's hook finds in its environment.
#[derive(Debug)]
pub struct HookEnv {
    /// The value of [`DRV_PATH_ENV`](crate::protocol::DRV_PATH_ENV), if it is set.
    pub drv_path: Option<String>,
    /// The value of [`OUT_PATHS_ENV`](crate::protocol::OUT_PATHS_ENV).
    pub out_paths: String,
}

/// The environment of a job's hook: its outputs, with a space between each and
/// the next, and its .drv if that is known.
pub fn hook_env(job: &Job) -> (env: HookEnv)
    ensures
        env.drv_path == job.drv_path,
        env.out_paths@ == joined(texts(job.out_paths@)),
{
    HookEnv { drv_path: copy_text(&job.drv_path), out_paths: join_with_spaces(&job.out_paths) }
}

/// Starts the hook run of a job, with as many attempts as the daemon makes.
pub fn run_hook(state: &State) -> (begun: (HookRun, HookAction))
    ensures
        begun.0.wf(),
        begun.0 == fresh_run(state@.retries, state@.retry_interval),
        begun.1 == if state@.retries == 0 {
            HookAction::Finish(HookOutcome::Failed)
        } else {
            HookAction::CheckCancel
        },
{
    HookRun::start(state.retries, state.retry_interval)
}

/// Books the outcome of a batch's hook run.
fn end_batch(state: &mut State, batch: Batch, outcome: HookOutcome, now: u64, shutdown: bool)
    ensures
        final(state)@ == old(state)@.with_batch_ended(batch, outcome, now, shutdown),
{
    state.in_flight = state.in_flight.wrapping_sub(1);
    state.metrics.end_running(&batch.running());
    match outcome {
        HookOutcome::Success => {
            let entry = CompletedBatch {
                drv_path: copy_text(&batch.job.drv_path),
                paths_count: batch.job.out_paths.len(),
                closure_bytes: batch.closure_bytes,
                duration: nanos_since(batch.started, now),
                completed: now,
            };
            state.metrics.record(entry, now);
            state.processed_total = state.processed_total.wrapping_add(1);
        },
        HookOutcome::Failed => {
            state.failed_total = state.failed_total.wrapping_add(1);
        },
        HookOutcome::Cancelled => {
            if !shutdown {
                state.queue.push_front(batch.job);
            }
        },
    }
}

/// The hook of a job finds every output of the job in its environment, however many there
/// are: where each is a word, splitting what it finds at white space gives them all, in
/// their order.
pub proof fn law_the_hook_finds_every_output(job: Job, out_paths: Seq<char>, i: int)
    requires
        out_paths == joined(texts(job.out_paths@)),
        forall|k: int| 0 <= k < job.out_paths@.len() ==> is_word((#[trigger] job.out_paths@[k])@),
    ensures
        words(out_paths).len() == job.out_paths@.len(),
        0 <= i < job.out_paths@.len() ==> words(out_paths)[i] == job.out_paths@[i]@,
{
    let parts = texts(job.out_paths@);
    assert forall|k: int| 0 <= k < parts.len() implies is_word(#[trigger] parts[k]) by {
        assert(parts[k] == job.out_paths@[k]@);
    }
    law_split_undoes_join(parts);
}

} // verus!
