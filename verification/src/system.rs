//! The daemon as a whole: what holds of its requests and its workers together.

use vstd::multiset::Multiset;
use vstd::prelude::*;

use crate::clock::{law_seconds_are_whole, seconds_between, NANOS_PER_SEC};
use crate::daemon::{after_request, is_answer, DaemonOpts, Job, SocketKind, StateView};
use crate::gate::{
    law_an_update_sets_or_clears_every_bit, law_blocked_until_every_reason_clears,
    law_reasons_are_independent, law_set_is_idempotent, law_set_takes_effect, one_more,
    PARK_TIMEOUT, REASON_MANUAL, REASON_METERED,
};
use crate::hook::{HookAction, HookEvent, HookOutcome, HookRun};
use crate::metrics::{
    average, contents, in_order, law_recording_keeps_the_order, lemma_without_is_one_less, pruned,
    shown, without, BatchView, RunningBatch,
};
use crate::protocol::{Request, Response};
use crate::worker::{count_down, Batch, Worker, WorkerAction, WorkerEvent};

verus! {

/// Nothing that comes over the control socket reaches the queue.
pub proof fn law_the_control_socket_never_queues(state: StateView, req: Request)
    ensures
        after_request(state, req, SocketKind::ControlOnly).queue == state.queue,
        after_request(state, req, SocketKind::ControlOnly).queue_wakeups == state.queue_wakeups,
{
}

/// A request that is answered with an error changes nothing.
pub proof fn law_a_refused_request_changes_nothing(
    state: StateView,
    req: Request,
    kind: SocketKind,
    now: u64,
    resp: Response,
)
    requires
        is_answer(state, req, kind, now, resp),
        resp is Error,
    ensures
        after_request(state, req, kind) == state,
{
}

/// An enqueue is refused exactly on the control socket and without outputs; any
/// other is acked at once, paused or not, and its job is the last in the queue.
pub proof fn law_an_enqueue_is_acked_on_receipt(
    state: StateView,
    drv_path: Option<String>,
    out_paths: Vec<String>,
    kind: SocketKind,
    now: u64,
    resp: Response,
)
    requires
        is_answer(state, Request::Enqueue { drv_path, out_paths }, kind, now, resp),
    ensures
        resp is Ack <==> kind is Full && out_paths@.len() > 0,
        resp is Ack || resp is Error,
        resp is Ack ==> after_request(state, Request::Enqueue { drv_path, out_paths }, kind).queue
            == state.queue.push(Job { drv_path, out_paths }),
{
}

/// A status request changes nothing.
pub proof fn law_status_changes_nothing(state: StateView, kind: SocketKind)
    ensures
        after_request(state, Request::Status, kind) == state,
{
}

/// A daemon that has just started reports that nothing is queued, running, counted
/// or paused. What it does not know yet it leaves out: the average, the batches,
/// and the network where it is not watched.
pub proof fn law_a_fresh_daemon_reports_only_what_it_knows(
    opts: DaemonOpts,
    started: u64,
    now: u64,
)
    ensures
        ({
            let report = StateView::fresh(opts, started).status(now);
            &&& report.queue_depth == 0
            &&& report.in_flight == 0
            &&& report.processed_total == 0
            &&& report.failed_total == 0
            &&& report.uptime_seconds == seconds_between(started, now)
            &&& report.avg_batch_seconds is None
            &&& report.current_batch is None
            &&& report.last_completed is None
            &&& report.network is Some <==> opts.pause_on_metered
            &&& !report.paused
        }),
{
    assert(0u32 & 2 == 0) by (bit_vector);
}

/// A pause takes effect at once and shows in the status; a second one changes
/// nothing; it leaves the metered flag.
pub proof fn law_pause_pauses(state: StateView, kind: SocketKind, now: u64)
    ensures
        ({
            let paused = after_request(state, Request::Pause, kind);
            &&& paused.gate.is_blocked()
            &&& paused.status(now).paused
            &&& paused.cancels(false)
            &&& after_request(paused, Request::Pause, kind) == paused
            &&& paused.gate.is_active(REASON_METERED) == state.gate.is_active(REASON_METERED)
        }),
{
    assert(REASON_MANUAL & REASON_METERED == 0) by (bit_vector);
    law_set_takes_effect(state.gate, REASON_MANUAL);
    law_set_is_idempotent(state.gate, REASON_MANUAL, true);
    law_reasons_are_independent(state.gate, REASON_MANUAL, true, REASON_METERED);
}

/// A resume lifts a manual pause, and only that: a metered pause, and whatever
/// else blocks, stays in effect.
pub proof fn law_resume_lifts_only_a_manual_pause(state: StateView, kind: SocketKind, now: u64)
    ensures
        ({
            let resumed = after_request(state, Request::Resume, kind);
            &&& !resumed.status(now).paused
            &&& resumed.gate.is_active(REASON_METERED) == state.gate.is_active(REASON_METERED)
            &&& resumed.gate.is_blocked() == state.gate.is_active(!REASON_MANUAL)
            &&& state.gate.is_active(REASON_METERED) ==> resumed.gate.is_blocked()
        }),
{
    assert(REASON_MANUAL & REASON_METERED == 0) by (bit_vector);
    law_set_takes_effect(state.gate, REASON_MANUAL);
    law_reasons_are_independent(state.gate, REASON_MANUAL, false, REASON_METERED);
    law_blocked_until_every_reason_clears(state.gate, REASON_MANUAL);
    let r = state.gate.reasons;
    assert(r & 1 != 0 ==> r & !2u32 != 0) by (bit_vector);
}

/// A pause and a resume undo each other, where nothing was paused by hand
/// before.
pub proof fn law_resume_undoes_pause(state: StateView, kind: SocketKind)
    requires
        !state.gate.is_active(REASON_MANUAL),
    ensures
        after_request(
            after_request(state, Request::Pause, kind),
            Request::Resume,
            kind,
        ).gate.reasons == state.gate.reasons,
        after_request(
            after_request(state, Request::Pause, kind),
            Request::Resume,
            kind,
        ).queue == state.queue,
{
    let r = state.gate.reasons;
    assert((r | 2) & !2u32 == r) by (bit_vector)
        requires
            r & 2 == 0,
    ;
}

/// The state after the requests of `reqs`, each over its socket.
pub open spec fn after_requests(state: StateView, reqs: Seq<(Request, SocketKind)>) -> StateView
    decreases reqs.len(),
{
    if reqs.len() == 0 {
        state
    } else {
        after_request(after_requests(state, reqs.drop_last()), reqs.last().0, reqs.last().1)
    }
}

/// No request drops or reorders a job that is queued already.
pub proof fn law_requests_keep_the_queue(state: StateView, reqs: Seq<(Request, SocketKind)>)
    ensures
        state.queue.is_prefix_of(after_requests(state, reqs).queue),
    decreases reqs.len(),
{
    if reqs.len() > 0 {
        law_requests_keep_the_queue(state, reqs.drop_last());
    }
}

/// Whether `event` tells of a shutdown.
pub open spec fn shuts_down(event: WorkerEvent) -> bool {
    match event {
        WorkerEvent::Woken { shutdown, .. } => shutdown,
        WorkerEvent::Sized { .. } => false,
        WorkerEvent::HookEnded { shutdown, .. } => shutdown,
    }
}

/// The job of a worker, and then those in the queue.
pub open spec fn pending(worker: Worker, state: StateView) -> Seq<Job> {
    match worker.held() {
        Some(job) => seq![job] + state.queue,
        None => state.queue,
    }
}

/// A worker loses no job and takes none out of its turn: what it holds, followed
/// by the queue, stays as it is until a hook succeeded or failed for good, which
/// takes off that hook's job and counts it once.
pub proof fn law_a_worker_loses_no_job(worker: Worker, state: StateView, event: WorkerEvent)
    requires
        worker.expects(event),
        !shuts_down(event),
    ensures
        ({
            let step = worker.next(state, event);
            match event {
                WorkerEvent::HookEnded { outcome: HookOutcome::Success, .. } => {
                    &&& pending(worker, state) == seq![worker->Running_0.job] + pending(
                        step.worker,
                        step.state,
                    )
                    &&& step.state.processed_total == one_more(state.processed_total)
                    &&& step.state.failed_total == state.failed_total
                },
                WorkerEvent::HookEnded { outcome: HookOutcome::Failed, .. } => {
                    &&& pending(worker, state) == seq![worker->Running_0.job] + pending(
                        step.worker,
                        step.state,
                    )
                    &&& step.state.processed_total == state.processed_total
                    &&& step.state.failed_total == one_more(state.failed_total)
                },
                _ => {
                    &&& pending(step.worker, step.state) == pending(worker, state)
                    &&& step.state.processed_total == state.processed_total
                    &&& step.state.failed_total == state.failed_total
                },
            }
        }),
{
    let step = worker.next(state, event);
    assert(worker is Idle && state.queue.len() > 0 ==> seq![state.queue[0]] + state.queue.skip(1)
        =~= state.queue);
}

/// A batch that was cancelled is not counted, and it is the next job that a
/// worker takes.
pub proof fn law_a_cancelled_batch_is_retried_first(worker: Worker, state: StateView, now: u64)
    requires
        worker is Running,
    ensures
        ({
            let cancelled = worker.next(
                state,
                WorkerEvent::HookEnded { outcome: HookOutcome::Cancelled, now, shutdown: false },
            );
            let retaken = cancelled.worker.next(
                cancelled.state,
                WorkerEvent::Woken { shutdown: false, now },
            );
            &&& cancelled.state.processed_total == state.processed_total
            &&& cancelled.state.failed_total == state.failed_total
            &&& cancelled.state.metrics.rolling == state.metrics.rolling
            &&& cancelled.state.metrics.last_completed == state.metrics.last_completed
            &&& cancelled.state.queue[0] == worker->Running_0.job
            &&& retaken.worker == Worker::Parked(worker->Running_0.job)
            &&& retaken.state.queue == state.queue
        }),
{
    assert((seq![worker->Running_0.job] + state.queue).skip(1) =~= state.queue);
}

/// While uploads are paused or metered, a worker with a job stays parked with it,
/// and looks again within a second even if nobody wakes it. Once the pause is over
/// it goes on: it sizes the job, and the status may show that.
pub proof fn law_a_paused_worker_stays_parked(job: Job, state: StateView, now: u64)
    ensures
        ({
            let step = Worker::Parked(job).next(state, WorkerEvent::Woken { shutdown: false, now });
            &&& state.gate.is_blocked() ==> {
                &&& step.state == state
                &&& step.worker == Worker::Parked(job)
                &&& step.action == WorkerAction::AwaitRelease { at_most: PARK_TIMEOUT }
            }
            &&& !state.gate.is_blocked() ==> {
                let batch = Batch { job, closure_bytes: None, started: now };
                &&& step.state == state.with_batch_sizing(batch)
                &&& step.worker == Worker::Sizing(batch)
                &&& step.action == WorkerAction::SizeClosure
            }
            &&& PARK_TIMEOUT == NANOS_PER_SEC
        }),
{
}

/// Once the daemon shuts down, a worker that waits, for a job or for the end of a
/// pause, leaves; one that takes a job first leaves when it looks again.
pub proof fn law_a_waiting_worker_leaves_on_shutdown(worker: Worker, state: StateView, now: u64)
    requires
        worker is Idle || worker is Parked,
    ensures
        ({
            let step = worker.next(state, WorkerEvent::Woken { shutdown: true, now });
            let again = step.worker.next(step.state, WorkerEvent::Woken { shutdown: true, now });
            step.action == WorkerAction::Exit || again.action == WorkerAction::Exit
        }),
{
}

/// A pause cancels an upload that is in flight. Its job is not counted but parked
/// again, and once a resume lifts the pause it goes on to be run again.
pub proof fn law_pause_cancels_and_resume_reruns(
    state: StateView,
    kind: SocketKind,
    batch: Batch,
    run: HookRun,
    terminated: u64,
    now: u64,
)
    requires
        !state.gate.is_blocked(),
        run.phase is Waiting,
    ensures
        ({
            let paused = after_request(state, Request::Pause, kind);
            // The poll that sees the pause has the hook terminated, and the run is
            // cancelled.
            let seen = run.next(HookEvent::Running { cancel: paused.cancels(false) });
            let ended = seen.0.next(HookEvent::Terminated { now: terminated });
            &&& seen.1 == HookAction::Terminate
            &&& ended.1 == HookAction::Finish(HookOutcome::Cancelled)
            // The job is taken again first, and parked.
            &&& {
                let booked = Worker::Running(batch).next(
                    paused,
                    WorkerEvent::HookEnded {
                        outcome: HookOutcome::Cancelled,
                        now,
                        shutdown: false,
                    },
                );
                let taken = booked.worker.next(booked.state, WorkerEvent::Woken { shutdown: false, now });
                let parked = taken.worker.next(taken.state, WorkerEvent::Woken { shutdown: false, now });
                let resumed = after_request(parked.state, Request::Resume, kind);
                let released = parked.worker.next(resumed, WorkerEvent::Woken { shutdown: false, now });
                &&& parked.worker == Worker::Parked(batch.job)
                &&& parked.action is AwaitRelease
                &&& parked.state.processed_total == state.processed_total
                &&& parked.state.failed_total == state.failed_total
                &&& parked.state.in_flight == count_down(state.in_flight)
                &&& parked.state.queue == state.queue
                &&& released.worker is Sizing
                &&& released.worker.held() == Some(batch.job)
                &&& released.action == WorkerAction::SizeClosure
            }
        }),
{
    let paused = after_request(state, Request::Pause, kind);
    assert(0u32 & 2 == 0) by (bit_vector);
    law_pause_pauses(state, kind, now);
    law_resume_undoes_pause(state, kind);
    assert((seq![batch.job] + state.queue).skip(1) =~= state.queue);
    law_resume_lifts_only_a_manual_pause(paused, kind, now);
}

/// The jobs that a worker takes, one after the other, when it looks `n` times.
pub open spec fn taken(state: StateView, n: nat, now: u64) -> Seq<Job>
    decreases n,
{
    if n == 0 {
        seq![]
    } else {
        let step = Worker::Idle.next(state, WorkerEvent::Woken { shutdown: false, now });
        match step.worker.held() {
            Some(job) => seq![job] + taken(step.state, (n - 1) as nat, now),
            None => seq![],
        }
    }
}

/// Jobs are taken in the order in which they were queued.
pub proof fn law_jobs_are_taken_in_order(state: StateView, n: nat, now: u64)
    requires
        n <= state.queue.len(),
    ensures
        taken(state, n, now) == state.queue.take(n as int),
    decreases n,
{
    if n > 0 {
        let step = Worker::Idle.next(state, WorkerEvent::Woken { shutdown: false, now });
        law_jobs_are_taken_in_order(step.state, (n - 1) as nat, now);
        assert(seq![state.queue[0]] + state.queue.skip(1).take(n - 1) =~= state.queue.take(
            n as int,
        ));
    } else {
        assert(state.queue.take(0) =~= seq![]);
    }
}

/// A rolling window in order stays so whatever a worker does, if time does not
/// run backwards.
pub proof fn law_workers_keep_the_window_in_order(
    worker: Worker,
    state: StateView,
    event: WorkerEvent,
)
    requires
        worker.expects(event),
        in_order(state.metrics.rolling),
        event matches WorkerEvent::HookEnded { now, .. } ==> state.metrics.rolling.len() > 0
            ==> state.metrics.rolling.last().completed <= now,
    ensures
        in_order(worker.next(state, event).state.metrics.rolling),
{
    if let WorkerEvent::HookEnded { outcome: HookOutcome::Success, now, .. } = event {
        law_recording_keeps_the_order(
            state.metrics.rolling,
            worker->Running_0.as_completed(now),
            now,
        );
    }
}

/// The last completed batch in the status is the one whose hook succeeded last:
/// a success replaces it, and nothing else that a worker does changes it.
pub proof fn law_the_last_success_is_reported(
    worker: Worker,
    state: StateView,
    event: WorkerEvent,
    later: u64,
)
    requires
        worker.expects(event),
    ensures
        worker.next(state, event).state.status(later).last_completed == match event {
            WorkerEvent::HookEnded { outcome: HookOutcome::Success, now, .. } => Some(
                worker->Running_0.as_completed(now).reported(later),
            ),
            _ => state.status(later).last_completed,
        },
{
}

/// How many of `workers` run a hook.
pub open spec fn running(workers: Seq<Worker>) -> nat
    decreases workers.len(),
{
    if workers.len() == 0 {
        0
    } else {
        running(workers.drop_last()) + if workers.last() is Running {
            1nat
        } else {
            0nat
        }
    }
}

/// The job of one worker, as a bag.
pub open spec fn bag(worker: Worker) -> Multiset<Job> {
    match worker.held() {
        Some(job) => Multiset::singleton(job),
        None => Multiset::empty(),
    }
}

/// The jobs that `workers` hold.
pub open spec fn held(workers: Seq<Worker>) -> Multiset<Job>
    decreases workers.len(),
{
    if workers.len() == 0 {
        Multiset::empty()
    } else {
        held(workers.drop_last()).add(bag(workers.last()))
    }
}

/// Every job that the daemon has: those in the queue and those held by a worker.
pub open spec fn all_jobs(state: StateView, workers: Seq<Worker>) -> Multiset<Job> {
    state.queue.to_multiset().add(held(workers))
}

/// What one worker adds to the counts.
proof fn lemma_one_worker(workers: Seq<Worker>, i: int, worker: Worker)
    requires
        0 <= i < workers.len(),
    ensures
        held(workers.update(i, worker)).add(bag(workers[i])) == held(workers).add(bag(worker)),
        running(workers.update(i, worker)) + (if workers[i] is Running {
            1nat
        } else {
            0nat
        }) == running(workers) + (if worker is Running {
            1nat
        } else {
            0nat
        }),
        running(workers) <= workers.len(),
        workers[i] is Running ==> running(workers) > 0,
        !(workers[i] is Running) ==> running(workers) < workers.len(),
    decreases workers.len(),
{
    let head = workers.drop_last();
    let changed = workers.update(i, worker);
    lemma_running_is_bounded(head);
    if i == workers.len() - 1 {
        assert(changed.drop_last() =~= head);
        assert(held(changed).add(bag(workers[i])) =~= held(workers).add(bag(worker)));
    } else {
        lemma_one_worker(head, i, worker);
        assert(changed.drop_last() =~= head.update(i, worker));
        assert(held(changed).add(bag(workers[i])) =~= held(head.update(i, worker)).add(
            bag(workers[i]),
        ).add(bag(workers.last())));
        assert(held(workers).add(bag(worker)) =~= held(head).add(bag(worker)).add(
            bag(workers.last()),
        ));
    }
}

/// No more workers run than there are.
proof fn lemma_running_is_bounded(workers: Seq<Worker>)
    ensures
        running(workers) <= workers.len(),
    decreases workers.len(),
{
    if workers.len() > 0 {
        lemma_running_is_bounded(workers.drop_last());
    }
}

/// The batch of a worker that runs its hook, or of one that sizes it, as a bag.
pub open spec fn entry(worker: Worker, of_running: bool) -> Multiset<BatchView> {
    match worker {
        Worker::Running(batch) if of_running => Multiset::singleton(batch.as_running()@),
        Worker::Sizing(batch) if !of_running => Multiset::singleton(batch.as_running()@),
        _ => Multiset::empty(),
    }
}

/// The batches of those of `workers` that run a hook, or of those that size.
pub open spec fn entries(workers: Seq<Worker>, of_running: bool) -> Multiset<BatchView>
    decreases workers.len(),
{
    if workers.len() == 0 {
        Multiset::empty()
    } else {
        entries(workers.drop_last(), of_running).add(entry(workers.last(), of_running))
    }
}

/// What one worker adds to the batches.
proof fn lemma_one_entry(workers: Seq<Worker>, i: int, worker: Worker, of_running: bool)
    requires
        0 <= i < workers.len(),
    ensures
        entries(workers.update(i, worker), of_running).add(entry(workers[i], of_running))
            == entries(workers, of_running).add(entry(worker, of_running)),
    decreases workers.len(),
{
    let head = workers.drop_last();
    let last = entry(workers.last(), of_running);
    let old_entry = entry(workers[i], of_running);
    let new_entry = entry(worker, of_running);
    let changed = workers.update(i, worker);
    if i == workers.len() - 1 {
        assert(changed.drop_last() =~= head);
        assert(entries(changed, of_running).add(old_entry) =~= entries(workers, of_running).add(
            new_entry,
        ));
    } else {
        lemma_one_entry(head, i, worker, of_running);
        assert(changed.drop_last() =~= head.update(i, worker));
        assert(entries(changed, of_running).add(old_entry) =~= entries(
            head.update(i, worker),
            of_running,
        ).add(old_entry).add(last));
        assert(entries(workers, of_running).add(new_entry) =~= entries(head, of_running).add(
            new_entry,
        ).add(last));
    }
}

/// Every batch in the bag is that of a worker, and every such worker's is in it.
proof fn lemma_entries_are_of_workers(workers: Seq<Worker>, of_running: bool)
    ensures
        forall|b: BatchView| #[trigger]
            entries(workers, of_running).count(b) > 0 ==> exists|i: int|
                0 <= i < workers.len() && #[trigger] entry(workers[i], of_running).count(b) > 0,
        forall|i: int, b: BatchView|
            0 <= i < workers.len() && #[trigger] entry(workers[i], of_running).count(b) > 0
                ==> entries(workers, of_running).count(b) > 0,
    decreases workers.len(),
{
    if workers.len() > 0 {
        let head = workers.drop_last();
        let last = workers.len() - 1;
        lemma_entries_are_of_workers(head, of_running);
        assert forall|b: BatchView| #[trigger] entries(workers, of_running).count(b) > 0 implies exists|
            i: int,
        |
            0 <= i < workers.len() && #[trigger] entry(workers[i], of_running).count(b) > 0 by {
            if entries(head, of_running).count(b) > 0 {
                let i = choose|i: int|
                    0 <= i < head.len() && #[trigger] entry(head[i], of_running).count(b) > 0;
                assert(entry(workers[i], of_running).count(b) > 0);
            } else {
                assert(entry(workers[last], of_running).count(b) > 0);
            }
        }
        assert forall|i: int, b: BatchView|
            0 <= i < workers.len() && #[trigger] entry(workers[i], of_running).count(
                b,
            ) > 0 implies entries(workers, of_running).count(b) > 0 by {
            if i < last {
                assert(entry(head[i], of_running).count(b) > 0);
            }
        }
    }
}

/// What the status knows of the workers: `in_flight` is the number of those that
/// run a hook, the metrics list exactly the batches that are run or sized, and the
/// current batch is picked from these.
pub open spec fn tracks(state: StateView, workers: Seq<Worker>) -> bool {
    &&& state.in_flight == running(workers)
    &&& contents(state.metrics.running).to_multiset() == entries(workers, true)
    &&& contents(state.metrics.sizing).to_multiset() == entries(workers, false)
    &&& state.metrics.current == shown(state.metrics.running, state.metrics.sizing)
}

/// A new entry is one more in the bag.
proof fn lemma_contents_push(batches: Seq<RunningBatch>, batch: RunningBatch)
    ensures
        contents(batches.push(batch)).to_multiset() == contents(batches).to_multiset().insert(
            batch@,
        ),
{
    broadcast use vstd::seq_lib::group_to_multiset_ensures;

    assert(contents(batches.push(batch)) =~= contents(batches).push(batch@));
}

/// The status keeps track of the workers, however many there are: it does so
/// whichever worker takes whatever event, and whatever is asked of the daemon.
pub proof fn law_the_status_tracks_the_workers(
    state: StateView,
    workers: Seq<Worker>,
    i: int,
    event: WorkerEvent,
    req: Request,
    kind: SocketKind,
)
    requires
        0 <= i < workers.len() <= usize::MAX,
        tracks(state, workers),
    ensures
        workers[i].expects(event) ==> tracks(
            workers[i].next(state, event).state,
            workers.update(i, workers[i].next(state, event).worker),
        ),
        tracks(after_request(state, req, kind), workers),
{
    if workers[i].expects(event) {
        let worker = workers[i];
        let step = worker.next(state, event);
        let changed = workers.update(i, step.worker);
        lemma_one_worker(workers, i, step.worker);
        lemma_one_entry(workers, i, step.worker, true);
        lemma_one_entry(workers, i, step.worker, false);
        match worker {
            Worker::Parked(job) => {
                if step.worker is Sizing {
                    lemma_contents_push(
                        state.metrics.sizing,
                        step.worker->Sizing_0.as_running(),
                    );
                }
            },
            Worker::Sizing(sized) => {
                lemma_without_is_one_less(state.metrics.sizing, sized.as_running()@);
                lemma_contents_push(state.metrics.running, step.worker->Running_0.as_running());
            },
            Worker::Running(batch) => {
                lemma_without_is_one_less(state.metrics.running, batch.as_running()@);
            },
            _ => {},
        }
        assert(contents(step.state.metrics.running).to_multiset() =~= entries(changed, true)) by {
            lemma_bag_counts(workers, changed, worker, step.worker, true);
        }
        assert(contents(step.state.metrics.sizing).to_multiset() =~= entries(changed, false)) by {
            lemma_bag_counts(workers, changed, worker, step.worker, false);
        }
    }
}

/// How one worker's step shows in the counts.
proof fn lemma_bag_counts(
    workers: Seq<Worker>,
    changed: Seq<Worker>,
    before: Worker,
    after: Worker,
    of_running: bool,
)
    requires
        entries(changed, of_running).add(entry(before, of_running)) == entries(
            workers,
            of_running,
        ).add(entry(after, of_running)),
    ensures
        forall|b: BatchView|
            (#[trigger] entries(changed, of_running).count(b)) + entry(before, of_running).count(b)
                == entries(workers, of_running).count(b) + entry(after, of_running).count(b),
{
    let x = entries(changed, of_running);
    let y = entry(before, of_running);
    let z = entries(workers, of_running);
    let w = entry(after, of_running);
    assert forall|b: BatchView| (#[trigger] x.count(b)) + y.count(b) == z.count(b) + w.count(b) by {
        assert(x.add(y).count(b) == x.count(b) + y.count(b));
        assert(z.add(w).count(b) == z.count(b) + w.count(b));
    }
}

/// A status that tracks the workers shows a current batch exactly while one of
/// them runs or sizes a batch, and then that of such a worker; while any runs its
/// hook, the batch of one that does.
pub proof fn law_the_current_batch_is_under_way(state: StateView, workers: Seq<Worker>, now: u64)
    requires
        tracks(state, workers),
    ensures
        state.status(now).current_batch is Some <==> state.metrics.current is Some,
        state.metrics.current is Some <==> exists|i: int|
            0 <= i < workers.len() && (#[trigger] workers[i] is Running || workers[i] is Sizing),
        running(workers) > 0 ==> (state.metrics.current matches Some(batch) && exists|i: int|
            0 <= i < workers.len() && #[trigger] workers[i] is Running
                && workers[i]->Running_0.as_running()@ == batch@),
        running(workers) == 0 ==> (state.metrics.current matches Some(batch) ==> exists|i: int|
            0 <= i < workers.len() && #[trigger] workers[i] is Sizing
                && workers[i]->Sizing_0.as_running()@ == batch@),
{
    broadcast use vstd::seq_lib::group_to_multiset_ensures;

    lemma_entries_are_of_workers(workers, true);
    lemma_entries_are_of_workers(workers, false);
    lemma_running_are_entries(workers);
    let run = state.metrics.running;
    let size = state.metrics.sizing;
    assert(contents(run).len() == entries(workers, true).len());
    if run.len() > 0 {
        let b = run.last()@;
        assert(contents(run)[run.len() - 1] == b);
        assert(contents(run).to_multiset().count(b) > 0);
        let i = choose|i: int|
            0 <= i < workers.len() && #[trigger] entry(workers[i], true).count(b) > 0;
        assert(workers[i] is Running && workers[i]->Running_0.as_running()@ == b);
    } else if size.len() > 0 {
        let b = size.last()@;
        assert(contents(size)[size.len() - 1] == b);
        assert(contents(size).to_multiset().count(b) > 0);
        let i = choose|i: int|
            0 <= i < workers.len() && #[trigger] entry(workers[i], false).count(b) > 0;
        assert(workers[i] is Sizing && workers[i]->Sizing_0.as_running()@ == b);
    }
    assert forall|i: int| 0 <= i < workers.len() && #[trigger] workers[i] is Running implies run.len()
        > 0 by {
        let b = workers[i]->Running_0.as_running()@;
        assert(entry(workers[i], true).count(b) > 0);
        assert(contents(run).contains(b));
    }
    assert forall|i: int| 0 <= i < workers.len() && #[trigger] workers[i] is Sizing implies size.len()
        > 0 by {
        let b = workers[i]->Sizing_0.as_running()@;
        assert(entry(workers[i], false).count(b) > 0);
        assert(contents(size).contains(b));
    }
}

/// There are as many running batches as workers that run one.
proof fn lemma_running_are_entries(workers: Seq<Worker>)
    ensures
        entries(workers, true).len() == running(workers),
    decreases workers.len(),
{
    if workers.len() > 0 {
        lemma_running_are_entries(workers.drop_last());
    }
}

/// Workers that are idle hold no job, and run and size nothing.
pub proof fn lemma_idle_workers_hold_nothing(workers: Seq<Worker>)
    requires
        forall|i: int| 0 <= i < workers.len() ==> #[trigger] workers[i] is Idle,
    ensures
        running(workers) == 0,
        held(workers) == Multiset::<Job>::empty(),
        entries(workers, true) == Multiset::<BatchView>::empty(),
        entries(workers, false) == Multiset::<BatchView>::empty(),
    decreases workers.len(),
{
    if workers.len() > 0 {
        let head = workers.drop_last();
        assert forall|i: int| 0 <= i < head.len() implies #[trigger] head[i] is Idle by {
            assert(head[i] == workers[i]);
        }
        lemma_idle_workers_hold_nothing(head);
        assert(workers[workers.len() - 1] is Idle);
        assert(held(workers) =~= Multiset::<Job>::empty());
        assert(entries(workers, true) =~= Multiset::<BatchView>::empty());
        assert(entries(workers, false) =~= Multiset::<BatchView>::empty());
    }
}

/// However many workers there are, whichever takes whatever event: but for a
/// shutdown, the daemon has the same jobs as before, without the one whose hook
/// succeeded or failed for good.
pub proof fn law_the_daemon_loses_no_job(
    state: StateView,
    workers: Seq<Worker>,
    i: int,
    event: WorkerEvent,
)
    requires
        0 <= i < workers.len(),
        workers[i].expects(event),
        !shuts_down(event),
    ensures
        ({
            let step = workers[i].next(state, event);
            let jobs = all_jobs(step.state, workers.update(i, step.worker));
            match event {
                WorkerEvent::HookEnded { outcome, .. } => if outcome is Cancelled {
                    jobs == all_jobs(state, workers)
                } else {
                    jobs.insert(workers[i]->Running_0.job) == all_jobs(state, workers)
                },
                _ => jobs == all_jobs(state, workers),
            }
        }),
{
    broadcast use vstd::seq_lib::group_to_multiset_ensures;

    let worker = workers[i];
    let step = worker.next(state, event);
    let changed = workers.update(i, step.worker);
    let jobs = all_jobs(step.state, changed);
    lemma_one_worker(workers, i, step.worker);
    law_a_worker_loses_no_job(worker, state, event);
    lemma_bag_of_pending(worker, state);
    lemma_bag_of_pending(step.worker, step.state);
    let before = pending(worker, state).to_multiset();
    let after = pending(step.worker, step.state).to_multiset();
    // What the other workers hold stays as it is.
    assert(held(changed).add(bag(worker)) == held(workers).add(bag(step.worker)));
    assert(jobs.add(before) =~= all_jobs(state, workers).add(after)) by {
        assert(jobs.add(before) =~= step.state.queue.to_multiset().add(
            state.queue.to_multiset(),
        ).add(held(changed).add(bag(worker))));
        assert(all_jobs(state, workers).add(after) =~= step.state.queue.to_multiset().add(
            state.queue.to_multiset(),
        ).add(held(workers).add(bag(step.worker))));
    }
    lemma_cancel(jobs, all_jobs(state, workers), before, after);
    if let WorkerEvent::HookEnded { outcome, .. } = event {
        if !(outcome is Cancelled) {
            let job = worker->Running_0.job;
            lemma_bag_of_cons(job, pending(step.worker, step.state));
            assert(jobs.insert(job) =~= all_jobs(state, workers)) by {
                assert forall|j: Job| #[trigger] jobs.insert(job).count(j) == all_jobs(
                    state,
                    workers,
                ).count(j) by {
                    assert(jobs.add(before).count(j) == all_jobs(state, workers).add(after).count(
                        j,
                    ));
                    assert(before.count(j) == after.insert(job).count(j));
                }
            }
        }
    }
}

/// One job in front of others, as a bag.
proof fn lemma_bag_of_cons(job: Job, jobs: Seq<Job>)
    ensures
        (seq![job] + jobs).to_multiset() == jobs.to_multiset().insert(job),
{
    broadcast use vstd::seq_lib::group_to_multiset_ensures;

    vstd::seq_lib::lemma_multiset_commutative(seq![job], jobs);
    assert(seq![job] =~= Seq::empty().push(job));
    assert(Seq::<Job>::empty().to_multiset() =~= Multiset::empty());
    assert(seq![job].to_multiset() =~= Multiset::empty().insert(job));
    assert((seq![job] + jobs).to_multiset() =~= jobs.to_multiset().insert(job));
}

/// What a worker holds and the queue, as bags.
proof fn lemma_bag_of_pending(worker: Worker, state: StateView)
    ensures
        pending(worker, state).to_multiset() == state.queue.to_multiset().add(bag(worker)),
{
    match worker.held() {
        Some(job) => {
            lemma_bag_of_cons(job, state.queue);
            assert(state.queue.to_multiset().insert(job) =~= state.queue.to_multiset().add(
                Multiset::singleton(job),
            ));
        },
        None => {
            assert(state.queue.to_multiset() =~= state.queue.to_multiset().add(
                Multiset::<Job>::empty(),
            ));
        },
    }
}

/// Equal bags added to two bags leave them as different as they were.
proof fn lemma_cancel(a: Multiset<Job>, b: Multiset<Job>, x: Multiset<Job>, y: Multiset<Job>)
    requires
        a.add(x) == b.add(y),
    ensures
        x == y ==> a == b,
{
    if x == y {
        assert forall|j: Job| #[trigger] a.count(j) == b.count(j) by {
            assert(a.add(x).count(j) == a.count(j) + x.count(j));
            assert(b.add(y).count(j) == b.count(j) + y.count(j));
        }
        assert(a =~= b);
    }
}

/// Every request has its answer. An enqueue is refused in these words on the control
/// socket and without outputs, and acked otherwise; pause and resume are acked; and a
/// status request is answered with the report of that moment.
pub proof fn law_every_request_has_its_answer(
    state: StateView,
    req: Request,
    kind: SocketKind,
    now: u64,
    resp: Response,
)
    requires
        is_answer(state, req, kind, now, resp),
    ensures
        req is Pause || req is Resume ==> resp is Ack,
        req is Status ==> resp == Response::Status(state.status(now)),
        req matches Request::Enqueue { out_paths, .. } ==> {
            &&& kind is Full && out_paths@.len() > 0 ==> resp is Ack
            &&& kind is ControlOnly ==> (resp matches Response::Error { message } && message@
                == "enqueue not permitted on the control socket"@)
            &&& kind is Full && out_paths@.len() == 0 ==> (resp matches Response::Error {
                message,
            } && message@ == "out_paths must not be empty"@)
        },
{
}

/// Whether two states agree on all that neither a request nor a worker may change: how
/// the daemon was set up, and what the watcher knows.
pub open spec fn same_setup(a: StateView, b: StateView) -> bool {
    &&& a.started == b.started
    &&& a.hook == b.hook
    &&& a.retries == b.retries
    &&& a.retry_interval == b.retry_interval
    &&& a.network == b.network
}

/// A request changes only what it is about: an enqueue that is acked puts its job at the
/// end of the queue and wakes a worker; a pause sets the manual bit of the pause gate
/// and a resume clears it, and every other bit stays; all else stays as it is.
pub proof fn law_a_request_changes_only_what_it_is_about(
    state: StateView,
    req: Request,
    kind: SocketKind,
)
    ensures
        ({
            let after = after_request(state, req, kind);
            &&& same_setup(state, after)
            &&& after.in_flight == state.in_flight
            &&& after.processed_total == state.processed_total
            &&& after.failed_total == state.failed_total
            &&& after.metrics == state.metrics
            &&& req is Enqueue || req is Status ==> after.gate == state.gate
            &&& !(req is Enqueue) ==> after.queue == state.queue && after.queue_wakeups
                == state.queue_wakeups
            &&& after.queue == state.queue <==> after.queue_wakeups == state.queue_wakeups
            &&& req matches Request::Enqueue { drv_path, out_paths } ==> if kind is Full
                && out_paths@.len() > 0 {
                &&& after.queue == state.queue.push(Job { drv_path, out_paths })
                &&& after.queue_wakeups != state.queue_wakeups
            } else {
                after == state
            }
            &&& req is Pause ==> after.gate.reasons & 2 == 2 && after.gate.is_blocked()
            &&& req is Resume ==> after.gate.reasons & 2 == 0
            &&& after.gate.reasons & !2u32 == state.gate.reasons & !2u32
        }),
{
    law_an_update_sets_or_clears_every_bit(state.gate, REASON_MANUAL, REASON_MANUAL);
    law_set_takes_effect(state.gate, REASON_MANUAL);
    assert(req matches Request::Enqueue { drv_path, out_paths } ==> state.queue.push(
        Job { drv_path, out_paths },
    ).len() != state.queue.len());
}

/// Waking everyone moves both counts of wakeups, and changes nothing else.
pub proof fn law_waking_everyone_changes_nothing_else(state: StateView)
    ensures
        ({
            let woken = state.with_all_woken();
            &&& same_setup(state, woken)
            &&& woken.queue_wakeups != state.queue_wakeups
            &&& woken.gate.wakeups != state.gate.wakeups
            &&& woken.gate.reasons == state.gate.reasons
            &&& woken.queue == state.queue
            &&& woken.in_flight == state.in_flight
            &&& woken.processed_total == state.processed_total
            &&& woken.failed_total == state.failed_total
            &&& woken.metrics == state.metrics
        }),
{
}

/// Hooks abort exactly on a shutdown, and while some reason to pause is active.
pub proof fn law_hooks_abort_on_shutdown_and_pause(state: StateView)
    ensures
        state.cancels(true),
        state.cancels(false) <==> state.gate.reasons != 0,
{
}

/// The report on a state says what the state has, and how many whole seconds the daemon
/// is up.
pub proof fn law_a_report_says_what_the_state_has(state: StateView, now: u64)
    requires
        state.queue.len() <= usize::MAX,
    ensures
        ({
            let report = state.status(now);
            &&& report.queue_depth == state.queue.len()
            &&& report.in_flight == state.in_flight
            &&& report.processed_total == state.processed_total
            &&& report.failed_total == state.failed_total
            &&& state.started <= now ==> 1_000_000_000 * report.uptime_seconds <= now
                - state.started < 1_000_000_000 * (report.uptime_seconds + 1)
            &&& now < state.started ==> report.uptime_seconds == 0
            &&& report.avg_batch_seconds == average(state.metrics.rolling)
            &&& report.current_batch is Some <==> state.metrics.current is Some
            &&& state.metrics.current matches Some(batch) ==> report.current_batch == Some(
                batch.reported(now),
            )
            &&& report.last_completed is Some <==> state.metrics.last_completed is Some
            &&& state.metrics.last_completed matches Some(batch) ==> report.last_completed == Some(
                batch.reported(now),
            )
            &&& report.network is Some <==> state.network is Some
            &&& report.network matches Some(network) ==> {
                &&& network.nm_available == state.network->0.available
                &&& network.metered <==> state.gate.reasons & 1 != 0
            }
            &&& report.paused <==> state.gate.reasons & 2 != 0
        }),
{
    law_seconds_are_whole(state.started, now);
}

/// What the metrics say of a batch is what the batch is.
pub proof fn law_the_metrics_say_what_a_batch_is(batch: Batch, now: u64)
    ensures
        batch.as_running().drv_path == batch.job.drv_path,
        batch.as_running().paths_count == batch.job.out_paths@.len(),
        batch.as_running().closure_bytes == batch.closure_bytes,
        batch.as_running().started == batch.started,
        batch.as_completed(now).drv_path == batch.job.drv_path,
        batch.as_completed(now).paths_count == batch.job.out_paths@.len(),
        batch.as_completed(now).closure_bytes == batch.closure_bytes,
        batch.started <= now ==> batch.started + batch.as_completed(now).duration == now,
        now < batch.started ==> batch.as_completed(now).duration == 0,
        batch.as_completed(now).completed == now,
{
    assert(batch.job.out_paths.len() == batch.job.out_paths@.len());
}

/// A worker takes whatever can come of what it does.
pub proof fn law_a_worker_takes_every_reply(worker: Worker, event: WorkerEvent)
    ensures
        worker is Idle || worker is Parked ==> (worker.expects(event) <==> event is Woken),
        worker is Sizing ==> (worker.expects(event) <==> event is Sized),
        worker is Running ==> (worker.expects(event) <==> event is HookEnded),
        worker is Stopped ==> !worker.expects(event),
{
}

/// Whatever a worker does, it touches neither how the daemon was set up, nor what the
/// watcher knows, nor the pause gate, nor the wakeups of the queue.
pub proof fn law_a_worker_leaves_the_rest(worker: Worker, state: StateView, event: WorkerEvent)
    requires
        worker.expects(event),
    ensures
        same_setup(state, worker.next(state, event).state),
        worker.next(state, event).state.gate == state.gate,
        worker.next(state, event).state.queue_wakeups == state.queue_wakeups,
{
}

/// An idle worker takes the first job off the queue, and looks on with it. Without one
/// it leaves on a shutdown, and else waits.
pub proof fn law_an_idle_worker_takes_the_first_job(state: StateView, shutdown: bool, now: u64)
    ensures
        ({
            let step = Worker::Idle.next(state, WorkerEvent::Woken { shutdown, now });
            &&& step.state.in_flight == state.in_flight
            &&& step.state.processed_total == state.processed_total
            &&& step.state.failed_total == state.failed_total
            &&& step.state.metrics == state.metrics
            &&& state.queue.len() > 0 ==> {
                &&& step.worker == Worker::Parked(state.queue[0])
                &&& step.action == WorkerAction::Look
                &&& state.queue == seq![state.queue[0]] + step.state.queue
            }
            &&& state.queue.len() == 0 ==> step.state == state
            &&& state.queue.len() == 0 && shutdown ==> step.worker is Stopped && step.action
                == WorkerAction::Exit
            &&& state.queue.len() == 0 && !shutdown ==> step.worker is Idle && step.action
                == WorkerAction::AwaitJob
        }),
{
    assert(state.queue.len() > 0 ==> state.queue =~= seq![state.queue[0]] + state.queue.skip(1));
}

/// A worker with a job leaves on a shutdown, paused or not. While some reason to pause
/// is active it stays parked, for a second at most; and else it begins to size its job,
/// and the metrics list that with an unknown size.
pub proof fn law_a_worker_with_a_job_goes_on_unless_paused(
    job: Job,
    state: StateView,
    shutdown: bool,
    now: u64,
)
    ensures
        ({
            let step = Worker::Parked(job).next(state, WorkerEvent::Woken { shutdown, now });
            &&& step.state.queue == state.queue
            &&& step.state.in_flight == state.in_flight
            &&& step.state.processed_total == state.processed_total
            &&& step.state.failed_total == state.failed_total
            &&& step.state.metrics.rolling == state.metrics.rolling
            &&& step.state.metrics.last_completed == state.metrics.last_completed
            &&& step.state.metrics.running == state.metrics.running
            &&& shutdown ==> {
                &&& step.worker is Stopped
                &&& step.action == WorkerAction::Exit
                &&& step.state == state
            }
            &&& !shutdown && state.gate.reasons != 0 ==> {
                &&& step.worker == Worker::Parked(job)
                &&& step.action == WorkerAction::AwaitRelease { at_most: 1_000_000_000 }
                &&& step.state == state
            }
            &&& !shutdown && state.gate.reasons == 0 ==> {
                let batch = Batch { job, closure_bytes: None, started: now };
                &&& step.worker == Worker::Sizing(batch)
                &&& step.action == WorkerAction::SizeClosure
                &&& step.state.metrics.sizing == state.metrics.sizing.push(batch.as_running())
                &&& step.state.metrics.current == shown(
                    state.metrics.running,
                    step.state.metrics.sizing,
                )
            }
        }),
{
}

/// A sized job runs its hook from then on, as the job that it was and with the size that
/// came, if one did. It counts as in flight, and the metrics list and show it.
pub proof fn law_a_sized_job_runs_its_hook(
    sized: Batch,
    state: StateView,
    closure_bytes: Option<u64>,
    now: u64,
)
    requires
        state.in_flight < usize::MAX,
    ensures
        ({
            let step = Worker::Sizing(sized).next(
                state,
                WorkerEvent::Sized { closure_bytes, now },
            );
            let batch = Batch { job: sized.job, closure_bytes, started: now };
            &&& step.worker == Worker::Running(batch)
            &&& step.action == WorkerAction::RunHook
            &&& step.state.in_flight == state.in_flight + 1
            &&& step.state.queue == state.queue
            &&& step.state.processed_total == state.processed_total
            &&& step.state.failed_total == state.failed_total
            &&& step.state.metrics.rolling == state.metrics.rolling
            &&& step.state.metrics.last_completed == state.metrics.last_completed
            &&& step.state.metrics.running == state.metrics.running.push(batch.as_running())
            &&& step.state.metrics.sizing == without(
                state.metrics.sizing,
                sized.as_running()@,
            )
            &&& step.state.metrics.current == Some(batch.as_running())
        }),
{
}

/// Once its hook run ended, a worker looks for the next job, and its batch is no longer
/// in flight. A success is counted as processed, and is the last completed batch and the
/// newest in the window; a failure is counted as failed. A cancelled job is counted
/// nowhere, and is the first in the queue again, unless the daemon is shutting down.
pub proof fn law_an_ended_run_is_booked_once(
    batch: Batch,
    state: StateView,
    outcome: HookOutcome,
    now: u64,
    shutdown: bool,
)
    requires
        0 < state.in_flight,
        state.processed_total < u64::MAX,
        state.failed_total < u64::MAX,
    ensures
        ({
            let step = Worker::Running(batch).next(
                state,
                WorkerEvent::HookEnded { outcome, now, shutdown },
            );
            let window = state.metrics.rolling;
            &&& step.worker is Idle
            &&& step.action == WorkerAction::Look
            &&& step.state.in_flight == state.in_flight - 1
            &&& step.state.processed_total == state.processed_total + if outcome is Success {
                1int
            } else {
                0
            }
            &&& step.state.failed_total == state.failed_total + if outcome is Failed {
                1int
            } else {
                0
            }
            &&& step.state.queue == if outcome is Cancelled && !shutdown {
                seq![batch.job] + state.queue
            } else {
                state.queue
            }
            &&& step.state.metrics.sizing == state.metrics.sizing
            &&& step.state.metrics.running == without(
                state.metrics.running,
                batch.as_running()@,
            )
            &&& step.state.metrics.current == shown(
                step.state.metrics.running,
                state.metrics.sizing,
            )
            &&& outcome is Success ==> {
                &&& step.state.metrics.last_completed == Some(batch.as_completed(now))
                &&& step.state.metrics.rolling == pruned(
                    window.push(batch.as_completed(now)),
                    now,
                )
            }
            &&& !(outcome is Success) ==> {
                &&& step.state.metrics.last_completed == state.metrics.last_completed
                &&& step.state.metrics.rolling == window
            }
        }),
{
}

} // verus!
