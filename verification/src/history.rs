//! The daemon from its start on: what holds of whole runs, whatever happens.

use vstd::multiset::Multiset;
use vstd::prelude::*;

use crate::clock::law_seconds_are_whole;
use crate::daemon::{after_request, at_least_one, DaemonOpts, Job, SocketKind, StateView};
use crate::gate::{REASON_MANUAL, REASON_METERED};
use crate::hook::HookOutcome;
use crate::metrics::{
    average, contents, in_order, law_a_recent_batch_is_reported_as_it_is,
    law_recording_keeps_the_order, law_the_average_adds_up, law_the_window_drops_nothing_else,
    law_the_window_holds_nothing_stale, law_the_window_is_capped, law_the_window_keeps_the_newest,
    pruned, total_duration, BatchView, CompletedBatch, ROLLING_MAX_ENTRIES,
};
use crate::network_state::{gate_after, network_after, reported, WatchEvent};
use crate::protocol::{CurrentBatch, Request};
use crate::system::{
    all_jobs, held, law_a_worker_loses_no_job, law_the_current_batch_is_under_way,
    law_the_daemon_loses_no_job, law_the_metrics_say_what_a_batch_is,
    law_the_status_tracks_the_workers, law_workers_keep_the_window_in_order,
    lemma_idle_workers_hold_nothing, pending, running, shuts_down, tracks,
};
use crate::worker::{Batch, Worker, WorkerEvent};

verus! {

/// Something that happens to the daemon.
pub ghost enum Happening {
    /// A request comes over a socket.
    Asked(Request, SocketKind),
    /// The worker of this index takes an event.
    Worked(int, WorkerEvent),
    /// The watcher hears from the bus.
    Watched(WatchEvent),
    /// Everyone is woken.
    Woken,
}

/// The daemon's state and its workers.
pub ghost struct Daemon {
    pub state: StateView,
    pub workers: Seq<Worker>,
}

impl Daemon {
    /// A daemon that has just started.
    pub open spec fn fresh(opts: DaemonOpts, now: u64) -> Daemon {
        Daemon {
            state: StateView::fresh(opts, now),
            workers: Seq::new(at_least_one(opts.concurrency as int) as nat, |i: int| Worker::Idle),
        }
    }

    /// Whether `what` can happen now. There is a watcher only where the daemon
    /// pauses on metered connections.
    pub open spec fn admits(self, what: Happening) -> bool {
        match what {
            Happening::Asked(_, _) => true,
            Happening::Worked(i, event) => 0 <= i < self.workers.len() && self.workers[i].expects(
                event,
            ),
            Happening::Watched(_) => self.state.network is Some,
            Happening::Woken => true,
        }
    }

    /// The daemon once `what` happened.
    pub open spec fn after(self, what: Happening) -> Daemon {
        match what {
            Happening::Asked(req, kind) => Daemon {
                state: after_request(self.state, req, kind),
                ..self
            },
            Happening::Worked(i, event) => {
                let step = self.workers[i].next(self.state, event);
                Daemon { state: step.state, workers: self.workers.update(i, step.worker) }
            },
            Happening::Watched(event) => Daemon {
                state: StateView {
                    gate: gate_after(self.state.gate, event),
                    network: Some(network_after(self.state.network->0, event)),
                    ..self.state
                },
                ..self
            },
            Happening::Woken => Daemon { state: self.state.with_all_woken(), ..self },
        }
    }

    /// Whether `history` can happen, one thing after the other.
    pub open spec fn lives_through(self, history: Seq<Happening>) -> bool
        decreases history.len(),
    {
        history.len() == 0 || (self.lives_through(history.drop_last()) && self.grown(
            history.drop_last(),
        ).admits(history.last()))
    }

    /// The daemon after `history`.
    pub open spec fn grown(self, history: Seq<Happening>) -> Daemon
        decreases history.len(),
    {
        if history.len() == 0 {
            self
        } else {
            self.grown(history.drop_last()).after(history.last())
        }
    }

    /// The jobs whose hook succeeded or failed for good in `history`, in the order
    /// in which it did.
    pub open spec fn ended(self, history: Seq<Happening>) -> Seq<Job>
        decreases history.len(),
    {
        if history.len() == 0 {
            seq![]
        } else {
            let before = self.ended(history.drop_last());
            match history.last() {
                Happening::Worked(i, WorkerEvent::HookEnded { outcome, .. }) => if outcome
                    is Cancelled {
                    before
                } else {
                    before.push(self.grown(history.drop_last()).workers[i]->Running_0.job)
                },
                _ => before,
            }
        }
    }
}

/// From its start on, whatever happens to it, the daemon has as many workers as it
/// was told, and its status keeps track of them.
pub proof fn law_every_daemon_tracks_its_workers(
    opts: DaemonOpts,
    started: u64,
    history: Seq<Happening>,
)
    requires
        Daemon::fresh(opts, started).lives_through(history),
    ensures
        ({
            let daemon = Daemon::fresh(opts, started).grown(history);
            &&& daemon.workers.len() == at_least_one(opts.concurrency as int)
            &&& tracks(daemon.state, daemon.workers)
        }),
    decreases history.len(),
{
    let fresh = Daemon::fresh(opts, started);
    if history.len() == 0 {
        lemma_idle_workers_hold_nothing(fresh.workers);
        assert(contents(Seq::empty()) =~= Seq::<BatchView>::empty());
        assert(Seq::<BatchView>::empty().to_multiset() =~= Multiset::empty()) by {
            broadcast use vstd::seq_lib::group_to_multiset_ensures;

        }
    } else {
        law_every_daemon_tracks_its_workers(opts, started, history.drop_last());
        let before = fresh.grown(history.drop_last());
        match history.last() {
            Happening::Asked(req, kind) => {
                let woken = WorkerEvent::Woken { shutdown: false, now: 0 };
                law_the_status_tracks_the_workers(
                    before.state,
                    before.workers,
                    0,
                    woken,
                    req,
                    kind,
                );
            },
            Happening::Worked(i, event) => {
                law_the_status_tracks_the_workers(
                    before.state,
                    before.workers,
                    i,
                    event,
                    Request::Status,
                    SocketKind::Full,
                );
            },
            _ => {},
        }
    }
}

/// Whether no worker is told of a shutdown in `history`.
pub open spec fn goes_on(history: Seq<Happening>) -> bool
    decreases history.len(),
{
    history.len() == 0 || (goes_on(history.drop_last()) && match history.last() {
        Happening::Worked(_, event) => !shuts_down(event),
        _ => true,
    })
}

/// The jobs of the enqueue requests that were acked in `history`, in their order:
/// those over the enqueue socket, with outputs.
pub open spec fn acked(history: Seq<Happening>) -> Seq<Job>
    decreases history.len(),
{
    if history.len() == 0 {
        seq![]
    } else {
        let before = acked(history.drop_last());
        match history.last() {
            Happening::Asked(
                Request::Enqueue { drv_path, out_paths },
                SocketKind::Full,
            ) => if out_paths@.len() > 0 {
                before.push(Job { drv_path, out_paths })
            } else {
                before
            },
            _ => before,
        }
    }
}

/// No run loses, duplicates or makes up a job: but for a shutdown, the jobs that
/// were acked are those that ended, those in the queue and those that a worker
/// holds, each exactly once.
pub proof fn law_no_run_loses_a_job(opts: DaemonOpts, started: u64, history: Seq<Happening>)
    requires
        Daemon::fresh(opts, started).lives_through(history),
        goes_on(history),
    ensures
        ({
            let fresh = Daemon::fresh(opts, started);
            let daemon = fresh.grown(history);
            acked(history).to_multiset() == fresh.ended(history).to_multiset().add(
                all_jobs(daemon.state, daemon.workers),
            )
        }),
    decreases history.len(),
{
    broadcast use vstd::seq_lib::group_to_multiset_ensures;

    let fresh = Daemon::fresh(opts, started);
    let none = Seq::<Job>::empty();
    if history.len() == 0 {
        lemma_idle_workers_hold_nothing(fresh.workers);
        assert(none.to_multiset() =~= Multiset::empty());
        assert(none.to_multiset() =~= none.to_multiset().add(
            all_jobs(fresh.state, fresh.workers),
        ));
    } else {
        let past = history.drop_last();
        law_no_run_loses_a_job(opts, started, past);
        let before = fresh.grown(past);
        let after = fresh.grown(history);
        let jobs_before = all_jobs(before.state, before.workers);
        let jobs = all_jobs(after.state, after.workers);
        let ended = fresh.ended(past).to_multiset();
        match history.last() {
            Happening::Asked(req, kind) => {
                if let Request::Enqueue { drv_path, out_paths } = req {
                    if kind is Full && out_paths@.len() > 0 {
                        let job = Job { drv_path, out_paths };
                        assert(jobs =~= jobs_before.insert(job));
                        assert(ended.add(jobs_before).insert(job) =~= ended.add(jobs));
                    }
                }
            },
            Happening::Worked(i, event) => {
                law_the_daemon_loses_no_job(before.state, before.workers, i, event);
                if let WorkerEvent::HookEnded { outcome, .. } = event {
                    if !(outcome is Cancelled) {
                        let job = before.workers[i]->Running_0.job;
                        assert(jobs.insert(job) == jobs_before);
                        assert(ended.add(jobs_before) =~= ended.insert(job).add(jobs));
                    }
                }
            },
            _ => {},
        }
    }
}

/// How many hook runs came to `outcome` in `history`.
pub open spec fn endings(history: Seq<Happening>, outcome: HookOutcome) -> nat
    decreases history.len(),
{
    if history.len() == 0 {
        0
    } else {
        endings(history.drop_last(), outcome) + match history.last() {
            Happening::Worked(_, WorkerEvent::HookEnded { outcome: came, .. }) => if came
                == outcome {
                1nat
            } else {
                0nat
            },
            _ => 0nat,
        }
    }
}

/// There are as many ended jobs as hook runs that succeeded or failed for good.
proof fn lemma_ended_jobs_are_endings(fresh: Daemon, history: Seq<Happening>)
    ensures
        fresh.ended(history).len() == endings(history, HookOutcome::Success) + endings(
            history,
            HookOutcome::Failed,
        ),
    decreases history.len(),
{
    if history.len() > 0 {
        lemma_ended_jobs_are_endings(fresh, history.drop_last());
    }
}

/// The counts add up over every run without a shutdown, while the number of acked
/// jobs fits a counter: `processed_total` is the number of hook runs that succeeded,
/// `failed_total` that of those that failed for good, and every acked job is counted
/// there once, or waits in the queue, or is held by a worker.
pub proof fn law_the_counts_add_up(opts: DaemonOpts, started: u64, history: Seq<Happening>)
    requires
        Daemon::fresh(opts, started).lives_through(history),
        goes_on(history),
        acked(history).len() <= u64::MAX,
    ensures
        ({
            let daemon = Daemon::fresh(opts, started).grown(history);
            &&& daemon.state.processed_total == endings(history, HookOutcome::Success)
            &&& daemon.state.failed_total == endings(history, HookOutcome::Failed)
            &&& acked(history).len() == daemon.state.processed_total + daemon.state.failed_total
                + daemon.state.queue.len() + held(daemon.workers).len()
        }),
    decreases history.len(),
{
    broadcast use vstd::seq_lib::group_to_multiset_ensures;

    let fresh = Daemon::fresh(opts, started);
    let daemon = fresh.grown(history);
    law_no_run_loses_a_job(opts, started, history);
    lemma_ended_jobs_are_endings(fresh, history);
    assert(acked(history).to_multiset().len() == fresh.ended(history).to_multiset().len()
        + daemon.state.queue.to_multiset().len() + held(daemon.workers).len());
    if history.len() > 0 {
        law_the_counts_add_up(opts, started, history.drop_last());
    }
}

/// With one worker, jobs are run in the order in which they were acked, over every
/// run without a shutdown, cancelled uploads included: the jobs that ended, then the
/// one that the worker holds, then the queue are the acked jobs in their order.
pub proof fn law_a_lone_worker_keeps_the_order(
    opts: DaemonOpts,
    started: u64,
    history: Seq<Happening>,
)
    requires
        opts.concurrency <= 1,
        Daemon::fresh(opts, started).lives_through(history),
        goes_on(history),
    ensures
        ({
            let fresh = Daemon::fresh(opts, started);
            let daemon = fresh.grown(history);
            let ended = fresh.ended(history);
            &&& daemon.workers.len() == 1
            &&& ended + pending(daemon.workers[0], daemon.state) == acked(history)
            &&& daemon.workers[0].held() matches Some(job) ==> acked(history)[ended.len() as int]
                == job
        }),
    decreases history.len(),
{
    let fresh = Daemon::fresh(opts, started);
    let daemon = fresh.grown(history);
    let ended = fresh.ended(history);
    law_every_daemon_tracks_its_workers(opts, started, history);
    if history.len() == 0 {
        assert(ended + pending(daemon.workers[0], daemon.state) =~= acked(history));
    } else {
        let past = history.drop_last();
        law_a_lone_worker_keeps_the_order(opts, started, past);
        let before = fresh.grown(past);
        let were = pending(before.workers[0], before.state);
        let are = pending(daemon.workers[0], daemon.state);
        match history.last() {
            Happening::Asked(req, kind) => {
                if let Request::Enqueue { drv_path, out_paths } = req {
                    if kind is Full && out_paths@.len() > 0 {
                        assert(are =~= were.push(Job { drv_path, out_paths }));
                    }
                }
                assert(ended + are =~= acked(history));
            },
            Happening::Worked(i, event) => {
                law_a_worker_loses_no_job(before.workers[0], before.state, event);
                if let WorkerEvent::HookEnded { outcome, .. } = event {
                    if !(outcome is Cancelled) {
                        let job = before.workers[0]->Running_0.job;
                        assert(were == seq![job] + are);
                        assert(fresh.ended(past).push(job) + are =~= fresh.ended(past) + (seq![job]
                            + are));
                    }
                }
            },
            _ => {},
        }
    }
}

/// When `what` books the end of a hook run, if it does.
pub open spec fn hook_end(what: Happening) -> Option<u64> {
    match what {
        Happening::Worked(_, WorkerEvent::HookEnded { now, .. }) => Some(now),
        _ => None,
    }
}

/// When the last hook run in `history` ended.
pub open spec fn latest_end(history: Seq<Happening>) -> u64
    decreases history.len(),
{
    if history.len() == 0 {
        0
    } else {
        match hook_end(history.last()) {
            Some(now) => now,
            None => latest_end(history.drop_last()),
        }
    }
}

/// Whether no hook run in `history` ends before one that was booked earlier.
pub open spec fn ends_in_order(history: Seq<Happening>) -> bool {
    forall|i: int, j: int|
        0 <= i < j < history.len() && hook_end(#[trigger] history[i]) is Some && hook_end(
            #[trigger] history[j],
        ) is Some ==> hook_end(history[i])->0 <= hook_end(history[j])->0
}

/// The last end is one of those in the history, or there is none.
proof fn lemma_latest_end(history: Seq<Happening>)
    ensures
        latest_end(history) == 0 || exists|i: int|
            0 <= i < history.len() && hook_end(#[trigger] history[i]) == Some(latest_end(history)),
    decreases history.len(),
{
    if history.len() > 0 {
        let past = history.drop_last();
        let last = history.len() - 1;
        lemma_latest_end(past);
        if hook_end(history.last()) is Some {
            assert(hook_end(history[last]) == Some(latest_end(history)));
        } else if latest_end(past) != 0 {
            let i = choose|i: int|
                0 <= i < past.len() && hook_end(#[trigger] past[i]) == Some(latest_end(past));
            assert(hook_end(history[i]) == Some(latest_end(history)));
        }
    }
}

/// The rolling window of every run: never more entries than its cap, and, if the
/// hook ends do not run backwards, the entries in the order in which they completed.
pub proof fn law_every_window_is_capped_and_in_order(
    opts: DaemonOpts,
    started: u64,
    history: Seq<Happening>,
)
    requires
        Daemon::fresh(opts, started).lives_through(history),
    ensures
        ({
            let window = Daemon::fresh(opts, started).grown(history).state.metrics.rolling;
            &&& window.len() <= ROLLING_MAX_ENTRIES
            &&& ends_in_order(history) ==> in_order(window)
            &&& ends_in_order(history) ==> forall|k: int|
                0 <= k < window.len() ==> (#[trigger] window[k]).completed <= latest_end(history)
        }),
    decreases history.len(),
{
    let fresh = Daemon::fresh(opts, started);
    if history.len() > 0 {
        let past = history.drop_last();
        let before = fresh.grown(past);
        let window = before.state.metrics.rolling;
        law_every_window_is_capped_and_in_order(opts, started, past);
        if ends_in_order(history) {
            lemma_the_past_is_in_order(history);
        }
        if let Happening::Worked(i, event) = history.last() {
            if let WorkerEvent::HookEnded { outcome: HookOutcome::Success, now, .. } = event {
                let entry = before.workers[i]->Running_0.as_completed(now);
                let all = window.push(entry);
                law_the_window_is_capped(all, now);
                if ends_in_order(history) {
                    law_workers_keep_the_window_in_order(before.workers[i], before.state, event);
                    law_the_window_keeps_the_newest(all, now);
                }
            }
        }
    }
}

/// What holds of the ends of a history holds of those of its past; and the last end
/// is no earlier than those.
proof fn lemma_the_past_is_in_order(history: Seq<Happening>)
    requires
        history.len() > 0,
        ends_in_order(history),
    ensures
        ends_in_order(history.drop_last()),
        latest_end(history.drop_last()) <= latest_end(history),
{
    let past = history.drop_last();
    let last = history.len() - 1;
    assert forall|i: int, j: int|
        0 <= i < j < past.len() && hook_end(#[trigger] past[i]) is Some && hook_end(
            #[trigger] past[j],
        ) is Some implies hook_end(past[i])->0 <= hook_end(past[j])->0 by {
        assert(past[i] == history[i] && past[j] == history[j]);
    }
    lemma_latest_end(past);
    if hook_end(history.last()) is Some && latest_end(past) != 0 {
        let i = choose|i: int|
            0 <= i < past.len() && hook_end(#[trigger] past[i]) == Some(latest_end(past));
        assert(hook_end(history[i]) is Some && hook_end(history[last]) is Some);
    }
}

/// What each success of a run does to the rolling window, if the hook ends do not
/// run backwards: the new entry comes last, only the oldest entries are dropped, and
/// only for their age or for the cap. Nothing stale is left.
pub proof fn law_every_success_is_in_the_window(
    opts: DaemonOpts,
    started: u64,
    history: Seq<Happening>,
    i: int,
    now: u64,
    shutdown: bool,
)
    requires
        ({
            let success = WorkerEvent::HookEnded { outcome: HookOutcome::Success, now, shutdown };
            let booked = history.push(Happening::Worked(i, success));
            Daemon::fresh(opts, started).lives_through(booked) && ends_in_order(booked)
        }),
    ensures
        ({
            let success = WorkerEvent::HookEnded { outcome: HookOutcome::Success, now, shutdown };
            let before = Daemon::fresh(opts, started).grown(history);
            let entry = before.workers[i]->Running_0.as_completed(now);
            let all = before.state.metrics.rolling.push(entry);
            let window = before.after(Happening::Worked(i, success)).state.metrics.rolling;
            &&& 0 < window.len() <= all.len()
            &&& window == all.skip(all.len() - window.len())
            &&& window.last() == entry
            &&& forall|k: int| 0 <= k < window.len() ==> !(#[trigger] window[k]).is_stale(now)
            &&& forall|k: int|
                0 <= k < all.len() - window.len() ==> (#[trigger] all[k]).is_stale(now) || all.len()
                    - k > ROLLING_MAX_ENTRIES
        }),
{
    let success = WorkerEvent::HookEnded { outcome: HookOutcome::Success, now, shutdown };
    let booked = history.push(Happening::Worked(i, success));
    let fresh = Daemon::fresh(opts, started);
    assert(booked.drop_last() =~= history);
    let before = fresh.grown(history);
    let rolling = before.state.metrics.rolling;
    let entry = before.workers[i]->Running_0.as_completed(now);
    let all = rolling.push(entry);
    law_every_window_is_capped_and_in_order(opts, started, history);
    lemma_the_past_is_in_order(booked);
    law_recording_keeps_the_order(rolling, entry, now);
    law_the_window_keeps_the_newest(all, now);
    assert(in_order(all));
    law_the_window_holds_nothing_stale(all, now);
    assert forall|k: int| 0 <= k < all.len() - pruned(all, now).len() implies (
    #[trigger] all[k]).is_stale(now) || all.len() - k > ROLLING_MAX_ENTRIES by {
        if !all[k].is_stale(now) && all.len() - k <= ROLLING_MAX_ENTRIES {
            law_the_window_drops_nothing_else(all, now, k);
        }
    }
}

/// Whether the last pause or resume in `history` was a pause.
pub open spec fn left_paused(history: Seq<Happening>) -> bool
    decreases history.len(),
{
    history.len() > 0 && match history.last() {
        Happening::Asked(Request::Pause, _) => true,
        Happening::Asked(Request::Resume, _) => false,
        _ => left_paused(history.drop_last()),
    }
}

/// Whether the last that the watcher heard of the connection in `history` was that
/// it is metered. A lost NetworkManager reads as not metered.
pub open spec fn left_metered(history: Seq<Happening>) -> bool
    decreases history.len(),
{
    history.len() > 0 && match history.last() {
        Happening::Watched(event) => match reported(event) {
            Some(metered) => metered,
            None => left_metered(history.drop_last()),
        },
        _ => left_metered(history.drop_last()),
    }
}

/// The pause gate's bits for a manual pause and a metered connection.
pub open spec fn bits(paused: bool, metered: bool) -> u32 {
    if paused && metered {
        3
    } else if paused {
        2
    } else if metered {
        1
    } else {
        0
    }
}

/// Over every run, the pause gate has exactly the reasons that the requests and the
/// watcher gave it: a pause is in effect and shows in the status from the moment it
/// is asked for until a resume, whatever else happens; the metered flag is what the
/// watcher last heard; and uploads are parked and cancelled exactly while one of the
/// two holds.
pub proof fn law_a_pause_lasts_until_a_resume(
    opts: DaemonOpts,
    started: u64,
    history: Seq<Happening>,
    now: u64,
)
    requires
        Daemon::fresh(opts, started).lives_through(history),
    ensures
        ({
            let state = Daemon::fresh(opts, started).grown(history).state;
            &&& state.gate.reasons == bits(left_paused(history), left_metered(history))
            &&& state.status(now).paused == left_paused(history)
            &&& state.network is Some <==> opts.pause_on_metered
            &&& state.status(now).network matches Some(network) ==> network.metered
                == left_metered(history)
            &&& state.gate.is_blocked() == (left_paused(history) || left_metered(history))
            &&& state.cancels(false) == (left_paused(history) || left_metered(history))
        }),
    decreases history.len(),
{
    assert(REASON_METERED == 1 && REASON_MANUAL == 2);
    assert(0u32 & 1 == 0 && 1u32 & 1 == 1 && 2u32 & 1 == 0 && 3u32 & 1 == 1) by (bit_vector);
    assert(0u32 & 2 == 0 && 1u32 & 2 == 0 && 2u32 & 2 == 2 && 3u32 & 2 == 2) by (bit_vector);
    assert(0u32 | 1 == 1 && 1u32 | 1 == 1 && 2u32 | 1 == 3 && 3u32 | 1 == 3) by (bit_vector);
    assert(0u32 | 2 == 2 && 1u32 | 2 == 3 && 2u32 | 2 == 2 && 3u32 | 2 == 3) by (bit_vector);
    assert(0u32 & !1u32 == 0 && 1u32 & !1u32 == 0 && 2u32 & !1u32 == 2 && 3u32 & !1u32 == 2)
        by (bit_vector);
    assert(0u32 & !2u32 == 0 && 1u32 & !2u32 == 1 && 2u32 & !2u32 == 0 && 3u32 & !2u32 == 1)
        by (bit_vector);
    if history.len() > 0 {
        law_a_pause_lasts_until_a_resume(opts, started, history.drop_last(), now);
    }
}

/// A daemon stays as its options set it up, whatever happens to it: it runs the
/// configured hook, as often and with the backoff that were configured, and at least
/// once; it knows when it started; and it watches the network exactly if it was told to.
pub proof fn law_a_daemon_stays_as_it_was_set_up(
    opts: DaemonOpts,
    started: u64,
    history: Seq<Happening>,
)
    requires
        Daemon::fresh(opts, started).lives_through(history),
    ensures
        ({
            let state = Daemon::fresh(opts, started).grown(history).state;
            &&& state.hook == opts.hook
            &&& state.retry_interval == opts.retry_interval
            &&& opts.retries >= 1 ==> state.retries == opts.retries
            &&& opts.retries == 0 ==> state.retries == 1
            &&& state.started == started
            &&& state.network is Some <==> opts.pause_on_metered
        }),
    decreases history.len(),
{
    if history.len() > 0 {
        law_a_daemon_stays_as_it_was_set_up(opts, started, history.drop_last());
    }
}

/// A daemon has as many workers as were configured, and at least one.
pub proof fn law_a_daemon_has_its_workers(
    opts: DaemonOpts,
    started: u64,
    history: Seq<Happening>,
)
    requires
        Daemon::fresh(opts, started).lives_through(history),
    ensures
        ({
            let workers = Daemon::fresh(opts, started).grown(history).workers;
            &&& opts.concurrency >= 1 ==> workers.len() == opts.concurrency
            &&& opts.concurrency == 0 ==> workers.len() == 1
        }),
        at_least_one(opts.concurrency as int) == Daemon::fresh(opts, started).workers.len(),
{
    law_every_daemon_tracks_its_workers(opts, started, history);
}

/// Over every run, the hooks that the status reports as in flight are as many as the
/// workers that run one.
pub proof fn law_every_status_counts_the_running_hooks(
    opts: DaemonOpts,
    started: u64,
    history: Seq<Happening>,
    now: u64,
)
    requires
        Daemon::fresh(opts, started).lives_through(history),
    ensures
        ({
            let daemon = Daemon::fresh(opts, started).grown(history);
            daemon.state.status(now).in_flight == running(daemon.workers)
        }),
{
    law_every_daemon_tracks_its_workers(opts, started, history);
}

/// Over every run without a shutdown, the status counts the jobs: in the queue are the
/// acked jobs that have not ended and that no worker holds, and the totals are the numbers
/// of hook runs that succeeded and that failed for good.
pub proof fn law_every_status_counts_the_jobs(
    opts: DaemonOpts,
    started: u64,
    history: Seq<Happening>,
    now: u64,
)
    requires
        Daemon::fresh(opts, started).lives_through(history),
        goes_on(history),
        acked(history).len() <= usize::MAX,
    ensures
        ({
            let fresh = Daemon::fresh(opts, started);
            let daemon = fresh.grown(history);
            let report = daemon.state.status(now);
            &&& report.queue_depth == acked(history).len() - fresh.ended(history).len() - held(
                daemon.workers,
            ).len()
            &&& report.processed_total == endings(history, HookOutcome::Success)
            &&& report.failed_total == endings(history, HookOutcome::Failed)
            &&& acked(history).len() == report.queue_depth + report.processed_total
                + report.failed_total + held(daemon.workers).len()
        }),
{
    law_the_counts_add_up(opts, started, history);
    lemma_ended_jobs_are_endings(Daemon::fresh(opts, started), history);
}

/// Over every run, the status tells how many whole seconds ago the daemon started.
pub proof fn law_every_status_tells_the_uptime(
    opts: DaemonOpts,
    started: u64,
    history: Seq<Happening>,
    now: u64,
)
    requires
        Daemon::fresh(opts, started).lives_through(history),
        started <= now,
    ensures
        ({
            let up = Daemon::fresh(opts, started).grown(history).state.status(now).uptime_seconds;
            1_000_000_000 * up <= now - started < 1_000_000_000 * (up + 1)
        }),
{
    law_a_daemon_stays_as_it_was_set_up(opts, started, history);
    law_seconds_are_whole(started, now);
}

/// Whether a report says of a batch what the batch is, and that it started at `started`.
pub open spec fn tells_of(report: CurrentBatch, batch: Batch, now: u64) -> bool {
    &&& match (report.drv_path, batch.job.drv_path) {
        (Some(told), Some(drv)) => told@ == drv@,
        (None, None) => true,
        _ => false,
    }
    &&& report.paths_count == batch.job.out_paths@.len()
    &&& report.closure_bytes == batch.closure_bytes
    &&& batch.started <= now ==> 1_000_000_000 * report.started_seconds_ago <= now - batch.started
        < 1_000_000_000 * (report.started_seconds_ago + 1)
}

/// Over every run, the status shows a current batch exactly while a worker runs or sizes
/// one, and tells of the batch of such a worker: while any runs a hook, of one that does.
pub proof fn law_every_status_shows_a_batch_under_way(
    opts: DaemonOpts,
    started: u64,
    history: Seq<Happening>,
    now: u64,
)
    requires
        Daemon::fresh(opts, started).lives_through(history),
    ensures
        ({
            let daemon = Daemon::fresh(opts, started).grown(history);
            let workers = daemon.workers;
            let current = daemon.state.status(now).current_batch;
            &&& current is Some <==> exists|i: int|
                0 <= i < workers.len() && (#[trigger] workers[i] is Running || workers[i] is Sizing)
            &&& (exists|i: int| 0 <= i < workers.len() && #[trigger] workers[i] is Running) ==> exists|
                i: int,
            |
                0 <= i < workers.len() && #[trigger] workers[i] is Running && tells_of(
                    current->0,
                    workers[i]->Running_0,
                    now,
                )
            &&& current is Some && !(exists|i: int|
                0 <= i < workers.len() && #[trigger] workers[i] is Running) ==> exists|i: int|
                0 <= i < workers.len() && #[trigger] workers[i] is Sizing && tells_of(
                    current->0,
                    workers[i]->Sizing_0,
                    now,
                )
        }),
{
    let daemon = Daemon::fresh(opts, started).grown(history);
    let workers = daemon.workers;
    law_every_daemon_tracks_its_workers(opts, started, history);
    law_the_current_batch_is_under_way(daemon.state, workers, now);
    lemma_running_if_any(workers);
    if let Some(batch) = daemon.state.metrics.current {
        law_seconds_are_whole(batch.started, now);
        if running(workers) > 0 {
            let i = choose|i: int|
                0 <= i < workers.len() && #[trigger] workers[i] is Running
                    && workers[i]->Running_0.as_running()@ == batch@;
            law_the_metrics_say_what_a_batch_is(workers[i]->Running_0, now);
            assert(tells_of(batch.reported(now), workers[i]->Running_0, now));
        } else {
            let i = choose|i: int|
                0 <= i < workers.len() && #[trigger] workers[i] is Sizing
                    && workers[i]->Sizing_0.as_running()@ == batch@;
            law_the_metrics_say_what_a_batch_is(workers[i]->Sizing_0, now);
            assert(tells_of(batch.reported(now), workers[i]->Sizing_0, now));
        }
    }
}

/// Hooks are counted exactly if any runs.
proof fn lemma_running_if_any(workers: Seq<Worker>)
    ensures
        running(workers) > 0 <==> exists|i: int|
            0 <= i < workers.len() && #[trigger] workers[i] is Running,
    decreases workers.len(),
{
    if workers.len() > 0 {
        let head = workers.drop_last();
        let last = workers.len() - 1;
        lemma_running_if_any(head);
        if running(head) > 0 {
            let i = choose|i: int| 0 <= i < head.len() && #[trigger] head[i] is Running;
            assert(workers[i] is Running);
        }
        if exists|i: int| 0 <= i < workers.len() && #[trigger] workers[i] is Running {
            let i = choose|i: int| 0 <= i < workers.len() && #[trigger] workers[i] is Running;
            if i < last {
                assert(head[i] is Running);
            }
        }
        assert(workers[last] == workers.last());
    }
}

impl Daemon {
    /// The batch whose hook succeeded last in `history`, and when it did.
    pub open spec fn last_success(self, history: Seq<Happening>) -> Option<(Batch, u64)>
        decreases history.len(),
    {
        if history.len() == 0 {
            None
        } else {
            match history.last() {
                Happening::Worked(
                    i,
                    WorkerEvent::HookEnded { outcome: HookOutcome::Success, now, .. },
                ) => Some((self.grown(history.drop_last()).workers[i]->Running_0, now)),
                _ => self.last_success(history.drop_last()),
            }
        }
    }
}

/// Over every run, the last completed batch in the status is the one whose hook succeeded
/// last, told of as it is: its .drv, its number of outputs, its size, how many whole
/// seconds its hook took and how many whole seconds ago it succeeded.
pub proof fn law_every_status_tells_of_the_last_success(
    opts: DaemonOpts,
    started: u64,
    history: Seq<Happening>,
    now: u64,
)
    requires
        Daemon::fresh(opts, started).lives_through(history),
    ensures
        ({
            let fresh = Daemon::fresh(opts, started);
            let last = fresh.grown(history).state.status(now).last_completed;
            match fresh.last_success(history) {
                None => last is None,
                Some((batch, end)) => last matches Some(report) && {
                    &&& report.drv_path == batch.job.drv_path
                    &&& report.paths_count == batch.job.out_paths@.len()
                    &&& report.closure_bytes == batch.closure_bytes
                    &&& batch.started <= end ==> 1_000_000_000 * report.duration_seconds <= end
                        - batch.started < 1_000_000_000 * (report.duration_seconds + 1)
                    &&& end <= now ==> 1_000_000_000 * report.completed_seconds_ago <= now - end
                        < 1_000_000_000 * (report.completed_seconds_ago + 1)
                },
            }
        }),
    decreases history.len(),
{
    let fresh = Daemon::fresh(opts, started);
    if history.len() > 0 {
        law_every_status_tells_of_the_last_success(opts, started, history.drop_last(), now);
        if let Happening::Worked(
            i,
            WorkerEvent::HookEnded { outcome: HookOutcome::Success, now: end, .. },
        ) = history.last() {
            let batch = fresh.grown(history.drop_last()).workers[i]->Running_0;
            law_the_metrics_say_what_a_batch_is(batch, end);
            law_a_recent_batch_is_reported_as_it_is(batch.as_completed(end), now);
        }
    }
}

/// Over every run, the status has an average exactly from the first success on, over as
/// many batches as the window holds and with the sum of their durations.
pub proof fn law_every_status_averages_the_window(
    opts: DaemonOpts,
    started: u64,
    history: Seq<Happening>,
    now: u64,
)
    requires
        Daemon::fresh(opts, started).lives_through(history),
        ends_in_order(history),
    ensures
        ({
            let fresh = Daemon::fresh(opts, started);
            let state = fresh.grown(history).state;
            let window = state.metrics.rolling;
            let mean = state.status(now).avg_batch_seconds;
            &&& mean is Some <==> fresh.last_success(history) is Some
            &&& mean is Some <==> window.len() > 0
            &&& mean matches Some(m) ==> m.batches == window.len() && m.total_nanos
                == total_duration(window)
        }),
    decreases history.len(),
{
    let fresh = Daemon::fresh(opts, started);
    let window = fresh.grown(history).state.metrics.rolling;
    law_every_window_is_capped_and_in_order(opts, started, history);
    if window.len() > 0 {
        law_the_average_adds_up(window.drop_last(), window.last());
        assert(window.drop_last().push(window.last()) =~= window);
        lemma_average_is_the_total(window);
    }
    if history.len() > 0 {
        lemma_the_past_is_in_order(history);
        law_every_status_averages_the_window(opts, started, history.drop_last(), now);
        if let Happening::Worked(
            i,
            WorkerEvent::HookEnded { outcome: HookOutcome::Success, now: end, shutdown },
        ) = history.last() {
            assert(history.drop_last().push(history.last()) =~= history);
            law_every_success_is_in_the_window(
                opts,
                started,
                history.drop_last(),
                i,
                end,
                shutdown,
            );
        }
    }
}

/// The sum of an average is the sum of the durations.
proof fn lemma_average_is_the_total(window: Seq<CompletedBatch>)
    requires
        window.len() <= ROLLING_MAX_ENTRIES,
    ensures
        window.len() > 0 ==> average(window)->0.total_nanos == total_duration(window),
    decreases window.len(),
{
    if window.len() > 0 {
        let head = window.drop_last();
        lemma_average_is_the_total(head);
        law_the_average_adds_up(head, window.last());
        assert(head.push(window.last()) =~= window);
    }
}

/// Whether NetworkManager was reached in `history` and not lost since.
pub open spec fn left_available(history: Seq<Happening>) -> bool
    decreases history.len(),
{
    history.len() > 0 && match history.last() {
        Happening::Watched(WatchEvent::Reached(_)) => true,
        Happening::Watched(WatchEvent::Ended) => false,
        Happening::Watched(WatchEvent::Failed) => false,
        _ => left_available(history.drop_last()),
    }
}

/// The value of `NM_METERED` that NetworkManager gave last in `history`, unless it was lost
/// since.
pub open spec fn last_value(history: Seq<Happening>) -> Option<u32>
    decreases history.len(),
{
    if history.len() == 0 {
        None
    } else {
        match history.last() {
            Happening::Watched(WatchEvent::Reached(v)) => Some(v),
            Happening::Watched(WatchEvent::Changed { interface, metered: Some(v) }) => if interface@
                == "org.freedesktop.NetworkManager"@ {
                Some(v)
            } else {
                last_value(history.drop_last())
            },
            Happening::Watched(WatchEvent::Ended) => None,
            Happening::Watched(WatchEvent::Failed) => None,
            _ => last_value(history.drop_last()),
        }
    }
}

/// Over every run, uploads are parked and cancelled for a metered connection exactly while
/// the last value that NetworkManager gave, and did not take back by getting lost, is 1 or
/// 3. The status says so, and whether NetworkManager is there.
pub proof fn law_uploads_wait_for_an_unmetered_connection(
    opts: DaemonOpts,
    started: u64,
    history: Seq<Happening>,
    now: u64,
)
    requires
        Daemon::fresh(opts, started).lives_through(history),
    ensures
        ({
            let state = Daemon::fresh(opts, started).grown(history).state;
            let metered = last_value(history) == Some(1u32) || last_value(history) == Some(3u32);
            &&& state.gate.is_active(REASON_METERED) <==> metered
            &&& metered ==> state.gate.is_blocked() && state.cancels(false)
            &&& !metered ==> (state.gate.is_blocked() <==> left_paused(history))
            &&& state.status(now).network matches Some(network) ==> {
                &&& network.metered <==> metered
                &&& network.nm_available <==> left_available(history)
            }
        }),
    decreases history.len(),
{
    law_a_pause_lasts_until_a_resume(opts, started, history, now);
    lemma_metered_by_value(history);
    lemma_available(opts, started, history);
    assert(0u32 & 1 == 0 && 1u32 & 1 == 1 && 2u32 & 1 == 0 && 3u32 & 1 == 1) by (bit_vector);
}

/// What the watcher heard last, by its value.
proof fn lemma_metered_by_value(history: Seq<Happening>)
    ensures
        left_metered(history) <==> last_value(history) == Some(1u32) || last_value(history)
            == Some(3u32),
    decreases history.len(),
{
    if history.len() > 0 {
        lemma_metered_by_value(history.drop_last());
    }
}

/// What the state knows of NetworkManager's availability.
proof fn lemma_available(opts: DaemonOpts, started: u64, history: Seq<Happening>)
    requires
        Daemon::fresh(opts, started).lives_through(history),
    ensures
        Daemon::fresh(opts, started).grown(history).state.network matches Some(network)
            ==> network.available == left_available(history),
    decreases history.len(),
{
    if history.len() > 0 {
        lemma_available(opts, started, history.drop_last());
    }
}

} // verus!
