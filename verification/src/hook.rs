//! Running a job's hook: attempts, backoff and cancelling.
//!
//! A [`HookRun`] decides what happens next to one job's hook. Whoever drives it
//! performs each [`HookAction`] and hands back the [`HookEvent`] that came of it.

use vstd::prelude::*;

verus! {

/// How often a run polls its child while watching for a pause/shutdown so it can
/// cancel an in-flight upload, in nanoseconds. Bounds cancel latency.
pub const CANCEL_POLL_INTERVAL: u64 = 100_000_000;

/// Grace period between SIGTERM and SIGKILL when cancelling an upload, in
/// nanoseconds.
pub const TERM_GRACE: u64 = 2_000_000_000;

/// Outcome of a single batch's hook run.
#[derive(Clone, Copy, Debug, PartialEq, Eq, Structural)]
pub enum HookOutcome {
    /// Hook exited 0.
    Success,
    /// Hook failed every attempt: count it and drop the batch.
    Failed,
    /// Cancelled mid-flight (pause asserted or shutdown). Requeue, don't count.
    Cancelled,
}

/// Where a run stands.
#[derive(Clone, Copy, Debug, PartialEq, Eq, Structural)]
pub enum HookPhase {
    /// An attempt is about to start.
    Starting,
    /// The hook is being spawned.
    Spawning,
    /// The hook runs.
    Waiting,
    /// The hook is being terminated because the run is cancelled.
    Aborting,
    /// The hook is being terminated because it cannot be waited for.
    Reaping,
    /// The next attempt waits for the backoff that began at `since`.
    BackingOff { since: u64 },
    /// The run is over.
    Done(HookOutcome),
}

/// What the driver of a run reports back.
#[derive(Clone, Copy, Debug, PartialEq, Eq, Structural)]
pub enum HookEvent {
    /// Whether to cancel, asked before an attempt.
    Begin { cancel: bool },
    /// The hook was spawned.
    Spawned,
    /// The hook could not be spawned.
    SpawnFailed { now: u64 },
    /// The hook exited.
    Exited { success: bool, now: u64 },
    /// The hook still runs; and whether to cancel.
    Running { cancel: bool },
    /// The hook could not be waited for.
    WaitFailed,
    /// The hook was terminated.
    Terminated { now: u64 },
    /// The time; and whether to cancel.
    Clock { now: u64, cancel: bool },
}

/// What the driver of a run is to do.
#[derive(Clone, Copy, Debug, PartialEq, Eq, Structural)]
pub enum HookAction {
    /// Ask whether to cancel.
    CheckCancel,
    /// Spawn the hook in a process group of its own.
    Spawn,
    /// Poll the hook, once so many nanoseconds have passed.
    Poll { after: u64 },
    /// Terminate the hook's process group.
    Terminate,
    /// Ask for the time and whether to cancel, once so many nanoseconds have
    /// passed.
    CheckBackoff { after: u64 },
    /// Nothing: the run is over.
    Finish(HookOutcome),
}

/// One job's hook run.
#[derive(Clone, Copy, Debug, PartialEq, Eq, Structural)]
pub struct HookRun {
    /// How many attempts may be made.
    pub retries: u32,
    /// The backoff between two attempts, in nanoseconds.
    pub retry_interval: u128,
    /// The attempt that is under way, from one on.
    pub attempt: u32,
    /// Where the attempt stands.
    pub phase: HookPhase,
}

/// A poll in the backoff comes after the usual interval, or after the backoff if
/// that is shorter.
pub open spec fn backoff_poll(retry_interval: u128) -> u64 {
    if retry_interval < CANCEL_POLL_INTERVAL {
        retry_interval as u64
    } else {
        CANCEL_POLL_INTERVAL
    }
}

impl HookRun {
    /// The run in another phase of the same attempt.
    pub open spec fn at(self, phase: HookPhase) -> HookRun {
        HookRun { phase, ..self }
    }

    /// Whether `event` can come in this phase.
    pub open spec fn expects(self, event: HookEvent) -> bool {
        match self.phase {
            HookPhase::Starting => event is Begin,
            HookPhase::Spawning => event is Spawned || event is SpawnFailed,
            HookPhase::Waiting => event is Exited || event is Running || event is WaitFailed,
            HookPhase::Aborting => event is Terminated,
            HookPhase::Reaping => event is Terminated,
            HookPhase::BackingOff { .. } => event is Clock,
            HookPhase::Done(_) => false,
        }
    }

    /// A run that ends with `outcome`.
    pub open spec fn ended(self, outcome: HookOutcome) -> (HookRun, HookAction) {
        (self.at(HookPhase::Done(outcome)), HookAction::Finish(outcome))
    }

    /// A run whose attempt failed at `now`: the backoff begins, unless that was
    /// the last attempt.
    pub open spec fn attempt_failed(self, now: u64) -> (HookRun, HookAction) {
        if self.attempt < self.retries {
            (
                self.at(HookPhase::BackingOff { since: now }),
                HookAction::CheckBackoff { after: 0 },
            )
        } else {
            self.ended(HookOutcome::Failed)
        }
    }

    /// Where `event` takes the run, and what to do then.
    pub open spec fn next(self, event: HookEvent) -> (HookRun, HookAction) {
        match event {
            HookEvent::Begin { cancel } => if cancel {
                self.ended(HookOutcome::Cancelled)
            } else {
                (self.at(HookPhase::Spawning), HookAction::Spawn)
            },
            HookEvent::Spawned => (
                self.at(HookPhase::Waiting),
                HookAction::Poll { after: 0 },
            ),
            HookEvent::SpawnFailed { now } => self.attempt_failed(now),
            HookEvent::Exited { success, now } => if success {
                self.ended(HookOutcome::Success)
            } else {
                self.attempt_failed(now)
            },
            HookEvent::Running { cancel } => if cancel {
                (self.at(HookPhase::Aborting), HookAction::Terminate)
            } else {
                (self, HookAction::Poll { after: CANCEL_POLL_INTERVAL })
            },
            HookEvent::WaitFailed => (self.at(HookPhase::Reaping), HookAction::Terminate),
            HookEvent::Terminated { now } => if self.phase is Aborting {
                self.ended(HookOutcome::Cancelled)
            } else {
                self.attempt_failed(now)
            },
            HookEvent::Clock { now, cancel } => if now < self.phase->since + self.retry_interval {
                if cancel {
                    self.ended(HookOutcome::Cancelled)
                } else {
                    (self, HookAction::CheckBackoff { after: backoff_poll(self.retry_interval) })
                }
            } else {
                (
                    HookRun {
                        attempt: (self.attempt + 1) as u32,
                        phase: HookPhase::Starting,
                        ..self
                    },
                    HookAction::CheckCancel,
                )
            },
        }
    }

    /// The attempt that is under way is one of those that may be made.
    pub open spec fn wf(self) -> bool {
        &&& self.phase is Done || 1 <= self.attempt <= self.retries
        &&& self.phase is BackingOff ==> self.attempt < self.retries
    }

    /// A run that may make `retries` attempts; without any it fails at once.
    pub fn start(retries: u32, retry_interval: u128) -> (begun: (HookRun, HookAction))
        ensures
            begun.0.wf(),
            begun.0 == fresh_run(retries, retry_interval),
            begun.1 == if retries == 0 {
                HookAction::Finish(HookOutcome::Failed)
            } else {
                HookAction::CheckCancel
            },
    {
        let run = HookRun { retries, retry_interval, attempt: 1, phase: HookPhase::Starting };
        if retries == 0 {
            run.end(HookOutcome::Failed)
        } else {
            (run, HookAction::CheckCancel)
        }
    }

    /// Ends the run.
    fn end(self, outcome: HookOutcome) -> (next: (HookRun, HookAction))
        ensures
            next == self.ended(outcome),
    {
        (
            HookRun {
                retries: self.retries,
                retry_interval: self.retry_interval,
                attempt: self.attempt,
                phase: HookPhase::Done(outcome),
            },
            HookAction::Finish(outcome),
        )
    }

    /// Takes the run to another phase of the same attempt.
    fn to(self, phase: HookPhase) -> (run: HookRun)
        ensures
            run == self.at(phase),
    {
        HookRun {
            retries: self.retries,
            retry_interval: self.retry_interval,
            attempt: self.attempt,
            phase,
        }
    }

    /// Starts the backoff, or gives up after the last attempt.
    fn fail_attempt(self, now: u64) -> (next: (HookRun, HookAction))
        ensures
            next == self.attempt_failed(now),
    {
        if self.attempt < self.retries {
            (
                self.to(HookPhase::BackingOff { since: now }),
                HookAction::CheckBackoff { after: 0 },
            )
        } else {
            self.end(HookOutcome::Failed)
        }
    }

    /// Sleeps the retry backoff, but bails early if a cancel condition arises so
    /// a paused daemon doesn't sit in a backoff sleep.
    fn wait_retry(self, since: u64, now: u64, cancel: bool) -> (next: (HookRun, HookAction))
        requires
            self.wf(),
            self.phase == (HookPhase::BackingOff { since }),
        ensures
            next == self.next(HookEvent::Clock { now, cancel }),
    {
        if now < since || ((now - since) as u128) < self.retry_interval {
            if cancel {
                self.end(HookOutcome::Cancelled)
            } else {
                let after: u64 = if self.retry_interval < CANCEL_POLL_INTERVAL as u128 {
                    self.retry_interval as u64
                } else {
                    CANCEL_POLL_INTERVAL
                };
                (self, HookAction::CheckBackoff { after })
            }
        } else {
            (
                HookRun {
                    retries: self.retries,
                    retry_interval: self.retry_interval,
                    attempt: self.attempt + 1,
                    phase: HookPhase::Starting,
                },
                HookAction::CheckCancel,
            )
        }
    }

    /// Takes an event in, and says what to do next.
    pub fn step(self, event: HookEvent) -> (next: (HookRun, HookAction))
        requires
            self.wf(),
            self.expects(event),
        ensures
            next == self.next(event),
            next.0.wf(),
    {
        match event {
            HookEvent::Begin { cancel } => if cancel {
                self.end(HookOutcome::Cancelled)
            } else {
                (self.to(HookPhase::Spawning), HookAction::Spawn)
            },
            HookEvent::Spawned => (self.to(HookPhase::Waiting), HookAction::Poll { after: 0 }),
            HookEvent::SpawnFailed { now } => self.fail_attempt(now),
            HookEvent::Exited { success, now } => if success {
                self.end(HookOutcome::Success)
            } else {
                self.fail_attempt(now)
            },
            HookEvent::Running { cancel } => if cancel {
                (self.to(HookPhase::Aborting), HookAction::Terminate)
            } else {
                (self, HookAction::Poll { after: CANCEL_POLL_INTERVAL })
            },
            HookEvent::WaitFailed => (self.to(HookPhase::Reaping), HookAction::Terminate),
            HookEvent::Terminated { now } => match self.phase {
                HookPhase::Aborting => self.end(HookOutcome::Cancelled),
                _ => self.fail_attempt(now),
            },
            HookEvent::Clock { now, cancel } => match self.phase {
                HookPhase::BackingOff { since } => self.wait_retry(since, now, cancel),
                // Only a run that backs off asks for the time.
                _ => vstd::pervasive::unreached(),
            },
        }
    }
}

/// Whether `events` can come, one after the other, from `run` on.
pub open spec fn can_follow(run: HookRun, events: Seq<HookEvent>) -> bool
    decreases events.len(),
{
    if events.len() == 0 {
        true
    } else {
        can_follow(run, events.drop_last()) && after(run, events.drop_last()).expects(events.last())
    }
}

/// Where `events` take `run`.
pub open spec fn after(run: HookRun, events: Seq<HookEvent>) -> HookRun
    decreases events.len(),
{
    if events.len() == 0 {
        run
    } else {
        after(run, events.drop_last()).next(events.last()).0
    }
}

/// How often `events` have the hook spawned: once for each attempt that begins
/// without a cancel.
pub open spec fn spawns(events: Seq<HookEvent>) -> nat
    decreases events.len(),
{
    if events.len() == 0 {
        0
    } else {
        spawns(events.drop_last()) + if events.last() == (HookEvent::Begin { cancel: false }) {
            1nat
        } else {
            0nat
        }
    }
}

/// Whether `event` tells the run to cancel.
pub open spec fn asks_to_cancel(event: HookEvent) -> bool {
    ||| event == (HookEvent::Begin { cancel: true })
    ||| event == (HookEvent::Running { cancel: true })
    ||| (event matches HookEvent::Clock { cancel, .. } && cancel)
}

/// A run of `retries` attempts before its first event.
pub open spec fn fresh_run(retries: u32, retry_interval: u128) -> HookRun {
    HookRun {
        retries,
        retry_interval,
        attempt: 1,
        phase: if retries == 0 {
            HookPhase::Done(HookOutcome::Failed)
        } else {
            HookPhase::Starting
        },
    }
}

/// What every reachable run keeps: which attempt it is at tells how often the
/// hook was spawned.
proof fn lemma_attempts_count_the_spawns(
    retries: u32,
    retry_interval: u128,
    events: Seq<HookEvent>,
)
    requires
        can_follow(fresh_run(retries, retry_interval), events),
    ensures
        ({
            let run = after(fresh_run(retries, retry_interval), events);
            &&& run.wf()
            &&& run.retries == retries
            &&& run.retry_interval == retry_interval
            &&& run.phase is Starting ==> spawns(events) == run.attempt - 1
            &&& !(run.phase is Starting) && !(run.phase is Done) ==> spawns(events) == run.attempt
            &&& spawns(events) <= retries
            &&& run.phase == HookPhase::Done(HookOutcome::Failed) ==> spawns(events) == retries
        }),
    decreases events.len(),
{
    if events.len() > 0 {
        lemma_attempts_count_the_spawns(retries, retry_interval, events.drop_last());
    }
}

/// A hook is spawned at most as often as the daemon may retry it, and a run fails
/// only after it was spawned that often.
pub proof fn law_a_run_fails_only_after_every_attempt(
    retries: u32,
    retry_interval: u128,
    events: Seq<HookEvent>,
)
    requires
        can_follow(fresh_run(retries, retry_interval), events),
    ensures
        spawns(events) <= retries,
        after(fresh_run(retries, retry_interval), events).phase == HookPhase::Done(
            HookOutcome::Failed,
        ) ==> spawns(events) == retries,
{
    lemma_attempts_count_the_spawns(retries, retry_interval, events);
}

/// A run succeeds exactly when its last event is a hook that exited 0.
pub proof fn law_success_is_a_hook_that_exited_zero(
    retries: u32,
    retry_interval: u128,
    events: Seq<HookEvent>,
)
    requires
        can_follow(fresh_run(retries, retry_interval), events),
    ensures
        after(fresh_run(retries, retry_interval), events).phase == HookPhase::Done(
            HookOutcome::Success,
        ) <==> events.len() > 0 && (events.last() matches HookEvent::Exited { success, .. }
            && success),
{
}

/// A run is cancelled only if it was told to.
pub proof fn law_a_run_is_cancelled_only_when_told(
    retries: u32,
    retry_interval: u128,
    events: Seq<HookEvent>,
)
    requires
        can_follow(fresh_run(retries, retry_interval), events),
        forall|i: int| 0 <= i < events.len() ==> !asks_to_cancel(#[trigger] events[i]),
    ensures
        after(fresh_run(retries, retry_interval), events).phase != HookPhase::Done(
            HookOutcome::Cancelled,
        ),
        !(after(fresh_run(retries, retry_interval), events).phase is Aborting),
    decreases events.len(),
{
    if events.len() > 0 {
        let before = events.drop_last();
        assert forall|i: int| 0 <= i < before.len() implies !asks_to_cancel(
            #[trigger] before[i],
        ) by {
            assert(before[i] == events[i]);
        }
        law_a_run_is_cancelled_only_when_told(retries, retry_interval, before);
        assert(!asks_to_cancel(events[events.len() - 1]));
    }
}

/// Told to cancel, a run spawns no hook any more: it is over, or the hook that
/// runs is terminated and then it is over. Only a backoff that has ended by then
/// leads on, to an attempt that asks again before it spawns.
pub proof fn law_a_cancel_takes_effect(run: HookRun, event: HookEvent, terminated: u64)
    requires
        run.expects(event),
        asks_to_cancel(event),
    ensures
        !(run.next(event).1 is Spawn),
        event is Begin ==> run.next(event).1 == HookAction::Finish(HookOutcome::Cancelled),
        event is Running ==> run.next(event).1 is Terminate && run.next(event).0.next(
            HookEvent::Terminated { now: terminated },
        ).1 == HookAction::Finish(HookOutcome::Cancelled),
        event is Clock ==> run.next(event).1 == HookAction::Finish(HookOutcome::Cancelled)
            || run.next(event).0.phase is Starting,
{
}

/// A run that ended takes no event any more.
pub proof fn law_an_ended_run_stays_ended(run: HookRun, event: HookEvent)
    requires
        run.phase is Done,
    ensures
        !run.expects(event),
{
}

/// A backoff ends on time, at whichever attempt: asked once its interval has passed, the
/// run goes to the next attempt; asked before, it does not. Then it ends if it is told
/// to cancel, and else asks again after a tenth of a second, or after the interval if
/// that is shorter.
pub proof fn law_the_backoff_ends_on_time(run: HookRun, since: u64, now: u64, cancel: bool)
    requires
        run.wf(),
        run.phase == (HookPhase::BackingOff { since }),
    ensures
        ({
            let (then, action) = run.next(HookEvent::Clock { now, cancel });
            &&& run.expects(HookEvent::Clock { now, cancel })
            &&& then.retries == run.retries && then.retry_interval == run.retry_interval
            &&& now >= since + run.retry_interval ==> {
                &&& then.phase is Starting
                &&& then.attempt == run.attempt + 1
                &&& action == HookAction::CheckCancel
            }
            &&& now < since + run.retry_interval && cancel ==> {
                &&& then.phase == HookPhase::Done(HookOutcome::Cancelled)
                &&& action == HookAction::Finish(HookOutcome::Cancelled)
            }
            &&& now < since + run.retry_interval && !cancel ==> {
                &&& then == run
                &&& action matches HookAction::CheckBackoff { after } && after <= 100_000_000
                    && after <= run.retry_interval && (after == 100_000_000 || after
                    == run.retry_interval)
            }
        }),
{
}

/// An attempt goes its way at once: without a cancel it spawns the hook, polls it at
/// once and then every tenth of a second while it runs, and leaves the run otherwise as
/// it is.
pub proof fn law_an_attempt_spawns_and_polls(run: HookRun)
    ensures
        run.phase is Starting ==> {
            let (then, action) = run.next(HookEvent::Begin { cancel: false });
            &&& run.expects(HookEvent::Begin { cancel: false })
            &&& then == (HookRun { phase: HookPhase::Spawning, ..run })
            &&& action == HookAction::Spawn
        },
        run.phase is Spawning ==> {
            let (then, action) = run.next(HookEvent::Spawned);
            &&& run.expects(HookEvent::Spawned)
            &&& then == (HookRun { phase: HookPhase::Waiting, ..run })
            &&& action == HookAction::Poll { after: 0 }
        },
        run.phase is Waiting ==> {
            let (then, action) = run.next(HookEvent::Running { cancel: false });
            &&& run.expects(HookEvent::Running { cancel: false })
            &&& then == run
            &&& action == HookAction::Poll { after: 100_000_000 }
        },
{
}

/// An attempt fails when the hook cannot be spawned, exits with an error, or was
/// terminated because it could not be waited for. After the last attempt the run has
/// then failed; after any other it backs off, from that moment on.
pub proof fn law_a_failed_attempt_is_retried_unless_it_was_the_last(run: HookRun, now: u64)
    requires
        run.wf(),
    ensures
        ({
            let failed = |event: HookEvent|
                {
                    let (then, action) = run.next(event);
                    &&& run.expects(event)
                    &&& run.attempt < run.retries ==> {
                        &&& then == (HookRun { phase: HookPhase::BackingOff { since: now }, ..run })
                        &&& action == HookAction::CheckBackoff { after: 0 }
                    }
                    &&& run.attempt == run.retries ==> {
                        &&& then.phase == HookPhase::Done(HookOutcome::Failed)
                        &&& action == HookAction::Finish(HookOutcome::Failed)
                    }
                };
            &&& run.phase is Spawning ==> failed(HookEvent::SpawnFailed { now })
            &&& run.phase is Waiting ==> failed(HookEvent::Exited { success: false, now })
            &&& run.phase is Reaping ==> failed(HookEvent::Terminated { now })
        }),
        run.phase is Waiting ==> {
            let (then, action) = run.next(HookEvent::WaitFailed);
            &&& run.expects(HookEvent::WaitFailed)
            &&& then == (HookRun { phase: HookPhase::Reaping, ..run })
            &&& action == HookAction::Terminate
        },
        run.phase is Waiting ==> {
            let (then, action) = run.next(HookEvent::Exited { success: true, now });
            &&& run.expects(HookEvent::Exited { success: true, now })
            &&& then.phase == HookPhase::Done(HookOutcome::Success)
            &&& action == HookAction::Finish(HookOutcome::Success)
        },
{
}

/// A cancel is always taken: before an attempt and in flight. In flight the hook's
/// process group is terminated first.
pub proof fn law_a_run_can_be_cancelled(run: HookRun, now: u64)
    ensures
        run.phase is Starting ==> {
            let (then, action) = run.next(HookEvent::Begin { cancel: true });
            &&& run.expects(HookEvent::Begin { cancel: true })
            &&& then.phase == HookPhase::Done(HookOutcome::Cancelled)
            &&& action == HookAction::Finish(HookOutcome::Cancelled)
        },
        run.phase is Waiting ==> {
            let (then, action) = run.next(HookEvent::Running { cancel: true });
            &&& run.expects(HookEvent::Running { cancel: true })
            &&& then == (HookRun { phase: HookPhase::Aborting, ..run })
            &&& action == HookAction::Terminate
        },
        run.phase is Aborting ==> {
            let (then, action) = run.next(HookEvent::Terminated { now });
            &&& run.expects(HookEvent::Terminated { now })
            &&& then.phase == HookPhase::Done(HookOutcome::Cancelled)
            &&& action == HookAction::Finish(HookOutcome::Cancelled)
        },
{
}

/// The events of the first `n` attempts of a run whose hook fails each time: the `k`th
/// exits with an error at `exits[k]`, and its backoff is over when the clock is asked at
/// `resumes[k]`.
pub open spec fn failing(exits: Seq<u64>, resumes: Seq<u64>, n: nat) -> Seq<HookEvent>
    decreases n,
{
    if n == 0 {
        seq![]
    } else {
        failing(exits, resumes, (n - 1) as nat).push(HookEvent::Begin { cancel: false }).push(
            HookEvent::Spawned,
        ).push(HookEvent::Exited { success: false, now: exits[n - 1] }).push(
            HookEvent::Clock { now: resumes[n - 1], cancel: false },
        )
    }
}

/// A hook that fails each time, in a run that nobody cancels, is spawned exactly as
/// often as it may be retried, whenever it exits: after each failure but the last the
/// run waits out its backoff and starts the next attempt, and after the last it has
/// failed.
pub proof fn law_a_failing_hook_is_spawned_every_time(
    retries: u32,
    retry_interval: u128,
    exits: Seq<u64>,
    resumes: Seq<u64>,
    n: nat,
)
    requires
        n < retries,
        exits.len() == retries,
        resumes.len() == retries,
        forall|k: int|
            0 <= k < retries ==> exits[k] + retry_interval <= #[trigger] resumes[k],
    ensures
        ({
            let fresh = fresh_run(retries, retry_interval);
            let events = failing(exits, resumes, n);
            let last = events.push(HookEvent::Begin { cancel: false }).push(
                HookEvent::Spawned,
            ).push(HookEvent::Exited { success: false, now: exits[n as int] });
            &&& can_follow(fresh, events)
            &&& spawns(events) == n
            &&& after(fresh, events).phase is Starting
            &&& after(fresh, events).attempt == n + 1
            &&& can_follow(fresh, last)
            &&& spawns(last) == n + 1
            &&& after(fresh, last).phase == if n + 1 < retries {
                HookPhase::BackingOff { since: exits[n as int] }
            } else {
                HookPhase::Done(HookOutcome::Failed)
            }
        }),
    decreases n,
{
    let fresh = fresh_run(retries, retry_interval);
    if n > 0 {
        law_a_failing_hook_is_spawned_every_time(
            retries,
            retry_interval,
            exits,
            resumes,
            (n - 1) as nat,
        );
        let before = failing(exits, resumes, (n - 1) as nat);
        let last = before.push(HookEvent::Begin { cancel: false }).push(HookEvent::Spawned).push(
            HookEvent::Exited { success: false, now: exits[n - 1] },
        );
        lemma_attempts_count_the_spawns(retries, retry_interval, before);
        lemma_follow(fresh, before, HookEvent::Begin { cancel: false });
        lemma_follow(
            fresh,
            before.push(HookEvent::Begin { cancel: false }),
            HookEvent::Spawned,
        );
        lemma_follow(
            fresh,
            before.push(HookEvent::Begin { cancel: false }).push(HookEvent::Spawned),
            HookEvent::Exited { success: false, now: exits[n - 1] },
        );
        assert(exits[n - 1] + retry_interval <= resumes[n - 1]);
        lemma_follow(fresh, last, HookEvent::Clock { now: resumes[n - 1], cancel: false });
    }
    let events = failing(exits, resumes, n);
    lemma_attempts_count_the_spawns(retries, retry_interval, events);
    let begun = events.push(HookEvent::Begin { cancel: false });
    lemma_follow(fresh, events, HookEvent::Begin { cancel: false });
    lemma_follow(fresh, begun, HookEvent::Spawned);
    lemma_follow(
        fresh,
        begun.push(HookEvent::Spawned),
        HookEvent::Exited { success: false, now: exits[n as int] },
    );
}

/// One event more.
proof fn lemma_follow(run: HookRun, events: Seq<HookEvent>, event: HookEvent)
    ensures
        can_follow(run, events.push(event)) == (can_follow(run, events) && after(
            run,
            events,
        ).expects(event)),
        after(run, events.push(event)) == after(run, events).next(event).0,
        spawns(events.push(event)) == spawns(events) + if event == (HookEvent::Begin {
            cancel: false,
        }) {
            1nat
        } else {
            0nat
        },
{
    assert(events.push(event).drop_last() =~= events);
}

/// A run begins with its first attempt, with the attempts and the backoff that it was
/// given; without an attempt to make it has failed.
pub proof fn law_a_run_begins_with_its_first_attempt(retries: u32, retry_interval: u128)
    ensures
        fresh_run(retries, retry_interval).retries == retries,
        fresh_run(retries, retry_interval).retry_interval == retry_interval,
        fresh_run(retries, retry_interval).attempt == 1,
        retries > 0 ==> fresh_run(retries, retry_interval).phase is Starting,
        retries == 0 ==> fresh_run(retries, retry_interval).phase == HookPhase::Done(
            HookOutcome::Failed,
        ),
{
}

} // verus!
