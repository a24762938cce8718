//! Terminating a hook's process group: SIGTERM, a short grace, then SIGKILL.
//!
//! The signals go to the whole group, so the whole tree dies, not just the
//! wrapper. Whoever drives a [`Termination`] reaps the hook only once SIGKILL went
//! out: until then the hook's id is still that of its group. `nix copy` handles SIGTERM by aborting the upload cleanly; the
//! requeued job re-copies later.

use vstd::prelude::*;

use crate::hook::{CANCEL_POLL_INTERVAL, TERM_GRACE};

verus! {

/// How far a termination has come.
#[derive(Clone, Copy, Debug, PartialEq, Eq, Structural)]
pub enum Termination {
    /// SIGTERM is being sent.
    Signalling,
    /// SIGTERM went out at `since`, and the hook has a grace from then on.
    Grace { since: u64 },
    /// Within the grace, the hook is asked whether it has exited.
    Polling { since: u64 },
    /// The hook has exited, and what else is in its group has the rest of the grace.
    Lingering { since: u64 },
    /// SIGKILL is being sent, and the hook reaped.
    Killing,
    /// The whole group is gone.
    Over,
}

/// What the driver of a termination reports back.
#[derive(Clone, Copy, Debug, PartialEq, Eq, Structural)]
pub enum TermEvent {
    /// SIGTERM was sent.
    Signalled { now: u64 },
    /// The time.
    Clock { now: u64 },
    /// The hook has exited. It is not reaped yet.
    Exited,
    /// The hook still runs.
    Running,
    /// The hook could not be asked.
    PollFailed,
    /// SIGKILL was sent, and the hook reaped.
    Killed,
}

/// What the driver of a termination is to do.
#[derive(Clone, Copy, Debug, PartialEq, Eq, Structural)]
pub enum TermAction {
    /// Send SIGTERM to the process group.
    SendTerm,
    /// Ask for the time, once so many nanoseconds have passed.
    CheckClock { after: u64 },
    /// Ask whether the hook has exited, without reaping it.
    Poll,
    /// Send SIGKILL to the process group, and reap the hook.
    SendKill,
    /// Nothing: the whole group is gone.
    Finish,
}

impl Termination {
    /// Whether `event` can come now.
    pub open spec fn expects(self, event: TermEvent) -> bool {
        match self {
            Termination::Signalling => event is Signalled,
            Termination::Grace { .. } => event is Clock,
            Termination::Lingering { .. } => event is Clock,
            Termination::Polling { .. } => event is Exited || event is Running || event
                is PollFailed,
            Termination::Killing => event is Killed,
            Termination::Over => false,
        }
    }

    /// When SIGTERM went out.
    pub open spec fn signalled_at(self) -> u64 {
        match self {
            Termination::Grace { since } => since,
            Termination::Polling { since } => since,
            Termination::Lingering { since } => since,
            _ => 0,
        }
    }

    /// Where `event` takes the termination, and what to do then.
    pub open spec fn next(self, event: TermEvent) -> (Termination, TermAction) {
        match event {
            TermEvent::Signalled { now } => (
                Termination::Grace { since: now },
                TermAction::CheckClock { after: 0 },
            ),
            TermEvent::Clock { now } => if now < self.signalled_at() + TERM_GRACE {
                if self is Lingering {
                    (self, TermAction::CheckClock { after: CANCEL_POLL_INTERVAL })
                } else {
                    (Termination::Polling { since: self.signalled_at() }, TermAction::Poll)
                }
            } else {
                (Termination::Killing, TermAction::SendKill)
            },
            TermEvent::Exited => (
                Termination::Lingering { since: self.signalled_at() },
                TermAction::CheckClock { after: CANCEL_POLL_INTERVAL },
            ),
            TermEvent::Running => (
                Termination::Grace { since: self.signalled_at() },
                TermAction::CheckClock { after: CANCEL_POLL_INTERVAL },
            ),
            TermEvent::PollFailed => (Termination::Killing, TermAction::SendKill),
            TermEvent::Killed => (Termination::Over, TermAction::Finish),
        }
    }

    /// Begins to terminate.
    pub fn start() -> (begun: (Termination, TermAction))
        ensures
            begun == (Termination::Signalling, TermAction::SendTerm),
    {
        (Termination::Signalling, TermAction::SendTerm)
    }

    /// Takes an event in, and says what to do next.
    pub fn step(self, event: TermEvent) -> (next: (Termination, TermAction))
        requires
            self.expects(event),
        ensures
            next == self.next(event),
    {
        let since: u64 = match self {
            Termination::Grace { since } => since,
            Termination::Polling { since } => since,
            Termination::Lingering { since } => since,
            _ => 0,
        };
        match event {
            TermEvent::Signalled { now } => (
                Termination::Grace { since: now },
                TermAction::CheckClock { after: 0 },
            ),
            TermEvent::Clock { now } => if now < since || now - since < TERM_GRACE {
                match self {
                    Termination::Lingering { .. } => (
                        self,
                        TermAction::CheckClock { after: CANCEL_POLL_INTERVAL },
                    ),
                    _ => (Termination::Polling { since }, TermAction::Poll),
                }
            } else {
                (Termination::Killing, TermAction::SendKill)
            },
            TermEvent::Exited => (
                Termination::Lingering { since },
                TermAction::CheckClock { after: CANCEL_POLL_INTERVAL },
            ),
            TermEvent::Running => (
                Termination::Grace { since },
                TermAction::CheckClock { after: CANCEL_POLL_INTERVAL },
            ),
            TermEvent::PollFailed => (Termination::Killing, TermAction::SendKill),
            TermEvent::Killed => (Termination::Over, TermAction::Finish),
        }
    }
}

/// Whether `events` can come, one after the other, from the start on.
pub open spec fn can_happen(events: Seq<TermEvent>) -> bool
    decreases events.len(),
{
    if events.len() == 0 {
        true
    } else {
        can_happen(events.drop_last()) && reached(events.drop_last()).expects(events.last())
    }
}

/// Where `events` take a termination.
pub open spec fn reached(events: Seq<TermEvent>) -> Termination
    decreases events.len(),
{
    if events.len() == 0 {
        Termination::Signalling
    } else {
        reached(events.drop_last()).next(events.last()).0
    }
}

/// SIGTERM goes out first, and the grace is counted from then on.
pub proof fn law_sigterm_comes_first(events: Seq<TermEvent>)
    requires
        can_happen(events),
        events.len() > 0,
    ensures
        events[0] is Signalled,
        reached(events) is Grace || reached(events) is Polling || reached(events) is Lingering
            ==> reached(events).signalled_at() == events[0]->Signalled_now,
        forall|i: int| 0 < i < events.len() ==> !(#[trigger] events[i] is Signalled),
    decreases events.len(),
{
    let before = events.drop_last();
    if before.len() > 0 {
        law_sigterm_comes_first(before);
        lemma_signalling_is_over(before);
        assert forall|i: int| 0 < i < events.len() implies !(#[trigger] events[i] is Signalled) by {
            if i < before.len() {
                assert(events[i] == before[i]);
            }
        }
    }
}

/// SIGTERM is not sent a second time.
proof fn lemma_signalling_is_over(events: Seq<TermEvent>)
    requires
        can_happen(events),
        events.len() > 0,
    ensures
        !(reached(events) is Signalling),
{
}

/// SIGKILL goes out exactly when the grace has passed, or when the hook cannot be
/// asked.
pub proof fn law_sigkill_only_after_the_grace(state: Termination, event: TermEvent)
    requires
        state.expects(event),
    ensures
        state.next(event).1 is SendKill <==> {
            ||| event is PollFailed
            ||| (event matches TermEvent::Clock { now } && now >= state.signalled_at() + TERM_GRACE)
        },
{
}

/// A termination is over only once SIGKILL went to the whole group, after SIGTERM
/// did: a helper that outlives the hook dies too.
pub proof fn law_the_whole_tree_dies(events: Seq<TermEvent>)
    requires
        can_happen(events),
        reached(events) is Over,
    ensures
        events.contains(TermEvent::Killed),
        events.last() == TermEvent::Killed,
        events[0] is Signalled,
{
    law_sigterm_comes_first(events);
    assert(events[events.len() - 1] == TermEvent::Killed);
}

/// A termination asks for the time at once after SIGTERM, and then every tenth of a
/// second. Within two seconds of SIGTERM it polls the hook until it has exited, and
/// then only waits; after that, or when it cannot poll, it sends SIGKILL, and is over.
pub proof fn law_a_termination_goes_its_way(since: u64, now: u64)
    ensures
        ({
            let grace = Termination::Grace { since };
            let polling = Termination::Polling { since };
            let lingering = Termination::Lingering { since };
            let clock = TermEvent::Clock { now };
            let kill = (Termination::Killing, TermAction::SendKill);
            let again = TermAction::CheckClock { after: 100_000_000 };
            &&& Termination::Signalling.next(TermEvent::Signalled { now }) == (
                Termination::Grace { since: now },
                TermAction::CheckClock { after: 0 },
            )
            &&& now < since + 2_000_000_000 ==> grace.next(clock) == (polling, TermAction::Poll)
                && lingering.next(clock) == (lingering, again)
            &&& now >= since + 2_000_000_000 ==> grace.next(clock) == kill && lingering.next(clock)
                == kill
            &&& polling.next(TermEvent::Running) == (grace, again)
            &&& polling.next(TermEvent::Exited) == (lingering, again)
            &&& polling.next(TermEvent::PollFailed) == kill
            &&& Termination::Killing.next(TermEvent::Killed) == (
                Termination::Over,
                TermAction::Finish,
            )
        }),
{
}

/// Whatever can come of what a termination asks for is taken.
pub proof fn law_a_termination_takes_every_reply(since: u64, now: u64)
    ensures
        Termination::Signalling.expects(TermEvent::Signalled { now }),
        (Termination::Grace { since }).expects(TermEvent::Clock { now }),
        (Termination::Lingering { since }).expects(TermEvent::Clock { now }),
        (Termination::Polling { since }).expects(TermEvent::Running),
        (Termination::Polling { since }).expects(TermEvent::Exited),
        (Termination::Polling { since }).expects(TermEvent::PollFailed),
        Termination::Killing.expects(TermEvent::Killed),
{
}

} // verus!
