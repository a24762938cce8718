//! Unified pause gate.
//!
//! Workers park here while any pause *reason* is active. Two independent
//! sources feed it: the NetworkManager metered watcher ([`REASON_METERED`]) and
//! manual pause/resume commands over the control socket ([`REASON_MANUAL`]). A
//! reason is a bit; the pause gate is blocked whenever any bit is set. Both the
//! worker's park before a hook and the cancel check during one consult the same
//! [`Gate::blocked`].
//!
//! A parked worker asks again at each wakeup, and after [`PARK_TIMEOUT`] without
//! one. The pause gate counts the wakeups that it owes its parked workers. Whoever shares
//! it between threads wakes them whenever the count has moved.

use vstd::prelude::*;

verus! {

/// NetworkManager reports a metered connection (`--pause-on-metered`).
pub const REASON_METERED: u32 = 1;

/// A `pause` control command is in effect until a matching `resume`.
pub const REASON_MANUAL: u32 = 2;

/// The longest that a worker parks before it asks again, in nanoseconds. A
/// belt-and-braces bound on any missed wakeup, which lets a parked worker observe
/// a shutdown without a dedicated signal.
pub const PARK_TIMEOUT: u64 = 1_000_000_000;

/// The reasons for which work is parked, and the wakeups sent so far.
#[derive(Clone, Copy, Debug, PartialEq, Eq, Structural)]
pub struct Gate {
    /// One bit for each active reason.
    pub reasons: u32,
    /// How often the parked workers were to be woken, modulo the range of `u64`.
    pub wakeups: u64,
}

/// `reasons` with the bits of `reason` set or cleared.
pub open spec fn with_reason(reasons: u32, reason: u32, active: bool) -> u32 {
    if active {
        reasons | reason
    } else {
        reasons & !reason
    }
}

/// One wakeup more.
pub open spec fn one_more(wakeups: u64) -> u64 {
    if wakeups == u64::MAX {
        0
    } else {
        (wakeups + 1) as u64
    }
}

impl Gate {
    /// Whether any reason is active.
    pub open spec fn is_blocked(self) -> bool {
        self.reasons != 0
    }

    /// Whether any of the bits of `reason` is active.
    pub open spec fn is_active(self, reason: u32) -> bool {
        self.reasons & reason != 0
    }

    /// The pause gate once `reason` was set or cleared: a change sends one wakeup, an
    /// update that changes nothing sends none.
    pub open spec fn updated(self, reason: u32, active: bool) -> Gate {
        let reasons = with_reason(self.reasons, reason, active);
        Gate {
            reasons,
            wakeups: if reasons != self.reasons {
                one_more(self.wakeups)
            } else {
                self.wakeups
            },
        }
    }

    /// A gate without any reason.
    pub fn new() -> (gate: Self)
        ensures
            gate.reasons == 0,
            gate.wakeups == 0,
            !gate.is_blocked(),
    {
        Gate { reasons: 0, wakeups: 0 }
    }

    /// Set or clear one reason bit. Wakes parked workers only on an actual
    /// transition, so repeated identical updates (a metered signal that didn't
    /// change, a redundant pause) are cheap no-ops.
    pub fn set(&mut self, reason: u32, active: bool)
        ensures
            *final(self) == old(self).updated(reason, active),
    {
        let prev: u32 = self.reasons();
        let next: u32 = if active {
            prev | reason
        } else {
            prev & !reason
        };
        if prev != next {
            self.reasons = next;
            self.notify_all();
        }
    }

    /// The active reasons, as bits.
    fn reasons(&self) -> (reasons: u32)
        ensures
            reasons == self.reasons,
    {
        self.reasons
    }

    /// Whether any reason is active.
    pub fn blocked(&self) -> (blocked: bool)
        ensures
            blocked == self.is_blocked(),
    {
        self.reasons() != 0
    }

    /// Whether `reason` is active.
    pub fn has(&self, reason: u32) -> (active: bool)
        ensures
            active == self.is_active(reason),
    {
        self.reasons() & reason != 0
    }

    /// Block while any reason is active: says whether the worker parks here, and
    /// for how many nanoseconds at most. It asks again at the next wakeup, and
    /// without one when that time is over. It leaves when the pause gate clears or
    /// `should_stop` returns true (shutdown). `should_stop` is asked only while the
    /// pause gate is blocked.
    pub fn wait_while_blocked<F: Fn() -> bool>(&self, should_stop: F) -> (park: Option<u64>)
        requires
            self.is_blocked() ==> call_requires(should_stop, ()),
        ensures
            park is Some ==> self.is_blocked() && call_ensures(should_stop, (), false),
            park is None ==> !self.is_blocked() || call_ensures(should_stop, (), true),
            park matches Some(at_most) ==> at_most == PARK_TIMEOUT,
    {
        if self.blocked() && !should_stop() {
            Some(PARK_TIMEOUT)
        } else {
            None
        }
    }

    /// Wake every parked worker (e.g. on shutdown) regardless of reason state.
    pub fn notify_all(&mut self)
        ensures
            *final(self) == (Gate {
                wakeups: one_more(old(self).wakeups),
                reasons: old(self).reasons,
            }),
    {
        self.wakeups = self.wakeups.wrapping_add(1);
    }
}

/// Setting or clearing a reason a second time changes nothing and wakes nobody.
pub proof fn law_set_is_idempotent(gate: Gate, reason: u32, active: bool)
    ensures
        gate.updated(reason, active).updated(reason, active) == gate.updated(reason, active),
{
    let r = gate.reasons;
    assert((r | reason) | reason == r | reason) by (bit_vector);
    assert((r & !reason) & !reason == r & !reason) by (bit_vector);
}

/// An update to one reason leaves every other reason as it is.
pub proof fn law_reasons_are_independent(gate: Gate, reason: u32, active: bool, other: u32)
    requires
        reason & other == 0,
    ensures
        gate.updated(reason, active).is_active(other) == gate.is_active(other),
        gate.updated(reason, active).reasons & other == gate.reasons & other,
{
    let r = gate.reasons;
    assert((r | reason) & other == r & other) by (bit_vector)
        requires
            reason & other == 0,
    ;
    assert((r & !reason) & other == r & other) by (bit_vector)
        requires
            reason & other == 0,
    ;
}

/// Two sources that update different reasons lose neither update, whichever
/// comes first.
pub proof fn law_updates_of_two_sources_commute(
    gate: Gate,
    first: u32,
    first_active: bool,
    second: u32,
    second_active: bool,
)
    requires
        first & second == 0,
    ensures
        gate.updated(first, first_active).updated(second, second_active).reasons == gate.updated(
            second,
            second_active,
        ).updated(first, first_active).reasons,
{
    let r = gate.reasons;
    assert((r | first) | second == (r | second) | first) by (bit_vector);
    assert((r & !first) & !second == (r & !second) & !first) by (bit_vector);
    assert((r | first) & !second == (r & !second) | first) by (bit_vector)
        requires
            first & second == 0,
    ;
    assert((r & !first) | second == (r | second) & !first) by (bit_vector)
        requires
            first & second == 0,
    ;
}

/// A set reason blocks the pause gate and is active; a cleared one is not active.
pub proof fn law_set_takes_effect(gate: Gate, reason: u32)
    ensures
        reason != 0 ==> gate.updated(reason, true).is_active(reason) && gate.updated(
            reason,
            true,
        ).is_blocked(),
        !gate.updated(reason, false).is_active(reason),
{
    let r = gate.reasons;
    assert(reason != 0 ==> (r | reason) & reason != 0 && r | reason != 0) by (bit_vector);
    assert((r & !reason) & reason == 0) by (bit_vector);
}

/// Clearing one reason leaves the pause gate blocked exactly while another reason is
/// active: it stays blocked until every reason has cleared.
pub proof fn law_blocked_until_every_reason_clears(gate: Gate, reason: u32)
    ensures
        gate.updated(reason, false).is_blocked() == gate.is_active(!reason),
        gate.is_blocked() == (gate.is_active(reason) || gate.is_active(!reason)),
{
    let r = gate.reasons;
    assert(r == 0 <==> (r & reason == 0 && r & !reason == 0)) by (bit_vector);
}

/// The pause gate sends a wakeup exactly when an update changed the reasons.
pub proof fn law_wakes_only_on_a_transition(gate: Gate, reason: u32, active: bool)
    ensures
        gate.updated(reason, active).wakeups != gate.wakeups <==> gate.updated(
            reason,
            active,
        ).reasons != gate.reasons,
{
}

/// After an update every bit of the reason is set, or every one is clear. A reason that
/// shares a bit with one that was set is active; one all of whose bits were cleared is
/// not.
pub proof fn law_an_update_sets_or_clears_every_bit(gate: Gate, reason: u32, other: u32)
    ensures
        gate.updated(reason, true).reasons & reason == reason,
        gate.updated(reason, false).reasons & reason == 0,
        gate.updated(reason, true).reasons & !reason == gate.reasons & !reason,
        gate.updated(reason, false).reasons & !reason == gate.reasons & !reason,
        reason & other != 0 ==> gate.updated(reason, true).is_active(other),
        other & !reason == 0 ==> !gate.updated(reason, false).is_active(other),
{
    let r = gate.reasons;
    assert((r | reason) & reason == reason) by (bit_vector);
    assert((r & !reason) & reason == 0) by (bit_vector);
    assert((r | reason) & !reason == r & !reason && (r & !reason) & !reason == r & !reason)
        by (bit_vector);
    assert(reason & other != 0 ==> (r | reason) & other != 0) by (bit_vector);
    assert(other & !reason == 0 ==> (r & !reason) & other == 0) by (bit_vector);
}

/// Workers park exactly while some bit is set.
pub proof fn law_any_bit_blocks(gate: Gate, bit: u32)
    requires
        bit < 32,
    ensures
        gate.is_active(1u32 << bit) ==> gate.is_blocked(),
        gate.reasons == 0 ==> !gate.is_blocked(),
        gate.reasons > 0 ==> gate.is_blocked(),
        gate.reasons == 0 ==> !gate.is_active(1u32 << bit),
        gate.reasons == 1u32 << bit ==> gate.is_active(1u32 << bit),
{
    let r = gate.reasons;
    assert(bit < 32 ==> 0u32 & (1u32 << bit) == 0) by (bit_vector);
    assert(bit < 32 ==> (1u32 << bit) & (1u32 << bit) != 0) by (bit_vector);
}

/// A wakeup moves the count by one, and so is seen.
pub proof fn law_a_wakeup_moves_the_count(wakeups: u64)
    ensures
        one_more(wakeups) != wakeups,
        wakeups < u64::MAX ==> one_more(wakeups) == wakeups + 1,
{
}

} // verus!
