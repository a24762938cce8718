//! NetworkManager metered-state watcher.
//!
//! The watcher follows the `Metered` property of the NetworkManager root object
//! and drives the shared pause gate ([`REASON_METERED`]) so workers park while
//! metered. It falls back to "never metered" if NetworkManager isn't on the bus
//! (systemd-networkd hosts, headless servers, NetworkManager not yet started)
//! so the daemon still does useful work.
//!
//! The values of NetworkManager's `NM_METERED` are 0 unknown, 1 yes, 2 no,
//! 3 guessed yes, 4 guessed no. Yes and guessed yes count as metered.

use vstd::arithmetic::power2::{lemma2_to64, pow2};
use vstd::prelude::*;

use crate::gate::{
    law_blocked_until_every_reason_clears, law_reasons_are_independent, law_set_takes_effect, Gate,
    REASON_MANUAL, REASON_METERED,
};
use crate::text::same_text;

verus! {

/// The bus name of NetworkManager.
pub const NM_SERVICE: &'static str = "org.freedesktop.NetworkManager";

/// The root object of NetworkManager.
pub const NM_PATH: &'static str = "/org/freedesktop/NetworkManager";

/// The interface that carries the watched property.
pub const NM_IFACE: &'static str = "org.freedesktop.NetworkManager";

/// The watched property.
pub const METERED_PROPERTY: &'static str = "Metered";

/// The seconds before the first reconnect.
pub const FIRST_BACKOFF_SECS: u64 = 1;

/// The most seconds between two reconnects.
pub const MAX_BACKOFF_SECS: u64 = 30;

/// Which values of `NM_METERED` count as metered.
pub open spec fn counts_as_metered(v: u32) -> bool {
    v == 1 || v == 3
}

/// Whether a value of `NM_METERED` counts as metered.
pub fn is_metered_value(v: u32) -> (metered: bool)
    ensures
        metered == counts_as_metered(v),
{
    v == 1 || v == 3
}

/// Status-only view of the watcher. Parking is driven by the shared gate, which
/// is also the single source of truth for the metered flag; only NetworkManager's
/// availability, which is no reason to park, lives here.
#[derive(Clone, Copy, Debug, PartialEq, Eq, Structural)]
pub struct NetworkState {
    /// Whether NetworkManager is reachable on the system bus.
    pub available: bool,
}

impl NetworkState {
    /// A watcher that has not reached NetworkManager yet.
    pub fn new() -> (state: Self)
        ensures
            !state.available,
    {
        NetworkState { available: false }
    }

    /// Whether the connection is metered, as the shared gate has it.
    pub fn is_metered(&self, gate: &Gate) -> (metered: bool)
        ensures
            metered == gate.is_active(REASON_METERED),
    {
        gate.has(REASON_METERED)
    }

    /// Whether NetworkManager is reachable.
    pub fn is_available(&self) -> (available: bool)
        ensures
            available == self.available,
    {
        self.available
    }

    /// Passes the metered flag to the pause gate, and says whether it changed.
    pub fn set_metered(&self, gate: &mut Gate, m: bool) -> (changed: bool)
        ensures
            *final(gate) == old(gate).updated(REASON_METERED, m),
            changed == (old(gate).is_active(REASON_METERED) != m),
    {
        let changed = self.is_metered(gate) != m;
        gate.set(REASON_METERED, m);
        changed
    }
}

/// What the watcher hears from the bus.
#[derive(Debug)]
pub enum WatchEvent {
    /// NetworkManager answered with its value of `NM_METERED`.
    Reached(u32),
    /// Properties of `interface` changed; `metered` is the new value of
    /// `NM_METERED`, if it is among them and a number.
    Changed { interface: String, metered: Option<u32> },
    /// The signal stream ended, as it does when NetworkManager restarts.
    Ended,
    /// NetworkManager could not be reached, or the stream broke.
    Failed,
}

/// What the watcher has to tell the log.
#[derive(Clone, Copy, Debug, PartialEq, Eq, Structural)]
pub enum Notice {
    /// Nothing.
    Silent,
    /// NetworkManager is available.
    Available,
    /// The stream ended, and the watcher reconnects.
    Reconnecting,
    /// NetworkManager is not reachable, for the first time.
    Unreachable,
    /// NetworkManager is still not reachable.
    StillUnreachable,
}

/// What came of an event.
#[derive(Clone, Copy, Debug, PartialEq, Eq, Structural)]
pub struct WatchReport {
    /// Whether the metered flag changed.
    pub metered_changed: bool,
    /// What to log.
    pub notice: Notice,
    /// The seconds to wait before the next connection attempt, when the watcher
    /// lost NetworkManager.
    pub reconnect_after: Option<u64>,
}

/// The watcher between two events.
#[derive(Clone, Copy, Debug, PartialEq, Eq, Structural)]
pub struct Watcher {
    /// The seconds to wait when the next connection attempt fails.
    pub backoff: u64,
    /// Whether a failure was announced in the log before.
    pub announced: bool,
}

/// The wait that follows a wait of `backoff` seconds: twice as long, up to the
/// cap.
pub open spec fn longer(backoff: int) -> int {
    if 2 * backoff <= MAX_BACKOFF_SECS {
        2 * backoff
    } else {
        MAX_BACKOFF_SECS as int
    }
}

/// What an event says of the metered flag, if anything. A lost NetworkManager
/// reads as not metered.
pub open spec fn reported(event: WatchEvent) -> Option<bool> {
    match event {
        WatchEvent::Reached(v) => Some(counts_as_metered(v)),
        WatchEvent::Changed { interface, metered } => match metered {
            Some(v) if interface@ == NM_IFACE@ => Some(counts_as_metered(v)),
            _ => None,
        },
        WatchEvent::Ended => Some(false),
        WatchEvent::Failed => Some(false),
    }
}

impl Watcher {
    /// The wait is within its bounds.
    pub open spec fn wf(self) -> bool {
        FIRST_BACKOFF_SECS <= self.backoff <= MAX_BACKOFF_SECS
    }

    /// How long the watcher waits after `event` before it reconnects, if it has
    /// to: a stream that ended starts the waits anew.
    pub open spec fn wait_after(self, event: WatchEvent) -> Option<u64> {
        match event {
            WatchEvent::Ended => Some(FIRST_BACKOFF_SECS),
            WatchEvent::Failed => Some(self.backoff),
            _ => None,
        }
    }

    /// The watcher after `event`.
    pub open spec fn next(self, event: WatchEvent) -> Watcher {
        match self.wait_after(event) {
            Some(waited) => Watcher {
                backoff: longer(waited as int) as u64,
                announced: self.announced || event is Failed,
            },
            None => self,
        }
    }

    /// A watcher that has not connected yet.
    pub fn new() -> (watcher: Self)
        ensures
            watcher.wf(),
            watcher.backoff == FIRST_BACKOFF_SECS,
            !watcher.announced,
    {
        Watcher { backoff: FIRST_BACKOFF_SECS, announced: false }
    }

    /// Takes an event in. The metered bit clears whenever NetworkManager is lost:
    /// left set with nobody to clear it, it would park uploads forever, and a
    /// manual resume can't lift a metered pause.
    pub fn step(
        &mut self,
        network: &mut NetworkState,
        gate: &mut Gate,
        event: WatchEvent,
    ) -> (report: WatchReport)
        requires
            old(self).wf(),
        ensures
            final(self).wf(),
            *final(self) == old(self).next(event),
            *final(network) == network_after(*old(network), event),
            *final(gate) == gate_after(*old(gate), event),
            report.metered_changed == match reported(event) {
                Some(m) => old(gate).is_active(REASON_METERED) != m,
                None => false,
            },
            report.metered_changed <==> old(gate).is_active(REASON_METERED) != final(gate).is_active(
                REASON_METERED,
            ),
            report.notice == match event {
                WatchEvent::Reached(_) => Notice::Available,
                WatchEvent::Changed { .. } => Notice::Silent,
                WatchEvent::Ended => Notice::Reconnecting,
                WatchEvent::Failed => if old(self).announced {
                    Notice::StillUnreachable
                } else {
                    Notice::Unreachable
                },
            },
            report.reconnect_after == old(self).wait_after(event),
    {
        proof {
            law_the_metered_bit_follows_the_reports(*gate, event);
        }
        match event {
            WatchEvent::Reached(v) => {
                network.available = true;
                let metered_changed = network.set_metered(gate, is_metered_value(v));
                WatchReport { metered_changed, notice: Notice::Available, reconnect_after: None }
            },
            WatchEvent::Changed { interface, metered } => {
                let mut metered_changed: bool = false;
                if same_text(interface.as_str(), NM_IFACE) {
                    if let Some(v) = metered {
                        metered_changed = network.set_metered(gate, is_metered_value(v));
                    }
                }
                WatchReport { metered_changed, notice: Notice::Silent, reconnect_after: None }
            },
            WatchEvent::Ended => {
                self.backoff = FIRST_BACKOFF_SECS;
                self.lost(network, gate, Notice::Reconnecting)
            },
            WatchEvent::Failed => {
                let notice = if self.announced {
                    Notice::StillUnreachable
                } else {
                    Notice::Unreachable
                };
                self.announced = true;
                self.lost(network, gate, notice)
            },
        }
    }

    /// Clears what NetworkManager had said, and lengthens the next wait.
    fn lost(&mut self, network: &mut NetworkState, gate: &mut Gate, notice: Notice) -> (report:
        WatchReport)
        requires
            old(self).wf(),
        ensures
            final(self).wf(),
            final(self).backoff == longer(old(self).backoff as int),
            final(self).announced == old(self).announced,
            !final(network).available,
            *final(gate) == old(gate).updated(REASON_METERED, false),
            report.metered_changed == old(gate).is_active(REASON_METERED),
            report.notice == notice,
            report.reconnect_after == Some(old(self).backoff),
    {
        network.available = false;
        let metered_changed = network.set_metered(gate, false);
        let wait: u64 = self.backoff;
        self.backoff = if 2 * wait <= MAX_BACKOFF_SECS {
            2 * wait
        } else {
            MAX_BACKOFF_SECS
        };
        WatchReport { metered_changed, notice, reconnect_after: Some(wait) }
    }
}

/// The pause gate after `event`.
pub open spec fn gate_after(gate: Gate, event: WatchEvent) -> Gate {
    match reported(event) {
        Some(m) => gate.updated(REASON_METERED, m),
        None => gate,
    }
}

/// What is known of NetworkManager after `event`: it is available from the moment
/// that it was reached until it is lost.
pub open spec fn network_after(network: NetworkState, event: WatchEvent) -> NetworkState {
    NetworkState {
        available: match event {
            WatchEvent::Reached(_) => true,
            WatchEvent::Changed { .. } => network.available,
            WatchEvent::Ended => false,
            WatchEvent::Failed => false,
        },
    }
}

/// The watcher after `n` failures in a row.
pub open spec fn after_failures(watcher: Watcher, n: nat) -> Watcher
    decreases n,
{
    if n == 0 {
        watcher
    } else {
        after_failures(watcher, (n - 1) as nat).next(WatchEvent::Failed)
    }
}

/// Whatever way NetworkManager is lost, the metered bit is clear afterwards, and
/// the pause gate is blocked only by what blocked it besides: the watcher fails open.
pub proof fn law_a_lost_network_manager_fails_open(gate: Gate, event: WatchEvent)
    requires
        event is Ended || event is Failed,
    ensures
        !gate_after(gate, event).is_active(REASON_METERED),
        gate_after(gate, event).is_blocked() == gate.is_active(!REASON_METERED),
{
    law_set_takes_effect(gate, REASON_METERED);
    law_blocked_until_every_reason_clears(gate, REASON_METERED);
}

/// No event of the watcher touches a manual pause.
pub proof fn law_the_watcher_leaves_a_manual_pause(gate: Gate, event: WatchEvent)
    ensures
        gate_after(gate, event).is_active(REASON_MANUAL) == gate.is_active(REASON_MANUAL),
{
    assert(REASON_METERED & REASON_MANUAL == 0) by (bit_vector);
    law_reasons_are_independent(gate, REASON_METERED, true, REASON_MANUAL);
    law_reasons_are_independent(gate, REASON_METERED, false, REASON_MANUAL);
}

/// What an event reports of the metered flag is what the pause gate then has; an event
/// that reports nothing leaves the flag.
pub proof fn law_the_metered_bit_follows_the_reports(gate: Gate, event: WatchEvent)
    ensures
        gate_after(gate, event).is_active(REASON_METERED) == match reported(event) {
            Some(m) => m,
            None => gate.is_active(REASON_METERED),
        },
{
    law_set_takes_effect(gate, REASON_METERED);
}

/// The waits between failing attempts are 1, 2, 4, 8 and 16 seconds, and 30
/// seconds from then on.
pub proof fn law_waits_double_up_to_the_cap(watcher: Watcher, n: nat)
    requires
        watcher.backoff == FIRST_BACKOFF_SECS,
    ensures
        after_failures(watcher, n).wait_after(WatchEvent::Failed) == Some(
            if n < 5 {
                pow2(n) as u64
            } else {
                MAX_BACKOFF_SECS
            },
        ),
    decreases n,
{
    lemma2_to64();
    if n > 0 {
        law_waits_double_up_to_the_cap(watcher, (n - 1) as nat);
    }
}

/// A signal stream that ended starts the waits anew, however many attempts had
/// failed before.
pub proof fn law_an_ended_stream_restarts_the_waits(watcher: Watcher)
    ensures
        watcher.wait_after(WatchEvent::Ended) == Some(FIRST_BACKOFF_SECS),
        watcher.next(WatchEvent::Ended).backoff == 2 * FIRST_BACKOFF_SECS,
{
}

/// Uploads are parked by what NetworkManager says, whatever it said before: when it is
/// reached, and when its own interface reports a change, the metered bit is set for the
/// values 1 (yes) and 3 (guessed yes) and clear for every other.
pub proof fn law_metered_is_yes_and_guessed_yes(gate: Gate, v: u32, interface: String)
    requires
        interface@ == "org.freedesktop.NetworkManager"@,
    ensures
        gate_after(gate, WatchEvent::Reached(v)).is_active(REASON_METERED) <==> v == 1 || v == 3,
        gate_after(gate, WatchEvent::Changed { interface, metered: Some(v) }).is_active(
            REASON_METERED,
        ) <==> v == 1 || v == 3,
        v == 1 || v == 3 ==> gate_after(
            gate,
            WatchEvent::Changed { interface, metered: Some(v) },
        ).is_blocked() && gate_after(gate, WatchEvent::Reached(v)).is_blocked(),
        gate_after(gate, WatchEvent::Changed { interface, metered: Some(v) })
            == gate.updated(REASON_METERED, v == 1 || v == 3),
        gate_after(gate, WatchEvent::Reached(v)) == gate.updated(
            REASON_METERED,
            v == 1 || v == 3,
        ),
{
    law_set_takes_effect(gate, REASON_METERED);
}

/// A change of another interface, or one that does not concern the property, changes
/// nothing.
pub proof fn law_other_signals_change_nothing(
    gate: Gate,
    network: NetworkState,
    watcher: Watcher,
    interface: String,
    metered: Option<u32>,
)
    requires
        interface@ != "org.freedesktop.NetworkManager"@ || metered is None,
    ensures
        gate_after(gate, WatchEvent::Changed { interface, metered }) == gate,
        network_after(network, WatchEvent::Changed { interface, metered }) == network,
        watcher.next(WatchEvent::Changed { interface, metered }) == watcher,
{
}

/// NetworkManager is available from the moment that it is reached until its stream ends
/// or breaks; a signal says nothing else of that.
pub proof fn law_available_from_reached_until_lost(
    network: NetworkState,
    v: u32,
    interface: String,
    metered: Option<u32>,
)
    ensures
        network_after(network, WatchEvent::Reached(v)).available,
        network_after(network, WatchEvent::Changed { interface, metered }).available
            == network.available,
        !network_after(network, WatchEvent::Ended).available,
        !network_after(network, WatchEvent::Failed).available,
{
}

/// The watcher waits only when it lost NetworkManager, between 1 and 30 seconds: after
/// a failure as long as it had come to, after a stream that ended one second. The next
/// wait is twice as long, or 30 seconds if that is less. A failure is announced, and
/// nothing else changes that.
pub proof fn law_each_wait_is_twice_the_last(
    watcher: Watcher,
    v: u32,
    interface: String,
    metered: Option<u32>,
)
    requires
        watcher.wf(),
    ensures
        1 <= watcher.backoff <= 30,
        watcher.wait_after(WatchEvent::Reached(v)) is None,
        watcher.wait_after(WatchEvent::Changed { interface, metered }) is None,
        watcher.wait_after(WatchEvent::Failed) == Some(watcher.backoff),
        watcher.wait_after(WatchEvent::Ended) == Some(1u64),
        watcher.next(WatchEvent::Reached(v)) == watcher,
        watcher.next(WatchEvent::Changed { interface, metered }) == watcher,
        watcher.backoff <= 15 ==> watcher.next(WatchEvent::Failed).backoff == watcher.backoff * 2,
        watcher.backoff > 15 ==> watcher.next(WatchEvent::Failed).backoff == 30,
        watcher.next(WatchEvent::Ended).backoff == 2,
        watcher.next(WatchEvent::Failed).announced,
        watcher.next(WatchEvent::Ended).announced == watcher.announced,
{
}

/// The watcher finds NetworkManager where it is on the bus.
pub proof fn law_network_manager_has_its_names()
    ensures
        NM_SERVICE@ == "org.freedesktop.NetworkManager"@,
        NM_PATH@ == "/org/freedesktop/NetworkManager"@,
        NM_IFACE@ == "org.freedesktop.NetworkManager"@,
        METERED_PROPERTY@ == "Metered"@,
{
}

} // verus!
