//! What the daemon remembers of its batches.

use std::collections::VecDeque;

use vstd::prelude::*;

use crate::clock::{law_seconds_are_whole, seconds_between, seconds_since, NANOS_PER_SEC};
use crate::protocol::{BatchAverage, CurrentBatch, RecentBatch};
use crate::text::same_text;

verus! {

/// Cap on rolling-window history of completed batches. Belt-and-braces
/// alongside the time-based cutoff in case a worker burns through batches
/// fast enough that the 30-min window holds more than this.
pub const ROLLING_MAX_ENTRIES: usize = 200;

/// Drop completed-batch entries older than this, in nanoseconds, from the
/// rolling window.
pub const ROLLING_MAX_AGE: u64 = 1_800_000_000_000;

/// A batch under way: its closure is being sized, or its hook runs.
#[derive(Debug)]
pub struct RunningBatch {
    pub drv_path: Option<String>,
    pub paths_count: usize,
    /// `None` while the closure is being sized, and where it could not be.
    pub closure_bytes: Option<u64>,
    /// When the hook started; before that, when the sizing did.
    pub started: u64,
}

/// The contents of a [`RunningBatch`].
pub ghost struct BatchView {
    pub drv_path: Option<Seq<char>>,
    pub paths_count: usize,
    pub closure_bytes: Option<u64>,
    pub started: u64,
}

impl View for RunningBatch {
    type V = BatchView;

    open spec fn view(&self) -> BatchView {
        BatchView {
            drv_path: match self.drv_path {
                Some(drv) => Some(drv@),
                None => None,
            },
            paths_count: self.paths_count,
            closure_bytes: self.closure_bytes,
            started: self.started,
        }
    }
}

/// A batch whose hook succeeded.
#[derive(Debug)]
pub struct CompletedBatch {
    pub drv_path: Option<String>,
    pub paths_count: usize,
    pub closure_bytes: Option<u64>,
    /// How long the hook ran.
    pub duration: u64,
    /// When the hook succeeded.
    pub completed: u64,
}

/// A copy of an optional text.
pub fn copy_text(text: &Option<String>) -> (copy: Option<String>)
    ensures
        copy == *text,
{
    match text {
        Some(t) => Some(t.clone()),
        None => None,
    }
}

impl RunningBatch {
    /// What a status report says of the batch at `now`.
    pub open spec fn reported(self, now: u64) -> CurrentBatch {
        CurrentBatch {
            drv_path: self.drv_path,
            paths_count: self.paths_count,
            closure_bytes: self.closure_bytes,
            started_seconds_ago: seconds_between(self.started, now),
        }
    }

    /// What a status report says of the batch at `now`.
    pub fn report(&self, now: u64) -> (report: CurrentBatch)
        ensures
            report == self.reported(now),
    {
        CurrentBatch {
            drv_path: copy_text(&self.drv_path),
            paths_count: self.paths_count,
            closure_bytes: self.closure_bytes,
            started_seconds_ago: seconds_since(self.started, now),
        }
    }

    /// Another entry with the same contents.
    pub fn copy(&self) -> (copy: RunningBatch)
        ensures
            copy == *self,
    {
        RunningBatch {
            drv_path: copy_text(&self.drv_path),
            paths_count: self.paths_count,
            closure_bytes: self.closure_bytes,
            started: self.started,
        }
    }

    /// Whether two entries have the same contents.
    pub fn is_same(&self, other: &RunningBatch) -> (same: bool)
        ensures
            same == (self@ == other@),
    {
        let same_drv = match (&self.drv_path, &other.drv_path) {
            (Some(a), Some(b)) => same_text(a.as_str(), b.as_str()),
            (None, None) => true,
            _ => false,
        };
        let same_size = match (self.closure_bytes, other.closure_bytes) {
            (Some(a), Some(b)) => a == b,
            (None, None) => true,
            _ => false,
        };
        same_drv && same_size && self.paths_count == other.paths_count && self.started
            == other.started
    }
}

/// The contents of `batches`, one by one.
pub open spec fn contents(batches: Seq<RunningBatch>) -> Seq<BatchView> {
    batches.map_values(|b: RunningBatch| b@)
}

/// `batches` without the last one whose contents are `gone`.
pub open spec fn without(batches: Seq<RunningBatch>, gone: BatchView) -> Seq<RunningBatch>
    decreases batches.len(),
{
    if batches.len() == 0 {
        batches
    } else if batches.last()@ == gone {
        batches.drop_last()
    } else {
        without(batches.drop_last(), gone).push(batches.last())
    }
}

/// The batch that a status report shows: of those whose hook runs the one that
/// began last, or else of those being sized.
pub open spec fn shown(running: Seq<RunningBatch>, sizing: Seq<RunningBatch>) -> Option<
    RunningBatch,
> {
    if running.len() > 0 {
        Some(running.last())
    } else if sizing.len() > 0 {
        Some(sizing.last())
    } else {
        None
    }
}

/// What lies behind the last entry that is taken out stays as it is.
proof fn lemma_without_at(batches: Seq<RunningBatch>, gone: BatchView, at: int)
    requires
        0 <= at < batches.len(),
        batches[at]@ == gone,
        forall|j: int| at < j < batches.len() ==> (#[trigger] batches[j])@ != gone,
    ensures
        without(batches, gone) == batches.remove(at),
    decreases batches.len(),
{
    if at < batches.len() - 1 {
        assert(batches[batches.len() - 1]@ != gone);
        let head = batches.drop_last();
        assert forall|j: int| at < j < head.len() implies (#[trigger] head[j])@ != gone by {
            assert(head[j] == batches[j]);
        }
        lemma_without_at(head, gone, at);
        assert(head.remove(at).push(batches.last()) =~= batches.remove(at));
    } else {
        assert(batches.drop_last() =~= batches.remove(at));
    }
}

/// Without an entry to take out, all stay.
proof fn lemma_without_none(batches: Seq<RunningBatch>, gone: BatchView)
    requires
        forall|j: int| 0 <= j < batches.len() ==> (#[trigger] batches[j])@ != gone,
    ensures
        without(batches, gone) == batches,
    decreases batches.len(),
{
    if batches.len() > 0 {
        let head = batches.drop_last();
        assert forall|j: int| 0 <= j < head.len() implies (#[trigger] head[j])@ != gone by {
            assert(head[j] == batches[j]);
        }
        lemma_without_none(head, gone);
        assert(batches[batches.len() - 1]@ != gone);
        assert(head.push(batches.last()) =~= batches);
    }
}

/// As bags, exactly one entry of those contents is gone.
pub proof fn lemma_without_is_one_less(batches: Seq<RunningBatch>, gone: BatchView)
    ensures
        contents(without(batches, gone)).to_multiset() == contents(batches).to_multiset().remove(
            gone,
        ),
    decreases batches.len(),
{
    broadcast use vstd::seq_lib::group_to_multiset_ensures;

    let all = contents(batches);
    if batches.len() == 0 {
        assert(all =~= Seq::empty());
        assert(all.to_multiset() =~= all.to_multiset().remove(gone));
    } else {
        let head = batches.drop_last();
        let last = batches.last();
        assert(all =~= contents(head).push(last@));
        lemma_without_is_one_less(head, gone);
        if last@ == gone {
            assert(contents(head).to_multiset() =~= all.to_multiset().remove(gone));
        } else {
            assert(contents(without(batches, gone)) =~= contents(without(head, gone)).push(last@));
            assert(contents(without(batches, gone)).to_multiset() =~= all.to_multiset().remove(
                gone,
            ));
        }
    }
}

/// Takes the last entry with the contents of `gone` out of `batches`.
fn take_out(batches: &mut Vec<RunningBatch>, gone: &RunningBatch)
    ensures
        final(batches)@ == without(old(batches)@, gone@),
{
    let mut i: usize = batches.len();
    while i > 0
        invariant
            i <= batches.len(),
            batches@ == old(batches)@,
            forall|j: int| i <= j < batches.len() ==> (#[trigger] batches@[j])@ != gone@,
        decreases i,
    {
        i -= 1;
        if batches[i].is_same(gone) {
            proof {
                lemma_without_at(batches@, gone@, i as int);
            }
            let _ = batches.remove(i);
            return;
        }
    }
    proof {
        lemma_without_none(batches@, gone@);
    }
}

impl CompletedBatch {
    /// What a status report says of the batch at `now`.
    pub open spec fn reported(self, now: u64) -> RecentBatch {
        RecentBatch {
            drv_path: self.drv_path,
            paths_count: self.paths_count,
            closure_bytes: self.closure_bytes,
            duration_seconds: self.duration / NANOS_PER_SEC,
            completed_seconds_ago: seconds_between(self.completed, now),
        }
    }

    /// Whether the batch completed too long before `now` for the rolling window.
    pub open spec fn is_stale(self, now: u64) -> bool {
        self.completed + ROLLING_MAX_AGE < now
    }

    /// What a status report says of the batch at `now`.
    pub fn report(&self, now: u64) -> (report: RecentBatch)
        ensures
            report == self.reported(now),
    {
        RecentBatch {
            drv_path: copy_text(&self.drv_path),
            paths_count: self.paths_count,
            closure_bytes: self.closure_bytes,
            duration_seconds: self.duration / NANOS_PER_SEC,
            completed_seconds_ago: seconds_since(self.completed, now),
        }
    }

    /// Another entry with the same contents.
    pub fn copy(&self) -> (copy: CompletedBatch)
        ensures
            copy == *self,
    {
        CompletedBatch {
            drv_path: copy_text(&self.drv_path),
            paths_count: self.paths_count,
            closure_bytes: self.closure_bytes,
            duration: self.duration,
            completed: self.completed,
        }
    }
}

/// `window` without the stale entries at its front.
pub open spec fn without_stale(window: Seq<CompletedBatch>, now: u64) -> Seq<CompletedBatch>
    decreases window.len(),
{
    if window.len() > 0 && window[0].is_stale(now) {
        without_stale(window.skip(1), now)
    } else {
        window
    }
}

/// The last entries of `window`, as many as the cap allows.
pub open spec fn capped(window: Seq<CompletedBatch>) -> Seq<CompletedBatch> {
    if window.len() > ROLLING_MAX_ENTRIES {
        window.skip(window.len() - ROLLING_MAX_ENTRIES)
    } else {
        window
    }
}

/// What the window keeps of `window` at `now`.
pub open spec fn pruned(window: Seq<CompletedBatch>, now: u64) -> Seq<CompletedBatch> {
    capped(without_stale(window, now))
}

/// The nanoseconds that the batches of `window` took together.
pub open spec fn total_duration(window: Seq<CompletedBatch>) -> nat
    decreases window.len(),
{
    if window.len() == 0 {
        0
    } else {
        total_duration(window.drop_last()) + window.last().duration as nat
    }
}

/// The mean duration of the batches of `window`; none without a batch.
pub open spec fn average(window: Seq<CompletedBatch>) -> Option<BatchAverage> {
    if window.len() == 0 {
        None
    } else {
        Some(
            BatchAverage {
                total_nanos: total_duration(window) as u128,
                batches: window.len() as usize,
            },
        )
    }
}

/// What the daemon remembers of its batches.
#[derive(Debug)]
pub struct MetricsState {
    /// Rolling window of recent successful completions. Pruned by
    /// [`ROLLING_MAX_AGE`] and [`ROLLING_MAX_ENTRIES`] on every push.
    pub rolling: VecDeque<CompletedBatch>,
    /// The batches whose closure is being sized, in the order in which they began.
    pub sizing: Vec<RunningBatch>,
    /// The batches whose hook runs, in the order in which the hooks started.
    pub running: Vec<RunningBatch>,
    /// The one of them that a status report shows. See [`shown`].
    pub current: Option<RunningBatch>,
    /// The most recent successful batch.
    pub last_completed: Option<CompletedBatch>,
}

/// The contents of a [`MetricsState`].
pub ghost struct MetricsView {
    pub rolling: Seq<CompletedBatch>,
    pub sizing: Seq<RunningBatch>,
    pub running: Seq<RunningBatch>,
    pub current: Option<RunningBatch>,
    pub last_completed: Option<CompletedBatch>,
}

impl View for MetricsState {
    type V = MetricsView;

    open spec fn view(&self) -> MetricsView {
        MetricsView {
            rolling: self.rolling@,
            sizing: self.sizing@,
            running: self.running@,
            current: self.current,
            last_completed: self.last_completed,
        }
    }
}

impl MetricsView {
    /// Nothing remembered yet.
    pub open spec fn empty() -> MetricsView {
        MetricsView {
            rolling: Seq::empty(),
            sizing: Seq::empty(),
            running: Seq::empty(),
            current: None,
            last_completed: None,
        }
    }

    /// The metrics with other batches under way.
    pub open spec fn with_batches(
        self,
        sizing: Seq<RunningBatch>,
        running: Seq<RunningBatch>,
    ) -> MetricsView {
        MetricsView { sizing, running, current: shown(running, sizing), ..self }
    }

    /// The metrics once a worker began to size `batch`.
    pub open spec fn with_sizing(self, batch: RunningBatch) -> MetricsView {
        self.with_batches(self.sizing.push(batch), self.running)
    }

    /// The metrics once the batch that was sized as `sized` runs its hook as
    /// `batch`.
    pub open spec fn with_running(self, sized: BatchView, batch: RunningBatch) -> MetricsView {
        self.with_batches(without(self.sizing, sized), self.running.push(batch))
    }

    /// The metrics once the hook run of `batch` ended.
    pub open spec fn with_ended(self, batch: BatchView) -> MetricsView {
        self.with_batches(self.sizing, without(self.running, batch))
    }
}

/// A duration sum stays within the room that its number of entries gives it.
proof fn lemma_total_is_bounded(window: Seq<CompletedBatch>)
    ensures
        total_duration(window) <= window.len() * (u64::MAX as nat),
    decreases window.len(),
{
    if window.len() > 0 {
        lemma_total_is_bounded(window.drop_last());
        assert(window.len() * (u64::MAX as nat) == (window.len() - 1) * (u64::MAX as nat)
            + u64::MAX as nat) by (nonlinear_arith);
    }
}

/// A longer window took at least as long.
proof fn lemma_total_grows(window: Seq<CompletedBatch>, n: int)
    requires
        0 <= n <= window.len(),
    ensures
        total_duration(window.take(n)) <= total_duration(window),
    decreases window.len() - n,
{
    if n < window.len() {
        lemma_total_grows(window, n + 1);
        assert(window.take(n + 1).drop_last() =~= window.take(n));
    } else {
        assert(window.take(n) =~= window);
    }
}

impl MetricsState {
    /// Nothing remembered yet.
    pub fn new() -> (metrics: Self)
        ensures
            metrics@ == MetricsView::empty(),
    {
        MetricsState {
            rolling: VecDeque::new(),
            sizing: Vec::new(),
            running: Vec::new(),
            current: None,
            last_completed: None,
        }
    }

    /// Takes in that a worker began to size `batch`.
    pub fn begin_sizing(&mut self, batch: RunningBatch)
        ensures
            final(self)@ == old(self)@.with_sizing(batch),
    {
        self.sizing.push(batch);
        self.show();
    }

    /// Takes in that the batch that was sized as `sized` runs its hook as `batch`.
    pub fn begin_running(&mut self, sized: &RunningBatch, batch: RunningBatch)
        ensures
            final(self)@ == old(self)@.with_running(sized@, batch),
    {
        take_out(&mut self.sizing, sized);
        self.running.push(batch);
        self.show();
    }

    /// Takes in that the hook run of `batch` ended.
    pub fn end_running(&mut self, batch: &RunningBatch)
        ensures
            final(self)@ == old(self)@.with_ended(batch@),
    {
        take_out(&mut self.running, batch);
        self.show();
    }

    /// Picks the batch to show.
    fn show(&mut self)
        ensures
            final(self)@ == old(self)@.with_batches(old(self)@.sizing, old(self)@.running),
    {
        self.current = if self.running.len() > 0 {
            Some(self.running[self.running.len() - 1].copy())
        } else if self.sizing.len() > 0 {
            Some(self.sizing[self.sizing.len() - 1].copy())
        } else {
            None
        };
    }

    /// Takes a completed batch into the rolling window, which drops what is too
    /// old at `now` or over the cap.
    pub fn record(&mut self, entry: CompletedBatch, now: u64)
        ensures
            final(self)@ == (MetricsView {
                rolling: pruned(old(self)@.rolling.push(entry), now),
                last_completed: Some(entry),
                ..old(self)@
            }),
    {
        let ghost all = self.rolling@.push(entry);
        let ghost start = self@;
        self.rolling.push_back(entry.copy());
        while self.rolling.len() > 0 && (self.rolling[0].completed as u128
            + ROLLING_MAX_AGE as u128) < now as u128
            invariant
                without_stale(self.rolling@, now) == without_stale(all, now),
                self@ == (MetricsView { rolling: self.rolling@, ..start }),
            decreases self.rolling@.len(),
        {
            let ghost before = self.rolling@;
            let _ = self.rolling.pop_front();
            assert(self.rolling@ =~= before.skip(1));
        }
        let ghost fresh = self.rolling@;
        while self.rolling.len() > ROLLING_MAX_ENTRIES
            invariant
                self.rolling@ == fresh.skip(fresh.len() - self.rolling@.len()),
                self.rolling@.len() <= fresh.len(),
                self.rolling@.len() >= ROLLING_MAX_ENTRIES || self.rolling@ == fresh,
                self@ == (MetricsView { rolling: self.rolling@, ..start }),
            decreases self.rolling@.len(),
        {
            let ghost before = self.rolling@;
            let _ = self.rolling.pop_front();
            assert(self.rolling@ =~= before.skip(1));
            assert(self.rolling@ =~= fresh.skip(fresh.len() - self.rolling@.len()));
        }
        self.last_completed = Some(entry);
    }

    /// The mean duration of the batches in the rolling window.
    pub fn average_duration(&self) -> (mean: Option<BatchAverage>)
        ensures
            mean == average(self@.rolling),
    {
        let n: usize = self.rolling.len();
        if n == 0 {
            return None;
        }
        let mut total: u128 = 0;
        let mut i: usize = 0;
        while i < n
            invariant
                i <= n,
                n == self.rolling@.len(),
                total == total_duration(self.rolling@.take(i as int)),
            decreases n - i,
        {
            proof {
                let window = self.rolling@;
                assert(window.take(i + 1).drop_last() =~= window.take(i as int));
                lemma_total_grows(window, i + 1);
                lemma_total_is_bounded(window);
                assert(n * (u64::MAX as nat) <= u128::MAX) by (nonlinear_arith)
                    requires
                        n <= u64::MAX,
                ;
            }
            total = total + self.rolling[i].duration as u128;
            i += 1;
        }
        assert(self.rolling@.take(n as int) =~= self.rolling@);
        Some(BatchAverage { total_nanos: total, batches: n })
    }
}

/// The entries of `window` are in the order in which they completed.
pub open spec fn in_order(window: Seq<CompletedBatch>) -> bool {
    forall|i: int, j: int|
        0 <= i <= j < window.len() ==> (#[trigger] window[i]).completed <= (
        #[trigger] window[j]).completed
}

/// How many entries at the front of `window` are stale.
pub open spec fn stale_at_front(window: Seq<CompletedBatch>, now: u64) -> nat
    decreases window.len(),
{
    if window.len() > 0 && window[0].is_stale(now) {
        1 + stale_at_front(window.skip(1), now)
    } else {
        0
    }
}

/// Pruning takes stale entries off the front, and stops at one that is not.
proof fn lemma_without_stale(window: Seq<CompletedBatch>, now: u64)
    ensures
        stale_at_front(window, now) <= window.len(),
        without_stale(window, now) == window.skip(stale_at_front(window, now) as int),
        forall|i: int|
            0 <= i < stale_at_front(window, now) ==> (#[trigger] window[i]).is_stale(now),
        stale_at_front(window, now) < window.len() ==> !window[stale_at_front(
            window,
            now,
        ) as int].is_stale(now),
    decreases window.len(),
{
    if window.len() > 0 && window[0].is_stale(now) {
        let rest = window.skip(1);
        lemma_without_stale(rest, now);
        let n = stale_at_front(window, now);
        assert(rest.skip((n - 1) as int) =~= window.skip(n as int));
        assert forall|i: int| 0 <= i < n implies (#[trigger] window[i]).is_stale(now) by {
            if i > 0 {
                assert(window[i] == rest[i - 1]);
            }
        }
        if n < window.len() {
            assert(window[n as int] == rest[n - 1]);
        }
    } else {
        assert(window.skip(0) =~= window);
    }
}

/// The window never holds more entries than its cap.
pub proof fn law_the_window_is_capped(window: Seq<CompletedBatch>, now: u64)
    ensures
        pruned(window, now).len() <= ROLLING_MAX_ENTRIES,
{
}

/// Pruning drops entries from the front only: what stays are the newest, in
/// their order.
pub proof fn law_the_window_keeps_the_newest(window: Seq<CompletedBatch>, now: u64)
    ensures
        pruned(window, now).len() <= window.len(),
        pruned(window, now) == window.skip(window.len() - pruned(window, now).len()),
{
    lemma_without_stale(window, now);
    let kept = pruned(window, now);
    assert(kept =~= window.skip(window.len() - kept.len()));
}

/// Of entries in order, none in the pruned window is stale.
pub proof fn law_the_window_holds_nothing_stale(window: Seq<CompletedBatch>, now: u64)
    requires
        in_order(window),
    ensures
        forall|i: int|
            0 <= i < pruned(window, now).len() ==> !(#[trigger] pruned(window, now)[i]).is_stale(
                now,
            ),
        in_order(pruned(window, now)),
{
    lemma_without_stale(window, now);
    law_the_window_keeps_the_newest(window, now);
    let kept = pruned(window, now);
    let dropped = window.len() - kept.len();
    let first = stale_at_front(window, now) as int;
    assert forall|i: int| 0 <= i < kept.len() implies !(#[trigger] kept[i]).is_stale(now) by {
        assert(kept[i] == window[dropped + i]);
        assert(window[first].completed <= window[dropped + i].completed);
    }
    assert forall|i: int, j: int| 0 <= i <= j < kept.len() implies (#[trigger] kept[i]).completed
        <= (#[trigger] kept[j]).completed by {
        assert(kept[i] == window[dropped + i]);
        assert(kept[j] == window[dropped + j]);
    }
}

/// An entry that is fresh and among the last as many as the cap allows stays.
pub proof fn law_the_window_drops_nothing_else(window: Seq<CompletedBatch>, now: u64, i: int)
    requires
        0 <= i < window.len(),
        !window[i].is_stale(now),
        window.len() - i <= ROLLING_MAX_ENTRIES,
    ensures
        window.len() - pruned(window, now).len() <= i,
        pruned(window, now)[i - (window.len() - pruned(window, now).len())] == window[i],
{
    lemma_without_stale(window, now);
    law_the_window_keeps_the_newest(window, now);
}

/// A batch that completes when the window is in order, and not before the last
/// entry, leaves the window in order; and it is in the window.
pub proof fn law_recording_keeps_the_order(
    window: Seq<CompletedBatch>,
    entry: CompletedBatch,
    now: u64,
)
    requires
        in_order(window),
        window.len() > 0 ==> window.last().completed <= entry.completed,
        entry.completed <= now,
        !entry.is_stale(now),
    ensures
        in_order(pruned(window.push(entry), now)),
        pruned(window.push(entry), now).len() > 0,
        pruned(window.push(entry), now).last() == entry,
{
    let all = window.push(entry);
    assert forall|i: int, j: int| 0 <= i <= j < all.len() implies (#[trigger] all[i]).completed
        <= (#[trigger] all[j]).completed by {
        if i < window.len() {
            assert(window[i].completed <= window.last().completed);
        }
    }
    law_the_window_holds_nothing_stale(all, now);
    law_the_window_drops_nothing_else(all, now, all.len() - 1);
    law_the_window_keeps_the_newest(all, now);
}

/// There is an average exactly when a batch is in the window, and then it is at
/// most the longest duration there and at least the shortest.
pub proof fn law_the_average_is_a_mean(window: Seq<CompletedBatch>, shortest: u64, longest: u64)
    requires
        window.len() <= ROLLING_MAX_ENTRIES,
        forall|i: int|
            0 <= i < window.len() ==> shortest <= (#[trigger] window[i]).duration <= longest,
    ensures
        average(window) is Some <==> window.len() > 0,
        average(window) matches Some(mean) ==> mean.batches == window.len() && shortest
            * mean.batches <= mean.total_nanos <= longest * mean.batches,
{
    if window.len() > 0 {
        lemma_total_between(window, shortest, longest);
        let n = window.len();
        assert(n * (longest as nat) <= 200 * 0xffff_ffff_ffff_ffff) by (nonlinear_arith)
            requires
                n <= 200,
                longest <= 0xffff_ffff_ffff_ffff,
        ;
        assert(shortest * n == n * (shortest as nat)) by (nonlinear_arith);
        assert(longest * n == n * (longest as nat)) by (nonlinear_arith);
    }
}

/// A duration sum lies between the multiples of the shortest and the longest.
proof fn lemma_total_between(window: Seq<CompletedBatch>, shortest: u64, longest: u64)
    requires
        forall|i: int|
            0 <= i < window.len() ==> shortest <= (#[trigger] window[i]).duration <= longest,
    ensures
        window.len() * (shortest as nat) <= total_duration(window) <= window.len() * (
        longest as nat),
    decreases window.len(),
{
    if window.len() > 0 {
        let head = window.drop_last();
        assert forall|i: int| 0 <= i < head.len() implies shortest <= (
        #[trigger] head[i]).duration <= longest by {
            assert(head[i] == window[i]);
        }
        lemma_total_between(head, shortest, longest);
        let n = window.len();
        assert(n * (shortest as nat) == (n - 1) * (shortest as nat) + shortest) by (nonlinear_arith)
            requires
                n > 0,
        ;
        assert(n * (longest as nat) == (n - 1) * (longest as nat) + longest) by (nonlinear_arith)
            requires
                n > 0,
        ;
    }
}

/// Entries at the front that are all stale are dropped, however many they are.
pub proof fn law_the_window_drops_a_stale_front(window: Seq<CompletedBatch>, now: u64, n: int)
    requires
        0 <= n <= window.len(),
        forall|i: int| 0 <= i < n ==> (#[trigger] window[i]).is_stale(now),
    ensures
        pruned(window, now).len() <= window.len() - n,
{
    lemma_without_stale(window, now);
    if stale_at_front(window, now) < n {
        assert(window[stale_at_front(window, now) as int].is_stale(now));
    }
}

/// An entry is stale once it completed more than half an hour ago.
pub proof fn law_stale_is_older_than_half_an_hour(entry: CompletedBatch, now: u64)
    ensures
        entry.is_stale(now) <==> now - entry.completed > 30 * 60 * 1_000_000_000,
{
}

/// The average grows with each batch by exactly that batch: one batch more, and its
/// duration more in the sum. Without a batch there is none.
pub proof fn law_the_average_adds_up(window: Seq<CompletedBatch>, entry: CompletedBatch)
    requires
        window.len() < usize::MAX,
    ensures
        average(seq![]) is None,
        average(window.push(entry)) matches Some(mean) && {
            &&& mean.batches == window.len() + 1
            &&& mean.total_nanos == entry.duration + match average(window) {
                Some(before) => before.total_nanos as int,
                None => 0,
            }
        },
{
    let all = window.push(entry);
    assert(all.drop_last() =~= window);
    lemma_total_is_bounded(window);
    lemma_total_is_bounded(all);
    let n = all.len();
    assert(n * (u64::MAX as nat) <= u128::MAX) by (nonlinear_arith)
        requires
            n <= u64::MAX,
    ;
    assert(window.len() == 0 ==> total_duration(window) == 0);
}

/// A report on a batch under way says what the batch is, and how many whole seconds ago
/// it started.
pub proof fn law_a_current_batch_is_reported_as_it_is(batch: RunningBatch, now: u64)
    ensures
        batch.reported(now).drv_path == batch.drv_path,
        batch.reported(now).paths_count == batch.paths_count,
        batch.reported(now).closure_bytes == batch.closure_bytes,
        batch.started <= now ==> 1_000_000_000 * batch.reported(now).started_seconds_ago <= now
            - batch.started < 1_000_000_000 * (batch.reported(now).started_seconds_ago + 1),
        now < batch.started ==> batch.reported(now).started_seconds_ago == 0,
{
    law_seconds_are_whole(batch.started, now);
}

/// A report on a completed batch says what the batch is, how many whole seconds it took
/// and how many whole seconds ago it completed.
pub proof fn law_a_recent_batch_is_reported_as_it_is(batch: CompletedBatch, now: u64)
    ensures
        batch.reported(now).drv_path == batch.drv_path,
        batch.reported(now).paths_count == batch.paths_count,
        batch.reported(now).closure_bytes == batch.closure_bytes,
        1_000_000_000 * batch.reported(now).duration_seconds <= batch.duration < 1_000_000_000 * (
        batch.reported(now).duration_seconds + 1),
        batch.completed <= now ==> 1_000_000_000 * batch.reported(now).completed_seconds_ago <= now
            - batch.completed < 1_000_000_000 * (batch.reported(now).completed_seconds_ago + 1),
        now < batch.completed ==> batch.reported(now).completed_seconds_ago == 0,
{
    law_seconds_are_whole(batch.completed, now);
}

/// The batch that is shown is the one whose hook started last; while no hook runs, the
/// one that began to be sized last; and none while there is none.
pub proof fn law_the_latest_batch_is_shown(
    running: Seq<RunningBatch>,
    sizing: Seq<RunningBatch>,
    batch: RunningBatch,
)
    ensures
        shown(running.push(batch), sizing) == Some(batch),
        shown(seq![], sizing.push(batch)) == Some(batch),
        running.len() > 0 ==> shown(running, sizing.push(batch)) == shown(running, sizing),
        shown(seq![], seq![]) is None,
{
}

/// A batch that begins to be sized, runs and ends is listed accordingly, the one to show
/// is picked anew, and the rest of the metrics stays as it is.
pub proof fn law_batches_are_listed_while_under_way(
    metrics: MetricsView,
    sized: BatchView,
    batch: RunningBatch,
)
    ensures
        ({
            let sizing = metrics.with_sizing(batch);
            let running = metrics.with_running(sized, batch);
            let ended = metrics.with_ended(sized);
            let rest = |other: MetricsView|
                {
                    &&& other.rolling == metrics.rolling
                    &&& other.last_completed == metrics.last_completed
                    &&& other.current == shown(other.running, other.sizing)
                };
            &&& rest(sizing) && rest(running) && rest(ended)
            &&& sizing.sizing == metrics.sizing.push(batch)
            &&& sizing.running == metrics.running
            &&& running.sizing == without(metrics.sizing, sized)
            &&& running.running == metrics.running.push(batch)
            &&& running.current == Some(batch)
            &&& ended.sizing == metrics.sizing
            &&& ended.running == without(metrics.running, sized)
        }),
{
}

/// Two entries of batches under way are taken for the same exactly if all that a report
/// tells of them is the same.
pub proof fn law_entries_are_told_apart_by_their_contents(a: RunningBatch, b: RunningBatch)
    ensures
        a@ == b@ <==> {
            &&& a.paths_count == b.paths_count
            &&& a.closure_bytes == b.closure_bytes
            &&& a.started == b.started
            &&& match (a.drv_path, b.drv_path) {
                (Some(x), Some(y)) => x@ == y@,
                (None, None) => true,
                _ => false,
            }
        },
{
}

/// Taking a batch out takes exactly one entry with its contents, the last such, and
/// leaves all others in their order.
pub proof fn law_the_last_such_entry_is_taken_out(
    batches: Seq<RunningBatch>,
    gone: BatchView,
    at: int,
)
    requires
        0 <= at < batches.len(),
        batches[at]@ == gone,
        forall|j: int| at < j < batches.len() ==> (#[trigger] batches[j])@ != gone,
    ensures
        without(batches, gone) == batches.remove(at),
{
    lemma_without_at(batches, gone, at);
}

/// Without an entry to take out, all stay.
pub proof fn law_nothing_else_is_taken_out(batches: Seq<RunningBatch>, gone: BatchView)
    requires
        forall|j: int| 0 <= j < batches.len() ==> (#[trigger] batches[j])@ != gone,
    ensures
        without(batches, gone) == batches,
{
    lemma_without_none(batches, gone);
}

} // verus!
