//! The traffic alert: a sliding window of interval totals, the average over
//! it, and the two-state machine that the average drives.

use crate::ring::{number_items, number_limit, numbers_collect, numbers_len, numbers_new, numbers_push, pushed, NumberRing};
use vstd::prelude::*;

verus! {

/// The sum of `values`.
pub open spec fn total_of(values: Seq<u64>) -> nat
    decreases values.len(),
{
    if values.len() == 0 {
        0
    } else {
        total_of(values.drop_last()) + values.last() as nat
    }
}

/// What a window of `capacity` entries holds after `totals` were pushed into
/// it in order, starting empty.
pub open spec fn window_after(capacity: nat, totals: Seq<u64>) -> Seq<u64>
    decreases totals.len(),
{
    if totals.len() == 0 {
        Seq::empty()
    } else {
        pushed(window_after(capacity, totals.drop_last()), capacity, totals.last())
    }
}

/// The last `capacity` entries of `totals`, or all of them where there are fewer.
pub open spec fn latest(capacity: nat, totals: Seq<u64>) -> Seq<u64> {
    if totals.len() <= capacity {
        totals
    } else {
        totals.subrange(totals.len() - capacity, totals.len() as int)
    }
}

/// First in, first out: after any number of pushes the window holds the
/// latest `capacity` totals in the order in which they were pushed. So it is
/// full from the `capacity`-th push on, and each further push evicts exactly
/// the oldest total that it held.
pub proof fn lemma_window_is_fifo(capacity: nat, totals: Seq<u64>)
    requires
        capacity >= 1,
    ensures
        window_after(capacity, totals) == latest(capacity, totals),
        totals.len() >= capacity ==> window_after(capacity, totals).len() == capacity,
    decreases totals.len(),
{
    if totals.len() > 0 {
        let front = totals.drop_last();
        lemma_window_is_fifo(capacity, front);
        assert(window_after(capacity, totals) =~= latest(capacity, totals));
    }
}

/// The sum of a sequence of `u64` values is at most its length times the
/// largest `u64`.
pub proof fn lemma_total_bound(values: Seq<u64>)
    ensures
        total_of(values) <= values.len() * u64::MAX,
    decreases values.len(),
{
    if values.len() > 0 {
        lemma_total_bound(values.drop_last());
        assert(total_of(values) <= (values.len() - 1) * u64::MAX + u64::MAX);
        assert((values.len() - 1) * u64::MAX + u64::MAX == values.len() * u64::MAX)
            by (nonlinear_arith);
    }
}

/// The average request rate over a full window: the sum of its totals
/// divided by the seconds that it spans, rounded down.
pub open spec fn window_average(values: Seq<u64>, refresh_interval: u64) -> int {
    total_of(values) as int / (values.len() * refresh_interval)
}

/// Once as many totals were pushed as the window holds, its average is the
/// sum of the latest `capacity` totals divided by the seconds that they span.
pub proof fn lemma_average_of_latest(capacity: nat, totals: Seq<u64>, refresh_interval: u64)
    requires
        capacity >= 1,
        totals.len() >= capacity,
    ensures
        window_average(window_after(capacity, totals), refresh_interval) == total_of(
            latest(capacity, totals),
        ) as int / (capacity * refresh_interval),
{
    lemma_window_is_fifo(capacity, totals);
}

/// The largest capacity that a window can be made with.
pub open spec fn max_capacity() -> usize {
    (usize::MAX / 16) as usize
}

/// The totals of the latest refresh intervals, at most `capacity` of them.
pub struct AlertWindow {
    buffer: NumberRing,
    capacity: usize,
}

impl View for AlertWindow {
    type V = Seq<u64>;

    /// The totals that the window holds, oldest first.
    closed spec fn view(&self) -> Seq<u64> {
        number_items(self.buffer)
    }
}

impl AlertWindow {
    /// How many totals the window holds at most.
    pub closed spec fn capacity(&self) -> nat {
        self.capacity as nat
    }

    /// The invariant: the capacity is at least one and never exceeded.
    pub closed spec fn wf(&self) -> bool {
        &&& number_limit(self.buffer) == self.capacity
        &&& 0 < self.capacity <= max_capacity()
        &&& number_items(self.buffer).len() <= self.capacity
    }

    /// A well-formed window has room for at least one total and holds no
    /// more than its capacity.
    pub proof fn lemma_within_capacity(&self)
        requires
            self.wf(),
        ensures
            1 <= self.capacity() <= max_capacity(),
            self@.len() <= self.capacity(),
    {
    }

    /// An empty window for `capacity` totals.
    pub fn new(capacity: usize) -> (window: Self)
        requires
            0 < capacity <= max_capacity(),
        ensures
            window.wf(),
            window@ == Seq::<u64>::empty(),
            window.capacity() == capacity,
    {
        AlertWindow { buffer: numbers_new(capacity), capacity }
    }

    /// Appends the total of one interval; a full window loses its oldest total.
    pub fn push(&mut self, total: u64)
        requires
            old(self).wf(),
        ensures
            final(self).wf(),
            final(self).capacity() == old(self).capacity(),
            final(self)@ == pushed(old(self)@, old(self).capacity(), total),
    {
        let _ = numbers_push(&mut self.buffer, total);
    }

    /// How many totals the window holds.
    pub fn len(&self) -> (n: usize)
        ensures
            n == self@.len(),
    {
        numbers_len(&self.buffer)
    }

    /// How many totals the window holds at most.
    pub fn size(&self) -> (n: usize)
        ensures
            n == self.capacity(),
    {
        self.capacity
    }

    /// Whether the window holds as many totals as it can.
    pub fn is_full(&self) -> (full: bool)
        ensures
            full == (self@.len() == self.capacity()),
    {
        numbers_len(&self.buffer) == self.capacity
    }

    /// The totals that the window holds, oldest first.
    pub fn values(&self) -> (values: Vec<u64>)
        ensures
            values@ == self@,
    {
        numbers_collect(&self.buffer)
    }

    /// The sum of the totals that the window holds.
    pub fn sum(&self) -> (sum: u128)
        requires
            self.wf(),
        ensures
            sum == total_of(self@),
    {
        let values = self.values();
        let mut sum: u128 = 0;
        let mut i: usize = 0;
        while i < values.len()
            invariant
                i <= values@.len(),
                values@.len() <= usize::MAX / 16,
                sum == total_of(values@.take(i as int)),
            decreases values@.len() - i,
        {
            proof {
                lemma_total_bound(values@.take(i as int));
                assert(i * u64::MAX <= (usize::MAX / 16) * u64::MAX) by (nonlinear_arith)
                    requires
                        i <= usize::MAX / 16,
                ;
                assert(values@.take(i + 1).drop_last() =~= values@.take(i as int));
            }
            sum = sum + values[i] as u128;
            i += 1;
        }
        proof {
            assert(values@.take(i as int) =~= values@);
        }
        sum
    }

    /// The average request rate over the window, once it is full: the sum of
    /// its totals divided by the seconds that it spans, rounded down. `None`
    /// while the window is not full.
    pub fn average(&self, refresh_interval: u64) -> (average: Option<u64>)
        requires
            self.wf(),
            refresh_interval >= 1,
        ensures
            average is Some <==> self@.len() == self.capacity(),
            average is Some ==> average->0 == window_average(self@, refresh_interval),
    {
        if !self.is_full() {
            return None;
        }
        let sum: u128 = self.sum();
        proof {
            assert(self.capacity * refresh_interval <= (usize::MAX / 16) * u64::MAX)
                by (nonlinear_arith)
                requires
                    self.capacity <= usize::MAX / 16,
                    refresh_interval <= u64::MAX,
            ;
        }
        let span: u128 = self.capacity as u128 * refresh_interval as u128;
        proof {
            lemma_total_bound(self@);
            let n = self@.len() as int;
            let r = refresh_interval as int;
            let t = total_of(self@) as int;
            assert(n * r >= n) by (nonlinear_arith)
                requires
                    n >= 1,
                    r >= 1,
            ;
            assert(t / (n * r) <= u64::MAX) by (nonlinear_arith)
                requires
                    t <= n * u64::MAX,
                    n * r >= n,
                    n >= 1,
            ;
        }
        Some((sum / span) as u64)
    }
}

/// Whether the alert fires, since when, and the average that was seen last.
#[derive(Clone, Copy, Debug, PartialEq, Eq, Structural)]
pub struct AlertState {
    /// `true` while the alert is firing, `false` while it is resolved.
    pub firing: bool,
    /// The time of the last change of `firing`, in seconds since the Unix
    /// epoch; `None` while it has never changed.
    pub since: Option<i64>,
    /// The average over the window when it was last full; zero before that.
    pub last_average: u64,
}

/// The state that follows `state` when a full window has the given average at
/// time `now`: the alert starts firing when the average reaches the threshold
/// and resolves when it falls below; the average is recorded either way.
pub open spec fn alert_step(state: AlertState, average: u64, threshold: u64, now: i64) -> AlertState {
    if (average >= threshold) != state.firing {
        AlertState { firing: !state.firing, since: Some(now), last_average: average }
    } else {
        AlertState { firing: state.firing, since: state.since, last_average: average }
    }
}

/// The state that follows `state` after a run of observations, each an
/// average with the time at which it was seen.
pub open spec fn alert_run(state: AlertState, seen: Seq<(u64, i64)>, threshold: u64) -> AlertState
    decreases seen.len(),
{
    if seen.len() == 0 {
        state
    } else {
        alert_step(alert_run(state, seen.drop_last(), threshold), seen.last().0, threshold, seen.last().1)
    }
}

/// A resolved alert starts firing at the first average that reaches the
/// threshold, and while the averages stay there it keeps firing since then:
/// a sustained excess changes the state once.
pub proof fn lemma_fires_once(state: AlertState, seen: Seq<(u64, i64)>, threshold: u64)
    requires
        !state.firing,
        seen.len() >= 1,
        forall|i: int| 0 <= i < seen.len() ==> (#[trigger] seen[i]).0 >= threshold,
    ensures
        alert_run(state, seen, threshold) == (AlertState {
            firing: true,
            since: Some(seen[0].1),
            last_average: seen.last().0,
        }),
    decreases seen.len(),
{
    if seen.len() > 1 {
        let front = seen.drop_last();
        assert forall|i: int| 0 <= i < front.len() implies (#[trigger] front[i]).0 >= threshold by {
            assert(front[i] == seen[i]);
        }
        lemma_fires_once(state, front, threshold);
        assert(front[0] == seen[0]);
    } else {
        assert(alert_run(state, seen.drop_last(), threshold) == state);
    }
    assert(seen[seen.len() - 1].0 >= threshold);
}

/// A firing alert resolves at the first average below the threshold, and
/// while the averages stay there it stays resolved since then.
pub proof fn lemma_resolves_once(state: AlertState, seen: Seq<(u64, i64)>, threshold: u64)
    requires
        state.firing,
        seen.len() >= 1,
        forall|i: int| 0 <= i < seen.len() ==> (#[trigger] seen[i]).0 < threshold,
    ensures
        alert_run(state, seen, threshold) == (AlertState {
            firing: false,
            since: Some(seen[0].1),
            last_average: seen.last().0,
        }),
    decreases seen.len(),
{
    if seen.len() > 1 {
        let front = seen.drop_last();
        assert forall|i: int| 0 <= i < front.len() implies (#[trigger] front[i]).0 < threshold by {
            assert(front[i] == seen[i]);
        }
        lemma_resolves_once(state, front, threshold);
        assert(front[0] == seen[0]);
    } else {
        assert(alert_run(state, seen.drop_last(), threshold) == state);
    }
    assert(seen[seen.len() - 1].0 < threshold);
}

impl AlertState {
    /// The state at start: resolved, never changed, no average seen.
    pub fn new() -> (state: Self)
        ensures
            state == (AlertState { firing: false, since: None, last_average: 0 }),
    {
        AlertState { firing: false, since: None, last_average: 0 }
    }

    /// Changes between firing and resolved, at time `now`.
    pub fn reverse(&mut self, now: i64)
        ensures
            *final(self) == (AlertState {
                firing: !old(self).firing,
                since: Some(now),
                last_average: old(self).last_average,
            }),
    {
        self.firing = !self.firing;
        self.since = Some(now);
    }

    /// Takes the average of a full window at time `now` into account.
    pub fn observe(&mut self, average: u64, threshold: u64, now: i64)
        ensures
            *final(self) == alert_step(*old(self), average, threshold, now),
    {
        if (average >= threshold) != self.firing {
            self.reverse(now);
        }
        self.last_average = average;
    }
}

} // verus!
