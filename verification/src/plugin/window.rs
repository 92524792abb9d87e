//! Rolling-window event counter shared by the crash-loop breaker and the
//! path-escape breaker.
//!
//! Timestamps are plain `u64` nanoseconds on a monotonic clock; the owner of
//! the window decides where the clock starts. An event recorded at `t` is
//! still "live" at instant `at` when `t` lies in the future of `at` (possible
//! with injected clocks) or when `at - t` is strictly smaller than the window.

use vstd::prelude::*;

verus! {

/// `t` still counts at instant `at` for a window of `window` nanoseconds.
pub open spec fn is_live(at: u64, window: u64, t: u64) -> bool {
    t > at || at - t < window
}

/// The events of `events` that are still live at `at`, in the order they were recorded.
pub open spec fn live_events(events: Seq<u64>, at: u64, window: u64) -> Seq<u64>
    decreases events.len(),
{
    if events.len() == 0 {
        Seq::empty()
    } else {
        let rest = live_events(events.drop_last(), at, window);
        if is_live(at, window, events.last()) {
            rest.push(events.last())
        } else {
            rest
        }
    }
}

/// Number of events of `events` that are live at `at`.
pub open spec fn live_count(events: Seq<u64>, at: u64, window: u64) -> nat {
    live_events(events, at, window).len()
}

/// Law: pruning keeps only events that were recorded and are still live,
/// never more than were recorded.
pub proof fn law_pruning_keeps_only_live_events(events: Seq<u64>, at: u64, window: u64)
    ensures
        live_events(events, at, window).len() <= events.len(),
        forall|i: int|
            0 <= i < live_events(events, at, window).len() ==> is_live(
                at,
                window,
                #[trigger] live_events(events, at, window)[i],
            ) && events.contains(live_events(events, at, window)[i]),
    decreases events.len(),
{
    if events.len() > 0 {
        law_pruning_keeps_only_live_events(events.drop_last(), at, window);
        let rest = live_events(events.drop_last(), at, window);
        assert forall|i: int| 0 <= i < rest.len() implies events.contains(rest[i]) by {
            let j = choose|j: int| 0 <= j < events.drop_last().len() && events.drop_last()[j] == rest[i];
            assert(events[j] == rest[i]);
        }
        assert(events[events.len() - 1] == events.last());
    }
}

/// When every event equals `at` and the window is non-empty, all of them are live.
pub proof fn lemma_live_events_same_instant(events: Seq<u64>, at: u64, window: u64)
    requires
        window > 0,
        forall|i: int| 0 <= i < events.len() ==> events[i] == at,
    ensures
        live_events(events, at, window) == events,
    decreases events.len(),
{
    if events.len() > 0 {
        lemma_live_events_same_instant(events.drop_last(), at, window);
        assert(events.drop_last().push(events.last()) =~= events);
    }
}

/// Events no older than `window` before `at` are live; older ones are not.
pub proof fn lemma_live_events_all_stale(events: Seq<u64>, at: u64, window: u64)
    requires
        forall|i: int| 0 <= i < events.len() ==> !is_live(at, window, #[trigger] events[i]),
    ensures
        live_events(events, at, window) == Seq::<u64>::empty(),
    decreases events.len(),
{
    if events.len() > 0 {
        lemma_live_events_all_stale(events.drop_last(), at, window);
        assert(!is_live(at, window, events[events.len() - 1]));
    }
}

/// Law: events recorded at one single instant all stay inside a non-empty
/// window, so a burst of `n` events at one instant leaves exactly `n` live
/// events, and the window is over a threshold exactly when `n` exceeds it.
pub proof fn law_burst_at_one_instant(earlier: Seq<u64>, at: u64, window: u64, threshold: nat)
    requires
        window > 0,
        forall|i: int| 0 <= i < earlier.len() ==> earlier[i] == at,
    ensures
        live_events(earlier.push(at), at, window) == earlier.push(at),
        (live_events(earlier.push(at), at, window).len() > threshold) == (earlier.len() + 1 > threshold),
{
    let all = earlier.push(at);
    assert forall|i: int| 0 <= i < all.len() implies all[i] == at by {
        if i < earlier.len() {
            assert(all[i] == earlier[i]);
        }
    }
    lemma_live_events_same_instant(all, at, window);
}

/// Law: when every earlier event lies at least one full window before `at`,
/// recording an event at `at` prunes all of them and leaves only the new one.
pub proof fn law_stale_events_expire(earlier: Seq<u64>, at: u64, window: u64)
    requires
        window > 0,
        forall|i: int| 0 <= i < earlier.len() ==> #[trigger] earlier[i] <= at && at - earlier[i] >= window,
    ensures
        live_events(earlier.push(at), at, window) == seq![at],
{
    assert forall|i: int| 0 <= i < earlier.len() implies !is_live(at, window, #[trigger] earlier[i]) by {}
    lemma_live_events_all_stale(earlier, at, window);
    assert(earlier.push(at).drop_last() =~= earlier);
    assert(Seq::<u64>::empty().push(at) =~= seq![at]);
}

/// The events kept after recording each of `times`, in order, starting
/// from `kept`: every record adds its event and prunes what is no longer
/// live at its instant.
pub open spec fn recorded(kept: Seq<u64>, times: Seq<u64>, window: u64) -> Seq<u64>
    decreases times.len(),
{
    if times.len() == 0 {
        kept
    } else {
        live_events(
            recorded(kept, times.drop_last(), window).push(times.last()),
            times.last(),
            window,
        )
    }
}

/// Pruning at an instant `a` loses nothing that is still live at a later
/// instant `b`.
proof fn lemma_prune_twice(s: Seq<u64>, a: u64, b: u64, window: u64)
    requires
        a <= b,
    ensures
        live_events(live_events(s, a, window), b, window) == live_events(s, b, window),
    decreases s.len(),
{
    if s.len() > 0 {
        let t = s.drop_last();
        lemma_prune_twice(t, a, b, window);
        let e = s.last();
        let la = live_events(t, a, window);
        if is_live(a, window, e) {
            assert(la.push(e).drop_last() =~= la);
        }
    }
}

/// `t` is no earlier than any of `times`.
pub open spec fn none_later(times: Seq<u64>, t: u64) -> bool {
    forall|i: int| 0 <= i < times.len() ==> #[trigger] times[i] <= t
}

/// What the window keeps after recording `times` one at a time, looked at
/// from an instant `b` no earlier than any of them, is what is live at `b`
/// of all of `times`.
proof fn lemma_recorded_seen_later(times: Seq<u64>, b: u64, window: u64)
    requires
        none_later(times, b),
    ensures
        live_events(recorded(Seq::empty(), times, window), b, window) == live_events(
            times,
            b,
            window,
        ),
    decreases times.len(),
{
    if times.len() > 0 {
        let t = times.last();
        let prev = times.drop_last();
        assert(times[times.len() - 1] == t);
        assert forall|i: int| 0 <= i < prev.len() implies #[trigger] prev[i] <= b by {
            assert(prev[i] == times[i]);
        }
        lemma_recorded_seen_later(prev, b, window);
        let x = recorded(Seq::empty(), prev, window);
        lemma_prune_twice(x.push(t), t, b, window);
        assert(x.push(t).drop_last() =~= x);
        assert(prev.push(t) =~= times);
        assert(live_events(prev, b, window).push(t).drop_last() =~= live_events(prev, b, window));
    }
}

/// Law: pruning on every record is the same as counting over the whole
/// history. When no event was recorded later than the last one, what the
/// window keeps after the last record is exactly the events of the whole
/// history that are live at the last instant.
pub proof fn law_pruning_matches_whole_history(times: Seq<u64>, window: u64)
    requires
        times.len() > 0,
        none_later(times, times.last()),
    ensures
        recorded(Seq::empty(), times, window) == live_events(times, times.last(), window),
{
    let t = times.last();
    let prev = times.drop_last();
    let x = recorded(Seq::empty(), prev, window);
    lemma_recorded_seen_later(times, t, window);
    lemma_prune_twice(x.push(t), t, t, window);
}

/// A counter of timestamped events over a rolling window, with a trip
/// threshold: the window is over its threshold when it holds strictly more
/// than `threshold` live events.
pub struct EventWindow {
    pub window: u64,
    pub threshold: usize,
    pub events: Vec<u64>,
}

impl EventWindow {
    pub fn new(window: u64, threshold: usize) -> (w: Self)
        ensures
            w.window == window,
            w.threshold == threshold,
            w.events@ == Seq::<u64>::empty(),
    {
        EventWindow { window, threshold, events: Vec::new() }
    }

    /// Append an event at `at`, drop every event that is no longer live at
    /// `at`, and report whether more than `threshold` events remain.
    pub fn record_at(&mut self, at: u64) -> (over: bool)
        ensures
            final(self).window == old(self).window,
            final(self).threshold == old(self).threshold,
            final(self).events@ == live_events(old(self).events@.push(at), at, old(self).window),
            over == (final(self).events@.len() > old(self).threshold),
    {
        self.events.push(at);
        let ghost all = self.events@;
        let n = self.events.len();
        let window = self.window;
        let mut kept: Vec<u64> = Vec::new();
        let mut i: usize = 0;
        while i < n
            invariant
                all == self.events@,
                n == all.len(),
                window == self.window,
                0 <= i <= n,
                kept@ == live_events(all.take(i as int), at, window),
            decreases n - i,
        {
            let t = self.events[i];
            assert(all.take(i as int + 1).drop_last() =~= all.take(i as int));
            assert(all.take(i as int + 1).last() == t);
            if t > at || at - t < window {
                kept.push(t);
            }
            i = i + 1;
        }
        assert(all.take(n as int) =~= all);
        self.events = kept;
        self.events.len() > self.threshold
    }

    /// Number of recorded events still live at `now` (no pruning).
    pub fn live_count_at(&self, now: u64) -> (count: usize)
        ensures
            count == live_count(self.events@, now, self.window),
    {
        let ghost all = self.events@;
        let n = self.events.len();
        let mut count: usize = 0;
        let mut i: usize = 0;
        while i < n
            invariant
                all == self.events@,
                n == all.len(),
                0 <= i <= n,
                count == live_count(all.take(i as int), now, self.window),
                count <= i,
            decreases n - i,
        {
            let t = self.events[i];
            assert(all.take(i as int + 1).drop_last() =~= all.take(i as int));
            assert(all.take(i as int + 1).last() == t);
            if t > now || now - t < self.window {
                count = count + 1;
            }
            i = i + 1;
        }
        assert(all.take(n as int) =~= all);
        count
    }
}

} // verus!
