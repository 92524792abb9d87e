//! Crash-loop breaker for plugin spawn attempts.
//!
//! Trips when more than 3 plugin crashes occur within 60 seconds; while
//! tripped, the host refuses further spawn attempts.

use vstd::prelude::*;

use crate::plugin::clock::{nanos_of, nanos_since, MonoClock};
use crate::plugin::window::{
    law_pruning_matches_whole_history, live_count, live_events, none_later, recorded, EventWindow,
};

verus! {

/// Subcode emitted when the breaker trips.
pub const FINDING_DISABLED_CRASH_LOOP: &'static str = "CLA-INFRA-PLUGIN-DISABLED-CRASH-LOOP";

/// State returned by [`CrashLoopBreaker::record_crash`].
#[derive(Debug, Clone, Copy, PartialEq, Eq)]
#[non_exhaustive]
pub enum CrashLoopState {
    /// Within the threshold; further spawn attempts allowed.
    Open,
    /// Threshold exceeded; further spawn attempts should be refused.
    Tripped,
}

/// The breaker state for `count` live crashes against `threshold`.
pub open spec fn crash_state(count: nat, threshold: nat) -> CrashLoopState {
    if count > threshold {
        CrashLoopState::Tripped
    } else {
        CrashLoopState::Open
    }
}

/// Law: the breaker judges the whole crash history. A breaker that
/// started with no crash and recorded crashes at `times`, none later than
/// the last ([`recorded`], what [`CrashLoopBreaker::record_crash_at`] does
/// at each crash), is tripped exactly when more than `threshold` of all
/// those crashes lie inside the window ending at the last one.
pub proof fn law_breaker_judges_whole_history(times: Seq<u64>, window: u64, threshold: nat)
    requires
        times.len() > 0,
        none_later(times, times.last()),
    ensures
        crash_state(recorded(Seq::empty(), times, window).len(), threshold) == crash_state(
            live_count(times, times.last(), window),
            threshold,
        ),
{
    law_pruning_matches_whole_history(times, window);
}

/// Rolling-window crash counter: trips when more than `threshold` crashes
/// (default 3) occur within the window (default 60 s).
///
/// Crash timestamps are nanoseconds since the breaker was built.
pub struct CrashLoopBreaker {
    clock: MonoClock,
    events: EventWindow,
    history: Ghost<Seq<u64>>,
}

impl CrashLoopBreaker {
    /// 60 s rolling window, in nanoseconds.
    pub const DEFAULT_WINDOW_NANOS: u64 = 60000000000;
    /// More than 3 crashes per window trips.
    pub const DEFAULT_THRESHOLD: usize = 3;

    /// Window length in nanoseconds.
    pub closed spec fn window_nanos(&self) -> u64 {
        self.events.window
    }

    /// Trip threshold.
    pub closed spec fn threshold(&self) -> nat {
        self.events.threshold as nat
    }

    /// Timestamps of the crashes kept since the last pruning, oldest first.
    pub closed spec fn crashes(&self) -> Seq<u64> {
        self.events.events@
    }

    /// The breaker's clock at its latest reading, in nanoseconds since the
    /// breaker was built.
    pub closed spec fn now(&self) -> u64 {
        nanos_of(self.clock.reading())
    }

    /// Every crash instant recorded, in the order recorded.
    pub closed spec fn history(&self) -> Seq<u64> {
        self.history@
    }

    /// The crashes kept are what recording the whole history one crash at
    /// a time keeps.
    #[verifier::type_invariant]
    spec fn kept_from_history(self) -> bool {
        self.events.events@ == recorded(Seq::empty(), self.history@, self.events.window)
    }

    /// Construct a breaker with an explicit window and threshold.
    pub fn new(window_nanos: u64, threshold: usize) -> (b: Self)
        ensures
            b.window_nanos() == window_nanos,
            b.threshold() == threshold,
            b.crashes() == Seq::<u64>::empty(),
            b.history() == Seq::<u64>::empty(),
    {
        CrashLoopBreaker {
            clock: MonoClock::start(),
            events: EventWindow::new(window_nanos, threshold),
            history: Ghost(Seq::empty()),
        }
    }

    /// The configured window, in nanoseconds.
    pub fn window(&self) -> (w: u64)
        ensures
            w == self.window_nanos(),
    {
        self.events.window
    }

    /// The configured threshold.
    pub fn trip_threshold(&self) -> (t: usize)
        ensures
            t == self.threshold(),
    {
        self.events.threshold
    }

    /// Record a crash at `at`, the clock becoming `clock`.
    fn record_on(&mut self, clock: MonoClock, at: u64) -> (s: CrashLoopState)
        ensures
            final(self).now() == nanos_of(clock.reading()),
            final(self).window_nanos() == old(self).window_nanos(),
            final(self).threshold() == old(self).threshold(),
            final(self).crashes() == live_events(old(self).crashes().push(at), at, old(self).window_nanos()),
            s == crash_state(final(self).crashes().len(), old(self).threshold()),
            final(self).history() == old(self).history().push(at),
            none_later(old(self).history(), at) ==> s == crash_state(
                live_count(final(self).history(), at, old(self).window_nanos()),
                old(self).threshold(),
            ),
    {
        proof {
            use_type_invariant(&*self);
        }
        // The breaker is rebuilt whole, so that its window and its history
        // change together.
        let mut events = EventWindow {
            window: self.events.window,
            threshold: self.events.threshold,
            events: self.events.events.clone(),
        };
        assert(events.events@ =~= self.events.events@);
        let over = events.record_at(at);
        let ghost h = self.history@.push(at);
        proof {
            assert(h.drop_last() =~= self.history@);
            assert(h.last() == at);
            if none_later(self.history@, at) {
                assert forall|i: int| 0 <= i < h.len() implies #[trigger] h[i] <= at by {
                    if i < self.history@.len() {
                        assert(h[i] == self.history@[i]);
                    }
                }
                law_pruning_matches_whole_history(h, events.window);
            }
        }
        *self = CrashLoopBreaker { clock, events, history: Ghost(h) };
        if over {
            CrashLoopState::Tripped
        } else {
            CrashLoopState::Open
        }
    }

    /// Record a crash at nanosecond `at` (on the breaker's clock): the crash
    /// is added, every crash no longer inside the window ending at `at` is
    /// dropped, and the result is `Tripped` exactly when more than
    /// `threshold` crashes remain. When no crash was recorded later than
    /// `at`, that is exactly when more than `threshold` of all the crashes
    /// ever recorded lie inside the window ending at `at`.
    pub fn record_crash_at(&mut self, at: u64) -> (s: CrashLoopState)
        ensures
            final(self).now() == old(self).now(),
            final(self).window_nanos() == old(self).window_nanos(),
            final(self).threshold() == old(self).threshold(),
            final(self).crashes() == live_events(old(self).crashes().push(at), at, old(self).window_nanos()),
            s == crash_state(final(self).crashes().len(), old(self).threshold()),
            final(self).history() == old(self).history().push(at),
            none_later(old(self).history(), at) ==> s == crash_state(
                live_count(final(self).history(), at, old(self).window_nanos()),
                old(self).threshold(),
            ),
    {
        let clock = self.clock;
        self.record_on(clock, at)
    }

    /// Record a crash now and return the resulting state: the crash is
    /// recorded at the clock's reading, which never goes back, and every
    /// crash that reading leaves outside the window is dropped.
    pub fn record_crash(&mut self) -> (s: CrashLoopState)
        ensures
            final(self).window_nanos() == old(self).window_nanos(),
            final(self).threshold() == old(self).threshold(),
            final(self).now() >= old(self).now(),
            final(self).crashes() == live_events(
                old(self).crashes().push(final(self).now()),
                final(self).now(),
                old(self).window_nanos(),
            ),
            s == crash_state(final(self).crashes().len(), old(self).threshold()),
            final(self).history() == old(self).history().push(final(self).now()),
            none_later(old(self).history(), final(self).now()) ==> s == crash_state(
                live_count(final(self).history(), final(self).now(), old(self).window_nanos()),
                old(self).threshold(),
            ),
    {
        let mut clock = self.clock;
        let at = nanos_since(&mut clock);
        self.record_on(clock, at)
    }

    /// State at nanosecond `now` without recording a crash: counts the
    /// crashes still inside the window ending at `now`. Does not prune.
    pub fn state_at(&self, now: u64) -> (s: CrashLoopState)
        ensures
            s == crash_state(live_count(self.crashes(), now, self.window_nanos()), self.threshold()),
    {
        let live = self.events.live_count_at(now);
        if live > self.events.threshold {
            CrashLoopState::Tripped
        } else {
            CrashLoopState::Open
        }
    }

    /// Current state without recording a crash (a pre-spawn check).
    pub fn state(&self) -> (s: CrashLoopState)
        ensures
            exists|now: u64|
                now >= self.now() && s == crash_state(
                    live_count(self.crashes(), now, self.window_nanos()),
                    self.threshold(),
                ),
    {
        let mut clock = self.clock;
        let now = nanos_since(&mut clock);
        self.state_at(now)
    }
}

impl Default for CrashLoopBreaker {
    fn default() -> (b: Self)
        ensures
            b.window_nanos() == Self::DEFAULT_WINDOW_NANOS,
            b.threshold() == Self::DEFAULT_THRESHOLD,
            b.crashes() == Seq::<u64>::empty(),
            b.history() == Seq::<u64>::empty(),
    {
        Self::new(Self::DEFAULT_WINDOW_NANOS, Self::DEFAULT_THRESHOLD)
    }
}

} // verus!
