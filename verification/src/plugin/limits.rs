//! Core-enforced resource limits for the plugin host.
//!
//! Ceilings and circuit-breakers that plugins cannot opt out of:
//!
//! | Minimum                   | Type                     |
//! |---------------------------|--------------------------|
//! | Path-escape breaker       | [`PathEscapeBreaker`]    |
//! | Content-Length ceiling    | [`ContentLengthCeiling`] |
//! | Entity/edge/finding cap   | [`EntityCountCap`]       |
//! | Virtual-address limit     | [`apply_prlimit_as`]     |


use vstd::prelude::*;

use crate::plugin::clock::{nanos_of, nanos_since, MonoClock};
use crate::plugin::window::{law_pruning_keeps_only_live_events, live_events, EventWindow};

verus! {

// ── Finding subcodes ──────────────────────────────────────────────────────────

/// Finding subcode emitted when a plugin returns a path that escapes the jail.
pub const FINDING_PATH_ESCAPE: &'static str = "CLA-INFRA-PLUGIN-PATH-ESCAPE";

/// Finding subcode emitted when the path-escape breaker trips and the plugin
/// is killed.
pub const FINDING_DISABLED_PATH_ESCAPE: &'static str = "CLA-INFRA-PLUGIN-DISABLED-PATH-ESCAPE";

/// Finding subcode emitted when a frame's `Content-Length` exceeds the ceiling.
pub const FINDING_FRAME_OVERSIZE: &'static str = "CLA-INFRA-PLUGIN-FRAME-OVERSIZE";

/// Finding subcode emitted when the entity cap would be exceeded.
pub const FINDING_ENTITY_CAP: &'static str = "CLA-INFRA-PLUGIN-ENTITY-CAP";

/// Finding subcode emitted when the plugin process is killed by the OS for
/// exceeding its `RLIMIT_AS` ceiling.
pub const FINDING_OOM_KILLED: &'static str = "CLA-INFRA-PLUGIN-OOM-KILLED";

// ── ContentLengthCeiling ─────────────────────────────────────────────────────

/// Maximum permitted `Content-Length` value on an incoming plugin frame
/// (default 8 MiB).
#[derive(Debug, Clone, Copy, PartialEq, Eq)]
pub struct ContentLengthCeiling(usize);

impl ContentLengthCeiling {
    /// Default ceiling in bytes: 8 MiB.
    pub const DEFAULT_BYTES: usize = 8388608;

    /// The ceiling in bytes.
    pub closed spec fn bytes(self) -> nat {
        self.0 as nat
    }

    /// Construct a ceiling with an explicit byte limit.
    pub fn new(bytes: usize) -> (c: Self)
        ensures
            c.bytes() == bytes,
    {
        ContentLengthCeiling(bytes)
    }

    /// A ceiling that never fires: `usize::MAX` bytes. Meant for tests that
    /// do not exercise the frame-size limit.
    pub fn unbounded() -> (c: Self)
        ensures
            c.bytes() == usize::MAX,
    {
        ContentLengthCeiling(usize::MAX)
    }

    /// The ceiling value in bytes.
    pub fn get(self) -> (n: usize)
        ensures
            n == self.bytes(),
    {
        self.0
    }
}

impl Default for ContentLengthCeiling {
    fn default() -> (c: Self)
        ensures
            c.bytes() == Self::DEFAULT_BYTES,
    {
        ContentLengthCeiling(Self::DEFAULT_BYTES)
    }
}

// ── EntityCountCap ───────────────────────────────────────────────────────────

/// Error returned by [`EntityCountCap::try_admit`] when the run-wide limit
/// would be exceeded.
#[derive(Debug, PartialEq, Eq)]
pub struct CapExceeded {
    /// The cumulative count that would have been reached.
    pub would_reach: usize,
    /// The configured cap.
    pub cap: usize,
}

impl CapExceeded {
    /// Human-readable description of the error.
    pub fn message(&self) -> (s: String)
        ensures
            s@ == seq_str("entity cap exceeded: ")
                + crate::text::decimal(self.would_reach as nat)
                + seq_str(" items would be reached (cap ")
                + crate::text::decimal(self.cap as nat)
                + seq_str(")"),
    {
        let mut s = String::from_str("entity cap exceeded: ");
        s.append(crate::text::usize_to_string(self.would_reach).as_str());
        s.append(" items would be reached (cap ");
        s.append(crate::text::usize_to_string(self.cap).as_str());
        s.append(")");
        proof {
            reveal_strlit("entity cap exceeded: ");
            reveal_strlit(" items would be reached (cap ");
            reveal_strlit(")");
        }
        s
    }
}

/// The characters of a string literal, for specifications.
pub open spec fn seq_str(s: &str) -> Seq<char> {
    s@
}

/// `a + b`, saturated to `usize::MAX`.
pub open spec fn saturated_total(a: nat, b: nat) -> nat {
    if a + b > usize::MAX {
        usize::MAX as nat
    } else {
        a + b
    }
}

/// The count after offering each of `deltas` in turn to a cap of `max`
/// that had admitted `consumed`: an offer is admitted when the new total
/// stays within `max`, and refused (changing nothing) otherwise.
pub open spec fn consumed_after(consumed: nat, max: nat, deltas: Seq<usize>) -> nat
    decreases deltas.len(),
{
    if deltas.len() == 0 {
        consumed
    } else {
        let before = consumed_after(consumed, max, deltas.drop_last());
        let total = saturated_total(before, deltas.last() as nat);
        if total <= max {
            total
        } else {
            before
        }
    }
}

/// Law: whatever is offered to the cap, in whatever order, the count it
/// admits never exceeds its maximum, and never goes down.
pub proof fn law_cap_never_exceeded(consumed: nat, max: nat, deltas: Seq<usize>)
    requires
        consumed <= max <= usize::MAX,
    ensures
        consumed <= consumed_after(consumed, max, deltas) <= max,
    decreases deltas.len(),
{
    if deltas.len() > 0 {
        law_cap_never_exceeded(consumed, max, deltas.drop_last());
    }
}

/// Cumulative counter guarding the run-wide entity + edge + finding cap
/// (default 500,000 items).
pub struct EntityCountCap {
    max: usize,
    consumed: usize,
    offers: Ghost<Seq<usize>>,
}

impl EntityCountCap {
    /// Default cap: 500,000 items.
    pub const DEFAULT_MAX: usize = 500000;

    /// The configured maximum.
    pub closed spec fn max_items(&self) -> nat {
        self.max as nat
    }

    /// The number of items admitted so far.
    pub closed spec fn consumed_items(&self) -> nat {
        self.consumed as nat
    }

    /// Every count offered to [`Self::try_admit`], admitted or not, in order.
    pub closed spec fn offers(&self) -> Seq<usize> {
        self.offers@
    }

    /// The count is what offering every past offer in turn to an empty cap
    /// admits.
    #[verifier::type_invariant]
    spec fn counts_offers(self) -> bool {
        self.consumed as nat == consumed_after(0, self.max as nat, self.offers@)
    }

    /// The maximum and the count are machine integers.
    pub proof fn lemma_bounds(&self)
        ensures
            self.max_items() <= usize::MAX,
            self.consumed_items() <= usize::MAX,
    {
    }

    /// Construct a cap with the given maximum and nothing admitted.
    pub fn new(max: usize) -> (cap: Self)
        ensures
            cap.max_items() == max,
            cap.consumed_items() == 0,
            cap.offers() == Seq::<usize>::empty(),
    {
        EntityCountCap { max, consumed: 0, offers: Ghost(Seq::empty()) }
    }

    /// Attempt to admit `delta` more items.
    ///
    /// The candidate total is `consumed + delta`, saturated to `usize::MAX`.
    /// It is admitted exactly when it does not exceed `max` (reaching the cap
    /// is allowed, exceeding it is not). A refused admit leaves the counter
    /// unchanged and reports the candidate total and the cap. Over any
    /// history of offers from [`Self::new`], the count is the saturating
    /// sum of the admitted offers, and never exceeds the maximum.
    pub fn try_admit(&mut self, delta: usize) -> (r: Result<(), CapExceeded>)
        ensures
            final(self).max_items() == old(self).max_items(),
            final(self).offers() == old(self).offers().push(delta),
            final(self).consumed_items() == consumed_after(0, final(self).max_items(), final(self).offers()),
            final(self).consumed_items() <= final(self).max_items(),
            saturated_total(old(self).consumed_items(), delta as nat) <= old(self).max_items() ==> {
                &&& r is Ok
                &&& final(self).consumed_items() == saturated_total(old(self).consumed_items(), delta as nat)
            },
            saturated_total(old(self).consumed_items(), delta as nat) > old(self).max_items() ==> {
                &&& r == Err::<(), CapExceeded>(CapExceeded {
                    would_reach: saturated_total(old(self).consumed_items(), delta as nat) as usize,
                    cap: old(self).max_items() as usize,
                })
                &&& final(self).consumed_items() == old(self).consumed_items()
            },
    {
        proof {
            use_type_invariant(&*self);
            law_cap_never_exceeded(0, self.max as nat, self.offers@);
        }
        let next = self.consumed.saturating_add(delta);
        let ghost offers = self.offers@.push(delta);
        proof {
            assert(offers.drop_last() =~= self.offers@);
            law_cap_never_exceeded(0, self.max as nat, offers);
        }
        if next > self.max {
            let e = CapExceeded { would_reach: next, cap: self.max };
            *self = EntityCountCap { max: self.max, consumed: self.consumed, offers: Ghost(offers) };
            return Err(e);
        }
        *self = EntityCountCap { max: self.max, consumed: next, offers: Ghost(offers) };
        Ok(())
    }

    /// Current cumulative count of admitted items.
    pub fn consumed(&self) -> (n: usize)
        ensures
            n == self.consumed_items(),
    {
        self.consumed
    }
}

// ── PathEscapeBreaker ────────────────────────────────────────────────────────

/// State returned by [`PathEscapeBreaker::record_escape`].
#[derive(Debug, Clone, Copy, PartialEq, Eq)]
#[non_exhaustive]
pub enum BreakerState {
    /// Within the escape threshold: drop the entity, keep the plugin.
    Open,
    /// Threshold exceeded: kill the plugin.
    Tripped,
}

/// Rolling-window escape counter: trips when more than `threshold` path
/// escapes (default 10) occur within the window (default 60 s).
///
/// Event timestamps are nanoseconds since the breaker was built.
pub struct PathEscapeBreaker {
    clock: MonoClock,
    events: EventWindow,
}

impl PathEscapeBreaker {
    /// Default window: 60 seconds, in nanoseconds.
    pub const DEFAULT_WINDOW_NANOS: u64 = 60000000000;
    /// Default threshold: trips on the 11th escape within the window.
    pub const DEFAULT_THRESHOLD: usize = 10;

    /// Window length in nanoseconds.
    pub closed spec fn window_nanos(&self) -> u64 {
        self.events.window
    }

    /// Trip threshold.
    pub closed spec fn threshold(&self) -> nat {
        self.events.threshold as nat
    }

    /// Timestamps of the escapes kept since the last pruning, oldest first.
    pub closed spec fn escapes(&self) -> Seq<u64> {
        self.events.events@
    }

    /// The breaker's clock at its latest reading, in nanoseconds since the
    /// breaker was built.
    pub closed spec fn now(&self) -> u64 {
        nanos_of(self.clock.reading())
    }

    /// Construct a breaker with an explicit window and threshold.
    pub fn new(window_nanos: u64, threshold: usize) -> (b: Self)
        ensures
            b.window_nanos() == window_nanos,
            b.threshold() == threshold,
            b.escapes() == Seq::<u64>::empty(),
    {
        PathEscapeBreaker { clock: MonoClock::start(), events: EventWindow::new(window_nanos, threshold) }
    }

    /// Construct a breaker with the defaults (60 s window, threshold 10).
    pub fn new_default() -> (b: Self)
        ensures
            b.window_nanos() == Self::DEFAULT_WINDOW_NANOS,
            b.threshold() == Self::DEFAULT_THRESHOLD,
            b.escapes() == Seq::<u64>::empty(),
    {
        Self::new(Self::DEFAULT_WINDOW_NANOS, Self::DEFAULT_THRESHOLD)
    }

    /// Record an escape at nanosecond `at` (on the breaker's clock): the
    /// event is added, every escape no longer inside the window ending at
    /// `at` is dropped, and the breaker is `Tripped` exactly when more than
    /// `threshold` escapes remain.
    pub fn record_escape_at(&mut self, at: u64) -> (s: BreakerState)
        ensures
            final(self).now() == old(self).now(),
            final(self).window_nanos() == old(self).window_nanos(),
            final(self).threshold() == old(self).threshold(),
            final(self).escapes() == live_events(old(self).escapes().push(at), at, old(self).window_nanos()),
            s == (if final(self).escapes().len() > old(self).threshold() {
                BreakerState::Tripped
            } else {
                BreakerState::Open
            }),
    {
        if self.events.record_at(at) {
            BreakerState::Tripped
        } else {
            BreakerState::Open
        }
    }

    /// Record an escape now and return the new breaker state: the escape
    /// is recorded at the clock's reading, which never goes back, and every
    /// escape that reading leaves outside the window is dropped.
    pub fn record_escape(&mut self) -> (s: BreakerState)
        ensures
            final(self).window_nanos() == old(self).window_nanos(),
            final(self).threshold() == old(self).threshold(),
            final(self).now() >= old(self).now(),
            final(self).escapes() == live_events(
                old(self).escapes().push(final(self).now()),
                final(self).now(),
                old(self).window_nanos(),
            ),
            s == (if final(self).escapes().len() > old(self).threshold() {
                BreakerState::Tripped
            } else {
                BreakerState::Open
            }),
    {
        let at = nanos_since(&mut self.clock);
        self.record_escape_at(at)
    }
}

/// Law: when a breaker records an event at its clock's reading `now`
/// (what [`PathEscapeBreaker::record_escape`] does), no event from a full
/// window or more before `now` is kept, however many were kept before.
pub proof fn law_events_outside_the_window_are_dropped(kept: Seq<u64>, now: u64, window: u64, t: u64)
    requires
        t <= now,
        now - t >= window,
    ensures
        !live_events(kept.push(now), now, window).contains(t),
{
    law_pruning_keeps_only_live_events(kept.push(now), now, window);
}

// ── Address-space ceiling ────────────────────────────────────────────────────

/// Default virtual-address space ceiling: 2 GiB, in MiB.
pub const DEFAULT_MAX_RSS_MIB: u64 = 2048;

/// Effective memory ceiling: the smaller of the manifest value and the core
/// default, where a manifest value of 0 means "unset" and the default wins.
pub fn effective_rss_mib(manifest_value: u64, core_default: u64) -> (r: u64)
    ensures
        r == (if manifest_value == 0 {
            core_default
        } else if manifest_value < core_default {
            manifest_value
        } else {
            core_default
        }),
{
    if manifest_value == 0 {
        return core_default;
    }
    if manifest_value < core_default {
        manifest_value
    } else {
        core_default
    }
}

/// Bytes of address space for a ceiling of `mib` MiB, saturated to `u64::MAX`.
pub open spec fn address_space_bytes(mib: u64) -> u64 {
    if mib * 1048576 > u64::MAX {
        u64::MAX
    } else {
        (mib * 1048576) as u64
    }
}

/// Wraps `nix::sys::resource::setrlimit(RLIMIT_AS, bytes, bytes)`: sets both
/// the soft and the hard address-space limit of the calling process to
/// `bytes`. Whether the kernel accepts the limit is not stated.
#[verifier::external_body]
fn set_address_space_limit(bytes: u64) -> Result<(), std::io::Error> {
    nix::sys::resource::setrlimit(nix::sys::resource::Resource::RLIMIT_AS, bytes, bytes).map_err(
        std::io::Error::from,
    )
}

/// The `RLIMIT_AS` value, in bytes, for a ceiling of `max_rss_mib` MiB:
/// the product, saturated to `u64::MAX`.
pub fn address_space_limit_bytes(max_rss_mib: u64) -> (b: u64)
    ensures
        b == address_space_bytes(max_rss_mib),
{
    match max_rss_mib.checked_mul(1048576) {
        Some(b) => b,
        None => u64::MAX,
    }
}

/// Apply an `RLIMIT_AS` ceiling of `max_rss_mib` MiB (soft and hard) to the
/// current process: the limit set is
/// [`address_space_limit_bytes`]`(max_rss_mib)`. Meant to run in the plugin
/// child between `fork` and `exec`. Whether the kernel accepts the limit is
/// the kernel's decision.
pub fn apply_prlimit_as(max_rss_mib: u64) -> (r: Result<(), std::io::Error>) {
    let bytes = address_space_limit_bytes(max_rss_mib);
    set_address_space_limit(bytes)
}

} // verus!
