use clarion::plugin::limits::{
    address_space_limit_bytes, apply_prlimit_as, effective_rss_mib, BreakerState, CapExceeded, ContentLengthCeiling,
    EntityCountCap, PathEscapeBreaker, DEFAULT_MAX_RSS_MIB,
};

const SECOND: u64 = 1_000_000_000;

#[test]
fn ceiling_default_is_8_mib() {
    assert_eq!(
        ContentLengthCeiling::default().get(),
        8 * 1024 * 1024,
        "DEFAULT must be 8 MiB"
    );
    assert_eq!(ContentLengthCeiling::DEFAULT_BYTES, 8 * 1024 * 1024);
}

#[test]
fn ceiling_new_get_round_trip() {
    let c = ContentLengthCeiling::new(12345);
    assert_eq!(c.get(), 12345);
}

#[test]
fn ceiling_default_impl_matches_constant() {
    assert_eq!(
        ContentLengthCeiling::default().get(),
        ContentLengthCeiling::DEFAULT_BYTES
    );
}

#[test]
fn ceiling_unbounded_is_usize_max() {
    assert_eq!(ContentLengthCeiling::unbounded().get(), usize::MAX);
}

#[test]
fn cap_admit_under_limit_returns_ok() {
    let mut cap = EntityCountCap::new(100);
    assert!(cap.try_admit(50).is_ok());
    assert_eq!(cap.consumed(), 50);
}

#[test]
fn cap_admit_at_exact_boundary_returns_ok() {
    let mut cap = EntityCountCap::new(100);
    assert!(cap.try_admit(100).is_ok());
    assert_eq!(cap.consumed(), 100);
}

#[test]
fn cap_admit_over_boundary_returns_cap_exceeded() {
    let mut cap = EntityCountCap::new(100);
    let err = cap.try_admit(101).expect_err("should exceed cap");
    assert_eq!(err.cap, 100);
    assert_eq!(err.would_reach, 101);
    assert_eq!(cap.consumed(), 0, "failed admit must not modify consumed");
}

#[test]
fn cap_cumulative_admits_accumulate() {
    let mut cap = EntityCountCap::new(500_000);
    for _ in 0..9 {
        cap.try_admit(50_000).expect("under cap");
    }
    assert_eq!(cap.consumed(), 450_000);
    cap.try_admit(50_000).expect("at exact boundary");
    assert_eq!(cap.consumed(), 500_000);
    let err = cap.try_admit(1).expect_err("must exceed");
    assert_eq!(err.cap, 500_000);
}

#[test]
fn breaker_ten_escapes_returns_open() {
    let mut b = PathEscapeBreaker::new_default();
    let t = 7 * SECOND;
    let mut state = BreakerState::Open;
    for _ in 0..10 {
        state = b.record_escape_at(t);
    }
    assert_eq!(
        state,
        BreakerState::Open,
        "10 escapes must not trip the breaker (threshold is >10)"
    );
}

#[test]
fn breaker_eleventh_escape_returns_tripped() {
    let mut b = PathEscapeBreaker::new_default();
    let t = 7 * SECOND;
    for _ in 0..10 {
        b.record_escape_at(t);
    }
    let state = b.record_escape_at(t);
    assert_eq!(state, BreakerState::Tripped, "11th escape must trip the breaker");
}

#[test]
fn breaker_old_events_pruned_outside_window() {
    let mut b = PathEscapeBreaker::new_default();
    let t0 = 7 * SECOND;
    let t1 = t0 + 61 * SECOND; // outside 60s window

    for _ in 0..10 {
        b.record_escape_at(t0);
    }
    let state = b.record_escape_at(t1);
    assert_eq!(
        state,
        BreakerState::Open,
        "after pruning 10 old events, 1 within-window event must leave breaker Open"
    );
    let state2 = b.record_escape_at(t1);
    assert_eq!(state2, BreakerState::Open, "2 events in window must be Open");
}

#[test]
fn effective_rss_mib_manifest_wins_when_smaller() {
    assert_eq!(effective_rss_mib(256, 2048), 256);
}

#[test]
fn effective_rss_mib_core_ceiling_wins_when_larger() {
    assert_eq!(effective_rss_mib(4096, 2048), 2048);
}

#[test]
fn effective_rss_mib_zero_manifest_uses_core_default() {
    assert_eq!(effective_rss_mib(0, 2048), 2048);
}

#[test]
fn apply_prlimit_linux_returns_ok() {
    let result = apply_prlimit_as(DEFAULT_MAX_RSS_MIB);
    assert!(result.is_ok(), "apply_prlimit_as must succeed: {result:?}");
}

#[test]
fn apply_prlimit_non_linux_stub_returns_ok() {
    let result = apply_prlimit_as(DEFAULT_MAX_RSS_MIB);
    assert!(result.is_ok());
}

// ── Further cases ─────────────────────────────────────────────────────────────

#[test]
fn cap_saturates_instead_of_overflowing() {
    let mut cap = EntityCountCap::new(10);
    cap.try_admit(5).unwrap();
    let err = cap.try_admit(usize::MAX).expect_err("must exceed");
    assert_eq!(err, CapExceeded { would_reach: usize::MAX, cap: 10 });
    assert_eq!(cap.consumed(), 5);
}

#[test]
fn cap_exceeded_message() {
    let e = CapExceeded { would_reach: 101, cap: 100 };
    assert_eq!(e.message(), "entity cap exceeded: 101 items would be reached (cap 100)");
}

#[test]
fn effective_rss_mib_equal_values() {
    assert_eq!(effective_rss_mib(2048, 2048), 2048);
}

#[test]
fn path_breaker_with_explicit_threshold() {
    let mut b = PathEscapeBreaker::new(SECOND, 0);
    assert_eq!(b.record_escape_at(0), BreakerState::Tripped);
}

#[test]
fn path_breaker_record_escape_uses_the_clock() {
    let mut b = PathEscapeBreaker::new_default();
    for _ in 0..10 {
        assert_eq!(b.record_escape(), BreakerState::Open);
    }
    assert_eq!(b.record_escape(), BreakerState::Tripped);
}

#[test]
fn address_space_limit_is_mib_in_bytes_saturated() {
    assert_eq!(address_space_limit_bytes(2048), 2048 * 1024 * 1024);
    assert_eq!(address_space_limit_bytes(0), 0);
    assert_eq!(address_space_limit_bytes(u64::MAX / 1048576), (u64::MAX / 1048576) * 1048576);
    assert_eq!(address_space_limit_bytes(u64::MAX / 1048576 + 1), u64::MAX);
}

#[test]
fn cap_never_exceeded_over_a_run_of_offers() {
    let mut cap = EntityCountCap::new(10);
    let mut last = 0;
    for delta in [3usize, 4, 5, 2, 1, usize::MAX, 0, 1] {
        let _ = cap.try_admit(delta);
        assert!(cap.consumed() <= 10);
        assert!(cap.consumed() >= last);
        last = cap.consumed();
    }
    assert_eq!(cap.consumed(), 10);
}
