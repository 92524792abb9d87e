use std::time::Duration;

use clarion::plugin::breaker::{CrashLoopBreaker, CrashLoopState};

const SECOND: u64 = 1_000_000_000;

#[test]
fn breaker_01_zero_crashes_is_open() {
    let b = CrashLoopBreaker::default();
    assert_eq!(b.state(), CrashLoopState::Open, "fresh breaker must be Open");
}

#[test]
fn breaker_02_at_threshold_stays_open() {
    let mut b = CrashLoopBreaker::default();
    let t = 5 * SECOND;
    let mut state = CrashLoopState::Open;
    for _ in 0..3 {
        state = b.record_crash_at(t);
    }
    assert_eq!(
        state,
        CrashLoopState::Open,
        "3 crashes must not trip the breaker (threshold is >3)"
    );
}

#[test]
fn breaker_03_above_threshold_trips() {
    let mut b = CrashLoopBreaker::default();
    let t = 5 * SECOND;
    for _ in 0..3 {
        b.record_crash_at(t);
    }
    let state = b.record_crash_at(t);
    assert_eq!(state, CrashLoopState::Tripped, "4th crash must trip the breaker");
}

#[test]
fn breaker_04_old_crashes_pruned() {
    let mut b = CrashLoopBreaker::default();
    let t0 = 5 * SECOND;
    let t1 = t0 + 61 * SECOND; // outside the 60 s window

    for _ in 0..4 {
        b.record_crash_at(t0);
    }
    let state = b.record_crash_at(t1);
    assert_eq!(
        state,
        CrashLoopState::Open,
        "after pruning 4 old events, 1 within-window crash must leave breaker Open"
    );
}

#[test]
fn breaker_05_default_values() {
    assert_eq!(
        Duration::from_nanos(CrashLoopBreaker::DEFAULT_WINDOW_NANOS),
        Duration::from_secs(60),
        "DEFAULT_WINDOW must be 60 s"
    );
    assert_eq!(CrashLoopBreaker::DEFAULT_THRESHOLD, 3, "DEFAULT_THRESHOLD must be 3");
    let b = CrashLoopBreaker::default();
    assert_eq!(b.window(), CrashLoopBreaker::DEFAULT_WINDOW_NANOS);
    assert_eq!(b.trip_threshold(), CrashLoopBreaker::DEFAULT_THRESHOLD);
}

// ── Further cases ─────────────────────────────────────────────────────────────

#[test]
fn crash_exactly_one_window_old_is_pruned() {
    // A crash `window` nanoseconds old is no longer inside the window.
    let mut b = CrashLoopBreaker::new(10, 1);
    b.record_crash_at(0);
    assert_eq!(b.record_crash_at(10), CrashLoopState::Open);
    assert_eq!(b.record_crash_at(10), CrashLoopState::Tripped);
}

#[test]
fn crash_from_the_future_is_kept() {
    let mut b = CrashLoopBreaker::new(100, 1);
    b.record_crash_at(500);
    // The crash recorded at 500 lies after 200: it still counts.
    assert_eq!(b.record_crash_at(200), CrashLoopState::Tripped);
}

#[test]
fn state_at_counts_without_pruning() {
    let mut b = CrashLoopBreaker::new(60 * SECOND, 1);
    b.record_crash_at(SECOND);
    b.record_crash_at(2 * SECOND);
    assert_eq!(b.state_at(3 * SECOND), CrashLoopState::Tripped);
    assert_eq!(b.state_at(62 * SECOND), CrashLoopState::Open);
    // Still tripped at an earlier instant: nothing was pruned.
    assert_eq!(b.state_at(3 * SECOND), CrashLoopState::Tripped);
}

#[test]
fn record_crash_uses_the_clock() {
    let mut b = CrashLoopBreaker::default();
    for _ in 0..3 {
        assert_eq!(b.record_crash(), CrashLoopState::Open);
    }
    assert_eq!(b.record_crash(), CrashLoopState::Tripped);
    assert_eq!(b.state(), CrashLoopState::Tripped);
}

#[test]
fn breaker_06_mock_crash_loop_trips_breaker() {
    // Each cycle stands for a plugin that crashed after its handshake.
    let mut breaker = CrashLoopBreaker::default();
    let mut crashes_recorded = 0;
    for cycle in 1..=5 {
        if breaker.state() == CrashLoopState::Tripped {
            break;
        }
        let state = breaker.record_crash();
        crashes_recorded += 1;
        if cycle == 3 {
            assert_eq!(state, CrashLoopState::Open, "3 crashes must not trip the breaker");
        }
        if cycle == 4 {
            assert_eq!(state, CrashLoopState::Tripped, "4th crash must trip the breaker");
        }
    }
    assert_eq!(crashes_recorded, 4);
    assert_eq!(breaker.state(), CrashLoopState::Tripped);
}

#[test]
fn recording_in_time_order_judges_the_whole_history() {
    // Window 15 ns, threshold 2: at each record, the crashes inside the
    // window ending there decide; at 30 they are those at 20, 25 and 30.
    let mut b = CrashLoopBreaker::new(15, 2);
    let states: Vec<CrashLoopState> = [0u64, 10, 20, 25, 30].iter().map(|t| b.record_crash_at(*t)).collect();
    assert_eq!(
        states,
        vec![
            CrashLoopState::Open,
            CrashLoopState::Open,
            CrashLoopState::Open,
            CrashLoopState::Open,
            CrashLoopState::Tripped
        ]
    );
    assert_eq!(b.state_at(30), CrashLoopState::Tripped);
}
