use clarion::cli::stats::P95Accumulator;

#[test]
fn p95_accumulator_uses_deterministic_nearest_rank() {
    let mut accumulator = P95Accumulator::default();
    accumulator.record_many((10..=1000).step_by(10).collect());

    assert_eq!(accumulator.p95_ms(), 950);
}

#[test]
fn p95_of_no_samples_is_zero() {
    assert_eq!(P95Accumulator::new().p95_ms(), 0);
}

#[test]
fn p95_of_one_sample_is_that_sample() {
    let mut a = P95Accumulator::new();
    a.record_many(vec![42]);
    assert_eq!(a.p95_ms(), 42);
}

#[test]
fn p95_ignores_recording_order() {
    let mut a = P95Accumulator::new();
    a.record_many(vec![5, 1, 4]);
    a.record_many(vec![2, 3]);
    // five samples: rank ceil(4.75) = 5 → the largest
    assert_eq!(a.p95_ms(), 5);
}

#[test]
fn p95_of_twenty_samples_is_the_nineteenth() {
    let mut a = P95Accumulator::new();
    a.record_many((1..=20).rev().collect());
    assert_eq!(a.p95_ms(), 19);
}
