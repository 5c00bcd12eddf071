use dyrics::discord::RateLimiter;
use dyrics::latency::{
    blend_ms, clamp_sample, LatencyEstimator, LATENCY_SMOOTHING_PERCENT, MAX_LATENCY_MS,
    MIN_LATENCY_MS,
};

const MS: u128 = 1_000_000;
const MIN_NS: u128 = 10 * MS;
const MAX_NS: u128 = 2000 * MS;

#[test]
fn first_sample_replaces_the_estimate() {
    let mut estimator = LatencyEstimator::new();
    assert_eq!(estimator.estimate(), 0);
    estimator.update_latency(240 * MS);
    assert_eq!(estimator.estimate(), 120 * MS);
}

#[test]
fn second_sample_is_blended_in() {
    let mut estimator = LatencyEstimator::new();
    estimator.update_latency(240 * MS);
    estimator.update_latency(40 * MS);
    // 0.2 * 20 + 0.8 * 120 = 100
    assert_eq!(estimator.estimate(), 100 * MS);
}

#[test]
fn first_sample_keeps_its_nanoseconds() {
    let mut estimator = LatencyEstimator::new();
    estimator.update_latency(241 * MS + 3);
    assert_eq!(estimator.estimate(), 120 * MS + 500_001);
}

#[test]
fn blending_works_in_whole_milliseconds() {
    let mut estimator = LatencyEstimator::new();
    estimator.update_latency(241 * MS + 3);
    // previous 120.500001 ms counts as 120, the sample 50.9 ms as 50:
    // (20 * 50 + 80 * 120) / 100 = 106
    estimator.update_latency(101 * MS + 800_000);
    assert_eq!(estimator.estimate(), 106 * MS);
}

#[test]
fn blending_rounds_down() {
    let mut estimator = LatencyEstimator::new();
    estimator.update_latency(20 * MS);
    assert_eq!(estimator.estimate(), 10 * MS);
    // (20 * 13 + 80 * 10) / 100 = 10.6
    estimator.update_latency(26 * MS);
    assert_eq!(estimator.estimate(), 10 * MS);
}

#[test]
fn samples_are_clamped() {
    let clamp = |round_trip: u128| clamp_sample(round_trip, MIN_LATENCY_MS, MAX_LATENCY_MS);
    assert_eq!(clamp(0), MIN_NS);
    assert_eq!(clamp(19 * MS + 999_999), MIN_NS);
    assert_eq!(clamp(20 * MS), 10 * MS);
    assert_eq!(clamp(20 * MS + 2), 10 * MS + 1);
    assert_eq!(clamp(4000 * MS), 2000 * MS);
    assert_eq!(clamp(4000 * MS + 2), MAX_NS);
    assert_eq!(clamp(u128::MAX), MAX_NS);
    assert_eq!(clamp_sample(100 * MS, 70, 80), 70 * MS);
    assert_eq!(clamp_sample(150 * MS, 70, 80), 75 * MS);
    assert_eq!(clamp_sample(170 * MS, 70, 80), 80 * MS);
    assert_eq!(clamp_sample(u128::MAX, 0, u64::MAX), (u64::MAX as u128) * MS);
}

#[test]
fn a_slow_first_call_is_clamped_from_above() {
    let mut estimator = LatencyEstimator::new();
    estimator.update_latency(60_000 * MS);
    assert_eq!(estimator.estimate(), 2000 * MS);
}

#[test]
fn a_fast_first_call_is_clamped_from_below() {
    let mut estimator = LatencyEstimator::new();
    estimator.update_latency(1);
    assert_eq!(estimator.estimate(), 10 * MS);
}

#[test]
fn reset_forgets_the_estimate() {
    let mut estimator = LatencyEstimator::new();
    estimator.update_latency(240 * MS);
    estimator.reset();
    assert_eq!(estimator.estimate(), 0);
    // The next sample replaces the estimate again.
    estimator.update_latency(40 * MS);
    assert_eq!(estimator.estimate(), 20 * MS);
}

#[test]
fn smoothing_is_one_fifth() {
    assert_eq!(LATENCY_SMOOTHING_PERCENT, 20);
    assert_eq!(blend_ms(120, 20, 20), 100);
    assert_eq!(blend_ms(100, 100, 20), 100);
    assert_eq!(blend_ms(10, 2000, 20), 408);
    assert_eq!(blend_ms(2000, 10, 20), 1602);
}

#[test]
fn another_weight_is_honoured() {
    assert_eq!(blend_ms(120, 20, 0), 120);
    assert_eq!(blend_ms(120, 20, 100), 20);
    assert_eq!(blend_ms(120, 20, 50), 70);
    assert_eq!(blend_ms(u64::MAX, u64::MAX, 37), u64::MAX);
    let mut estimator = LatencyEstimator::with_clamp(1, 500, 50);
    estimator.update_latency(2000 * MS);
    assert_eq!(estimator.estimate(), 500 * MS);
    estimator.update_latency(200 * MS);
    assert_eq!(estimator.estimate(), 300 * MS);
    estimator.update_latency(1);
    assert_eq!(estimator.estimate(), 150 * MS);
}

#[test]
fn blend_agrees_with_the_weighted_sum_in_floating_point() {
    let smoothing: f64 = 0.2;
    for previous in MIN_LATENCY_MS..=MAX_LATENCY_MS {
        for sample in MIN_LATENCY_MS..=MAX_LATENCY_MS {
            let averaged = smoothing * (sample as f64) + (1.0 - smoothing) * (previous as f64);
            assert_eq!(blend_ms(previous, sample, LATENCY_SMOOTHING_PERCENT), averaged as u64);
        }
    }
}

#[test]
fn the_estimate_stays_within_the_clamp() {
    let mut estimator = LatencyEstimator::new();
    let round_trips = [1u128, 5_000 * MS, 3 * MS, 90_000 * MS, 250 * MS, 0, u128::MAX];
    for round_trip in round_trips {
        estimator.update_latency(round_trip);
        assert!(estimator.estimate() >= MIN_NS);
        assert!(estimator.estimate() <= MAX_NS);
    }
}

#[test]
fn the_limiter_reports_the_latency_of_its_deliveries() {
    let mut limiter = RateLimiter::new();
    assert_eq!(limiter.latency(), 0);
    limiter.record_delivery("la", 240 * MS, 1_000 * MS);
    assert_eq!(limiter.latency(), 120 * MS);
    limiter.record_clear(40 * MS, 2_000 * MS);
    assert_eq!(limiter.latency(), 100 * MS);
}
