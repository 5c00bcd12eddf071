//! Smoothed estimate of the one-way latency of outbound status updates.
//!
//! Every time in this module is a number of nanoseconds, unless its name ends
//! in `_ms`.

use vstd::prelude::*;

verus! {

/// Nanoseconds in one millisecond.
pub const NANOS_PER_MILLI: u128 = 1_000_000;

/// Minimum latency clamp (ms), unless another is chosen.
pub const MIN_LATENCY_MS: u64 = 10;

/// Maximum latency clamp (ms), unless another is chosen.
pub const MAX_LATENCY_MS: u64 = 2000;

/// Weight of a new sample in the moving average, in percent, unless another
/// is chosen: the rest is the weight of the estimate so far.
pub const LATENCY_SMOOTHING_PERCENT: u8 = 20;

/// The one-way latency sample taken from a round trip: half of it, held
/// within the clamp from `min_ms` to `max_ms` milliseconds.
pub open spec fn clamped_sample(round_trip: int, min_ms: int, max_ms: int) -> int {
    let raw = round_trip / 2;
    if raw < min_ms * NANOS_PER_MILLI {
        min_ms * NANOS_PER_MILLI
    } else if raw > max_ms * NANOS_PER_MILLI {
        max_ms * NANOS_PER_MILLI
    } else {
        raw
    }
}

/// The moving average of an estimate and a sample, both in whole milliseconds
/// and rounded down to a whole millisecond. The sample weighs
/// `smoothing_percent` in a hundred.
pub open spec fn blended_ms(previous_ms: int, sample_ms: int, smoothing_percent: int) -> int {
    (smoothing_percent * sample_ms + (100 - smoothing_percent) * previous_ms) / 100
}

/// What a [`LatencyEstimator`] stands for.
pub struct EstimatorView {
    /// The estimate; zero as long as nothing was measured.
    pub estimate: nat,
    /// Lower clamp of a sample, in milliseconds.
    pub min_ms: nat,
    /// Upper clamp of a sample, in milliseconds.
    pub max_ms: nat,
    /// Weight of a new sample, in percent.
    pub smoothing_percent: nat,
}

impl EstimatorView {
    /// The clamp is in order, the weight is no more than a hundred percent,
    /// and the estimate is zero or lies within the clamp.
    pub open spec fn well_formed(self) -> bool {
        &&& self.min_ms <= self.max_ms
        &&& self.smoothing_percent <= 100
        &&& (self.estimate == 0 || self.min_ms * NANOS_PER_MILLI <= self.estimate <= self.max_ms
            * NANOS_PER_MILLI)
    }

    /// The sample that a round trip gives.
    pub open spec fn sample(self, round_trip: int) -> int {
        clamped_sample(round_trip, self.min_ms as int, self.max_ms as int)
    }

    /// The estimate after a round trip was measured. The first sample
    /// replaces an estimate of zero; each later one is blended in, in whole
    /// milliseconds.
    pub open spec fn next_estimate(self, round_trip: int) -> int {
        if self.estimate == 0 {
            self.sample(round_trip)
        } else {
            blended_ms(
                self.estimate as int / (NANOS_PER_MILLI as int),
                self.sample(round_trip) / (NANOS_PER_MILLI as int),
                self.smoothing_percent as int,
            ) * NANOS_PER_MILLI
        }
    }

    /// After a round trip was measured.
    pub open spec fn updated(self, round_trip: int) -> EstimatorView {
        EstimatorView { estimate: self.next_estimate(round_trip) as nat, ..self }
    }

    /// After the estimate was dropped.
    pub open spec fn reset(self) -> EstimatorView {
        EstimatorView { estimate: 0, ..self }
    }
}

/// A sample lies within the clamp, whatever the round trip.
pub proof fn lemma_sample_clamped(round_trip: int, min_ms: int, max_ms: int)
    requires
        min_ms <= max_ms,
    ensures
        min_ms * NANOS_PER_MILLI <= clamped_sample(round_trip, min_ms, max_ms) <= max_ms
            * NANOS_PER_MILLI,
{
}

/// The moving average lies between the estimate so far and the sample.
pub proof fn lemma_blended_between(previous_ms: int, sample_ms: int, smoothing_percent: int)
    requires
        0 <= smoothing_percent <= 100,
    ensures
        previous_ms <= sample_ms ==> previous_ms <= blended_ms(
            previous_ms,
            sample_ms,
            smoothing_percent,
        ) <= sample_ms,
        sample_ms <= previous_ms ==> sample_ms <= blended_ms(
            previous_ms,
            sample_ms,
            smoothing_percent,
        ) <= previous_ms,
{
    let kept = 100 - smoothing_percent;
    let sum = smoothing_percent * sample_ms + kept * previous_ms;
    if previous_ms <= sample_ms {
        assert(100 * previous_ms <= sum <= 100 * sample_ms) by (nonlinear_arith)
            requires
                0 <= smoothing_percent <= 100,
                kept == 100 - smoothing_percent,
                sum == smoothing_percent * sample_ms + kept * previous_ms,
                previous_ms <= sample_ms,
        ;
    }
    if sample_ms <= previous_ms {
        assert(100 * sample_ms <= sum <= 100 * previous_ms) by (nonlinear_arith)
            requires
                0 <= smoothing_percent <= 100,
                kept == 100 - smoothing_percent,
                sum == smoothing_percent * sample_ms + kept * previous_ms,
                sample_ms <= previous_ms,
        ;
    }
}

/// An estimator stays well formed, and its estimate lies within the clamp
/// once a round trip was measured.
pub proof fn lemma_estimate_stays_clamped(estimator: EstimatorView, round_trip: int)
    requires
        estimator.well_formed(),
    ensures
        estimator.updated(round_trip).well_formed(),
        estimator.reset().well_formed(),
        estimator.min_ms * NANOS_PER_MILLI <= estimator.next_estimate(round_trip)
            <= estimator.max_ms * NANOS_PER_MILLI,
{
    lemma_sample_clamped(round_trip, estimator.min_ms as int, estimator.max_ms as int);
    if estimator.estimate != 0 {
        let previous_ms = estimator.estimate as int / (NANOS_PER_MILLI as int);
        let sample_ms = estimator.sample(round_trip) / (NANOS_PER_MILLI as int);
        lemma_blended_between(previous_ms, sample_ms, estimator.smoothing_percent as int);
        assert(estimator.min_ms <= previous_ms <= estimator.max_ms) by (nonlinear_arith)
            requires
                estimator.min_ms * 1_000_000 <= estimator.estimate <= estimator.max_ms * 1_000_000,
                previous_ms == estimator.estimate as int / 1_000_000,
        ;
        assert(estimator.min_ms <= sample_ms <= estimator.max_ms) by (nonlinear_arith)
            requires
                estimator.min_ms * 1_000_000 <= estimator.sample(round_trip) <= estimator.max_ms
                    * 1_000_000,
                sample_ms == estimator.sample(round_trip) / 1_000_000,
        ;
        let blended = blended_ms(previous_ms, sample_ms, estimator.smoothing_percent as int);
        assert(estimator.min_ms * 1_000_000 <= blended * 1_000_000 <= estimator.max_ms * 1_000_000)
            by (nonlinear_arith)
            requires
                estimator.min_ms <= blended <= estimator.max_ms,
        ;
    }
}

/// Computes [`clamped_sample`].
pub fn clamp_sample(round_trip: u128, min_ms: u64, max_ms: u64) -> (sample: u128)
    ensures
        sample == clamped_sample(round_trip as int, min_ms as int, max_ms as int),
{
    let raw: u128 = round_trip / 2;
    let low: u128 = (min_ms as u128) * NANOS_PER_MILLI;
    let high: u128 = (max_ms as u128) * NANOS_PER_MILLI;
    if raw < low {
        low
    } else if raw > high {
        high
    } else {
        raw
    }
}

/// Computes [`blended_ms`], for a weight of no more than a hundred percent.
pub fn blend_ms(previous_ms: u64, sample_ms: u64, smoothing_percent: u8) -> (blended: u64)
    requires
        smoothing_percent <= 100,
    ensures
        blended == blended_ms(previous_ms as int, sample_ms as int, smoothing_percent as int),
{
    let weight: u128 = smoothing_percent as u128;
    let kept: u128 = 100 - weight;
    let sample: u128 = sample_ms as u128;
    let previous: u128 = previous_ms as u128;
    assert(weight * sample + kept * previous <= 100 * u64::MAX) by (nonlinear_arith)
        requires
            weight + kept == 100,
            sample <= u64::MAX,
            previous <= u64::MAX,
    ;
    let averaged: u128 = (weight * sample + kept * previous) / 100;
    averaged as u64
}

/// The running estimate of the one-way latency.
#[derive(Debug)]
pub struct LatencyEstimator {
    estimate: u128,
    min_ms: u64,
    max_ms: u64,
    smoothing_percent: u8,
}

impl View for LatencyEstimator {
    type V = EstimatorView;

    closed spec fn view(&self) -> EstimatorView {
        EstimatorView {
            estimate: self.estimate as nat,
            min_ms: self.min_ms as nat,
            max_ms: self.max_ms as nat,
            smoothing_percent: self.smoothing_percent as nat,
        }
    }
}

impl LatencyEstimator {
    #[verifier::type_invariant]
    spec fn sound(&self) -> bool {
        self@.well_formed()
    }

    /// An estimator that has measured nothing, with the clamp of
    /// [`MIN_LATENCY_MS`] to [`MAX_LATENCY_MS`] and the weight of
    /// [`LATENCY_SMOOTHING_PERCENT`].
    pub fn new() -> (estimator: LatencyEstimator)
        ensures
            estimator@ == (EstimatorView {
                estimate: 0,
                min_ms: MIN_LATENCY_MS as nat,
                max_ms: MAX_LATENCY_MS as nat,
                smoothing_percent: LATENCY_SMOOTHING_PERCENT as nat,
            }),
    {
        LatencyEstimator {
            estimate: 0,
            min_ms: MIN_LATENCY_MS,
            max_ms: MAX_LATENCY_MS,
            smoothing_percent: LATENCY_SMOOTHING_PERCENT,
        }
    }

    /// An estimator that has measured nothing, with a clamp and a weight of
    /// one's own.
    pub fn with_clamp(min_ms: u64, max_ms: u64, smoothing_percent: u8) -> (estimator:
        LatencyEstimator)
        requires
            min_ms <= max_ms,
            smoothing_percent <= 100,
        ensures
            estimator@ == (EstimatorView {
                estimate: 0,
                min_ms: min_ms as nat,
                max_ms: max_ms as nat,
                smoothing_percent: smoothing_percent as nat,
            }),
    {
        LatencyEstimator { estimate: 0, min_ms, max_ms, smoothing_percent }
    }

    /// The current estimate; the estimator is well formed.
    pub fn estimate(&self) -> (estimate: u128)
        ensures
            estimate == self@.estimate,
            self@.well_formed(),
    {
        proof {
            use_type_invariant(self);
        }
        self.estimate
    }

    /// Update the latency estimate with the round trip of a completed call:
    /// [`EstimatorView::updated`].
    pub fn update_latency(&mut self, request_duration: u128)
        ensures
            final(self)@ == old(self)@.updated(request_duration as int),
    {
        proof {
            use_type_invariant(&*self);
            lemma_estimate_stays_clamped(self@, request_duration as int);
        }
        let clamped: u128 = clamp_sample(request_duration, self.min_ms, self.max_ms);
        if self.estimate == 0 {
            self.estimate = clamped;
        } else {
            let old_ms: u128 = self.estimate / NANOS_PER_MILLI;
            let new_ms: u128 = clamped / NANOS_PER_MILLI;
            proof {
                lemma_sample_clamped(request_duration as int, self.min_ms as int, self.max_ms as int);
                assert(old_ms <= self.max_ms) by (nonlinear_arith)
                    requires
                        self.estimate <= self.max_ms * 1_000_000,
                        old_ms == self.estimate / 1_000_000,
                ;
                assert(new_ms <= self.max_ms) by (nonlinear_arith)
                    requires
                        clamped <= self.max_ms * 1_000_000,
                        new_ms == clamped / 1_000_000,
                ;
            }
            let averaged: u64 = blend_ms(old_ms as u64, new_ms as u64, self.smoothing_percent);
            self.estimate = (averaged as u128) * NANOS_PER_MILLI;
        }
    }

    /// Forgets what was measured: the estimate is zero again.
    pub fn reset(&mut self)
        ensures
            final(self)@ == old(self)@.reset(),
    {
        proof {
            use_type_invariant(&*self);
        }
        self.estimate = 0;
    }
}

} // verus!
