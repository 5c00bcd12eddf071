//! What can be tuned: the rate limit, the separator of merged lines, and the
//! clamp and the weight of the latency estimate.

use crate::latency::{
    LATENCY_SMOOTHING_PERCENT, MAX_LATENCY_MS, MIN_LATENCY_MS, NANOS_PER_MILLI,
};
use crate::rate::{RATE_LIMIT_MAX_UPDATES, RATE_LIMIT_WINDOW};
use vstd::prelude::*;

verus! {

/// Separator used when batching multiple lines together, unless another is
/// chosen.
pub const BATCH_SEPARATOR: &'static str = ". ";

/// The values that can be tuned.
#[derive(Debug, Clone)]
pub struct Tuning {
    /// Length of the rate-limit window, in nanoseconds.
    pub rate_limit_window: u128,
    /// How many updates are allowed within one window.
    pub rate_limit_max_updates: usize,
    /// Separator used when batching multiple lines together.
    pub batch_separator: String,
    /// Minimum latency clamp, in milliseconds.
    pub min_latency_ms: u64,
    /// Maximum latency clamp, in milliseconds.
    pub max_latency_ms: u64,
    /// Weight of a new latency sample, in percent.
    pub latency_smoothing_percent: u8,
}

/// What a [`Tuning`] stands for.
pub struct TuningView {
    /// Length of the rate-limit window.
    pub window: nat,
    /// How many updates are allowed within one window.
    pub max_updates: nat,
    /// Separator of the lines that are merged into one update.
    pub separator: Seq<char>,
    /// Lower clamp of a latency sample, in milliseconds.
    pub min_latency_ms: nat,
    /// Upper clamp of a latency sample, in milliseconds.
    pub max_latency_ms: nat,
    /// Weight of a new latency sample, in percent.
    pub smoothing_percent: nat,
}

impl View for Tuning {
    type V = TuningView;

    open spec fn view(&self) -> TuningView {
        TuningView {
            window: self.rate_limit_window as nat,
            max_updates: self.rate_limit_max_updates as nat,
            separator: self.batch_separator@,
            min_latency_ms: self.min_latency_ms as nat,
            max_latency_ms: self.max_latency_ms as nat,
            smoothing_percent: self.latency_smoothing_percent as nat,
        }
    }
}

/// `a / b`, rounded up.
pub open spec fn ceil_div(a: int, b: int) -> int {
    if a % b == 0 {
        a / b
    } else {
        a / b + 1
    }
}

/// Minimum interval between two planned updates: the window divided by the
/// number of updates that it allows, rounded up to a whole millisecond. The
/// largest time stands for an interval beyond it, and for the interval of a
/// window that allows no update.
pub open spec fn min_update_interval(window: nat, max_updates: nat) -> nat {
    if max_updates == 0 {
        u128::MAX as nat
    } else {
        let whole_ms = ceil_div(window as int, max_updates * NANOS_PER_MILLI);
        if whole_ms * NANOS_PER_MILLI > u128::MAX {
            u128::MAX as nat
        } else {
            (whole_ms * NANOS_PER_MILLI) as nat
        }
    }
}

impl TuningView {
    /// The values that are used unless others are chosen: three updates in
    /// ten seconds, lines joined by a full stop and a space, samples clamped
    /// to 10 ms and 2000 ms and weighing 20 percent.
    pub open spec fn standard() -> TuningView {
        TuningView {
            window: RATE_LIMIT_WINDOW as nat,
            max_updates: RATE_LIMIT_MAX_UPDATES as nat,
            separator: BATCH_SEPARATOR@,
            min_latency_ms: MIN_LATENCY_MS as nat,
            max_latency_ms: MAX_LATENCY_MS as nat,
            smoothing_percent: LATENCY_SMOOTHING_PERCENT as nat,
        }
    }

    /// The window allows an update, the clamp is in order, and the weight is
    /// no more than a hundred percent.
    pub open spec fn well_formed(self) -> bool {
        &&& self.max_updates >= 1
        &&& self.min_latency_ms <= self.max_latency_ms
        &&& self.smoothing_percent <= 100
    }

    /// Minimum interval between two planned updates.
    pub open spec fn min_update_interval(self) -> nat {
        min_update_interval(self.window, self.max_updates)
    }
}

/// As many intervals as the window allows updates cover the window: updates
/// that are an interval apart keep the rate limit. With the standard values
/// the interval is 3334 ms.
pub proof fn lemma_interval_covers_window(window: nat, max_updates: nat)
    requires
        max_updates >= 1,
    ensures
        min_update_interval(window, max_updates) * max_updates >= window || min_update_interval(
            window,
            max_updates,
        ) == u128::MAX,
        window > 0 ==> min_update_interval(window, max_updates) > 0,
        TuningView::standard().min_update_interval() == 3_334_000_000,
{
    let share = max_updates * NANOS_PER_MILLI;
    let whole_ms = ceil_div(window as int, share as int);
    assert(share == max_updates * 1_000_000);
    assert(whole_ms * share >= window && (window > 0 ==> whole_ms > 0)) by (nonlinear_arith)
        requires
            share > 0,
            window >= 0,
            whole_ms == if (window as int) % (share as int) == 0 {
                (window as int) / (share as int)
            } else {
                (window as int) / (share as int) + 1
            },
    ;
    assert((whole_ms * NANOS_PER_MILLI) * max_updates == whole_ms * share) by (nonlinear_arith)
        requires
            share == max_updates * NANOS_PER_MILLI,
    ;
    assert(window > 0 ==> whole_ms * NANOS_PER_MILLI > 0) by (nonlinear_arith)
        requires
            window > 0 ==> whole_ms > 0,
            NANOS_PER_MILLI == 1_000_000,
    ;
    assert(ceil_div(10_000_000_000, 3_000_000) == 3334);
}

/// Computes [`min_update_interval`].
pub fn update_interval(window: u128, max_updates: usize) -> (interval: u128)
    ensures
        interval == min_update_interval(window as nat, max_updates as nat),
{
    if max_updates == 0 {
        return u128::MAX;
    }
    let share: u128 = (max_updates as u128) * NANOS_PER_MILLI;
    assert(window / share < u128::MAX) by (nonlinear_arith)
        requires
            share >= 2,
            window <= u128::MAX,
    ;
    let whole_ms: u128 = if window % share == 0 {
        window / share
    } else {
        window / share + 1
    };
    match whole_ms.checked_mul(NANOS_PER_MILLI) {
        Some(interval) => interval,
        None => u128::MAX,
    }
}

impl Tuning {
    /// The values that are used unless others are chosen:
    /// [`TuningView::standard`].
    pub fn standard() -> (tuning: Tuning)
        ensures
            tuning@ == TuningView::standard(),
            tuning@.well_formed(),
    {
        Tuning {
            rate_limit_window: RATE_LIMIT_WINDOW,
            rate_limit_max_updates: RATE_LIMIT_MAX_UPDATES,
            batch_separator: BATCH_SEPARATOR.to_owned(),
            min_latency_ms: MIN_LATENCY_MS,
            max_latency_ms: MAX_LATENCY_MS,
            latency_smoothing_percent: LATENCY_SMOOTHING_PERCENT,
        }
    }

    /// Whether the values can be used: [`TuningView::well_formed`].
    pub fn is_valid(&self) -> (valid: bool)
        ensures
            valid == self@.well_formed(),
    {
        self.rate_limit_max_updates >= 1 && self.min_latency_ms <= self.max_latency_ms
            && self.latency_smoothing_percent <= 100
    }

    /// Minimum interval between two planned updates.
    pub fn min_update_interval(&self) -> (interval: u128)
        ensures
            interval == self@.min_update_interval(),
    {
        update_interval(self.rate_limit_window, self.rate_limit_max_updates)
    }
}

impl Default for Tuning {
    fn default() -> (tuning: Tuning)
        ensures
            tuning@ == TuningView::standard(),
    {
        Tuning::standard()
    }
}

} // verus!
