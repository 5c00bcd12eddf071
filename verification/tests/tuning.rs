use dyrics::discord::{Action, RateLimiter, StatusLoop};
use dyrics::lyrics::TimedLine;
use dyrics::spotify::{CurrentPlayback, TrackInfo};
use dyrics::tuning::{update_interval, Tuning, BATCH_SEPARATOR};

const MS: u128 = 1_000_000;
const S: u128 = 1_000_000_000;

fn tuning(window: u128, max_updates: usize, separator: &str) -> Tuning {
    Tuning {
        rate_limit_window: window,
        rate_limit_max_updates: max_updates,
        batch_separator: separator.to_string(),
        min_latency_ms: 5,
        max_latency_ms: 100,
        latency_smoothing_percent: 50,
    }
}

fn line(text: &str, start_ms: u128, end_ms: u128) -> TimedLine {
    TimedLine { text: text.to_string(), start_time: start_ms * MS, end_time: end_ms * MS }
}

#[test]
fn the_standard_values() {
    let standard = Tuning::standard();
    assert_eq!(standard.rate_limit_window, 10 * S);
    assert_eq!(standard.rate_limit_max_updates, 3);
    assert_eq!(standard.batch_separator, BATCH_SEPARATOR);
    assert_eq!(standard.batch_separator, ". ");
    assert_eq!(standard.min_latency_ms, 10);
    assert_eq!(standard.max_latency_ms, 2000);
    assert_eq!(standard.latency_smoothing_percent, 20);
    assert!(standard.is_valid());
    assert_eq!(standard.min_update_interval(), 3334 * MS);
    assert_eq!(Tuning::default().min_update_interval(), 3334 * MS);
}

#[test]
fn the_interval_is_the_share_of_the_window_in_whole_milliseconds() {
    assert_eq!(update_interval(10 * S, 3), 3334 * MS);
    assert_eq!(update_interval(10 * S, 4), 2500 * MS);
    assert_eq!(update_interval(10 * S, 1), 10 * S);
    assert_eq!(update_interval(1, 3), MS);
    assert_eq!(update_interval(0, 3), 0);
    assert_eq!(update_interval(3 * MS, 3), MS);
    assert_eq!(update_interval(3 * MS + 1, 3), 2 * MS);
}

#[test]
fn an_interval_beyond_the_largest_time_is_the_largest_time() {
    assert_eq!(update_interval(u128::MAX, 1), u128::MAX);
    assert_eq!(update_interval(u128::MAX - 211_455, 1), u128::MAX - 211_455);
    assert_eq!(update_interval(u128::MAX - 211_454, 1), u128::MAX);
    assert_eq!(update_interval(10 * S, 0), u128::MAX);
}

#[test]
fn values_that_cannot_be_used_are_told_apart() {
    assert!(tuning(S, 1, "").is_valid());
    assert!(!tuning(S, 0, "").is_valid());
    let mut reversed = tuning(S, 1, "");
    reversed.min_latency_ms = 101;
    assert!(!reversed.is_valid());
    let mut heavy = tuning(S, 1, "");
    heavy.latency_smoothing_percent = 101;
    assert!(!heavy.is_valid());
    heavy.latency_smoothing_percent = 100;
    assert!(heavy.is_valid());
}

#[test]
fn a_limiter_with_its_own_values_plans_and_lets_through_by_them() {
    let mut limiter = RateLimiter::with_tuning(tuning(2 * S, 2, " | "));
    assert_eq!(limiter.min_update_interval(), S);
    limiter.build_schedule(
        &[line("a", 0, 100), line("b", 500, 600), line("c", 1000, 1100), line("d", 1999, 2100)],
        0,
    );
    assert_eq!(limiter.get_due_update(0), Some("a | b".to_string()));
    assert_eq!(limiter.get_due_update(1000 * MS), Some("c | d".to_string()));
    assert!(limiter.should_send("x", 0));
    limiter.record_delivery("x", 400 * MS, 0);
    // The sample of 200 ms is clamped to 100 ms.
    assert_eq!(limiter.latency(), 100 * MS);
    assert!(limiter.should_send("y", S));
    limiter.record_delivery("y", 20 * MS, S);
    // (50 * 10 + 50 * 100) / 100 = 55
    assert_eq!(limiter.latency(), 55 * MS);
    assert!(!limiter.should_send("z", 2 * S));
    assert!(limiter.should_send("z", 2 * S + 1));
}

#[test]
fn a_loop_with_its_own_values_uses_them() {
    let mut status = StatusLoop::with_tuning(tuning(S, 1, ""));
    let track = TrackInfo { id: None, name: "N".to_string(), artists: vec!["A".to_string()] };
    let snapshot = Some(CurrentPlayback { track, lyrics: None, position: 0 });
    assert!(matches!(status.tick(&snapshot, 0), Action::Send(_)));
    status.on_sent("other", 2 * MS, 0);
    assert_eq!(status.latency(), 5 * MS);
    assert!(matches!(status.tick(&snapshot, S), Action::Wait));
    assert!(matches!(status.tick(&snapshot, S + 1), Action::Send(_)));
}
