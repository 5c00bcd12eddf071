use dyrics::discord::RateLimiter;
use dyrics::lyrics::TimedLine;
use dyrics::schedule::{plan_updates, upcoming_lines, ScheduledUpdate};
use dyrics::tuning::BATCH_SEPARATOR;
use std::collections::VecDeque;

const MS: u128 = 1_000_000;
const MIN_UPDATE_INTERVAL: u128 = 3334 * MS;

fn line(text: &str, start_ms: u128, end_ms: u128) -> TimedLine {
    TimedLine { text: text.to_string(), start_time: start_ms * MS, end_time: end_ms * MS }
}

fn plan(lines: &[TimedLine], position_ms: u128) -> VecDeque<ScheduledUpdate> {
    let upcoming = upcoming_lines(lines, position_ms * MS);
    plan_updates(&upcoming, position_ms * MS, MIN_UPDATE_INTERVAL, BATCH_SEPARATOR)
}

fn shown(queue: &VecDeque<ScheduledUpdate>) -> Vec<(u128, String)> {
    queue.iter().map(|u| (u.display_time / MS, u.text.clone())).collect()
}

#[test]
fn the_standard_limiter_spaces_its_updates_by_3334_ms() {
    assert_eq!(RateLimiter::new().min_update_interval(), MIN_UPDATE_INTERVAL);
    assert_eq!(BATCH_SEPARATOR, ". ");
}

#[test]
fn three_close_lines_become_one_update() {
    let lines = vec![line("A", 0, 1000), line("B", 1000, 2000), line("C", 1100, 2100)];
    let queue = plan(&lines, 0);
    assert_eq!(shown(&queue), vec![(0, "A. B. C".to_string())]);
}

#[test]
fn empty_lines_give_an_empty_queue() {
    let queue = plan(&[], 0);
    assert_eq!(queue.len(), 0);
}

#[test]
fn lines_that_have_ended_are_dropped() {
    let lines = vec![line("old", 0, 1000), line("edge", 500, 5000), line("new", 9000, 10000)];
    let queue = plan(&lines, 5000);
    // "edge" ends exactly at the position: it has ended. "old" ended before.
    assert_eq!(shown(&queue), vec![(9000, "new".to_string())]);
}

#[test]
fn lines_far_apart_each_get_their_own_update() {
    let lines = vec![
        line("one", 0, 3000),
        line("two", 4000, 7000),
        line("three", 8000, 11000),
        line("four", 12000, 15000),
    ];
    let queue = plan(&lines, 0);
    assert_eq!(
        shown(&queue),
        vec![
            (0, "one".to_string()),
            (4000, "two".to_string()),
            (8000, "three".to_string()),
            (12000, "four".to_string()),
        ]
    );
}

#[test]
fn a_line_in_progress_is_shown_with_its_own_start() {
    let lines = vec![line("one", 0, 3000), line("two", 4000, 7000), line("three", 8000, 11000)];
    let queue = plan(&lines, 5000);
    assert_eq!(shown(&queue), vec![(4000, "two".to_string()), (8000, "three".to_string())]);
}

#[test]
fn a_line_that_starts_exactly_when_the_budget_frees_is_not_merged() {
    let lines = vec![line("A", 0, 1000), line("B", 3334, 4000), line("C", 6667, 7000)];
    let queue = plan(&lines, 0);
    // "B" starts exactly 3334 ms after "A"; "C" starts one millisecond too early.
    assert_eq!(shown(&queue), vec![(0, "A".to_string()), (3334, "B. C".to_string())]);
}

#[test]
fn one_nanosecond_early_is_merged() {
    let lines = vec![
        TimedLine { text: "A".to_string(), start_time: 0, end_time: 1000 * MS },
        TimedLine { text: "B".to_string(), start_time: 3334 * MS - 1, end_time: 4000 * MS },
    ];
    let upcoming = upcoming_lines(&lines, 0);
    let queue = plan_updates(&upcoming, 0, MIN_UPDATE_INTERVAL, BATCH_SEPARATOR);
    assert_eq!(queue.len(), 1);
    assert_eq!(queue[0].display_time, 0);
    assert_eq!(queue[0].text, "A. B");
}

#[test]
fn lines_that_started_before_the_position_seed_the_first_update() {
    // Both lines have started and neither has ended at 10 s.
    let lines = vec![line("A", 0, 20000), line("B", 5000, 20000), line("C", 12000, 20000)];
    let queue = plan(&lines, 10000);
    // The group is shown at the start of its first line; the budget is free
    // again at 3334 ms, so "C" has an update of its own.
    assert_eq!(shown(&queue), vec![(0, "A. B".to_string()), (12000, "C".to_string())]);
}

#[test]
fn a_seed_group_takes_later_lines_within_the_interval() {
    let lines = vec![line("A", 9000, 20000), line("B", 9500, 20000), line("C", 11000, 20000)];
    let queue = plan(&lines, 10000);
    // "A" and "B" seed the update at 9 s; "C" starts before 9 s + 3334 ms.
    assert_eq!(shown(&queue), vec![(9000, "A. B. C".to_string())]);
}

#[test]
fn lines_are_sorted_by_start_and_equal_starts_keep_their_order() {
    let lines = vec![
        line("late", 8000, 9000),
        line("first", 1000, 2000),
        line("second", 1000, 2500),
        line("early", 0, 500),
    ];
    let sorted = upcoming_lines(&lines, 0);
    let texts: Vec<&str> = sorted.iter().map(|l| l.text.as_str()).collect();
    assert_eq!(texts, vec!["early", "first", "second", "late"]);
}

#[test]
fn merged_text_follows_the_order_of_the_lines() {
    let lines = vec![
        line("d", 900, 1000),
        line("b", 300, 400),
        line("a", 0, 100),
        line("c", 600, 700),
    ];
    let queue = plan(&lines, 0);
    assert_eq!(shown(&queue), vec![(0, "a. b. c. d".to_string())]);
}

#[test]
fn a_dense_track_keeps_the_spacing_and_the_budget() {
    let mut lines = Vec::new();
    for i in 0..200u128 {
        lines.push(line(&format!("l{}", i), i * 500, i * 500 + 450));
    }
    let queue = plan(&lines, 0);
    assert!(queue.len() > 1);
    for k in 1..queue.len() {
        assert!(queue[k].display_time >= queue[k - 1].display_time + MIN_UPDATE_INTERVAL);
    }
    // No window of ten seconds holds more than three updates.
    let window = 10_000 * MS;
    for from_ms in (0..100_000u128).step_by(250) {
        let from = from_ms * MS;
        let count = queue
            .iter()
            .filter(|u| from <= u.display_time && u.display_time < from + window)
            .count();
        assert!(count <= 3);
    }
    // Every line is in exactly one update, in order.
    let all: Vec<String> = queue.iter().map(|u| u.text.clone()).collect();
    let expected: Vec<String> = lines.iter().map(|l| l.text.clone()).collect();
    assert_eq!(all.join(". "), expected.join(". "));
}

#[test]
fn a_start_near_the_largest_time_does_not_overflow() {
    let lines = vec![
        TimedLine { text: "A".to_string(), start_time: u128::MAX - 10, end_time: u128::MAX },
        TimedLine { text: "B".to_string(), start_time: u128::MAX - 5, end_time: u128::MAX },
    ];
    let upcoming = upcoming_lines(&lines, 0);
    let queue = plan_updates(&upcoming, 0, MIN_UPDATE_INTERVAL, BATCH_SEPARATOR);
    assert_eq!(queue.len(), 1);
    assert_eq!(queue[0].display_time, u128::MAX - 10);
    assert_eq!(queue[0].text, "A. B");
}

#[test]
fn another_interval_and_separator_are_honoured() {
    let lines = vec![line("A", 0, 100), line("B", 100, 200), line("C", 200, 300)];
    let upcoming = upcoming_lines(&lines, 0);
    let queue = plan_updates(&upcoming, 0, 150 * MS, " / ");
    assert_eq!(shown(&queue), vec![(0, "A / B".to_string()), (200, "C".to_string())]);
}

#[test]
fn build_schedule_replaces_the_queue() {
    let mut limiter = RateLimiter::new();
    limiter.build_schedule(&[line("one", 0, 3000), line("two", 4000, 7000)], 0);
    assert_eq!(limiter.pending(), 2);
    limiter.build_schedule(&[line("A", 0, 1000), line("B", 1000, 2000)], 0);
    assert_eq!(limiter.pending(), 1);
    assert_eq!(limiter.get_due_update(0), Some("A. B".to_string()));
    assert_eq!(limiter.pending(), 0);
}

/// A stream of numbers that is the same at every run.
struct Numbers(u64);

impl Numbers {
    fn next(&mut self, below: u64) -> u64 {
        self.0 = self.0.wrapping_mul(6364136223846793005).wrapping_add(1442695040888963407);
        (self.0 >> 33) % below
    }
}

/// The forward pass written with the means of the standard library.
fn forward_pass(
    lines: &[TimedLine],
    position: u128,
    interval: u128,
    separator: &str,
) -> Vec<(u128, String)> {
    let mut upcoming: Vec<&TimedLine> = lines.iter().filter(|l| l.end_time > position).collect();
    upcoming.sort_by_key(|l| l.start_time);
    let mut queue: Vec<(u128, String)> = Vec::new();
    let mut next_available = position;
    let mut i = 0;
    while i < upcoming.len() {
        let line = upcoming[i];
        if next_available <= line.start_time {
            queue.push((line.start_time, line.text.clone()));
            next_available = line.start_time + interval;
            i += 1;
        } else {
            let mut batch_end = i + 1;
            while batch_end < upcoming.len() && upcoming[batch_end].start_time < next_available {
                batch_end += 1;
            }
            let texts: Vec<&str> = upcoming[i..batch_end].iter().map(|l| l.text.as_str()).collect();
            if let Some(previous) = queue.last_mut() {
                previous.1 = format!("{}{}{}", previous.1, separator, texts.join(separator));
            } else {
                queue.push((line.start_time, texts.join(separator)));
                next_available = line.start_time + interval;
            }
            i = batch_end;
        }
    }
    queue
}

#[test]
fn the_plan_is_that_of_the_forward_pass() {
    let mut numbers = Numbers(7);
    for round in 0..3000 {
        let count = numbers.next(12) as usize;
        let spread = 1 + numbers.next(40) as u128;
        let mut lines = Vec::new();
        for k in 0..count {
            let start = numbers.next(60) as u128 * spread;
            let length = numbers.next(30) as u128 * spread;
            lines.push(TimedLine {
                text: format!("{}-{}", round, k),
                start_time: start,
                end_time: start + length,
            });
        }
        // Most tracks come in the order of time.
        if numbers.next(4) != 0 {
            lines.sort_by_key(|l| l.start_time);
        }
        let position = numbers.next(70) as u128 * spread;
        let interval = numbers.next(25) as u128 * spread;
        let expected = forward_pass(&lines, position, interval, ", ");
        let upcoming = upcoming_lines(&lines, position);
        let queue = plan_updates(&upcoming, position, interval, ", ");
        let planned: Vec<(u128, String)> =
            queue.iter().map(|u| (u.display_time, u.text.clone())).collect();
        assert_eq!(planned, expected);
    }
}
