use dyrics::discord::{
    status_failure, status_outcome, Action, Phase, RateLimiter, StatusCall, StatusLoop,
};
use dyrics::lyrics::{LineLyricsLine, Lyrics, LyricsContent, TimedLine};
use dyrics::spotify::{CurrentPlayback, TrackInfo};
use dyrics::DyricsError;

const MS: u128 = 1_000_000;
const S: u128 = 1_000_000_000;

fn line(text: &str, start_ms: u128, end_ms: u128) -> TimedLine {
    TimedLine { text: text.to_string(), start_time: start_ms * MS, end_time: end_ms * MS }
}

fn lyrics(lines: &[(&str, u128, u128)]) -> Lyrics {
    Lyrics {
        start_time: 0,
        end_time: 600_000 * MS,
        content: LyricsContent::Line(
            lines
                .iter()
                .map(|(text, start_ms, end_ms)| LineLyricsLine {
                    line_type: "Vocal".to_string(),
                    opposite_aligned: false,
                    text: text.to_string(),
                    start_time: start_ms * MS,
                    end_time: end_ms * MS,
                })
                .collect(),
        ),
    }
}

fn track(id: Option<&str>, name: &str, artists: &[&str]) -> TrackInfo {
    TrackInfo {
        id: id.map(|s| s.to_string()),
        name: name.to_string(),
        artists: artists.iter().map(|s| s.to_string()).collect(),
    }
}

fn playing(track: TrackInfo, lyrics: Option<Lyrics>, position_ms: u128) -> Option<CurrentPlayback> {
    Some(CurrentPlayback { track, lyrics, position: position_ms * MS })
}

fn sent_text(action: Action) -> Option<String> {
    match action {
        Action::Send(text) => Some(text),
        _ => None,
    }
}

#[test]
fn an_update_is_due_when_its_time_has_come() {
    let mut limiter = RateLimiter::new();
    limiter.build_schedule(&[line("one", 1000, 3000), line("two", 5000, 7000)], 0);
    assert_eq!(limiter.get_due_update(999 * MS), None);
    assert_eq!(limiter.pending(), 2);
    assert_eq!(limiter.get_due_update(1000 * MS), Some("one".to_string()));
    assert_eq!(limiter.pending(), 1);
    assert_eq!(limiter.get_due_update(1000 * MS), None);
    assert_eq!(limiter.get_due_update(9000 * MS), Some("two".to_string()));
    assert_eq!(limiter.get_due_update(9000 * MS), None);
    assert_eq!(limiter.pending(), 0);
}

#[test]
fn an_update_leaves_early_by_the_latency_estimate() {
    let mut limiter = RateLimiter::new();
    limiter.record_delivery("before", 240 * MS, 0);
    assert_eq!(limiter.latency(), 120 * MS);
    limiter.build_schedule(&[line("one", 1000, 3000)], 0);
    assert_eq!(limiter.get_due_update(879 * MS), None);
    assert_eq!(limiter.get_due_update(880 * MS), Some("one".to_string()));
}

#[test]
fn a_position_near_the_largest_time_is_due() {
    let mut limiter = RateLimiter::new();
    limiter.record_delivery("before", 240 * MS, 0);
    limiter.build_schedule(
        &[TimedLine { text: "end".to_string(), start_time: u128::MAX - 1, end_time: u128::MAX }],
        0,
    );
    assert_eq!(limiter.get_due_update(u128::MAX - 5), Some("end".to_string()));
}

#[test]
fn a_repeated_text_is_not_sent_again() {
    let mut limiter = RateLimiter::new();
    assert!(limiter.should_send("la", 0));
    limiter.record_delivery("la", 100 * MS, 100 * MS);
    assert!(!limiter.should_send("la", S));
    assert!(limiter.should_send("la la", S));
}

#[test]
fn no_capacity_means_no_send() {
    let mut limiter = RateLimiter::new();
    for (i, text) in ["a", "b", "c"].iter().enumerate() {
        let now = (i as u128) * S;
        assert!(limiter.should_send(text, now));
        limiter.record_delivery(text, 100 * MS, now);
    }
    assert!(!limiter.should_send("d", 3 * S));
    assert!(!limiter.should_send("d", 10 * S));
    assert!(limiter.should_send("d", 10 * S + 1));
}

#[test]
fn reset_drops_the_queue_and_the_last_text() {
    let mut limiter = RateLimiter::new();
    limiter.build_schedule(&[line("one", 0, 3000), line("two", 5000, 7000)], 0);
    limiter.record_delivery("one", 240 * MS, 0);
    limiter.reset();
    assert_eq!(limiter.pending(), 0);
    assert_eq!(limiter.latency(), 0);
    // Nothing that was queued before can come out, however late it is.
    assert_eq!(limiter.get_due_update(u128::MAX), None);
    // The text that was sent last is forgotten: it can be sent again.
    assert!(limiter.should_send("one", S));
}

#[test]
fn stop_drops_the_queue_and_keeps_the_latency() {
    let mut limiter = RateLimiter::new();
    limiter.build_schedule(&[line("one", 0, 3000)], 0);
    limiter.record_delivery("one", 240 * MS, 0);
    limiter.stop();
    assert_eq!(limiter.pending(), 0);
    assert_eq!(limiter.latency(), 120 * MS);
    assert_eq!(limiter.get_due_update(u128::MAX), None);
    assert!(limiter.should_send("one", S));
}

#[test]
fn the_default_limiter_is_a_new_one() {
    let mut limiter = RateLimiter::default();
    assert_eq!(limiter.pending(), 0);
    assert_eq!(limiter.latency(), 0);
    assert!(limiter.should_send("", 0));
}

#[test]
fn the_loop_waits_while_nothing_plays() {
    let mut status = StatusLoop::new();
    assert_eq!(status.phase(), Phase::Idle);
    assert!(matches!(status.tick(&None, 0), Action::Wait));
    assert!(matches!(status.tick(&None, 50 * MS), Action::Wait));
    assert_eq!(status.phase(), Phase::Idle);
}

#[test]
fn the_loop_walks_through_its_phases() {
    let mut status = StatusLoop::new();
    let song = track(Some("spotify:track:1"), "Song", &["Band"]);
    let words = lyrics(&[("one", 1000, 3000), ("two", 5000, 7000)]);

    // The queue is built at the first tick; nothing is due yet.
    let snapshot = playing(song.clone(), Some(words.clone()), 0);
    assert!(matches!(status.tick(&snapshot, 0), Action::Wait));
    assert_eq!(status.phase(), Phase::ScheduleBuilt);

    // The first update is due.
    let snapshot = playing(song.clone(), Some(words.clone()), 1000);
    let action = status.tick(&snapshot, S);
    assert_eq!(sent_text(action), Some("one".to_string()));
    assert_eq!(status.phase(), Phase::Draining);
    status.on_sent("one", 240 * MS, S + 240 * MS);
    assert_eq!(status.latency(), 120 * MS);

    // The second update leaves 120 ms early.
    let snapshot = playing(song.clone(), Some(words.clone()), 4879);
    assert!(matches!(status.tick(&snapshot, 5 * S), Action::Wait));
    let snapshot = playing(song.clone(), Some(words.clone()), 4880);
    let action = status.tick(&snapshot, 5 * S);
    assert_eq!(sent_text(action), Some("two".to_string()));

    // The queue is empty: the loop goes on draining.
    let snapshot = playing(song.clone(), Some(words.clone()), 9000);
    assert!(matches!(status.tick(&snapshot, 9 * S), Action::Wait));
    assert_eq!(status.phase(), Phase::Draining);

    // Playback stops: the status is cleared once.
    assert!(matches!(status.tick(&None, 10 * S), Action::Clear));
    assert_eq!(status.phase(), Phase::Cleared);
    status.on_cleared(40 * MS, 10 * S);
    assert!(matches!(status.tick(&None, 11 * S), Action::Wait));
    assert_eq!(status.phase(), Phase::Cleared);
}

#[test]
fn a_track_change_drops_what_was_queued() {
    let mut status = StatusLoop::new();
    let first = track(Some("spotify:track:1"), "First", &["Band"]);
    let second = track(Some("spotify:track:2"), "Second", &["Band"]);
    let old_words = lyrics(&[("old one", 1000, 3000), ("old two", 5000, 7000)]);
    let new_words = lyrics(&[("new one", 20_000, 23_000)]);

    let snapshot = playing(first, Some(old_words), 0);
    assert!(matches!(status.tick(&snapshot, 0), Action::Wait));

    // The track changes at a position at which both old updates would be due.
    let snapshot = playing(second.clone(), Some(new_words.clone()), 9000);
    assert!(matches!(status.tick(&snapshot, S), Action::Wait));
    assert_eq!(status.phase(), Phase::ScheduleBuilt);
    let snapshot = playing(second.clone(), Some(new_words.clone()), 19_999);
    assert!(matches!(status.tick(&snapshot, 2 * S), Action::Wait));
    let snapshot = playing(second, Some(new_words), 20_000);
    let action = status.tick(&snapshot, 3 * S);
    assert_eq!(sent_text(action), Some("new one".to_string()));
}

#[test]
fn a_track_change_lets_the_same_text_out_again() {
    let mut status = StatusLoop::new();
    let first = track(Some("spotify:track:1"), "Song", &["Band"]);
    let second = track(Some("spotify:track:2"), "Song", &["Band"]);
    let action = status.tick(&playing(first.clone(), None, 0), 0);
    assert_eq!(sent_text(action), Some("Song - Band".to_string()));
    status.on_sent("Song - Band", 100 * MS, 100 * MS);
    // The same track again: the text repeats and is not sent.
    assert!(matches!(status.tick(&playing(first, None, 50), 50 * MS), Action::Wait));
    // Another track with the same name: the reset lets the text out.
    let action = status.tick(&playing(second, None, 0), S);
    assert_eq!(sent_text(action), Some("Song - Band".to_string()));
    // The latency estimate started anew with the track.
    assert_eq!(status.latency(), 0);
}

#[test]
fn a_track_without_lyrics_shows_its_name_and_artists() {
    let mut status = StatusLoop::new();
    let song = track(Some("spotify:track:1"), "Song", &["One", "Two", "Three"]);
    let action = status.tick(&playing(song, None, 0), 0);
    assert_eq!(sent_text(action), Some("Song - One, Two, Three".to_string()));
    assert_eq!(status.phase(), Phase::Idle);
}

#[test]
fn an_update_that_finds_no_capacity_is_lost() {
    let mut status = StatusLoop::new();
    let song = track(Some("spotify:track:1"), "Song", &["Band"]);
    let words = lyrics(&[
        ("one", 0, 1000),
        ("two", 4000, 5000),
        ("three", 8000, 9000),
        ("four", 12_000, 13_000),
        ("five", 16_000, 17_000),
    ]);
    // The wall clock runs eight times as fast as the track: the plan is kept,
    // the rate limit is not.
    let mut sent = Vec::new();
    for (position_ms, now) in [(0, 0), (4000, 500 * MS), (8000, S), (12_000, 1500 * MS)] {
        let snapshot = playing(song.clone(), Some(words.clone()), position_ms);
        if let Some(text) = sent_text(status.tick(&snapshot, now)) {
            status.on_sent(&text, 20 * MS, now);
            sent.push(text);
        }
    }
    assert_eq!(sent, vec!["one", "two", "three"]);
    // "four" was taken from the queue and dropped; "five" comes when it is due
    // and the window has room again.
    let snapshot = playing(song.clone(), Some(words.clone()), 15_000);
    assert!(matches!(status.tick(&snapshot, 20 * S), Action::Wait));
    let snapshot = playing(song, Some(words), 16_000);
    let action = status.tick(&snapshot, 21 * S);
    assert_eq!(sent_text(action), Some("five".to_string()));
}

#[test]
fn a_failed_send_leaves_no_trace() {
    let mut status = StatusLoop::new();
    let song = track(Some("spotify:track:1"), "Song", &["Band"]);
    let action = status.tick(&playing(song.clone(), None, 0), 0);
    assert_eq!(sent_text(action), Some("Song - Band".to_string()));
    // The send failed: nothing is reported back. The text is offered again.
    let action = status.tick(&playing(song, None, 50), 50 * MS);
    assert_eq!(sent_text(action), Some("Song - Band".to_string()));
    assert_eq!(status.latency(), 0);
}

#[test]
fn the_status_is_cleared_whatever_the_window_holds() {
    let mut status = StatusLoop::new();
    for (i, name) in ["A", "B", "C"].iter().enumerate() {
        let now = (i as u128) * 100 * MS;
        let id = format!("spotify:track:{}", i);
        let action = status.tick(&playing(track(Some(&id), name, &["Band"]), None, 0), now);
        let text = sent_text(action).unwrap();
        status.on_sent(&text, 20 * MS, now);
    }
    // The window is full.
    let action = status.tick(&playing(track(Some("spotify:track:9"), "D", &["Band"]), None, 0), S);
    assert!(matches!(action, Action::Wait));
    // Playback stops: the clearing update goes out all the same.
    assert!(matches!(status.tick(&None, S + 50 * MS), Action::Clear));
}

#[test]
fn playback_after_a_stop_starts_from_idle() {
    let mut status = StatusLoop::new();
    let song = track(None, "Local", &["Me"]);
    let action = status.tick(&playing(song.clone(), None, 0), 0);
    assert_eq!(sent_text(action), Some("Local - Me".to_string()));
    status.on_sent("Local - Me", 20 * MS, 0);
    // A track without an identity is cleared like any other when it stops.
    assert!(matches!(status.tick(&None, S), Action::Clear));
    assert_eq!(status.phase(), Phase::Cleared);
    let words = lyrics(&[("one", 0, 1000)]);
    let action = status.tick(&playing(song, Some(words), 0), 2 * S);
    assert_eq!(sent_text(action), Some("one".to_string()));
    assert_eq!(status.phase(), Phase::Draining);
}

#[test]
fn a_status_code_of_success_is_no_error() {
    for status in [200u16, 204, 299] {
        assert!(status_outcome(StatusCall::Update, status).is_ok());
        assert!(status_outcome(StatusCall::Clear, status).is_ok());
    }
}

#[test]
fn any_other_status_code_is_an_error_of_the_sink() {
    for status in [0u16, 99, 100, 199, 300, 401, 429, 500, 999, 1000, u16::MAX] {
        assert!(matches!(
            status_outcome(StatusCall::Update, status),
            Err(DyricsError::Discord(_))
        ));
        assert!(matches!(status_outcome(StatusCall::Clear, status), Err(DyricsError::Discord(_))));
    }
}

#[test]
fn a_failed_call_shows_the_status_with_its_reason() {
    match status_outcome(StatusCall::Update, 429) {
        Err(DyricsError::Discord(detail)) => {
            assert_eq!(detail, "Status update failed: 429 Too Many Requests")
        }
        _ => panic!("429 is an error"),
    }
    match status_outcome(StatusCall::Clear, 401) {
        Err(DyricsError::Discord(detail)) => {
            assert_eq!(detail, "Status clear failed: 401 Unauthorized")
        }
        _ => panic!("401 is an error"),
    }
    match status_outcome(StatusCall::Clear, 799) {
        Err(DyricsError::Discord(detail)) => {
            assert_eq!(detail, "Status clear failed: 799 <unknown status code>")
        }
        _ => panic!("799 is an error"),
    }
    match status_outcome(StatusCall::Update, 42) {
        Err(DyricsError::Discord(detail)) => {
            assert_eq!(detail, "Status update failed: invalid status code")
        }
        _ => panic!("42 is an error"),
    }
}

#[test]
fn the_error_of_a_failed_call_names_the_call() {
    match status_failure(StatusCall::Update, "teapot") {
        DyricsError::Discord(detail) => assert_eq!(detail, "Status update failed: teapot"),
        _ => panic!("a failed call is an error of the sink"),
    }
    match status_failure(StatusCall::Clear, "") {
        DyricsError::Discord(detail) => assert_eq!(detail, "Status clear failed: "),
        _ => panic!("a failed call is an error of the sink"),
    }
}
