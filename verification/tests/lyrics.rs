use dyrics::lyrics::{
    find_nearest_line, find_nearest_syllable_line, join_syllables, LineLyricsLine, Lyrics,
    LyricsContent, SyllableLyricsLead, SyllableLyricsLine, SyllableLyricsSyllable,
};

const MS: u128 = 1_000_000;

fn text_line(text: &str, start_ms: u128, end_ms: u128) -> LineLyricsLine {
    LineLyricsLine {
        line_type: "Vocal".to_string(),
        opposite_aligned: false,
        text: text.to_string(),
        start_time: start_ms * MS,
        end_time: end_ms * MS,
    }
}

fn syllable(text: &str, is_part_of_word: bool) -> SyllableLyricsSyllable {
    SyllableLyricsSyllable { text: text.to_string(), is_part_of_word, start_time: 0, end_time: 0 }
}

fn syllable_line(
    syllables: Vec<SyllableLyricsSyllable>,
    start_ms: u128,
    end_ms: u128,
) -> SyllableLyricsLine {
    SyllableLyricsLine {
        line_type: "Vocal".to_string(),
        opposite_aligned: false,
        lead: SyllableLyricsLead { syllables, start_time: start_ms * MS, end_time: end_ms * MS },
    }
}

fn line_lyrics(lines: Vec<LineLyricsLine>) -> Lyrics {
    Lyrics { start_time: 0, end_time: 60_000 * MS, content: LyricsContent::Line(lines) }
}

fn syllable_lyrics(lines: Vec<SyllableLyricsLine>) -> Lyrics {
    Lyrics { start_time: 0, end_time: 60_000 * MS, content: LyricsContent::Syllable(lines) }
}

#[test]
fn syllables_are_joined_with_spaces_between_words() {
    let syllables = vec![
        syllable("Hel", false),
        syllable("lo", true),
        syllable("won", false),
        syllable("der", true),
        syllable("ful", true),
        syllable("world", false),
    ];
    assert_eq!(join_syllables(&syllables), "Hello wonderful world");
}

#[test]
fn no_space_stands_before_the_first_text() {
    let syllables = vec![syllable("", false), syllable("", false), syllable("la", false)];
    assert_eq!(join_syllables(&syllables), "la");
    assert_eq!(join_syllables(&Vec::new()), "");
}

#[test]
fn timed_lines_of_line_synced_lyrics() {
    let lyrics = line_lyrics(vec![text_line("one", 0, 1000), text_line("two", 1500, 2500)]);
    let timed = lyrics.get_timed_lines();
    assert_eq!(timed.len(), 2);
    assert_eq!(timed[0].text, "one");
    assert_eq!(timed[0].start_time, 0);
    assert_eq!(timed[0].end_time, 1000 * MS);
    assert_eq!(timed[1].text, "two");
    assert_eq!(timed[1].start_time, 1500 * MS);
    assert_eq!(timed[1].end_time, 2500 * MS);
}

#[test]
fn timed_lines_of_syllable_synced_lyrics_carry_the_timing_of_the_line() {
    let mut first = syllable("Good", false);
    first.start_time = 100 * MS;
    first.end_time = 200 * MS;
    let mut second = syllable("bye", true);
    second.start_time = 200 * MS;
    second.end_time = 300 * MS;
    let lyrics = syllable_lyrics(vec![
        syllable_line(vec![first, second, syllable("now", false)], 50, 900),
        syllable_line(vec![], 1000, 2000),
    ]);
    let timed = lyrics.get_timed_lines();
    assert_eq!(timed.len(), 2);
    assert_eq!(timed[0].text, "Goodbye now");
    assert_eq!(timed[0].start_time, 50 * MS);
    assert_eq!(timed[0].end_time, 900 * MS);
    assert_eq!(timed[1].text, "");
    assert_eq!(timed[1].start_time, 1000 * MS);
}

#[test]
fn timed_lines_keep_the_given_order() {
    let lyrics = line_lyrics(vec![text_line("late", 5000, 6000), text_line("early", 0, 1000)]);
    let timed = lyrics.get_timed_lines();
    assert_eq!(timed[0].text, "late");
    assert_eq!(timed[1].text, "early");
}

#[test]
fn text_at_a_time_inside_a_line() {
    let lyrics = line_lyrics(vec![text_line("one", 0, 1000), text_line("two", 1500, 2500)]);
    assert_eq!(lyrics.get_text_at(0), Some("one".to_string()));
    assert_eq!(lyrics.get_text_at(1000 * MS), Some("one".to_string()));
    assert_eq!(lyrics.get_text_at(1500 * MS), Some("two".to_string()));
    assert_eq!(lyrics.get_text_at(2000 * MS), Some("two".to_string()));
}

#[test]
fn text_at_a_time_between_lines_is_that_of_the_nearest() {
    let lyrics = line_lyrics(vec![text_line("one", 0, 1000), text_line("two", 1500, 2500)]);
    assert_eq!(lyrics.get_text_at(1200 * MS), Some("one".to_string()));
    assert_eq!(lyrics.get_text_at(1300 * MS), Some("two".to_string()));
    assert_eq!(lyrics.get_text_at(90_000 * MS), Some("two".to_string()));
}

#[test]
fn the_first_of_two_equally_near_lines_wins() {
    let lyrics = line_lyrics(vec![text_line("one", 0, 1000), text_line("two", 1500, 2500)]);
    assert_eq!(lyrics.get_text_at(1250 * MS), Some("one".to_string()));
    let overlapping = line_lyrics(vec![text_line("a", 0, 1000), text_line("b", 500, 1500)]);
    assert_eq!(overlapping.get_text_at(700 * MS), Some("a".to_string()));
    let reversed = line_lyrics(vec![text_line("two", 1500, 2500), text_line("one", 0, 1000)]);
    assert_eq!(reversed.get_text_at(1250 * MS), Some("two".to_string()));
}

#[test]
fn text_of_lyrics_without_lines_is_none() {
    assert_eq!(line_lyrics(vec![]).get_text_at(5), None);
    assert_eq!(syllable_lyrics(vec![]).get_text_at(5), None);
}

#[test]
fn text_at_of_syllable_synced_lyrics() {
    let lyrics = syllable_lyrics(vec![
        syllable_line(vec![syllable("Hel", false), syllable("lo", true)], 0, 1000),
        syllable_line(vec![syllable("you", false), syllable("there", false)], 2000, 3000),
    ]);
    assert_eq!(lyrics.get_text_at(500 * MS), Some("Hello".to_string()));
    assert_eq!(lyrics.get_text_at(1600 * MS), Some("you there".to_string()));
    assert_eq!(lyrics.get_text_at(1500 * MS), Some("Hello".to_string()));
}

#[test]
fn nearest_line_of_no_lines_is_none() {
    assert!(find_nearest_line(&[], 0).is_none());
    assert!(find_nearest_syllable_line(&[], 0).is_none());
}

#[test]
fn nearest_line_is_found_by_its_distance() {
    let lines = vec![text_line("a", 1000, 2000), text_line("b", 3000, 4000)];
    assert_eq!(find_nearest_line(&lines, 0).map(|l| l.text.as_str()), Some("a"));
    assert_eq!(find_nearest_line(&lines, 2499 * MS).map(|l| l.text.as_str()), Some("a"));
    assert_eq!(find_nearest_line(&lines, 2501 * MS).map(|l| l.text.as_str()), Some("b"));
    let syllables = vec![syllable_line(vec![], 1000, 2000), syllable_line(vec![], 3000, 4000)];
    let found = find_nearest_syllable_line(&syllables, 2501 * MS);
    assert_eq!(found.map(|l| l.lead.start_time), Some(3000 * MS));
}

/// A stream of numbers that is the same at every run.
struct Numbers(u64);

impl Numbers {
    fn next(&mut self, below: u64) -> u64 {
        self.0 = self.0.wrapping_mul(6364136223846793005).wrapping_add(1442695040888963407);
        (self.0 >> 33) % below
    }
}

#[test]
fn the_nearest_line_is_the_first_of_least_distance() {
    let mut numbers = Numbers(11);
    for _ in 0..2000 {
        let count = 1 + numbers.next(8) as usize;
        let mut lines = Vec::new();
        for k in 0..count {
            let start = numbers.next(50) as u128;
            let end = start + numbers.next(10) as u128;
            lines.push(text_line(&k.to_string(), start, end));
        }
        let target = numbers.next(70) as u128 * MS;
        let expected = lines.iter().min_by_key(|line| {
            if line.start_time <= target && target <= line.end_time {
                0
            } else if target < line.start_time {
                line.start_time - target
            } else {
                target - line.end_time
            }
        });
        let found = find_nearest_line(&lines, target);
        assert_eq!(found.map(|l| l.text.clone()), expected.map(|l| l.text.clone()));
        assert_eq!(line_lyrics(lines.clone()).get_text_at(target), found.map(|l| l.text.clone()));
    }
}
