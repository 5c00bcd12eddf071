//! Time-synced lyrics: the two shapes in which they arrive, and the uniform
//! sequence of timed spans that the rest of the library works on.
//!
//! Every time in this module is a number of nanoseconds from the start of the
//! track.

use vstd::prelude::*;

verus! {

/// Lyrics of one track with their timing.
#[derive(Debug, Clone)]
pub struct Lyrics {
    /// Start time of the lyrics.
    pub start_time: u128,
    /// End time of the lyrics.
    pub end_time: u128,
    /// The lines themselves, syllable-synced or line-synced.
    pub content: LyricsContent,
}

/// The two kinds of synchronisation.
#[derive(Debug, Clone)]
pub enum LyricsContent {
    /// Lines that are timed syllable by syllable.
    Syllable(Vec<SyllableLyricsLine>),
    /// Lines that are timed as a whole.
    Line(Vec<LineLyricsLine>),
}

/// A line of syllable-synced lyrics.
#[derive(Debug, Clone)]
pub struct SyllableLyricsLine {
    /// Type of the line.
    pub line_type: String,
    /// Whether this line is opposite-aligned (e.g., background vocals).
    pub opposite_aligned: bool,
    /// The lead vocals with syllable timing.
    pub lead: SyllableLyricsLead,
}

/// Lead vocals with syllable-level timing.
#[derive(Debug, Clone)]
pub struct SyllableLyricsLead {
    /// Individual syllables with timing.
    pub syllables: Vec<SyllableLyricsSyllable>,
    /// Start time of this line.
    pub start_time: u128,
    /// End time of this line.
    pub end_time: u128,
}

/// A single syllable with timing information.
#[derive(Debug, Clone)]
pub struct SyllableLyricsSyllable {
    /// The syllable text.
    pub text: String,
    /// Whether this syllable continues the word of the previous one.
    pub is_part_of_word: bool,
    /// Start time of this syllable.
    pub start_time: u128,
    /// End time of this syllable.
    pub end_time: u128,
}

/// A line of line-synced lyrics.
#[derive(Debug, Clone)]
pub struct LineLyricsLine {
    /// Type of the line.
    pub line_type: String,
    /// Whether this line is opposite-aligned (e.g., background vocals).
    pub opposite_aligned: bool,
    /// The text content of the line.
    pub text: String,
    /// Start time of this line.
    pub start_time: u128,
    /// End time of this line.
    pub end_time: u128,
}

/// A lyric line with its text in one piece, as the scheduler reads it.
#[derive(Debug, Clone)]
pub struct TimedLine {
    /// The text content of the line.
    pub text: String,
    /// Start time of this line.
    pub start_time: u128,
    /// End time of this line.
    pub end_time: u128,
}

/// What a [`TimedLine`] stands for: a piece of text shown from `start` to `end`.
pub struct TimedSpan {
    /// The text of the span.
    pub text: Seq<char>,
    /// When the span starts.
    pub start: nat,
    /// When the span ends.
    pub end: nat,
}

impl TimedSpan {
    /// A span does not end before it starts.
    pub open spec fn well_formed(self) -> bool {
        self.start <= self.end
    }
}

/// No span ends before it starts.
pub open spec fn well_formed_spans(spans: Seq<TimedSpan>) -> bool {
    forall|i: int| 0 <= i < spans.len() ==> (#[trigger] spans[i]).well_formed()
}

impl View for TimedLine {
    type V = TimedSpan;

    open spec fn view(&self) -> TimedSpan {
        TimedSpan { text: self.text@, start: self.start_time as nat, end: self.end_time as nat }
    }
}

/// The spans that a sequence of timed lines stands for.
pub open spec fn spans_of(lines: Seq<TimedLine>) -> Seq<TimedSpan> {
    lines.map_values(|l: TimedLine| l@)
}

/// The text of a syllable-synced line: its syllables in order, with a space
/// before each syllable that starts a new word, unless nothing stands before it.
pub open spec fn syllables_text(syllables: Seq<SyllableLyricsSyllable>) -> Seq<char>
    decreases syllables.len(),
{
    if syllables.len() == 0 {
        Seq::empty()
    } else {
        let before = syllables_text(syllables.drop_last());
        let last = syllables.last();
        if before.len() > 0 && !last.is_part_of_word {
            before + seq![' '] + last.text@
        } else {
            before + last.text@
        }
    }
}

/// How far `target` lies from the interval from `start` to `end`: zero inside
/// it, else the gap to the nearer boundary.
pub open spec fn distance_to(start: int, end: int, target: int) -> int {
    if start <= target && target <= end {
        0
    } else if target < start {
        start - target
    } else {
        target - end
    }
}

/// The index of the first smallest entry of `distances`; 0 for an empty sequence.
pub open spec fn first_min_index(distances: Seq<int>) -> int
    decreases distances.len(),
{
    if distances.len() <= 1 {
        0
    } else {
        let before = first_min_index(distances.drop_last());
        if distances.last() < distances[before] {
            distances.len() - 1
        } else {
            before
        }
    }
}

/// [`first_min_index`] points at an entry that no entry undercuts and that
/// every earlier entry exceeds.
pub proof fn lemma_first_min_index(distances: Seq<int>)
    requires
        distances.len() > 0,
    ensures
        0 <= first_min_index(distances) < distances.len(),
        forall|j: int|
            0 <= j < distances.len() ==> distances[first_min_index(distances)] <= #[trigger] distances[j],
        forall|j: int|
            0 <= j < first_min_index(distances) ==> distances[first_min_index(distances)]
                < #[trigger] distances[j],
    decreases distances.len(),
{
    if distances.len() > 1 {
        let rest = distances.drop_last();
        lemma_first_min_index(rest);
        let before = first_min_index(rest);
        assert(forall|j: int| 0 <= j < rest.len() ==> rest[j] == distances[j]);
    }
}

/// The distance of each line-synced line from `target`.
pub open spec fn line_distances(lines: Seq<LineLyricsLine>, target: int) -> Seq<int> {
    Seq::new(
        lines.len(),
        |i: int| distance_to(lines[i].start_time as int, lines[i].end_time as int, target),
    )
}

/// The distance of each syllable-synced line from `target`, by the timing of
/// the line as a whole.
pub open spec fn syllable_line_distances(lines: Seq<SyllableLyricsLine>, target: int) -> Seq<int> {
    Seq::new(
        lines.len(),
        |i: int|
            distance_to(lines[i].lead.start_time as int, lines[i].lead.end_time as int, target),
    )
}

/// Computes [`distance_to`].
fn distance(start: u128, end: u128, target: u128) -> (d: u128)
    ensures
        d == distance_to(start as int, end as int, target as int),
{
    if start <= target && target <= end {
        0
    } else if target < start {
        start - target
    } else {
        target - end
    }
}

/// Find the syllable line that contains or is nearest to the given timestamp:
/// the first line of least distance, `None` where there is no line.
pub fn find_nearest_syllable_line(lines: &[SyllableLyricsLine], target: u128) -> (found: Option<
    &SyllableLyricsLine,
>)
    ensures
        lines@.len() == 0 ==> found is None,
        lines@.len() > 0 ==> found == Some(
            &lines@[first_min_index(syllable_line_distances(lines@, target as int))],
        ),
{
    if lines.len() == 0 {
        return None;
    }
    let ghost all = syllable_line_distances(lines@, target as int);
    let mut best: usize = 0;
    let mut best_distance: u128 = distance(lines[0].lead.start_time, lines[0].lead.end_time, target);
    let mut i: usize = 1;
    proof {
        assert(all.take(1).len() == 1);
    }
    while i < lines.len()
        invariant
            1 <= i <= lines.len(),
            all == syllable_line_distances(lines@, target as int),
            best == first_min_index(all.take(i as int)),
            best < i,
            best_distance == all[best as int],
        decreases lines.len() - i,
    {
        let d: u128 = distance(lines[i].lead.start_time, lines[i].lead.end_time, target);
        proof {
            assert(all.take(i + 1).drop_last() =~= all.take(i as int));
            assert(all.take(i + 1).last() == all[i as int]);
            assert(all.take(i + 1)[best as int] == all[best as int]);
        }
        if d < best_distance {
            best = i;
            best_distance = d;
        }
        i += 1;
    }
    proof {
        assert(all.take(lines.len() as int) =~= all);
    }
    Some(&lines[best])
}

/// Find the line that contains or is nearest to the given timestamp: the first
/// line of least distance, `None` where there is no line.
pub fn find_nearest_line(lines: &[LineLyricsLine], target: u128) -> (found: Option<&LineLyricsLine>)
    ensures
        lines@.len() == 0 ==> found is None,
        lines@.len() > 0 ==> found == Some(
            &lines@[first_min_index(line_distances(lines@, target as int))],
        ),
{
    if lines.len() == 0 {
        return None;
    }
    let ghost all = line_distances(lines@, target as int);
    let mut best: usize = 0;
    let mut best_distance: u128 = distance(lines[0].start_time, lines[0].end_time, target);
    let mut i: usize = 1;
    proof {
        assert(all.take(1).len() == 1);
    }
    while i < lines.len()
        invariant
            1 <= i <= lines.len(),
            all == line_distances(lines@, target as int),
            best == first_min_index(all.take(i as int)),
            best < i,
            best_distance == all[best as int],
        decreases lines.len() - i,
    {
        let d: u128 = distance(lines[i].start_time, lines[i].end_time, target);
        proof {
            assert(all.take(i + 1).drop_last() =~= all.take(i as int));
            assert(all.take(i + 1).last() == all[i as int]);
            assert(all.take(i + 1)[best as int] == all[best as int]);
        }
        if d < best_distance {
            best = i;
            best_distance = d;
        }
        i += 1;
    }
    proof {
        assert(all.take(lines.len() as int) =~= all);
    }
    Some(&lines[best])
}

/// Puts the syllables of a line together: [`syllables_text`].
pub fn join_syllables(syllables: &Vec<SyllableLyricsSyllable>) -> (text: String)
    ensures
        text@ == syllables_text(syllables@),
{
    let mut text = String::new();
    let mut i: usize = 0;
    while i < syllables.len()
        invariant
            i <= syllables.len(),
            text@ == syllables_text(syllables@.take(i as int)),
        decreases syllables.len() - i,
    {
        let ghost before = syllables@.take(i as int);
        let ghost after = syllables@.take(i + 1);
        proof {
            assert(after.drop_last() =~= before);
            assert(after.last() == syllables@[i as int]);
            reveal_strlit(" ");
            assert(" "@ =~= seq![' ']);
        }
        let syllable = &syllables[i];
        if !text.as_str().is_empty() && !syllable.is_part_of_word {
            text.append(" ");
        }
        text.append(syllable.text.as_str());
        i += 1;
    }
    proof {
        assert(syllables@.take(syllables.len() as int) =~= syllables@);
    }
    text
}

impl Lyrics {
    /// The timed spans of these lyrics, one for each line and in the order of
    /// the lines. A syllable-synced line gives the text of its syllables put
    /// together and the timing of the line as a whole.
    pub open spec fn spans(&self) -> Seq<TimedSpan> {
        match self.content {
            LyricsContent::Syllable(lines) => Seq::new(
                lines@.len(),
                |i: int|
                    TimedSpan {
                        text: syllables_text(lines@[i].lead.syllables@),
                        start: lines@[i].lead.start_time as nat,
                        end: lines@[i].lead.end_time as nat,
                    },
            ),
            LyricsContent::Line(lines) => Seq::new(
                lines@.len(),
                |i: int|
                    TimedSpan {
                        text: lines@[i].text@,
                        start: lines@[i].start_time as nat,
                        end: lines@[i].end_time as nat,
                    },
            ),
        }
    }

    /// No line ends before it starts.
    pub open spec fn well_formed(&self) -> bool {
        well_formed_spans(self.spans())
    }

    /// The distance of each line from `target`.
    pub open spec fn distances(&self, target: int) -> Seq<int> {
        match self.content {
            LyricsContent::Syllable(lines) => syllable_line_distances(lines@, target),
            LyricsContent::Line(lines) => line_distances(lines@, target),
        }
    }

    /// The text shown at `timestamp`: that of the first line of least distance
    /// from it, `None` where there is no line.
    pub open spec fn text_at(&self, timestamp: int) -> Option<Seq<char>> {
        if self.spans().len() == 0 {
            None
        } else {
            Some(self.spans()[first_min_index(self.distances(timestamp))].text)
        }
    }

    /// Get the current lyric text for the given timestamp.
    pub fn get_text_at(&self, timestamp: u128) -> (text: Option<String>)
        ensures
            match text {
                Some(t) => self.text_at(timestamp as int) == Some(t@),
                None => self.text_at(timestamp as int) is None,
            },
    {
        proof {
            if self.spans().len() > 0 {
                lemma_first_min_index(self.distances(timestamp as int));
            }
        }
        match &self.content {
            LyricsContent::Syllable(lines) => {
                match find_nearest_syllable_line(lines.as_slice(), timestamp) {
                    Some(line) => Some(join_syllables(&line.lead.syllables)),
                    None => None,
                }
            },
            LyricsContent::Line(lines) => {
                match find_nearest_line(lines.as_slice(), timestamp) {
                    Some(line) => Some(line.text.clone()),
                    None => None,
                }
            },
        }
    }

    /// Get all timed lines, in the order of the lyrics: one for each line,
    /// none dropped and none moved. Lyrics that are well formed give lines
    /// that are.
    pub fn get_timed_lines(&self) -> (timed: Vec<TimedLine>)
        ensures
            spans_of(timed@) == self.spans(),
            self.well_formed() ==> well_formed_spans(spans_of(timed@)),
    {
        let mut timed: Vec<TimedLine> = Vec::new();
        match &self.content {
            LyricsContent::Syllable(lines) => {
                let mut i: usize = 0;
                while i < lines.len()
                    invariant
                        i <= lines.len(),
                        self.content == LyricsContent::Syllable(*lines),
                        spans_of(timed@) == self.spans().take(i as int),
                    decreases lines.len() - i,
                {
                    let line = &lines[i];
                    let ghost before = timed@;
                    timed.push(
                        TimedLine {
                            text: join_syllables(&line.lead.syllables),
                            start_time: line.lead.start_time,
                            end_time: line.lead.end_time,
                        },
                    );
                    proof {
                        assert(spans_of(timed@) =~= spans_of(before).push(self.spans()[i as int]));
                        assert(self.spans().take(i + 1) =~= self.spans().take(i as int).push(
                            self.spans()[i as int],
                        ));
                    }
                    i += 1;
                }
                proof {
                    assert(self.spans().take(lines.len() as int) =~= self.spans());
                }
            },
            LyricsContent::Line(lines) => {
                let mut i: usize = 0;
                while i < lines.len()
                    invariant
                        i <= lines.len(),
                        self.content == LyricsContent::Line(*lines),
                        spans_of(timed@) == self.spans().take(i as int),
                    decreases lines.len() - i,
                {
                    let line = &lines[i];
                    let ghost before = timed@;
                    timed.push(
                        TimedLine {
                            text: line.text.clone(),
                            start_time: line.start_time,
                            end_time: line.end_time,
                        },
                    );
                    proof {
                        assert(spans_of(timed@) =~= spans_of(before).push(self.spans()[i as int]));
                        assert(self.spans().take(i + 1) =~= self.spans().take(i as int).push(
                            self.spans()[i as int],
                        ));
                    }
                    i += 1;
                }
                proof {
                    assert(self.spans().take(lines.len() as int) =~= self.spans());
                }
            },
        }
        timed
    }
}

} // verus!
