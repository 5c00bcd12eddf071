//! The lookahead scheduler: from the timed lines of a track and the current
//! position to the queue of status updates, spaced so that the update budget
//! is kept, with the lines that cannot have an update of their own merged into
//! the update before them.
//!
//! Every time in this module is a number of nanoseconds from the start of the
//! track.

use crate::lyrics::{spans_of, TimedLine, TimedSpan};
use crate::schedule_laws::{
    grouped, lemma_planned_is_grouped, lemma_planned_spaced, spaced, updates_of_groups,
};
use crate::text::joined;
use std::collections::VecDeque;
use vstd::prelude::*;

verus! {

/// A status update that is to be shown at a time of the track.
#[derive(Debug, Clone)]
pub struct ScheduledUpdate {
    /// When this update should be displayed (song time, not wall time).
    pub display_time: u128,
    /// The text to display (may be several lines merged).
    pub text: String,
}

/// What a [`ScheduledUpdate`] stands for.
pub struct Update {
    /// When the update is to be shown.
    pub display_time: nat,
    /// The text of the update.
    pub text: Seq<char>,
}

impl View for ScheduledUpdate {
    type V = Update;

    open spec fn view(&self) -> Update {
        Update { display_time: self.display_time as nat, text: self.text@ }
    }
}

/// The updates that a queue stands for, front first.
pub open spec fn updates_of(queue: Seq<ScheduledUpdate>) -> Seq<Update> {
    queue.map_values(|u: ScheduledUpdate| u@)
}

/// The texts of a run of spans.
pub open spec fn texts_of(spans: Seq<TimedSpan>) -> Seq<Seq<char>> {
    spans.map_values(|s: TimedSpan| s.text)
}

/// The update that shows one span alone, at its start.
pub open spec fn update_of(span: TimedSpan) -> Update {
    Update { display_time: span.start, text: span.text }
}

/// The spans that have not ended at `position`, in their given order.
pub open spec fn upcoming(spans: Seq<TimedSpan>, position: int) -> Seq<TimedSpan> {
    spans.filter(|s: TimedSpan| s.end > position)
}

/// Each span starts no later than the spans behind it.
pub open spec fn ordered_by_start(spans: Seq<TimedSpan>) -> bool {
    forall|i: int, j: int| 0 <= i <= j < spans.len() ==> spans[i].start <= spans[j].start
}

/// `span` put into `sorted` behind every span that starts no later than it.
pub open spec fn inserted_by_start(sorted: Seq<TimedSpan>, span: TimedSpan) -> Seq<TimedSpan>
    decreases sorted.len(),
{
    if sorted.len() == 0 {
        seq![span]
    } else if sorted.last().start <= span.start {
        sorted.push(span)
    } else {
        inserted_by_start(sorted.drop_last(), span).push(sorted.last())
    }
}

/// The spans ordered by start; spans of equal start keep their given order.
pub open spec fn sorted_by_start(spans: Seq<TimedSpan>) -> Seq<TimedSpan>
    decreases spans.len(),
{
    if spans.len() == 0 {
        Seq::empty()
    } else {
        inserted_by_start(sorted_by_start(spans.drop_last()), spans.last())
    }
}

/// How many spans in a row, from index `from` on, start before `threshold`.
pub open spec fn absorbed(spans: Seq<TimedSpan>, threshold: int, from: int) -> nat
    decreases spans.len() - from,
{
    if from < 0 || from >= spans.len() || spans[from].start >= threshold {
        0
    } else {
        1 + absorbed(spans, threshold, from + 1)
    }
}

/// The queue that one forward pass over `spans` makes of `queue`, from span
/// `i` on. `next_available` is the earliest time at which an update of its own
/// can be scheduled.
///
/// A span that starts at `next_available` or later gets an update at its
/// start, and `next_available` moves to that start plus `interval`. A span that
/// starts earlier forms a group with every span behind it that starts before
/// `next_available` too. The texts of the group, joined by `separator`, are
/// added to the text of the last update behind one more `separator`; where the
/// queue is still empty the group becomes the first update, shown at the start
/// of its first span, and `next_available` moves as above.
pub open spec fn planned_from(
    spans: Seq<TimedSpan>,
    i: int,
    next_available: int,
    queue: Seq<Update>,
    interval: int,
    separator: Seq<char>,
) -> Seq<Update>
    decreases spans.len() - i,
    via planned_from_terminates
{
    if i < 0 || i >= spans.len() {
        queue
    } else if next_available <= spans[i].start {
        planned_from(
            spans,
            i + 1,
            spans[i].start + interval,
            queue.push(update_of(spans[i])),
            interval,
            separator,
        )
    } else {
        let end = i + 1 + absorbed(spans, next_available, i + 1);
        let batch = joined(texts_of(spans.subrange(i, end)), separator);
        if queue.len() > 0 {
            let merged = Update {
                display_time: queue.last().display_time,
                text: queue.last().text + separator + batch,
            };
            planned_from(
                spans,
                end,
                next_available,
                queue.drop_last().push(merged),
                interval,
                separator,
            )
        } else {
            let seed = Update { display_time: spans[i].start, text: batch };
            planned_from(spans, end, spans[i].start + interval, seq![seed], interval, separator)
        }
    }
}

/// A run that starts at `from` ends within the sequence.
pub proof fn lemma_absorbed_fits(spans: Seq<TimedSpan>, threshold: int, from: int)
    requires
        0 <= from <= spans.len(),
    ensures
        from + absorbed(spans, threshold, from) <= spans.len(),
    decreases spans.len() - from,
{
    if from < spans.len() && spans[from].start < threshold {
        lemma_absorbed_fits(spans, threshold, from + 1);
    }
}

#[via_fn]
proof fn planned_from_terminates(
    spans: Seq<TimedSpan>,
    i: int,
    next_available: int,
    queue: Seq<Update>,
    interval: int,
    separator: Seq<char>,
) {
    if 0 <= i < spans.len() {
        lemma_absorbed_fits(spans, next_available, i + 1);
    }
}

/// The queue planned for `spans`, taken in their given order, from `position`.
pub open spec fn planned(
    spans: Seq<TimedSpan>,
    position: int,
    interval: int,
    separator: Seq<char>,
) -> Seq<Update> {
    planned_from(spans, 0, position, Seq::empty(), interval, separator)
}

/// The queue for the lines of a track at `position`: the lines that have not
/// ended are ordered by start and planned.
pub open spec fn schedule_for(
    lines: Seq<TimedSpan>,
    position: int,
    interval: int,
    separator: Seq<char>,
) -> Seq<Update> {
    planned(sorted_by_start(upcoming(lines, position)), position, interval, separator)
}

/// Where the scan from the end stops is where [`inserted_by_start`] puts the span.
proof fn lemma_inserted_at(sorted: Seq<TimedSpan>, span: TimedSpan, k: int)
    requires
        0 <= k <= sorted.len(),
        forall|j: int| k <= j < sorted.len() ==> sorted[j].start > span.start,
        k > 0 ==> sorted[k - 1].start <= span.start,
    ensures
        inserted_by_start(sorted, span) == sorted.insert(k, span),
    decreases sorted.len(),
{
    if sorted.len() == 0 {
        assert(sorted.insert(k, span) =~= seq![span]);
    } else if k == sorted.len() {
        assert(sorted.insert(k, span) =~= sorted.push(span));
    } else {
        lemma_inserted_at(sorted.drop_last(), span, k);
        assert(sorted.insert(k, span) =~= sorted.drop_last().insert(k, span).push(sorted.last()));
    }
}

/// The lines that have not ended at `position`, ordered by start; lines of
/// equal start keep their given order.
pub fn upcoming_lines(lines: &[TimedLine], position: u128) -> (sorted: Vec<TimedLine>)
    ensures
        spans_of(sorted@) == sorted_by_start(upcoming(spans_of(lines@), position as int)),
{
    let mut sorted: Vec<TimedLine> = Vec::new();
    let mut i: usize = 0;
    proof {
        reveal(Seq::filter);
        assert(spans_of(lines@).take(0) =~= Seq::empty());
    }
    while i < lines.len()
        invariant
            i <= lines.len(),
            spans_of(sorted@) == sorted_by_start(
                upcoming(spans_of(lines@).take(i as int), position as int),
            ),
        decreases lines.len() - i,
    {
        let line = &lines[i];
        let ghost all = spans_of(lines@);
        let ghost kept = upcoming(all.take(i as int), position as int);
        proof {
            reveal(Seq::filter);
            assert(all.take(i + 1).drop_last() =~= all.take(i as int));
            assert(all.take(i + 1).last() == line@);
        }
        if line.end_time > position {
            let mut k: usize = sorted.len();
            while k > 0 && sorted[k - 1].start_time > line.start_time
                invariant
                    k <= sorted.len(),
                    forall|j: int| k <= j < sorted.len() ==> sorted@[j].start_time > line.start_time,
                decreases k,
            {
                k -= 1;
            }
            let ghost before = sorted@;
            proof {
                assert(upcoming(all.take(i + 1), position as int) == kept.push(line@));
                assert(kept.push(line@).drop_last() =~= kept);
                lemma_inserted_at(spans_of(before), line@, k as int);
            }
            sorted.insert(
                k,
                TimedLine {
                    text: line.text.clone(),
                    start_time: line.start_time,
                    end_time: line.end_time,
                },
            );
            proof {
                assert(spans_of(sorted@) =~= spans_of(before).insert(k as int, line@));
            }
        }
        i += 1;
    }
    proof {
        assert(spans_of(lines@).take(lines.len() as int) =~= spans_of(lines@));
    }
    sorted
}

/// `time` is the time that `slot` holds; `None` holds a time later than every
/// time that fits in a `u128`.
spec fn holds_time(slot: Option<u128>, time: int) -> bool {
    match slot {
        Some(t) => time == t,
        None => time > u128::MAX,
    }
}

/// Whether `start` lies before the time that `slot` holds.
fn starts_before(start: u128, slot: Option<u128>) -> (before: bool)
    ensures
        forall|time: int| holds_time(slot, time) ==> before == (start < time),
{
    match slot {
        Some(t) => start < t,
        None => true,
    }
}

/// The texts of the lines from index `from` up to `to`, joined by `separator`.
fn join_line_texts(lines: &Vec<TimedLine>, from: usize, to: usize, separator: &str) -> (out: String)
    requires
        from <= to <= lines.len(),
    ensures
        out@ == joined(texts_of(spans_of(lines@).subrange(from as int, to as int)), separator@),
{
    let mut out = String::new();
    let mut k: usize = from;
    let ghost texts = texts_of(spans_of(lines@).subrange(from as int, to as int));
    while k < to
        invariant
            from <= k <= to <= lines.len(),
            texts == texts_of(spans_of(lines@).subrange(from as int, to as int)),
            out@ == joined(texts.take(k - from), separator@),
        decreases to - k,
    {
        let ghost before = texts.take(k - from);
        let ghost after = texts.take(k - from + 1);
        proof {
            assert(after.drop_last() =~= before);
            assert(after.last() == lines@[k as int].text@);
        }
        if k > from {
            out.append(separator);
        }
        out.append(lines[k].text.as_str());
        proof {
            if k == from {
                assert(out@ =~= after[0]);
            } else {
                assert(out@ =~= joined(before, separator@) + separator@ + after.last());
            }
        }
        k += 1;
    }
    proof {
        assert(texts.take(to - from) =~= texts);
    }
    out
}

/// Plans the queue of updates for `lines`, taken in their given order, from
/// `position`: [`planned`]. The queue shows the groups of [`grouped`], each
/// with its texts joined in their order, and its updates are at least
/// `interval` apart.
pub fn plan_updates(lines: &Vec<TimedLine>, position: u128, interval: u128, separator: &str) -> (queue:
    VecDeque<ScheduledUpdate>)
    ensures
        updates_of(queue@) == planned(
            spans_of(lines@),
            position as int,
            interval as int,
            separator@,
        ),
        updates_of(queue@) == updates_of_groups(
            grouped(spans_of(lines@), position as int, interval as int),
            separator@,
        ),
        spaced(updates_of(queue@), interval as int),
{
    proof {
        lemma_planned_is_grouped(spans_of(lines@), position as int, interval as int, separator@);
        lemma_planned_spaced(spans_of(lines@), position as int, interval as int, separator@);
    }
    let mut queue: VecDeque<ScheduledUpdate> = VecDeque::new();
    let mut next_available: Option<u128> = Some(position);
    let ghost spans = spans_of(lines@);
    let ghost mut available: int = position as int;
    let mut i: usize = 0;
    proof {
        assert(updates_of(queue@) =~= Seq::empty());
    }
    while i < lines.len()
        invariant
            i <= lines.len(),
            spans == spans_of(lines@),
            holds_time(next_available, available),
            planned_from(
                spans,
                i as int,
                available,
                updates_of(queue@),
                interval as int,
                separator@,
            ) == planned(spans, position as int, interval as int, separator@),
        decreases lines.len() - i,
    {
        let line = &lines[i];
        let ghost before = updates_of(queue@);
        let free: bool = match next_available {
            Some(t) => t <= line.start_time,
            None => false,
        };
        if free {
            queue.push_back(
                ScheduledUpdate { display_time: line.start_time, text: line.text.clone() },
            );
            next_available = line.start_time.checked_add(interval);
            proof {
                assert(updates_of(queue@) =~= before.push(update_of(spans[i as int])));
                available = line.start_time + interval;
            }
            i += 1;
        } else {
            let mut end: usize = i + 1;
            while end < lines.len() && starts_before(lines[end].start_time, next_available)
                invariant
                    i + 1 <= end <= lines.len(),
                    spans == spans_of(lines@),
                    holds_time(next_available, available),
                    absorbed(spans, available, i + 1) == (end - (i + 1)) + absorbed(
                        spans,
                        available,
                        end as int,
                    ),
                decreases lines.len() - end,
            {
                end += 1;
            }
            let batch = join_line_texts(lines, i, end, separator);
            match queue.pop_back() {
                Some(last) => {
                    let mut text = last.text;
                    text.append(separator);
                    text.append(batch.as_str());
                    queue.push_back(ScheduledUpdate { display_time: last.display_time, text });
                    proof {
                        let merged = Update {
                            display_time: before.last().display_time,
                            text: before.last().text + separator@ + batch@,
                        };
                        assert(updates_of(queue@) =~= before.drop_last().push(merged));
                    }
                },
                None => {
                    queue.push_back(ScheduledUpdate { display_time: line.start_time, text: batch });
                    next_available = line.start_time.checked_add(interval);
                    proof {
                        let seed = Update { display_time: spans[i as int].start, text: batch@ };
                        assert(updates_of(queue@) =~= seq![seed]);
                        available = line.start_time + interval;
                    }
                },
            }
            i = end;
        }
    }
    queue
}

} // verus!
