//! What holds of every planned queue: the spacing of its updates, the number
//! of updates in any window of time, the order of the merged texts, and the
//! queue of a track whose lines lie far enough apart.

use crate::lyrics::{well_formed_spans, TimedSpan};
use crate::schedule::{
    absorbed, inserted_by_start, lemma_absorbed_fits, ordered_by_start, planned, planned_from,
    schedule_for, sorted_by_start, texts_of, upcoming, update_of, Update,
};
use crate::text::{joined, lemma_joined_concat};
use crate::tuning::{ceil_div, lemma_interval_covers_window, min_update_interval};
use vstd::prelude::*;

verus! {

/// Each update is shown at least `interval` after the update before it.
pub open spec fn spaced(queue: Seq<Update>, interval: int) -> bool {
    forall|k: int|
        0 <= k < queue.len() - 1 ==> (#[trigger] queue[k]).display_time + interval <= queue[k
            + 1].display_time
}

/// The display times never go down along the queue.
pub open spec fn non_decreasing(queue: Seq<Update>) -> bool {
    forall|a: int, b: int|
        0 <= a <= b < queue.len() ==> queue[a].display_time <= queue[b].display_time
}

/// The number of updates of `queue` that are shown in the window of `length`
/// that opens at `from`: at `from` or later, and before `from + length`.
pub open spec fn count_in_window(queue: Seq<Update>, from: int, length: int) -> nat
    decreases queue.len(),
{
    if queue.len() == 0 {
        0
    } else {
        let before = count_in_window(queue.drop_last(), from, length);
        if from <= queue.last().display_time < from + length {
            before + 1
        } else {
            before
        }
    }
}

proof fn lemma_planned_from_spaced(
    spans: Seq<TimedSpan>,
    i: int,
    next_available: int,
    queue: Seq<Update>,
    interval: int,
    separator: Seq<char>,
)
    requires
        interval >= 0,
        0 <= i <= spans.len(),
        spaced(queue, interval),
        queue.len() > 0 ==> next_available == queue.last().display_time + interval,
    ensures
        spaced(planned_from(spans, i, next_available, queue, interval, separator), interval),
    decreases spans.len() - i,
{
    if i < spans.len() {
        if next_available <= spans[i].start {
            let next = queue.push(update_of(spans[i]));
            assert forall|k: int| 0 <= k < next.len() - 1 implies (#[trigger] next[k]).display_time
                + interval <= next[k + 1].display_time by {
                if k < queue.len() - 1 {
                    assert(next[k] == queue[k]);
                    assert(next[k + 1] == queue[k + 1]);
                }
            }
            lemma_planned_from_spaced(
                spans,
                i + 1,
                spans[i].start + interval,
                next,
                interval,
                separator,
            );
        } else {
            lemma_absorbed_fits(spans, next_available, i + 1);
            let end = i + 1 + absorbed(spans, next_available, i + 1);
            let batch = joined(texts_of(spans.subrange(i, end)), separator);
            if queue.len() > 0 {
                let merged = Update {
                    display_time: queue.last().display_time,
                    text: queue.last().text + separator + batch,
                };
                let next = queue.drop_last().push(merged);
                assert forall|k: int| 0 <= k < next.len() - 1 implies (
                #[trigger] next[k]).display_time + interval <= next[k + 1].display_time by {
                    assert(next[k] == queue[k]);
                    assert(next[k + 1].display_time == queue[k + 1].display_time);
                }
                lemma_planned_from_spaced(spans, end, next_available, next, interval, separator);
            } else {
                let seed = Update { display_time: spans[i].start, text: batch };
                lemma_planned_from_spaced(
                    spans,
                    end,
                    spans[i].start + interval,
                    seq![seed],
                    interval,
                    separator,
                );
            }
        }
    }
}

/// The minimum spacing: in a planned queue each update is shown at least
/// `interval` after the update before it, whatever the spans and the position.
pub proof fn lemma_planned_spaced(
    spans: Seq<TimedSpan>,
    position: int,
    interval: int,
    separator: Seq<char>,
)
    requires
        interval >= 0,
    ensures
        spaced(planned(spans, position, interval, separator), interval),
{
    lemma_planned_from_spaced(spans, 0, position, Seq::empty(), interval, separator);
}

/// In a spaced queue, the update at index `b` is shown at least `b - a`
/// intervals after the update at index `a`.
pub proof fn lemma_spaced_apart(queue: Seq<Update>, interval: int, a: int, b: int)
    requires
        spaced(queue, interval),
        0 <= a <= b < queue.len(),
    ensures
        queue[a].display_time + (b - a) * interval <= queue[b].display_time,
    decreases b - a,
{
    if a < b {
        lemma_spaced_apart(queue, interval, a, b - 1);
        assert(queue[b - 1].display_time + interval <= queue[b].display_time);
        assert((b - a) * interval == (b - 1 - a) * interval + interval) by (nonlinear_arith);
    } else {
        assert((b - a) * interval == 0) by (nonlinear_arith)
            requires
                b - a == 0,
        ;
    }
}

/// The display times of a spaced queue never go down.
pub proof fn lemma_spaced_non_decreasing(queue: Seq<Update>, interval: int)
    requires
        interval >= 0,
        spaced(queue, interval),
    ensures
        non_decreasing(queue),
{
    assert forall|a: int, b: int| 0 <= a <= b < queue.len() implies queue[a].display_time
        <= queue[b].display_time by {
        lemma_spaced_apart(queue, interval, a, b);
        assert((b - a) * interval >= 0) by (nonlinear_arith)
            requires
                b - a >= 0,
                interval >= 0,
        ;
    }
}

/// The display times of a planned queue never go down.
pub proof fn lemma_planned_non_decreasing(
    spans: Seq<TimedSpan>,
    position: int,
    interval: int,
    separator: Seq<char>,
)
    requires
        interval >= 0,
    ensures
        non_decreasing(planned(spans, position, interval, separator)),
{
    lemma_planned_spaced(spans, position, interval, separator);
    lemma_spaced_non_decreasing(planned(spans, position, interval, separator), interval);
}

/// Where a window holds updates of a spaced queue, one of them is shown at
/// least one interval less than their number after the window opens.
proof fn lemma_window_reach(queue: Seq<Update>, interval: int, from: int, length: int) -> (j: int)
    requires
        interval >= 0,
        spaced(queue, interval),
        count_in_window(queue, from, length) > 0,
    ensures
        0 <= j < queue.len(),
        from <= queue[j].display_time < from + length,
        queue[j].display_time >= from + (count_in_window(queue, from, length) - 1) * interval,
    decreases queue.len(),
{
    let rest = queue.drop_last();
    let last = queue.last();
    let before = count_in_window(rest, from, length);
    assert(spaced(rest, interval)) by {
        assert forall|k: int| 0 <= k < rest.len() - 1 implies (#[trigger] rest[k]).display_time
            + interval <= rest[k + 1].display_time by {
            assert(rest[k] == queue[k]);
            assert(rest[k + 1] == queue[k + 1]);
        }
    }
    if from <= last.display_time < from + length {
        let count = before + 1;
        assert(count_in_window(queue, from, length) == count);
        if before > 0 {
            let j = lemma_window_reach(rest, interval, from, length);
            assert(rest[j] == queue[j]);
            let steps = queue.len() - 1 - j;
            lemma_spaced_apart(queue, interval, j, queue.len() - 1);
            assert(steps * interval >= interval) by (nonlinear_arith)
                requires
                    steps >= 1,
                    interval >= 0,
            ;
            assert((count - 1) * interval == (before - 1) * interval + interval)
                by (nonlinear_arith)
                requires
                    count == before + 1,
            ;
        } else {
            assert((count - 1) * interval == 0) by (nonlinear_arith)
                requires
                    count - 1 == 0,
            ;
        }
        queue.len() - 1
    } else {
        let j = lemma_window_reach(rest, interval, from, length);
        assert(rest[j] == queue[j]);
        j
    }
}

/// In a spaced queue, no window of time holds more updates than its length
/// divided by the interval, rounded up.
pub proof fn lemma_spaced_window_count(queue: Seq<Update>, interval: int, from: int, length: int)
    requires
        interval > 0,
        length >= 0,
        spaced(queue, interval),
    ensures
        count_in_window(queue, from, length) <= ceil_div(length, interval),
{
    let count = count_in_window(queue, from, length) as int;
    if count > 0 {
        let j = lemma_window_reach(queue, interval, from, length);
        assert((count - 1) * interval < length);
        assert(count <= ceil_div(length, interval)) by (nonlinear_arith)
            requires
                (count - 1) * interval < length,
                interval > 0,
                ceil_div(length, interval) == if length % interval == 0 {
                    length / interval
                } else {
                    length / interval + 1
                },
        ;
    } else {
        assert(ceil_div(length, interval) >= 0) by (nonlinear_arith)
            requires
                length >= 0,
                interval > 0,
                ceil_div(length, interval) == if length % interval == 0 {
                    length / interval
                } else {
                    length / interval + 1
                },
        ;
    }
}

/// Updates that are spaced by the interval of a rate limit keep the limit: no
/// window of the length of the rate-limit window, wherever it opens, holds
/// more updates than the limit allows.
pub proof fn lemma_spaced_keeps_rate_limit(
    queue: Seq<Update>,
    window: nat,
    max_updates: nat,
    from: int,
)
    requires
        max_updates >= 1,
        window <= u128::MAX,
        spaced(queue, min_update_interval(window, max_updates) as int),
    ensures
        count_in_window(queue, from, window as int) <= max_updates,
{
    let interval = min_update_interval(window, max_updates) as int;
    lemma_interval_covers_window(window, max_updates);
    if window == 0 {
        lemma_empty_window(queue, from);
    } else {
        let count = count_in_window(queue, from, window as int) as int;
        if count > 0 {
            let j = lemma_window_reach(queue, interval, from, window as int);
            assert(count <= max_updates) by (nonlinear_arith)
                requires
                    (count - 1) * interval < window,
                    interval * max_updates >= window || interval == u128::MAX,
                    window <= u128::MAX,
                    interval > 0,
                    max_updates >= 1,
            ;
        }
    }
}

/// A window without length holds no update.
proof fn lemma_empty_window(queue: Seq<Update>, from: int)
    ensures
        count_in_window(queue, from, 0) == 0,
    decreases queue.len(),
{
    if queue.len() > 0 {
        lemma_empty_window(queue.drop_last(), from);
    }
}

/// The update budget: whatever the lines of the track and the position, no
/// window of time, wherever it opens, holds more updates of the schedule than
/// its length divided by the minimum interval, rounded up.
pub proof fn lemma_schedule_keeps_budget(
    lines: Seq<TimedSpan>,
    position: int,
    interval: int,
    separator: Seq<char>,
    from: int,
    length: int,
)
    requires
        interval > 0,
        length >= 0,
    ensures
        spaced(schedule_for(lines, position, interval, separator), interval),
        count_in_window(schedule_for(lines, position, interval, separator), from, length)
            <= ceil_div(length, interval),
{
    let sorted = sorted_by_start(upcoming(lines, position));
    lemma_planned_spaced(sorted, position, interval, separator);
    lemma_spaced_window_count(
        planned(sorted, position, interval, separator),
        interval,
        from,
        length,
    );
}

/// The update that shows a group of spans: at the start of the first span, the
/// texts of the spans in their order, joined by `separator`.
pub open spec fn update_of_group(group: Seq<TimedSpan>, separator: Seq<char>) -> Update {
    Update { display_time: group[0].start, text: joined(texts_of(group), separator) }
}

/// The updates that show the groups, in the order of the groups.
pub open spec fn updates_of_groups(groups: Seq<Seq<TimedSpan>>, separator: Seq<char>) -> Seq<
    Update,
> {
    Seq::new(groups.len(), |k: int| update_of_group(groups[k], separator))
}

/// The time from which on the update anchored at span `anchor` takes in no
/// further span: the later one of `position` and the start of the anchor plus
/// `interval`.
pub open spec fn group_threshold(
    spans: Seq<TimedSpan>,
    position: int,
    interval: int,
    anchor: int,
) -> int {
    if position > spans[anchor].start + interval {
        position
    } else {
        spans[anchor].start + interval
    }
}

/// The groups into which the spans fall, from span `anchor` on. A group is
/// anchored at its first span and takes in the spans behind it up to the first
/// one that starts at [`group_threshold`] or later; that one anchors the next
/// group.
pub open spec fn grouped_from(
    spans: Seq<TimedSpan>,
    position: int,
    interval: int,
    anchor: int,
) -> Seq<Seq<TimedSpan>>
    decreases spans.len() - anchor,
    via grouped_from_terminates
{
    if anchor < 0 || anchor >= spans.len() {
        Seq::empty()
    } else {
        let threshold = group_threshold(spans, position, interval, anchor);
        let end = anchor + 1 + absorbed(spans, threshold, anchor + 1);
        seq![spans.subrange(anchor, end)] + grouped_from(spans, position, interval, end)
    }
}

#[via_fn]
proof fn grouped_from_terminates(
    spans: Seq<TimedSpan>,
    position: int,
    interval: int,
    anchor: int,
) {
    if 0 <= anchor < spans.len() {
        lemma_absorbed_fits(
            spans,
            group_threshold(spans, position, interval, anchor),
            anchor + 1,
        );
    }
}

/// The groups into which the spans fall.
pub open spec fn grouped(spans: Seq<TimedSpan>, position: int, interval: int) -> Seq<
    Seq<TimedSpan>,
> {
    grouped_from(spans, position, interval, 0)
}

/// A run ends at the first span that starts at the threshold or later.
proof fn lemma_absorbed_run(spans: Seq<TimedSpan>, threshold: int, from: int)
    requires
        0 <= from <= spans.len(),
    ensures
        from + absorbed(spans, threshold, from) <= spans.len(),
        forall|j: int|
            from <= j < from + absorbed(spans, threshold, from) ==> (#[trigger] spans[j]).start
                < threshold,
        from + absorbed(spans, threshold, from) < spans.len() ==> spans[from + absorbed(
            spans,
            threshold,
            from,
        )].start >= threshold,
    decreases spans.len() - from,
{
    if from < spans.len() && spans[from].start < threshold {
        lemma_absorbed_run(spans, threshold, from + 1);
    }
}

/// A run that takes in every span up to `mid` goes on from `mid`.
proof fn lemma_absorbed_skip(spans: Seq<TimedSpan>, threshold: int, from: int, mid: int)
    requires
        0 <= from <= mid <= spans.len(),
        forall|j: int| from <= j < mid ==> (#[trigger] spans[j]).start < threshold,
    ensures
        absorbed(spans, threshold, from) == (mid - from) + absorbed(spans, threshold, mid),
    decreases mid - from,
{
    if from < mid {
        assert(spans[from].start < threshold);
        lemma_absorbed_skip(spans, threshold, from + 1, mid);
    }
}

/// The groups put end to end give the spans from `anchor` on, and none is empty.
proof fn lemma_grouped_from_covers(
    spans: Seq<TimedSpan>,
    position: int,
    interval: int,
    anchor: int,
)
    requires
        0 <= anchor <= spans.len(),
    ensures
        grouped_from(spans, position, interval, anchor).flatten() == spans.skip(anchor),
        forall|k: int|
            0 <= k < grouped_from(spans, position, interval, anchor).len() ==> (
            #[trigger] grouped_from(spans, position, interval, anchor)[k]).len() > 0,
    decreases spans.len() - anchor,
{
    if anchor < spans.len() {
        let threshold = group_threshold(spans, position, interval, anchor);
        lemma_absorbed_fits(spans, threshold, anchor + 1);
        let end = anchor + 1 + absorbed(spans, threshold, anchor + 1);
        let first = spans.subrange(anchor, end);
        let rest = grouped_from(spans, position, interval, end);
        lemma_grouped_from_covers(spans, position, interval, end);
        let all = seq![first] + rest;
        assert(all.first() == first);
        assert(all.drop_first() =~= rest);
        assert(all.flatten() =~= first + rest.flatten());
        assert(first + spans.skip(end) =~= spans.skip(anchor));
        assert forall|k: int| 0 <= k < all.len() implies (#[trigger] all[k]).len() > 0 by {
            if k > 0 {
                assert(all[k] == rest[k - 1]);
            }
        }
    } else {
        assert(spans.skip(anchor) =~= Seq::<TimedSpan>::empty());
    }
}

/// From a span that gets an update of its own, the pass makes the groups.
proof fn lemma_planned_from_anchor(
    spans: Seq<TimedSpan>,
    position: int,
    interval: int,
    separator: Seq<char>,
    anchor: int,
    next_available: int,
    queue: Seq<Update>,
)
    requires
        interval >= 0,
        0 <= anchor <= spans.len(),
        anchor < spans.len() ==> next_available <= spans[anchor].start && position
            <= spans[anchor].start,
    ensures
        planned_from(spans, anchor, next_available, queue, interval, separator) == queue
            + updates_of_groups(grouped_from(spans, position, interval, anchor), separator),
    decreases spans.len() - anchor,
{
    reveal_with_fuel(planned_from, 2);
    if anchor >= spans.len() {
        assert(queue + updates_of_groups(Seq::empty(), separator) =~= queue);
    } else {
        let own = queue.push(update_of(spans[anchor]));
        let free = spans[anchor].start + interval;
        assert(group_threshold(spans, position, interval, anchor) == free);
        lemma_absorbed_run(spans, free, anchor + 1);
        let end = anchor + 1 + absorbed(spans, free, anchor + 1);
        let group = spans.subrange(anchor, end);
        let rest = grouped_from(spans, position, interval, end);
        let groups = seq![group] + rest;
        assert(grouped_from(spans, position, interval, anchor) == groups);
        let shown = update_of_group(group, separator);
        assert(queue + updates_of_groups(groups, separator) =~= queue.push(shown)
            + updates_of_groups(rest, separator)) by {
            assert forall|k: int| 0 < k < groups.len() implies groups[k] == rest[k - 1] by {}
        }
        if end == anchor + 1 {
            assert(texts_of(group) =~= seq![spans[anchor].text]);
            assert(shown == update_of(spans[anchor]));
            lemma_planned_from_anchor(spans, position, interval, separator, end, free, own);
        } else {
            assert(spans[anchor + 1].start < free);
            let batch = spans.subrange(anchor + 1, end);
            assert(absorbed(spans, free, anchor + 1) == 1 + absorbed(spans, free, anchor + 2));
            let merged = Update {
                display_time: own.last().display_time,
                text: own.last().text + separator + joined(texts_of(batch), separator),
            };
            assert(texts_of(group) =~= seq![spans[anchor].text] + texts_of(batch));
            lemma_joined_concat(seq![spans[anchor].text], texts_of(batch), separator);
            assert(merged == shown);
            assert(own.drop_last().push(merged) =~= queue.push(shown));
            lemma_planned_from_anchor(
                spans,
                position,
                interval,
                separator,
                end,
                free,
                queue.push(shown),
            );
        }
    }
}

/// Where the updates of a planned queue begin and end. Whatever the spans and
/// the position, the planned queue shows the groups of [`grouped`], one
/// update for each group and in their order: an update is shown at the start of
/// the span that anchors its group and carries the texts of the group, joined in
/// their order. The groups put end to end are the spans, and none is empty.
pub proof fn lemma_planned_is_grouped(
    spans: Seq<TimedSpan>,
    position: int,
    interval: int,
    separator: Seq<char>,
)
    requires
        interval >= 0,
    ensures
        planned(spans, position, interval, separator) == updates_of_groups(
            grouped(spans, position, interval),
            separator,
        ),
        grouped(spans, position, interval).flatten() == spans,
        forall|k: int|
            0 <= k < grouped(spans, position, interval).len() ==> (#[trigger] grouped(
                spans,
                position,
                interval,
            )[k]).len() > 0,
{
    reveal_with_fuel(planned_from, 2);
    lemma_grouped_from_covers(spans, position, interval, 0);
    assert(spans.skip(0) =~= spans);
    let empty = Seq::<Update>::empty();
    if spans.len() == 0 {
        assert(updates_of_groups(Seq::empty(), separator) =~= empty);
    } else if position <= spans[0].start {
        lemma_planned_from_anchor(spans, position, interval, separator, 0, position, empty);
        assert(empty + updates_of_groups(grouped(spans, position, interval), separator)
            =~= updates_of_groups(grouped(spans, position, interval), separator));
    } else {
        // The spans that started before the position seed the first update.
        lemma_absorbed_run(spans, position, 1);
        let seeded: int = 1int + absorbed(spans, position, 1);
        let free = spans[0].start + interval;
        let threshold = group_threshold(spans, position, interval, 0);
        let seed = Update {
            display_time: spans[0].start,
            text: joined(texts_of(spans.subrange(0, seeded)), separator),
        };
        lemma_absorbed_run(spans, threshold, 1);
        let end: int = 1int + absorbed(spans, threshold, 1);
        let group = spans.subrange(0, end);
        let rest = grouped_from(spans, position, interval, end);
        let groups = seq![group] + rest;
        assert(grouped(spans, position, interval) == groups);
        let shown = update_of_group(group, separator);
        assert(updates_of_groups(groups, separator) =~= seq![shown] + updates_of_groups(
            rest,
            separator,
        )) by {
            assert forall|k: int| 0 < k < groups.len() implies groups[k] == rest[k - 1] by {}
        }
        assert forall|j: int| 1 <= j < seeded implies (#[trigger] spans[j]).start < threshold by {}
        lemma_absorbed_skip(spans, threshold, 1, seeded);
        if seeded >= spans.len() {
            assert(end == seeded);
            assert(seed == shown);
            lemma_planned_from_anchor(spans, position, interval, separator, end, free, seq![seed]);
        } else if free <= spans[seeded].start {
            assert(end == seeded);
            assert(seed == shown);
            lemma_planned_from_anchor(spans, position, interval, separator, end, free, seq![seed]);
        } else {
            assert(threshold == free);
            lemma_absorbed_run(spans, free, seeded + 1);
            let merged_end: int = seeded + 1 + absorbed(spans, free, seeded + 1);
            assert(absorbed(spans, free, seeded) == 1 + absorbed(spans, free, seeded + 1));
            assert(end == merged_end);
            let head = spans.subrange(0, seeded);
            let batch = spans.subrange(seeded, end);
            let merged = Update {
                display_time: seed.display_time,
                text: seed.text + separator + joined(texts_of(batch), separator),
            };
            assert(texts_of(group) =~= texts_of(head) + texts_of(batch));
            lemma_joined_concat(texts_of(head), texts_of(batch), separator);
            assert(merged == shown);
            assert(seq![seed].drop_last().push(merged) =~= seq![shown]);
            lemma_planned_from_anchor(
                spans,
                position,
                interval,
                separator,
                end,
                free,
                seq![shown],
            );
        }
    }
}

/// Merging keeps the order of time. The schedule of a track shows the groups
/// of the lines that have not ended, ordered by start: each update carries the
/// texts of the lines of its group, joined in that order, and the groups put
/// end to end are those lines in that order.
pub proof fn lemma_schedule_keeps_text_order(
    lines: Seq<TimedSpan>,
    position: int,
    interval: int,
    separator: Seq<char>,
)
    requires
        interval >= 0,
    ensures
        schedule_for(lines, position, interval, separator) == updates_of_groups(
            grouped(sorted_by_start(upcoming(lines, position)), position, interval),
            separator,
        ),
        grouped(sorted_by_start(upcoming(lines, position)), position, interval).flatten()
            == sorted_by_start(upcoming(lines, position)),
        ordered_by_start(sorted_by_start(upcoming(lines, position))),
{
    let sorted = sorted_by_start(upcoming(lines, position));
    lemma_sorted_is_ordered(upcoming(lines, position));
    lemma_planned_is_grouped(sorted, position, interval, separator);
}

/// Where [`inserted_by_start`] puts a span: behind the last span that starts
/// no later, and before the spans behind that one, which all start later.
pub proof fn lemma_inserted_position(sorted: Seq<TimedSpan>, span: TimedSpan) -> (k: int)
    ensures
        0 <= k <= sorted.len(),
        inserted_by_start(sorted, span) == sorted.insert(k, span),
        forall|j: int| k <= j < sorted.len() ==> sorted[j].start > span.start,
        k > 0 ==> sorted[k - 1].start <= span.start,
    decreases sorted.len(),
{
    if sorted.len() == 0 {
        assert(sorted.insert(0, span) =~= seq![span]);
        0
    } else if sorted.last().start <= span.start {
        assert(sorted.insert(sorted.len() as int, span) =~= sorted.push(span));
        sorted.len() as int
    } else {
        let rest = sorted.drop_last();
        let k = lemma_inserted_position(rest, span);
        assert(sorted.insert(k, span) =~= rest.insert(k, span).push(sorted.last()));
        assert forall|j: int| k <= j < sorted.len() implies sorted[j].start > span.start by {
            if j < rest.len() {
                assert(rest[j] == sorted[j]);
            }
        }
        if k > 0 {
            assert(rest[k - 1] == sorted[k - 1]);
        }
        k
    }
}

/// Sorting orders the spans by start.
pub proof fn lemma_sorted_is_ordered(spans: Seq<TimedSpan>)
    ensures
        ordered_by_start(sorted_by_start(spans)),
        sorted_by_start(spans).len() == spans.len(),
    decreases spans.len(),
{
    if spans.len() > 0 {
        let rest = sorted_by_start(spans.drop_last());
        lemma_sorted_is_ordered(spans.drop_last());
        let k = lemma_inserted_position(rest, spans.last());
        let out = rest.insert(k, spans.last());
        assert forall|i: int, j: int| 0 <= i <= j < out.len() implies out[i].start
            <= out[j].start by {
            if j < k {
                assert(out[i] == rest[i] && out[j] == rest[j]);
            } else if j == k {
                if i < k {
                    assert(out[i] == rest[i]);
                    assert(rest[i].start <= rest[k - 1].start);
                }
            } else {
                assert(out[j] == rest[j - 1]);
                if i < k {
                    assert(out[i] == rest[i]);
                } else if i > k {
                    assert(out[i] == rest[i - 1]);
                }
            }
        }
    }
}

/// Sorting keeps, for each start time, the spans that start then, and keeps
/// them in their given order: no span is lost, none is added, and spans of
/// equal start are not swapped.
pub proof fn lemma_sorted_is_stable(spans: Seq<TimedSpan>, start: nat)
    ensures
        sorted_by_start(spans).filter(|s: TimedSpan| s.start == start) == spans.filter(
            |s: TimedSpan| s.start == start,
        ),
    decreases spans.len(),
{
    let at = |s: TimedSpan| s.start == start;
    reveal(Seq::filter);
    if spans.len() > 0 {
        let rest = sorted_by_start(spans.drop_last());
        let last = spans.last();
        lemma_sorted_is_stable(spans.drop_last(), start);
        let k = lemma_inserted_position(rest, last);
        let head = rest.take(k);
        let tail = rest.skip(k);
        assert(rest =~= head + tail);
        assert(rest.insert(k, last) =~= head.push(last) + tail);
        Seq::filter_distributes_over_add(head, tail, at);
        Seq::filter_distributes_over_add(head.push(last), tail, at);
        assert(head.push(last).drop_last() =~= head);
        if last.start == start {
            assert(tail.filter(at) =~= Seq::empty()) by {
                if tail.filter(at).len() > 0 {
                    tail.lemma_filter_pred(at, 0);
                    let x = tail.filter(at)[0];
                    assert(tail.filter(at).contains(x));
                    tail.lemma_filter_contains_rev(at, x);
                    let j = choose|j: int| 0 <= j < tail.len() && tail[j] == x;
                    assert(tail[j] == rest[k + j]);
                }
            }
            assert(rest.filter(at) =~= head.filter(at));
            assert(rest.insert(k, last).filter(at) =~= head.filter(at).push(last));
        } else {
            assert(rest.insert(k, last).filter(at) =~= rest.filter(at));
        }
    }
}

/// A sequence that is ordered by start is left as it is.
pub proof fn lemma_sorted_of_ordered(spans: Seq<TimedSpan>)
    requires
        ordered_by_start(spans),
    ensures
        sorted_by_start(spans) == spans,
    decreases spans.len(),
{
    if spans.len() > 0 {
        let rest = spans.drop_last();
        assert(ordered_by_start(rest)) by {
            assert forall|i: int, j: int| 0 <= i <= j < rest.len() implies rest[i].start
                <= rest[j].start by {
                assert(rest[i] == spans[i] && rest[j] == spans[j]);
            }
        }
        lemma_sorted_of_ordered(rest);
        if rest.len() > 0 {
            assert(rest.last() == spans[spans.len() - 2]);
        }
        assert(inserted_by_start(rest, spans.last()) =~= spans);
    }
}

/// Each span has ended when the next one starts.
pub open spec fn non_overlapping(spans: Seq<TimedSpan>) -> bool {
    forall|i: int| 0 <= i < spans.len() - 1 ==> (#[trigger] spans[i]).end <= spans[i + 1].start
}

/// Each span starts at least `interval` after the one before it.
pub open spec fn starts_apart(spans: Seq<TimedSpan>, interval: int) -> bool {
    forall|i: int|
        0 <= i < spans.len() - 1 ==> (#[trigger] spans[i]).start + interval <= spans[i + 1].start
}

proof fn lemma_chronological(spans: Seq<TimedSpan>, a: int, b: int)
    requires
        well_formed_spans(spans),
        non_overlapping(spans),
        0 <= a <= b < spans.len(),
    ensures
        spans[a].start <= spans[b].start,
        spans[a].end <= spans[b].end,
        a < b ==> spans[a].end <= spans[b].start,
    decreases b - a,
{
    assert(spans[a].well_formed());
    assert(spans[b].well_formed());
    if a < b {
        lemma_chronological(spans, a, b - 1);
        assert(spans[b - 1].end <= spans[b].start);
        assert(spans[b - 1].well_formed());
    }
}

/// The index at which the spans that have not ended begin.
proof fn lemma_ended_prefix(spans: Seq<TimedSpan>, position: int) -> (k: int)
    requires
        well_formed_spans(spans),
        non_overlapping(spans),
    ensures
        0 <= k <= spans.len(),
        upcoming(spans, position) == spans.skip(k),
        forall|i: int| k <= i < spans.len() ==> spans[i].end > position,
    decreases spans.len(),
{
    reveal(Seq::filter);
    if spans.len() == 0 {
        assert(spans.skip(0) =~= spans);
        0
    } else {
        let rest = spans.drop_last();
        assert(well_formed_spans(rest)) by {
            assert forall|i: int| 0 <= i < rest.len() implies (#[trigger] rest[i]).well_formed() by {
                assert(spans[i].well_formed());
            }
        }
        assert(non_overlapping(rest)) by {
            assert forall|i: int| 0 <= i < rest.len() - 1 implies (#[trigger] rest[i]).end
                <= rest[i + 1].start by {
                assert(spans[i].end <= spans[i + 1].start);
            }
        }
        let k = lemma_ended_prefix(rest, position);
        if spans.last().end > position {
            assert(rest.skip(k).push(spans.last()) =~= spans.skip(k));
            assert forall|i: int| k <= i < spans.len() implies spans[i].end > position by {
                if i < rest.len() {
                    assert(rest[i] == spans[i]);
                }
            }
            k
        } else {
            assert(k == rest.len()) by {
                if k < rest.len() {
                    lemma_chronological(spans, k, spans.len() - 1);
                    assert(rest[k] == spans[k]);
                }
            }
            assert(rest.skip(k) =~= spans.skip(spans.len() as int));
            spans.len() as int
        }
    }
}

proof fn lemma_planned_from_apart(
    spans: Seq<TimedSpan>,
    i: int,
    next_available: int,
    queue: Seq<Update>,
    interval: int,
    separator: Seq<char>,
)
    requires
        0 <= i <= spans.len(),
        starts_apart(spans, interval),
        i < spans.len() ==> next_available <= spans[i].start,
    ensures
        planned_from(spans, i, next_available, queue, interval, separator) == queue
            + spans.skip(i).map_values(|s: TimedSpan| update_of(s)),
    decreases spans.len() - i,
{
    let shown = |s: TimedSpan| update_of(s);
    if i < spans.len() {
        let next = queue.push(update_of(spans[i]));
        assert(spans[i].start + interval <= spans[i + 1].start || i + 1 >= spans.len());
        lemma_planned_from_apart(spans, i + 1, spans[i].start + interval, next, interval, separator);
        assert(next + spans.skip(i + 1).map_values(shown) =~= queue + spans.skip(i).map_values(
            shown,
        ));
    } else {
        assert(queue + spans.skip(i).map_values(shown) =~= queue);
    }
}

/// Without pressure every line has its own update. Where the lines of a track
/// are in order, none overlaps the next, and each starts at least `interval`
/// after the one before it, the schedule has exactly one update for each line
/// that has not ended at `position`, in the order of the lines: it is shown at
/// the start of the line and its text is the text of the line.
pub proof fn lemma_unpressured_schedule(
    lines: Seq<TimedSpan>,
    position: int,
    interval: int,
    separator: Seq<char>,
)
    requires
        interval >= 0,
        well_formed_spans(lines),
        non_overlapping(lines),
        starts_apart(lines, interval),
    ensures
        schedule_for(lines, position, interval, separator) == upcoming(lines, position).map_values(
            |s: TimedSpan| update_of(s),
        ),
{
    let shown = |s: TimedSpan| update_of(s);
    let k = lemma_ended_prefix(lines, position);
    let rest = lines.skip(k);
    assert(ordered_by_start(rest)) by {
        assert forall|i: int, j: int| 0 <= i <= j < rest.len() implies rest[i].start
            <= rest[j].start by {
            lemma_chronological(lines, k + i, k + j);
        }
    }
    lemma_sorted_of_ordered(rest);
    assert(starts_apart(rest, interval)) by {
        assert forall|i: int| 0 <= i < rest.len() - 1 implies (#[trigger] rest[i]).start + interval
            <= rest[i + 1].start by {
            assert(lines[k + i].start + interval <= lines[k + i + 1].start);
        }
    }
    let empty = Seq::<Update>::empty();
    if rest.len() == 0 {
        assert(rest.map_values(shown) =~= empty);
    } else if position <= rest[0].start {
        lemma_planned_from_apart(rest, 0, position, empty, interval, separator);
        assert(rest.skip(0) =~= rest);
        assert(empty + rest.map_values(shown) =~= rest.map_values(shown));
    } else {
        if rest.len() > 1 {
            assert(rest[0].end <= rest[1].start) by {
                lemma_chronological(lines, k, k + 1);
            }
            assert(rest[0].start + interval <= rest[1].start);
        }
        assert(absorbed(rest, position, 1) == 0);
        let batch = rest.subrange(0, 1);
        assert(texts_of(batch) =~= seq![rest[0].text]);
        let seed = Update { display_time: rest[0].start, text: joined(texts_of(batch), separator) };
        assert(seed == update_of(rest[0]));
        lemma_planned_from_apart(rest, 1, rest[0].start + interval, seq![seed], interval, separator);
        assert(seq![seed] + rest.skip(1).map_values(shown) =~= rest.map_values(shown));
    }
}

/// Where, beyond that, no line has ended at `position`, the schedule has
/// exactly one update for each line.
pub proof fn lemma_unpressured_schedule_whole(
    lines: Seq<TimedSpan>,
    position: int,
    interval: int,
    separator: Seq<char>,
)
    requires
        interval >= 0,
        well_formed_spans(lines),
        non_overlapping(lines),
        starts_apart(lines, interval),
        forall|i: int| 0 <= i < lines.len() ==> (#[trigger] lines[i]).end > position,
    ensures
        schedule_for(lines, position, interval, separator) == lines.map_values(
            |s: TimedSpan| update_of(s),
        ),
        schedule_for(lines, position, interval, separator).len() == lines.len(),
{
    lemma_unpressured_schedule(lines, position, interval, separator);
    lemma_all_upcoming(lines, position);
}

/// Where no span has ended, every span is upcoming.
proof fn lemma_all_upcoming(spans: Seq<TimedSpan>, position: int)
    requires
        forall|i: int| 0 <= i < spans.len() ==> (#[trigger] spans[i]).end > position,
    ensures
        upcoming(spans, position) == spans,
    decreases spans.len(),
{
    reveal(Seq::filter);
    if spans.len() > 0 {
        let rest = spans.drop_last();
        assert forall|i: int| 0 <= i < rest.len() implies (#[trigger] rest[i]).end > position by {
            assert(rest[i] == spans[i]);
        }
        lemma_all_upcoming(rest, position);
        assert(rest.push(spans.last()) =~= spans);
    }
}

} // verus!
