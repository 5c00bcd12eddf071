//! What holds of the rate limiter and of the delivery loop in every state.

use crate::discord::{offered, ActionView, LimiterView, LoopView};
use crate::latency::lemma_estimate_stays_clamped;
use crate::lyrics::TimedSpan;
use crate::rate::{lemma_recorded_keeps_bound, lemma_stale_prefix_fits, pruned};
use crate::schedule::{schedule_for, sorted_by_start, upcoming, Update};
use crate::schedule_laws::{
    count_in_window, lemma_planned_spaced, lemma_spaced_keeps_rate_limit,
    lemma_spaced_non_decreasing, non_decreasing,
};
use crate::spotify::{track_text, PlaybackView};
use crate::tuning::TuningView;
use vstd::prelude::*;

verus! {

/// A limiter stays well formed whatever is done with it: however the queue is
/// built, taken from or dropped, and whatever is asked and recorded.
pub proof fn lemma_limiter_stays_well_formed(
    limiter: LimiterView,
    lines: Seq<TimedSpan>,
    position: int,
    text: Seq<char>,
    round_trip: int,
    now: u128,
)
    requires
        limiter.well_formed(),
    ensures
        LimiterView::initial(limiter.tuning).well_formed(),
        LimiterView::initial(TuningView::standard()).well_formed(),
        limiter.built(lines, position).well_formed(),
        limiter.schedule.len() > 0 ==> limiter.popped().well_formed(),
        limiter.asked(text, now as int).well_formed(),
        limiter.delivered(text, round_trip, now).well_formed(),
        limiter.clear_delivered(round_trip, now).well_formed(),
        limiter.stopped().well_formed(),
        limiter.reset().well_formed(),
{
    let interval = limiter.tuning.min_update_interval() as int;
    lemma_planned_spaced(
        sorted_by_start(upcoming(lines, position)),
        position,
        interval,
        limiter.tuning.separator,
    );
    lemma_stale_prefix_fits(limiter.sent, now as int, limiter.tuning.window as int);
    lemma_recorded_keeps_bound(limiter.sent, now, limiter.tuning.max_updates as int);
    lemma_estimate_stays_clamped(limiter.estimator(), round_trip);
    if limiter.schedule.len() > 0 {
        let rest = limiter.schedule.drop_first();
        assert forall|k: int| 0 <= k < rest.len() - 1 implies (#[trigger] rest[k]).display_time
            + interval <= rest[k + 1].display_time by {
            assert(rest[k] == limiter.schedule[k + 1]);
            assert(rest[k + 1] == limiter.schedule[k + 2]);
        }
    }
}

/// The plan keeps the rate limit. In a well-formed limiter no window of the
/// length of the rate-limit window, wherever it opens, holds more updates of
/// the queue than the limit allows.
pub proof fn lemma_queue_keeps_rate_limit(limiter: LimiterView, from: int)
    requires
        limiter.well_formed(),
        limiter.tuning.window <= u128::MAX,
    ensures
        count_in_window(limiter.schedule, from, limiter.tuning.window as int)
            <= limiter.tuning.max_updates,
{
    lemma_spaced_keeps_rate_limit(
        limiter.schedule,
        limiter.tuning.window,
        limiter.tuning.max_updates,
        from,
    );
}

/// The queue of a well-formed limiter is in the order of time: the display
/// times never go down from the front to the back.
pub proof fn lemma_queue_in_order(limiter: LimiterView)
    requires
        limiter.well_formed(),
    ensures
        non_decreasing(limiter.schedule),
{
    lemma_spaced_non_decreasing(limiter.schedule, limiter.tuning.min_update_interval() as int);
}

/// After a reset, and after a stop, nothing that was queued before can come
/// out: no update is due, however far the position has moved, and no text
/// counts as sent last.
pub proof fn lemma_nothing_due_after_reset(limiter: LimiterView, position: int)
    ensures
        !limiter.reset().due(position),
        limiter.reset().schedule.len() == 0,
        limiter.reset().last_sent is None,
        !limiter.stopped().due(position),
        limiter.stopped().schedule.len() == 0,
        limiter.stopped().last_sent is None,
{
}

/// A send is asked for only where the rate window has room for it, and never
/// for the text that was sent last.
pub proof fn lemma_send_needs_capacity(limiter: LimiterView, text: Seq<char>, now: int)
    ensures
        offered(limiter, text, now).1 is Send ==> pruned(
            limiter.sent,
            now,
            limiter.tuning.window as int,
        ).len() < limiter.tuning.max_updates && limiter.last_sent != Some(text) && offered(
            limiter,
            text,
            now,
        ).1 == ActionView::Send(text),
        !(offered(limiter, text, now).1 is Clear),
{
}

/// At the tick at which the track changes, nothing of the old track is sent.
/// What the tick does is the same whatever was queued, sent last and measured
/// before. A text that is sent is that of the first update of the queue built
/// for the new lyrics, or, without lyrics, the text that stands for the new
/// track; what stays queued is the rest of that queue.
pub proof fn lemma_track_change_forgets(
    state: LoopView,
    playback: PlaybackView,
    now: int,
    queued: Seq<Update>,
    last_sent: Option<Seq<char>>,
    latency: nat,
)
    requires
        state.track_changed(playback),
    ensures
        state.ticked(Some(playback), now) == (LoopView {
            limiter: LimiterView { schedule: queued, last_sent, latency, ..state.limiter },
            ..state
        }).ticked(Some(playback), now),
        match playback.lyrics {
            Some(lines) => {
                let fresh = schedule_for(
                    lines,
                    playback.position as int,
                    state.limiter.tuning.min_update_interval() as int,
                    state.limiter.tuning.separator,
                );
                let after = state.ticked(Some(playback), now);
                &&& after.1 is Send ==> fresh.len() > 0 && after.1 == ActionView::Send(
                    fresh[0].text,
                )
                &&& after.0.limiter.schedule == fresh || (fresh.len() > 0
                    && after.0.limiter.schedule == fresh.drop_first())
            },
            None => {
                let after = state.ticked(Some(playback), now);
                &&& after.1 is Send ==> after.1 == ActionView::Send(track_text(playback.track))
                &&& after.0.limiter.schedule.len() == 0
            },
        },
{
}

/// Nothing is tried again. An update that is due leaves the queue at the tick
/// that finds it due, whether it is sent or not; an update that is not let
/// through is lost.
pub proof fn lemma_due_update_leaves_queue(
    state: LoopView,
    playback: PlaybackView,
    lines: Seq<TimedSpan>,
    now: int,
)
    requires
        playback.lyrics == Some(lines),
        !state.track_changed(playback),
        state.phase is ScheduleBuilt || state.phase is Draining,
        state.limiter.due(playback.position as int),
    ensures
        state.ticked(Some(playback), now).0.limiter.schedule == state.limiter.schedule.drop_first(),
        state.ticked(Some(playback), now).0.phase is Draining,
        state.ticked(Some(playback), now).1 == if state.limiter.popped().lets_through(
            state.limiter.schedule[0].text,
            now,
        ) {
            ActionView::Send(state.limiter.schedule[0].text)
        } else {
            ActionView::Wait
        },
{
}

/// The status is cleared once: the tick after a tick at which nothing played
/// waits, as long as nothing plays.
pub proof fn lemma_cleared_once(state: LoopView, now: int, later: int)
    ensures
        state.ticked(None, now).0.ticked(None, later) == (
            state.ticked(None, now).0,
            ActionView::Wait,
        ),
        state.ticked(None, now).1 is Clear <==> state.playing,
        state.ticked(None, now).1 is Clear ==> state.ticked(None, now).0.phase is Cleared
            && state.ticked(None, now).0.limiter == state.limiter.stopped(),
{
}

/// The phases follow one another as the delivery goes: a tick while a track
/// plays never leaves the loop cleared; with lyrics it leaves the queue built
/// or draining, and draining is left only by a change of track or a stop.
pub proof fn lemma_phases(state: LoopView, playback: PlaybackView, now: int)
    ensures
        !(state.ticked(Some(playback), now).0.phase is Cleared),
        state.ticked(Some(playback), now).0.playing,
        state.ticked(Some(playback), now).0.last_track_id == playback.track.id,
        playback.lyrics is Some ==> state.ticked(Some(playback), now).0.phase is ScheduleBuilt
            || state.ticked(Some(playback), now).0.phase is Draining,
        playback.lyrics is Some && state.phase is Draining && !state.track_changed(playback)
            ==> state.ticked(Some(playback), now).0.phase is Draining,
        playback.lyrics is None && state.track_changed(playback) ==> state.ticked(
            Some(playback),
            now,
        ).0.phase is Idle,
{
}

/// The limiter of the loop stays well formed through every tick and every
/// report of a delivery.
pub proof fn lemma_loop_stays_well_formed(
    state: LoopView,
    snapshot: Option<PlaybackView>,
    now: u128,
    text: Seq<char>,
    round_trip: int,
)
    requires
        state.limiter.well_formed(),
    ensures
        LoopView::initial(state.limiter.tuning).limiter.well_formed(),
        state.ticked(snapshot, now as int).0.limiter.well_formed(),
        state.sent(text, round_trip, now).limiter.well_formed(),
        state.cleared(round_trip, now).limiter.well_formed(),
{
    let empty = Seq::<TimedSpan>::empty();
    let none = Seq::<char>::empty();
    lemma_limiter_stays_well_formed(state.limiter, empty, 0, text, round_trip, now);
    match snapshot {
        None => {},
        Some(playback) => {
            let arrived = state.arrived(playback);
            lemma_limiter_stays_well_formed(state.limiter, empty, 0, none, 0, now);
            assert(arrived.limiter.well_formed());
            match playback.lyrics {
                Some(lines) => {
                    let position = playback.position as int;
                    lemma_limiter_stays_well_formed(arrived.limiter, lines, position, none, 0, now);
                    let prepared = arrived.prepared(lines, position);
                    assert(prepared.limiter.well_formed());
                    if prepared.limiter.due(position) {
                        let first = prepared.limiter.schedule[0].text;
                        lemma_limiter_stays_well_formed(
                            prepared.limiter,
                            empty,
                            0,
                            none,
                            0,
                            now,
                        );
                        lemma_limiter_stays_well_formed(
                            prepared.limiter.popped(),
                            empty,
                            0,
                            first,
                            0,
                            now,
                        );
                    }
                },
                None => {
                    lemma_limiter_stays_well_formed(
                        arrived.limiter,
                        empty,
                        0,
                        track_text(playback.track),
                        0,
                        now,
                    );
                },
            }
        },
    }
}

} // verus!
