//! Delivery of status updates under a rate limit, by default of three updates
//! in ten seconds.
//!
//! The [`RateLimiter`] holds the planned queue, the rate window, the latency
//! estimate and the text that was sent last. The [`StatusLoop`] decides at
//! each tick what is to be sent; whoever drives it sends that and reports how
//! it went.
//!
//! Positions are nanoseconds from the start of the track; `now` is a number of
//! nanoseconds on one clock that never runs backwards.

use crate::error::DyricsError;
use crate::latency::{EstimatorView, LatencyEstimator};
use crate::lyrics::{spans_of, TimedLine, TimedSpan};
use crate::rate::{RateWindow, WindowView};
use crate::schedule::{
    plan_updates, schedule_for, upcoming_lines, updates_of, ScheduledUpdate, Update,
};
use crate::schedule_laws::spaced;
use crate::spotify::{snapshot_of, track_text, CurrentPlayback, PlaybackView};
use crate::text::{copy_text, same_text, text_of};
use crate::tuning::{update_interval, Tuning, TuningView};
use std::collections::VecDeque;
use vstd::prelude::*;

verus! {

/// What a [`RateLimiter`] stands for.
pub struct LimiterView {
    /// The values that the limiter was made with.
    pub tuning: TuningView,
    /// The times of the last sends, oldest first.
    pub sent: Seq<u128>,
    /// The queue of updates, the next one first.
    pub schedule: Seq<Update>,
    /// The estimate of the one-way latency; zero as long as nothing was measured.
    pub latency: nat,
    /// The text that was sent last.
    pub last_sent: Option<Seq<char>>,
}

impl LimiterView {
    /// The rate window as the limiter holds it.
    pub open spec fn window(self) -> WindowView {
        WindowView {
            sent: self.sent,
            max_updates: self.tuning.max_updates,
            window: self.tuning.window,
        }
    }

    /// The latency estimator as the limiter holds it.
    pub open spec fn estimator(self) -> EstimatorView {
        EstimatorView {
            estimate: self.latency,
            min_ms: self.tuning.min_latency_ms,
            max_ms: self.tuning.max_latency_ms,
            smoothing_percent: self.tuning.smoothing_percent,
        }
    }

    /// The values can be used, no more sends are remembered than the window
    /// allows, the updates of the queue are at least the minimum interval
    /// apart, and the latency estimate is zero or within its clamp.
    pub open spec fn well_formed(self) -> bool {
        &&& self.tuning.well_formed()
        &&& self.window().well_formed()
        &&& spaced(self.schedule, self.tuning.min_update_interval() as int)
        &&& self.estimator().well_formed()
    }

    /// A limiter that has sent and planned nothing.
    pub open spec fn initial(tuning: TuningView) -> LimiterView {
        LimiterView {
            tuning,
            sent: Seq::empty(),
            schedule: Seq::empty(),
            latency: 0,
            last_sent: None,
        }
    }

    /// After the queue was built anew for `lines` at `position`.
    pub open spec fn built(self, lines: Seq<TimedSpan>, position: int) -> LimiterView {
        LimiterView {
            schedule: schedule_for(
                lines,
                position,
                self.tuning.min_update_interval() as int,
                self.tuning.separator,
            ),
            ..self
        }
    }

    /// Whether the next update is due at `position`: there is one, and it is to
    /// be shown no later than the position plus the latency estimate.
    pub open spec fn due(self, position: int) -> bool {
        self.schedule.len() > 0 && self.schedule[0].display_time <= position + self.latency
    }

    /// After the next update was taken from the queue.
    pub open spec fn popped(self) -> LimiterView {
        LimiterView { schedule: self.schedule.drop_first(), ..self }
    }

    /// Whether `text` is what was sent last.
    pub open spec fn repeats(self, text: Seq<char>) -> bool {
        self.last_sent == Some(text)
    }

    /// Whether an update with `text` goes out at `now`: it does not repeat
    /// what was sent last, and the rate window has capacity.
    pub open spec fn lets_through(self, text: Seq<char>, now: int) -> bool {
        !self.repeats(text) && self.window().has_capacity(now)
    }

    /// After the limiter was asked about `text` at `now`: the rate window was
    /// pruned, unless the text repeats what was sent last.
    pub open spec fn asked(self, text: Seq<char>, now: int) -> LimiterView {
        if self.repeats(text) {
            self
        } else {
            LimiterView { sent: self.window().pruned(now).sent, ..self }
        }
    }

    /// After an update with `text` was delivered: its round trip is taken
    /// into the latency estimate, the send is recorded at `now`, and `text` is
    /// what was sent last.
    pub open spec fn delivered(self, text: Seq<char>, round_trip: int, now: u128) -> LimiterView {
        LimiterView {
            sent: self.window().recorded(now).sent,
            latency: self.estimator().updated(round_trip).estimate,
            last_sent: Some(text),
            ..self
        }
    }

    /// After the clearing update was delivered: as [`Self::delivered`], but
    /// nothing counts as sent last.
    pub open spec fn clear_delivered(self, round_trip: int, now: u128) -> LimiterView {
        LimiterView {
            sent: self.window().recorded(now).sent,
            latency: self.estimator().updated(round_trip).estimate,
            ..self
        }
    }

    /// After playback stopped: the queue is empty and nothing counts as sent
    /// last.
    pub open spec fn stopped(self) -> LimiterView {
        LimiterView { schedule: Seq::empty(), last_sent: None, ..self }
    }

    /// After the track changed: the queue is empty, nothing counts as sent
    /// last, and the latency estimate is zero.
    pub open spec fn reset(self) -> LimiterView {
        LimiterView { schedule: Seq::empty(), last_sent: None, latency: 0, ..self }
    }
}

/// Rate limiter with lookahead batching for status updates.
#[derive(Debug)]
pub struct RateLimiter {
    /// Times of the recent updates within the rate limit window.
    timestamps: RateWindow,
    /// Scheduled updates queue.
    schedule: VecDeque<ScheduledUpdate>,
    /// Estimated one-way latency (for lookahead).
    latency_estimate: LatencyEstimator,
    /// Last sent text (to avoid duplicate sends).
    last_sent: Option<String>,
    /// Separator of the lines that are merged into one update.
    batch_separator: String,
}

impl View for RateLimiter {
    type V = LimiterView;

    closed spec fn view(&self) -> LimiterView {
        LimiterView {
            tuning: TuningView {
                window: self.timestamps@.window,
                max_updates: self.timestamps@.max_updates,
                separator: self.batch_separator@,
                min_latency_ms: self.latency_estimate@.min_ms,
                max_latency_ms: self.latency_estimate@.max_ms,
                smoothing_percent: self.latency_estimate@.smoothing_percent,
            },
            sent: self.timestamps@.sent,
            schedule: updates_of(self.schedule@),
            latency: self.latency_estimate@.estimate,
            last_sent: text_of(self.last_sent),
        }
    }
}

impl RateLimiter {
    /// Create a new rate limiter with the standard values.
    pub fn new() -> (limiter: RateLimiter)
        ensures
            limiter@ == LimiterView::initial(TuningView::standard()),
            limiter@.well_formed(),
    {
        RateLimiter::with_tuning(Tuning::standard())
    }

    /// Create a new rate limiter with values of one's own.
    pub fn with_tuning(tuning: Tuning) -> (limiter: RateLimiter)
        requires
            tuning@.well_formed(),
        ensures
            limiter@ == LimiterView::initial(tuning@),
            limiter@.well_formed(),
    {
        let limiter = RateLimiter {
            timestamps: RateWindow::with_limit(
                tuning.rate_limit_max_updates,
                tuning.rate_limit_window,
            ),
            schedule: VecDeque::new(),
            latency_estimate: LatencyEstimator::with_clamp(
                tuning.min_latency_ms,
                tuning.max_latency_ms,
                tuning.latency_smoothing_percent,
            ),
            last_sent: None,
            batch_separator: tuning.batch_separator,
        };
        proof {
            assert(updates_of(limiter.schedule@) =~= Seq::empty());
        }
        limiter
    }

    /// Get estimated latency for lookahead timing.
    pub fn latency(&self) -> (latency: u128)
        ensures
            latency == self@.latency,
    {
        self.latency_estimate.estimate()
    }

    /// The number of updates that wait in the queue.
    pub fn pending(&self) -> (n: usize)
        ensures
            n == self@.schedule.len(),
    {
        self.schedule.len()
    }

    /// Minimum interval between two planned updates.
    pub fn min_update_interval(&self) -> (interval: u128)
        ensures
            interval == self@.tuning.min_update_interval(),
    {
        update_interval(self.timestamps.window(), self.timestamps.max_updates())
    }

    /// Build a schedule of updates with lookahead batching.
    ///
    /// This looks at the lines that have not ended at `current_position` and
    /// determines which of them need to be batched together to respect the
    /// rate limit: [`schedule_for`]. The queue that was there is dropped.
    pub fn build_schedule(&mut self, lines: &[TimedLine], current_position: u128)
        ensures
            final(self)@ == old(self)@.built(spans_of(lines@), current_position as int),
            spaced(final(self)@.schedule, old(self)@.tuning.min_update_interval() as int),
    {
        let interval: u128 = self.min_update_interval();
        let upcoming_sorted = upcoming_lines(lines, current_position);
        self.schedule = plan_updates(
            &upcoming_sorted,
            current_position,
            interval,
            self.batch_separator.as_str(),
        );
    }

    /// Get the next scheduled update if it's time to display it: where it is
    /// due it leaves the queue and its text is returned.
    pub fn get_due_update(&mut self, current_position: u128) -> (text: Option<String>)
        ensures
            old(self)@.due(current_position as int) ==> text_of(text) == Some(
                old(self)@.schedule[0].text,
            ) && final(self)@ == old(self)@.popped(),
            !old(self)@.due(current_position as int) ==> text is None && final(self)@ == old(
                self,
            )@,
    {
        if self.schedule.len() == 0 {
            return None;
        }
        // Adjust for latency: the update has to leave early to arrive on time.
        let due: bool = match current_position.checked_add(self.latency_estimate.estimate()) {
            Some(send_threshold) => send_threshold >= self.schedule[0].display_time,
            None => true,
        };
        if due {
            let ghost before = self.schedule@;
            match self.schedule.pop_front() {
                Some(update) => {
                    proof {
                        assert(updates_of(self.schedule@) =~= updates_of(before).drop_first());
                    }
                    Some(update.text)
                },
                None => None,
            }
        } else {
            None
        }
    }

    /// Asks whether an update with `text` goes out at `now`. It does
    /// unless it repeats what was sent last or the rate window has no
    /// capacity. An update that is refused is not kept for later.
    pub fn should_send(&mut self, text: &str, now: u128) -> (send: bool)
        ensures
            send == old(self)@.lets_through(text@, now as int),
            final(self)@ == old(self)@.asked(text@, now as int),
    {
        let repeats: bool = match &self.last_sent {
            Some(last) => *last == text.to_owned(),
            None => false,
        };
        if repeats {
            return false;
        }
        self.timestamps.has_capacity(now)
    }

    /// Takes note of an update with `text` that was delivered: the call took
    /// `request_duration` and was over at `now`.
    pub fn record_delivery(&mut self, text: &str, request_duration: u128, now: u128)
        ensures
            final(self)@ == old(self)@.delivered(text@, request_duration as int, now),
    {
        self.latency_estimate.update_latency(request_duration);
        self.timestamps.record_send(now);
        self.last_sent = Some(text.to_owned());
    }

    /// Takes note of the clearing update that was delivered: the call took
    /// `request_duration` and was over at `now`.
    pub fn record_clear(&mut self, request_duration: u128, now: u128)
        ensures
            final(self)@ == old(self)@.clear_delivered(request_duration as int, now),
    {
        self.latency_estimate.update_latency(request_duration);
        self.timestamps.record_send(now);
    }

    /// Playback stopped: the queue and the text that was sent last are
    /// dropped. The clearing update is then sent whatever the rate window
    /// holds.
    pub fn stop(&mut self)
        ensures
            final(self)@ == old(self)@.stopped(),
    {
        self.schedule.clear();
        self.last_sent = None;
        proof {
            assert(updates_of(self.schedule@) =~= Seq::empty());
        }
    }

    /// Reset the schedule when the track changes: the queue and the text that
    /// was sent last are dropped, and the latency estimate starts anew.
    pub fn reset(&mut self)
        ensures
            final(self)@ == old(self)@.reset(),
    {
        self.schedule.clear();
        self.last_sent = None;
        self.latency_estimate.reset();
        proof {
            assert(updates_of(self.schedule@) =~= Seq::empty());
        }
    }
}

impl Default for RateLimiter {
    fn default() -> (limiter: RateLimiter)
        ensures
            limiter@ == LimiterView::initial(TuningView::standard()),
    {
        RateLimiter::new()
    }
}

/// The two calls that are made to the status sink.
#[derive(Debug, Clone, Copy, PartialEq, Eq, Structural)]
pub enum StatusCall {
    /// A text is set as the status.
    Update,
    /// The status is cleared.
    Clear,
}

/// Whether a status code of HTTP reports success: it lies within 200 to 299.
pub open spec fn is_success(status: u16) -> bool {
    200 <= status < 300
}

/// What the description of a failed call begins with.
pub open spec fn failure_heading(call: StatusCall) -> Seq<char> {
    match call {
        StatusCall::Update => "Status update failed: "@,
        StatusCall::Clear => "Status clear failed: "@,
    }
}

/// How a status code of HTTP is shown: the number and, behind it, the reason
/// that belongs to it.
pub uninterp spec fn status_line(status: u16) -> Seq<char>;

/// Shows a status code as the crate `reqwest` shows it. The body calls
/// `StatusCode::from_u16` and then `to_string`, on the status code or, for a
/// number that is no status code, on the error that says so. What comes out
/// depends on the number alone; the contract gives it a name and claims no
/// more of it.
#[verifier::external_body]
fn show_status(status: u16) -> (shown: String)
    ensures
        shown@ == status_line(status),
{
    match reqwest::StatusCode::from_u16(status) {
        Ok(code) => code.to_string(),
        Err(invalid) => invalid.to_string(),
    }
}

/// The error for a call to the status sink that failed: an error of the sink
/// that names the call and shows the status as `shown` has it.
pub fn status_failure(call: StatusCall, shown: &str) -> (error: DyricsError)
    ensures
        error is Discord,
        error.detail() == failure_heading(call) + shown@,
{
    let mut detail = match call {
        StatusCall::Update => "Status update failed: ".to_owned(),
        StatusCall::Clear => "Status clear failed: ".to_owned(),
    };
    detail.append(shown);
    DyricsError::Discord(detail)
}

/// Judges the answer of the status sink by its status code. A code that does
/// not report success is an error of the sink that names the call and shows
/// the status.
pub fn status_outcome(call: StatusCall, status: u16) -> (outcome: Result<(), DyricsError>)
    ensures
        is_success(status) ==> outcome is Ok,
        !is_success(status) ==> outcome is Err && outcome->Err_0 is Discord
            && outcome->Err_0.detail() == failure_heading(call) + status_line(status),
{
    if 200 <= status && status < 300 {
        return Ok(());
    }
    let shown = show_status(status);
    Err(status_failure(call, shown.as_str()))
}

/// Where the delivery stands with the track that it follows.
#[derive(Debug, Clone, Copy, PartialEq, Eq, Structural)]
pub enum Phase {
    /// At the start and after a reset: no queue was built.
    Idle,
    /// The queue was built and no update was taken from it.
    ScheduleBuilt,
    /// At least one update was taken from the queue.
    Draining,
    /// Playback stopped and the status was cleared.
    Cleared,
}

/// What is to be done after a tick.
#[derive(Debug, Clone)]
pub enum Action {
    /// Nothing is to be sent.
    Wait,
    /// This text is to be sent as the status.
    Send(String),
    /// The status is to be cleared.
    Clear,
}

/// What an [`Action`] stands for.
pub enum ActionView {
    /// Nothing is to be sent.
    Wait,
    /// This text is to be sent as the status.
    Send(Seq<char>),
    /// The status is to be cleared.
    Clear,
}

impl View for Action {
    type V = ActionView;

    open spec fn view(&self) -> ActionView {
        match *self {
            Action::Wait => ActionView::Wait,
            Action::Send(text) => ActionView::Send(text@),
            Action::Clear => ActionView::Clear,
        }
    }
}

/// What a [`StatusLoop`] stands for.
pub struct LoopView {
    /// The rate limiter.
    pub limiter: LimiterView,
    /// The identity of the track that was seen last.
    pub last_track_id: Option<Seq<char>>,
    /// Whether something was playing at the last tick.
    pub playing: bool,
    /// Where the delivery stands.
    pub phase: Phase,
}

/// The limiter is asked about `text`: the limiter afterwards, and the action.
pub open spec fn offered(limiter: LimiterView, text: Seq<char>, now: int) -> (
    LimiterView,
    ActionView,
) {
    (
        limiter.asked(text, now),
        if limiter.lets_through(text, now) {
            ActionView::Send(text)
        } else {
            ActionView::Wait
        },
    )
}

impl LoopView {
    /// A loop that has seen nothing.
    pub open spec fn initial(tuning: TuningView) -> LoopView {
        LoopView {
            limiter: LimiterView::initial(tuning),
            last_track_id: None,
            playing: false,
            phase: Phase::Idle,
        }
    }

    /// Whether `playback` shows another track than the one seen last.
    pub open spec fn track_changed(self, playback: PlaybackView) -> bool {
        playback.track.id != self.last_track_id
    }

    /// First part of a tick while something plays: a change of track resets
    /// the limiter and makes the loop idle; a loop that had cleared the status
    /// is idle again.
    pub open spec fn arrived(self, playback: PlaybackView) -> LoopView {
        if self.track_changed(playback) {
            LoopView {
                limiter: self.limiter.reset(),
                last_track_id: playback.track.id,
                playing: true,
                phase: Phase::Idle,
            }
        } else {
            LoopView {
                playing: true,
                phase: if self.phase is Cleared {
                    Phase::Idle
                } else {
                    self.phase
                },
                ..self
            }
        }
    }

    /// Second part of a tick for a track with lyrics: an idle loop builds the
    /// queue at the position of the snapshot.
    pub open spec fn prepared(self, lines: Seq<TimedSpan>, position: int) -> LoopView {
        if self.phase is Idle {
            LoopView {
                limiter: self.limiter.built(lines, position),
                phase: Phase::ScheduleBuilt,
                ..self
            }
        } else {
            self
        }
    }

    /// Last part of a tick for a track with lyrics: an update that is due
    /// leaves the queue and is offered to the limiter.
    pub open spec fn drained(self, position: int, now: int) -> (LoopView, ActionView) {
        if self.limiter.due(position) {
            let text = self.limiter.schedule[0].text;
            let (limiter, action) = offered(self.limiter.popped(), text, now);
            (LoopView { limiter, phase: Phase::Draining, ..self }, action)
        } else {
            (self, ActionView::Wait)
        }
    }

    /// One tick at `now` with the snapshot `snapshot`: the loop afterwards, and
    /// what is to be done.
    ///
    /// While nothing plays, a loop that saw something playing at the tick
    /// before stops the limiter and asks for the status to be cleared; after
    /// that it waits. While a track plays, the loop takes note of a change of
    /// track, then offers to the limiter the update that is due, or, for a track
    /// without lyrics, the text that stands for the track.
    pub open spec fn ticked(self, snapshot: Option<PlaybackView>, now: int) -> (
        LoopView,
        ActionView,
    ) {
        match snapshot {
            None => {
                if self.playing {
                    (
                        LoopView {
                            limiter: self.limiter.stopped(),
                            last_track_id: None,
                            playing: false,
                            phase: Phase::Cleared,
                        },
                        ActionView::Clear,
                    )
                } else {
                    (self, ActionView::Wait)
                }
            },
            Some(playback) => {
                let arrived = self.arrived(playback);
                match playback.lyrics {
                    Some(lines) => arrived.prepared(lines, playback.position as int).drained(
                        playback.position as int,
                        now,
                    ),
                    None => {
                        let (limiter, action) = offered(
                            arrived.limiter,
                            track_text(playback.track),
                            now,
                        );
                        (LoopView { limiter, ..arrived }, action)
                    },
                }
            },
        }
    }

    /// After the update with `text` was delivered.
    pub open spec fn sent(self, text: Seq<char>, round_trip: int, now: u128) -> LoopView {
        LoopView { limiter: self.limiter.delivered(text, round_trip, now), ..self }
    }

    /// After the clearing update was delivered.
    pub open spec fn cleared(self, round_trip: int, now: u128) -> LoopView {
        LoopView { limiter: self.limiter.clear_delivered(round_trip, now), ..self }
    }
}

/// The state of the delivery loop between two ticks.
#[derive(Debug)]
pub struct StatusLoop {
    rate_limiter: RateLimiter,
    last_track_id: Option<String>,
    playing: bool,
    phase: Phase,
}

impl View for StatusLoop {
    type V = LoopView;

    closed spec fn view(&self) -> LoopView {
        LoopView {
            limiter: self.rate_limiter@,
            last_track_id: text_of(self.last_track_id),
            playing: self.playing,
            phase: self.phase,
        }
    }
}

impl StatusLoop {
    /// A loop that has seen nothing, with the standard values.
    pub fn new() -> (status: StatusLoop)
        ensures
            status@ == LoopView::initial(TuningView::standard()),
    {
        StatusLoop::with_tuning(Tuning::standard())
    }

    /// A loop that has seen nothing, with values of one's own.
    pub fn with_tuning(tuning: Tuning) -> (status: StatusLoop)
        requires
            tuning@.well_formed(),
        ensures
            status@ == LoopView::initial(tuning@),
    {
        StatusLoop {
            rate_limiter: RateLimiter::with_tuning(tuning),
            last_track_id: None,
            playing: false,
            phase: Phase::Idle,
        }
    }

    /// Where the delivery stands.
    pub fn phase(&self) -> (phase: Phase)
        ensures
            phase == self@.phase,
    {
        self.phase
    }

    /// The latency estimate of the limiter.
    pub fn latency(&self) -> (latency: u128)
        ensures
            latency == self@.limiter.latency,
    {
        self.rate_limiter.latency()
    }

    /// One tick of the loop: [`LoopView::ticked`].
    pub fn tick(&mut self, snapshot: &Option<CurrentPlayback>, now: u128) -> (action: Action)
        ensures
            (final(self)@, action@) == old(self)@.ticked(snapshot_of(*snapshot), now as int),
    {
        match snapshot {
            None => {
                if self.playing {
                    self.rate_limiter.stop();
                    self.last_track_id = None;
                    self.playing = false;
                    self.phase = Phase::Cleared;
                    Action::Clear
                } else {
                    Action::Wait
                }
            },
            Some(playback) => {
                // Check if the track changed.
                if !same_text(&playback.track.id, &self.last_track_id) {
                    self.last_track_id = copy_text(&playback.track.id);
                    self.rate_limiter.reset();
                    self.phase = Phase::Idle;
                } else if self.phase == Phase::Cleared {
                    self.phase = Phase::Idle;
                }
                self.playing = true;
                match &playback.lyrics {
                    Some(lyrics) => {
                        // Build the schedule if that is not done yet.
                        if self.phase == Phase::Idle {
                            let timed_lines = lyrics.get_timed_lines();
                            self.rate_limiter.build_schedule(
                                timed_lines.as_slice(),
                                playback.position,
                            );
                            self.phase = Phase::ScheduleBuilt;
                        }
                        // Check if there is a due update.
                        match self.rate_limiter.get_due_update(playback.position) {
                            Some(text) => {
                                self.phase = Phase::Draining;
                                if self.rate_limiter.should_send(text.as_str(), now) {
                                    Action::Send(text)
                                } else {
                                    Action::Wait
                                }
                            },
                            None => Action::Wait,
                        }
                    },
                    None => {
                        // No lyrics: show the track itself.
                        let text = playback.track.display_text();
                        if self.rate_limiter.should_send(text.as_str(), now) {
                            Action::Send(text)
                        } else {
                            Action::Wait
                        }
                    },
                }
            },
        }
    }

    /// The update with `text` that a tick asked for was delivered: the call
    /// took `request_duration` and was over at `now`.
    pub fn on_sent(&mut self, text: &str, request_duration: u128, now: u128)
        ensures
            final(self)@ == old(self)@.sent(text@, request_duration as int, now),
    {
        self.rate_limiter.record_delivery(text, request_duration, now);
    }

    /// The clearing update that a tick asked for was delivered: the call took
    /// `request_duration` and was over at `now`.
    pub fn on_cleared(&mut self, request_duration: u128, now: u128)
        ensures
            final(self)@ == old(self)@.cleared(request_duration as int, now),
    {
        self.rate_limiter.record_clear(request_duration, now);
    }
}

} // verus!
