//! The playback snapshot that the synchronisation shares with the delivery
//! loop, and the rules by which a resync and the position stepper change it.
//!
//! Every time in this module is a number of nanoseconds from the start of the
//! track, unless its name ends in `_ms`.

use crate::latency::NANOS_PER_MILLI;
use crate::lyrics::{Lyrics, TimedSpan};
use crate::text::{copy_text, join_strings, joined, remove_all, same_text, text_of, views_of, without};
use vstd::prelude::*;

verus! {

/// How far the position stepper moves the position at each tick: 50 ms.
pub const STEP_INTERVAL: u128 = 50_000_000;

/// What is read of a track: its identity, which a local file lacks, its name
/// and the names of its artists.
#[derive(Debug, Clone)]
pub struct TrackInfo {
    /// The identifier of the track, in the form of a URI.
    pub id: Option<String>,
    /// The name of the track.
    pub name: String,
    /// The names of the artists, in their given order.
    pub artists: Vec<String>,
}

/// Current playback information.
#[derive(Debug, Clone)]
pub struct CurrentPlayback {
    /// Currently playing track.
    pub track: TrackInfo,
    /// Lyrics for the current track (if available).
    pub lyrics: Option<Lyrics>,
    /// Current playback position.
    pub position: u128,
}

/// What a [`TrackInfo`] stands for.
pub struct TrackView {
    /// The identity of the track.
    pub id: Option<Seq<char>>,
    /// The name of the track.
    pub name: Seq<char>,
    /// The names of the artists.
    pub artists: Seq<Seq<char>>,
}

/// What a [`CurrentPlayback`] stands for: the track, the timed spans of its
/// lyrics where it has lyrics, and the position.
pub struct PlaybackView {
    /// The track that is playing.
    pub track: TrackView,
    /// The timed spans of its lyrics.
    pub lyrics: Option<Seq<TimedSpan>>,
    /// The playback position.
    pub position: nat,
}

impl View for TrackInfo {
    type V = TrackView;

    open spec fn view(&self) -> TrackView {
        TrackView { id: text_of(self.id), name: self.name@, artists: views_of(self.artists@) }
    }
}

impl View for CurrentPlayback {
    type V = PlaybackView;

    open spec fn view(&self) -> PlaybackView {
        PlaybackView {
            track: self.track@,
            lyrics: match self.lyrics {
                Some(lyrics) => Some(lyrics.spans()),
                None => None,
            },
            position: self.position as nat,
        }
    }
}

/// The view of a snapshot: `None` while nothing is playing.
pub open spec fn snapshot_of(state: Option<CurrentPlayback>) -> Option<PlaybackView> {
    match state {
        Some(playback) => Some(playback@),
        None => None,
    }
}

/// The text that stands for a track without lyrics: its name, a dash, and the
/// names of its artists with a comma between them.
pub open spec fn track_text(track: TrackView) -> Seq<char> {
    track.name + " - "@ + joined(track.artists, ", "@)
}

/// The prefix that marks the URI of a track.
pub open spec fn track_uri_prefix() -> Seq<char> {
    "spotify:track:"@
}

/// Where the lyrics of the track with the URI `track_uri` are fetched: the
/// address of the lyrics service, and behind it the URI without the prefix.
pub open spec fn lyrics_address(track_uri: Seq<char>) -> Seq<char> {
    "https://beautiful-lyrics.socalifornian.live/lyrics/"@ + without(track_uri, track_uri_prefix())
}

/// The position that a progress report stands for: nothing where none is
/// reported or where it is negative, else that many milliseconds.
pub open spec fn position_of(progress_ms: Option<i64>) -> nat {
    match progress_ms {
        Some(ms) => if ms > 0 {
            (ms * NANOS_PER_MILLI) as nat
        } else {
            0
        },
        None => 0,
    }
}

/// Computes [`position_of`].
pub fn position_from_progress(progress_ms: Option<i64>) -> (position: u128)
    ensures
        position == position_of(progress_ms),
{
    match progress_ms {
        Some(ms) => {
            if ms > 0 {
                let whole: u128 = ms as u128;
                whole * NANOS_PER_MILLI
            } else {
                0
            }
        },
        None => 0,
    }
}

/// Computes [`lyrics_address`].
pub fn lyrics_url(track_uri: &str) -> (url: String)
    ensures
        url@ == lyrics_address(track_uri@),
{
    let mut url = "https://beautiful-lyrics.socalifornian.live/lyrics/".to_owned();
    let id = remove_all(track_uri, "spotify:track:");
    url.append(id.as_str());
    url
}

impl TrackInfo {
    /// The text shown for this track while it has no lyrics: [`track_text`].
    pub fn display_text(&self) -> (text: String)
        ensures
            text@ == track_text(self@),
    {
        let mut text = self.name.clone();
        text.append(" - ");
        let artists = join_strings(&self.artists, ", ");
        text.append(artists.as_str());
        text
    }
}

/// What one poll of the playback source reported.
#[derive(Debug, Clone)]
pub struct PlaybackReport {
    /// Whether the player is playing.
    pub is_playing: bool,
    /// The item that is playing, where there is one and it is a track.
    pub track: Option<TrackInfo>,
    /// The progress within the item, in milliseconds.
    pub progress_ms: Option<i64>,
}

/// What a resync does with the snapshot.
#[derive(Debug, Clone)]
pub enum SyncStep {
    /// Nothing is playing: the snapshot is emptied.
    Stop,
    /// Another track is playing: its lyrics are fetched, and the snapshot is
    /// replaced as a whole.
    Replace { track: TrackInfo, position: u128 },
    /// The same track is playing: only the position is set.
    Reposition { position: u128 },
}

/// What a [`SyncStep`] stands for.
pub enum SyncStepView {
    /// The snapshot is emptied.
    Stop,
    /// The snapshot is replaced.
    Replace { track: TrackView, position: nat },
    /// The position is set.
    Reposition { position: nat },
}

impl View for SyncStep {
    type V = SyncStepView;

    open spec fn view(&self) -> SyncStepView {
        match *self {
            SyncStep::Stop => SyncStepView::Stop,
            SyncStep::Replace { track, position } => SyncStepView::Replace {
                track: track@,
                position: position as nat,
            },
            SyncStep::Reposition { position } => SyncStepView::Reposition {
                position: position as nat,
            },
        }
    }
}

/// The track of a report that says that a track is playing.
pub open spec fn playing_track(report: Option<PlaybackReport>) -> Option<TrackInfo> {
    match report {
        Some(r) => if r.is_playing {
            r.track
        } else {
            None
        },
        None => None,
    }
}

/// The step that a report calls for, where `last_track_id` is the identity
/// of the track that the resync saw last. Nothing playing, a paused player and
/// an item that is no track all stop the tracking.
pub open spec fn sync_step(report: Option<PlaybackReport>, last_track_id: Option<Seq<char>>) -> SyncStepView {
    match playing_track(report) {
        None => SyncStepView::Stop,
        Some(track) => {
            let position = position_of(report->0.progress_ms);
            if track@.id != last_track_id {
                SyncStepView::Replace { track: track@, position }
            } else {
                SyncStepView::Reposition { position }
            }
        },
    }
}

/// The identity that the resync remembers after a report.
pub open spec fn synced_track_id(report: Option<PlaybackReport>) -> Option<Seq<char>> {
    match playing_track(report) {
        None => None,
        Some(track) => track@.id,
    }
}

/// The part of the resync that remembers which track it saw last.
#[derive(Debug)]
pub struct Resync {
    last_track_id: Option<String>,
}

impl View for Resync {
    type V = Option<Seq<char>>;

    /// The identity of the track that was seen last.
    closed spec fn view(&self) -> Option<Seq<char>> {
        text_of(self.last_track_id)
    }
}

impl Resync {
    /// A resync that has seen no track.
    pub fn new() -> (resync: Resync)
        ensures
            resync@ is None,
    {
        Resync { last_track_id: None }
    }

    /// Takes in one report of the playback source and says what is to be done
    /// with the snapshot: [`sync_step`]. The identity of the track of the
    /// report is remembered.
    pub fn observe(&mut self, report: Option<PlaybackReport>) -> (step: SyncStep)
        ensures
            step@ == sync_step(report, old(self)@),
            final(self)@ == synced_track_id(report),
    {
        let report = match report {
            Some(r) => r,
            None => {
                self.last_track_id = None;
                return SyncStep::Stop;
            },
        };
        if !report.is_playing {
            self.last_track_id = None;
            return SyncStep::Stop;
        }
        let track = match report.track {
            Some(t) => t,
            None => {
                self.last_track_id = None;
                return SyncStep::Stop;
            },
        };
        let position: u128 = position_from_progress(report.progress_ms);
        if !same_text(&track.id, &self.last_track_id) {
            self.last_track_id = copy_text(&track.id);
            SyncStep::Replace { track, position }
        } else {
            SyncStep::Reposition { position }
        }
    }
}

/// The snapshot after one tick of the position stepper: the position has
/// moved on by `step`; an empty snapshot stays empty.
pub open spec fn stepped(state: Option<PlaybackView>, step: nat) -> Option<PlaybackView> {
    match state {
        Some(playback) => Some(PlaybackView { position: playback.position + step, ..playback }),
        None => None,
    }
}

/// The snapshot after a resync put the position right; an empty snapshot
/// stays empty.
pub open spec fn repositioned(state: Option<PlaybackView>, position: nat) -> Option<PlaybackView> {
    match state {
        Some(playback) => Some(PlaybackView { position, ..playback }),
        None => None,
    }
}

/// Whether one more step of [`STEP_INTERVAL`] fits.
pub fn can_step(state: &Option<CurrentPlayback>) -> (fits: bool)
    ensures
        fits == match *state {
            Some(playback) => playback.position + STEP_INTERVAL <= u128::MAX,
            None => true,
        },
{
    match state {
        Some(playback) => playback.position <= u128::MAX - STEP_INTERVAL,
        None => true,
    }
}

/// One tick of the position stepper: [`stepped`] by [`STEP_INTERVAL`].
pub fn step_position(state: &mut Option<CurrentPlayback>)
    requires
        match *old(state) {
            Some(playback) => playback.position + STEP_INTERVAL <= u128::MAX,
            None => true,
        },
    ensures
        snapshot_of(*final(state)) == stepped(snapshot_of(*old(state)), STEP_INTERVAL as nat),
        *final(state) == match *old(state) {
            Some(playback) => Some(
                CurrentPlayback {
                    position: (playback.position + STEP_INTERVAL) as u128,
                    ..playback
                },
            ),
            None => None,
        },
{
    match state {
        Some(playback) => {
            playback.position = playback.position + STEP_INTERVAL;
        },
        None => {},
    }
}

/// Sets the position of the snapshot: [`repositioned`].
pub fn reposition(state: &mut Option<CurrentPlayback>, position: u128)
    ensures
        snapshot_of(*final(state)) == repositioned(snapshot_of(*old(state)), position as nat),
        *final(state) == match *old(state) {
            Some(playback) => Some(CurrentPlayback { position, ..playback }),
            None => None,
        },
{
    match state {
        Some(playback) => {
            playback.position = position;
        },
        None => {},
    }
}

} // verus!
