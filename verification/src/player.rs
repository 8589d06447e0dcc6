//! The player's decisions: what each command does to the queue and to the
//! playback state, and what the audio output has to do about it.
//!
//! The audio device and the decoder live with the caller, which runs the
//! loop: it hands each command, and each outcome of the audio work, to
//! [`PlayerCore::handle`], carries out the [`Action`] that comes back, and
//! reports the outcome as the next event.

use vstd::prelude::*;

use crate::queue::{Advance, Queue, QueueView, Repeat, empty_queue, rebuilt_cursor, spans};
use crate::records::Track;
use crate::text::text_view;

verus! {

/// How many unplayable tracks in a row are skipped before giving up, so a
/// queue whose files all moved stops instead of racing to its end.
pub const MAX_SKIPS: usize = 20;

/// The message for a run of tracks that each ended before playing.
pub const NO_AUDIO: &'static str = "these files hold no audio to play";

/// What precedes the audio output's own words when a seek fails.
pub const SEEK_FAILED: &'static str = "cannot seek in this file: ";

#[derive(Clone, Copy, Debug, PartialEq, Eq, Structural)]
pub enum Status {
    Stopped,
    Playing,
    Paused,
}

impl Default for Status {
    fn default() -> (status: Status)
        ensures
            status == Status::Stopped,
    {
        Status::Stopped
    }
}

/// What the player is told: the commands of the user, and what became of
/// the audio work it asked for.
#[derive(Clone, Debug, PartialEq, Eq)]
pub enum Event {
    /// Replace the queue and start playing at `start`, an index into
    /// `tracks`; without one, the queue starts from the top of its playing
    /// order, which under shuffle is chance.
    Play { tracks: Vec<Track>, start: Option<usize> },
    /// Add tracks at the end of the queue.
    Enqueue(Vec<Track>),
    /// Play this queue position next.
    PlayNext(usize),
    /// Jump to this queue position now.
    JumpTo(usize),
    PlayPause,
    Stop,
    Next,
    /// Go back; `well_underway` when the track has played more than three
    /// seconds, in which case it starts over instead.
    Previous { well_underway: bool },
    /// Go to `position_ms`; `sink_empty` when the output holds nothing.
    Seek { position_ms: u64, sink_empty: bool },
    /// The volume was set; the level itself is the output's business.
    VolumeChanged,
    SetShuffle(bool),
    SetRepeat(Repeat),
    SetStopAfterCurrent(bool),
    /// Asks for the state, without changing anything.
    ReportState,
    /// The track started in `generation` played to its end;
    /// `played_nothing` when it ended before really playing.
    TrackFinished { generation: u64, played_nothing: bool },
    /// The track of the last [`Action::Start`] plays.
    Started,
    /// The track of the last [`Action::Start`] could not be played.
    StartFailed(String),
    /// The last [`Action::Seek`] could not be done.
    SeekFailed(String),
}

/// What the audio output is to do.
#[derive(Clone, Debug, PartialEq, Eq)]
pub enum Action {
    /// Clear the output and play `track`, tagging its end with
    /// `generation`; then report [`Event::Started`] or
    /// [`Event::StartFailed`].
    Start { track: Track, generation: u64 },
    /// Clear the output.
    Stop,
    Pause,
    Resume,
    /// Seek; report [`Event::SeekFailed`] if that cannot be done.
    Seek { position_ms: u64 },
    Nothing,
}

/// Everything the player decides by, as the contracts speak of it.
pub ghost struct PlayerView {
    pub queue: QueueView,
    pub status: Status,
    pub error: Option<Seq<char>>,
    /// Bumped every time a track starts, so the end of a track the user
    /// skipped away from is recognised and ignored.
    pub generation: u64,
    /// How many seeks were asked for.
    pub seeks_applied: u64,
    /// How many tracks in a row ended without really playing.
    pub empty_tracks: usize,
    /// While a start is under way: how many tracks of it failed so far.
    pub starting: Option<usize>,
}

/// The queue after it was replaced by `tracks`, starting at `start`, with
/// `order` as its new playing order.
pub open spec fn replaced(q: QueueView, tracks: Seq<Track>, start: usize, order: Seq<usize>) -> QueueView {
    QueueView {
        tracks,
        order,
        cursor: rebuilt_cursor(Some(start), tracks.len(), q.shuffle),
        queued: Seq::empty(),
        resume: None,
        stop_after_current: false,
        ..q
    }
}

/// The queue after `tracks` were added at its end, with `order` as its new
/// playing order.
pub open spec fn appended(q: QueueView, tracks: Seq<Track>, order: Seq<usize>) -> QueueView {
    QueueView { tracks: q.tracks + tracks, order, ..q }
}

/// The queue after shuffle was set to `on`, with `order` as its playing
/// order when that changed it.
pub open spec fn reshuffled(q: QueueView, on: bool, order: Seq<usize>) -> QueueView {
    if on == q.shuffle {
        q
    } else {
        QueueView {
            shuffle: on,
            resume: None,
            order,
            cursor: rebuilt_cursor(q.current_index(), q.tracks.len(), on),
            ..q
        }
    }
}

/// Where a start index points: no index points past every track, so the
/// queue starts from the top of its order.
pub open spec fn start_index(start: Option<usize>) -> usize {
    match start {
        Some(index) => index,
        None => usize::MAX,
    }
}

/// The next value of a counter that starts over after its largest value.
pub open spec fn bumped(n: u64) -> u64 {
    if n == u64::MAX {
        0
    } else {
        (n + 1) as u64
    }
}

/// Whether `event` comes from the user, as opposed to a report or an
/// outcome of the audio work. A user's command clears the last error and
/// starts the count of empty tracks afresh.
pub open spec fn from_user(event: Event) -> bool {
    match event {
        Event::ReportState => false,
        Event::TrackFinished { .. } => false,
        Event::Started => false,
        Event::StartFailed(_) => false,
        Event::SeekFailed(_) => false,
        _ => true,
    }
}

impl PlayerView {
    pub open spec fn wf(self) -> bool {
        &&& self.queue.wf()
        &&& self.empty_tracks <= MAX_SKIPS
        &&& self.empty_tracks == MAX_SKIPS ==> self.status == Status::Stopped && self.starting is None
        &&& self.starting matches Some(f) ==> f < MAX_SKIPS
    }

    /// Playback stops.
    pub open spec fn stopped(self) -> (PlayerView, Action) {
        (PlayerView { status: Status::Stopped, starting: None, ..self }, Action::Stop)
    }

    /// Starting `track`, with `failures` tracks of this start failed before
    /// it; no track stops.
    pub open spec fn starting_with(self, track: Option<Track>, failures: usize) -> (PlayerView, Action) {
        match track {
            Some(t) => (
                PlayerView {
                    generation: bumped(self.generation),
                    starting: Some(failures),
                    ..self
                },
                Action::Start { track: t, generation: bumped(self.generation) },
            ),
            None => self.stopped(),
        }
    }

    /// Following what the queue says comes next.
    pub open spec fn following(self, advance: Advance) -> (PlayerView, Action) {
        match advance {
            Advance::Play(track) => self.starting_with(Some(*track), 0),
            Advance::Stop => self.stopped(),
        }
    }

    /// The same player with another queue.
    pub open spec fn with_queue(self, queue: QueueView) -> PlayerView {
        PlayerView { queue, ..self }
    }

    /// What the player does on `event`. Where the queue draws a new playing
    /// order, `order` is the one that came up.
    pub open spec fn after(self, event: Event, order: Seq<usize>) -> (PlayerView, Action) {
        let p = if from_user(event) {
            PlayerView { error: None, empty_tracks: 0, ..self }
        } else {
            self
        };
        match event {
            Event::Play { tracks, start } => {
                let q = replaced(p.queue, tracks@, start_index(start), order);
                p.with_queue(q).starting_with(q.current(), 0)
            },
            Event::Enqueue(tracks) => {
                let q = appended(p.queue, tracks@, order);
                if p.queue.tracks.len() == 0 {
                    let (jumped, advance) = q.jump(0);
                    p.with_queue(jumped).following(advance)
                } else {
                    (p.with_queue(q), Action::Nothing)
                }
            },
            Event::PlayNext(index) => {
                let q = if index < p.queue.tracks.len() {
                    QueueView { queued: p.queue.queued.push(index), ..p.queue }
                } else {
                    p.queue
                };
                (p.with_queue(q), Action::Nothing)
            },
            Event::JumpTo(index) => {
                let (q, advance) = p.queue.jump(index);
                p.with_queue(q).following(advance)
            },
            Event::PlayPause => match p.status {
                Status::Playing => (PlayerView { status: Status::Paused, ..p }, Action::Pause),
                Status::Paused => (PlayerView { status: Status::Playing, ..p }, Action::Resume),
                Status::Stopped => match p.queue.current() {
                    Some(track) => p.starting_with(Some(track), 0),
                    None => {
                        let (q, advance) = p.queue.jump(0);
                        p.with_queue(q).following(advance)
                    },
                },
            },
            Event::Stop => p.stopped(),
            Event::Next => {
                let (q, advance) = p.queue.step(order);
                p.with_queue(q).following(advance)
            },
            Event::Previous { well_underway } => if well_underway {
                p.starting_with(p.queue.current(), 0)
            } else {
                let (q, advance) = p.queue.back();
                p.with_queue(q).following(advance)
            },
            Event::Seek { position_ms, sink_empty } => {
                let counted = PlayerView { seeks_applied: bumped(p.seeks_applied), ..p };
                if p.status == Status::Stopped || sink_empty {
                    (counted, Action::Nothing)
                } else {
                    (counted, Action::Seek { position_ms })
                }
            },
            Event::VolumeChanged => (p, Action::Nothing),
            Event::SetShuffle(on) => (p.with_queue(reshuffled(p.queue, on, order)), Action::Nothing),
            Event::SetRepeat(repeat) => (
                p.with_queue(QueueView { repeat, ..p.queue }),
                Action::Nothing,
            ),
            Event::SetStopAfterCurrent(on) => (
                p.with_queue(QueueView { stop_after_current: on, ..p.queue }),
                Action::Nothing,
            ),
            Event::ReportState => (p, Action::Nothing),
            Event::TrackFinished { generation, played_nothing } => {
                if generation == p.generation && p.status == Status::Playing {
                    let empty = if played_nothing {
                        p.empty_tracks + 1
                    } else {
                        0
                    };
                    if empty >= MAX_SKIPS {
                        PlayerView { error: Some(NO_AUDIO@), empty_tracks: empty as usize, ..p }.stopped()
                    } else {
                        let (q, advance) = p.queue.advance(order);
                        PlayerView { empty_tracks: empty as usize, queue: q, ..p }.following(
                            advance,
                        )
                    }
                } else {
                    (p, Action::Nothing)
                }
            },
            Event::Started => match p.starting {
                Some(_) => (
                    PlayerView { status: Status::Playing, starting: None, ..p },
                    Action::Nothing,
                ),
                None => (p, Action::Nothing),
            },
            Event::StartFailed(message) => match p.starting {
                Some(failures) => {
                    // The queue moves past the failed track in any case, the
                    // last one given up on too.
                    let (q, advance) = p.queue.step(order);
                    let moved = PlayerView { error: Some(message@), queue: q, ..p };
                    if failures + 1 >= MAX_SKIPS {
                        moved.stopped()
                    } else {
                        match advance {
                            Advance::Play(track) => moved.starting_with(
                                Some(*track),
                                (failures + 1) as usize,
                            ),
                            Advance::Stop => moved.stopped(),
                        }
                    }
                },
                None => (p, Action::Nothing),
            },
            Event::SeekFailed(message) => (
                PlayerView { error: Some(SEEK_FAILED@ + message@), ..p },
                Action::Nothing,
            ),
        }
    }

    /// The track to show: none while stopped; its length as the decoder
    /// measured it, when it did.
    pub open spec fn shown_track(self, decoded_ms: Option<u64>) -> Option<Track> {
        if self.status == Status::Stopped {
            None
        } else {
            match self.queue.current() {
                Some(track) => match decoded_ms {
                    Some(ms) => if ms > 0 {
                        Some(Track { duration_ms: ms, ..track })
                    } else {
                        Some(track)
                    },
                    None => Some(track),
                },
                None => None,
            }
        }
    }
}

/// What the frontend is shown of the player, but for the position and the
/// volume, which the audio output knows.
#[derive(Clone, Debug, PartialEq, Eq)]
pub struct Snapshot {
    pub status: Status,
    pub track: Option<Track>,
    pub shuffle: bool,
    pub repeat: Repeat,
    pub stop_after_current: bool,
    pub queue_length: usize,
    /// How many seeks the player has carried out. The frontend watches this
    /// to know its own seek was applied, whether it landed or failed.
    pub seeks_applied: u64,
    /// Set when the last command could not be carried out.
    pub error: Option<String>,
}

pub struct PlayerCore {
    queue: Queue,
    status: Status,
    error: Option<String>,
    generation: u64,
    seeks_applied: u64,
    empty_tracks: usize,
    starting: Option<usize>,
}

impl View for PlayerCore {
    type V = PlayerView;

    closed spec fn view(&self) -> PlayerView {
        PlayerView {
            queue: self.queue@,
            status: self.status,
            error: text_view(self.error),
            generation: self.generation,
            seeks_applied: self.seeks_applied,
            empty_tracks: self.empty_tracks,
            starting: self.starting,
        }
    }
}

impl PlayerCore {
    /// A stopped player with an empty queue.
    pub fn new() -> (core: PlayerCore)
        ensures
            core@.wf(),
            core@.queue == empty_queue(),
            core@.status == Status::Stopped,
            core@.error is None,
            core@.generation == 0,
            core@.seeks_applied == 0,
            core@.empty_tracks == 0,
            core@.starting is None,
    {
        PlayerCore {
            queue: Queue::new(),
            status: Status::Stopped,
            error: None,
            generation: 0,
            seeks_applied: 0,
            empty_tracks: 0,
            starting: None,
        }
    }

    fn stop(&mut self) -> (action: Action)
        ensures
            (final(self)@, action) == old(self)@.stopped(),
    {
        self.status = Status::Stopped;
        self.starting = None;
        Action::Stop
    }

    fn start(&mut self, track: Option<Track>, failures: usize) -> (action: Action)
        ensures
            (final(self)@, action) == old(self)@.starting_with(track, failures),
    {
        match track {
            Some(track) => {
                self.generation = self.generation.wrapping_add(1);
                self.starting = Some(failures);
                Action::Start { track, generation: self.generation }
            },
            None => self.stop(),
        }
    }

    fn follow(&mut self, advance: Advance) -> (action: Action)
        ensures
            (final(self)@, action) == old(self)@.following(advance),
    {
        match advance {
            Advance::Play(track) => self.start(Some(*track), 0),
            Advance::Stop => self.stop(),
        }
    }

    /// Decides what `event` does, and what the audio output is to do about
    /// it.
    pub fn handle(&mut self, event: Event) -> (action: Action)
        requires
            old(self)@.wf(),
            event matches Event::Enqueue(tracks) ==> old(self)@.queue.tracks.len() + tracks@.len()
                <= usize::MAX,
        ensures
            final(self)@.wf(),
            (final(self)@, action) == old(self)@.after(event, final(self)@.queue.order),
            event matches Event::Play { tracks, start: Some(i) } ==> (i < tracks@.len() ==> (
            final(self)@.queue.current_index() == Some(i) && action == (Action::Start {
                track: tracks@[i as int],
                generation: final(self)@.generation,
            }))),
            event matches Event::SetShuffle(_) ==> final(self)@.queue.current_index() == old(
                self,
            )@.queue.current_index(),
            event matches Event::Enqueue(tracks) ==> {
                &&& final(self)@.queue.order.subrange(0, old(self)@.queue.order.len() as int)
                    == old(self)@.queue.order
                &&& spans(
                    final(self)@.queue.order.subrange(
                        old(self)@.queue.order.len() as int,
                        final(self)@.queue.order.len() as int,
                    ),
                    old(self)@.queue.tracks.len(),
                    final(self)@.queue.tracks.len(),
                )
            },
    {
        let user = match &event {
            Event::ReportState => false,
            Event::TrackFinished { .. } => false,
            Event::Started => false,
            Event::StartFailed(_) => false,
            Event::SeekFailed(_) => false,
            _ => true,
        };
        if user {
            self.error = None;
            self.empty_tracks = 0;
        }
        match event {
            Event::Play { tracks, start } => {
                // An index past the end starts from the top of the order.
                let start = match start {
                    Some(index) => index,
                    None => usize::MAX,
                };
                let track = match self.queue.replace(tracks, start) {
                    Some(track) => Some(track.duplicate()),
                    None => None,
                };
                self.start(track, 0)
            },
            Event::Enqueue(tracks) => {
                let was_empty = self.queue.is_empty();
                self.queue.append(tracks);
                if was_empty {
                    let advance = self.queue.jump_to(0);
                    self.follow(advance)
                } else {
                    Action::Nothing
                }
            },
            Event::PlayNext(index) => {
                self.queue.play_next(index);
                Action::Nothing
            },
            Event::JumpTo(index) => {
                let advance = self.queue.jump_to(index);
                self.follow(advance)
            },
            Event::PlayPause => match self.status {
                Status::Playing => {
                    self.status = Status::Paused;
                    Action::Pause
                },
                Status::Paused => {
                    self.status = Status::Playing;
                    Action::Resume
                },
                Status::Stopped => {
                    let current = match self.queue.current() {
                        Some(track) => Some(track.duplicate()),
                        None => None,
                    };
                    match current {
                        Some(track) => self.start(Some(track), 0),
                        None => {
                            // Nothing was playing: start the queue from its
                            // first track.
                            let advance = self.queue.jump_to(0);
                            self.follow(advance)
                        },
                    }
                },
            },
            Event::Stop => self.stop(),
            Event::Next => {
                let advance = self.queue.skip_forward();
                self.follow(advance)
            },
            Event::Previous { well_underway } => {
                if well_underway {
                    // Pressing previous well into a track means "from the
                    // top", as in every other player.
                    let current = match self.queue.current() {
                        Some(track) => Some(track.duplicate()),
                        None => None,
                    };
                    self.start(current, 0)
                } else {
                    let advance = self.queue.previous();
                    self.follow(advance)
                }
            },
            Event::Seek { position_ms, sink_empty } => {
                // Counted even when it cannot be done, so the frontend stops
                // showing the position the user asked for.
                self.seeks_applied = self.seeks_applied.wrapping_add(1);
                if self.status == Status::Stopped || sink_empty {
                    Action::Nothing
                } else {
                    Action::Seek { position_ms }
                }
            },
            Event::VolumeChanged => Action::Nothing,
            Event::SetShuffle(on) => {
                self.queue.set_shuffle(on);
                Action::Nothing
            },
            Event::SetRepeat(repeat) => {
                self.queue.set_repeat(repeat);
                Action::Nothing
            },
            Event::SetStopAfterCurrent(on) => {
                self.queue.set_stop_after_current(on);
                Action::Nothing
            },
            Event::ReportState => Action::Nothing,
            Event::TrackFinished { generation, played_nothing } => {
                // A track the user skipped away from also reports its end.
                if generation == self.generation && self.status == Status::Playing {
                    if played_nothing {
                        self.empty_tracks = self.empty_tracks + 1;
                        if self.empty_tracks >= MAX_SKIPS {
                            self.error = Some(NO_AUDIO.to_owned());
                            return self.stop();
                        }
                    } else {
                        self.empty_tracks = 0;
                    }
                    let advance = self.queue.advance();
                    self.follow(advance)
                } else {
                    Action::Nothing
                }
            },
            Event::Started => {
                if self.starting.is_some() {
                    self.status = Status::Playing;
                    self.starting = None;
                }
                Action::Nothing
            },
            Event::StartFailed(message) => match self.starting {
                Some(failures) => {
                    self.error = Some(message);
                    // One file that moved since the scan must not end the
                    // session: the queue moves on, and the next one is tried
                    // unless this start has failed too often already.
                    let advance = self.queue.skip_forward();
                    if failures + 1 >= MAX_SKIPS {
                        self.stop()
                    } else {
                        match advance {
                            Advance::Play(track) => self.start(Some(*track), failures + 1),
                            Advance::Stop => self.stop(),
                        }
                    }
                },
                None => Action::Nothing,
            },
            Event::SeekFailed(message) => {
                let mut text = SEEK_FAILED.to_owned();
                crate::text::push_text(&mut text, message.as_str());
                self.error = Some(text);
                Action::Nothing
            },
        }
    }

    /// What the frontend is shown, but for the position and the volume.
    /// `decoded_ms` is the length the decoder measured for the track that
    /// plays, which is more reliable than the tags for files without a
    /// length in their header.
    pub fn snapshot(&self, decoded_ms: Option<u64>) -> (shown: Snapshot)
        ensures
            shown.status == self@.status,
            shown.track == self@.shown_track(decoded_ms),
            shown.shuffle == self@.queue.shuffle,
            shown.repeat == self@.queue.repeat,
            shown.stop_after_current == self@.queue.stop_after_current,
            shown.queue_length == self@.queue.tracks.len(),
            shown.seeks_applied == self@.seeks_applied,
            text_view(shown.error) == self@.error,
    {
        let track = if self.status == Status::Stopped {
            None
        } else {
            match self.queue.current() {
                Some(track) => {
                    let mut track = track.duplicate();
                    if let Some(ms) = decoded_ms {
                        if ms > 0 {
                            track.duration_ms = ms;
                        }
                    }
                    Some(track)
                },
                None => None,
            }
        };
        Snapshot {
            status: self.status,
            track,
            shuffle: self.queue.shuffle(),
            repeat: self.queue.repeat(),
            stop_after_current: self.queue.stop_after_current(),
            queue_length: self.queue.len(),
            seeks_applied: self.seeks_applied,
            error: crate::records::copy_text(&self.error),
        }
    }
}

/// "Play next" lines the track at `index` up after those already lined up,
/// changes nothing else in the queue and asks nothing of the output; and
/// when nothing was lined up before it, the end of the playing track
/// starts that track.
pub proof fn law_play_next_plays_that_track_next(
    p: PlayerView,
    index: usize,
    order: Seq<usize>,
    later: Seq<usize>,
)
    requires
        p.wf(),
        p.queue.tracks.len() <= usize::MAX,
        index < p.queue.tracks.len(),
    ensures
        p.after(Event::PlayNext(index), order).1 == Action::Nothing,
        p.after(Event::PlayNext(index), order).0.queue == (QueueView {
            queued: p.queue.queued.push(index),
            ..p.queue
        }),
        ({
            let lined_up = p.after(Event::PlayNext(index), order).0;
            (p.status == Status::Playing && p.queue.queued.len() == 0 && p.queue.cursor is Some
                && !p.queue.stop_after_current && p.queue.repeat != Repeat::Track) ==> lined_up.after(
                Event::TrackFinished { generation: lined_up.generation, played_nothing: false },
                later,
            ).1 == (Action::Start {
                track: p.queue.tracks[index as int],
                generation: bumped(lined_up.generation),
            })
        }),
{
    let lined_up = p.after(Event::PlayNext(index), order).0;
    let q = lined_up.queue;
    if p.status == Status::Playing && p.queue.queued.len() == 0 && p.queue.cursor is Some
        && !p.queue.stop_after_current && p.queue.repeat != Repeat::Track {
        assert(q.queued =~= seq![index]);
        crate::queue::law_queued_tracks_first_in_first_out(q, later);
        assert(q.advance(later) == q.step(later));
    }
}

/// Asking for the state changes nothing, and in particular does not erase
/// why the last attempt failed.
pub proof fn law_reporting_changes_nothing(p: PlayerView, order: Seq<usize>)
    ensures
        p.after(Event::ReportState, order) == (p, Action::Nothing),
{
}

/// Anything the user asks for starts from a clean slate: the error of an
/// earlier command is gone, unless this one fails in turn.
pub proof fn law_a_command_clears_the_error(p: PlayerView, event: Event, order: Seq<usize>)
    requires
        from_user(event),
    ensures
        p.after(event, order).0.error is None,
{
    match event {
        Event::Play { .. } => {},
        Event::Enqueue(_) => {},
        Event::PlayNext(_) => {},
        Event::JumpTo(_) => {},
        Event::PlayPause => {},
        Event::Stop => {},
        Event::Next => {},
        Event::Previous { .. } => {},
        Event::Seek { .. } => {},
        Event::VolumeChanged => {},
        Event::SetShuffle(_) => {},
        Event::SetRepeat(_) => {},
        Event::SetStopAfterCurrent(_) => {},
        Event::ReportState => {},
        Event::TrackFinished { .. } => {},
        Event::Started => {},
        Event::StartFailed(_) => {},
        Event::SeekFailed(_) => {},
    }
}

/// The end of a track the user skipped away from, or of one played before
/// the player stopped, is ignored: only the track of the latest start,
/// still playing, moves the queue on.
pub proof fn law_a_stale_track_end_is_ignored(
    p: PlayerView,
    generation: u64,
    played_nothing: bool,
    order: Seq<usize>,
)
    requires
        generation != p.generation || p.status != Status::Playing,
    ensures
        p.after(Event::TrackFinished { generation, played_nothing }, order) == (p, Action::Nothing),
{
}

/// Every start is tagged with a generation of its own, so its end cannot
/// be taken for the end of the track before it.
pub proof fn law_each_start_has_a_new_generation(p: PlayerView, event: Event, order: Seq<usize>)
    requires
        p.after(event, order).1 is Start,
    ensures
        p.after(event, order).1 == (Action::Start {
            track: p.after(event, order).1->track,
            generation: p.after(event, order).0.generation,
        }),
        p.after(event, order).0.generation != p.generation,
{
    match event {
        Event::Play { .. } => {},
        Event::Enqueue(_) => {},
        Event::PlayNext(_) => {},
        Event::JumpTo(_) => {},
        Event::PlayPause => {},
        Event::Stop => {},
        Event::Next => {},
        Event::Previous { .. } => {},
        Event::Seek { .. } => {},
        Event::VolumeChanged => {},
        Event::SetShuffle(_) => {},
        Event::SetRepeat(_) => {},
        Event::SetStopAfterCurrent(_) => {},
        Event::ReportState => {},
        Event::TrackFinished { .. } => {},
        Event::Started => {},
        Event::StartFailed(_) => {},
        Event::SeekFailed(_) => {},
    }
}

/// Every seek asked for is counted, whether or not it can be carried out,
/// so the frontend always learns that its seek was dealt with.
pub proof fn law_every_seek_is_counted(
    p: PlayerView,
    position_ms: u64,
    sink_empty: bool,
    order: Seq<usize>,
)
    ensures
        p.after(Event::Seek { position_ms, sink_empty }, order).0.seeks_applied == bumped(
            p.seeks_applied,
        ),
        p.after(Event::Seek { position_ms, sink_empty }, order).1 == (if p.status == Status::Stopped
            || sink_empty {
            Action::Nothing
        } else {
            Action::Seek { position_ms }
        }),
{
}

/// A track that cannot be played is skipped for the next one, but a start
/// gives up, and playback stops, once as many tracks in a row as
/// [`MAX_SKIPS`] could not be played.
pub proof fn law_unplayable_tracks_are_skipped_then_given_up(
    p: PlayerView,
    message: String,
    order: Seq<usize>,
)
    requires
        p.wf(),
        p.starting is Some,
    ensures
        p.after(Event::StartFailed(message), order).0.error == Some(message@),
        p.starting->0 + 1 >= MAX_SKIPS ==> p.after(Event::StartFailed(message), order) == (
        PlayerView { error: Some(message@), queue: p.queue.step(order).0, ..p }).stopped(),
        p.after(Event::StartFailed(message), order).1 is Start ==> p.after(
            Event::StartFailed(message),
            order,
        ).0.starting == Some((p.starting->0 + 1) as usize),
{
}

/// A run of tracks that each end before really playing stops the player
/// with an error once it reaches [`MAX_SKIPS`], instead of spinning
/// through the queue.
pub proof fn law_a_run_of_empty_tracks_stops(p: PlayerView, order: Seq<usize>)
    requires
        p.wf(),
        p.status == Status::Playing,
        p.empty_tracks + 1 == MAX_SKIPS,
    ensures
        p.after(Event::TrackFinished { generation: p.generation, played_nothing: true }, order)
            == (PlayerView { error: Some(NO_AUDIO@), empty_tracks: MAX_SKIPS, ..p }).stopped(),
{
}

} // verus!
