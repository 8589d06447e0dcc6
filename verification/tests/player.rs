use satsuma::player::{Action, Event, PlayerCore, Status, MAX_SKIPS};
use satsuma::queue::Repeat;
use satsuma::records::Track;

fn playable(id: i64) -> Track {
    Track {
        id,
        path: format!("/music/{id}.mp3"),
        title: Some(format!("Track {id}")),
        artist: None,
        album: None,
        duration_ms: 1000,
    }
}

fn missing(id: i64) -> Track {
    Track {
        id,
        path: format!("/definitely/missing{id}.mp3"),
        title: None,
        artist: None,
        album: None,
        duration_ms: 1000,
    }
}

/// Hands `event` to the player and plays the part of the audio output:
/// a track under `/definitely/` cannot be opened, any other one plays.
/// Returns every action the player asked for.
fn send(core: &mut PlayerCore, event: Event) -> Vec<Action> {
    let mut actions = Vec::new();
    let mut action = core.handle(event);
    loop {
        actions.push(action.clone());
        match action {
            Action::Start { track, .. } => {
                action = if track.path.starts_with("/definitely/") {
                    core.handle(Event::StartFailed(format!("cannot open {}", track.path)))
                } else {
                    core.handle(Event::Started)
                };
            }
            _ => return actions,
        }
    }
}

fn playing_id(core: &PlayerCore) -> Option<i64> {
    core.snapshot(None).track.map(|track| track.id)
}

fn started_generation(actions: &[Action]) -> Option<u64> {
    actions.iter().rev().find_map(|action| match action {
        Action::Start { generation, .. } => Some(*generation),
        _ => None,
    })
}

#[test]
fn reports_its_state_and_shuts_down() {
    let mut core = PlayerCore::new();
    assert_eq!(send(&mut core, Event::ReportState), [Action::Nothing]);
    let shown = core.snapshot(None);
    assert_eq!(shown.status, Status::Stopped);
    assert_eq!(shown.track, None);
    assert_eq!(shown.queue_length, 0);
}

#[test]
fn commands_never_panic_without_an_audio_device() {
    let mut core = PlayerCore::new();
    let events = vec![
        Event::Play {
            tracks: vec![missing(1), missing(2)],
            start: Some(0),
        },
        Event::VolumeChanged,
        Event::SetShuffle(true),
        Event::SetRepeat(Repeat::Queue),
        Event::SetStopAfterCurrent(true),
        Event::Seek {
            position_ms: 5000,
            sink_empty: true,
        },
        Event::Next,
        Event::Previous {
            well_underway: false,
        },
        Event::PlayPause,
        Event::Stop,
        Event::Enqueue(vec![missing(3)]),
        Event::PlayNext(0),
        Event::JumpTo(0),
        Event::TrackFinished {
            generation: 0,
            played_nothing: false,
        },
        Event::ReportState,
    ];
    for event in events {
        send(&mut core, event);
    }
    assert_eq!(core.snapshot(None).status, Status::Stopped);
}

#[test]
fn a_missing_file_is_reported_without_stopping_the_player() {
    let mut core = PlayerCore::new();
    send(
        &mut core,
        Event::Play {
            tracks: vec![missing(1)],
            start: Some(0),
        },
    );
    send(&mut core, Event::ReportState);
    let last = core.snapshot(None);
    assert_eq!(last.status, Status::Stopped, "nothing can play");
    assert!(last.error.is_some(), "the failure must be reported");
}

#[test]
fn plays_a_real_file_and_moves_through_the_queue() {
    let mut core = PlayerCore::new();
    let actions = send(
        &mut core,
        Event::Play {
            tracks: vec![playable(1), playable(2)],
            start: Some(0),
        },
    );
    assert_eq!(core.snapshot(None).status, Status::Playing);
    assert_eq!(playing_id(&core), Some(1));

    let generation = started_generation(&actions).expect("a start");
    send(
        &mut core,
        Event::TrackFinished {
            generation,
            played_nothing: false,
        },
    );
    assert_eq!(playing_id(&core), Some(2), "the queue must advance when a track ends");
    assert_eq!(core.snapshot(None).status, Status::Playing);

    assert_eq!(send(&mut core, Event::PlayPause), [Action::Pause]);
    let paused = core.snapshot(None);
    assert_eq!(paused.status, Status::Paused);
    assert!(paused.track.is_some(), "a paused player keeps its track");

    assert_eq!(send(&mut core, Event::Stop), [Action::Stop]);
    let stopped = core.snapshot(None);
    assert_eq!(stopped.status, Status::Stopped);
    assert_eq!(stopped.track, None, "nothing plays once stopped");
}

#[test]
fn an_unplayable_track_is_skipped_rather_than_ending_the_session() {
    let mut core = PlayerCore::new();
    send(
        &mut core,
        Event::Play {
            tracks: vec![missing(9), playable(2)],
            start: Some(0),
        },
    );
    let playing = core.snapshot(None);
    assert_eq!(playing.status, Status::Playing);
    assert_eq!(
        playing.track.map(|track| track.id),
        Some(2),
        "the file that cannot be read is skipped"
    );
    assert!(playing.error.is_some(), "the skipped file is still reported");
}

#[test]
fn a_queue_of_unplayable_tracks_stops_instead_of_spinning() {
    let mut core = PlayerCore::new();
    send(&mut core, Event::SetRepeat(Repeat::Queue));
    let actions = send(
        &mut core,
        Event::Play {
            tracks: (1..=5).map(missing).collect(),
            start: Some(0),
        },
    );
    send(&mut core, Event::ReportState);
    let stopped = core.snapshot(None);
    assert_eq!(stopped.status, Status::Stopped);
    assert!(stopped.error.is_some());
    let starts = actions
        .iter()
        .filter(|action| matches!(action, Action::Start { .. }))
        .count();
    assert_eq!(starts, MAX_SKIPS, "it gives up after as many tries as it allows");
}

#[test]
fn seeking_is_counted_even_when_it_cannot_be_done() {
    let mut core = PlayerCore::new();
    send(
        &mut core,
        Event::Play {
            tracks: vec![playable(1)],
            start: Some(0),
        },
    );
    let before = core.snapshot(None).seeks_applied;
    let asked = send(
        &mut core,
        Event::Seek {
            position_ms: 200,
            sink_empty: false,
        },
    );
    assert_eq!(asked, [Action::Seek { position_ms: 200 }]);
    send(&mut core, Event::SeekFailed("not seekable".to_owned()));
    let after = core.snapshot(None);
    assert!(after.seeks_applied > before, "the frontend needs to know the seek was handled");
    assert_eq!(
        after.error.as_deref(),
        Some("cannot seek in this file: not seekable")
    );
}

// Further cases.

#[test]
fn asking_for_the_state_keeps_the_last_error() {
    let mut core = PlayerCore::new();
    send(
        &mut core,
        Event::Play {
            tracks: vec![missing(1)],
            start: Some(0),
        },
    );
    assert!(core.snapshot(None).error.is_some());
    send(&mut core, Event::ReportState);
    assert!(core.snapshot(None).error.is_some());
    send(&mut core, Event::VolumeChanged);
    assert_eq!(core.snapshot(None).error, None, "a command clears it");
}

#[test]
fn the_end_of_a_track_skipped_away_from_is_ignored() {
    let mut core = PlayerCore::new();
    let first = send(
        &mut core,
        Event::Play {
            tracks: vec![playable(1), playable(2), playable(3)],
            start: Some(0),
        },
    );
    let old = started_generation(&first).expect("a start");
    send(&mut core, Event::Next);
    assert_eq!(playing_id(&core), Some(2));
    assert_eq!(
        send(
            &mut core,
            Event::TrackFinished {
                generation: old,
                played_nothing: false
            }
        ),
        [Action::Nothing]
    );
    assert_eq!(playing_id(&core), Some(2));
}

#[test]
fn tracks_that_play_nothing_stop_the_player_after_a_run() {
    let mut core = PlayerCore::new();
    send(&mut core, Event::SetRepeat(Repeat::Track));
    let mut actions = send(
        &mut core,
        Event::Play {
            tracks: vec![playable(1)],
            start: Some(0),
        },
    );
    for _ in 0..MAX_SKIPS {
        let generation = started_generation(&actions).expect("a start");
        actions = send(
            &mut core,
            Event::TrackFinished {
                generation,
                played_nothing: true,
            },
        );
    }
    let shown = core.snapshot(None);
    assert_eq!(shown.status, Status::Stopped);
    assert_eq!(shown.error.as_deref(), Some("these files hold no audio to play"));
}

#[test]
fn previous_well_into_a_track_starts_it_over() {
    let mut core = PlayerCore::new();
    send(
        &mut core,
        Event::Play {
            tracks: vec![playable(1), playable(2)],
            start: Some(1),
        },
    );
    let actions = send(&mut core, Event::Previous { well_underway: true });
    assert!(matches!(&actions[0], Action::Start { track, .. } if track.id == 2));
    let actions = send(&mut core, Event::Previous { well_underway: false });
    assert!(matches!(&actions[0], Action::Start { track, .. } if track.id == 1));
}

#[test]
fn play_pause_from_stopped_starts_the_queue() {
    let mut core = PlayerCore::new();
    send(&mut core, Event::Enqueue(vec![playable(5), playable(6)]));
    assert_eq!(playing_id(&core), Some(5), "enqueueing onto nothing starts playing");
    send(&mut core, Event::Stop);
    let actions = send(&mut core, Event::PlayPause);
    assert!(matches!(&actions[0], Action::Start { track, .. } if track.id == 5));
    assert_eq!(send(&mut core, Event::PlayPause), [Action::Pause]);
    assert_eq!(send(&mut core, Event::PlayPause), [Action::Resume]);
}

#[test]
fn the_measured_length_is_shown_when_there_is_one() {
    let mut core = PlayerCore::new();
    send(
        &mut core,
        Event::Play {
            tracks: vec![playable(1)],
            start: None,
        },
    );
    assert_eq!(core.snapshot(Some(2345)).track.map(|t| t.duration_ms), Some(2345));
    assert_eq!(core.snapshot(Some(0)).track.map(|t| t.duration_ms), Some(1000));
    assert_eq!(core.snapshot(None).track.map(|t| t.duration_ms), Some(1000));
}

#[test]
fn a_seek_while_stopped_asks_nothing_of_the_output() {
    let mut core = PlayerCore::new();
    assert_eq!(
        send(
            &mut core,
            Event::Seek {
                position_ms: 10,
                sink_empty: false
            }
        ),
        [Action::Nothing]
    );
    assert_eq!(core.snapshot(None).seeks_applied, 1);
}

#[test]
fn giving_up_leaves_the_queue_past_the_last_track_tried() {
    let mut core = PlayerCore::new();
    send(
        &mut core,
        Event::Play {
            tracks: (1..=25).map(missing).collect(),
            start: Some(0),
        },
    );
    assert_eq!(core.snapshot(None).status, Status::Stopped);
    let again = core.handle(Event::PlayPause);
    assert!(matches!(&again, Action::Start { track, .. } if track.id == 21));
}

#[test]
fn play_under_shuffle_starts_at_the_track_chosen() {
    let mut core = PlayerCore::new();
    send(&mut core, Event::SetShuffle(true));
    let actions = send(
        &mut core,
        Event::Play {
            tracks: (1..=10).map(playable).collect(),
            start: Some(6),
        },
    );
    assert!(matches!(&actions[0], Action::Start { track, .. } if track.id == 7));
    send(&mut core, Event::SetShuffle(false));
    assert_eq!(playing_id(&core), Some(7), "turning shuffle off keeps the track");
}
