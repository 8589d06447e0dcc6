use satsuma::queue::{Advance, Queue, Repeat};
use satsuma::records::Track;

fn track(id: i64) -> Track {
    Track {
        id,
        path: format!("/music/{id}.mp3"),
        title: Some(format!("Track {id}")),
        artist: None,
        album: None,
        duration_ms: 1000,
    }
}

fn tracks(count: i64) -> Vec<Track> {
    (1..=count).map(track).collect()
}

fn playing(advance: &Advance) -> Option<i64> {
    match advance {
        Advance::Play(track) => Some(track.id),
        Advance::Stop => None,
    }
}

fn queue_of(count: i64) -> Queue {
    let mut queue = Queue::new();
    queue.replace(tracks(count), 0);
    queue
}

#[test]
fn plays_the_track_it_starts_on() {
    let mut queue = Queue::new();
    assert_eq!(queue.replace(tracks(3), 1).map(|t| t.id), Some(2));
    assert_eq!(queue.current().map(|t| t.id), Some(2));
    assert_eq!(queue.current_index(), Some(1));
    assert_eq!(queue.len(), 3);
}

#[test]
fn walks_the_queue_and_stops_at_the_end() {
    let mut queue = queue_of(3);
    assert_eq!(playing(&queue.skip_forward()), Some(2));
    assert_eq!(playing(&queue.skip_forward()), Some(3));
    assert_eq!(queue.skip_forward(), Advance::Stop);
}

#[test]
fn previous_stays_on_the_first_track() {
    let mut queue = queue_of(3);
    assert_eq!(playing(&queue.skip_forward()), Some(2));
    assert_eq!(playing(&queue.previous()), Some(1));
    assert_eq!(
        playing(&queue.previous()),
        Some(1),
        "pressing previous at the start replays the first track"
    );
}

#[test]
fn repeat_track_plays_the_same_track_again() {
    let mut queue = queue_of(3);
    queue.set_repeat(Repeat::Track);
    assert_eq!(playing(&queue.advance()), Some(1));
    assert_eq!(playing(&queue.advance()), Some(1));
    assert_eq!(
        playing(&queue.skip_forward()),
        Some(2),
        "asking for the next track ignores repeat track"
    );
}

#[test]
fn repeat_queue_starts_over() {
    let mut queue = queue_of(2);
    assert_eq!(playing(&queue.advance()), Some(2));
    queue.set_repeat(Repeat::Queue);
    assert_eq!(playing(&queue.advance()), Some(1));
}

#[test]
fn stop_after_current_stops_once() {
    let mut queue = queue_of(3);
    queue.set_stop_after_current(true);
    assert_eq!(queue.advance(), Advance::Stop);
    assert!(
        !queue.stop_after_current(),
        "the flag clears itself once it applied"
    );
    assert_eq!(playing(&queue.advance()), Some(2));
}

#[test]
fn stop_after_current_wins_over_repeat_track() {
    let mut queue = queue_of(2);
    queue.set_repeat(Repeat::Track);
    queue.set_stop_after_current(true);
    assert_eq!(queue.advance(), Advance::Stop);
}

#[test]
fn a_queued_track_plays_before_the_rest() {
    let mut queue = queue_of(4);
    queue.play_next(3);
    assert_eq!(playing(&queue.advance()), Some(4), "the queued track first");
    assert_eq!(
        playing(&queue.advance()),
        Some(2),
        "then the queue carries on where it was, after track 1"
    );
    assert_eq!(playing(&queue.advance()), Some(3));
}

#[test]
fn queued_tracks_keep_their_order() {
    let mut queue = queue_of(5);
    queue.play_next(4);
    queue.play_next(3);
    assert_eq!(playing(&queue.advance()), Some(5));
    assert_eq!(playing(&queue.advance()), Some(4));
    assert_eq!(
        playing(&queue.advance()),
        Some(2),
        "the queue resumes only once every queued track has played"
    );
}

#[test]
fn shuffle_keeps_the_current_track_and_plays_everything_once() {
    let mut queue = queue_of(20);
    assert_eq!(playing(&queue.skip_forward()), Some(2));
    queue.set_shuffle(true);
    assert_eq!(
        queue.current().map(|t| t.id),
        Some(2),
        "turning shuffle on must not change what is playing"
    );

    let mut played = vec![2];
    while let Advance::Play(track) = queue.skip_forward() {
        played.push(track.id);
    }
    played.sort_unstable();
    played.dedup();
    assert_eq!(played.len(), 20, "every track is played exactly once");
}

#[test]
fn appending_under_shuffle_keeps_the_pending_order_and_adds_the_rest() {
    let mut queue = queue_of(4);
    queue.set_shuffle(true);
    let pending: Vec<i64> = {
        let mut seen = Vec::new();
        let mut probe = Queue::new();
        probe.replace(tracks(0), 0);
        seen.clear();
        seen
    };
    assert!(pending.is_empty(), "probe queue is only a placeholder");

    queue.append(
        tracks(3)
            .into_iter()
            .map(|mut t| {
                t.id += 100;
                t
            })
            .collect(),
    );
    assert_eq!(queue.len(), 7);

    let mut played = vec![queue.current().map(|t| t.id).expect("a current track")];
    while let Advance::Play(track) = queue.skip_forward() {
        played.push(track.id);
    }
    played.sort_unstable();
    played.dedup();
    assert_eq!(played.len(), 7, "every track plays exactly once");
}

#[test]
fn a_shuffled_queue_repeats_with_every_track_again() {
    let mut queue = queue_of(6);
    queue.set_shuffle(true);
    queue.set_repeat(Repeat::Queue);

    let mut first_pass = vec![queue.current().map(|t| t.id).expect("a track")];
    for _ in 1..6 {
        match queue.advance() {
            Advance::Play(track) => first_pass.push(track.id),
            Advance::Stop => panic!("the queue must not stop before its end"),
        }
    }
    let mut second_pass = Vec::new();
    for _ in 0..6 {
        match queue.advance() {
            Advance::Play(track) => second_pass.push(track.id),
            Advance::Stop => panic!("repeat queue must start over"),
        }
    }
    first_pass.sort_unstable();
    second_pass.sort_unstable();
    assert_eq!(first_pass, second_pass, "both passes play every track");
}

#[test]
fn turning_shuffle_off_restores_the_original_order() {
    let mut queue = queue_of(5);
    queue.set_shuffle(true);
    queue.set_shuffle(false);
    assert_eq!(queue.current().map(|t| t.id), Some(1));
    assert_eq!(playing(&queue.skip_forward()), Some(2));
    assert_eq!(playing(&queue.skip_forward()), Some(3));
}

#[test]
fn appending_keeps_playing_and_extends_the_queue() {
    let mut queue = queue_of(2);
    queue.append(tracks(1));
    assert_eq!(queue.len(), 3);
    assert_eq!(queue.current().map(|t| t.id), Some(1));
    assert_eq!(playing(&queue.skip_forward()), Some(2));
    assert!(matches!(queue.skip_forward(), Advance::Play(_)));
}

#[test]
fn jumping_moves_to_the_chosen_track() {
    let mut queue = queue_of(4);
    assert_eq!(playing(&queue.jump_to(2)), Some(3));
    assert_eq!(queue.current_index(), Some(2));
    assert_eq!(queue.jump_to(99), Advance::Stop);
}

#[test]
fn an_empty_queue_plays_nothing() {
    let mut queue = Queue::new();
    assert!(queue.is_empty());
    assert_eq!(queue.current(), None);
    assert_eq!(queue.skip_forward(), Advance::Stop);
    assert_eq!(queue.previous(), Advance::Stop);
    assert_eq!(queue.advance(), Advance::Stop);
}

#[test]
fn jumping_away_forgets_where_the_queue_was() {
    let mut queue = queue_of(5);
    queue.play_next(4);
    assert_eq!(playing(&queue.advance()), Some(5), "the queued track");
    assert_eq!(playing(&queue.jump_to(2)), Some(3), "the user moves away");
    assert_eq!(
        playing(&queue.advance()),
        Some(4),
        "the queue carries on from where the user jumped, not from before"
    );
}

#[test]
fn turning_shuffle_on_during_a_queued_track_does_not_jump_back() {
    let mut queue = queue_of(6);
    queue.play_next(5);
    assert_eq!(playing(&queue.advance()), Some(6));
    queue.set_shuffle(true);
    assert_eq!(
        queue.current().map(|t| t.id),
        Some(6),
        "the queued track keeps playing"
    );
    assert!(matches!(queue.advance(), Advance::Play(_)));
}

// Laws on concrete values.

#[test]
fn every_track_plays_once_per_pass_even_shuffled() {
    let mut queue = queue_of(8);
    queue.set_shuffle(true);
    let mut played = vec![queue.current().map(|t| t.id).expect("a track")];
    while let Advance::Play(track) = queue.advance() {
        played.push(track.id);
    }
    played.sort_unstable();
    assert_eq!(played, (1..=8).collect::<Vec<i64>>());
}

#[test]
fn a_queued_track_is_followed_by_the_track_after_the_one_that_played() {
    let mut queue = queue_of(6);
    assert_eq!(playing(&queue.skip_forward()), Some(2));
    queue.play_next(5);
    assert_eq!(playing(&queue.skip_forward()), Some(6));
    assert_eq!(playing(&queue.skip_forward()), Some(3));
}

#[test]
fn an_index_out_of_range_is_not_queued() {
    let mut queue = queue_of(2);
    queue.play_next(7);
    assert_eq!(playing(&queue.advance()), Some(2));
    assert_eq!(queue.advance(), Advance::Stop);
}

#[test]
fn replacing_with_a_start_past_the_end_starts_at_the_top() {
    let mut queue = Queue::new();
    assert_eq!(queue.replace(tracks(3), usize::MAX).map(|t| t.id), Some(1));
    assert_eq!(queue.current_index(), Some(0));
}

#[test]
fn replacing_an_empty_list_plays_nothing() {
    let mut queue = Queue::new();
    assert_eq!(queue.replace(Vec::new(), 0), None);
    assert!(queue.is_empty());
}

#[test]
fn repeat_queue_without_shuffle_starts_at_the_first_track() {
    let mut queue = queue_of(3);
    queue.set_repeat(Repeat::Queue);
    assert_eq!(playing(&queue.jump_to(2)), Some(3));
    assert_eq!(playing(&queue.advance()), Some(1));
    assert_eq!(queue.current_index(), Some(0));
}

#[test]
fn settings_read_back_what_was_set() {
    let mut queue = queue_of(3);
    assert!(!queue.shuffle());
    assert_eq!(queue.repeat(), Repeat::Off);
    queue.set_shuffle(true);
    queue.set_repeat(Repeat::Track);
    queue.set_stop_after_current(true);
    assert!(queue.shuffle());
    assert_eq!(queue.repeat(), Repeat::Track);
    assert!(queue.stop_after_current());
}

#[test]
fn turning_shuffle_on_changes_the_order_of_what_follows() {
    let mut queue = queue_of(20);
    queue.set_shuffle(true);
    let mut order = vec![queue.current().map(|t| t.id).expect("a track")];
    while let Advance::Play(track) = queue.skip_forward() {
        order.push(track.id);
    }
    assert_eq!(order[0], 1, "the current track stays first");
    assert_ne!(order, (1..=20).collect::<Vec<i64>>(), "the rest is drawn anew");
}
