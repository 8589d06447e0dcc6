use satsuma::commands::{
    add_to_playlist_in, check_name, check_stars, create_playlist_in, delete_playlist_in,
    enqueue_library_request, enqueue_request, missing_unless, next_playlist_id, now_playing,
    ping_reply, play_library_request, play_request, rename_playlist_in, repeat_named,
    resolve_playlists, restore_folders, start_position, ScanStatus,
};
use satsuma::cover::Key;
use satsuma::player::Event;
use satsuma::queue::Repeat;
use satsuma::records::{LibraryRow, Track, TrackDetails};
use satsuma::settings::{Playlist, Settings};

fn playlist(id: u32) -> Playlist {
    Playlist {
        id,
        name: format!("Playlist {id}"),
        tracks: Vec::new(),
    }
}

fn library_row(id: i64, path: &str) -> LibraryRow {
    LibraryRow {
        id,
        path: path.to_owned(),
        genre: None,
        artist: None,
        album: None,
        title: None,
        track_number: None,
        disc_number: None,
        rating: None,
        grouping: None,
        duration_ms: 1000,
    }
}

fn library_track(id: i64) -> Track {
    Track {
        id,
        path: format!("/music/{id}.mp3"),
        title: None,
        artist: None,
        album: None,
        duration_ms: 1000,
    }
}

fn details(album_artist: Option<&str>, artist: Option<&str>, album: Option<&str>, path: &str) -> TrackDetails {
    TrackDetails {
        id: 1,
        path: path.to_owned(),
        title: None,
        artist: artist.map(str::to_owned),
        album_artist: album_artist.map(str::to_owned),
        album: album.map(str::to_owned),
        genre: None,
        year: None,
        track_number: None,
        disc_number: None,
        rating: None,
        grouping: None,
        duration_ms: 0,
    }
}

#[test]
fn a_playlist_keeps_its_order_and_loses_only_what_left_the_library() {
    let rows = [
        library_row(1, "/music/a.mp3"),
        library_row(2, "/music/b.mp3"),
    ];
    let saved = vec![Playlist {
        id: 1,
        name: "Mine".to_owned(),
        tracks: vec![
            "/music/b.mp3".to_owned(),
            "/music/gone.mp3".to_owned(),
            "/music/a.mp3".to_owned(),
            "/music/b.mp3".to_owned(),
        ],
    }];

    let resolved = resolve_playlists(saved, &rows);
    let ids: Vec<i64> = resolved[0].tracks.iter().map(|track| track.id).collect();
    assert_eq!(
        ids,
        [2, 1, 2],
        "the order stands, a track listed twice stays twice, and the \
         one that is gone simply drops out"
    );
}

#[test]
fn a_playlist_name_cannot_be_empty() {
    assert_eq!(check_name("  Loud  "), Ok("Loud".to_owned()));
    assert_eq!(check_name("   ").unwrap_err(), "a playlist needs a name");
}

#[test]
fn a_change_to_a_playlist_that_is_gone_is_reported() {
    let mut settings = Settings::default();
    let gone = create_playlist_in(&mut settings, "Mine").expect("create");
    let kept = create_playlist_in(&mut settings, "Kept").expect("create");

    delete_playlist_in(&mut settings, gone).expect("delete");
    let deleted = delete_playlist_in(&mut settings, gone);
    let renamed = rename_playlist_in(&mut settings, gone, "Other");
    let added = add_to_playlist_in(&mut settings, gone, &vec!["/music/1.mp3".to_owned()]);
    for (what, outcome) in [("delete", deleted), ("rename", renamed), ("add tracks", added)] {
        assert_eq!(
            outcome.unwrap_err(),
            "that playlist is not there any more",
            "{what} on a playlist that is gone"
        );
    }

    let left = settings.playlists;
    assert_eq!(left.len(), 1, "a refused change must add nothing");
    assert_eq!(left[0].id, kept, "and must not touch the one still there");
    assert_eq!(left[0].name, "Kept", "least of all rename it");
    assert!(left[0].tracks.is_empty(), "nor give it tracks");
}

#[test]
fn a_playlist_is_created_renamed_and_deleted() {
    let mut settings = Settings::default();

    let first = create_playlist_in(&mut settings, "  Loud  ").expect("create");
    assert_eq!(
        settings.playlists[0].name, "Loud",
        "the name is stored without the spaces around it"
    );
    assert_eq!(
        create_playlist_in(&mut settings, "  ").unwrap_err(),
        "a playlist needs a name"
    );

    let second = create_playlist_in(&mut settings, "Quiet").expect("create");
    assert_ne!(first, second);

    rename_playlist_in(&mut settings, first, "Louder").expect("rename");
    assert_eq!(settings.playlists[0].name, "Louder");
    assert_eq!(settings.playlists[1].name, "Quiet", "only the one asked for");

    delete_playlist_in(&mut settings, first).expect("delete");
    assert_eq!(settings.playlists.len(), 1);
    assert_eq!(settings.playlists[0].id, second);
}

#[test]
fn a_new_playlist_id_never_collides_with_a_live_one() {
    assert_eq!(next_playlist_id(&[]), 1);
    assert_eq!(next_playlist_id(&[playlist(1), playlist(2)]), 3);
    // The highest was deleted: counting would hand out 2 again.
    assert_eq!(next_playlist_id(&[playlist(1), playlist(7)]), 8);
}

#[test]
fn the_first_caller_runs_the_scan() {
    let mut status = ScanStatus::default();
    assert!(status.claim());
    assert!(!status.finish_pass());
    assert!(!status.running);
}

#[test]
fn a_scan_asked_for_during_a_scan_runs_one_more_pass() {
    let mut status = ScanStatus::default();
    assert!(status.claim());
    // Two requests while the scan runs collapse into a single extra pass.
    assert!(!status.claim());
    assert!(!status.claim());
    assert!(status.finish_pass(), "the queued pass must run");
    assert!(status.running, "the slot stays claimed between passes");
    assert!(!status.finish_pass());
    assert!(!status.running);
}

#[test]
fn aborting_releases_the_slot_and_forgets_queued_passes() {
    let mut status = ScanStatus::default();
    assert!(status.claim());
    assert!(!status.claim());
    status.abort();
    assert!(!status.running);
    assert!(status.claim(), "a later scan can claim the slot again");
    assert!(!status.finish_pass(), "the queued pass was forgotten");
}

#[test]
fn ping_reply_contains_name_and_version() {
    let reply = ping_reply();
    assert!(reply.starts_with("satsuma "));
    assert!(reply.ends_with("0.1.0"));
}

#[test]
fn the_cover_key_names_the_album_the_track_belongs_to() {
    let first = now_playing(details(None, Some("Alpha"), Some("Citrus"), "/music/1.mp3"));
    let second = now_playing(details(None, Some("Alpha"), Some("Citrus"), "/music/2.mp3"));
    assert_eq!(
        first.cover_key, second.cover_key,
        "two tracks of one record must ask for the same cover"
    );

    let elsewhere = now_playing(details(None, Some("Alpha"), Some("Lemon"), "/music/3.mp3"));
    assert_ne!(
        first.cover_key, elsewhere.cover_key,
        "another record is another cover"
    );

    assert_eq!(
        Key::decode(&first.cover_key),
        Some(Key::Album {
            artist: "Alpha".to_owned(),
            album: "Citrus".to_owned()
        })
    );

    let one = now_playing(details(
        Some("Various"),
        Some("Beta"),
        Some("Citrus"),
        "/music/4.mp3",
    ));
    let other = now_playing(details(
        Some("Various"),
        Some("Delta"),
        Some("Citrus"),
        "/music/5.mp3",
    ));
    assert_eq!(one.cover_key, other.cover_key);
    assert_ne!(
        first.cover_key, one.cover_key,
        "Alpha's Citrus and Various' Citrus are two records that share a name"
    );
}

#[test]
fn a_record_tagged_inconsistently_is_two_records() {
    let track = |album_artist: Option<&str>| {
        now_playing(details(album_artist, Some("Alpha"), Some("Citrus"), "/music/1.mp3")).cover_key
    };
    assert_ne!(track(None), track(Some("The Satsumas")));
    assert_eq!(
        track(None),
        track(Some("   ")),
        "an album artist of only spaces is none at all, not a third record"
    );
}

#[test]
fn the_panel_is_told_everything_it_shows() {
    let mut shown = details(Some("Various"), Some("The Satsumas"), Some("Citrus"), "/music/1.mp3");
    shown.title = Some("Orange Sun".to_owned());
    shown.genre = Some("Indie".to_owned());
    shown.year = Some(1998);
    shown.track_number = Some(3);
    shown.disc_number = Some(1);
    shown.rating = Some(4);
    shown.grouping = Some("Chant / Loud / Happy".to_owned());
    shown.duration_ms = 185_000;
    let panel = now_playing(shown.clone());
    let details = panel.track;
    assert_eq!(details.year, Some(1998));
    assert_eq!(details.album_artist.as_deref(), Some("Various"));
    assert_eq!(details.title.as_deref(), Some("Orange Sun"));
    assert_eq!(details.artist.as_deref(), Some("The Satsumas"));
    assert_eq!(details.album.as_deref(), Some("Citrus"));
    assert_eq!(details.genre.as_deref(), Some("Indie"));
    assert_eq!(details.track_number, Some(3));
    assert_eq!(details.disc_number, Some(1));
    assert_eq!(details.rating, Some(4));
    assert_eq!(details.grouping.as_deref(), Some("Chant / Loud / Happy"));
    assert_eq!(details.duration_ms, 185_000);
}

// Further cases.

#[test]
fn a_found_change_is_no_error() {
    assert_eq!(missing_unless(true), Ok(()));
    assert_eq!(
        missing_unless(false).unwrap_err(),
        "that playlist is not there any more"
    );
}

#[test]
fn tracks_are_added_to_the_end_of_a_playlist() {
    let mut settings = Settings::default();
    let id = create_playlist_in(&mut settings, "Mine").expect("create");
    add_to_playlist_in(&mut settings, id, &vec!["/a.mp3".to_owned()]).expect("add");
    add_to_playlist_in(&mut settings, id, &vec!["/b.mp3".to_owned(), "/a.mp3".to_owned()])
        .expect("add");
    assert_eq!(settings.playlists[0].tracks, ["/a.mp3", "/b.mp3", "/a.mp3"]);
}

#[test]
fn a_deleted_playlist_id_is_not_handed_out_while_a_higher_one_lives() {
    let mut settings = Settings::default();
    let first = create_playlist_in(&mut settings, "One").expect("create");
    let second = create_playlist_in(&mut settings, "Two").expect("create");
    delete_playlist_in(&mut settings, first).expect("delete");
    let third = create_playlist_in(&mut settings, "Three").expect("create");
    assert_eq!((first, second, third), (1, 2, 3));
}

#[test]
fn repeat_modes_are_named_in_lower_case() {
    assert_eq!(repeat_named("off"), Ok(Repeat::Off));
    assert_eq!(repeat_named("track"), Ok(Repeat::Track));
    assert_eq!(repeat_named("queue"), Ok(Repeat::Queue));
    assert_eq!(
        repeat_named("Queue").unwrap_err(),
        "unknown repeat mode: Queue"
    );
}

#[test]
fn a_rating_is_one_to_five_stars_or_none() {
    assert_eq!(check_stars(None), Ok(()));
    assert_eq!(check_stars(Some(1)), Ok(()));
    assert_eq!(check_stars(Some(5)), Ok(()));
    assert_eq!(
        check_stars(Some(0)).unwrap_err(),
        "a rating is one to five stars, not 0"
    );
    assert_eq!(
        check_stars(Some(255)).unwrap_err(),
        "a rating is one to five stars, not 255"
    );
}

#[test]
fn playing_starts_at_the_track_picked_if_it_is_still_there() {
    let tracks = vec![library_track(4), library_track(9), library_track(4)];
    assert_eq!(start_position(&tracks, Some(9)), Some(1));
    assert_eq!(start_position(&tracks, Some(4)), Some(0));
    assert_eq!(start_position(&tracks, Some(5)), None);
    assert_eq!(start_position(&tracks, None), None);
}

#[test]
fn asking_to_play_nothing_is_refused() {
    assert_eq!(
        play_request(Vec::new(), Some(1)).unwrap_err(),
        "none of those tracks are in the library any more"
    );
    assert_eq!(
        enqueue_request(Vec::new()).unwrap_err(),
        "none of those tracks are in the library any more"
    );
    assert_eq!(
        play_library_request(Vec::new()).unwrap_err(),
        "the library is empty; scan a folder first"
    );
    assert_eq!(
        enqueue_library_request(Vec::new()).unwrap_err(),
        "the library is empty; scan a folder first"
    );
}

#[test]
fn playing_tracks_names_where_to_start() {
    assert_eq!(
        play_request(vec![library_track(1), library_track(2)], Some(2)),
        Ok(Event::Play {
            tracks: vec![library_track(1), library_track(2)],
            start: Some(1)
        })
    );
    assert_eq!(
        play_library_request(vec![library_track(1)]),
        Ok(Event::Play {
            tracks: vec![library_track(1)],
            start: None
        })
    );
    assert_eq!(
        enqueue_request(vec![library_track(3)]),
        Ok(Event::Enqueue(vec![library_track(3)]))
    );
    assert_eq!(
        enqueue_library_request(vec![library_track(3)]),
        Ok(Event::Enqueue(vec![library_track(3)]))
    );
}

#[test]
fn only_folders_the_library_lost_are_restored() {
    let remembered = vec!["/a".to_owned(), "/b".to_owned(), "/c".to_owned()];
    let known = vec!["/b".to_owned()];
    assert_eq!(restore_folders(&remembered, &known), ["/a", "/c"]);
    assert!(restore_folders(&remembered, &remembered).is_empty());
}
