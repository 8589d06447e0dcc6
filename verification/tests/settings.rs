use satsuma::records::{library_stats, saturating_millis, stored_length};
use satsuma::settings::{temporary_path, Playlist, Settings, FILE_NAME};
use satsuma::text::non_empty;

#[test]
fn the_new_settings_are_written_beside_the_old() {
    assert_eq!(temporary_path("/data/settings.json"), "/data/settings.json.new");
    assert_eq!(FILE_NAME, "settings.json");
}

#[test]
fn default_settings_hold_nothing() {
    let settings = Settings::default();
    assert!(settings.folders.is_empty());
    assert!(settings.playlists.is_empty());
}

#[test]
fn a_playlist_copy_is_equal() {
    let playlist = Playlist {
        id: 3,
        name: "Loud".to_owned(),
        tracks: vec!["/a.mp3".to_owned()],
    };
    assert_eq!(playlist.duplicate(), playlist);
}

#[test]
fn texts_are_trimmed_and_blank_ones_dropped() {
    assert_eq!(non_empty(Some("  Citrus ")), Some("Citrus".to_owned()));
    assert_eq!(non_empty(Some(" \u{a0}\t")), None);
    assert_eq!(non_empty(None), None);
}

#[test]
fn counts_are_held_to_what_they_can_hold() {
    assert_eq!(saturating_millis(1500), 1500);
    assert_eq!(saturating_millis(u128::MAX), u64::MAX);
    assert_eq!(stored_length(u64::MAX), i64::MAX);
    assert_eq!(stored_length(185_000), 185_000);
    let stats = library_stats(-1, 5000);
    assert_eq!(stats.track_count, 0);
    assert_eq!(stats.total_duration_ms, 5000);
}
