use satsuma::grouping::{Grouping, Kind, Vibe, Volume};
use satsuma::tags::{
    from_tag, is_audio_file, rating_edit, star_rating, untagged, RatingEdit, Stars, TagError,
    TagFields, TrackTags,
};

fn sample_fields() -> TagFields {
    TagFields {
        title: Some("Orange Sun".to_owned()),
        artist: Some("The Satsumas".to_owned()),
        album: Some("Citrus".to_owned()),
        album_artist: Some("Various Citrus".to_owned()),
        track_number: Some(3),
        disc_number: Some(1),
        genre: Some("Indie".to_owned()),
        year: Some(2024),
        rating: Some(4),
        grouping: Some("Chant / Loud / Happy".to_owned()),
        pictures: 0,
    }
}

#[test]
fn detects_audio_extensions_case_insensitively() {
    assert!(is_audio_file("a/b/song.mp3"));
    assert!(is_audio_file("a/b/song.FLAC"));
    assert!(!is_audio_file("a/b/cover.jpg"));
    assert!(!is_audio_file("a/b/noext"));
}

#[test]
fn reads_every_field_from_a_tagged_mp3() {
    let tags = from_tag(&sample_fields(), 1000);
    assert_eq!(tags.title.as_deref(), Some("Orange Sun"));
    assert_eq!(tags.artist.as_deref(), Some("The Satsumas"));
    assert_eq!(tags.album.as_deref(), Some("Citrus"));
    assert_eq!(tags.album_artist.as_deref(), Some("Various Citrus"));
    assert_eq!(tags.track_number, Some(3));
    assert_eq!(tags.disc_number, Some(1));
    assert_eq!(tags.genre.as_deref(), Some("Indie"));
    assert_eq!(tags.year, Some(2024));
    assert!((900..=1200).contains(&tags.duration_ms), "{}", tags.duration_ms);
    assert_eq!(tags.rating, Some(4));
    assert_eq!(tags.grouping_raw.as_deref(), Some("Chant / Loud / Happy"));
    assert_eq!(
        tags.grouping,
        Some(Grouping {
            kind: Some(Kind::Chant),
            volume: Some(Volume::Loud),
            vibe: Some(Vibe::Happy),
        })
    );
    assert!(!tags.has_embedded_cover);
}

#[test]
fn untagged_file_still_has_a_duration() {
    let tags = untagged(1044);
    assert_eq!(tags.title, None);
    assert_eq!(tags.rating, None);
    assert!(tags.duration_ms > 0);
}

#[test]
fn keeps_raw_grouping_when_it_does_not_follow_the_rules() {
    let fields = TagFields {
        grouping: Some("Workout".to_owned()),
        ..sample_fields()
    };
    let tags = from_tag(&fields, 0);
    assert_eq!(tags.grouping_raw.as_deref(), Some("Workout"));
    assert_eq!(tags.grouping, None);
}

#[test]
fn detects_embedded_cover() {
    let fields = TagFields {
        pictures: 1,
        ..sample_fields()
    };
    assert!(from_tag(&fields, 0).has_embedded_cover);
}

#[test]
fn an_impossible_rating_is_treated_as_no_rating() {
    assert_eq!(rating_edit(Some(9)), RatingEdit::Remove);
    assert_eq!(rating_edit(Some(0)), RatingEdit::Remove);
}

// Further cases.

#[test]
fn a_rating_is_written_the_way_windows_media_player_reads_it() {
    assert_eq!(
        rating_edit(Some(4)),
        RatingEdit::Write("Windows Media Player 9 Series|4|0".to_owned())
    );
    assert_eq!(
        rating_edit(Some(1)),
        RatingEdit::Write("Windows Media Player 9 Series|1|0".to_owned())
    );
    assert_eq!(rating_edit(None), RatingEdit::Remove);
}

#[test]
fn stars_are_one_to_five() {
    assert_eq!(star_rating(0), None);
    assert_eq!(star_rating(1), Some(Stars::One));
    assert_eq!(star_rating(5), Some(Stars::Five));
    assert_eq!(star_rating(6), None);
}

#[test]
fn blank_texts_are_no_texts_and_the_rest_is_trimmed() {
    let fields = TagFields {
        title: Some("   ".to_owned()),
        artist: Some("  The Satsumas\t".to_owned()),
        grouping: Some(" Instru / / Dark ".to_owned()),
        ..sample_fields()
    };
    let tags = from_tag(&fields, 5);
    assert_eq!(tags.title, None);
    assert_eq!(tags.artist.as_deref(), Some("The Satsumas"));
    assert_eq!(tags.grouping_raw.as_deref(), Some("Instru / / Dark"));
    assert_eq!(
        tags.grouping,
        Some(Grouping {
            kind: Some(Kind::Instru),
            volume: None,
            vibe: Some(Vibe::Dark),
        })
    );
}

#[test]
fn no_tag_is_the_defaults_with_a_length() {
    let tags = untagged(77);
    assert_eq!(
        tags,
        TrackTags {
            duration_ms: 77,
            ..TrackTags::default()
        }
    );
}

#[test]
fn the_error_message_names_the_file_and_the_cause() {
    let read = TagError::Read {
        path: "/m/broken.mp3".to_owned(),
        message: "failed to parse: bad header".to_owned(),
    };
    let message = read.to_string();
    assert_eq!(message, "cannot read /m/broken.mp3: failed to parse: bad header");
    assert!(message.matches(':').count() >= 2);
    let write = TagError::Write {
        path: "/m/a.flac".to_owned(),
        message: "the file holds no tag that could be written".to_owned(),
    };
    assert_eq!(
        write.to_string(),
        "cannot write /m/a.flac: the file holds no tag that could be written"
    );
}
