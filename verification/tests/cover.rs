use satsuma::cover::{
    candidates_for, cover_file, cover_response, cover_sources, from_hex, Candidates, CoverSource, media_type, mime_of, requested_key,
    to_hex, Cover, Key,
};

/// A one-pixel PNG, so a test can tell one picture from another by its
/// bytes rather than by hoping.
const PNG: &[u8] = &[
    0x89, 0x50, 0x4E, 0x47, 0x0D, 0x0A, 0x1A, 0x0A, 0x00, 0x00, 0x00, 0x0D, 0x49, 0x48, 0x44,
    0x52, 0x00, 0x00, 0x00, 0x01, 0x00, 0x00, 0x00, 0x01, 0x08, 0x06, 0x00, 0x00, 0x00, 0x1F,
    0x15, 0xC4, 0x89, 0x00, 0x00, 0x00, 0x0A, 0x49, 0x44, 0x41, 0x54, 0x78, 0x9C, 0x63, 0x00,
    0x01, 0x00, 0x00, 0x05, 0x00, 0x01, 0x0D, 0x0A, 0x2D, 0xB4, 0x00, 0x00, 0x00, 0x00, 0x49,
    0x45, 0x4E, 0x44, 0xAE, 0x42, 0x60, 0x82,
];

fn citrus() -> Key {
    Key::Album {
        artist: "Alpha".to_owned(),
        album: "Citrus".to_owned(),
    }
}

#[test]
fn a_key_survives_the_trip_through_a_url() {
    for key in [
        Key::Album {
            artist: "AC/DC".to_owned(),
            album: "Back in Black?".to_owned(),
        },
        Key::Album {
            artist: "Sigur Rós".to_owned(),
            album: "( )".to_owned(),
        },
        Key::Album {
            artist: String::new(),
            album: "100% #1 Hits & More".to_owned(),
        },
        Key::Track {
            path: "/music/no album/a b.mp3".to_owned(),
        },
    ] {
        assert_eq!(Key::decode(&key.encode()), Some(key.clone()), "{key:?}");
    }
}

#[test]
fn a_key_that_was_made_up_is_refused() {
    for made_up in [
        "",
        "zz",
        "abc",
        "41",
        &to_hex("X\u{001F}what".as_bytes()),
    ] {
        assert_eq!(Key::decode(made_up), None, "{made_up}");
    }
}

#[test]
fn every_track_of_one_album_asks_for_the_same_cover() {
    let first = Key::of(None, Some("Alpha"), Some("Citrus"), "/music/1.mp3");
    let second = Key::of(None, Some("Alpha"), Some("Citrus"), "/music/2.mp3");
    assert_eq!(first, second, "the track must not be part of the key");
    assert_ne!(
        first,
        Key::of(None, Some("Alpha"), Some("Other"), "/music/1.mp3"),
        "a different album is a different cover"
    );
}

#[test]
fn a_record_whose_tracks_name_different_artists_is_still_one_album() {
    let one = Key::of(
        Some("Various"),
        Some("Alpha"),
        Some("Citrus"),
        "/music/1.mp3",
    );
    let other = Key::of(
        Some("Various"),
        Some("Beta"),
        Some("Citrus"),
        "/music/2.mp3",
    );
    assert_eq!(one, other);
}

#[test]
fn a_track_with_no_album_stands_on_its_own() {
    let key = Key::of(None, Some("Alpha"), None, "/music/loose.mp3");
    assert_eq!(
        key,
        Key::Track {
            path: "/music/loose.mp3".to_owned()
        },
        "with no album to group by, the track is the subject"
    );
    assert_eq!(
        key,
        Key::of(None, Some("Alpha"), Some("   "), "/music/loose.mp3"),
        "an album of only spaces is no album either"
    );
}

#[test]
fn cover_is_preferred_over_the_other_names() {
    let listed = vec!["/music/folder.png".to_owned(), "/music/cover.png".to_owned()];
    assert_eq!(
        cover_file(&listed),
        Some(1),
        "cover beats folder whatever order the disk lists them in"
    );
}

#[test]
fn one_name_in_two_formats_always_serves_the_same_one() {
    for order in [["cover.png", "cover.jpg"], ["cover.jpg", "cover.png"]] {
        let listed: Vec<String> = order.iter().map(|name| format!("/music/{name}")).collect();
        let best = cover_file(&listed).expect("a cover");
        assert!(
            listed[best].ends_with("cover.png"),
            "png wins over jpg, whichever was written first ({order:?})"
        );
        assert_eq!(mime_of(&listed[best]), "image/png");
    }
}

#[test]
fn a_cover_is_served_with_what_it_is_and_how_long_it_keeps() {
    let response = cover_response(Some(Cover {
        bytes: PNG.to_vec(),
        mime: "image/png".to_owned(),
    }));
    assert_eq!(response.status, 200);
    assert_eq!(response.content_type.as_deref(), Some("image/png"));
    assert!(
        response
            .cache_control
            .as_deref()
            .expect("a cache header")
            .starts_with("max-age="),
        "without this the webview asks again for every track of the record"
    );
    assert_eq!(response.body, PNG);
}

#[test]
fn an_album_with_no_cover_is_not_found() {
    assert_eq!(requested_key(&format!("/{}", citrus().encode())), Some(citrus()));
    let response = cover_response(None);
    assert_eq!(response.status, 404);
    assert!(response.body.is_empty());
}

#[test]
fn a_url_that_was_never_issued_is_not_found() {
    for path in ["/", "/zz", "/not hex", "/414243"] {
        assert_eq!(requested_key(path), None, "{path}");
    }
    assert_eq!(cover_response(None).status, 404);
}

#[test]
fn a_media_type_from_a_tag_cannot_write_its_own_headers() {
    assert_eq!(media_type("image/png"), "image/png");
    assert_eq!(media_type("image/svg+xml"), "image/svg+xml");
    for hostile in [
        "image/png\r\nX-Whatever: 1",
        "image/png\nSet-Cookie: a=b",
        "",
        "image",
        "/png",
        "image/",
        "image/png; charset=<script>",
    ] {
        assert_eq!(
            media_type(hostile),
            "application/octet-stream",
            "{hostile:?} must not be passed on"
        );
    }
}

// Further cases.

#[test]
fn hex_is_two_small_digits_a_byte() {
    assert_eq!(to_hex(&[0x00, 0xAB, 0x7f]), "00ab7f");
    assert_eq!(from_hex("00ab7f"), Some(vec![0x00, 0xAB, 0x7F]));
    assert_eq!(from_hex("00AB7F"), None, "only the lower case that is written");
    assert_eq!(from_hex("+f"), None, "two digits a byte, no sign");
    assert_eq!(from_hex("0"), None);
    assert_eq!(from_hex("g0"), None);
}

#[test]
fn hex_reads_back_what_it_wrote() {
    let bytes: Vec<u8> = (0..=255).collect();
    assert_eq!(from_hex(&to_hex(&bytes)), Some(bytes));
}

#[test]
fn only_what_encode_wrote_reads_back() {
    assert_eq!(Key::decode("541F61"), None);
    assert_eq!(
        Key::decode("541f61"),
        Some(Key::Track {
            path: "a".to_owned()
        })
    );
}

#[test]
fn a_key_is_hex_of_its_parts() {
    let key = Key::Track {
        path: "/a".to_owned(),
    };
    assert_eq!(key.encode(), "541f2f61");
}

#[test]
fn leading_slashes_of_a_request_are_not_part_of_the_key() {
    let key = citrus();
    assert_eq!(requested_key(&format!("///{}", key.encode())), Some(key));
}

#[test]
fn a_picture_the_tag_mistypes_is_served_as_unknown() {
    let response = cover_response(Some(Cover {
        bytes: vec![1, 2, 3],
        mime: "image/png\nX: y".to_owned(),
    }));
    assert_eq!(response.status, 200);
    assert_eq!(
        response.content_type.as_deref(),
        Some("application/octet-stream")
    );
}

#[test]
fn image_types_follow_the_extension() {
    assert_eq!(mime_of("/music/Cover.PNG"), "image/png");
    assert_eq!(mime_of("/music/front.webp"), "image/webp");
    assert_eq!(mime_of("/music/front.jpeg"), "image/jpeg");
    assert_eq!(mime_of("/music/front"), "image/jpeg");
}

#[test]
fn a_folder_with_no_cover_name_has_none() {
    let listed = vec!["/music/1.mp3".to_owned(), "/music/back.jpg".to_owned(), "/music/cover.gif".to_owned()];
    assert_eq!(cover_file(&listed), None);
}

#[test]
fn names_are_matched_whatever_their_case() {
    let listed = vec!["/music/Folder.JPG".to_owned(), "/music/ALBUMART.png".to_owned()];
    assert_eq!(cover_file(&listed), Some(0));
}

#[test]
fn the_picture_in_the_file_is_looked_for_before_the_folder() {
    let candidates = Candidates {
        with_picture: Some("/m/1.mp3".to_owned()),
        beside: Some("/m/2.mp3".to_owned()),
    };
    assert_eq!(
        cover_sources(&candidates),
        [
            CoverSource::Embedded("/m/1.mp3".to_owned()),
            CoverSource::Beside("/m/2.mp3".to_owned())
        ]
    );
    let only_beside = Candidates {
        with_picture: None,
        beside: Some("/m/2.mp3".to_owned()),
    };
    assert_eq!(
        cover_sources(&only_beside),
        [CoverSource::Beside("/m/2.mp3".to_owned())]
    );
}

#[test]
fn a_track_key_looks_at_the_track_itself() {
    let key = Key::Track {
        path: "/m/loose.mp3".to_owned(),
    };
    let found = candidates_for(&key, None, None);
    assert_eq!(found.with_picture.as_deref(), Some("/m/loose.mp3"));
    assert_eq!(found.beside.as_deref(), Some("/m/loose.mp3"));
    let album = candidates_for(&citrus(), None, Some("/m/1.mp3".to_owned()));
    assert_eq!(album.with_picture, None);
    assert_eq!(album.beside.as_deref(), Some("/m/1.mp3"));
}

#[test]
fn an_encoded_key_is_lower_case_hex() {
    for key in [citrus(), Key::Track { path: "/Ä b".to_owned() }] {
        let encoded = key.encode();
        assert!(!encoded.is_empty() && encoded.len() % 2 == 0);
        assert!(encoded.chars().all(|c| c.is_ascii_digit() || ('a'..='f').contains(&c)));
    }
}
