use satsuma::grouping::{Grouping, Kind, Vibe, Volume};

fn grouping(kind: Option<Kind>, volume: Option<Volume>, vibe: Option<Vibe>) -> Grouping {
    Grouping { kind, volume, vibe }
}

#[test]
fn parses_full_grouping() {
    assert_eq!(
        Grouping::parse("Chant / Loud / Happy"),
        Some(grouping(
            Some(Kind::Chant),
            Some(Volume::Loud),
            Some(Vibe::Happy)
        ))
    );
}

#[test]
fn parses_missing_volume() {
    assert_eq!(
        Grouping::parse("Instru / / Dark"),
        Some(grouping(Some(Kind::Instru), None, Some(Vibe::Dark)))
    );
}

#[test]
fn parses_type_only() {
    assert_eq!(
        Grouping::parse("Chant /"),
        Some(grouping(Some(Kind::Chant), None, None))
    );
    assert_eq!(
        Grouping::parse("Chant"),
        Some(grouping(Some(Kind::Chant), None, None))
    );
}

#[test]
fn parses_blank_as_empty() {
    assert_eq!(Grouping::parse(""), Some(Grouping::default()));
    assert_eq!(Grouping::parse("  /  /  "), Some(Grouping::default()));
    assert!(Grouping::parse("").is_some_and(|g| g.is_empty()));
}

#[test]
fn rejects_unknown_values_and_extra_parts() {
    assert_eq!(Grouping::parse("Vocal / Loud / Happy"), None);
    assert_eq!(Grouping::parse("Chant / Medium / Happy"), None);
    assert_eq!(Grouping::parse("Chant / Loud / Angry"), None);
    assert_eq!(Grouping::parse("Chant / Loud / Happy / Extra"), None);
}

#[test]
fn formats_following_the_rules() {
    let cases = [
        (
            grouping(Some(Kind::Chant), Some(Volume::Soft), Some(Vibe::Sad)),
            "Chant / Soft / Sad",
        ),
        (
            grouping(Some(Kind::Instru), None, Some(Vibe::Mix)),
            "Instru / / Mix",
        ),
        (grouping(Some(Kind::Chant), None, None), "Chant /"),
        (
            grouping(Some(Kind::Chant), Some(Volume::Loud), None),
            "Chant / Loud /",
        ),
        (
            grouping(None, Some(Volume::Loud), Some(Vibe::Happy)),
            " / Loud / Happy",
        ),
        (grouping(None, None, None), " /"),
    ];
    for (value, expected) in cases {
        assert_eq!(value.to_string(), expected);
    }
}

#[test]
fn display_round_trips_through_parse() {
    let kinds = [None, Some(Kind::Chant), Some(Kind::Instru)];
    let volumes = [None, Some(Volume::Soft), Some(Volume::Loud)];
    let vibes = [
        None,
        Some(Vibe::Happy),
        Some(Vibe::Sad),
        Some(Vibe::Dark),
        Some(Vibe::Mix),
    ];
    for kind in kinds {
        for volume in volumes {
            for vibe in vibes {
                let value = grouping(kind, volume, vibe);
                assert_eq!(Grouping::parse(&value.to_string()), Some(value));
            }
        }
    }
}

#[test]
fn spaces_around_each_part_are_ignored() {
    assert_eq!(
        Grouping::parse("\tChant\u{3000}/ Soft /Mix  "),
        Some(grouping(Some(Kind::Chant), Some(Volume::Soft), Some(Vibe::Mix)))
    );
}

#[test]
fn words_are_case_sensitive() {
    assert_eq!(Grouping::parse("chant / loud / happy"), None);
}

#[test]
fn a_grouping_with_any_part_is_not_empty() {
    assert!(!grouping(None, None, Some(Vibe::Dark)).is_empty());
    assert!(Grouping::empty().is_empty());
}
