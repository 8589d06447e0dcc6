//! What the library makes of an audio file's metadata: which files are
//! audio at all, the fields kept from a tag, and the rating written back.
//!
//! Opening and saving files stays with the caller, which hands over what a
//! tag holds as plain values ([`TagFields`]) and applies the
//! [`RatingEdit`] that comes back.

use vstd::prelude::*;

use crate::cover::{ascii_lower, extension_of, lower_ascii, path_extension};
use crate::grouping::{grouping_of, Grouping};
use crate::text::{named, non_empty, push_text, reads_as, str_view, text_view};

verus! {

/// Whether a lower-case extension is one the scanner takes for audio.
pub open spec fn audio_extension(extension: Seq<char>) -> bool {
    ||| extension == "mp3"@
    ||| extension == "flac"@
    ||| extension == "ogg"@
    ||| extension == "oga"@
    ||| extension == "opus"@
    ||| extension == "m4a"@
    ||| extension == "aac"@
    ||| extension == "wav"@
    ||| extension == "aiff"@
    ||| extension == "aif"@
    ||| extension == "wv"@
    ||| extension == "ape"@
}

/// Whether `path` names an audio file: its extension, in any case, is one
/// of the audio extensions.
pub open spec fn audio_path(path: Seq<char>) -> bool {
    match path_extension(path) {
        Some(extension) => audio_extension(ascii_lower(extension)),
        None => false,
    }
}

/// The extensions the scanner takes for audio, in lower case.
pub open spec fn audio_extensions() -> Seq<Seq<char>> {
    seq![
        "mp3"@,
        "flac"@,
        "ogg"@,
        "oga"@,
        "opus"@,
        "m4a"@,
        "aac"@,
        "wav"@,
        "aiff"@,
        "aif"@,
        "wv"@,
        "ape"@,
    ]
}

/// A path is an audio file exactly when its extension, in whatever case,
/// is one of the audio extensions: every one of them is picked up by the
/// scan, and nothing else is.
pub proof fn law_audio_files_are_those_with_an_audio_extension(path: Seq<char>, extension: Seq<char>)
    ensures
        audio_extension(extension) <==> audio_extensions().contains(extension),
        audio_path(path) <==> (path_extension(path) is Some && audio_extensions().contains(
            ascii_lower(path_extension(path)->0),
        )),
{
    let list = audio_extensions();
    assert forall|e: Seq<char>| audio_extension(e) <==> #[trigger] list.contains(e) by {
        if audio_extension(e) {
            if e == "mp3"@ {
                assert(list[0] == e);
            } else if e == "flac"@ {
                assert(list[1] == e);
            } else if e == "ogg"@ {
                assert(list[2] == e);
            } else if e == "oga"@ {
                assert(list[3] == e);
            } else if e == "opus"@ {
                assert(list[4] == e);
            } else if e == "m4a"@ {
                assert(list[5] == e);
            } else if e == "aac"@ {
                assert(list[6] == e);
            } else if e == "wav"@ {
                assert(list[7] == e);
            } else if e == "aiff"@ {
                assert(list[8] == e);
            } else if e == "aif"@ {
                assert(list[9] == e);
            } else if e == "wv"@ {
                assert(list[10] == e);
            } else {
                assert(list[11] == e);
            }
        }
        if list.contains(e) {
            let i = choose|i: int| 0 <= i < list.len() && list[i] == e;
            assert(0 <= i < 12);
        }
    }
}

fn is_audio_extension(extension: &Vec<char>) -> (audio: bool)
    ensures
        audio == audio_extension(extension@),
{
    reads_as(extension, "mp3") || reads_as(extension, "flac") || reads_as(extension, "ogg")
        || reads_as(extension, "oga") || reads_as(extension, "opus") || reads_as(extension, "m4a")
        || reads_as(extension, "aac") || reads_as(extension, "wav") || reads_as(extension, "aiff")
        || reads_as(extension, "aif") || reads_as(extension, "wv") || reads_as(extension, "ape")
}

/// Returns true when the path has an audio file extension.
pub fn is_audio_file(path: &str) -> (audio: bool)
    ensures
        audio == audio_path(path@),
{
    match extension_of(path) {
        Some(extension) => {
            let lower = lower_ascii(extension.as_str());
            is_audio_extension(&lower)
        },
        None => false,
    }
}

/// What a file's tag holds, as plain values: the texts as the tag has
/// them, the first rating it carries in stars, and how many pictures it
/// embeds.
#[derive(Clone, Debug, PartialEq, Eq)]
pub struct TagFields {
    pub title: Option<String>,
    pub artist: Option<String>,
    pub album: Option<String>,
    pub album_artist: Option<String>,
    pub track_number: Option<u32>,
    pub disc_number: Option<u32>,
    pub genre: Option<String>,
    pub year: Option<u32>,
    pub rating: Option<u8>,
    /// The raw grouping (content group) tag.
    pub grouping: Option<String>,
    pub pictures: usize,
}

/// Metadata read from a single audio file.
#[derive(Clone, Debug, PartialEq, Eq)]
pub struct TrackTags {
    pub title: Option<String>,
    pub artist: Option<String>,
    pub album: Option<String>,
    pub album_artist: Option<String>,
    pub track_number: Option<u32>,
    pub disc_number: Option<u32>,
    pub genre: Option<String>,
    pub year: Option<u32>,
    pub duration_ms: u64,
    /// Star rating from 1 to 5.
    pub rating: Option<u8>,
    /// The raw grouping tag as stored in the file, trimmed.
    pub grouping_raw: Option<String>,
    /// The grouping tag parsed with the `Type / Volume / Vibe` rules, when
    /// it follows them.
    pub grouping: Option<Grouping>,
    pub has_embedded_cover: bool,
}

impl Default for TrackTags {
    fn default() -> (tags: TrackTags)
        ensures
            tags == untagged_spec(0),
    {
        untagged(0)
    }
}

/// The tags of a file that holds none: only its length is known.
pub open spec fn untagged_spec(duration_ms: u64) -> TrackTags {
    TrackTags {
        title: None,
        artist: None,
        album: None,
        album_artist: None,
        track_number: None,
        disc_number: None,
        genre: None,
        year: None,
        duration_ms,
        rating: None,
        grouping_raw: None,
        grouping: None,
        has_embedded_cover: false,
    }
}

/// The grouping a trimmed raw grouping tag parses to.
pub open spec fn parsed_grouping(raw: Option<Seq<char>>) -> Option<Grouping> {
    match raw {
        Some(text) => grouping_of(text),
        None => None,
    }
}

/// The tags of a file that holds none, with its length.
pub fn untagged(duration_ms: u64) -> (tags: TrackTags)
    ensures
        tags == untagged_spec(duration_ms),
{
    TrackTags {
        title: None,
        artist: None,
        album: None,
        album_artist: None,
        track_number: None,
        disc_number: None,
        genre: None,
        year: None,
        duration_ms,
        rating: None,
        grouping_raw: None,
        grouping: None,
        has_embedded_cover: false,
    }
}

fn as_str(text: &Option<String>) -> (borrowed: Option<&str>)
    ensures
        str_view(borrowed) == text_view(*text),
{
    match text {
        Some(inner) => Some(inner.as_str()),
        None => None,
    }
}

/// What is kept of a tag: each text trimmed, a text of only spaces
/// dropped, and the grouping parsed where it follows the rules.
pub fn from_tag(fields: &TagFields, duration_ms: u64) -> (tags: TrackTags)
    ensures
        text_view(tags.title) == named(text_view(fields.title)),
        text_view(tags.artist) == named(text_view(fields.artist)),
        text_view(tags.album) == named(text_view(fields.album)),
        text_view(tags.album_artist) == named(text_view(fields.album_artist)),
        text_view(tags.genre) == named(text_view(fields.genre)),
        text_view(tags.grouping_raw) == named(text_view(fields.grouping)),
        tags.grouping == parsed_grouping(named(text_view(fields.grouping))),
        tags.track_number == fields.track_number,
        tags.disc_number == fields.disc_number,
        tags.year == fields.year,
        tags.rating == fields.rating,
        tags.duration_ms == duration_ms,
        tags.has_embedded_cover == (fields.pictures > 0),
{
    let grouping_raw = non_empty(as_str(&fields.grouping));
    let grouping = match &grouping_raw {
        Some(raw) => Grouping::parse(raw.as_str()),
        None => None,
    };
    TrackTags {
        title: non_empty(as_str(&fields.title)),
        artist: non_empty(as_str(&fields.artist)),
        album: non_empty(as_str(&fields.album)),
        album_artist: non_empty(as_str(&fields.album_artist)),
        track_number: fields.track_number,
        disc_number: fields.disc_number,
        genre: non_empty(as_str(&fields.genre)),
        year: fields.year,
        duration_ms,
        rating: fields.rating,
        grouping_raw,
        grouping,
        has_embedded_cover: fields.pictures > 0,
    }
}

/// A whole-number star rating.
#[derive(Clone, Copy, Debug, PartialEq, Eq, Structural)]
pub enum Stars {
    One,
    Two,
    Three,
    Four,
    Five,
}

pub open spec fn stars_count(stars: Stars) -> u8 {
    match stars {
        Stars::One => 1,
        Stars::Two => 2,
        Stars::Three => 3,
        Stars::Four => 4,
        Stars::Five => 5,
    }
}

/// The rating of `n` stars, for `n` from 1 to 5.
pub open spec fn stars_of(n: u8) -> Stars {
    if n <= 1 {
        Stars::One
    } else if n == 2 {
        Stars::Two
    } else if n == 3 {
        Stars::Three
    } else if n == 4 {
        Stars::Four
    } else {
        Stars::Five
    }
}

/// The rating for a number of stars, 1 to 5; any other number is none.
pub fn star_rating(stars: u8) -> (rating: Option<Stars>)
    ensures
        rating is Some <==> 1 <= stars <= 5,
        rating matches Some(r) ==> stars_count(r) == stars && r == stars_of(stars),
{
    match stars {
        1 => Some(Stars::One),
        2 => Some(Stars::Two),
        3 => Some(Stars::Three),
        4 => Some(Stars::Four),
        5 => Some(Stars::Five),
        _ => None,
    }
}

/// Who a rating is written for: the name Windows Media Player files its
/// ratings under, which Strawberry and most taggers read.
pub open spec fn wmp_email() -> Seq<char> {
    "Windows Media Player 9 Series"@
}

/// A rating's tag text: who it is for, its stars and its play count,
/// apart by bars.
pub open spec fn rating_text(stars: Stars) -> Seq<char> {
    wmp_email() + seq!['|', ((stars_count(stars) + 48) as u8) as char, '|', '0']
}

/// The tag text of a Windows Media Player rating of `stars`, played no
/// times.
///
/// Calls `lofty::tag::items::popularimeter::Popularimeter::windows_media_player`
/// and its `Display`, which in the version used writes the email, the
/// stars as a number and the play count, apart by `|`.
#[verifier::external_body]
fn popularimeter_text(stars: Stars) -> (text: String)
    ensures
        text@ == rating_text(stars),
{
    let rating = match stars {
        Stars::One => lofty::tag::items::popularimeter::StarRating::One,
        Stars::Two => lofty::tag::items::popularimeter::StarRating::Two,
        Stars::Three => lofty::tag::items::popularimeter::StarRating::Three,
        Stars::Four => lofty::tag::items::popularimeter::StarRating::Four,
        Stars::Five => lofty::tag::items::popularimeter::StarRating::Five,
    };
    lofty::tag::items::popularimeter::Popularimeter::windows_media_player(rating, 0).to_string()
}

/// What writing a rating does to a file's tag.
#[derive(Clone, Debug, PartialEq, Eq)]
pub enum RatingEdit {
    /// Store this text as the tag's rating.
    Write(String),
    /// Take the rating off.
    Remove,
}

/// The edit for `stars`, 1 to 5, or `None` to remove the rating; a number
/// of stars out of range is treated as no rating.
pub fn rating_edit(stars: Option<u8>) -> (edit: RatingEdit)
    ensures
        match stars {
            Some(n) => if 1 <= n <= 5 {
                edit is Write && edit->Write_0@ == rating_text(stars_of(n))
            } else {
                edit is Remove
            },
            None => edit is Remove,
        },
{
    let rating = match stars {
        Some(n) => star_rating(n),
        None => None,
    };
    match rating {
        Some(r) => RatingEdit::Write(popularimeter_text(r)),
        None => RatingEdit::Remove,
    }
}

/// Why a file's tags could not be read or written.
#[derive(Clone, Debug, PartialEq, Eq)]
pub enum TagError {
    Read { path: String, message: String },
    Write { path: String, message: String },
}

/// What is said when a file holds no tag that could be written.
pub const NO_WRITABLE_TAG: &'static str = "the file holds no tag that could be written";

impl TagError {
    pub open spec fn text(self) -> Seq<char> {
        match self {
            TagError::Read { path, message } => "cannot read "@ + path@ + ": "@ + message@,
            TagError::Write { path, message } => "cannot write "@ + path@ + ": "@ + message@,
        }
    }

    /// The error as a sentence, naming the file.
    pub fn to_string(&self) -> (text: String)
        ensures
            text@ == self.text(),
    {
        let (verb, path, message) = match self {
            TagError::Read { path, message } => ("cannot read ", path, message),
            TagError::Write { path, message } => ("cannot write ", path, message),
        };
        let mut text = verb.to_owned();
        push_text(&mut text, path.as_str());
        push_text(&mut text, ": ");
        push_text(&mut text, message.as_str());
        text
    }
}

} // verus!
