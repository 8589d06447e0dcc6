//! Cover art keys and the choices made when serving a cover.
//!
//! A cover belongs to an album rather than to a track, so every track of a
//! record asks for the same one and the webview fetches it once. The album
//! is named in the key, which is why the key is reversible: nothing stores
//! a mapping, and the protocol handler works out what was asked for from
//! the key alone.

use vstd::prelude::*;
use vstd::utf8::{decode_utf8, encode_utf8, valid_utf8};

use crate::text::{
    chars_of, joined, lacks, lemma_split_separator_then, lemma_split_without_separator, named, non_empty,
    push_char, split, split_at_each, str_view, text_of, text_view, trim,
};

verus! {

broadcast use vstd::utf8::group_utf8_lib;

/// Separates the parts inside a key before they are hex encoded. A unit
/// separator cannot appear in a tag or a path, so decoding cannot be
/// fooled by an album called `A/B`.
pub const SEPARATOR: char = '\u{001F}';

/// What a picture is called when its own media type cannot be trusted.
pub const UNKNOWN_MEDIA_TYPE: &'static str = "application/octet-stream";

/// How long the webview may keep a cover before asking again: long enough
/// that playing a record fetches its cover once rather than once a track,
/// short enough that a cover changed by editing the tags comes back within
/// the hour.
pub const CACHE_CONTROL: &'static str = "max-age=3600";

/// A cover, ready to be served.
#[derive(Clone, Debug, PartialEq, Eq)]
pub struct Cover {
    pub bytes: Vec<u8>,
    pub mime: String,
}

/// What a cover request names.
///
/// Almost always an album. A track with no album tag is its own subject,
/// because there is nothing to group it with and it may still carry a
/// picture of its own.
#[derive(Clone, Debug, PartialEq, Eq)]
pub enum Key {
    Album { artist: String, album: String },
    Track { path: String },
}

pub ghost enum KeyView {
    Album { artist: Seq<char>, album: Seq<char> },
    Track { path: Seq<char> },
}

impl View for Key {
    type V = KeyView;

    open spec fn view(&self) -> KeyView {
        match self {
            Key::Album { artist, album } => KeyView::Album { artist: artist@, album: album@ },
            Key::Track { path } => KeyView::Track { path: path@ },
        }
    }
}

/// The key for a track with these tags: its album by its album artist,
/// else by its artist; a track with no album is its own subject.
pub open spec fn key_for(
    album_artist: Option<Seq<char>>,
    artist: Option<Seq<char>>,
    album: Option<Seq<char>>,
    path: Seq<char>,
) -> KeyView {
    let by = match named(album_artist) {
        Some(name) => Some(name),
        None => named(artist),
    };
    match named(album) {
        Some(album) => KeyView::Album {
            artist: match by {
                Some(name) => name,
                None => Seq::empty(),
            },
            album,
        },
        None => KeyView::Track { path },
    }
}

/// The text a key stands for before it is hex encoded.
pub open spec fn key_text(key: KeyView) -> Seq<char> {
    match key {
        KeyView::Album { artist, album } => seq!['A', SEPARATOR] + artist + seq![SEPARATOR]
            + album,
        KeyView::Track { path } => seq!['T', SEPARATOR] + path,
    }
}

/// The lower-case hex digit for `n`, which is below 16.
pub open spec fn hex_digit(n: u8) -> char {
    if n < 10 {
        ((48 + n) as u8) as char
    } else {
        ((87 + n) as u8) as char
    }
}

/// Every byte as two lower-case hex digits, most significant first.
pub open spec fn hex_text(bytes: Seq<u8>) -> Seq<char>
    decreases bytes.len(),
{
    if bytes.len() == 0 {
        Seq::empty()
    } else {
        seq![hex_digit(bytes[0] / 16), hex_digit(bytes[0] % 16)] + hex_text(bytes.drop_first())
    }
}

/// The key as it travels in a URL.
pub open spec fn encoded_key(key: KeyView) -> Seq<char> {
    hex_text(encode_utf8(key_text(key)))
}

/// The value of a lower-case hex digit, the only kind [`Key::encode`]
/// writes.
pub open spec fn digit_value(b: u8) -> Option<u8> {
    if 48 <= b <= 57 {
        Some((b - 48) as u8)
    } else if 97 <= b <= 102 {
        Some((b - 87) as u8)
    } else {
        None
    }
}

/// The byte two lower-case hex digits stand for, most significant first.
pub open spec fn pair_value(first: u8, second: u8) -> Option<u8> {
    match (digit_value(first), digit_value(second)) {
        (Some(high), Some(low)) => Some((16 * high + low) as u8),
        _ => None,
    }
}

/// The bytes lower-case hex text stands for, two digits a byte, or `None`
/// when it is anything else.
pub open spec fn bytes_from_hex(text: Seq<u8>) -> Option<Seq<u8>>
    decreases text.len(),
{
    if text.len() % 2 != 0 {
        None
    } else if text.len() == 0 {
        Some(Seq::empty())
    } else {
        match (pair_value(text[0], text[1]), bytes_from_hex(text.subrange(2, text.len() as int))) {
            (Some(value), Some(rest)) => Some(seq![value] + rest),
            _ => None,
        }
    }
}

/// The key text a decoded key reads as, if any.
pub open spec fn key_from_text(plain: Seq<char>) -> Option<KeyView> {
    let parts = split(plain, SEPARATOR);
    if parts.len() == 3 && parts[0] == seq!['A'] {
        Some(KeyView::Album { artist: parts[1], album: parts[2] })
    } else if parts.len() == 2 && parts[0] == seq!['T'] {
        Some(KeyView::Track { path: parts[1] })
    } else {
        None
    }
}

/// What a key as it travels in a URL names, if it names anything.
pub open spec fn decoded_key(encoded: Seq<char>) -> Option<KeyView> {
    match bytes_from_hex(encode_utf8(encoded)) {
        Some(bytes) => if valid_utf8(bytes) {
            key_from_text(decode_utf8(bytes))
        } else {
            None
        },
        None => None,
    }
}

/// The text for a string held in a `String`.
fn owned(text: &str) -> (copy: String)
    ensures
        copy@ == text@,
{
    text.to_owned()
}

/// Decodes a UTF-8 byte sequence.
///
/// Calls `String::from_utf8`, which std documents as succeeding exactly
/// when the bytes are valid UTF-8, with the string they encode.
#[verifier::external_body]
fn text_from_utf8(bytes: Vec<u8>) -> (text: Option<String>)
    ensures
        text is Some <==> valid_utf8(bytes@),
        text matches Some(text) ==> text@ == decode_utf8(bytes@),
{
    String::from_utf8(bytes).ok()
}

/// The hex digit for `n`.
fn hex_digit_char(n: u8) -> (c: char)
    requires
        n < 16,
    ensures
        c == hex_digit(n),
{
    if n < 10 {
        (48 + n) as char
    } else {
        (87 + n) as char
    }
}

/// Every byte as two lower-case hex digits.
pub fn to_hex(bytes: &[u8]) -> (text: String)
    ensures
        text@ == hex_text(bytes@),
{
    let mut text = String::new();
    let n = bytes.len();
    let mut i: usize = 0;
    proof {
        assert(bytes@.subrange(0, n as int) =~= bytes@);
        assert(text@ + hex_text(bytes@.subrange(0, n as int)) =~= hex_text(bytes@));
    }
    while i < n
        invariant
            i <= n,
            n == bytes@.len(),
            text@ + hex_text(bytes@.subrange(i as int, n as int)) == hex_text(bytes@),
        decreases n - i,
    {
        let byte = bytes[i];
        let ghost rest = bytes@.subrange(i as int, n as int);
        proof {
            assert(rest.drop_first() =~= bytes@.subrange(i + 1, n as int));
            assert(rest[0] == byte);
        }
        let ghost before = text@;
        push_char(&mut text, hex_digit_char(byte / 16));
        push_char(&mut text, hex_digit_char(byte % 16));
        i = i + 1;
        proof {
            assert(text@ =~= before + seq![hex_digit(byte / 16), hex_digit(byte % 16)]);
            assert(text@ + hex_text(bytes@.subrange(i as int, n as int)) =~= before + hex_text(
                rest,
            ));
        }
    }
    proof {
        assert(bytes@.subrange(n as int, n as int) =~= Seq::<u8>::empty());
        assert(text@ + Seq::<char>::empty() =~= text@);
    }
    text
}

fn digit_of(b: u8) -> (value: Option<u8>)
    ensures
        value == digit_value(b),
{
    if 48 <= b && b <= 57 {
        Some(b - 48)
    } else if 97 <= b && b <= 102 {
        Some(b - 87)
    } else {
        None
    }
}

fn pair_of(first: u8, second: u8) -> (value: Option<u8>)
    ensures
        value == pair_value(first, second),
{
    match (digit_of(first), digit_of(second)) {
        (Some(high), Some(low)) => Some(16 * high + low),
        _ => None,
    }
}

/// What `from_hex` answers for the rest of the text, with `done` in front.
pub open spec fn prefixed(done: Seq<u8>, rest: Option<Seq<u8>>) -> Option<Seq<u8>> {
    match rest {
        Some(rest) => Some(done + rest),
        None => None,
    }
}

/// The bytes lower-case hex text stands for, two digits a byte, or `None`
/// when it is anything else.
pub fn from_hex(text: &str) -> (bytes: Option<Vec<u8>>)
    ensures
        match bytes {
            Some(bytes) => bytes_from_hex(encode_utf8(text@)) == Some(bytes@),
            None => bytes_from_hex(encode_utf8(text@)) is None,
        },
{
    let raw = text.as_bytes();
    let n = raw.len();
    if n % 2 != 0 {
        return None;
    }
    let mut out: Vec<u8> = Vec::new();
    let mut i: usize = 0;
    proof {
        assert(raw@.subrange(0, n as int) =~= raw@);
        assert(out@ + Seq::<u8>::empty() =~= Seq::<u8>::empty());
        assert(prefixed(out@, bytes_from_hex(raw@.subrange(0, n as int))) =~= bytes_from_hex(raw@))
            by {
            match bytes_from_hex(raw@) {
                Some(all) => {
                    assert(out@ + all =~= all);
                },
                None => {},
            }
        }
    }
    while i < n
        invariant
            i <= n,
            n == raw@.len(),
            n % 2 == 0,
            i % 2 == 0,
            raw@ == encode_utf8(text@),
            prefixed(out@, bytes_from_hex(raw@.subrange(i as int, n as int))) == bytes_from_hex(
                raw@,
            ),
        decreases n - i,
    {
        let ghost rest = raw@.subrange(i as int, n as int);
        proof {
            assert(rest.subrange(2, rest.len() as int) =~= raw@.subrange(i + 2, n as int));
            assert(rest[0] == raw@[i as int]);
            assert(rest[1] == raw@[i + 1]);
        }
        match pair_of(raw[i], raw[i + 1]) {
            Some(value) => {
                let ghost before = out@;
                out.push(value);
                proof {
                    match bytes_from_hex(raw@.subrange(i + 2, n as int)) {
                        Some(tail) => {
                            assert(before + (seq![value] + tail) =~= out@ + tail);
                        },
                        None => {},
                    }
                }
            },
            None => {
                return None;
            },
        }
        i = i + 2;
    }
    proof {
        assert(raw@.subrange(n as int, n as int) =~= Seq::<u8>::empty());
        assert(out@ + Seq::<u8>::empty() =~= out@);
    }
    Some(out)
}

impl Key {
    /// The key for a track, from the tags the library holds.
    ///
    /// The album artist is preferred over the artist, so a record whose
    /// tracks name different performers is still one album with one cover.
    /// Each is trimmed before the choice, not after: an album artist of
    /// only spaces is not an album artist, and falls through to the
    /// performer rather than win and then vanish.
    pub fn of(album_artist: Option<&str>, artist: Option<&str>, album: Option<&str>, path: &str) -> (key: Self)
        ensures
            key@ == key_for(str_view(album_artist), str_view(artist), str_view(album), path@),
    {
        let by = match non_empty(album_artist) {
            Some(name) => Some(name),
            None => non_empty(artist),
        };
        match non_empty(album) {
            Some(album) => Key::Album {
                artist: match by {
                    Some(name) => name,
                    None => String::new(),
                },
                album,
            },
            None => Key::Track { path: owned(path) },
        }
    }

    /// The key as it travels in a URL: hex, so that an album named with a
    /// slash, a space or a question mark needs no escaping rules that the
    /// two sides could read differently.
    pub fn encode(&self) -> (encoded: String)
        ensures
            encoded@ == encoded_key(self@),
    {
        let mut plain = String::new();
        match self {
            Key::Album { artist, album } => {
                push_char(&mut plain, 'A');
                push_char(&mut plain, SEPARATOR);
                crate::text::push_text(&mut plain, artist.as_str());
                push_char(&mut plain, SEPARATOR);
                crate::text::push_text(&mut plain, album.as_str());
            },
            Key::Track { path } => {
                push_char(&mut plain, 'T');
                push_char(&mut plain, SEPARATOR);
                crate::text::push_text(&mut plain, path.as_str());
            },
        }
        proof {
            assert(plain@ =~= key_text(self@));
        }
        to_hex(plain.as_str().as_bytes())
    }

    /// Reads back what [`Self::encode`] wrote. `None` for anything else,
    /// which is what a request for a made-up URL looks like.
    pub fn decode(encoded: &str) -> (key: Option<Self>)
        ensures
            match key {
                Some(key) => decoded_key(encoded@) == Some(key@),
                None => decoded_key(encoded@) is None,
            },
            key matches Some(key) ==> encoded_key(key@) == encoded@,
    {
        let bytes = match from_hex(encoded) {
            Some(bytes) => bytes,
            None => return None,
        };
        let plain = match text_from_utf8(bytes) {
            Some(plain) => plain,
            None => return None,
        };
        let chars = chars_of(plain.as_str());
        let parts = split_at_each(&chars, SEPARATOR);
        proof {
            assert(parts.deep_view().len() == parts@.len());
        }
        if parts.len() == 3 && parts[0].len() == 1 && parts[0][0] == 'A' {
            proof {
                assert(parts.deep_view()[0] =~= seq!['A']);
                assert(parts.deep_view()[1] =~= parts@[1]@);
                assert(parts.deep_view()[2] =~= parts@[2]@);
            }
            let key = Key::Album { artist: text_of(&parts[1]), album: text_of(&parts[2]) };
            proof {
                assert(decoded_key(encoded@) == Some(key@));
                law_only_encodings_decode(encoded@);
            }
            Some(key)
        } else if parts.len() == 2 && parts[0].len() == 1 && parts[0][0] == 'T' {
            proof {
                assert(parts.deep_view()[0] =~= seq!['T']);
                assert(parts.deep_view()[1] =~= parts@[1]@);
            }
            let key = Key::Track { path: text_of(&parts[1]) };
            proof {
                assert(decoded_key(encoded@) == Some(key@));
                law_only_encodings_decode(encoded@);
            }
            Some(key)
        } else {
            proof {
                if parts@.len() == 3 {
                    assert(parts.deep_view()[0] =~= parts@[0]@);
                    if parts.deep_view()[0] == seq!['A'] {
                        assert(parts@[0]@.len() == 1 && parts@[0]@[0] == 'A');
                    }
                }
                if parts@.len() == 2 {
                    assert(parts.deep_view()[0] =~= parts@[0]@);
                    if parts.deep_view()[0] == seq!['T'] {
                        assert(parts@[0]@.len() == 1 && parts@[0]@[0] == 'T');
                    }
                }
            }
            None
        }
    }
}

proof fn lemma_hex_digit(n: u8)
    requires
        n < 16,
    ensures
        digit_value(hex_digit(n) as u8) == Some(n),
        '\0' <= hex_digit(n) <= '\u{7f}',
{
}

/// Hex text is plain ASCII.
proof fn lemma_hex_ascii(bytes: Seq<u8>)
    ensures
        vstd::utf8::is_ascii_chars(hex_text(bytes)),
        hex_text(bytes).len() == 2 * bytes.len(),
    decreases bytes.len(),
{
    if bytes.len() > 0 {
        lemma_hex_ascii(bytes.drop_first());
        lemma_hex_digit(bytes[0] / 16);
        lemma_hex_digit(bytes[0] % 16);
        let head = seq![hex_digit(bytes[0] / 16), hex_digit(bytes[0] % 16)];
        let whole = hex_text(bytes);
        assert(whole == head + hex_text(bytes.drop_first()));
        assert forall|i: int| 0 <= i < whole.len() implies '\0' <= #[trigger] whole[i] <= '\u{7f}' by {
            if i >= 2 {
                assert(whole[i] == hex_text(bytes.drop_first())[i - 2]);
            }
        }
    }
}

/// Reading hex text back gives the bytes it was written from.
pub proof fn law_hex_round_trip(bytes: Seq<u8>)
    ensures
        bytes_from_hex(encode_utf8(hex_text(bytes))) == Some(bytes),
    decreases bytes.len(),
{
    let text = hex_text(bytes);
    lemma_hex_ascii(bytes);
    let raw = encode_utf8(text);
    if bytes.len() == 0 {
        assert(raw.len() == 0);
        assert(bytes =~= Seq::<u8>::empty());
    } else {
        let rest = bytes.drop_first();
        law_hex_round_trip(rest);
        lemma_hex_ascii(rest);
        lemma_hex_digit(bytes[0] / 16);
        lemma_hex_digit(bytes[0] % 16);
        let rest_text = hex_text(rest);
        let rest_raw = encode_utf8(rest_text);
        assert(text == seq![hex_digit(bytes[0] / 16), hex_digit(bytes[0] % 16)] + rest_text);
        assert(raw[0] == text[0] as u8);
        assert(raw[1] == text[1] as u8);
        assert(raw.subrange(2, raw.len() as int) =~= rest_raw) by {
            assert forall|i: int| 0 <= i < rest_raw.len() implies raw.subrange(
                2,
                raw.len() as int,
            )[i] == #[trigger] rest_raw[i] by {
                assert(raw[i + 2] == text[i + 2] as u8);
                assert(text[i + 2] == rest_text[i]);
                assert(rest_raw[i] == rest_text[i] as u8);
            }
        }
        assert(pair_value(raw[0], raw[1]) == Some(bytes[0]));
        assert(seq![bytes[0]] + rest =~= bytes);
    }
}

/// A lower-case hex digit.
pub open spec fn lower_hex_char(c: char) -> bool {
    ('0' <= c <= '9') || ('a' <= c <= 'f')
}

/// Hex text is made of lower-case digits, two a byte.
proof fn lemma_hex_lower(bytes: Seq<u8>)
    ensures
        hex_text(bytes).len() == 2 * bytes.len(),
        forall|i: int| 0 <= i < hex_text(bytes).len() ==> lower_hex_char(#[trigger] hex_text(bytes)[i]),
    decreases bytes.len(),
{
    if bytes.len() > 0 {
        let rest = bytes.drop_first();
        lemma_hex_lower(rest);
        let whole = hex_text(bytes);
        assert(whole == seq![hex_digit(bytes[0] / 16), hex_digit(bytes[0] % 16)] + hex_text(rest));
        assert forall|i: int| 0 <= i < whole.len() implies lower_hex_char(#[trigger] whole[i]) by {
            if i >= 2 {
                assert(whole[i] == hex_text(rest)[i - 2]);
            }
        }
    }
}

/// A digit read is written back as the same byte.
proof fn lemma_digit_back(b: u8)
    requires
        digit_value(b) is Some,
    ensures
        digit_value(b)->0 < 16,
        hex_digit(digit_value(b)->0) as u8 == b,
{
}

/// Hex text read into bytes is what those bytes are written as.
proof fn lemma_hex_back(raw: Seq<u8>)
    requires
        bytes_from_hex(raw) is Some,
    ensures
        encode_utf8(hex_text(bytes_from_hex(raw)->0)) == raw,
    decreases raw.len(),
{
    let bytes = bytes_from_hex(raw)->0;
    lemma_hex_ascii(bytes);
    let text = hex_text(bytes);
    let out = encode_utf8(text);
    if raw.len() == 0 {
        assert(bytes =~= Seq::<u8>::empty());
        assert(out =~= raw);
    } else {
        let tail = raw.subrange(2, raw.len() as int);
        lemma_hex_back(tail);
        let rest = bytes_from_hex(tail)->0;
        lemma_hex_ascii(rest);
        lemma_digit_back(raw[0]);
        lemma_digit_back(raw[1]);
        let high = digit_value(raw[0])->0;
        let low = digit_value(raw[1])->0;
        let v = pair_value(raw[0], raw[1])->0;
        assert(v == 16 * high + low);
        assert(v / 16 == high && v % 16 == low);
        assert(bytes == seq![v] + rest);
        assert(bytes.drop_first() =~= rest);
        let rest_text = hex_text(rest);
        assert(text == seq![hex_digit(v / 16), hex_digit(v % 16)] + rest_text);
        assert(out =~= raw) by {
            assert forall|i: int| 0 <= i < raw.len() implies out[i] == raw[i] by {
                assert(out[i] == text[i] as u8);
                if i >= 2 {
                    assert(text[i] == rest_text[i - 2]);
                    assert(encode_utf8(rest_text)[i - 2] == rest_text[i - 2] as u8);
                    assert(tail[i - 2] == raw[i]);
                }
            }
        }
    }
}

/// A key read back from its text has that text as its own.
proof fn lemma_key_from_text_back(plain: Seq<char>)
    requires
        key_from_text(plain) is Some,
    ensures
        key_text(key_from_text(plain)->0) == plain,
{
    let parts = split(plain, SEPARATOR);
    crate::text::lemma_split_joined(plain, SEPARATOR);
    if parts.len() == 3 {
        let two = parts.drop_last();
        let one = two.drop_last();
        assert(one =~= seq![parts[0]]);
        assert(joined(one, SEPARATOR) == parts[0]);
        assert(two.last() == parts[1]);
        assert(joined(two, SEPARATOR) == parts[0] + seq![SEPARATOR] + parts[1]);
        assert(joined(parts, SEPARATOR) == parts[0] + seq![SEPARATOR] + parts[1] + seq![SEPARATOR]
            + parts[2]);
        assert(key_text(key_from_text(plain)->0) =~= parts[0] + seq![SEPARATOR] + parts[1]
            + seq![SEPARATOR] + parts[2]);
    } else {
        let one = parts.drop_last();
        assert(one =~= seq![parts[0]]);
        assert(joined(one, SEPARATOR) == parts[0]);
        assert(joined(parts, SEPARATOR) == parts[0] + seq![SEPARATOR] + parts[1]);
        assert(key_text(key_from_text(plain)->0) =~= parts[0] + seq![SEPARATOR] + parts[1]);
    }
}

/// Only what [`Key::encode`] wrote reads back as a key: a text that
/// decodes to a key is that key's encoding, letter for letter.
pub proof fn law_only_encodings_decode(encoded: Seq<char>)
    requires
        decoded_key(encoded) is Some,
    ensures
        encoded_key(decoded_key(encoded)->0) == encoded,
{
    let raw = encode_utf8(encoded);
    let bytes = bytes_from_hex(raw)->0;
    lemma_hex_back(raw);
    let plain = decode_utf8(bytes);
    lemma_key_from_text_back(plain);
    assert(encode_utf8(decode_utf8(bytes)) == bytes);
    assert(decode_utf8(encode_utf8(hex_text(bytes))) == hex_text(bytes));
    assert(decode_utf8(raw) == encoded);
}

/// A key travels as a non-empty even run of lower-case hex digits, so a
/// URL needs nothing escaped to carry it.
pub proof fn law_an_encoded_key_is_lower_hex(key: KeyView)
    ensures
        encoded_key(key).len() > 0,
        encoded_key(key).len() % 2 == 0,
        forall|i: int| 0 <= i < encoded_key(key).len() ==> lower_hex_char(#[trigger] encoded_key(key)[i]),
{
    let plain = key_text(key);
    let bytes = encode_utf8(plain);
    lemma_hex_lower(bytes);
    assert(plain.len() > 0);
    if bytes.len() == 0 {
        assert(decode_utf8(bytes) == plain);
        assert(bytes =~= Seq::<u8>::empty());
        assert(decode_utf8(Seq::<u8>::empty()).len() == 0) by {
            reveal_with_fuel(decode_utf8, 1);
        }
    }
}

/// A key's text splits back into its parts when they hold no separator.
proof fn lemma_key_text_parts(key: KeyView)
    requires
        match key {
            KeyView::Album { artist, album } => lacks(artist, SEPARATOR) && lacks(album, SEPARATOR),
            KeyView::Track { path } => lacks(path, SEPARATOR),
        },
    ensures
        key_from_text(key_text(key)) == Some(key),
{
    let head = seq!['A'];
    assert(lacks(head, SEPARATOR));
    assert(lacks(seq!['T'], SEPARATOR));
    lemma_split_without_separator(seq!['A'], SEPARATOR);
    lemma_split_without_separator(seq!['T'], SEPARATOR);
    match key {
        KeyView::Album { artist, album } => {
            let first = seq!['A'] + seq![SEPARATOR] + artist;
            lemma_split_separator_then(seq!['A'], artist, SEPARATOR);
            lemma_split_separator_then(first, album, SEPARATOR);
            assert(key_text(key) =~= first + seq![SEPARATOR] + album);
            assert(split(key_text(key), SEPARATOR) =~= seq![seq!['A'], artist, album]);
        },
        KeyView::Track { path } => {
            lemma_split_separator_then(seq!['T'], path, SEPARATOR);
            assert(key_text(key) =~= seq!['T'] + seq![SEPARATOR] + path);
            assert(split(key_text(key), SEPARATOR) =~= seq![seq!['T'], path]);
        },
    }
}

/// A key read back from the text it was encoded to is the key it was, as
/// long as none of its parts holds the separator, which no tag or path
/// does.
pub proof fn law_key_round_trip(key: KeyView)
    requires
        match key {
            KeyView::Album { artist, album } => lacks(artist, SEPARATOR) && lacks(album, SEPARATOR),
            KeyView::Track { path } => lacks(path, SEPARATOR),
        },
    ensures
        decoded_key(encoded_key(key)) == Some(key),
{
    let plain = encode_utf8(key_text(key));
    law_hex_round_trip(plain);
    lemma_key_text_parts(key);
}

/// Every track of one album asks for the same cover: the track's own path
/// is no part of an album's key.
pub proof fn law_album_key_ignores_the_track(
    album_artist: Option<Seq<char>>,
    artist: Option<Seq<char>>,
    album: Option<Seq<char>>,
    one: Seq<char>,
    other: Seq<char>,
)
    requires
        named(album) is Some,
    ensures
        key_for(album_artist, artist, album, one) == key_for(album_artist, artist, album, other),
{
}

/// An album artist of only spaces is no album artist: the key falls
/// through to the performer, as if the tag were missing.
pub proof fn law_blank_album_artist_is_missing(
    album_artist: Seq<char>,
    artist: Option<Seq<char>>,
    album: Option<Seq<char>>,
    path: Seq<char>,
)
    requires
        trim(album_artist).len() == 0,
    ensures
        key_for(Some(album_artist), artist, album, path) == key_for(None, artist, album, path),
{
}

/// The characters a declared media type may hold.
pub open spec fn media_char(c: char) -> bool {
    ||| '0' <= c <= '9'
    ||| 'a' <= c <= 'z'
    ||| 'A' <= c <= 'Z'
    ||| c == '/'
    ||| c == '+'
    ||| c == '-'
    ||| c == '.'
    ||| c == '_'
}

/// How often `c` occurs in `s`.
pub open spec fn count_char(s: Seq<char>, c: char) -> nat
    decreases s.len(),
{
    if s.len() == 0 {
        0
    } else {
        count_char(s.drop_last(), c) + if s.last() == c {
            1nat
        } else {
            0nat
        }
    }
}

/// A plain `type/subtype` of unremarkable characters, shorter than 100
/// bytes.
pub open spec fn plausible_media_type(byte_len: nat, s: Seq<char>) -> bool {
    &&& byte_len < 100
    &&& count_char(s, '/') == 1
    &&& !(s.len() > 0 && s[0] == '/')
    &&& !(s.len() > 0 && s.last() == '/')
    &&& forall|i: int| 0 <= i < s.len() ==> media_char(#[trigger] s[i])
}

fn is_media_char(c: char) -> (allowed: bool)
    ensures
        allowed == media_char(c),
{
    ('0' <= c && c <= '9') || ('a' <= c && c <= 'z') || ('A' <= c && c <= 'Z') || c == '/' || c
        == '+' || c == '-' || c == '.' || c == '_'
}

/// The media type to declare for a picture.
///
/// A picture's media type comes out of the file's own tag, so it is
/// whatever the person who tagged it put there. Anything that is not a
/// plain `type/subtype` of unremarkable characters is not passed on: a
/// value carrying a newline would let a tagged file write its own headers.
pub fn media_type(mime: &str) -> (declared: &str)
    ensures
        declared@ == (if plausible_media_type(encode_utf8(mime@).len(), mime@) {
            mime@
        } else {
            UNKNOWN_MEDIA_TYPE@
        }),
{
    let byte_len = mime.as_bytes().len();
    let chars = chars_of(mime);
    let n = chars.len();
    let mut slashes: usize = 0;
    let mut all_allowed = true;
    let mut i: usize = 0;
    while i < n
        invariant
            i <= n,
            n == chars@.len(),
            slashes == count_char(chars@.take(i as int), '/'),
            slashes <= i,
            all_allowed == (forall|j: int| 0 <= j < i ==> media_char(#[trigger] chars@[j])),
        decreases n - i,
    {
        proof {
            assert(chars@.take(i + 1).drop_last() =~= chars@.take(i as int));
        }
        if chars[i] == '/' {
            slashes = slashes + 1;
        }
        if !is_media_char(chars[i]) {
            all_allowed = false;
        }
        i = i + 1;
    }
    proof {
        assert(chars@.take(n as int) =~= chars@);
    }
    let plausible = byte_len < 100 && slashes == 1 && !(n > 0 && chars[0] == '/') && !(n > 0
        && chars[n - 1] == '/') && all_allowed;
    if plausible {
        mime
    } else {
        UNKNOWN_MEDIA_TYPE
    }
}

/// What the last part of a path says after its final dot, as
/// `std::path::Path::extension` reads it.
pub uninterp spec fn path_extension(path: Seq<char>) -> Option<Seq<char>>;

/// The last part of a path without its extension, as
/// `std::path::Path::file_stem` reads it.
pub uninterp spec fn path_stem(path: Seq<char>) -> Option<Seq<char>>;

/// The extension of a path.
///
/// Calls `std::path::Path::extension`. What it answers is a function of
/// the path alone, named [`path_extension`]; how it reads a path is not
/// restated here.
#[verifier::external_body]
pub(crate) fn extension_of(path: &str) -> (extension: Option<String>)
    ensures
        match extension {
            Some(found) => path_extension(path@) == Some(found@),
            None => path_extension(path@) is None,
        },
{
    match std::path::Path::new(path).extension() {
        Some(found) => found.to_str().map(|found| found.to_owned()),
        None => None,
    }
}

/// The name of a path's last part without its extension.
///
/// Calls `std::path::Path::file_stem`. What it answers is a function of
/// the path alone, named [`path_stem`].
#[verifier::external_body]
fn stem_of(path: &str) -> (stem: Option<String>)
    ensures
        match stem {
            Some(found) => path_stem(path@) == Some(found@),
            None => path_stem(path@) is None,
        },
{
    match std::path::Path::new(path).file_stem() {
        Some(found) => found.to_str().map(|found| found.to_owned()),
        None => None,
    }
}

/// `s` with its ASCII capitals made small, as `to_ascii_lowercase` does.
pub open spec fn ascii_lower(s: Seq<char>) -> Seq<char> {
    s.map_values(|c: char| if 'A' <= c <= 'Z' { ((c as u32) + 32) as char } else { c })
}

pub fn lower_ascii(text: &str) -> (lower: Vec<char>)
    ensures
        lower@ == ascii_lower(text@),
{
    let chars = chars_of(text);
    let mut lower: Vec<char> = Vec::new();
    let mut i: usize = 0;
    while i < chars.len()
        invariant
            i <= chars.len(),
            lower@ == ascii_lower(chars@.take(i as int)),
        decreases chars.len() - i,
    {
        let c = chars[i];
        let small = if 'A' <= c && c <= 'Z' {
            ((c as u8) + 32) as char
        } else {
            c
        };
        lower.push(small);
        i = i + 1;
        proof {
            assert(lower@ =~= ascii_lower(chars@.take(i as int)));
        }
    }
    proof {
        assert(chars@.take(chars@.len() as int) =~= chars@);
    }
    lower
}

/// What to tell the webview an image file is, guessed from its extension:
/// the browser sniffs the bytes anyway if the guess is wrong.
pub open spec fn image_type(extension: Option<Seq<char>>) -> Seq<char> {
    match extension {
        Some(found) => if ascii_lower(found) == "png"@ {
            "image/png"@
        } else if ascii_lower(found) == "webp"@ {
            "image/webp"@
        } else {
            "image/jpeg"@
        },
        None => "image/jpeg"@,
    }
}

pub fn mime_of(path: &str) -> (mime: &'static str)
    ensures
        mime@ == image_type(path_extension(path@)),
{
    match extension_of(path) {
        Some(found) => {
            let lower = lower_ascii(found.as_str());
            if crate::text::reads_as(&lower, "png") {
                "image/png"
            } else if crate::text::reads_as(&lower, "webp") {
                "image/webp"
            } else {
                "image/jpeg"
            }
        },
        None => "image/jpeg",
    }
}

/// The image names a cover is looked for under, in the order they win.
/// Lower case; the comparison folds case, because Windows and Linux
/// disagree about whether `Cover.jpg` and `cover.jpg` are the same file.
pub open spec fn cover_name_rank(stem: Seq<char>) -> Option<nat> {
    if stem == "cover"@ {
        Some(0)
    } else if stem == "folder"@ {
        Some(1)
    } else if stem == "front"@ {
        Some(2)
    } else if stem == "album"@ {
        Some(3)
    } else if stem == "albumart"@ {
        Some(4)
    } else {
        None
    }
}

/// The extensions those files may carry, in the order they win when one
/// folder holds the same name twice: nothing in the file system decides
/// which of the two is served, so this has to.
pub open spec fn cover_extension_rank(extension: Seq<char>) -> Option<nat> {
    if extension == "png"@ {
        Some(0)
    } else if extension == "webp"@ {
        Some(1)
    } else if extension == "jpg"@ {
        Some(2)
    } else if extension == "jpeg"@ {
        Some(3)
    } else {
        None
    }
}

/// How much a file looks like a cover: its name first, then its extension.
/// `None` for a file that is not a cover by name.
pub open spec fn cover_rank(path: Seq<char>) -> Option<(nat, nat)> {
    match (path_stem(path), path_extension(path)) {
        (Some(stem), Some(extension)) => match (
            cover_name_rank(ascii_lower(stem)),
            cover_extension_rank(ascii_lower(extension)),
        ) {
            (Some(by_name), Some(by_extension)) => Some((by_name, by_extension)),
            _ => None,
        },
        _ => None,
    }
}

/// `a` ranks strictly better than `b`.
pub open spec fn ranks_before(a: (nat, nat), b: (nat, nat)) -> bool {
    a.0 < b.0 || (a.0 == b.0 && a.1 < b.1)
}

/// `best` is the file of `paths` that looks most like a cover; of files
/// that rank the same, the first listed.
pub open spec fn is_best_cover(paths: Seq<Seq<char>>, best: Option<usize>) -> bool {
    match best {
        Some(i) => {
            &&& i < paths.len()
            &&& cover_rank(paths[i as int]) is Some
            &&& forall|j: int|
                0 <= j < paths.len() && #[trigger] cover_rank(paths[j]) is Some ==> {
                    let r = cover_rank(paths[j]).unwrap();
                    let b = cover_rank(paths[i as int]).unwrap();
                    &&& !ranks_before(r, b)
                    &&& j < i ==> ranks_before(b, r)
                }
        },
        None => forall|j: int| 0 <= j < paths.len() ==> #[trigger] cover_rank(paths[j]) is None,
    }
}

/// The names a cover image goes by, in the order they win.
pub open spec fn cover_names() -> Seq<Seq<char>> {
    seq!["cover"@, "folder"@, "front"@, "album"@, "albumart"@]
}

/// The extensions a cover image may carry, in the order they win.
pub open spec fn cover_extensions() -> Seq<Seq<char>> {
    seq!["png"@, "webp"@, "jpg"@, "jpeg"@]
}

/// A file ranks as a cover exactly when its name, in whatever case, is one
/// of the cover names and its extension one of the cover extensions; it
/// ranks by the place of each in those lists. So a folder holding such a
/// file has a cover.
pub proof fn law_cover_files_are_ranked_by_name_then_extension(
    stem: Seq<char>,
    extension: Seq<char>,
    paths: Seq<Seq<char>>,
    best: Option<usize>,
)
    ensures
        forall|i: int| 0 <= i < cover_names().len() ==> cover_name_rank(#[trigger] cover_names()[i]) == Some(i as nat),
        !cover_names().contains(stem) ==> cover_name_rank(stem) is None,
        forall|i: int|
            0 <= i < cover_extensions().len() ==> cover_extension_rank(#[trigger] cover_extensions()[i])
                == Some(i as nat),
        !cover_extensions().contains(extension) ==> cover_extension_rank(extension) is None,
        is_best_cover(paths, best) && (exists|j: int|
            0 <= j < paths.len() && #[trigger] cover_rank(paths[j]) is Some) ==> best is Some,
{
    reveal_strlit("cover");
    reveal_strlit("folder");
    reveal_strlit("front");
    reveal_strlit("album");
    reveal_strlit("albumart");
    reveal_strlit("png");
    reveal_strlit("webp");
    reveal_strlit("jpg");
    reveal_strlit("jpeg");
    let names = cover_names();
    let extensions = cover_extensions();
    assert(names[0].len() == 5 && names[0][0] == 'c');
    assert(names[1].len() == 6 && names[1][1] == 'o');
    assert(names[2].len() == 5 && names[2][0] == 'f');
    assert(names[3].len() == 5 && names[3][0] == 'a');
    assert(names[4].len() == 8);
    assert(extensions[0].len() == 3 && extensions[0][0] == 'p');
    assert(extensions[1].len() == 4 && extensions[1][0] == 'w');
    assert(extensions[2].len() == 3 && extensions[2][0] == 'j');
    assert(extensions[3].len() == 4 && extensions[3][0] == 'j');
    if !names.contains(stem) {
        assert(stem != names[0] && stem != names[1] && stem != names[2] && stem != names[3] && stem
            != names[4]);
    }
    if !extensions.contains(extension) {
        assert(extension != extensions[0] && extension != extensions[1] && extension != extensions[2]
            && extension != extensions[3]);
    }
}

fn name_rank_of(stem: &Vec<char>) -> (rank: Option<usize>)
    ensures
        match rank {
            Some(r) => cover_name_rank(stem@) == Some(r as nat),
            None => cover_name_rank(stem@) is None,
        },
{
    if crate::text::reads_as(stem, "cover") {
        Some(0)
    } else if crate::text::reads_as(stem, "folder") {
        Some(1)
    } else if crate::text::reads_as(stem, "front") {
        Some(2)
    } else if crate::text::reads_as(stem, "album") {
        Some(3)
    } else if crate::text::reads_as(stem, "albumart") {
        Some(4)
    } else {
        None
    }
}

fn extension_rank_of(extension: &Vec<char>) -> (rank: Option<usize>)
    ensures
        match rank {
            Some(r) => cover_extension_rank(extension@) == Some(r as nat),
            None => cover_extension_rank(extension@) is None,
        },
{
    if crate::text::reads_as(extension, "png") {
        Some(0)
    } else if crate::text::reads_as(extension, "webp") {
        Some(1)
    } else if crate::text::reads_as(extension, "jpg") {
        Some(2)
    } else if crate::text::reads_as(extension, "jpeg") {
        Some(3)
    } else {
        None
    }
}

fn rank_of(path: &str) -> (rank: Option<(usize, usize)>)
    ensures
        match rank {
            Some((by_name, by_extension)) => cover_rank(path@) == Some(
                (by_name as nat, by_extension as nat),
            ),
            None => cover_rank(path@) is None,
        },
{
    let stem = match stem_of(path) {
        Some(stem) => stem,
        None => return None,
    };
    let extension = match extension_of(path) {
        Some(extension) => extension,
        None => return None,
    };
    let by_extension = match extension_rank_of(&lower_ascii(extension.as_str())) {
        Some(rank) => rank,
        None => return None,
    };
    let by_name = match name_rank_of(&lower_ascii(stem.as_str())) {
        Some(rank) => rank,
        None => return None,
    };
    Some((by_name, by_extension))
}

/// The file in a folder's listing that looks most like a cover. The
/// name ranks first, then the extension, so a folder holding `cover.png`
/// and `cover.jpg` always serves the same one rather than whichever the
/// file system happened to list first.
pub fn cover_file(paths: &Vec<String>) -> (best: Option<usize>)
    ensures
        is_best_cover(paths@.map_values(|p: String| p@), best),
{
    let ghost views = paths@.map_values(|p: String| p@);
    let mut best: Option<(usize, usize, usize)> = None;
    let mut i: usize = 0;
    while i < paths.len()
        invariant
            i <= paths.len(),
            views == paths@.map_values(|p: String| p@),
            match best {
                Some((at, by_name, by_extension)) => {
                    &&& at < i
                    &&& cover_rank(views[at as int]) == Some((by_name as nat, by_extension as nat))
                    &&& forall|j: int|
                        0 <= j < i && #[trigger] cover_rank(views[j]) is Some ==> {
                            let r = cover_rank(views[j]).unwrap();
                            &&& !ranks_before(r, (by_name as nat, by_extension as nat))
                            &&& j < at ==> ranks_before((by_name as nat, by_extension as nat), r)
                        }
                },
                None => forall|j: int| 0 <= j < i ==> #[trigger] cover_rank(views[j]) is None,
            },
        decreases paths.len() - i,
    {
        assert(views[i as int] == paths@[i as int]@);
        match rank_of(paths[i].as_str()) {
            Some((by_name, by_extension)) => {
                let better = match best {
                    Some((_, best_name, best_extension)) => by_name < best_name || (by_name
                        == best_name && by_extension < best_extension),
                    None => true,
                };
                if better {
                    best = Some((i, by_name, by_extension));
                }
            },
            None => {},
        }
        i = i + 1;
    }
    match best {
        Some((at, _, _)) => Some(at),
        None => None,
    }
}

/// What a request on the cover protocol is answered.
#[derive(Clone, Debug, PartialEq, Eq)]
pub struct CoverResponse {
    /// 200 with a cover, 404 without one.
    pub status: u16,
    pub content_type: Option<String>,
    pub cache_control: Option<String>,
    pub body: Vec<u8>,
}

/// `s` without the slashes it starts with.
pub open spec fn without_leading_slashes(s: Seq<char>) -> Seq<char>
    decreases s.len(),
{
    if s.len() > 0 && s[0] == '/' {
        without_leading_slashes(s.drop_first())
    } else {
        s
    }
}

/// The key a request on the cover protocol names. The path of the URL is
/// the key, as [`Key::encode`] wrote it, after its leading slashes.
pub fn requested_key(path: &str) -> (key: Option<Key>)
    ensures
        match key {
            Some(key) => decoded_key(without_leading_slashes(path@)) == Some(key@),
            None => decoded_key(without_leading_slashes(path@)) is None,
        },
{
    let chars = chars_of(path);
    let n = chars.len();
    let mut start: usize = 0;
    proof {
        assert(chars@.subrange(0, n as int) =~= chars@);
    }
    while start < n && chars[start] == '/'
        invariant
            start <= n,
            n == chars@.len(),
            without_leading_slashes(chars@) == without_leading_slashes(
                chars@.subrange(start as int, n as int),
            ),
        decreases n - start,
    {
        proof {
            assert(chars@.subrange(start as int, n as int).drop_first() =~= chars@.subrange(
                start + 1,
                n as int,
            ));
        }
        start = start + 1;
    }
    let mut rest: Vec<char> = Vec::new();
    let mut i: usize = start;
    while i < n
        invariant
            start <= i <= n,
            n == chars@.len(),
            rest@ == chars@.subrange(start as int, i as int),
        decreases n - i,
    {
        rest.push(chars[i]);
        i = i + 1;
        proof {
            assert(rest@ =~= chars@.subrange(start as int, i as int));
        }
    }
    let key_text = text_of(&rest);
    Key::decode(key_text.as_str())
}

/// The answer to a cover request: the cover with its media type and how
/// long it keeps, or a 404 with nothing in it. Anything that is not a key
/// we issued, and any album with no cover, comes here as `None`: the `img`
/// falls back to whatever the panel put behind it.
pub fn cover_response(found: Option<Cover>) -> (response: CoverResponse)
    ensures
        match found {
            Some(cover) => {
                &&& response.status == 200
                &&& response.body@ == cover.bytes@
                &&& response.content_type matches Some(declared) && declared@ == (
                    if plausible_media_type(encode_utf8(cover.mime@).len(), cover.mime@) {
                        cover.mime@
                    } else {
                        UNKNOWN_MEDIA_TYPE@
                    })
                &&& response.cache_control matches Some(cache) && cache@ == CACHE_CONTROL@
            },
            None => {
                &&& response.status == 404
                &&& response.body@.len() == 0
                &&& response.content_type is None
                &&& response.cache_control is None
            },
        },
{
    match found {
        Some(cover) => {
            let declared = owned(media_type(cover.mime.as_str()));
            CoverResponse {
                status: 200,
                content_type: Some(declared),
                cache_control: Some(owned(CACHE_CONTROL)),
                body: cover.bytes,
            }
        },
        None => CoverResponse {
            status: 404,
            content_type: None,
            cache_control: None,
            body: Vec::new(),
        },
    }
}

/// The files a cover might be in. Both `None` means the album has nothing
/// to look in, which is one of the ways a cover is simply not there.
#[derive(Clone, Debug, PartialEq, Eq)]
pub struct Candidates {
    /// A file the library says holds a picture.
    pub with_picture: Option<String>,
    /// A file to look beside, for an image in the album's folder.
    pub beside: Option<String>,
}

/// The files worth opening for the cover `key` names. For an album they
/// are what the library found: `album_with_picture`, one of its tracks
/// known to hold a picture, and `album_track`, any of its tracks. A track
/// is its own candidate both ways, taken as given.
pub fn candidates_for(key: &Key, album_with_picture: Option<String>, album_track: Option<String>) -> (found: Candidates)
    ensures
        match key@ {
            KeyView::Album { .. } => text_view(found.with_picture) == text_view(album_with_picture)
                && text_view(found.beside) == text_view(album_track),
            KeyView::Track { path } => text_view(found.with_picture) == Some(path)
                && text_view(found.beside) == Some(path),
        },
{
    match key {
        Key::Album { .. } => Candidates { with_picture: album_with_picture, beside: album_track },
        Key::Track { path } => Candidates { with_picture: Some(path.clone()), beside: Some(path.clone()) },
    }
}

/// Where a cover is looked for.
#[derive(Clone, Debug, PartialEq, Eq)]
pub enum CoverSource {
    /// The picture inside this music file.
    Embedded(String),
    /// An image in the folder this music file sits in.
    Beside(String),
}

/// The places to look for a cover, in the order they are tried: the
/// picture inside a file wins over an image beside the music, which is
/// only looked for when no file holds one.
pub open spec fn sources_of(candidates: Candidates) -> Seq<CoverSource> {
    let embedded: Seq<CoverSource> = match candidates.with_picture {
        Some(path) => seq![CoverSource::Embedded(path)],
        None => Seq::empty(),
    };
    let beside: Seq<CoverSource> = match candidates.beside {
        Some(path) => seq![CoverSource::Beside(path)],
        None => Seq::empty(),
    };
    embedded + beside
}

/// The places to look for the cover, in the order to try them; the first
/// that holds a picture gives the cover.
pub fn cover_sources(candidates: &Candidates) -> (sources: Vec<CoverSource>)
    ensures
        sources@ == sources_of(*candidates),
{
    let mut sources: Vec<CoverSource> = Vec::new();
    if let Some(path) = &candidates.with_picture {
        sources.push(CoverSource::Embedded(path.clone()));
    }
    if let Some(path) = &candidates.beside {
        sources.push(CoverSource::Beside(path.clone()));
    }
    proof {
        assert(sources@ =~= sources_of(*candidates));
    }
    sources
}

/// Whether the declared media type is one a response can carry: only
/// characters of a plain media type, and one slash.
pub proof fn law_a_declared_media_type_is_plain(mime: Seq<char>, declared: Seq<char>)
    requires
        declared == (if plausible_media_type(encode_utf8(mime).len(), mime) {
            mime
        } else {
            UNKNOWN_MEDIA_TYPE@
        }),
    ensures
        forall|i: int| 0 <= i < declared.len() ==> media_char(#[trigger] declared[i]),
        count_char(declared, '/') == 1,
{
    reveal_strlit("application/octet-stream");
    if !plausible_media_type(encode_utf8(mime).len(), mime) {
        assert(declared == "application/octet-stream"@);
        reveal_with_fuel(count_char, 25);
    }
}

} // verus!
