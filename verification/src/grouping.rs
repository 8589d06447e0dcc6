//! The custom "Grouping" tag: `Type / Volume / Vibe`.
//!
//! Format rules:
//! - `A / B / C` when all three parts are set
//! - `A / / C` when the volume is empty
//! - `A /` when both volume and vibe are empty
//! - each part may also be empty, so `/ Loud / Happy` or `/ / Dark` are valid

use vstd::prelude::*;

use crate::text::{
    chars_of, lacks, lemma_split_extend, lemma_split_not_empty, lemma_split_separator_then,
    lemma_split_without_separator, lemma_trim_padded, push_char, push_text, reads_as,
    split, split_at_each, tight, trim, trimmed,
};

verus! {

/// A value that is not one of the allowed words for its part.
struct Unknown;

#[derive(Clone, Copy, Debug, PartialEq, Eq, Structural)]
pub enum Kind {
    Chant,
    Instru,
}

#[derive(Clone, Copy, Debug, PartialEq, Eq, Structural)]
pub enum Volume {
    Soft,
    Loud,
}

#[derive(Clone, Copy, Debug, PartialEq, Eq, Structural)]
pub enum Vibe {
    Happy,
    Sad,
    Dark,
    Mix,
}

/// A parsed grouping tag. Every part is optional.
#[derive(Clone, Copy, Debug, PartialEq, Eq, Structural)]
pub struct Grouping {
    pub kind: Option<Kind>,
    pub volume: Option<Volume>,
    pub vibe: Option<Vibe>,
}

pub open spec fn kind_label(kind: Kind) -> Seq<char> {
    match kind {
        Kind::Chant => "Chant"@,
        Kind::Instru => "Instru"@,
    }
}

pub open spec fn volume_label(volume: Volume) -> Seq<char> {
    match volume {
        Volume::Soft => "Soft"@,
        Volume::Loud => "Loud"@,
    }
}

pub open spec fn vibe_label(vibe: Vibe) -> Seq<char> {
    match vibe {
        Vibe::Happy => "Happy"@,
        Vibe::Sad => "Sad"@,
        Vibe::Dark => "Dark"@,
        Vibe::Mix => "Mix"@,
    }
}

/// The type a part names: `Some(None)` for an empty part, `None` for a word
/// that is not allowed.
pub open spec fn kind_named(raw: Seq<char>) -> Option<Option<Kind>> {
    if raw.len() == 0 {
        Some(None)
    } else if raw == "Chant"@ {
        Some(Some(Kind::Chant))
    } else if raw == "Instru"@ {
        Some(Some(Kind::Instru))
    } else {
        None
    }
}

pub open spec fn volume_named(raw: Seq<char>) -> Option<Option<Volume>> {
    if raw.len() == 0 {
        Some(None)
    } else if raw == "Soft"@ {
        Some(Some(Volume::Soft))
    } else if raw == "Loud"@ {
        Some(Some(Volume::Loud))
    } else {
        None
    }
}

pub open spec fn vibe_named(raw: Seq<char>) -> Option<Option<Vibe>> {
    if raw.len() == 0 {
        Some(None)
    } else if raw == "Happy"@ {
        Some(Some(Vibe::Happy))
    } else if raw == "Sad"@ {
        Some(Some(Vibe::Sad))
    } else if raw == "Dark"@ {
        Some(Some(Vibe::Dark))
    } else if raw == "Mix"@ {
        Some(Some(Vibe::Mix))
    } else {
        None
    }
}

/// Part `i` of a split grouping tag, without the white space around it; a
/// part that is not there is empty.
pub open spec fn part(parts: Seq<Seq<char>>, i: int) -> Seq<char> {
    if i < parts.len() {
        trim(parts[i])
    } else {
        Seq::empty()
    }
}

/// What a grouping tag means: `None` when it has more than three parts or
/// a part holds a word that is not allowed.
pub open spec fn grouping_of(raw: Seq<char>) -> Option<Grouping> {
    let parts = split(raw, '/');
    if parts.len() > 3 {
        None
    } else {
        match (
            kind_named(part(parts, 0)),
            volume_named(part(parts, 1)),
            vibe_named(part(parts, 2)),
        ) {
            (Some(kind), Some(volume), Some(vibe)) => Some(Grouping { kind, volume, vibe }),
            _ => None,
        }
    }
}

pub open spec fn kind_text(kind: Option<Kind>) -> Seq<char> {
    match kind {
        Some(kind) => kind_label(kind),
        None => Seq::empty(),
    }
}

/// The text of a grouping, following the format rules.
pub open spec fn grouping_text(grouping: Grouping) -> Seq<char> {
    let kind = kind_text(grouping.kind);
    match (grouping.volume, grouping.vibe) {
        (None, None) => kind + seq![' ', '/'],
        (None, Some(vibe)) => kind + seq![' ', '/', ' ', '/', ' '] + vibe_label(vibe),
        (Some(volume), None) => kind + seq![' ', '/', ' '] + volume_label(volume) + seq![' ', '/'],
        (Some(volume), Some(vibe)) => kind + seq![' ', '/', ' '] + volume_label(volume) + seq![
            ' ',
            '/',
            ' ',
        ] + vibe_label(vibe),
    }
}

impl Kind {
    fn label(self) -> (label: &'static str)
        ensures
            label@ == kind_label(self),
    {
        match self {
            Kind::Chant => "Chant",
            Kind::Instru => "Instru",
        }
    }

    fn parse(raw: &Vec<char>) -> (kind: Result<Option<Self>, Unknown>)
        ensures
            match kind {
                Ok(kind) => kind_named(raw@) == Some(kind),
                Err(_) => kind_named(raw@) is None,
            },
    {
        if raw.len() == 0 {
            Ok(None)
        } else if reads_as(raw, "Chant") {
            Ok(Some(Kind::Chant))
        } else if reads_as(raw, "Instru") {
            Ok(Some(Kind::Instru))
        } else {
            Err(Unknown)
        }
    }
}

impl Volume {
    fn label(self) -> (label: &'static str)
        ensures
            label@ == volume_label(self),
    {
        match self {
            Volume::Soft => "Soft",
            Volume::Loud => "Loud",
        }
    }

    fn parse(raw: &Vec<char>) -> (volume: Result<Option<Self>, Unknown>)
        ensures
            match volume {
                Ok(volume) => volume_named(raw@) == Some(volume),
                Err(_) => volume_named(raw@) is None,
            },
    {
        if raw.len() == 0 {
            Ok(None)
        } else if reads_as(raw, "Soft") {
            Ok(Some(Volume::Soft))
        } else if reads_as(raw, "Loud") {
            Ok(Some(Volume::Loud))
        } else {
            Err(Unknown)
        }
    }
}

impl Vibe {
    fn label(self) -> (label: &'static str)
        ensures
            label@ == vibe_label(self),
    {
        match self {
            Vibe::Happy => "Happy",
            Vibe::Sad => "Sad",
            Vibe::Dark => "Dark",
            Vibe::Mix => "Mix",
        }
    }

    fn parse(raw: &Vec<char>) -> (vibe: Result<Option<Self>, Unknown>)
        ensures
            match vibe {
                Ok(vibe) => vibe_named(raw@) == Some(vibe),
                Err(_) => vibe_named(raw@) is None,
            },
    {
        if raw.len() == 0 {
            Ok(None)
        } else if reads_as(raw, "Happy") {
            Ok(Some(Vibe::Happy))
        } else if reads_as(raw, "Sad") {
            Ok(Some(Vibe::Sad))
        } else if reads_as(raw, "Dark") {
            Ok(Some(Vibe::Dark))
        } else if reads_as(raw, "Mix") {
            Ok(Some(Vibe::Mix))
        } else {
            Err(Unknown)
        }
    }
}

/// Part `index` of `parts`, trimmed; empty when there is no such part.
fn part_at(parts: &Vec<Vec<char>>, index: usize) -> (piece: Vec<char>)
    ensures
        piece@ == part(parts.deep_view(), index as int),
{
    if index < parts.len() {
        let piece = trimmed(&parts[index]);
        proof {
            assert(parts.deep_view()[index as int] =~= parts@[index as int]@);
        }
        piece
    } else {
        Vec::new()
    }
}

impl Default for Grouping {
    /// The grouping with no part set.
    fn default() -> (grouping: Grouping)
        ensures
            grouping == (Grouping { kind: None, volume: None, vibe: None }),
    {
        Grouping { kind: None, volume: None, vibe: None }
    }
}

impl Grouping {
    /// The grouping with no part set.
    pub fn empty() -> (grouping: Grouping)
        ensures
            grouping == (Grouping { kind: None, volume: None, vibe: None }),
    {
        Grouping { kind: None, volume: None, vibe: None }
    }

    /// Parses a grouping tag. Returns `None` when the text does not follow
    /// the `A / B / C` format or uses unknown values. Surrounding whitespace
    /// around each part is ignored; a blank string is the empty grouping.
    pub fn parse(raw: &str) -> (grouping: Option<Self>)
        ensures
            grouping == grouping_of(raw@),
    {
        let chars = chars_of(raw);
        let parts = split_at_each(&chars, '/');
        if parts.len() > 3 {
            return None;
        }
        let kind = match Kind::parse(&part_at(&parts, 0)) {
            Ok(kind) => kind,
            Err(_) => return None,
        };
        let volume = match Volume::parse(&part_at(&parts, 1)) {
            Ok(volume) => volume,
            Err(_) => return None,
        };
        let vibe = match Vibe::parse(&part_at(&parts, 2)) {
            Ok(vibe) => vibe,
            Err(_) => return None,
        };
        Some(Grouping { kind, volume, vibe })
    }

    pub fn is_empty(&self) -> (empty: bool)
        ensures
            empty == (self.kind is None && self.volume is None && self.vibe is None),
    {
        self.kind.is_none() && self.volume.is_none() && self.vibe.is_none()
    }

    /// The tag text, following the format rules.
    pub fn to_string(&self) -> (text: String)
        ensures
            text@ == grouping_text(*self),
    {
        let mut text = String::new();
        if let Some(kind) = self.kind {
            push_text(&mut text, kind.label());
        }
        push_char(&mut text, ' ');
        push_char(&mut text, '/');
        match (self.volume, self.vibe) {
            (None, None) => {},
            (None, Some(vibe)) => {
                push_char(&mut text, ' ');
                push_char(&mut text, '/');
                push_char(&mut text, ' ');
                push_text(&mut text, vibe.label());
            },
            (Some(volume), None) => {
                push_char(&mut text, ' ');
                push_text(&mut text, volume.label());
                push_char(&mut text, ' ');
                push_char(&mut text, '/');
            },
            (Some(volume), Some(vibe)) => {
                push_char(&mut text, ' ');
                push_text(&mut text, volume.label());
                push_char(&mut text, ' ');
                push_char(&mut text, '/');
                push_char(&mut text, ' ');
                push_text(&mut text, vibe.label());
            },
        }
        proof {
            assert(text@ =~= grouping_text(*self));
        }
        text
    }
}

proof fn lemma_kind_text(kind: Option<Kind>)
    ensures
        lacks(kind_text(kind), '/'),
        tight(kind_text(kind)),
        kind_named(kind_text(kind)) == Some(kind),
{
    reveal_strlit("Chant");
    reveal_strlit("Instru");
}

proof fn lemma_volume_label(volume: Volume)
    ensures
        lacks(volume_label(volume), '/'),
        tight(volume_label(volume)),
        volume_label(volume).len() > 0,
        volume_named(volume_label(volume)) == Some(Some(volume)),
{
    reveal_strlit("Soft");
    reveal_strlit("Loud");
}

proof fn lemma_vibe_label(vibe: Vibe)
    ensures
        lacks(vibe_label(vibe), '/'),
        tight(vibe_label(vibe)),
        vibe_label(vibe).len() > 0,
        vibe_named(vibe_label(vibe)) == Some(Some(vibe)),
{
    reveal_strlit("Happy");
    reveal_strlit("Sad");
    reveal_strlit("Dark");
    reveal_strlit("Mix");
}

/// Parts that are tight text with a space on the sides that face a
/// separator.
proof fn lemma_padded_lacks(s: Seq<char>, before: bool, after: bool)
    requires
        lacks(s, '/'),
    ensures
        lacks(
            (if before {
                seq![' ']
            } else {
                Seq::empty()
            }) + s + (if after {
                seq![' ']
            } else {
                Seq::empty()
            }),
            '/',
        ),
{
    let pre: Seq<char> = if before {
        seq![' ']
    } else {
        Seq::empty()
    };
    let post: Seq<char> = if after {
        seq![' ']
    } else {
        Seq::empty()
    };
    let whole = pre + s + post;
    assert forall|i: int| 0 <= i < whole.len() implies whole[i] != '/' by {
        if i < pre.len() {
        } else if i < pre.len() + s.len() {
            assert(whole[i] == s[i - pre.len()]);
        } else {
        }
    }
}

/// The facts about the first part that every case of the round trip uses.
proof fn lemma_first_part(kind: Option<Kind>)
    ensures
        lacks(kind_text(kind) + seq![' '], '/'),
        trim(kind_text(kind) + seq![' ']) == kind_text(kind),
        split(kind_text(kind) + seq![' '], '/') == seq![kind_text(kind) + seq![' ']],
        kind_named(kind_text(kind)) == Some(kind),
        lacks(seq![' '], '/'),
        lacks(Seq::<char>::empty(), '/'),
        trim(seq![' ']) == Seq::<char>::empty(),
        trim(Seq::<char>::empty()) == Seq::<char>::empty(),
{
    let kind_chars = kind_text(kind);
    let empty = Seq::<char>::empty();
    lemma_kind_text(kind);
    lemma_padded_lacks(kind_chars, false, true);
    lemma_trim_padded(kind_chars, false, true);
    lemma_trim_padded(empty, false, false);
    lemma_trim_padded(empty, true, false);
    assert(seq![' '] =~= seq![' '] + empty + empty);
    assert(kind_chars + seq![' '] =~= empty + kind_chars + seq![' ']);
    lemma_split_without_separator(kind_chars + seq![' '], '/');
    assert(empty =~= empty + empty + empty);
}

proof fn lemma_round_trip_kind_only(kind: Option<Kind>)
    ensures
        ({
            let grouping = Grouping { kind, volume: None, vibe: None };
            grouping_of(grouping_text(grouping)) == Some(grouping)
        }),
{
    let grouping = Grouping { kind, volume: None, vibe: None };
    lemma_first_part(kind);
    let first = kind_text(kind) + seq![' '];
    let empty = Seq::<char>::empty();
    let text = grouping_text(grouping);
    assert(text =~= first + seq!['/'] + empty);
    lemma_split_separator_then(first, empty, '/');
    let parts = split(text, '/');
    assert(parts =~= seq![first, empty]);
    assert(part(parts, 0) == kind_text(kind));
    assert(part(parts, 1) == empty);
    assert(part(parts, 2) == empty);
}

/// How `k / / v` splits, for text `k` and a word `v` without separators.
proof fn lemma_split_vibe_only(k: Seq<char>, v: Seq<char>)
    requires
        lacks(k + seq![' '], '/'),
        lacks(v, '/'),
        tight(v),
    ensures
        ({
            let parts = split(k + seq![' ', '/', ' ', '/', ' '] + v, '/');
            &&& parts.len() == 3
            &&& parts[0] == k + seq![' ']
            &&& trim(parts[1]) == Seq::<char>::empty()
            &&& trim(parts[2]) == v
        }),
{
    let first = k + seq![' '];
    let empty = Seq::<char>::empty();
    let space = seq![' '];
    lemma_padded_lacks(v, true, false);
    lemma_trim_padded(v, true, false);
    lemma_trim_padded(empty, true, false);
    assert(space =~= seq![' '] + empty + empty);
    assert(first =~= empty + first + empty);
    lemma_split_without_separator(first, '/');
    let last = space + v;
    assert(last =~= seq![' '] + v + empty);
    let middle = first + seq!['/'] + space;
    assert(lacks(space, '/'));
    assert(k + seq![' ', '/', ' ', '/', ' '] + v =~= middle + seq!['/'] + last);
    lemma_split_separator_then(first, space, '/');
    lemma_split_separator_then(middle, last, '/');
    assert(split(k + seq![' ', '/', ' ', '/', ' '] + v, '/') =~= seq![first, space, last]);
}

proof fn lemma_round_trip_vibe(kind: Option<Kind>, vibe: Vibe)
    ensures
        ({
            let grouping = Grouping { kind, volume: None, vibe: Some(vibe) };
            grouping_of(grouping_text(grouping)) == Some(grouping)
        }),
{
    let grouping = Grouping { kind, volume: None, vibe: Some(vibe) };
    lemma_first_part(kind);
    lemma_vibe_label(vibe);
    let v = vibe_label(vibe);
    lemma_split_vibe_only(kind_text(kind), v);
    let parts = split(grouping_text(grouping), '/');
    assert(part(parts, 0) == kind_text(kind));
    assert(part(parts, 1) == Seq::<char>::empty());
    assert(part(parts, 2) == v);
}

#[verifier::spinoff_prover]
#[verifier::rlimit(40)]
proof fn lemma_round_trip_volume(kind: Option<Kind>, volume: Volume)
    ensures
        ({
            let grouping = Grouping { kind, volume: Some(volume), vibe: None };
            grouping_of(grouping_text(grouping)) == Some(grouping)
        }),
{
    let grouping = Grouping { kind, volume: Some(volume), vibe: None };
    lemma_first_part(kind);
    let first = kind_text(kind) + seq![' '];
    let empty = Seq::<char>::empty();
    let space = seq![' '];
    let v = volume_label(volume);
    lemma_volume_label(volume);
    lemma_padded_lacks(v, true, true);
    lemma_trim_padded(v, true, true);
    let second = space + v + space;
    assert(second =~= seq![' '] + v + seq![' ']);
    let middle = first + seq!['/'] + second;
    let text = grouping_text(grouping);
    assert(text =~= middle + seq!['/'] + empty);
    lemma_split_separator_then(first, second, '/');
    lemma_split_separator_then(middle, empty, '/');
    let parts = split(text, '/');
    assert(parts =~= seq![first, second, empty]);
    assert(part(parts, 0) == kind_text(kind));
    assert(part(parts, 1) == v);
    assert(part(parts, 2) == empty);
}

/// How `k / v / b` splits, for text `k` and words `v` and `b` without
/// separators.
proof fn lemma_split_full(k: Seq<char>, v: Seq<char>, b: Seq<char>)
    requires
        lacks(k + seq![' '], '/'),
        lacks(v, '/'),
        tight(v),
        lacks(b, '/'),
        tight(b),
    ensures
        ({
            let parts = split(k + seq![' ', '/', ' '] + v + seq![' ', '/', ' '] + b, '/');
            &&& parts.len() == 3
            &&& parts[0] == k + seq![' ']
            &&& trim(parts[1]) == v
            &&& trim(parts[2]) == b
        }),
{
    let first = k + seq![' '];
    let empty = Seq::<char>::empty();
    let space = seq![' '];
    lemma_padded_lacks(v, true, true);
    lemma_trim_padded(v, true, true);
    lemma_padded_lacks(b, true, false);
    lemma_trim_padded(b, true, false);
    assert(first =~= empty + first + empty);
    lemma_split_without_separator(first, '/');
    let second = space + v + space;
    assert(second =~= seq![' '] + v + seq![' ']);
    let last = space + b;
    assert(last =~= seq![' '] + b + empty);
    let middle = first + seq!['/'] + second;
    let text = k + seq![' ', '/', ' '] + v + seq![' ', '/', ' '] + b;
    assert(text =~= middle + seq!['/'] + last);
    lemma_split_separator_then(first, second, '/');
    lemma_split_separator_then(middle, last, '/');
    assert(split(text, '/') =~= seq![first, second, last]);
}

proof fn lemma_round_trip_full(kind: Option<Kind>, volume: Volume, vibe: Vibe)
    ensures
        ({
            let grouping = Grouping { kind, volume: Some(volume), vibe: Some(vibe) };
            grouping_of(grouping_text(grouping)) == Some(grouping)
        }),
{
    let grouping = Grouping { kind, volume: Some(volume), vibe: Some(vibe) };
    lemma_first_part(kind);
    lemma_volume_label(volume);
    lemma_vibe_label(vibe);
    let v = volume_label(volume);
    let b = vibe_label(vibe);
    lemma_split_full(kind_text(kind), v, b);
    let parts = split(grouping_text(grouping), '/');
    assert(part(parts, 0) == kind_text(kind));
    assert(part(parts, 1) == v);
    assert(part(parts, 2) == b);
}

/// Writing a grouping and parsing the text back gives the same grouping.
pub proof fn law_text_parses_back(grouping: Grouping)
    ensures
        grouping_of(grouping_text(grouping)) == Some(grouping),
{
    match (grouping.volume, grouping.vibe) {
        (None, None) => lemma_round_trip_kind_only(grouping.kind),
        (None, Some(vibe)) => lemma_round_trip_vibe(grouping.kind, vibe),
        (Some(volume), None) => lemma_round_trip_volume(grouping.kind, volume),
        (Some(volume), Some(vibe)) => lemma_round_trip_full(grouping.kind, volume, vibe),
    }
}

} // verus!
