//! The plain records the library passes around: tracks, folders and the
//! stamps a scan compares.

use vstd::prelude::*;

verus! {

/// A copy of an optional text, field for field.
pub fn copy_text(text: &Option<String>) -> (copy: Option<String>)
    ensures
        copy == *text,
{
    match text {
        Some(inner) => Some(inner.clone()),
        None => None,
    }
}

/// A copy of a list of texts, entry for entry.
pub fn copy_texts(texts: &Vec<String>) -> (copy: Vec<String>)
    ensures
        copy@ == texts@,
{
    let mut copy: Vec<String> = Vec::new();
    let mut i: usize = 0;
    while i < texts.len()
        invariant
            i <= texts.len(),
            copy@ == texts@.take(i as int),
        decreases texts.len() - i,
    {
        copy.push(texts[i].clone());
        i = i + 1;
        proof {
            assert(copy@ =~= texts@.take(i as int));
        }
    }
    proof {
        assert(texts@.take(texts@.len() as int) =~= texts@);
    }
    copy
}

/// A track as the queue and the player know it.
#[derive(Clone, Debug, PartialEq, Eq)]
pub struct Track {
    pub id: i64,
    pub path: String,
    pub title: Option<String>,
    pub artist: Option<String>,
    pub album: Option<String>,
    pub duration_ms: u64,
}

impl Track {
    /// An equal track, owned.
    pub fn duplicate(&self) -> (copy: Track)
        ensures
            copy == *self,
    {
        Track {
            id: self.id,
            path: self.path.clone(),
            title: copy_text(&self.title),
            artist: copy_text(&self.artist),
            album: copy_text(&self.album),
            duration_ms: self.duration_ms,
        }
    }
}

/// A library folder.
#[derive(Clone, Debug, PartialEq, Eq)]
pub struct Folder {
    pub id: i64,
    pub path: String,
}

/// How much music the library holds.
#[derive(Clone, Debug, PartialEq, Eq)]
pub struct LibraryStats {
    pub track_count: u64,
    pub total_duration_ms: u64,
}

/// A file as recorded by the last scan, used to skip unchanged files.
#[derive(Clone, Debug, PartialEq, Eq)]
pub struct FileStamp {
    pub path: String,
    pub mtime: i64,
    pub size: i64,
}

impl FileStamp {
    /// An equal stamp, owned.
    pub fn duplicate(&self) -> (copy: FileStamp)
        ensures
            copy == *self,
    {
        FileStamp { path: self.path.clone(), mtime: self.mtime, size: self.size }
    }
}

/// A track with everything the library tree groups by.
#[derive(Clone, Debug, PartialEq, Eq)]
pub struct LibraryRow {
    pub id: i64,
    pub path: String,
    pub genre: Option<String>,
    pub artist: Option<String>,
    pub album: Option<String>,
    pub title: Option<String>,
    pub track_number: Option<u32>,
    pub disc_number: Option<u32>,
    pub rating: Option<u8>,
    pub grouping: Option<String>,
    pub duration_ms: u64,
}

impl LibraryRow {
    /// An equal row, owned.
    pub fn duplicate(&self) -> (copy: LibraryRow)
        ensures
            copy == *self,
    {
        LibraryRow {
            id: self.id,
            path: self.path.clone(),
            genre: copy_text(&self.genre),
            artist: copy_text(&self.artist),
            album: copy_text(&self.album),
            title: copy_text(&self.title),
            track_number: self.track_number,
            disc_number: self.disc_number,
            rating: self.rating,
            grouping: copy_text(&self.grouping),
            duration_ms: self.duration_ms,
        }
    }
}

/// Everything the now-playing panel shows about a track.
#[derive(Clone, Debug, PartialEq, Eq)]
pub struct TrackDetails {
    pub id: i64,
    pub path: String,
    pub title: Option<String>,
    pub artist: Option<String>,
    pub album_artist: Option<String>,
    pub album: Option<String>,
    pub genre: Option<String>,
    pub year: Option<u32>,
    pub track_number: Option<u32>,
    pub disc_number: Option<u32>,
    pub rating: Option<u8>,
    pub grouping: Option<String>,
    pub duration_ms: u64,
}

/// A number of milliseconds held to what a `u64` can count.
pub fn saturating_millis(millis: u128) -> (ms: u64)
    ensures
        ms == (if millis <= u64::MAX { millis as int } else { u64::MAX as int }),
{
    if millis <= 18_446_744_073_709_551_615u128 {
        millis as u64
    } else {
        u64::MAX
    }
}

/// The library's totals from what the database counted; a negative count,
/// which a database can hand back, is none.
pub fn library_stats(track_count: i64, total_duration_ms: i64) -> (stats: LibraryStats)
    ensures
        stats.track_count == (if track_count >= 0 { track_count as int } else { 0 }),
        stats.total_duration_ms == (if total_duration_ms >= 0 { total_duration_ms as int } else { 0 }),
{
    LibraryStats {
        track_count: if track_count >= 0 { track_count as u64 } else { 0 },
        total_duration_ms: if total_duration_ms >= 0 { total_duration_ms as u64 } else { 0 },
    }
}

/// A length as the database stores it: held at `i64::MAX` when larger.
pub fn stored_length(ms: u64) -> (stored: i64)
    ensures
        stored == (if ms <= i64::MAX { ms as int } else { i64::MAX as int }),
{
    if ms <= 9_223_372_036_854_775_807u64 {
        ms as i64
    } else {
        i64::MAX
    }
}

} // verus!
