//! What the commands the frontend calls decide, apart from reading and
//! writing the library and the settings file: the scan slot, playlist
//! names and ids, and what the panels are told.

use vstd::prelude::*;

use crate::cover::{encoded_key, key_for, Key};
use crate::player::Event;
use crate::records::{LibraryRow, Track, TrackDetails};
use crate::settings::{playlists_view, texts_view, Playlist, PlaylistModel, Settings, SettingsModel};
use crate::text::{chars_of, push_text, str_view, text_of, text_view, trim, trimmed};

verus! {

/// Whether a scan is running, and whether another one was asked for while
/// it was.
#[derive(Clone, Copy, Debug, PartialEq, Eq, Structural)]
pub struct ScanStatus {
    pub running: bool,
    pub rescan_requested: bool,
}

impl ScanStatus {
    /// A request for a scan: the slot is taken when it is free, and
    /// another pass is queued when it is not.
    pub open spec fn claimed(self) -> (ScanStatus, bool) {
        if self.running {
            (ScanStatus { rescan_requested: true, ..self }, false)
        } else {
            (ScanStatus { running: true, ..self }, true)
        }
    }

    /// The end of a pass: another one runs when it was asked for.
    pub open spec fn finished(self) -> (ScanStatus, bool) {
        if self.rescan_requested {
            (ScanStatus { rescan_requested: false, ..self }, true)
        } else {
            (ScanStatus { running: false, ..self }, false)
        }
    }

    /// No scan is running and none is queued.
    pub fn new() -> (status: ScanStatus)
        ensures
            status == (ScanStatus { running: false, rescan_requested: false }),
    {
        ScanStatus { running: false, rescan_requested: false }
    }

    /// Claims the scan slot. Returns `true` when the caller has to run the
    /// scan, `false` when one is already running and another pass has been
    /// queued instead.
    pub fn claim(&mut self) -> (must_run: bool)
        ensures
            (*final(self), must_run) == old(self).claimed(),
    {
        if self.running {
            self.rescan_requested = true;
            false
        } else {
            self.running = true;
            true
        }
    }

    /// Ends a pass. Returns `true` when another pass was requested while it
    /// was running, in which case the slot stays claimed.
    pub fn finish_pass(&mut self) -> (again: bool)
        ensures
            (*final(self), again) == old(self).finished(),
    {
        if self.rescan_requested {
            self.rescan_requested = false;
            true
        } else {
            self.running = false;
            false
        }
    }

    /// Releases the slot after a scan that ended unexpectedly.
    pub fn abort(&mut self)
        ensures
            *final(self) == (ScanStatus { running: false, rescan_requested: false }),
    {
        self.running = false;
        self.rescan_requested = false;
    }
}

impl Default for ScanStatus {
    fn default() -> (status: ScanStatus)
        ensures
            status == (ScanStatus { running: false, rescan_requested: false }),
    {
        ScanStatus::new()
    }
}

/// Requests that arrive while a scan runs collapse into a single extra
/// pass, and the slot stays claimed between the two passes.
pub proof fn law_requests_during_a_scan_collapse(status: ScanStatus)
    requires
        status.running,
    ensures
        ({
            let (queued, run_now) = status.claimed();
            let (again, run_again) = queued.claimed();
            let (between, one_more) = again.finished();
            let (after, another) = between.finished();
            &&& !run_now
            &&& !run_again
            &&& again == queued
            &&& one_more
            &&& between.running
            &&& !another
            &&& !after.running
        }),
{
}

/// Aborting releases the slot and forgets the passes that were queued: a
/// later scan claims it again and runs once.
pub proof fn law_abort_forgets_queued_passes(status: ScanStatus)
    ensures
        ({
            let released = ScanStatus { running: false, rescan_requested: false };
            let (claimed, must_run) = released.claimed();
            let (_, again) = claimed.finished();
            must_run && !again
        }),
{
}

/// The reply to a health check: the backend's name and version.
pub fn ping_reply() -> (reply: String)
    ensures
        reply@ == "satsuma 0.1.0"@,
{
    "satsuma 0.1.0".to_owned()
}

pub open spec fn missing_message() -> Seq<char> {
    "that playlist is not there any more"@
}

pub open spec fn nameless_message() -> Seq<char> {
    "a playlist needs a name"@
}

/// Turns "nothing matched that id" into an error: a change that quietly
/// did nothing looks exactly like one that worked.
pub fn missing_unless(found: bool) -> (outcome: Result<(), String>)
    ensures
        match outcome {
            Ok(()) => found,
            Err(message) => !found && message@ == missing_message(),
        },
{
    if found {
        Ok(())
    } else {
        Err("that playlist is not there any more".to_owned())
    }
}

/// A playlist name with the spaces around it removed, refused when
/// nothing is left of it: a tab with no label cannot be clicked.
pub fn check_name(name: &str) -> (checked: Result<String, String>)
    ensures
        match checked {
            Ok(kept) => trim(name@).len() > 0 && kept@ == trim(name@),
            Err(message) => trim(name@).len() == 0 && message@ == nameless_message(),
        },
{
    let inner = trimmed(&chars_of(name));
    if inner.len() == 0 {
        return Err("a playlist needs a name".to_owned());
    }
    Ok(text_of(&inner))
}

/// The highest id any of the playlists holds, 0 for none.
pub open spec fn highest_id(playlists: Seq<PlaylistModel>) -> nat
    decreases playlists.len(),
{
    if playlists.len() == 0 {
        0
    } else {
        let rest = highest_id(playlists.drop_last());
        if playlists.last().id > rest {
            playlists.last().id as nat
        } else {
            rest
        }
    }
}

proof fn lemma_highest_id_bounds(playlists: Seq<PlaylistModel>)
    ensures
        forall|i: int| 0 <= i < playlists.len() ==> #[trigger] playlists[i].id <= highest_id(playlists),
        playlists.len() > 0 ==> exists|i: int|
            0 <= i < playlists.len() && #[trigger] playlists[i].id == highest_id(playlists),
        highest_id(playlists) <= u32::MAX,
    decreases playlists.len(),
{
    if playlists.len() > 0 {
        let rest = playlists.drop_last();
        lemma_highest_id_bounds(rest);
        assert forall|i: int| 0 <= i < playlists.len() implies #[trigger] playlists[i].id
            <= highest_id(playlists) by {
            if i < rest.len() {
                assert(playlists[i] == rest[i]);
            }
        }
        if playlists.last().id > highest_id(rest) {
            assert(playlists[playlists.len() - 1].id == highest_id(playlists));
        } else if rest.len() > 0 {
            let j = choose|j: int| 0 <= j < rest.len() && #[trigger] rest[j].id == highest_id(rest);
            assert(playlists[j] == rest[j]);
        } else {
            assert(playlists[0].id == highest_id(playlists));
        }
    }
}

/// An id no playlist holds. Taken past the highest rather than from the
/// count, so deleting one and adding another cannot collide.
pub fn next_playlist_id(playlists: &[Playlist]) -> (id: u32)
    requires
        forall|i: int| 0 <= i < playlists@.len() ==> #[trigger] playlists@[i].id < u32::MAX,
    ensures
        id == highest_id(playlists_view(playlists@)) + 1,
        forall|i: int| 0 <= i < playlists@.len() ==> #[trigger] playlists@[i].id < id,
{
    let ghost models = playlists_view(playlists@);
    let mut highest: u32 = 0;
    let mut i: usize = 0;
    while i < playlists.len()
        invariant
            i <= playlists@.len(),
            models == playlists_view(playlists@),
            highest == highest_id(models.take(i as int)),
        decreases playlists@.len() - i,
    {
        proof {
            assert(models.take(i + 1).drop_last() =~= models.take(i as int));
            assert(models.take(i + 1).last() == playlists@[i as int]@);
        }
        if playlists[i].id > highest {
            highest = playlists[i].id;
        }
        i = i + 1;
    }
    proof {
        assert(models.take(models.len() as int) =~= models);
        lemma_highest_id_bounds(models);
        assert forall|i: int| 0 <= i < playlists@.len() implies #[trigger] playlists@[i].id
            <= highest by {
            assert(models[i].id == playlists@[i].id);
        }
        if playlists@.len() > 0 {
            let j = choose|j: int| 0 <= j < models.len() && #[trigger] models[j].id == highest_id(models);
            assert(models[j].id == playlists@[j].id);
        }
    }
    highest + 1
}

/// The position of the first playlist with `id`.
pub open spec fn first_with_id(playlists: Seq<PlaylistModel>, id: u32) -> Option<int> {
    if exists|i: int| 0 <= i < playlists.len() && playlists[i].id == id {
        Some(
            choose|i: int|
                0 <= i < playlists.len() && playlists[i].id == id && forall|j: int|
                    0 <= j < i ==> playlists[j].id != id,
        )
    } else {
        None
    }
}

fn find_playlist(playlists: &Vec<Playlist>, id: u32) -> (found: Option<usize>)
    ensures
        match found {
            Some(i) => first_with_id(playlists_view(playlists@), id) == Some(i as int) && i
                < playlists@.len(),
            None => first_with_id(playlists_view(playlists@), id) is None,
        },
{
    let ghost models = playlists_view(playlists@);
    let mut i: usize = 0;
    while i < playlists.len()
        invariant
            i <= playlists@.len(),
            models == playlists_view(playlists@),
            forall|j: int| 0 <= j < i ==> models[j].id != id,
        decreases playlists@.len() - i,
    {
        if playlists[i].id == id {
            proof {
                assert(models[i as int].id == id);
                let k = choose|k: int|
                    0 <= k < models.len() && models[k].id == id && forall|j: int|
                        0 <= j < k ==> models[j].id != id;
                assert(k == i as int) by {
                    if k < i {
                    } else if k > i {
                    }
                }
            }
            return Some(i);
        }
        i = i + 1;
    }
    None
}

/// The playlists other than those with `id`, in their order.
pub open spec fn without_id(playlists: Seq<PlaylistModel>, id: u32) -> Seq<PlaylistModel>
    decreases playlists.len(),
{
    if playlists.len() == 0 {
        playlists
    } else {
        let rest = without_id(playlists.drop_last(), id);
        if playlists.last().id == id {
            rest
        } else {
            rest.push(playlists.last())
        }
    }
}

/// Adds a playlist with this name and answers with its id.
pub fn create_playlist_in(settings: &mut Settings, name: &str) -> (created: Result<u32, String>)
    requires
        forall|i: int|
            0 <= i < old(settings).playlists@.len() ==> #[trigger] old(settings).playlists@[i].id
                < u32::MAX,
    ensures
        match created {
            Ok(id) => {
                &&& trim(name@).len() > 0
                &&& id == highest_id(old(settings)@.playlists) + 1
                &&& final(settings)@ == (SettingsModel {
                    playlists: old(settings)@.playlists.push(
                        PlaylistModel { id, name: trim(name@), tracks: Seq::empty() },
                    ),
                    ..old(settings)@
                })
            },
            Err(message) => {
                &&& trim(name@).len() == 0
                &&& message@ == nameless_message()
                &&& final(settings)@ == old(settings)@
            },
        },
{
    let name = match check_name(name) {
        Ok(name) => name,
        Err(message) => return Err(message),
    };
    let id = next_playlist_id(settings.playlists.as_slice());
    let ghost before = settings.playlists@;
    let fresh = Playlist { id, name, tracks: Vec::new() };
    proof {
        assert(texts_view(fresh.tracks@) =~= Seq::<Seq<char>>::empty());
    }
    settings.playlists.push(fresh);
    proof {
        assert(playlists_view(settings.playlists@) =~= playlists_view(before).push(fresh@));
    }
    Ok(id)
}

/// Renames the first playlist with `id`.
pub fn rename_playlist_in(settings: &mut Settings, id: u32, name: &str) -> (renamed: Result<(), String>)
    ensures
        match renamed {
            Ok(()) => {
                &&& trim(name@).len() > 0
                &&& first_with_id(old(settings)@.playlists, id) matches Some(i)
                &&& final(settings)@ == (SettingsModel {
                    playlists: old(settings)@.playlists.update(i, PlaylistModel { name: trim(name@), ..old(settings)@.playlists[i] }),
                    ..old(settings)@
                })
            },
            Err(message) => {
                &&& final(settings)@ == old(settings)@
                &&& if trim(name@).len() == 0 {
                    message@ == nameless_message()
                } else {
                    first_with_id(old(settings)@.playlists, id) is None && message@
                        == missing_message()
                }
            },
        },
{
    let name = match check_name(name) {
        Ok(name) => name,
        Err(message) => return Err(message),
    };
    match find_playlist(&settings.playlists, id) {
        Some(i) => {
            let ghost before = settings.playlists@;
            let old_one = settings.playlists[i].duplicate();
            let renamed = Playlist { id: old_one.id, name, tracks: old_one.tracks };
            settings.playlists.set(i, renamed);
            proof {
                assert(playlists_view(settings.playlists@) =~= playlists_view(before).update(
                    i as int,
                    renamed@,
                ));
            }
            Ok(())
        },
        None => missing_unless(false),
    }
}

/// Deletes every playlist with `id`.
pub fn delete_playlist_in(settings: &mut Settings, id: u32) -> (deleted: Result<(), String>)
    ensures
        final(settings)@ == (SettingsModel {
            playlists: without_id(old(settings)@.playlists, id),
            ..old(settings)@
        }),
        match deleted {
            Ok(()) => first_with_id(old(settings)@.playlists, id) is Some,
            Err(message) => first_with_id(old(settings)@.playlists, id) is None && message@
                == missing_message(),
        },
{
    let found = find_playlist(&settings.playlists, id).is_some();
    let ghost models = settings@.playlists;
    let mut kept: Vec<Playlist> = Vec::new();
    let mut i: usize = 0;
    while i < settings.playlists.len()
        invariant
            i <= settings.playlists@.len(),
            models == playlists_view(settings.playlists@),
            playlists_view(kept@) == without_id(models.take(i as int), id),
        decreases settings.playlists@.len() - i,
    {
        proof {
            assert(models.take(i + 1).drop_last() =~= models.take(i as int));
            assert(models.take(i + 1).last() == settings.playlists@[i as int]@);
        }
        if settings.playlists[i].id != id {
            let ghost before = kept@;
            let copy = settings.playlists[i].duplicate();
            kept.push(copy);
            proof {
                assert(playlists_view(kept@) =~= playlists_view(before).push(copy@));
            }
        }
        i = i + 1;
    }
    proof {
        assert(models.take(models.len() as int) =~= models);
        if !found {
            lemma_without_absent(models, id);
        }
    }
    settings.playlists = kept;
    missing_unless(found)
}

/// Whether a playlist is other than those with `id`.
pub open spec fn other_than(id: u32) -> spec_fn(PlaylistModel) -> bool {
    |playlist: PlaylistModel| playlist.id != id
}

/// Deleting a playlist removes every playlist with its id and nothing
/// else: the others stay, each once and in their order, so the result is
/// the list filtered by "another id".
pub proof fn law_delete_keeps_every_other_playlist(playlists: Seq<PlaylistModel>, id: u32)
    ensures
        without_id(playlists, id) == playlists.filter(other_than(id)),
        forall|i: int|
            0 <= i < playlists.len() && playlists[i].id != id ==> without_id(playlists, id).contains(
                #[trigger] playlists[i],
            ),
        forall|j: int|
            0 <= j < without_id(playlists, id).len() ==> #[trigger] without_id(playlists, id)[j].id
                != id,
    decreases playlists.len(),
{
    reveal(Seq::filter);
    if playlists.len() > 0 {
        law_delete_keeps_every_other_playlist(playlists.drop_last(), id);
    }
    assert(without_id(playlists, id) == playlists.filter(other_than(id)));
    assert forall|i: int| 0 <= i < playlists.len() && playlists[i].id != id implies without_id(
        playlists,
        id,
    ).contains(#[trigger] playlists[i]) by {
        playlists.lemma_filter_contains(other_than(id), i);
    }
    assert forall|j: int| 0 <= j < without_id(playlists, id).len() implies #[trigger] without_id(
        playlists,
        id,
    )[j].id != id by {
        playlists.lemma_filter_pred(other_than(id), j);
    }
}

proof fn lemma_without_absent(playlists: Seq<PlaylistModel>, id: u32)
    requires
        forall|i: int| 0 <= i < playlists.len() ==> playlists[i].id != id,
    ensures
        without_id(playlists, id) == playlists,
    decreases playlists.len(),
{
    if playlists.len() > 0 {
        lemma_without_absent(playlists.drop_last(), id);
        assert(playlists.drop_last().push(playlists.last()) =~= playlists);
    }
}

/// Adds these track paths at the end of the first playlist with `id`.
pub fn add_to_playlist_in(settings: &mut Settings, id: u32, paths: &Vec<String>) -> (added: Result<(), String>)
    ensures
        match added {
            Ok(()) => {
                &&& first_with_id(old(settings)@.playlists, id) matches Some(i)
                &&& final(settings)@ == (SettingsModel {
                    playlists: old(settings)@.playlists.update(i, PlaylistModel { tracks: old(settings)@.playlists[i].tracks + texts_view(paths@), ..old(settings)@.playlists[i] }),
                    ..old(settings)@
                })
            },
            Err(message) => {
                &&& final(settings)@ == old(settings)@
                &&& first_with_id(old(settings)@.playlists, id) is None
                &&& message@ == missing_message()
            },
        },
{
    match find_playlist(&settings.playlists, id) {
        Some(i) => {
            let ghost before = settings.playlists@;
            let old_one = settings.playlists[i].duplicate();
            let mut tracks = old_one.tracks;
            let ghost old_tracks = tracks@;
            let mut more = crate::records::copy_texts(paths);
            tracks.append(&mut more);
            let extended = Playlist { id: old_one.id, name: old_one.name, tracks };
            proof {
                assert(texts_view(extended.tracks@) =~= texts_view(old_tracks) + texts_view(paths@));
            }
            settings.playlists.set(i, extended);
            proof {
                assert(playlists_view(settings.playlists@) =~= playlists_view(before).update(
                    i as int,
                    extended@,
                ));
            }
            Ok(())
        },
        None => missing_unless(false),
    }
}

/// A playlist as the frontend shows it: its tracks resolved against the
/// library, so a file that left it simply disappears from the list.
#[derive(Clone, Debug, PartialEq, Eq)]
pub struct PlaylistView {
    pub id: u32,
    pub name: String,
    pub tracks: Vec<LibraryRow>,
}

/// The library row for a path: the last one listed with it, as a map
/// built from the rows keeps it.
pub open spec fn row_for(rows: Seq<LibraryRow>, path: Seq<char>) -> Option<LibraryRow>
    decreases rows.len(),
{
    if rows.len() == 0 {
        None
    } else if rows.last().path@ == path {
        Some(rows.last())
    } else {
        row_for(rows.drop_last(), path)
    }
}

/// The rows for the paths the library knows, in the playlist's order; a
/// path it does not know is dropped.
pub open spec fn resolved_tracks(paths: Seq<Seq<char>>, rows: Seq<LibraryRow>) -> Seq<LibraryRow>
    decreases paths.len(),
{
    if paths.len() == 0 {
        Seq::empty()
    } else {
        let done = resolved_tracks(paths.drop_last(), rows);
        match row_for(rows, paths.last()) {
            Some(row) => done.push(row),
            None => done,
        }
    }
}

fn row_for_path(rows: &[LibraryRow], path: &String) -> (row: Option<LibraryRow>)
    ensures
        row == row_for(rows@, path@),
{
    let mut i: usize = rows.len();
    proof {
        assert(rows@.take(rows@.len() as int) =~= rows@);
    }
    while i > 0
        invariant
            i <= rows@.len(),
            row_for(rows@, path@) == row_for(rows@.take(i as int), path@),
        decreases i,
    {
        let ghost prefix = rows@.take(i as int);
        proof {
            assert(prefix.drop_last() =~= rows@.take(i - 1));
            assert(prefix.last() == rows@[i - 1]);
        }
        if rows[i - 1].path == *path {
            return Some(rows[i - 1].duplicate());
        }
        i = i - 1;
    }
    proof {
        assert(rows@.take(0) =~= Seq::<LibraryRow>::empty());
    }
    None
}

/// Looks the stored paths up in the library, keeping the order the playlist
/// has. A path the library does not know is dropped: the file left, and the
/// playlist is not the place to say so.
pub fn resolve_playlists(saved: Vec<Playlist>, rows: &[LibraryRow]) -> (views: Vec<PlaylistView>)
    ensures
        views@.len() == saved@.len(),
        forall|i: int|
            0 <= i < saved@.len() ==> {
                &&& #[trigger] views@[i].id == saved@[i].id
                &&& views@[i].name == saved@[i].name
                &&& views@[i].tracks@ == resolved_tracks(saved@[i]@.tracks, rows@)
            },
{
    let mut views: Vec<PlaylistView> = Vec::new();
    let mut i: usize = 0;
    proof {
        assert(rows@.take(rows@.len() as int) =~= rows@);
    }
    while i < saved.len()
        invariant
            i <= saved@.len(),
            views@.len() == i,
            forall|k: int|
                0 <= k < i ==> {
                    &&& #[trigger] views@[k].id == saved@[k].id
                    &&& views@[k].name == saved@[k].name
                    &&& views@[k].tracks@ == resolved_tracks(saved@[k]@.tracks, rows@)
                },
        decreases saved@.len() - i,
    {
        let playlist = &saved[i];
        let ghost paths = playlist@.tracks;
        let mut tracks: Vec<LibraryRow> = Vec::new();
        let mut j: usize = 0;
        while j < playlist.tracks.len()
            invariant
                j <= playlist.tracks@.len(),
                paths == texts_view(playlist.tracks@),
                tracks@ == resolved_tracks(paths.take(j as int), rows@),
            decreases playlist.tracks@.len() - j,
        {
            proof {
                assert(paths.take(j + 1).drop_last() =~= paths.take(j as int));
                assert(paths.take(j + 1).last() == playlist.tracks@[j as int]@);
            }
            if let Some(row) = row_for_path(rows, &playlist.tracks[j]) {
                tracks.push(row);
            }
            j = j + 1;
        }
        proof {
            assert(paths.take(paths.len() as int) =~= paths);
        }
        views.push(PlaylistView { id: playlist.id, name: playlist.name.clone(), tracks });
        i = i + 1;
    }
    views
}

/// When every path of a playlist is in the library, the playlist shows
/// every one of them, in its order, a path listed twice twice.
pub proof fn law_known_paths_all_show(paths: Seq<Seq<char>>, rows: Seq<LibraryRow>)
    requires
        forall|i: int| 0 <= i < paths.len() ==> #[trigger] row_for(rows, paths[i]) is Some,
    ensures
        resolved_tracks(paths, rows).len() == paths.len(),
        forall|i: int|
            0 <= i < paths.len() ==> #[trigger] resolved_tracks(paths, rows)[i] == row_for(
                rows,
                paths[i],
            ).unwrap(),
    decreases paths.len(),
{
    if paths.len() > 0 {
        let rest = paths.drop_last();
        assert forall|i: int| 0 <= i < rest.len() implies #[trigger] row_for(rows, rest[i]) is Some by {
            assert(rest[i] == paths[i]);
        }
        law_known_paths_all_show(rest, rows);
        assert(row_for(rows, paths[paths.len() - 1]) is Some);
        assert forall|i: int| 0 <= i < paths.len() implies #[trigger] resolved_tracks(paths, rows)[i]
            == row_for(rows, paths[i]).unwrap() by {
            if i < rest.len() {
                assert(rest[i] == paths[i]);
            }
        }
    }
}

/// A path the library does not know adds nothing to the playlist shown.
pub proof fn law_unknown_path_drops_out(paths: Seq<Seq<char>>, rows: Seq<LibraryRow>, gone: Seq<char>)
    requires
        row_for(rows, gone) is None,
    ensures
        resolved_tracks(paths.push(gone), rows) == resolved_tracks(paths, rows),
{
    assert(paths.push(gone).drop_last() =~= paths);
}

/// A track as the now-playing panel shows it: its tags, and the key its
/// cover is served under.
#[derive(Clone, Debug, PartialEq, Eq)]
pub struct NowPlaying {
    pub track: TrackDetails,
    /// What to ask the cover protocol for. Worked out here rather than in
    /// the frontend, which would have to know how an album becomes a key
    /// and get the same answer.
    pub cover_key: String,
}

fn as_text(text: &Option<String>) -> (borrowed: Option<&str>)
    ensures
        str_view(borrowed) == text_view(*text),
{
    match text {
        Some(text) => Some(text.as_str()),
        None => None,
    }
}

/// The track and the key of the cover of the album it belongs to.
pub fn now_playing(track: TrackDetails) -> (shown: NowPlaying)
    ensures
        shown.track == track,
        shown.cover_key@ == encoded_key(
            key_for(
                text_view(track.album_artist),
                text_view(track.artist),
                text_view(track.album),
                track.path@,
            ),
        ),
{
    let key = Key::of(
        as_text(&track.album_artist),
        as_text(&track.artist),
        as_text(&track.album),
        track.path.as_str(),
    );
    NowPlaying { cover_key: key.encode(), track }
}

/// The repeat mode the frontend names.
pub fn repeat_named(name: &str) -> (mode: Result<crate::queue::Repeat, String>)
    ensures
        match mode {
            Ok(mode) => (name@ == "off"@ && mode == crate::queue::Repeat::Off) || (name@
                == "track"@ && mode == crate::queue::Repeat::Track) || (name@ == "queue"@ && mode
                == crate::queue::Repeat::Queue),
            Err(message) => name@ != "off"@ && name@ != "track"@ && name@ != "queue"@ && message@
                == "unknown repeat mode: "@ + name@,
        },
{
    let chars = chars_of(name);
    if crate::text::reads_as(&chars, "off") {
        Ok(crate::queue::Repeat::Off)
    } else if crate::text::reads_as(&chars, "track") {
        Ok(crate::queue::Repeat::Track)
    } else if crate::text::reads_as(&chars, "queue") {
        Ok(crate::queue::Repeat::Queue)
    } else {
        let mut message = "unknown repeat mode: ".to_owned();
        push_text(&mut message, name);
        Err(message)
    }
}

/// The decimal digits of `n`.
pub open spec fn decimal(n: nat) -> Seq<char>
    decreases n,
{
    if n < 10 {
        seq![((48 + n) as u8) as char]
    } else {
        decimal(n / 10) + seq![((48 + n % 10) as u8) as char]
    }
}

pub fn decimal_text(n: u8) -> (text: String)
    ensures
        text@ == decimal(n as nat),
{
    let mut text = String::new();
    if n >= 100 {
        crate::text::push_char(&mut text, (48 + n / 100) as char);
    }
    if n >= 10 {
        crate::text::push_char(&mut text, (48 + (n / 10) % 10) as char);
    }
    crate::text::push_char(&mut text, (48 + n % 10) as char);
    proof {
        reveal_with_fuel(decimal, 3);
        if n >= 100 {
            assert((n / 10) / 10 == n / 100);
            assert(decimal((n / 10) as nat) == decimal((n / 100) as nat) + seq![
                ((48 + (n / 10) % 10) as u8) as char,
            ]);
        } else if n >= 10 {
            assert(decimal((n / 10) as nat) == seq![((48 + n / 10) as u8) as char]);
        }
    }
    text
}

/// Checks the stars a rating is given: one to five, or none to take the
/// rating off. Checked rather than trusted: the file would quietly lose
/// its rating while the cache kept the impossible number.
pub fn check_stars(stars: Option<u8>) -> (checked: Result<(), String>)
    ensures
        match checked {
            Ok(()) => stars matches Some(n) ==> 1 <= n <= 5,
            Err(message) => stars matches Some(n) && !(1 <= n <= 5) && message@
                == "a rating is one to five stars, not "@ + decimal(n as nat),
        },
{
    match stars {
        Some(n) => if 1 <= n && n <= 5 {
            Ok(())
        } else {
            let mut message = "a rating is one to five stars, not ".to_owned();
            let digits = decimal_text(n);
            push_text(&mut message, digits.as_str());
            Err(message)
        },
        None => Ok(()),
    }
}

/// `start` is where to start in `tracks` for the track the user picked:
/// the first with its id, or none when it left the library or none was
/// picked.
pub open spec fn is_start_position(tracks: Seq<Track>, start_id: Option<i64>, start: Option<usize>) -> bool {
    match start {
        Some(i) => start_id == Some(tracks[i as int].id) && i < tracks.len() && forall|j: int|
            0 <= j < i ==> tracks[j].id != tracks[i as int].id,
        None => start_id matches Some(id) ==> forall|j: int|
            0 <= j < tracks.len() ==> tracks[j].id != id,
    }
}

/// Where to start in tracks found by id: the one the user picked, if it is
/// still in the library.
pub fn start_position(tracks: &Vec<Track>, start_id: Option<i64>) -> (start: Option<usize>)
    ensures
        is_start_position(tracks@, start_id, start),
{
    let id = match start_id {
        Some(id) => id,
        None => return None,
    };
    let mut i: usize = 0;
    while i < tracks.len()
        invariant
            i <= tracks@.len(),
            start_id == Some(id),
            forall|j: int| 0 <= j < i ==> tracks@[j].id != id,
        decreases tracks@.len() - i,
    {
        if tracks[i].id == id {
            assert(start_id == Some(id));
            assert(tracks@[i as int].id == id);
            assert(forall|j: int| 0 <= j < i ==> tracks@[j].id != tracks@[i as int].id);
            return Some(i);
        }
        i = i + 1;
    }
    None
}

/// The library folders the settings remember but the library does not,
/// in the order they are remembered: what is put back when an unusable
/// cache was recreated.
pub open spec fn folders_to_restore(remembered: Seq<String>, known: Seq<String>) -> Seq<String>
    decreases remembered.len(),
{
    if remembered.len() == 0 {
        Seq::empty()
    } else {
        let done = folders_to_restore(remembered.drop_last(), known);
        if exists|i: int| 0 <= i < known.len() && known[i]@ == remembered.last()@ {
            done
        } else {
            done.push(remembered.last())
        }
    }
}

fn knows(known: &Vec<String>, path: &String) -> (found: bool)
    ensures
        found == exists|i: int| 0 <= i < known@.len() && known@[i]@ == path@,
{
    let mut i: usize = 0;
    while i < known.len()
        invariant
            i <= known@.len(),
            forall|j: int| 0 <= j < i ==> known@[j]@ != path@,
        decreases known@.len() - i,
    {
        if known[i] == *path {
            return true;
        }
        i = i + 1;
    }
    false
}

/// Which remembered folders to add back to the library.
pub fn restore_folders(remembered: &Vec<String>, known: &Vec<String>) -> (missing: Vec<String>)
    ensures
        missing@ == folders_to_restore(remembered@, known@),
{
    let mut missing: Vec<String> = Vec::new();
    let mut i: usize = 0;
    while i < remembered.len()
        invariant
            i <= remembered@.len(),
            missing@ == folders_to_restore(remembered@.take(i as int), known@),
        decreases remembered@.len() - i,
    {
        proof {
            assert(remembered@.take(i + 1).drop_last() =~= remembered@.take(i as int));
        }
        if !knows(known, &remembered[i]) {
            missing.push(remembered[i].clone());
        }
        i = i + 1;
    }
    proof {
        assert(remembered@.take(remembered@.len() as int) =~= remembered@);
    }
    missing
}

pub open spec fn gone_message() -> Seq<char> {
    "none of those tracks are in the library any more"@
}

pub open spec fn empty_library_message() -> Seq<char> {
    "the library is empty; scan a folder first"@
}

/// What the player is told for tracks the user picked, found by id: play
/// them from the one the user started at, so choosing a track from an album
/// plays the album from there. Found by id rather than taken as an index,
/// since a track may have left the library since the tree was built.
pub fn play_request(tracks: Vec<Track>, start_id: Option<i64>) -> (request: Result<Event, String>)
    ensures
        match request {
            Ok(event) => tracks@.len() > 0 && (event matches Event::Play { tracks: queued, start } && queued@
                == tracks@ && is_start_position(tracks@, start_id, start)),
            Err(message) => tracks@.len() == 0 && message@ == gone_message(),
        },
{
    if tracks.len() == 0 {
        return Err("none of those tracks are in the library any more".to_owned());
    }
    let start = start_position(&tracks, start_id);
    Ok(Event::Play { tracks, start })
}

/// What the player is told for tracks the user adds to the queue.
pub fn enqueue_request(tracks: Vec<Track>) -> (request: Result<Event, String>)
    ensures
        match request {
            Ok(event) => tracks@.len() > 0 && (event matches Event::Enqueue(queued) && queued@ == tracks@),
            Err(message) => tracks@.len() == 0 && message@ == gone_message(),
        },
{
    if tracks.len() == 0 {
        return Err("none of those tracks are in the library any more".to_owned());
    }
    Ok(Event::Enqueue(tracks))
}

/// What the player is told to play the whole library: shuffle decides
/// where to start.
pub fn play_library_request(tracks: Vec<Track>) -> (request: Result<Event, String>)
    ensures
        match request {
            Ok(event) => tracks@.len() > 0 && (event matches Event::Play { tracks: queued, start } && queued@
                == tracks@ && start is None),
            Err(message) => tracks@.len() == 0 && message@ == empty_library_message(),
        },
{
    if tracks.len() == 0 {
        return Err("the library is empty; scan a folder first".to_owned());
    }
    Ok(Event::Play { tracks, start: None })
}

/// What the player is told to add the whole library to the queue.
pub fn enqueue_library_request(tracks: Vec<Track>) -> (request: Result<Event, String>)
    ensures
        match request {
            Ok(event) => tracks@.len() > 0 && (event matches Event::Enqueue(queued) && queued@ == tracks@),
            Err(message) => tracks@.len() == 0 && message@ == empty_library_message(),
        },
{
    if tracks.len() == 0 {
        return Err("the library is empty; scan a folder first".to_owned());
    }
    Ok(Event::Enqueue(tracks))
}

} // verus!
