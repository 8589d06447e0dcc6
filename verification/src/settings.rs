//! The settings file's contents: what the user chose, as opposed to what
//! the scanner derived. It lives next to the library cache but survives it,
//! so recreating a corrupted cache does not lose the library folders.

use vstd::prelude::*;

use crate::records::copy_texts;
use crate::text::push_text;

verus! {

/// The name of the settings file inside the application data directory.
pub const FILE_NAME: &'static str = "settings.json";

#[derive(Clone, Debug, PartialEq, Eq)]
pub struct Settings {
    /// The library folders, in the form they are stored in the database.
    pub folders: Vec<String>,
    /// The playlists the user built. Kept here rather than in the library
    /// cache because nothing can rebuild them from the music files.
    pub playlists: Vec<Playlist>,
}

/// A playlist, holding the paths of its tracks rather than their ids: an
/// id belongs to the cache and does not survive it being rebuilt.
#[derive(Clone, Debug, PartialEq, Eq)]
pub struct Playlist {
    pub id: u32,
    pub name: String,
    pub tracks: Vec<String>,
}

/// A playlist as the contracts speak of it.
pub ghost struct PlaylistModel {
    pub id: u32,
    pub name: Seq<char>,
    pub tracks: Seq<Seq<char>>,
}

/// The settings as the contracts speak of them.
pub ghost struct SettingsModel {
    pub folders: Seq<Seq<char>>,
    pub playlists: Seq<PlaylistModel>,
}

pub open spec fn texts_view(texts: Seq<String>) -> Seq<Seq<char>> {
    texts.map_values(|text: String| text@)
}

impl View for Playlist {
    type V = PlaylistModel;

    open spec fn view(&self) -> PlaylistModel {
        PlaylistModel { id: self.id, name: self.name@, tracks: texts_view(self.tracks@) }
    }
}

pub open spec fn playlists_view(playlists: Seq<Playlist>) -> Seq<PlaylistModel> {
    playlists.map_values(|playlist: Playlist| playlist@)
}

impl View for Settings {
    type V = SettingsModel;

    open spec fn view(&self) -> SettingsModel {
        SettingsModel {
            folders: texts_view(self.folders@),
            playlists: playlists_view(self.playlists@),
        }
    }
}

impl Playlist {
    /// An equal playlist, owned.
    pub fn duplicate(&self) -> (copy: Playlist)
        ensures
            copy@ == self@,
    {
        Playlist { id: self.id, name: self.name.clone(), tracks: copy_texts(&self.tracks) }
    }
}

impl Settings {
    /// No folders and no playlists: what a missing or unreadable file
    /// gives.
    pub fn empty() -> (settings: Settings)
        ensures
            settings@.folders.len() == 0,
            settings@.playlists.len() == 0,
    {
        Settings { folders: Vec::new(), playlists: Vec::new() }
    }
}

impl Default for Settings {
    fn default() -> (settings: Settings)
        ensures
            settings@.folders.len() == 0,
            settings@.playlists.len() == 0,
    {
        Settings::empty()
    }
}

/// The file a new version of the settings is written to before it
/// replaces the old one, so an interrupted write cannot leave a truncated
/// file behind.
pub fn temporary_path(path: &str) -> (temporary: String)
    ensures
        temporary@ == path@ + ".new"@,
{
    let mut temporary = path.to_owned();
    push_text(&mut temporary, ".new");
    temporary
}

} // verus!
