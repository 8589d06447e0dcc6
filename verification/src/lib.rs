//! Satsuma's library: the play queue, the grouping tag, cover keys, and the
//! decisions behind the library scan, the playlists and the player.

pub mod records;
pub mod queue;
pub mod text;
pub mod grouping;
pub mod cover;
pub mod settings;
pub mod commands;
pub mod scanner;
pub mod player;
pub mod tags;
