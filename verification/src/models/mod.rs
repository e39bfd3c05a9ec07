//! Data model: formats, artists, torrents and torrent groups.

pub mod artist;
pub mod error;
pub mod format;
pub mod torrent;
pub mod torrentgroup;
