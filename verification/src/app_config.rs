//! The settings of the first command-line front end: formats and lossless
//! media by name.

use vstd::prelude::*;

verus! {

/// A transcode target.
#[derive(Clone, Copy, Debug, PartialEq, Eq, Structural)]
pub enum Format {
    FLAC,
    Mp3V0,
    Mp3320,
}

/// A lossless medium.
#[derive(Clone, Copy, Debug, PartialEq, Eq, Structural)]
pub enum LosslessMediaSources {
    CD,
    DVD,
    Vinyl,
    Soundboard,
    SACT,
    DAT,
    Web,
    BluRay,
}

/// Settings given directly as text.
#[derive(Debug)]
pub struct AppConfig<'a> {
    pub username: &'a str,
    pub password: &'a str,
    pub data_dir: &'a str,
    pub output_dir: &'a str,
    pub torrent_dir: &'a str,
    pub formats: Vec<Format>,
    pub media: Vec<LosslessMediaSources>,
}

} // verus!
