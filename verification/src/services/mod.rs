//! Services: tagging, transcoding and the tracker API.

pub mod tagging;
pub mod transcode;
pub mod whatapi;
