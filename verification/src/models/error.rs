//! Errors of transcoding and of the tracker API.

use vstd::prelude::*;
use crate::numeric::{decimal_spec, decimal_string};
use crate::text::concat;

verus! {

#[verifier::external_type_specification]
#[verifier::external_body]
pub struct ExIoError(std::io::Error);

/// Why a transcode failed.
#[derive(Debug)]
pub enum TranscodeError {
    Transcode(String),
    UnknownSampleRate(u32, String),
    Downmix,
    TagCheck(String),
    Tagging(String),
    Io(std::io::Error),
}

impl TranscodeError {
    /// The message of every error but an I/O error, whose message is the
    /// operating system's.
    pub open spec fn message_spec(&self) -> Option<Seq<char>> {
        match self {
            TranscodeError::Transcode(m) => Some("Transcode failed: "@ + m@),
            TranscodeError::UnknownSampleRate(rate, file) => Some(
                "Unsupported sample rate "@ + decimal_spec(*rate as nat) + "Hz for file "@ + file@,
            ),
            TranscodeError::Downmix => Some("Multichannel releases are unsupported"@),
            TranscodeError::TagCheck(m) => Some("Tag check failed: "@ + m@),
            TranscodeError::Tagging(m) => Some("Tagging failed: "@ + m@),
            TranscodeError::Io(_) => None,
        }
    }

    /// The message the error is shown with.
    pub fn message(&self) -> (s: String)
        ensures
            self.message_spec() matches Some(m) ==> s@ == m,
    {
        match self {
            TranscodeError::Transcode(m) => concat("Transcode failed: ", m.as_str()),
            TranscodeError::UnknownSampleRate(rate, file) => {
                let mut s = String::from_str("Unsupported sample rate ");
                let d = decimal_string(*rate as u64);
                s.append(d.as_str());
                s.append("Hz for file ");
                s.append(file.as_str());
                s
            },
            TranscodeError::Downmix => String::from_str("Multichannel releases are unsupported"),
            TranscodeError::TagCheck(m) => concat("Tag check failed: ", m.as_str()),
            TranscodeError::Tagging(m) => concat("Tagging failed: ", m.as_str()),
            TranscodeError::Io(e) => e.to_string(),
        }
    }
}

/// Why a request to the tracker failed.
#[derive(Debug)]
pub enum ApiError {
    Request(String),
    Api(String),
    Login,
}

impl ApiError {
    pub open spec fn message_spec(&self) -> Seq<char> {
        match self {
            ApiError::Request(m) => "API request failed: "@ + m@,
            ApiError::Api(m) => "API error: "@ + m@,
            ApiError::Login => "Login failed"@,
        }
    }

    /// The message the error is shown with.
    pub fn message(&self) -> (s: String)
        ensures
            s@ == self.message_spec(),
    {
        match self {
            ApiError::Request(m) => concat("API request failed: ", m.as_str()),
            ApiError::Api(m) => concat("API error: ", m.as_str()),
            ApiError::Login => String::from_str("Login failed"),
        }
    }
}

} // verus!
