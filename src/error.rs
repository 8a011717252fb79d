use vstd::prelude::*;

verus! {

/// The failures that the library and its callers distinguish.
#[derive(Debug, Clone, Copy, PartialEq, Eq, Structural)]
pub enum LyricError {
    MprisError,
    MprisFindError,
    ReqwestError,
    IoError,
    DecodeError,
    NoPlayerFound,
    CachePathError,
    NoLyricFound,
    JsonError,
    LyricValidationFailed,
    LyricDecodeError,
    InvalidTimeFormat,
    EmptyLyric,
}

impl LyricError {
    /// A human-readable description of the failure.
    pub fn message(&self) -> &'static str {
        match self {
            LyricError::MprisError => "MPRIS error",
            LyricError::MprisFindError => "MPRIS Find error",
            LyricError::ReqwestError => "HTTP error",
            LyricError::IoError => "I/O error",
            LyricError::DecodeError => "base64 error",
            LyricError::NoPlayerFound => "No active media player found",
            LyricError::CachePathError => "Failed to get cache path",
            LyricError::NoLyricFound => "No lyrics found",
            LyricError::JsonError => "JSON parse error",
            LyricError::LyricValidationFailed => "Lyric validation failed",
            LyricError::LyricDecodeError => "Lyric decode failed",
            LyricError::InvalidTimeFormat => "Invalid time format",
            LyricError::EmptyLyric => "Empty lyric content",
        }
    }
}

} // verus!
