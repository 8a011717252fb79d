//! Lyric acquisition and synchronisation: an LRC parser, a playback-position
//! estimator, the fallback and retry decisions of the fetch pipeline, cache
//! naming, payload decoding and player selection.
pub mod error;
pub mod text;
pub mod lrc;
pub mod position;
pub mod retry;
pub mod client;
pub mod song;
pub mod cache;
pub mod decode;
pub mod player;
pub mod source;
