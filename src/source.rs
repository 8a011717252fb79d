//! What the lyric sources share: the search keyword of a track and the
//! reading of the fields their responses must hold.
use vstd::prelude::*;
use crate::error::LyricError;
use crate::song::SongInfo;

verus! {

/// The names of the sources in the order they are asked.
pub const SOURCE_NETEASE: &'static str = "Netease";
pub const SOURCE_QQMUSIC: &'static str = "QQMusic";
pub const SOURCE_KUGOU: &'static str = "Kugou";
pub const SOURCE_OVH: &'static str = "Spotify";

/// The search keyword of a track: its title, a space, its artist.
pub open spec fn keyword_of(title: Seq<char>, artist: Seq<char>) -> Seq<char> {
    title + " "@ + artist
}

/// The text a source is searched with for `song`.
pub fn search_keyword(song: &SongInfo) -> (r: String)
    ensures
        r@ == keyword_of(song.title@, song.artist@),
{
    let mut k = song.title.clone();
    k.append(" ");
    k.append(song.artist.as_str());
    k
}

/// The lyrics.ovh address of `song`: the API root, then artist and title
/// as path segments.
pub fn ovh_url(song: &SongInfo) -> (r: String)
    ensures
        r@ == "https://api.lyrics.ovh/v1"@ + "/"@ + song.artist@ + "/"@ + song.title@,
{
    let mut u = String::from_str("https://api.lyrics.ovh/v1");
    u.append("/");
    u.append(song.artist.as_str());
    u.append("/");
    u.append(song.title.as_str());
    u
}

/// A field a response must hold: its value, or `NoLyricFound` when absent.
pub fn require_field(field: Option<String>) -> (r: Result<String, LyricError>)
    ensures
        match field {
            Some(s) => r is Ok && r->Ok_0@ == s@,
            None => r == Err::<String, LyricError>(LyricError::NoLyricFound),
        },
{
    match field {
        Some(s) => Ok(s),
        None => Err(LyricError::NoLyricFound),
    }
}

/// A numeric identifier a response must hold, or `NoLyricFound`.
pub fn require_id(field: Option<u64>) -> (r: Result<u64, LyricError>)
    ensures
        match field {
            Some(v) => r == Ok::<u64, LyricError>(v),
            None => r == Err::<u64, LyricError>(LyricError::NoLyricFound),
        },
{
    match field {
        Some(v) => Ok(v),
        None => Err(LyricError::NoLyricFound),
    }
}

} // verus!
