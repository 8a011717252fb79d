//! The identity of a track.
use vstd::prelude::*;

verus! {

/// A track: its player-side identifier, title, artist and duration in
/// hundredths of a second (zero when unknown).
#[derive(Debug, Clone, Default)]
pub struct SongInfo {
    pub track_id: String,
    pub title: String,
    pub artist: String,
    pub duration: u64,
}

impl SongInfo {
    pub fn new(track_id: String, title: String, artist: String, duration: u64) -> (r: SongInfo)
        ensures
            r.track_id@ == track_id@,
            r.title@ == title@,
            r.artist@ == artist@,
            r.duration == duration,
    {
        SongInfo { track_id, title, artist, duration }
    }
}

impl PartialEq for SongInfo {
    fn eq(&self, o: &SongInfo) -> (r: bool) {
        self.track_id == o.track_id && self.title == o.title && self.artist == o.artist
            && self.duration == o.duration
    }
}

impl vstd::std_specs::cmp::PartialEqSpecImpl for SongInfo {
    open spec fn obeys_eq_spec() -> bool {
        true
    }

    open spec fn eq_spec(&self, o: &SongInfo) -> bool {
        self.track_id@ == o.track_id@ && self.title@ == o.title@ && self.artist@ == o.artist@
            && self.duration == o.duration
    }
}

} // verus!
