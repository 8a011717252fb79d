//! Naming of the lyric cache: one file per (artist, title) pair.
use vstd::prelude::*;
use crate::song::SongInfo;

verus! {

/// The directory under the home directory that holds the cache.
pub const CACHE_DIR: &'static str = ".local/share/lyrics";

/// A name for what `sanitize_filename::sanitize` makes of a text.
pub uninterp spec fn sanitized(s: Seq<char>) -> Seq<char>;

/// Relies on `sanitize_filename::sanitize`: a file name made from the text,
/// which depends on the text alone.
#[verifier::external_body]
fn sanitize(s: &str) -> (r: String)
    ensures
        r@ == sanitized(s@),
{
    sanitize_filename::sanitize(s)
}

/// The cache file name of a track: the sanitised artist and title joined by
/// an underscore, with the lyric-file extension.
pub open spec fn cache_file_name(artist: Seq<char>, title: Seq<char>) -> Seq<char> {
    sanitized(artist) + "_"@ + sanitized(title) + ".lrc"@
}

/// Where the lyric cache lives.
#[derive(Debug, Clone, Default)]
pub struct CacheManager {
    pub base_dir: String,
}

impl CacheManager {
    /// A cache kept in `base_dir`.
    pub fn with_base_dir(base_dir: String) -> (r: CacheManager)
        ensures
            r.base_dir@ == base_dir@,
    {
        CacheManager { base_dir }
    }

    /// The cache file name of `song`.
    pub fn cache_key(song: &SongInfo) -> (r: String)
        ensures
            r@ == cache_file_name(song.artist@, song.title@),
    {
        let mut name = sanitize(song.artist.as_str());
        name.append("_");
        let title = sanitize(song.title.as_str());
        name.append(title.as_str());
        name.append(".lrc");
        name
    }

    /// The path of the cache file of `song`.
    pub fn lyric_name(&self, song: &SongInfo) -> (r: String)
        ensures
            r@ == self.base_dir@ + "/"@ + cache_file_name(song.artist@, song.title@),
    {
        let mut path = self.base_dir.clone();
        path.append("/");
        let key = CacheManager::cache_key(song);
        path.append(key.as_str());
        proof {
            let c = cache_file_name(song.artist@, song.title@);
            assert(self.base_dir@ + "/"@ + c =~= (self.base_dir@ + "/"@) + c);
        }
        path
    }
}

/// Cache keys of tracks whose sanitised artists hold no underscore are
/// equal only when the sanitised artists and the sanitised titles are.
pub proof fn lemma_cache_key_injective(a1: Seq<char>, t1: Seq<char>, a2: Seq<char>, t2: Seq<char>)
    requires
        cache_file_name(a1, t1) == cache_file_name(a2, t2),
        forall|i: int| 0 <= i < sanitized(a1).len() ==> sanitized(a1)[i] != '_',
        forall|i: int| 0 <= i < sanitized(a2).len() ==> sanitized(a2)[i] != '_',
    ensures
        sanitized(a1) == sanitized(a2),
        sanitized(t1) == sanitized(t2),
{
    reveal_strlit("_");
    let x1 = sanitized(a1);
    let x2 = sanitized(a2);
    let y1 = sanitized(t1);
    let y2 = sanitized(t2);
    let ext = ".lrc"@;
    let k = cache_file_name(a1, t1);
    assert(k == x1 + seq!['_'] + y1 + ext);
    assert(k == x2 + seq!['_'] + y2 + ext);
    if x1.len() < x2.len() {
        assert(k[x1.len() as int] == '_');
        assert(k[x1.len() as int] == x2[x1.len() as int]);
    }
    if x2.len() < x1.len() {
        assert(k[x2.len() as int] == '_');
        assert(k[x2.len() as int] == x1[x2.len() as int]);
    }
    assert(x1 =~= k.subrange(0, x1.len() as int));
    assert(x2 =~= k.subrange(0, x2.len() as int));
    assert(y1 =~= k.subrange(x1.len() as int + 1, k.len() - ext.len() as int));
    assert(y2 =~= k.subrange(x2.len() as int + 1, k.len() - ext.len() as int));
}

/// A track's cache key depends on its artist and title alone.
pub proof fn lemma_cache_key_stable(s1: SongInfo, s2: SongInfo)
    requires
        s1.artist@ == s2.artist@,
        s1.title@ == s2.title@,
    ensures
        cache_file_name(s1.artist@, s1.title@) == cache_file_name(s2.artist@, s2.title@),
{
}

} // verus!
