//! Player selection and transport commands.
use vstd::prelude::*;

verus! {

/// A transport command for the player.
#[derive(Debug, Clone, Copy, PartialEq, Eq, Structural, Default)]
pub enum PlayerAction {
    #[default]
    Toggle,
    Left,
    Right,
    Next,
    Previous,
}

/// How far `Left` and `Right` seek, in microseconds.
pub const SEEK_STEP_MICROS: u64 = 5_000_000;

/// The position a seek command moves to from `pos` microseconds: five
/// seconds back for `Left`, five seconds on for `Right`; none for the other
/// commands, or where the target would fall outside `0..=u64::MAX`.
pub open spec fn seek_spec(action: PlayerAction, pos: nat) -> Option<nat> {
    match action {
        PlayerAction::Left => if pos >= SEEK_STEP_MICROS {
            Some((pos - SEEK_STEP_MICROS) as nat)
        } else {
            None
        },
        PlayerAction::Right => if pos + SEEK_STEP_MICROS <= u64::MAX {
            Some((pos + SEEK_STEP_MICROS) as nat)
        } else {
            None
        },
        _ => None,
    }
}

/// The seek target of `action` from `pos` microseconds.
pub fn seek_target(action: PlayerAction, pos: u64) -> (r: Option<u64>)
    ensures
        match seek_spec(action, pos as nat) {
            Some(t) => r == Some(t as u64),
            None => r is None,
        },
{
    match action {
        PlayerAction::Left => if pos >= SEEK_STEP_MICROS {
            Some(pos - SEEK_STEP_MICROS)
        } else {
            None
        },
        PlayerAction::Right => if pos <= u64::MAX - SEEK_STEP_MICROS {
            Some(pos + SEEK_STEP_MICROS)
        } else {
            None
        },
        _ => None,
    }
}

/// A name for what `str::to_lowercase` makes of a text.
pub uninterp spec fn lower_of(s: Seq<char>) -> Seq<char>;

/// Relies on std's `str::to_lowercase`: the lowercase form of the text,
/// which depends on the text alone.
#[verifier::external_body]
fn lowercase(s: &str) -> (r: String)
    ensures
        r@ == lower_of(s@),
{
    s.to_lowercase()
}

/// Relies on std's `str::chars`: the characters of the text.
#[verifier::external_body]
fn chars_of(s: &str) -> (r: Vec<char>)
    ensures
        r@ == s@,
{
    s.chars().collect()
}

/// `needle` occurs in `hay`.
pub open spec fn contains(hay: Seq<char>, needle: Seq<char>) -> bool {
    exists|i: int| 0 <= i && i + needle.len() <= hay.len() && #[trigger] hay.subrange(i, i + needle.len()) == needle
}

/// Player identities holding one of these (in lowercase) are not audio
/// players.
pub open spec fn denied(lowered: Seq<char>) -> bool {
    contains(lowered, "browser"@) || contains(lowered, "video"@) || contains(lowered, "screen-cast"@)
        || contains(lowered, "chromium"@) || contains(lowered, "firefox"@)
}

fn contains_chars(hay: &Vec<char>, needle: &Vec<char>) -> (r: bool)
    ensures
        r == contains(hay@, needle@),
{
    if needle.len() == 0 {
        assert(hay@.subrange(0, 0 + needle@.len() as int) =~= needle@);
        return true;
    }
    let hl = hay.len();
    let mut i: usize = 0;
    while i <= hay.len() && needle.len() <= hay.len() - i
        invariant
            hl == hay@.len(),
            needle@.len() > 0,
            i <= hay@.len() + 1,
            forall|k: int| 0 <= k < i ==> #[trigger] hay@.subrange(k, k + needle@.len()) != needle@,
        decreases hay@.len() - i,
    {
        let mut j: usize = 0;
        let mut same = true;
        while j < needle.len()
            invariant
                hl == hay@.len(),
                i + needle@.len() <= hay@.len(),
                j <= needle@.len(),
                same ==> forall|m: int| 0 <= m < j ==> hay@[i + m] == needle@[m],
                !same ==> hay@.subrange(i as int, i + needle@.len()) != needle@,
            decreases needle@.len() - j,
        {
            assert(i + j < hay@.len());
            if hay[i + j] != needle[j] {
                assert(hay@.subrange(i as int, i + needle@.len())[j as int] == hay@[i + j]);
                same = false;
            }
            j = j + 1;
        }
        if same {
            assert(hay@.subrange(i as int, i + needle@.len()) =~= needle@);
            return true;
        }
        i = i + 1;
    }
    proof {
        assert forall|k: int| 0 <= k && k + needle@.len() <= hay@.len() implies #[trigger] hay@.subrange(k, k + needle@.len()) != needle@ by {
            assert(k < i);
        }
        assert(!contains(hay@, needle@));
    }
    false
}

/// Whether a lowercase identity names an audio player.
pub fn identity_allowed(lowered: &str) -> (r: bool)
    ensures
        r == !denied(lowered@),
{
    let hay = chars_of(lowered);
    let a = contains_chars(&hay, &chars_of("browser"));
    let b = contains_chars(&hay, &chars_of("video"));
    let c = contains_chars(&hay, &chars_of("screen-cast"));
    let d = contains_chars(&hay, &chars_of("chromium"));
    let e = contains_chars(&hay, &chars_of("firefox"));
    !(a || b || c || d || e)
}

/// Whether a player of this identity is an audio player: its lowercase
/// form holds none of the denied words.
pub fn is_valid_player(identity: &str) -> (r: bool)
    ensures
        r == !denied(lower_of(identity@)),
{
    let lowered = lowercase(identity);
    identity_allowed(lowered.as_str())
}

} // verus!
