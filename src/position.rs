//! The playback-position estimator. Times are in milliseconds; instants are
//! milliseconds on a monotonic clock that the caller reads.
use vstd::prelude::*;

verus! {

/// A position the player reported (`pos`) and the instant it was read (`at`).
#[derive(Debug, Clone, Copy, PartialEq, Eq, Structural)]
pub struct Sample {
    pub at: u64,
    pub pos: u64,
}

/// The estimated playback position and the last position the player
/// reported, with the instant it was read.
#[derive(Debug, Clone, Copy, PartialEq, Eq, Structural, Default)]
pub struct PlayTime {
    pub current_time: u64,
    pub last_valid_pos: Option<Sample>,
}

/// `a + b`, held at `u64::MAX`.
pub open spec fn add_capped(a: nat, b: nat) -> nat {
    if a + b > u64::MAX {
        u64::MAX as nat
    } else {
        a + b
    }
}

/// `a - b`, held at zero.
pub open spec fn sub_floored(a: nat, b: nat) -> nat {
    if a >= b {
        (a - b) as nat
    } else {
        0
    }
}

/// The state after one poll at instant `now`: a live `sample` is taken as
/// it is and remembered; without one, the last remembered position is
/// carried forward by the time elapsed since it was read; with neither, the
/// state stays.
pub open spec fn estimate(st: PlayTime, sample: Option<u64>, now: u64) -> PlayTime {
    match sample {
        Some(pos) => PlayTime { current_time: pos, last_valid_pos: Some(Sample { at: now, pos }) },
        None => match st.last_valid_pos {
            Some(last) => PlayTime {
                current_time: add_capped(last.pos as nat, sub_floored(now as nat, last.at as nat)) as u64,
                last_valid_pos: st.last_valid_pos,
            },
            None => st,
        },
    }
}

impl PlayTime {
    /// Applies one poll of the player to the state.
    pub fn update(self, sample: Option<u64>, now: u64) -> (r: PlayTime)
        ensures
            r == estimate(self, sample, now),
    {
        match sample {
            Some(pos) => PlayTime { current_time: pos, last_valid_pos: Some(Sample { at: now, pos }) },
            None => match self.last_valid_pos {
                Some(last) => {
                    let t = last.at;
                    let pos = last.pos;
                    let elapsed: u64 = if now >= t {
                        now - t
                    } else {
                        0
                    };
                    let cur: u64 = if pos > u64::MAX - elapsed {
                        u64::MAX
                    } else {
                        pos + elapsed
                    };
                    PlayTime { current_time: cur, last_valid_pos: self.last_valid_pos }
                },
                None => self,
            },
        }
    }
}

/// After a live sample of `pos` at `t0`, a failed poll `d` milliseconds
/// later estimates the position as `pos + d`.
pub proof fn lemma_estimate_extrapolates(st: PlayTime, pos: u64, t0: u64, d: u64)
    requires
        t0 + d <= u64::MAX,
        pos + d <= u64::MAX,
    ensures
        estimate(estimate(st, Some(pos), t0), None, (t0 + d) as u64).current_time == pos + d,
{
}

/// A failed poll before any live sample leaves the state as it was.
pub proof fn lemma_no_sample_keeps_state(st: PlayTime, now: u64)
    requires
        st.last_valid_pos is None,
    ensures
        estimate(st, None, now) == st,
{
}

} // verus!
