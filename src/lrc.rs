//! The LRC parser: bracketed `[mm:ss.xx]` tags in front of lyric text become
//! contiguous timed lines. Times are counted in hundredths of a second.
use vstd::prelude::*;
use crate::error::LyricError;
use crate::text::{digits_value, find_first_of, first_of, parse_digits, trim, trim_range};

verus! {

/// The fields of a tag body: the text up to the first `:` or `.`, then the
/// rest split the same way.
pub open spec fn split_fields(s: Seq<char>) -> Seq<Seq<char>>
    decreases s.len(),
{
    let k = first_of(s, ':', '.') as int;
    if k >= s.len() {
        seq![s]
    } else {
        seq![s.subrange(0, k)] + split_fields(s.subrange(k + 1, s.len() as int))
    }
}

/// The time a tag body names, in hundredths of a second:
/// `minutes * 6000 + seconds * 100 + fraction`, where the fraction is the
/// third field read as hundredths whatever its digit count, and counts zero
/// when absent or not a number.
pub open spec fn tag_time(s: Seq<char>) -> Option<nat> {
    let f = split_fields(s);
    if f.len() < 2 {
        None
    } else {
        match (digits_value(f[0]), digits_value(f[1])) {
            (Some(m), Some(sec)) => {
                let frac: nat = if f.len() > 2 {
                    match digits_value(f[2]) {
                        Some(x) => x,
                        None => 0,
                    }
                } else {
                    0
                };
                Some(m * 6000 + sec * 100 + frac)
            },
            _ => None,
        }
    }
}

/// `tag_time` where it fits in a `u64`.
pub open spec fn tag_time_u64(s: Seq<char>) -> Option<nat> {
    match tag_time(s) {
        Some(t) => if t <= u64::MAX {
            Some(t)
        } else {
            None
        },
        None => None,
    }
}

proof fn lemma_split_first(s: Seq<char>, k: int)
    requires
        k == first_of(s, ':', '.'),
        k < s.len(),
    ensures
        split_fields(s)[0] == s.subrange(0, k),
        split_fields(s).len() == 1 + split_fields(s.subrange(k + 1, s.len() as int)).len(),
        forall|i: int|
            1 <= i < split_fields(s).len() ==> #[trigger] split_fields(s)[i] == split_fields(
                s.subrange(k + 1, s.len() as int),
            )[i - 1],
{
}

proof fn lemma_split_none(s: Seq<char>)
    requires
        first_of(s, ':', '.') >= s.len(),
    ensures
        split_fields(s) == seq![s],
{
}

proof fn lemma_split_len(s: Seq<char>)
    ensures
        split_fields(s).len() >= 1,
    decreases s.len(),
{
    let k = first_of(s, ':', '.') as int;
    if k < s.len() {
        lemma_split_len(s.subrange(k + 1, s.len() as int));
    }
}

/// The next field of `s[lo..hi]`: its end, and where the following field
/// starts (`hi + 1` when it was the last).
fn next_field(s: &Vec<char>, lo: usize, hi: usize) -> (r: usize)
    requires
        lo <= hi <= s@.len(),
    ensures
        lo <= r <= hi,
        r - lo == first_of(s@.subrange(lo as int, hi as int), ':', '.'),
{
    find_first_of(s, lo, hi, ':', '.')
}

/// Reads the body of one tag, `s[lo..hi]`, as a time in hundredths of a
/// second.
pub fn parse_time(s: &Vec<char>, lo: usize, hi: usize) -> (r: Option<u64>)
    requires
        lo <= hi <= s@.len(),
    ensures
        match tag_time_u64(s@.subrange(lo as int, hi as int)) {
            Some(t) => r == Some(t as u64),
            None => r is None,
        },
{
    let ghost t = s@.subrange(lo as int, hi as int);
    let k1 = next_field(s, lo, hi);
    if k1 == hi {
        proof {
            lemma_split_none(t);
        }
        return None;
    }
    let ghost t1 = s@.subrange(k1 + 1, hi as int);
    proof {
        lemma_split_first(t, k1 - lo);
        assert(t.subrange(k1 - lo + 1, t.len() as int) =~= t1);
        assert(t.subrange(0, k1 - lo) =~= s@.subrange(lo as int, k1 as int));
        lemma_split_len(t1);
    }
    let k2 = next_field(s, k1 + 1, hi);
    let ghost f = split_fields(t);
    proof {
        if k2 < hi {
            lemma_split_first(t1, k2 - k1 - 1);
            assert(t1.subrange(0, k2 - k1 - 1) =~= s@.subrange(k1 + 1, k2 as int));
        } else {
            lemma_split_none(t1);
            assert(t1 =~= s@.subrange(k1 + 1, k2 as int));
        }
        assert(f[1] == s@.subrange(k1 + 1, k2 as int));
    }
    let m = parse_digits(s, lo, k1);
    let sec = parse_digits(s, k1 + 1, k2);
    let frac: u64 = if k2 < hi {
        let ghost t2 = s@.subrange(k2 + 1, hi as int);
        let k3 = next_field(s, k2 + 1, hi);
        proof {
            assert(t1.subrange(k2 - k1, t1.len() as int) =~= t2);
            lemma_split_len(t2);
            if k3 < hi {
                lemma_split_first(t2, k3 - k2 - 1);
                assert(t2.subrange(0, k3 - k2 - 1) =~= s@.subrange(k2 + 1, k3 as int));
            } else {
                lemma_split_none(t2);
                assert(t2 =~= s@.subrange(k2 + 1, k3 as int));
            }
            assert(f[2] == s@.subrange(k2 + 1, k3 as int));
        }
        match parse_digits(s, k2 + 1, k3) {
            Some(x) => x,
            None => {
                if crate::text::all_digits(s, k2 + 1, k3) {
                    // a digit string too large for any time that fits
                    return None;
                }
                0
            },
        }
    } else {
        proof {
            lemma_split_none(t1);
        }
        0
    };
    match (m, sec) {
        (Some(m), Some(sec)) => {
            if m > (u64::MAX - frac) / 6000 {
                assert(m * 6000 + frac > u64::MAX) by (nonlinear_arith)
                    requires
                        m > (u64::MAX - frac) / 6000,
                ;
                return None;
            }
            assert(m * 6000 + frac <= u64::MAX) by (nonlinear_arith)
                requires
                    m <= (u64::MAX - frac) / 6000,
            ;
            let base = m * 6000 + frac;
            if sec > (u64::MAX - base) / 100 {
                assert(sec * 100 + base > u64::MAX) by (nonlinear_arith)
                    requires
                        sec > (u64::MAX - base) / 100,
                ;
                return None;
            }
            assert(sec * 100 + base <= u64::MAX) by (nonlinear_arith)
                requires
                    sec <= (u64::MAX - base) / 100,
            ;
            Some(base + sec * 100)
        },
        _ => {
            proof {
                if digits_value(f[0]) is Some && digits_value(f[1]) is Some {
                    let mv = digits_value(f[0])->0;
                    let sv = digits_value(f[1])->0;
                    if m is None {
                        assert(mv * 6000 > u64::MAX) by (nonlinear_arith)
                            requires
                                mv > u64::MAX,
                        ;
                    } else {
                        assert(sv * 100 > u64::MAX) by (nonlinear_arith)
                            requires
                                sv > u64::MAX,
                        ;
                    }
                }
            }
            None
        },
    }
}


/// The tags in front of `s` and the text after them. Tags are read while
/// the text starts with `[` and holds a `]`; the text is what remains,
/// trimmed. None when a tag's body is not a time.
pub open spec fn tags_of(s: Seq<char>) -> Option<(Seq<nat>, Seq<char>)>
    decreases s.len(),
{
    if s.len() > 0 && s[0] == '[' {
        let k = first_of(s, ']', ']') as int;
        if k >= s.len() {
            Some((seq![], trim(s)))
        } else {
            match tag_time_u64(s.subrange(1, k)) {
                None => None,
                Some(t) => match tags_of(s.subrange(k + 1, s.len() as int)) {
                    None => None,
                    Some(p) => Some((seq![t] + p.0, p.1)),
                },
            }
        }
    } else {
        Some((seq![], trim(s)))
    }
}

/// The tags and the text of one line of a document.
pub open spec fn line_tags(line: Seq<char>) -> Option<(Seq<nat>, Seq<char>)> {
    tags_of(trim(line))
}

pub open spec fn prepend(ts: Seq<nat>, o: Option<(Seq<nat>, Seq<char>)>) -> Option<
    (Seq<nat>, Seq<char>),
> {
    match o {
        None => None,
        Some(p) => Some((ts + p.0, p.1)),
    }
}

/// Every (time, text) pair of the document, line by line and tag by tag;
/// none when some line holds a tag that is not a time.
pub open spec fn entries_of(lines: Seq<Seq<char>>) -> Option<Seq<(nat, Seq<char>)>>
    decreases lines.len(),
{
    if lines.len() == 0 {
        Some(seq![])
    } else {
        match (entries_of(lines.drop_last()), line_tags(lines.last())) {
            (Some(e), Some(p)) => Some(e + p.0.map_values(|t: nat| (t, p.1))),
            _ => None,
        }
    }
}

/// The entry at `a` has the earlier time, or the same time and the earlier
/// place in the input.
pub open spec fn comes_before(out: Seq<(nat, Seq<char>)>, p: Seq<int>, a: int, b: int) -> bool {
    out[a].0 < out[b].0 || (out[a].0 == out[b].0 && p[a] < p[b])
}

/// `out` lists the entries `e` by `p`, ordered by time, and entries of
/// equal time keep their order in `e`.
pub open spec fn sorts_by(out: Seq<(nat, Seq<char>)>, e: Seq<(nat, Seq<char>)>, p: Seq<int>) -> bool {
    &&& out.len() == e.len()
    &&& p.len() == e.len()
    &&& forall|k: int| 0 <= k < p.len() ==> 0 <= #[trigger] p[k] < e.len() && out[k] == e[p[k]]
    &&& forall|a: int, b: int| 0 <= a < b < p.len() ==> #[trigger] comes_before(out, p, a, b)
}

/// `out` is the stable sort of `e` by time.
pub open spec fn is_stable_sort_of(out: Seq<(nat, Seq<char>)>, e: Seq<(nat, Seq<char>)>) -> bool {
    exists|p: Seq<int>| #[trigger] sorts_by(out, e, p)
}

/// A timed line of lyrics, from `timestamp_start` up to `timestamp_end`,
/// both in hundredths of a second.
#[derive(Debug, Clone)]
pub struct LyricLine {
    pub timestamp_start: u64,
    pub timestamp_end: u64,
    pub text: String,
}

pub open spec fn starts_of(v: Seq<LyricLine>) -> Seq<(nat, Seq<char>)> {
    Seq::new(v.len(), |i: int| (v[i].timestamp_start as nat, v[i].text@))
}

/// Each line ends where the next begins, and the last at `duration`.
pub open spec fn is_contiguous(v: Seq<LyricLine>, duration: nat) -> bool {
    &&& v.len() > 0
    &&& forall|i: int| 0 <= i < v.len() - 1 ==> #[trigger] v[i].timestamp_end == v[i + 1].timestamp_start
    &&& v.last().timestamp_end == duration
}

/// What parsing the document `lines` against a song of `duration` gives.
pub open spec fn parsed(lines: Seq<Seq<char>>, duration: nat, r: Result<Vec<LyricLine>, LyricError>) -> bool {
    match entries_of(lines) {
        None => r == Err::<Vec<LyricLine>, LyricError>(LyricError::InvalidTimeFormat),
        Some(e) => if e.len() == 0 {
            r == Err::<Vec<LyricLine>, LyricError>(LyricError::EmptyLyric)
        } else {
            &&& r is Ok
            &&& is_stable_sort_of(starts_of(r->Ok_0@), e)
            &&& is_contiguous(r->Ok_0@, duration)
        },
    }
}

pub open spec fn view_entries(v: Seq<(u64, String)>) -> Seq<(nat, Seq<char>)> {
    Seq::new(v.len(), |i: int| (v[i].0 as nat, v[i].1@))
}

pub open spec fn view_lines(v: Seq<Vec<char>>) -> Seq<Seq<char>> {
    Seq::new(v.len(), |i: int| v[i]@)
}

/// A name for the lines that ropey's `Rope::lines` yields for a text.
pub uninterp spec fn rope_lines(s: Seq<char>) -> Seq<Seq<char>>;

/// Relies on ropey's `Rope::from_str` and `Rope::lines`: the lines of the
/// text, each as its characters.
#[verifier::external_body]
fn split_lines(doc: &str) -> (r: Vec<Vec<char>>)
    ensures
        view_lines(r@) == rope_lines(doc@),
{
    ropey::Rope::from_str(doc).lines().map(|l| l.chars().collect()).collect()
}

/// Relies on std's `FromIterator<char>` for `String`: the characters
/// `s[lo..hi]` as a string.
#[verifier::external_body]
fn string_from(s: &Vec<char>, lo: usize, hi: usize) -> (r: String)
    requires
        lo <= hi <= s@.len(),
    ensures
        r@ == s@.subrange(lo as int, hi as int),
{
    s[lo..hi].iter().collect()
}

proof fn lemma_prepend_assoc(a: Seq<nat>, t: nat, o: Option<(Seq<nat>, Seq<char>)>)
    ensures
        prepend(a, prepend(seq![t], o)) == prepend(a.push(t), o),
{
    if let Some(p) = o {
        assert(a + (seq![t] + p.0) =~= a.push(t) + p.0);
    }
}

/// Splits one line into its tag times and the bounds of its text.
fn parse_line(s: &Vec<char>) -> (r: Result<(Vec<u64>, usize, usize), LyricError>)
    ensures
        match line_tags(s@) {
            None => r == Err::<(Vec<u64>, usize, usize), LyricError>(LyricError::InvalidTimeFormat),
            Some(p) => r is Ok && {
                let (ts, a, b) = r->Ok_0;
                &&& a <= b <= s@.len()
                &&& ts@.map_values(|t: u64| t as nat) == p.0
                &&& s@.subrange(a as int, b as int) == p.1
            },
        },
{
    let (lo, hi) = trim_range(s, 0, s.len());
    assert(s@.subrange(0, s@.len() as int) =~= s@);
    assert(line_tags(s@) == tags_of(s@.subrange(lo as int, hi as int)));
    let mut tags: Vec<u64> = Vec::new();
    assert(tags@.map_values(|t: u64| t as nat) =~= seq![]);
    let mut p: usize = lo;
    loop
        invariant
            lo <= p <= hi <= s@.len(),
            line_tags(s@) == tags_of(s@.subrange(lo as int, hi as int)),
            tags_of(s@.subrange(lo as int, hi as int)) == prepend(
                tags@.map_values(|t: u64| t as nat),
                tags_of(s@.subrange(p as int, hi as int)),
            ),
        decreases hi - p,
    {
        let ghost cur = s@.subrange(p as int, hi as int);
        proof {
            if p < hi {
                assert(cur[0] == s@[p as int]);
            }
        }
        if p < hi && s[p] == '[' {
            let k = find_first_of(s, p, hi, ']', ']');
            if k < hi {
                let ghost rest = s@.subrange(k + 1, hi as int);
                assert(cur.subrange(1, k - p) =~= s@.subrange(p + 1, k as int));
                assert(cur.subrange(k - p + 1, cur.len() as int) =~= rest);
                match parse_time(s, p + 1, k) {
                    Some(t) => {
                        proof {
                            lemma_prepend_assoc(tags@.map_values(|t: u64| t as nat), t as nat, tags_of(rest));
                            assert(tags@.push(t).map_values(|t: u64| t as nat) =~= tags@.map_values(|t: u64| t as nat).push(t as nat));
                        }
                        tags.push(t);
                        p = k + 1;
                    },
                    None => {
                        assert(tags_of(cur) is None);
                        return Err(LyricError::InvalidTimeFormat);
                    },
                }
            } else {
                let (a, b) = trim_range(s, p, hi);
                proof {
                    let m = tags@.map_values(|t: u64| t as nat);
                    assert(m + seq![] =~= m);
                }
                return Ok((tags, a, b));
            }
        } else {
            let (a, b) = trim_range(s, p, hi);
            proof {
                let m = tags@.map_values(|t: u64| t as nat);
                assert(m + seq![] =~= m);
            }
            return Ok((tags, a, b));
        }
    }
}

proof fn lemma_entries_prefix_none(lines: Seq<Seq<char>>, i: int)
    requires
        0 <= i <= lines.len(),
        entries_of(lines.subrange(0, i)) is None,
    ensures
        entries_of(lines) is None,
    decreases lines.len() - i,
{
    if i < lines.len() {
        let next = lines.subrange(0, i + 1);
        assert(next.drop_last() =~= lines.subrange(0, i));
        lemma_entries_prefix_none(lines, i + 1);
    } else {
        assert(lines.subrange(0, i) =~= lines);
    }
}

/// Every (time, text) entry of the document, in document order.
fn collect_entries(lines: &Vec<Vec<char>>) -> (r: Result<Vec<(u64, String)>, LyricError>)
    ensures
        match entries_of(view_lines(lines@)) {
            None => r == Err::<Vec<(u64, String)>, LyricError>(LyricError::InvalidTimeFormat),
            Some(e) => r is Ok && view_entries(r->Ok_0@) == e,
        },
{
    let ghost all = view_lines(lines@);
    let mut entries: Vec<(u64, String)> = Vec::new();
    let mut i: usize = 0;
    while i < lines.len()
        invariant
            i <= lines@.len(),
            all == view_lines(lines@),
            entries_of(all.subrange(0, i as int)) == Some(view_entries(entries@)),
        decreases lines@.len() - i,
    {
        let ghost pre = all.subrange(0, i as int);
        let ghost next = all.subrange(0, i + 1);
        assert(next.drop_last() =~= pre);
        assert(next.last() == lines@[i as int]@);
        let line = &lines[i];
        match parse_line(line) {
            Err(e) => {
                proof {
                    lemma_entries_prefix_none(all, i + 1);
                }
                return Err(e);
            },
            Ok((tags, a, b)) => {
                let ghost old_entries = entries@;
                let ghost text = line@.subrange(a as int, b as int);
                let ghost added = tags@.map_values(|t: u64| t as nat).map_values(|t: nat| (t, text));
                let mut j: usize = 0;
                while j < tags.len()
                    invariant
                        j <= tags@.len(),
                        a <= b <= line@.len(),
                        text == line@.subrange(a as int, b as int),
                        added == tags@.map_values(|t: u64| t as nat).map_values(|t: nat| (t, text)),
                        view_entries(entries@) =~= view_entries(old_entries) + added.subrange(0, j as int),
                    decreases tags@.len() - j,
                {
                    let t = string_from(line, a, b);
                    let ghost before = entries@;
                    entries.push((tags[j], t));
                    proof {
                        assert(added[j as int] == (tags@[j as int] as nat, text));
                        assert(added.subrange(0, j + 1) =~= added.subrange(0, j as int).push(added[j as int]));
                        assert(view_entries(entries@) =~= view_entries(before).push(added[j as int]));
                    }
                    j = j + 1;
                }
                assert(added.subrange(0, j as int) =~= added);
            },
        }
        i = i + 1;
    }
    assert(all.subrange(0, i as int) =~= all);
    Ok(entries)
}

spec fn in_order(out: Seq<(u64, String)>, p: Seq<int>, a: int, b: int) -> bool {
    out[a].0 < out[b].0 || (out[a].0 == out[b].0 && p[a] < p[b])
}

spec fn ordered_by(out: Seq<(u64, String)>, p: Seq<int>, n: int) -> bool {
    forall|a: int, b: int| 0 <= a < b < n ==> #[trigger] in_order(out, p, a, b)
}

/// The entries ordered by time; entries of equal time keep their order.
fn stable_sort_entries(e: &Vec<(u64, String)>) -> (r: Vec<(u64, String)>)
    ensures
        is_stable_sort_of(view_entries(r@), view_entries(e@)),
{
    let ghost ev = view_entries(e@);
    let mut out: Vec<(u64, String)> = Vec::new();
    let ghost mut p: Seq<int> = seq![];
    let mut i: usize = 0;
    while i < e.len()
        invariant
            i <= e@.len(),
            ev == view_entries(e@),
            out@.len() == i,
            p.len() == i,
            forall|k: int|
                0 <= k < i ==> 0 <= #[trigger] p[k] < i && out@[k].0 == e@[p[k]].0 && out@[k].1@
                    == e@[p[k]].1@,
            ordered_by(out@, p, i as int),
        decreases e@.len() - i,
    {
        let key = e[i].0;
        let mut pos: usize = 0;
        while pos < out.len() && out[pos].0 <= key
            invariant
                pos <= out@.len(),
                out@.len() == i,
                p.len() == i,
                forall|j: int| 0 <= j < pos ==> #[trigger] out@[j].0 <= key,
                ordered_by(out@, p, i as int),
            decreases out@.len() - pos,
        {
            pos = pos + 1;
        }
        proof {
            if pos < out@.len() {
                assert forall|j: int| pos <= j < out@.len() implies #[trigger] out@[j].0 > key by {
                    if j > pos {
                        assert(in_order(out@, p, pos as int, j));
                    }
                }
            }
        }
        let t = e[i].1.clone();
        let ghost old_out = out@;
        let ghost old_p = p;
        out.insert(pos, (key, t));
        proof {
            p = p.insert(pos as int, i as int);
            assert forall|k: int| 0 <= k < i + 1 implies 0 <= #[trigger] p[k] < i + 1 && out@[k].0
                == e@[p[k]].0 && out@[k].1@ == e@[p[k]].1@ by {
                if k < pos {
                    assert(p[k] == old_p[k]);
                } else if k > pos {
                    assert(p[k] == old_p[k - 1]);
                }
            }
            assert forall|a: int, b: int| 0 <= a < b < i + 1 implies #[trigger] in_order(out@, p, a, b) by {
                if b < pos {
                    assert(in_order(old_out, old_p, a, b));
                } else if a > pos {
                    assert(in_order(old_out, old_p, a - 1, b - 1));
                } else if a == pos {
                    assert(out@[b] == old_out[b - 1]);
                    assert(old_out[b - 1].0 > key);
                } else if b == pos {
                    assert(out@[a] == old_out[a]);
                    assert(old_p[a] < i);
                } else {
                    assert(in_order(old_out, old_p, a, b - 1));
                }
            }
            assert(ordered_by(out@, p, i + 1));
        }
        i = i + 1;
    }
    proof {
        let ov = view_entries(out@);
        assert(ov.len() == ev.len());
        assert forall|k: int| 0 <= k < p.len() implies 0 <= #[trigger] p[k] < ev.len() && ov[k]
            == ev[p[k]] by {
            assert(ov[k] == (out@[k].0 as nat, out@[k].1@));
            assert(ev[p[k]] == (e@[p[k]].0 as nat, e@[p[k]].1@));
        }
        assert forall|a: int, b: int| 0 <= a < b < p.len() implies #[trigger] comes_before(ov, p, a, b) by {
            assert(in_order(out@, p, a, b));
            assert(ov[a].0 == out@[a].0 && ov[b].0 == out@[b].0);
        }
        assert(p.len() == ev.len());
        assert(sorts_by(ov, ev, p));
    }
    out
}

/// The timed lines of sorted entries: each ends where the next starts, the
/// last at `duration`.
fn build_lines(sorted: &Vec<(u64, String)>, duration: u64) -> (r: Vec<LyricLine>)
    requires
        sorted@.len() > 0,
    ensures
        starts_of(r@) == view_entries(sorted@),
        is_contiguous(r@, duration as nat),
{
    let n = sorted.len();
    let mut out: Vec<LyricLine> = Vec::new();
    let mut i: usize = 0;
    while i < n
        invariant
            n == sorted@.len(),
            i <= n,
            out@.len() == i,
            forall|k: int|
                0 <= k < i ==> (#[trigger] out@[k]).timestamp_start == sorted@[k].0 && out@[k].text@
                    == sorted@[k].1@ && out@[k].timestamp_end == if k + 1 < n {
                    sorted@[k + 1].0
                } else {
                    duration
                },
        decreases n - i,
    {
        let end = if i + 1 < n {
            sorted[i + 1].0
        } else {
            duration
        };
        let text = sorted[i].1.clone();
        out.push(LyricLine { timestamp_start: sorted[i].0, timestamp_end: end, text });
        i = i + 1;
    }
    assert(starts_of(out@) =~= view_entries(sorted@));
    out
}

/// Parses a document given as its lines against a song of `song_duration`
/// hundredths of a second.
pub fn parse_lines(lines: &Vec<Vec<char>>, song_duration: u64) -> (r: Result<
    Vec<LyricLine>,
    LyricError,
>)
    ensures
        parsed(view_lines(lines@), song_duration as nat, r),
{
    let entries = match collect_entries(lines) {
        Ok(e) => e,
        Err(e) => {
            return Err(e);
        },
    };
    if entries.len() == 0 {
        return Err(LyricError::EmptyLyric);
    }
    let sorted = stable_sort_entries(&entries);
    let out = build_lines(&sorted, song_duration);
    Ok(out)
}

/// The parser of LRC documents.
pub struct LyricParser;

impl LyricParser {
    /// Parses an LRC document against a song of `song_duration` hundredths
    /// of a second.
    pub fn parse(doc: &str, song_duration: u64) -> (r: Result<Vec<LyricLine>, LyricError>)
        ensures
            parsed(rope_lines(doc@), song_duration as nat, r),
    {
        let lines = split_lines(doc);
        parse_lines(&lines, song_duration)
    }
}

} // verus!
