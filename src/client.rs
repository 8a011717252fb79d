//! The decisions of the fallback fetch: the cache first, then each lyric
//! source in priority order until one succeeds. The caller performs each
//! step and reports what came of it.
use vstd::prelude::*;

verus! {

/// What came of the last step.
#[derive(Debug, Clone, Copy, PartialEq, Eq, Structural)]
pub enum FetchEvent {
    CacheHit,
    CacheMiss,
    SourceSucceeded(usize),
    SourceFailed(usize),
}

/// What to do next.
#[derive(Debug, Clone, Copy, PartialEq, Eq, Structural)]
pub enum FetchStep {
    /// Return the cached text; no source is asked.
    ReturnCached,
    /// Ask the source at this place in the priority order.
    TrySource(usize),
    /// Store the text of this source in the cache, under its name, and
    /// return it.
    StoreAndReturn(usize),
    /// Every source failed.
    NoLyricFound,
}

/// The next step for a client with `n` sources, after `event`.
pub open spec fn fetch_step(n: nat, event: FetchEvent) -> FetchStep {
    match event {
        FetchEvent::CacheHit => FetchStep::ReturnCached,
        FetchEvent::CacheMiss => if n > 0 {
            FetchStep::TrySource(0)
        } else {
            FetchStep::NoLyricFound
        },
        FetchEvent::SourceSucceeded(i) => FetchStep::StoreAndReturn(i),
        FetchEvent::SourceFailed(i) => if i + 1 < n {
            FetchStep::TrySource((i + 1) as usize)
        } else {
            FetchStep::NoLyricFound
        },
    }
}

/// Decides the next step of a fetch over `n_sources` sources.
pub fn next_fetch_step(n_sources: usize, event: FetchEvent) -> (r: FetchStep)
    ensures
        r == fetch_step(n_sources as nat, event),
{
    match event {
        FetchEvent::CacheHit => FetchStep::ReturnCached,
        FetchEvent::CacheMiss => if n_sources > 0 {
            FetchStep::TrySource(0)
        } else {
            FetchStep::NoLyricFound
        },
        FetchEvent::SourceSucceeded(i) => FetchStep::StoreAndReturn(i),
        FetchEvent::SourceFailed(i) => if i < n_sources && i + 1 < n_sources {
            FetchStep::TrySource(i + 1)
        } else {
            FetchStep::NoLyricFound
        },
    }
}

/// Runs the fetch from `step` when source `i` would succeed exactly where
/// `succeeds[i]` holds: the sources asked, in order, and the final step.
pub open spec fn run_fetch(succeeds: Seq<bool>, step: FetchStep) -> (Seq<nat>, FetchStep)
    decreases succeeds.len() - (match step {
            FetchStep::TrySource(i) => i as int,
            _ => succeeds.len() as int,
        }),
{
    match step {
        FetchStep::TrySource(i) => if i < succeeds.len() && succeeds.len() <= usize::MAX {
            let event = if succeeds[i as int] {
                FetchEvent::SourceSucceeded(i)
            } else {
                FetchEvent::SourceFailed(i)
            };
            let next = fetch_step(succeeds.len(), event);
            let rest = run_fetch(succeeds, next);
            (seq![i as nat] + rest.0, rest.1)
        } else {
            (seq![], step)
        },
        _ => (seq![], step),
    }
}

proof fn lemma_run_from(succeeds: Seq<bool>, i: nat, k: nat)
    requires
        i <= k < succeeds.len(),
        succeeds.len() <= usize::MAX,
        succeeds[k as int],
        forall|j: int| 0 <= j < k ==> !succeeds[j],
    ensures
        run_fetch(succeeds, FetchStep::TrySource(i as usize)) == (
        Seq::new((k - i + 1) as nat, |j: int| (i + j) as nat),
        FetchStep::StoreAndReturn(k as usize),
        ),
    decreases k - i,
{
    let n = succeeds.len();
    if i < k {
        assert(!succeeds[i as int]);
        assert(fetch_step(n, FetchEvent::SourceFailed(i as usize)) == FetchStep::TrySource(
            (i + 1) as usize,
        ));
        lemma_run_from(succeeds, i + 1, k);
        let s = Seq::new((k - i + 1) as nat, |j: int| (i + j) as nat);
        let t = Seq::new((k - (i + 1) + 1) as nat, |j: int| (i + 1 + j) as nat);
        assert(s =~= seq![i] + t);
    } else {
        assert(fetch_step(n, FetchEvent::SourceSucceeded(i as usize)) == FetchStep::StoreAndReturn(
            k as usize,
        ));
        assert(run_fetch(succeeds, FetchStep::StoreAndReturn(k as usize)) == (
        Seq::<nat>::empty(),
        FetchStep::StoreAndReturn(k as usize),
        ));
        let s = Seq::new((k - i + 1) as nat, |j: int| (i + j) as nat);
        assert(s =~= seq![i] + Seq::<nat>::empty());
    }
}

proof fn lemma_run_all_fail(succeeds: Seq<bool>, i: nat)
    requires
        i < succeeds.len() <= usize::MAX,
        forall|j: int| 0 <= j < succeeds.len() ==> !succeeds[j],
    ensures
        run_fetch(succeeds, FetchStep::TrySource(i as usize)) == (
        Seq::new((succeeds.len() - i) as nat, |j: int| (i + j) as nat),
        FetchStep::NoLyricFound,
        ),
    decreases succeeds.len() - i,
{
    let s = Seq::new((succeeds.len() - i) as nat, |j: int| (i + j) as nat);
    let n = succeeds.len();
    assert(!succeeds[i as int]);
    if i + 1 < succeeds.len() {
        assert(fetch_step(n, FetchEvent::SourceFailed(i as usize)) == FetchStep::TrySource(
            (i + 1) as usize,
        ));
        lemma_run_all_fail(succeeds, i + 1);
        let t = Seq::new((succeeds.len() - (i + 1)) as nat, |j: int| (i + 1 + j) as nat);
        assert(s =~= seq![i] + t);
    } else {
        assert(fetch_step(n, FetchEvent::SourceFailed(i as usize)) == FetchStep::NoLyricFound);
        assert(run_fetch(succeeds, FetchStep::NoLyricFound) == (
        Seq::<nat>::empty(),
        FetchStep::NoLyricFound,
        ));
        assert(s =~= seq![i] + Seq::<nat>::empty());
    }
}

/// After a cache miss the sources are asked in priority order up to the
/// first that succeeds, whose text is stored and returned; the sources after
/// it are never asked.
pub proof fn lemma_first_success_wins(succeeds: Seq<bool>, k: nat)
    requires
        k < succeeds.len() <= usize::MAX,
        succeeds[k as int],
        forall|j: int| 0 <= j < k ==> !succeeds[j],
    ensures
        run_fetch(succeeds, fetch_step(succeeds.len(), FetchEvent::CacheMiss)) == (
        Seq::new(k + 1, |j: int| j as nat),
        FetchStep::StoreAndReturn(k as usize),
        ),
{
    lemma_run_from(succeeds, 0, k);
    assert(Seq::new((k - 0 + 1) as nat, |j: int| (0 + j) as nat) =~= Seq::new(k + 1, |j: int| j as nat));
}

/// After a cache miss with every source failing, each source is asked once,
/// in order, and the fetch ends with no lyrics found.
pub proof fn lemma_all_fail(succeeds: Seq<bool>)
    requires
        succeeds.len() <= usize::MAX,
        forall|j: int| 0 <= j < succeeds.len() ==> !succeeds[j],
    ensures
        run_fetch(succeeds, fetch_step(succeeds.len(), FetchEvent::CacheMiss)) == (
        Seq::new(succeeds.len(), |j: int| j as nat),
        FetchStep::NoLyricFound,
        ),
{
    if succeeds.len() > 0 {
        lemma_run_all_fail(succeeds, 0);
        assert(Seq::new((succeeds.len() - 0) as nat, |j: int| (0 + j) as nat) =~= Seq::new(succeeds.len(), |j: int| j as nat));
    } else {
        assert(Seq::<nat>::empty() =~= Seq::new(succeeds.len(), |j: int| j as nat));
    }
}

/// A cache hit returns the cached text and asks no source.
pub proof fn lemma_cache_hit_short_circuits(succeeds: Seq<bool>)
    ensures
        run_fetch(succeeds, fetch_step(succeeds.len(), FetchEvent::CacheHit)) == (
        Seq::<nat>::empty(),
        FetchStep::ReturnCached,
        ),
{
}

} // verus!
