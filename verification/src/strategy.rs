//! Guess selection strategies.
//!
//! Each strategy picks the next guess from a guess pool, judged against
//! the current candidate set. The set of strategies is closed, so the
//! dispatching `StrategyType` is an enum matched in one place. Every
//! strategy hands back a reference into the guess pool: after a
//! selector names a word, the first pool entry spelling that word is
//! returned, exactly as the pool would be searched by text.

use vstd::prelude::*;

use crate::adaptive::AdaptiveStrategy;
use crate::adaptive::adaptive_pick;
use crate::adaptive::adaptive_some;
use crate::entropy::is_last_max_entropy;
use crate::minimax::is_first_min_worst;
use crate::selection::is_hybrid_selected;
use crate::selection::is_minimax_first_selected;
use crate::selection::is_pool_candidate;
use crate::selection::is_tri_selected;
use crate::word::Word;

verus! {

/// Whether some pool entry spells the word `t`.
pub open spec fn spelled_in_pool(pool: Seq<Word>, t: Seq<u8>) -> bool {
    exists|i: int| 0 <= i < pool.len() && (#[trigger] pool[i]@) == t
}

/// Whether pool entry `j` is the first to spell the word `t`.
pub open spec fn first_match(pool: Seq<Word>, t: Seq<u8>, j: int) -> bool {
    &&& 0 <= j < pool.len()
    &&& pool[j]@ == t
    &&& forall|k: int| 0 <= k < j ==> (#[trigger] pool[k]@) != t
}

/// The first pool entry spelling the same word as `w`, if any.
pub(crate) fn find_same<'a>(pool: &'a [Word], w: &Word) -> (r: Option<&'a Word>)
    ensures
        r is Some <==> spelled_in_pool(pool@, w@),
        r matches Some(x) ==> exists|j: int| #[trigger] first_match(pool@, w@, j) && *x == pool@[j],
{
    let n = pool.len();
    let mut i: usize = 0;
    while i < n
        invariant
            n == pool@.len(),
            0 <= i <= n,
            forall|k: int| 0 <= k < i ==> (#[trigger] pool@[k]@) != w@,
        decreases n - i,
    {
        if &pool[i] == w {
            proof {
                assert(first_match(pool@, w@, i as int));
            }
            return Some(&pool[i]);
        }
        i += 1;
    }
    None
}

/// What the pure-entropy strategy returns: the first pool entry
/// spelling the last highest-entropy word of the pool.
pub open spec fn entropy_pick(pool: Seq<Word>, cands: Seq<Word>, w: Word) -> bool {
    exists|i: int, j: int|
        {
            &&& #[trigger] is_last_max_entropy(pool, cands, i)
            &&& #[trigger] first_match(pool, pool[i]@, j)
            &&& w == pool[j]
        }
}

/// What the pure-minimax strategy returns: the first pool entry
/// spelling the first least-worst-case word of the pool.
pub open spec fn minimax_pick(pool: Seq<Word>, cands: Seq<Word>, w: Word) -> bool {
    exists|i: int, j: int|
        {
            &&& #[trigger] is_first_min_worst(pool, cands, i)
            &&& #[trigger] first_match(pool, pool[i]@, j)
            &&& w == pool[j]
        }
}

/// What the expected-tiebreaker selection returns, as a pool entry.
pub open spec fn tri_pick(pool: Seq<Word>, cands: Seq<Word>, w: Word) -> bool {
    exists|i: int, j: int|
        {
            &&& #[trigger] is_tri_selected(pool, cands, i)
            &&& #[trigger] first_match(pool, pool[i]@, j)
            &&& w == pool[j]
        }
}

/// What the hybrid-scoring selection returns, as a pool entry.
pub open spec fn hybrid_scoring_pick(pool: Seq<Word>, cands: Seq<Word>, w: Word) -> bool {
    exists|i: int, j: int|
        {
            &&& #[trigger] is_hybrid_selected(pool, cands, i)
            &&& #[trigger] first_match(pool, pool[i]@, j)
            &&& w == pool[j]
        }
}

/// What the minimax-first selection returns, as a pool entry.
pub open spec fn minimax_first_pick(pool: Seq<Word>, cands: Seq<Word>, eps: nat, w: Word) -> bool {
    exists|i: int, j: int|
        {
            &&& #[trigger] is_minimax_first_selected(pool, cands, eps, i)
            &&& #[trigger] first_match(pool, pool[i]@, j)
            &&& w == pool[j]
        }
}

/// Whether the random strategy can return anything: some candidate is
/// spelled by some pool entry.
pub open spec fn random_some(pool: Seq<Word>, cands: Seq<Word>) -> bool {
    exists|i: int| #[trigger] is_pool_candidate(pool, cands, i) && 0 <= i < pool.len()
}

/// What the random strategy may return: the first pool entry spelling
/// some candidate. Which candidate is drawn is left open.
pub open spec fn random_pick(pool: Seq<Word>, cands: Seq<Word>, w: Word) -> bool {
    exists|k: int, j: int|
        {
            &&& 0 <= k < cands.len()
            &&& #[trigger] first_match(pool, cands[k]@, j)
            &&& w == pool[j]
        }
}

/// Relies on `rand::random_range`: a uniform draw from `0..n` by the
/// thread-local generator. It returns a value of the range, and panics
/// only on an empty range, which the precondition rules out. Nothing
/// more is assumed: the draw may differ between calls.
#[verifier::external_body]
fn random_below(n: usize) -> (r: usize)
    requires
        n >= 1,
    ensures
        r < n,
{
    rand::random_range(0..n)
}

/// Pure entropy maximization: always the highest-entropy guess.
pub struct EntropyStrategy;

impl EntropyStrategy {
    /// Pick the guess with the highest entropy against the candidates.
    /// Returns nothing only for an empty guess pool.
    pub fn select_guess<'a>(&self, guess_pool: &'a [Word], candidates: &[Word]) -> (r: Option<
        &'a Word,
    >)
        ensures
            r is Some <==> guess_pool@.len() >= 1,
            r matches Some(w) ==> entropy_pick(guess_pool@, candidates@, *w),
    {
        match crate::entropy::select_best_guess(guess_pool, candidates) {
            Some((best, _)) => {
                proof {
                    let i = choose|i: int|
                        #[trigger] is_last_max_entropy(guess_pool@, candidates@, i) && *best
                            == guess_pool@[i];
                    assert(0 <= i < guess_pool@.len() && guess_pool@[i]@ == best@);
                }
                find_same(guess_pool, best)
            },
            None => None,
        }
    }
}

/// Pure minimax: always the guess with the least worst case.
pub struct MinimaxStrategy;

impl MinimaxStrategy {
    /// Pick the guess minimizing the worst-case remaining candidates.
    /// Returns nothing only for an empty guess pool.
    pub fn select_guess<'a>(&self, guess_pool: &'a [Word], candidates: &[Word]) -> (r: Option<
        &'a Word,
    >)
        ensures
            r is Some <==> guess_pool@.len() >= 1,
            r matches Some(w) ==> minimax_pick(guess_pool@, candidates@, *w),
    {
        match crate::minimax::select_best_guess(guess_pool, candidates) {
            Some((best, _)) => {
                proof {
                    let i = choose|i: int|
                        #[trigger] is_first_min_worst(guess_pool@, candidates@, i) && *best
                            == guess_pool@[i];
                    assert(0 <= i < guess_pool@.len() && guess_pool@[i]@ == best@);
                }
                find_same(guess_pool, best)
            },
            None => None,
        }
    }
}

/// Entropy while many candidates remain, minimax once few are left.
pub struct HybridStrategy {
    /// Switch to minimax when the candidate count is at most this.
    pub minimax_threshold: usize,
}

impl HybridStrategy {
    /// A hybrid strategy switching to minimax at the given candidate count.
    pub fn new(minimax_threshold: usize) -> (r: Self)
        ensures
            r.minimax_threshold == minimax_threshold,
    {
        HybridStrategy { minimax_threshold }
    }

    /// Pick by minimax when no more candidates remain than the
    /// threshold, and by entropy otherwise. Returns nothing only for
    /// an empty guess pool.
    pub fn select_guess<'a>(&self, guess_pool: &'a [Word], candidates: &[Word]) -> (r: Option<
        &'a Word,
    >)
        ensures
            r is Some <==> guess_pool@.len() >= 1,
            r matches Some(w) ==> if candidates@.len() <= self.minimax_threshold {
                minimax_pick(guess_pool@, candidates@, *w)
            } else {
                entropy_pick(guess_pool@, candidates@, *w)
            },
    {
        if candidates.len() <= self.minimax_threshold {
            match crate::minimax::select_best_guess(guess_pool, candidates) {
                Some((best, _)) => {
                    proof {
                        let i = choose|i: int|
                            #[trigger] is_first_min_worst(guess_pool@, candidates@, i) && *best
                                == guess_pool@[i];
                        assert(0 <= i < guess_pool@.len() && guess_pool@[i]@ == best@);
                    }
                    find_same(guess_pool, best)
                },
                None => None,
            }
        } else {
            match crate::entropy::select_best_guess(guess_pool, candidates) {
                Some((best, _)) => {
                    proof {
                        let i = choose|i: int|
                            #[trigger] is_last_max_entropy(guess_pool@, candidates@, i) && *best
                                == guess_pool@[i];
                        assert(0 <= i < guess_pool@.len() && guess_pool@[i]@ == best@);
                    }
                    find_same(guess_pool, best)
                },
                None => None,
            }
        }
    }
}

impl Default for HybridStrategy {
    /// The default hybrid strategy switches to minimax at five candidates.
    fn default() -> (r: Self)
        ensures
            r.minimax_threshold == 5,
    {
        HybridStrategy::new(5)
    }
}

/// Uniform choice among the candidates present in the guess pool.
pub struct RandomStrategy;

impl RandomStrategy {
    /// Draw one of the candidates that the guess pool admits, uniformly,
    /// and return its first spelling in the pool. Returns nothing
    /// exactly when no candidate is spelled by any pool entry.
    pub fn select_guess<'a>(&self, guess_pool: &'a [Word], candidates: &[Word]) -> (r: Option<
        &'a Word,
    >)
        ensures
            r is Some <==> random_some(guess_pool@, candidates@),
            r matches Some(w) ==> random_pick(guess_pool@, candidates@, *w),
    {
        let m = candidates.len();
        let mut valid: Vec<usize> = Vec::new();
        let mut k: usize = 0;
        while k < m
            invariant
                m == candidates@.len(),
                0 <= k <= m,
                forall|q: int|
                    0 <= q < valid@.len() ==> 0 <= #[trigger] valid@[q] < k,
                forall|q: int|
                    #![trigger valid@[q]]
                    0 <= q < valid@.len() ==> spelled_in_pool(
                        guess_pool@,
                        candidates@[valid@[q] as int]@,
                    ),
                (exists|q: int, i: int|
                    0 <= q < k && 0 <= i < guess_pool@.len() && (#[trigger] candidates@[q]@) == (
                    #[trigger] guess_pool@[i]@)) ==> valid@.len() >= 1,
            decreases m - k,
        {
            let hit = find_same(guess_pool, &candidates[k]);
            if hit.is_some() {
                let ghost old_valid = valid@;
                valid.push(k);
                proof {
                    assert forall|q: int|
                        #![trigger valid@[q]]
                        0 <= q < valid@.len() implies spelled_in_pool(
                        guess_pool@,
                        candidates@[valid@[q] as int]@,
                    ) by {
                        if q < old_valid.len() {
                            assert(valid@[q] == old_valid[q]);
                        } else {
                            assert(valid@[q] == k);
                        }
                    }
                }
            }
            k += 1;
        }
        if valid.len() == 0 {
            proof {
                assert forall|i: int|
                    0 <= i < guess_pool@.len() implies !is_pool_candidate(
                    guess_pool@,
                    candidates@,
                    i,
                ) by {
                    if is_pool_candidate(guess_pool@, candidates@, i) {
                        let q = choose|q: int|
                            0 <= q < candidates@.len() && (#[trigger] candidates@[q]@)
                                == guess_pool@[i]@;
                    }
                }
            }
            return None;
        }
        let pick = random_below(valid.len());
        let chosen = valid[pick];
        proof {
            assert(spelled_in_pool(guess_pool@, candidates@[chosen as int]@));
        }
        let r = find_same(guess_pool, &candidates[chosen]);
        proof {
            let i = choose|i: int|
                0 <= i < guess_pool@.len() && (#[trigger] guess_pool@[i]@) == candidates@[
                    chosen as int
                ]@;
            assert(is_pool_candidate(guess_pool@, candidates@, i));
            assert(random_some(guess_pool@, candidates@));
        }
        r
    }
}

/// The closed set of strategies, dispatched in one place.
pub enum StrategyType {
    /// The adaptive strategy: tiers by candidate count.
    Adaptive(AdaptiveStrategy),
    /// Pure entropy maximization.
    Entropy(EntropyStrategy),
    /// Pure minimax.
    Minimax(MinimaxStrategy),
    /// Entropy early, minimax late.
    Hybrid(HybridStrategy),
    /// Random choice among candidates.
    Random(RandomStrategy),
}

/// Whether a strategy returns a guess at all for the given pools.
pub open spec fn strategy_some(s: StrategyType, pool: Seq<Word>, cands: Seq<Word>) -> bool {
    match s {
        StrategyType::Adaptive(a) => adaptive_some(a, pool, cands),
        StrategyType::Random(_) => random_some(pool, cands),
        _ => pool.len() >= 1,
    }
}

/// What a strategy's returned guess satisfies.
pub open spec fn strategy_pick(s: StrategyType, pool: Seq<Word>, cands: Seq<Word>, w: Word) -> bool {
    match s {
        StrategyType::Adaptive(a) => adaptive_pick(a, pool, cands, w),
        StrategyType::Entropy(_) => entropy_pick(pool, cands, w),
        StrategyType::Minimax(_) => minimax_pick(pool, cands, w),
        StrategyType::Hybrid(h) => if cands.len() <= h.minimax_threshold {
            minimax_pick(pool, cands, w)
        } else {
            entropy_pick(pool, cands, w)
        },
        StrategyType::Random(_) => random_pick(pool, cands, w),
    }
}

impl StrategyType {
    /// Pick the next guess by the rules of the selected strategy.
    pub fn select_guess<'a>(&self, guess_pool: &'a [Word], candidates: &[Word]) -> (r: Option<
        &'a Word,
    >)
        ensures
            (r is Some) == strategy_some(*self, guess_pool@, candidates@),
            r matches Some(w) ==> strategy_pick(*self, guess_pool@, candidates@, *w),
    {
        match self {
            StrategyType::Adaptive(s) => s.select_guess(guess_pool, candidates),
            StrategyType::Entropy(s) => s.select_guess(guess_pool, candidates),
            StrategyType::Minimax(s) => s.select_guess(guess_pool, candidates),
            StrategyType::Hybrid(s) => s.select_guess(guess_pool, candidates),
            StrategyType::Random(s) => s.select_guess(guess_pool, candidates),
        }
    }

    /// The strategy a name selects: `entropy` or `pure-entropy`,
    /// `minimax`, `hybrid` (with its default threshold) or `random`;
    /// every other name falls back to the adaptive strategy with its
    /// default thresholds.
    pub fn from_name(name: &str) -> (r: Self)
        ensures
            ({
                let v = name@;
                match r {
                    StrategyType::Entropy(_) => v == "entropy"@ || v == "pure-entropy"@,
                    StrategyType::Minimax(_) => v == "minimax"@,
                    StrategyType::Hybrid(h) => v == "hybrid"@ && h.minimax_threshold == 5,
                    StrategyType::Random(_) => v == "random"@,
                    StrategyType::Adaptive(a) => {
                        &&& v != "entropy"@
                        &&& v != "pure-entropy"@
                        &&& v != "minimax"@
                        &&& v != "hybrid"@
                        &&& v != "random"@
                        &&& a.pure_entropy_threshold == 100
                        &&& a.entropy_minimax_threshold == 21
                        &&& a.hybrid_threshold == 9
                        &&& a.minimax_first_threshold == 2
                    },
                }
            }),
    {
        if str_eq(name, "entropy") || str_eq(name, "pure-entropy") {
            StrategyType::Entropy(EntropyStrategy)
        } else if str_eq(name, "minimax") {
            StrategyType::Minimax(MinimaxStrategy)
        } else if str_eq(name, "hybrid") {
            StrategyType::Hybrid(HybridStrategy::new(5))
        } else if str_eq(name, "random") {
            StrategyType::Random(RandomStrategy)
        } else {
            StrategyType::Adaptive(AdaptiveStrategy::new(100, 21, 9, 2))
        }
    }
}

/// Character-for-character equality of two strings.
fn str_eq(s: &str, t: &str) -> (r: bool)
    ensures
        r == (s@ == t@),
{
    let n = s.unicode_len();
    if n != t.unicode_len() {
        return false;
    }
    let mut i: usize = 0;
    while i < n
        invariant
            n == s@.len(),
            n == t@.len(),
            0 <= i <= n,
            forall|j: int| 0 <= j < i ==> s@[j] == t@[j],
        decreases n - i,
    {
        if s.get_char(i) != t.get_char(i) {
            return false;
        }
        i += 1;
    }
    proof {
        assert(s@ =~= t@);
    }
    true
}

} // verus!
