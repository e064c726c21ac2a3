//! The adaptive strategy: tactics by candidate count.
//!
//! Four thresholds split the candidate counts into five tiers, by
//! strictly cascading greater-than comparisons. Early on, information
//! gain dominates, so large counts get pure entropy; as the field
//! narrows, worst-case guarantees matter more, down to a random pick
//! between the last one or two candidates.

use vstd::prelude::*;

use crate::selection::select_minimax_first;
use crate::selection::select_with_expected_tiebreaker;
use crate::selection::select_with_hybrid_scoring;
use crate::strategy::RandomStrategy;
use crate::strategy::entropy_pick;
use crate::strategy::find_same;
use crate::strategy::hybrid_scoring_pick;
use crate::strategy::minimax_first_pick;
use crate::strategy::random_pick;
use crate::strategy::random_some;
use crate::strategy::tri_pick;
use crate::word::Word;

verus! {

/// One tenth of a bit in Q16 fixed point: the entropy tolerance the
/// minimax-first tier grants to candidate guesses.
pub const MINIMAX_FIRST_EPSILON: u64 = 6554;

/// The regime the adaptive strategy is in.
#[derive(Debug, Clone, Copy, PartialEq, Eq, Structural)]
pub enum AdaptiveTier {
    /// Many candidates: pure entropy maximization.
    PureEntropy,
    /// A medium field: entropy with expected-remaining and minimax tiebreaks.
    EntropyMinimax,
    /// A small field: hybrid scoring.
    Hybrid,
    /// Very few left: minimax first, preferring candidate guesses.
    MinimaxFirst,
    /// The endgame: a random candidate.
    Random,
}

/// Candidate counts by tier, with configurable boundaries.
#[derive(Debug, Clone)]
pub struct AdaptiveStrategy {
    /// Counts above this use pure entropy.
    pub pure_entropy_threshold: usize,
    /// Counts above this (and not above the previous) use the
    /// expected-remaining tiebreaker.
    pub entropy_minimax_threshold: usize,
    /// Counts above this use hybrid scoring.
    pub hybrid_threshold: usize,
    /// Counts above this use minimax-first; the rest draw at random.
    pub minimax_first_threshold: usize,
}

/// The tier a candidate count falls into, by strictly cascading
/// greater-than comparisons against the four thresholds.
pub open spec fn tier_of(s: AdaptiveStrategy, n: nat) -> AdaptiveTier {
    if n > s.pure_entropy_threshold {
        AdaptiveTier::PureEntropy
    } else if n > s.entropy_minimax_threshold {
        AdaptiveTier::EntropyMinimax
    } else if n > s.hybrid_threshold {
        AdaptiveTier::Hybrid
    } else if n > s.minimax_first_threshold {
        AdaptiveTier::MinimaxFirst
    } else {
        AdaptiveTier::Random
    }
}

/// Whether the adaptive strategy returns a guess at all: outside the
/// random tier it needs only a non-empty pool; in the random tier some
/// candidate must be spelled by the pool.
pub open spec fn adaptive_some(a: AdaptiveStrategy, pool: Seq<Word>, cands: Seq<Word>) -> bool {
    if tier_of(a, cands.len()) is Random {
        random_some(pool, cands)
    } else {
        pool.len() >= 1
    }
}

/// What the adaptive strategy's returned guess satisfies: the pick of
/// the tier the candidate count falls into.
pub open spec fn adaptive_pick(
    a: AdaptiveStrategy,
    pool: Seq<Word>,
    cands: Seq<Word>,
    w: Word,
) -> bool {
    match tier_of(a, cands.len()) {
        AdaptiveTier::PureEntropy => entropy_pick(pool, cands, w),
        AdaptiveTier::EntropyMinimax => tri_pick(pool, cands, w),
        AdaptiveTier::Hybrid => hybrid_scoring_pick(pool, cands, w),
        AdaptiveTier::MinimaxFirst => minimax_first_pick(
            pool,
            cands,
            MINIMAX_FIRST_EPSILON as nat,
            w,
        ),
        AdaptiveTier::Random => random_pick(pool, cands, w),
    }
}

impl AdaptiveStrategy {
    /// An adaptive strategy with the given tier boundaries.
    pub fn new(
        pure_entropy_threshold: usize,
        entropy_minimax_threshold: usize,
        hybrid_threshold: usize,
        minimax_first_threshold: usize,
    ) -> (r: Self)
        ensures
            r.pure_entropy_threshold == pure_entropy_threshold,
            r.entropy_minimax_threshold == entropy_minimax_threshold,
            r.hybrid_threshold == hybrid_threshold,
            r.minimax_first_threshold == minimax_first_threshold,
    {
        AdaptiveStrategy {
            pure_entropy_threshold,
            entropy_minimax_threshold,
            hybrid_threshold,
            minimax_first_threshold,
        }
    }

    /// The tier a candidate count falls into.
    pub fn get_tier(&self, num_candidates: usize) -> (t: AdaptiveTier)
        ensures
            t == tier_of(*self, num_candidates as nat),
    {
        if num_candidates > self.pure_entropy_threshold {
            AdaptiveTier::PureEntropy
        } else if num_candidates > self.entropy_minimax_threshold {
            AdaptiveTier::EntropyMinimax
        } else if num_candidates > self.hybrid_threshold {
            AdaptiveTier::Hybrid
        } else if num_candidates > self.minimax_first_threshold {
            AdaptiveTier::MinimaxFirst
        } else {
            AdaptiveTier::Random
        }
    }

    /// Pick the next guess by the tactic of the current tier.
    pub fn select_guess<'a>(&self, guess_pool: &'a [Word], candidates: &[Word]) -> (r: Option<
        &'a Word,
    >)
        ensures
            (r is Some) == adaptive_some(*self, guess_pool@, candidates@),
            r matches Some(w) ==> adaptive_pick(*self, guess_pool@, candidates@, *w),
    {
        let tier = self.get_tier(candidates.len());
        match tier {
            AdaptiveTier::PureEntropy => {
                match crate::entropy::select_best_guess(guess_pool, candidates) {
                    Some((best, _)) => {
                        proof {
                            let i = choose|i: int|
                                #[trigger] crate::entropy::is_last_max_entropy(
                                    guess_pool@,
                                    candidates@,
                                    i,
                                ) && *best == guess_pool@[i];
                            assert(0 <= i < guess_pool@.len() && guess_pool@[i]@ == best@);
                        }
                        find_same(guess_pool, best)
                    },
                    None => None,
                }
            },
            AdaptiveTier::EntropyMinimax => {
                match select_with_expected_tiebreaker(guess_pool, candidates) {
                    Some(best) => {
                        proof {
                            let i = choose|i: int|
                                #[trigger] crate::selection::is_tri_selected(
                                    guess_pool@,
                                    candidates@,
                                    i,
                                ) && *best == guess_pool@[i];
                            assert(0 <= i < guess_pool@.len() && guess_pool@[i]@ == best@);
                        }
                        find_same(guess_pool, best)
                    },
                    None => None,
                }
            },
            AdaptiveTier::Hybrid => {
                match select_with_hybrid_scoring(guess_pool, candidates) {
                    Some(best) => {
                        proof {
                            let i = choose|i: int|
                                #[trigger] crate::selection::is_hybrid_selected(
                                    guess_pool@,
                                    candidates@,
                                    i,
                                ) && *best == guess_pool@[i];
                            assert(0 <= i < guess_pool@.len() && guess_pool@[i]@ == best@);
                        }
                        find_same(guess_pool, best)
                    },
                    None => None,
                }
            },
            AdaptiveTier::MinimaxFirst => {
                match select_minimax_first(guess_pool, candidates, MINIMAX_FIRST_EPSILON) {
                    Some(best) => {
                        proof {
                            let i = choose|i: int|
                                #[trigger] crate::selection::is_minimax_first_selected(
                                    guess_pool@,
                                    candidates@,
                                    MINIMAX_FIRST_EPSILON as nat,
                                    i,
                                ) && *best == guess_pool@[i];
                            assert(0 <= i < guess_pool@.len() && guess_pool@[i]@ == best@);
                        }
                        find_same(guess_pool, best)
                    },
                    None => None,
                }
            },
            AdaptiveTier::Random => RandomStrategy.select_guess(guess_pool, candidates),
        }
    }
}

impl Default for AdaptiveStrategy {
    /// The default boundaries: 100, 21, 9 and 2 candidates.
    fn default() -> (r: Self)
        ensures
            r.pure_entropy_threshold == 100,
            r.entropy_minimax_threshold == 21,
            r.hybrid_threshold == 9,
            r.minimax_first_threshold == 2,
    {
        AdaptiveStrategy::new(100, 21, 9, 2)
    }
}

} // verus!
