//! Minimax scoring and selection.
//!
//! The minimax metric of a guess is the size of the largest pattern
//! group it leaves: the number of candidates that survive in the worst
//! case. The minimax selector picks the guess minimizing that metric,
//! the first such guess in pool order on ties.

use vstd::prelude::*;

use crate::entropy::group_by_pattern;
use crate::entropy::lemma_counts_total;
use crate::entropy::lemma_max_le_sum;
use crate::entropy::lemma_sum_le_n_max;
use crate::entropy::max_of_counts;
use crate::entropy::max_remaining;
use crate::pattern::PATTERN_COUNT;
use crate::word::Word;

verus! {

/// The worst-case group size of one pool entry against the candidates.
pub open spec fn pool_worst(pool: Seq<Word>, cands: Seq<Word>, i: int) -> nat {
    max_remaining(pool[i]@, cands)
}

/// Whether pool entry `i` attains the least worst case, and is the
/// first entry in pool order to do so.
pub open spec fn is_first_min_worst(pool: Seq<Word>, cands: Seq<Word>, i: int) -> bool {
    &&& 0 <= i < pool.len()
    &&& forall|j: int| 0 <= j < pool.len() ==> #[trigger] pool_worst(pool, cands, j) >= pool_worst(
        pool,
        cands,
        i,
    )
    &&& forall|j: int| 0 <= j < i ==> #[trigger] pool_worst(pool, cands, j) > pool_worst(
        pool,
        cands,
        i,
    )
}

/// The number of candidates that survive the guess in the adversary's
/// worst case: the largest pattern group. It covers at least a 243rd
/// of the candidates (pigeonhole over the patterns) and at most all of
/// them.
pub fn calculate_max_remaining(guess: &Word, candidates: &[Word]) -> (r: usize)
    ensures
        r == max_remaining(guess@, candidates@),
        r <= candidates@.len(),
        r * PATTERN_COUNT >= candidates@.len(),
        candidates@.len() == 0 ==> r == 0,
{
    let counts = group_by_pattern(guess, candidates);
    proof {
        lemma_counts_total(guess@, candidates@);
        lemma_max_le_sum(counts@, 243);
        lemma_sum_le_n_max(counts@, 243);
    }
    max_of_counts(&counts)
}

/// Pick the guess that minimizes the worst-case remaining candidates,
/// together with that worst case; the first minimum in pool order wins
/// ties. Returns nothing only for an empty guess pool.
pub fn select_best_guess<'a>(guess_pool: &'a [Word], candidates: &[Word]) -> (r: Option<
    (&'a Word, usize),
>)
    ensures
        r is Some <==> guess_pool@.len() >= 1,
        r matches Some((w, m)) ==> exists|i: int|
            {
                &&& #[trigger] is_first_min_worst(guess_pool@, candidates@, i)
                &&& *w == guess_pool@[i]
                &&& m == pool_worst(guess_pool@, candidates@, i)
            },
{
    let n = guess_pool.len();
    if n == 0 {
        return None;
    }
    let mut best_i: usize = 0;
    let mut best_m: usize = calculate_max_remaining(&guess_pool[0], candidates);
    let mut i: usize = 1;
    while i < n
        invariant
            n == guess_pool@.len(),
            1 <= i <= n,
            0 <= best_i < i,
            best_m == pool_worst(guess_pool@, candidates@, best_i as int),
            forall|j: int|
                0 <= j < i ==> #[trigger] pool_worst(guess_pool@, candidates@, j) >= best_m,
            forall|j: int|
                0 <= j < best_i ==> #[trigger] pool_worst(guess_pool@, candidates@, j) > best_m,
        decreases n - i,
    {
        let m = calculate_max_remaining(&guess_pool[i], candidates);
        if m < best_m {
            best_i = i;
            best_m = m;
        }
        i += 1;
    }
    proof {
        assert(is_first_min_worst(guess_pool@, candidates@, best_i as int));
    }
    Some((&guess_pool[best_i], best_m))
}

} // verus!
