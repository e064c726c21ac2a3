//! Composite guess selection.
//!
//! These selectors combine the entropy, expected-remaining and
//! worst-case metrics. Ties follow the metric passes exactly: a
//! maximum taken over a pass keeps the last contender in pool order, a
//! minimum keeps the first.

use vstd::prelude::*;

use crate::entropy::GuessMetrics;
use crate::entropy::calculate_metrics;
use crate::entropy::expected_q16;
use crate::entropy::pool_entropy;
use crate::minimax::pool_worst;
use crate::word::Word;

verus! {

/// The Q16 expected-remaining metric of one pool entry.
pub open spec fn pool_expected(pool: Seq<Word>, cands: Seq<Word>, i: int) -> nat {
    expected_q16(pool[i]@, cands)
}

/// Whether pool entry `i` spells the same word as some candidate.
pub open spec fn is_pool_candidate(pool: Seq<Word>, cands: Seq<Word>, i: int) -> bool {
    exists|k: int| 0 <= k < cands.len() && #[trigger] cands[k]@ == pool[i]@
}

/// The metrics of every pool entry, in pool order.
fn all_metrics(guess_pool: &[Word], candidates: &[Word]) -> (r: Vec<GuessMetrics>)
    ensures
        r@.len() == guess_pool@.len(),
        forall|i: int|
            0 <= i < guess_pool@.len() ==> {
                &&& (#[trigger] r@[i]).entropy == pool_entropy(guess_pool@, candidates@, i)
                &&& r@[i].expected_remaining == pool_expected(guess_pool@, candidates@, i)
                &&& r@[i].max_partition == pool_worst(guess_pool@, candidates@, i)
            },
{
    let n = guess_pool.len();
    let mut r: Vec<GuessMetrics> = Vec::new();
    let mut i: usize = 0;
    while i < n
        invariant
            n == guess_pool@.len(),
            0 <= i <= n,
            r@.len() == i,
            forall|j: int|
                0 <= j < i ==> {
                    &&& (#[trigger] r@[j]).entropy == pool_entropy(guess_pool@, candidates@, j)
                    &&& r@[j].expected_remaining == pool_expected(guess_pool@, candidates@, j)
                    &&& r@[j].max_partition == pool_worst(guess_pool@, candidates@, j)
                },
        decreases n - i,
    {
        let m = calculate_metrics(&guess_pool[i], candidates);
        r.push(m);
        i += 1;
    }
    r
}

/// For every pool entry, whether it is itself a candidate.
fn candidate_flags(guess_pool: &[Word], candidates: &[Word]) -> (r: Vec<bool>)
    ensures
        r@.len() == guess_pool@.len(),
        forall|i: int|
            0 <= i < guess_pool@.len() ==> #[trigger] r@[i] == is_pool_candidate(
                guess_pool@,
                candidates@,
                i,
            ),
{
    let n = guess_pool.len();
    let m = candidates.len();
    let mut r: Vec<bool> = Vec::new();
    let mut i: usize = 0;
    while i < n
        invariant
            n == guess_pool@.len(),
            m == candidates@.len(),
            0 <= i <= n,
            r@.len() == i,
            forall|j: int|
                0 <= j < i ==> #[trigger] r@[j] == is_pool_candidate(guess_pool@, candidates@, j),
        decreases n - i,
    {
        let mut found = false;
        let mut k: usize = 0;
        while k < m
            invariant
                n == guess_pool@.len(),
                m == candidates@.len(),
                0 <= i < n,
                0 <= k <= m,
                found == exists|q: int| 0 <= q < k && #[trigger] candidates@[q]@ == guess_pool@[i as int]@,
            decreases m - k,
        {
            if candidates[k] == guess_pool[i] {
                found = true;
            }
            k += 1;
        }
        r.push(found);
        i += 1;
    }
    r
}

/// Whether pool entry `j` ranks strictly below entry `i` under the
/// expected-tiebreaker order: entropy first (higher is better), then
/// expected remaining (lower), then worst case (lower).
pub open spec fn tri_worse(pool: Seq<Word>, cands: Seq<Word>, j: int, i: int) -> bool {
    ||| pool_entropy(pool, cands, j) < pool_entropy(pool, cands, i)
    ||| (pool_entropy(pool, cands, j) == pool_entropy(pool, cands, i) && (pool_expected(
        pool,
        cands,
        j,
    ) > pool_expected(pool, cands, i) || (pool_expected(pool, cands, j) == pool_expected(
        pool,
        cands,
        i,
    ) && pool_worst(pool, cands, j) > pool_worst(pool, cands, i))))
}

/// Whether pool entry `i` is the expected-tiebreaker winner: no entry
/// ranks above it, and every later entry ranks strictly below it.
pub open spec fn is_tri_selected(pool: Seq<Word>, cands: Seq<Word>, i: int) -> bool {
    &&& 0 <= i < pool.len()
    &&& forall|j: int| 0 <= j < pool.len() ==> !(#[trigger] tri_worse(pool, cands, i, j))
    &&& forall|j: int| i < j < pool.len() ==> #[trigger] tri_worse(pool, cands, j, i)
}

/// Pick the guess with the highest entropy, breaking ties by lower
/// expected remaining count, then by lower worst case; remaining ties
/// keep the last contender in pool order. Returns nothing only for an
/// empty guess pool.
pub fn select_with_expected_tiebreaker<'a>(guess_pool: &'a [Word], candidates: &[Word]) -> (r:
    Option<&'a Word>)
    ensures
        r is Some <==> guess_pool@.len() >= 1,
        r matches Some(w) ==> exists|i: int|
            #[trigger] is_tri_selected(guess_pool@, candidates@, i) && *w == guess_pool@[i],
{
    let n = guess_pool.len();
    if n == 0 {
        return None;
    }
    let ms = all_metrics(guess_pool, candidates);
    let mut best_i: usize = 0;
    let mut i: usize = 1;
    while i < n
        invariant
            n == guess_pool@.len(),
            ms@.len() == n,
            forall|j: int|
                0 <= j < n ==> {
                    &&& (#[trigger] ms@[j]).entropy == pool_entropy(guess_pool@, candidates@, j)
                    &&& ms@[j].expected_remaining == pool_expected(guess_pool@, candidates@, j)
                    &&& ms@[j].max_partition == pool_worst(guess_pool@, candidates@, j)
                },
            1 <= i <= n,
            0 <= best_i < i,
            forall|j: int|
                #![trigger pool_entropy(guess_pool@, candidates@, j)]
                0 <= j < i ==> !tri_worse(guess_pool@, candidates@, best_i as int, j),
            forall|j: int|
                #![trigger pool_entropy(guess_pool@, candidates@, j)]
                best_i < j < i ==> tri_worse(guess_pool@, candidates@, j, best_i as int),
        decreases n - i,
    {
        let e = ms[i].entropy;
        let x = ms[i].expected_remaining;
        let w = ms[i].max_partition;
        let be = ms[best_i].entropy;
        let bx = ms[best_i].expected_remaining;
        let bw = ms[best_i].max_partition;
        if e > be || (e == be && (x < bx || (x == bx && w <= bw))) {
            best_i = i;
        }
        i += 1;
    }
    proof {
        assert forall|j: int| 0 <= j < n implies !tri_worse(
            guess_pool@,
            candidates@,
            best_i as int,
            j,
        ) by {
            assert(pool_entropy(guess_pool@, candidates@, j) >= 0);
        }
        assert forall|j: int| best_i < j < n implies tri_worse(
            guess_pool@,
            candidates@,
            j,
            best_i as int,
        ) by {
            assert(pool_entropy(guess_pool@, candidates@, j) >= 0);
        }
        assert(is_tri_selected(guess_pool@, candidates@, best_i as int));
    }
    Some(&guess_pool[best_i])
}

/// The hybrid score of one pool entry: the entropy in hundredths of a
/// bit (rounded down) minus ten points per worst-case survivor.
pub open spec fn hybrid_score(pool: Seq<Word>, cands: Seq<Word>, i: int) -> int {
    (100 * pool_entropy(pool, cands, i)) / 65536 - 10 * pool_worst(pool, cands, i)
}

/// Whether pool entry `j` ranks strictly below entry `i` under hybrid
/// scoring: lower score, or equal score and higher expected remaining.
pub open spec fn hybrid_worse(pool: Seq<Word>, cands: Seq<Word>, j: int, i: int) -> bool {
    ||| hybrid_score(pool, cands, j) < hybrid_score(pool, cands, i)
    ||| (hybrid_score(pool, cands, j) == hybrid_score(pool, cands, i) && pool_expected(
        pool,
        cands,
        j,
    ) > pool_expected(pool, cands, i))
}

/// Whether pool entry `i` is the hybrid-scoring winner.
pub open spec fn is_hybrid_selected(pool: Seq<Word>, cands: Seq<Word>, i: int) -> bool {
    &&& 0 <= i < pool.len()
    &&& forall|j: int| 0 <= j < pool.len() ==> !(#[trigger] hybrid_worse(pool, cands, i, j))
    &&& forall|j: int| i < j < pool.len() ==> #[trigger] hybrid_worse(pool, cands, j, i)
}

/// Pick the guess with the highest hybrid score — entropy weighted a
/// hundredfold against a tenfold worst-case penalty — breaking ties by
/// lower expected remaining count; remaining ties keep the last
/// contender. Returns nothing only for an empty guess pool.
pub fn select_with_hybrid_scoring<'a>(guess_pool: &'a [Word], candidates: &[Word]) -> (r: Option<
    &'a Word,
>)
    ensures
        r is Some <==> guess_pool@.len() >= 1,
        r matches Some(w) ==> exists|i: int|
            #[trigger] is_hybrid_selected(guess_pool@, candidates@, i) && *w == guess_pool@[i],
{
    let n = guess_pool.len();
    if n == 0 {
        return None;
    }
    let ms = all_metrics(guess_pool, candidates);
    let mut best_i: usize = 0;
    let mut i: usize = 1;
    while i < n
        invariant
            n == guess_pool@.len(),
            ms@.len() == n,
            forall|j: int|
                0 <= j < n ==> {
                    &&& (#[trigger] ms@[j]).entropy == pool_entropy(guess_pool@, candidates@, j)
                    &&& ms@[j].expected_remaining == pool_expected(guess_pool@, candidates@, j)
                    &&& ms@[j].max_partition == pool_worst(guess_pool@, candidates@, j)
                },
            1 <= i <= n,
            0 <= best_i < i,
            forall|j: int|
                #![trigger pool_entropy(guess_pool@, candidates@, j)]
                0 <= j < i ==> !hybrid_worse(guess_pool@, candidates@, best_i as int, j),
            forall|j: int|
                #![trigger pool_entropy(guess_pool@, candidates@, j)]
                best_i < j < i ==> hybrid_worse(guess_pool@, candidates@, j, best_i as int),
        decreases n - i,
    {
        let s = score_of(&ms[i]);
        let bs = score_of(&ms[best_i]);
        proof {
            assert(s == hybrid_score(guess_pool@, candidates@, i as int));
            assert(bs == hybrid_score(guess_pool@, candidates@, best_i as int));
        }
        if s > bs || (s == bs && ms[i].expected_remaining <= ms[best_i].expected_remaining) {
            best_i = i;
        }
        i += 1;
    }
    proof {
        assert forall|j: int| 0 <= j < n implies !hybrid_worse(
            guess_pool@,
            candidates@,
            best_i as int,
            j,
        ) by {
            assert(pool_entropy(guess_pool@, candidates@, j) >= 0);
        }
        assert forall|j: int| best_i < j < n implies hybrid_worse(
            guess_pool@,
            candidates@,
            j,
            best_i as int,
        ) by {
            assert(pool_entropy(guess_pool@, candidates@, j) >= 0);
        }
        assert(is_hybrid_selected(guess_pool@, candidates@, best_i as int));
    }
    Some(&guess_pool[best_i])
}

/// The hybrid score of one set of metrics.
fn score_of(m: &GuessMetrics) -> (r: i128)
    ensures
        r == (100 * m.entropy) / 65536 - 10 * m.max_partition,
{
    let points = ((100u128 * (m.entropy as u128)) / 65536) as i128;
    proof {
        assert(100u128 * (m.entropy as u128) <= 100u128 * 0xFFFF_FFFF_FFFF_FFFF)
            by (nonlinear_arith)
            requires
                m.entropy <= 0xFFFF_FFFF_FFFF_FFFFu64,
        ;
    }
    points - 10 * (m.max_partition as i128)
}

/// Whether pool entry `i` attains the least worst case.
pub open spec fn tied_min_worst(pool: Seq<Word>, cands: Seq<Word>, i: int) -> bool {
    &&& 0 <= i < pool.len()
    &&& forall|j: int| 0 <= j < pool.len() ==> #[trigger] pool_worst(pool, cands, j) >= pool_worst(
        pool,
        cands,
        i,
    )
}

/// Whether pool entry `i` is a minimax-tied candidate whose entropy
/// comes within `eps` of every minimax-tied entry's entropy.
pub open spec fn eps_preferred(pool: Seq<Word>, cands: Seq<Word>, eps: nat, i: int) -> bool {
    &&& tied_min_worst(pool, cands, i)
    &&& is_pool_candidate(pool, cands, i)
    &&& forall|j: int|
        tied_min_worst(pool, cands, j) ==> pool_entropy(pool, cands, i) + eps
            > #[trigger] pool_entropy(pool, cands, j)
}

/// Whether pool entry `i` is the minimax-first winner for tolerance
/// `eps`: it attains the least worst case; if any minimax-tied entry is
/// itself a candidate with entropy within `eps` of the best among the
/// tied, the winner is the last highest-entropy such entry, and
/// otherwise the last highest-entropy entry among the tied.
pub open spec fn is_minimax_first_selected(
    pool: Seq<Word>,
    cands: Seq<Word>,
    eps: nat,
    i: int,
) -> bool {
    &&& tied_min_worst(pool, cands, i)
    &&& if exists|k: int| #[trigger] eps_preferred(pool, cands, eps, k) {
        &&& eps_preferred(pool, cands, eps, i)
        &&& forall|j: int|
            eps_preferred(pool, cands, eps, j) ==> #[trigger] pool_entropy(pool, cands, j)
                <= pool_entropy(pool, cands, i)
        &&& forall|j: int|
            i < j && eps_preferred(pool, cands, eps, j) ==> #[trigger] pool_entropy(pool, cands, j)
                < pool_entropy(pool, cands, i)
    } else {
        &&& forall|j: int|
            tied_min_worst(pool, cands, j) ==> #[trigger] pool_entropy(pool, cands, j)
                <= pool_entropy(pool, cands, i)
        &&& forall|j: int|
            i < j && tied_min_worst(pool, cands, j) ==> #[trigger] pool_entropy(pool, cands, j)
                < pool_entropy(pool, cands, i)
    }
}

/// Pick a guess by worst case first: among the guesses tied at the
/// least worst case, prefer the last highest-entropy one that is itself
/// a candidate with entropy within `epsilon` (Q16 bits) of the tied
/// maximum; if no tied candidate comes that close, take the last
/// highest-entropy tied guess. Returns nothing only for an empty pool.
pub fn select_minimax_first<'a>(guess_pool: &'a [Word], candidates: &[Word], epsilon: u64) -> (r:
    Option<&'a Word>)
    ensures
        r is Some <==> guess_pool@.len() >= 1,
        r matches Some(w) ==> exists|i: int|
            #[trigger] is_minimax_first_selected(guess_pool@, candidates@, epsilon as nat, i) && *w
                == guess_pool@[i],
{
    let ghost pool = guess_pool@;
    let ghost cands = candidates@;
    let ghost eps = epsilon as nat;
    let n = guess_pool.len();
    if n == 0 {
        return None;
    }
    let ms = all_metrics(guess_pool, candidates);
    let flags = candidate_flags(guess_pool, candidates);

    // Least worst case over the pool.
    let mut min_w: usize = ms[0].max_partition;
    let mut i: usize = 1;
    while i < n
        invariant
            n == pool.len(),
            pool == guess_pool@,
            cands == candidates@,
            ms@.len() == n,
            forall|j: int|
                0 <= j < n ==> {
                    &&& (#[trigger] ms@[j]).entropy == pool_entropy(pool, cands, j)
                    &&& ms@[j].expected_remaining == pool_expected(pool, cands, j)
                    &&& ms@[j].max_partition == pool_worst(pool, cands, j)
                },
            1 <= i <= n,
            forall|j: int| 0 <= j < i ==> #[trigger] pool_worst(pool, cands, j) >= min_w,
            exists|j: int| 0 <= j < i && #[trigger] pool_worst(pool, cands, j) == min_w,
        decreases n - i,
    {
        if ms[i].max_partition < min_w {
            min_w = ms[i].max_partition;
        }
        i += 1;
    }

    // Highest entropy among the minimax-tied entries.
    let mut max_e: u64 = 0;
    let mut have_max = false;
    let mut i2: usize = 0;
    while i2 < n
        invariant
            n == pool.len(),
            pool == guess_pool@,
            cands == candidates@,
            ms@.len() == n,
            forall|j: int|
                0 <= j < n ==> {
                    &&& (#[trigger] ms@[j]).entropy == pool_entropy(pool, cands, j)
                    &&& ms@[j].expected_remaining == pool_expected(pool, cands, j)
                    &&& ms@[j].max_partition == pool_worst(pool, cands, j)
                },
            0 <= i2 <= n,
            forall|j: int| 0 <= j < n ==> #[trigger] pool_worst(pool, cands, j) >= min_w,
            exists|j: int| 0 <= j < n && #[trigger] pool_worst(pool, cands, j) == min_w,
            have_max == exists|j: int|
                0 <= j < i2 && #[trigger] pool_worst(pool, cands, j) == min_w,
            have_max ==> exists|j: int|
                0 <= j < i2 && #[trigger] pool_worst(pool, cands, j) == min_w && pool_entropy(
                    pool,
                    cands,
                    j,
                ) == max_e,
            forall|j: int|
                0 <= j < i2 && #[trigger] pool_worst(pool, cands, j) == min_w ==> pool_entropy(
                    pool,
                    cands,
                    j,
                ) <= max_e,
        decreases n - i2,
    {
        if ms[i2].max_partition == min_w {
            if !have_max || ms[i2].entropy > max_e {
                max_e = ms[i2].entropy;
            }
            have_max = true;
        }
        i2 += 1;
    }

    // Last highest-entropy tied candidate within epsilon, if any.
    let mut found = false;
    let mut best_ci: usize = 0;
    let mut i3: usize = 0;
    while i3 < n
        invariant
            n == pool.len(),
            pool == guess_pool@,
            cands == candidates@,
            ms@.len() == n,
            flags@.len() == n,
            eps == epsilon as nat,
            forall|j: int|
                0 <= j < n ==> {
                    &&& (#[trigger] ms@[j]).entropy == pool_entropy(pool, cands, j)
                    &&& ms@[j].expected_remaining == pool_expected(pool, cands, j)
                    &&& ms@[j].max_partition == pool_worst(pool, cands, j)
                },
            forall|j: int|
                0 <= j < n ==> #[trigger] flags@[j] == is_pool_candidate(pool, cands, j),
            0 <= i3 <= n,
            forall|j: int| 0 <= j < n ==> #[trigger] pool_worst(pool, cands, j) >= min_w,
            exists|j: int|
                0 <= j < n && #[trigger] pool_worst(pool, cands, j) == min_w && pool_entropy(
                    pool,
                    cands,
                    j,
                ) == max_e,
            forall|j: int|
                0 <= j < n && #[trigger] pool_worst(pool, cands, j) == min_w ==> pool_entropy(
                    pool,
                    cands,
                    j,
                ) <= max_e,
            found == exists|j: int| 0 <= j < i3 && #[trigger] eps_preferred(pool, cands, eps, j),
            found ==> {
                &&& 0 <= best_ci < i3
                &&& eps_preferred(pool, cands, eps, best_ci as int)
                &&& forall|j: int|
                    #![trigger eps_preferred(pool, cands, eps, j)]
                    0 <= j < i3 && eps_preferred(pool, cands, eps, j) ==> pool_entropy(
                        pool,
                        cands,
                        j,
                    ) <= pool_entropy(pool, cands, best_ci as int)
                &&& forall|j: int|
                    #![trigger eps_preferred(pool, cands, eps, j)]
                    best_ci < j < i3 && eps_preferred(pool, cands, eps, j) ==> pool_entropy(
                        pool,
                        cands,
                        j,
                    ) < pool_entropy(pool, cands, best_ci as int)
            },
        decreases n - i3,
    {
        proof {
            // The run-time test below agrees with `eps_preferred`: a tied
            // entry is within epsilon of every tied entry's entropy
            // exactly when it is within epsilon of the tied maximum.
            let witness = choose|j: int|
                0 <= j < n && #[trigger] pool_worst(pool, cands, j) == min_w && pool_entropy(
                    pool,
                    cands,
                    j,
                ) == max_e;
            assert(tied_min_worst(pool, cands, witness));
            if pool_worst(pool, cands, i3 as int) == min_w && is_pool_candidate(
                pool,
                cands,
                i3 as int,
            ) {
                if pool_entropy(pool, cands, i3 as int) + eps > max_e {
                    assert(eps_preferred(pool, cands, eps, i3 as int));
                } else {
                    assert(!(pool_entropy(pool, cands, i3 as int) + eps > pool_entropy(
                        pool,
                        cands,
                        witness,
                    )));
                    assert(!eps_preferred(pool, cands, eps, i3 as int));
                }
            } else {
                if pool_worst(pool, cands, i3 as int) != min_w {
                    assert(!tied_min_worst(pool, cands, i3 as int)) by {
                        if tied_min_worst(pool, cands, i3 as int) {
                            assert(pool_worst(pool, cands, witness) >= pool_worst(
                                pool,
                                cands,
                                i3 as int,
                            ));
                        }
                    }
                }
                assert(!eps_preferred(pool, cands, eps, i3 as int));
            }
        }
        if ms[i3].max_partition == min_w && flags[i3] && (ms[i3].entropy as u128) + (
        epsilon as u128) > (max_e as u128) {
            if !found || ms[i3].entropy >= ms[best_ci].entropy {
                best_ci = i3;
            }
            found = true;
        }
        i3 += 1;
    }
    if found {
        proof {
            assert(is_minimax_first_selected(pool, cands, eps, best_ci as int));
        }
        return Some(&guess_pool[best_ci]);
    }

    // No tied candidate within epsilon: last highest-entropy tied entry.
    let mut best_i: usize = 0;
    let mut have_best = false;
    let mut i4: usize = 0;
    while i4 < n
        invariant
            n == pool.len(),
            pool == guess_pool@,
            cands == candidates@,
            ms@.len() == n,
            forall|j: int|
                0 <= j < n ==> {
                    &&& (#[trigger] ms@[j]).entropy == pool_entropy(pool, cands, j)
                    &&& ms@[j].expected_remaining == pool_expected(pool, cands, j)
                    &&& ms@[j].max_partition == pool_worst(pool, cands, j)
                },
            0 <= i4 <= n,
            forall|j: int| 0 <= j < n ==> #[trigger] pool_worst(pool, cands, j) >= min_w,
            have_best == exists|j: int|
                0 <= j < i4 && #[trigger] pool_worst(pool, cands, j) == min_w,
            have_best ==> {
                &&& 0 <= best_i < i4
                &&& pool_worst(pool, cands, best_i as int) == min_w
                &&& forall|j: int|
                    #![trigger pool_worst(pool, cands, j)]
                    0 <= j < i4 && pool_worst(pool, cands, j) == min_w ==> pool_entropy(
                        pool,
                        cands,
                        j,
                    ) <= pool_entropy(pool, cands, best_i as int)
                &&& forall|j: int|
                    #![trigger pool_worst(pool, cands, j)]
                    best_i < j < i4 && pool_worst(pool, cands, j) == min_w ==> pool_entropy(
                        pool,
                        cands,
                        j,
                    ) < pool_entropy(pool, cands, best_i as int)
            },
        decreases n - i4,
    {
        if ms[i4].max_partition == min_w {
            if !have_best || ms[i4].entropy >= ms[best_i].entropy {
                best_i = i4;
            }
            have_best = true;
        }
        i4 += 1;
    }
    proof {
        assert(have_best) by {
            assert(exists|j: int| 0 <= j < n && #[trigger] pool_worst(pool, cands, j) == min_w);
        }
        assert(!(exists|k: int| #[trigger] eps_preferred(pool, cands, eps, k))) by {
            if exists|k: int| #[trigger] eps_preferred(pool, cands, eps, k) {
                let k = choose|k: int| #[trigger] eps_preferred(pool, cands, eps, k);
                assert(0 <= k < n);
            }
        }
        assert(is_minimax_first_selected(pool, cands, eps, best_i as int));
    }
    Some(&guess_pool[best_i])
}

/// Whether pool entry `i` has entropy within `eps` of every entry's
/// entropy — in particular of the maximum.
pub open spec fn in_top(pool: Seq<Word>, cands: Seq<Word>, eps: nat, i: int) -> bool {
    &&& 0 <= i < pool.len()
    &&& forall|j: int|
        0 <= j < pool.len() ==> #[trigger] pool_entropy(pool, cands, j) < pool_entropy(
            pool,
            cands,
            i,
        ) + eps
}

/// Whether pool entry `i` is the candidate-preference winner for
/// tolerance `eps`: among the entries within `eps` of the top entropy,
/// the first lowest-worst-case one that is itself a candidate, or the
/// first lowest-worst-case one overall if no candidate comes that close.
pub open spec fn is_candidate_pref_selected(
    pool: Seq<Word>,
    cands: Seq<Word>,
    eps: nat,
    i: int,
) -> bool {
    &&& in_top(pool, cands, eps, i)
    &&& if exists|k: int| #[trigger] in_top(pool, cands, eps, k) && is_pool_candidate(
        pool,
        cands,
        k,
    ) {
        &&& is_pool_candidate(pool, cands, i)
        &&& forall|j: int|
            #![trigger pool_worst(pool, cands, j)]
            in_top(pool, cands, eps, j) && is_pool_candidate(pool, cands, j) ==> pool_worst(
                pool,
                cands,
                j,
            ) >= pool_worst(pool, cands, i)
        &&& forall|j: int|
            #![trigger pool_worst(pool, cands, j)]
            j < i && in_top(pool, cands, eps, j) && is_pool_candidate(pool, cands, j)
                ==> pool_worst(pool, cands, j) > pool_worst(pool, cands, i)
    } else {
        &&& forall|j: int|
            #![trigger pool_worst(pool, cands, j)]
            in_top(pool, cands, eps, j) ==> pool_worst(pool, cands, j) >= pool_worst(
                pool,
                cands,
                i,
            )
        &&& forall|j: int|
            #![trigger pool_worst(pool, cands, j)]
            j < i && in_top(pool, cands, eps, j) ==> pool_worst(pool, cands, j) > pool_worst(
                pool,
                cands,
                i,
            )
    }
}

/// Pick a guess by entropy first: among the guesses within `epsilon`
/// (Q16 bits) of the top entropy, prefer the first one with the lowest
/// worst case that is itself a candidate; if none of them is a
/// candidate, take the first lowest-worst-case one of them. Returns
/// nothing for an empty pool, and for a zero tolerance, which admits no
/// guess at all.
pub fn select_with_candidate_preference<'a>(
    guess_pool: &'a [Word],
    candidates: &[Word],
    epsilon: u64,
) -> (r: Option<&'a Word>)
    ensures
        r is Some <==> (guess_pool@.len() >= 1 && epsilon >= 1),
        r matches Some(w) ==> exists|i: int|
            #[trigger] is_candidate_pref_selected(guess_pool@, candidates@, epsilon as nat, i)
                && *w == guess_pool@[i],
{
    let ghost pool = guess_pool@;
    let ghost cands = candidates@;
    let ghost eps = epsilon as nat;
    let n = guess_pool.len();
    if n == 0 {
        return None;
    }
    if epsilon == 0 {
        return None;
    }
    let ms = all_metrics(guess_pool, candidates);
    let flags = candidate_flags(guess_pool, candidates);

    // Top entropy over the pool.
    let mut max_e: u64 = ms[0].entropy;
    let mut i: usize = 1;
    while i < n
        invariant
            n == pool.len(),
            pool == guess_pool@,
            cands == candidates@,
            ms@.len() == n,
            forall|j: int|
                0 <= j < n ==> {
                    &&& (#[trigger] ms@[j]).entropy == pool_entropy(pool, cands, j)
                    &&& ms@[j].expected_remaining == pool_expected(pool, cands, j)
                    &&& ms@[j].max_partition == pool_worst(pool, cands, j)
                },
            1 <= i <= n,
            forall|j: int| 0 <= j < i ==> #[trigger] pool_entropy(pool, cands, j) <= max_e,
            exists|j: int| 0 <= j < i && #[trigger] pool_entropy(pool, cands, j) == max_e,
        decreases n - i,
    {
        if ms[i].entropy > max_e {
            max_e = ms[i].entropy;
        }
        i += 1;
    }

    // First lowest-worst-case candidate within epsilon of the top.
    let mut found = false;
    let mut best_ci: usize = 0;
    let mut i2: usize = 0;
    while i2 < n
        invariant
            n == pool.len(),
            pool == guess_pool@,
            cands == candidates@,
            eps == epsilon as nat,
            epsilon >= 1,
            ms@.len() == n,
            flags@.len() == n,
            forall|j: int|
                0 <= j < n ==> {
                    &&& (#[trigger] ms@[j]).entropy == pool_entropy(pool, cands, j)
                    &&& ms@[j].expected_remaining == pool_expected(pool, cands, j)
                    &&& ms@[j].max_partition == pool_worst(pool, cands, j)
                },
            forall|j: int|
                0 <= j < n ==> #[trigger] flags@[j] == is_pool_candidate(pool, cands, j),
            0 <= i2 <= n,
            forall|j: int| 0 <= j < n ==> #[trigger] pool_entropy(pool, cands, j) <= max_e,
            exists|j: int| 0 <= j < n && #[trigger] pool_entropy(pool, cands, j) == max_e,
            found == exists|j: int|
                0 <= j < i2 && #[trigger] in_top(pool, cands, eps, j) && is_pool_candidate(
                    pool,
                    cands,
                    j,
                ),
            found ==> {
                &&& 0 <= best_ci < i2
                &&& in_top(pool, cands, eps, best_ci as int)
                &&& is_pool_candidate(pool, cands, best_ci as int)
                &&& forall|j: int|
                    #![trigger pool_worst(pool, cands, j)]
                    0 <= j < i2 && in_top(pool, cands, eps, j) && is_pool_candidate(pool, cands, j)
                        ==> pool_worst(pool, cands, j) >= pool_worst(pool, cands, best_ci as int)
                &&& forall|j: int|
                    #![trigger pool_worst(pool, cands, j)]
                    0 <= j < best_ci && in_top(pool, cands, eps, j) && is_pool_candidate(
                        pool,
                        cands,
                        j,
                    ) ==> pool_worst(pool, cands, j) > pool_worst(pool, cands, best_ci as int)
            },
        decreases n - i2,
    {
        proof {
            // The run-time test below agrees with `in_top`.
            if (max_e as nat) < pool_entropy(pool, cands, i2 as int) + eps {
                assert(in_top(pool, cands, eps, i2 as int));
            } else {
                assert(!in_top(pool, cands, eps, i2 as int)) by {
                    let witness = choose|j: int|
                        0 <= j < n && #[trigger] pool_entropy(pool, cands, j) == max_e;
                    if in_top(pool, cands, eps, i2 as int) {
                        assert(pool_entropy(pool, cands, witness) < pool_entropy(
                            pool,
                            cands,
                            i2 as int,
                        ) + eps);
                    }
                }
            }
        }
        if (max_e as u128) < (ms[i2].entropy as u128) + (epsilon as u128) && flags[i2] {
            if !found || ms[i2].max_partition < ms[best_ci].max_partition {
                best_ci = i2;
            }
            found = true;
        }
        i2 += 1;
    }
    if found {
        proof {
            assert(is_candidate_pref_selected(pool, cands, eps, best_ci as int));
        }
        return Some(&guess_pool[best_ci]);
    }

    // No candidate within epsilon: first lowest worst case among the top.
    let mut best_i: usize = 0;
    let mut have_best = false;
    let mut i3: usize = 0;
    while i3 < n
        invariant
            n == pool.len(),
            pool == guess_pool@,
            cands == candidates@,
            eps == epsilon as nat,
            epsilon >= 1,
            ms@.len() == n,
            forall|j: int|
                0 <= j < n ==> {
                    &&& (#[trigger] ms@[j]).entropy == pool_entropy(pool, cands, j)
                    &&& ms@[j].expected_remaining == pool_expected(pool, cands, j)
                    &&& ms@[j].max_partition == pool_worst(pool, cands, j)
                },
            0 <= i3 <= n,
            forall|j: int| 0 <= j < n ==> #[trigger] pool_entropy(pool, cands, j) <= max_e,
            exists|j: int| 0 <= j < n && #[trigger] pool_entropy(pool, cands, j) == max_e,
            have_best == exists|j: int| 0 <= j < i3 && #[trigger] in_top(pool, cands, eps, j),
            have_best ==> {
                &&& 0 <= best_i < i3
                &&& in_top(pool, cands, eps, best_i as int)
                &&& forall|j: int|
                    #![trigger pool_worst(pool, cands, j)]
                    0 <= j < i3 && in_top(pool, cands, eps, j) ==> pool_worst(pool, cands, j)
                        >= pool_worst(pool, cands, best_i as int)
                &&& forall|j: int|
                    #![trigger pool_worst(pool, cands, j)]
                    0 <= j < best_i && in_top(pool, cands, eps, j) ==> pool_worst(pool, cands, j)
                        > pool_worst(pool, cands, best_i as int)
            },
        decreases n - i3,
    {
        proof {
            if (max_e as nat) < pool_entropy(pool, cands, i3 as int) + eps {
                assert(in_top(pool, cands, eps, i3 as int));
            } else {
                assert(!in_top(pool, cands, eps, i3 as int)) by {
                    let witness = choose|j: int|
                        0 <= j < n && #[trigger] pool_entropy(pool, cands, j) == max_e;
                    if in_top(pool, cands, eps, i3 as int) {
                        assert(pool_entropy(pool, cands, witness) < pool_entropy(
                            pool,
                            cands,
                            i3 as int,
                        ) + eps);
                    }
                }
            }
        }
        if (max_e as u128) < (ms[i3].entropy as u128) + (epsilon as u128) {
            if !have_best || ms[i3].max_partition < ms[best_i].max_partition {
                best_i = i3;
            }
            have_best = true;
        }
        i3 += 1;
    }
    proof {
        assert(have_best) by {
            let witness = choose|j: int|
                0 <= j < n && #[trigger] pool_entropy(pool, cands, j) == max_e;
            assert(in_top(pool, cands, eps, witness));
        }
        assert(!(exists|k: int| #[trigger] in_top(pool, cands, eps, k) && is_pool_candidate(
            pool,
            cands,
            k,
        )));
        assert(is_candidate_pref_selected(pool, cands, eps, best_i as int));
    }
    Some(&guess_pool[best_i])
}

} // verus!
