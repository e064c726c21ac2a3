//! Entropy scoring of guesses.
//!
//! A guess splits a candidate set into groups by the pattern each
//! candidate would produce. The Shannon entropy of that split — the
//! expected information gained by making the guess — is computed here in
//! Q16 fixed point: for group sizes `c` out of `N` candidates it is
//! `(1/N) * sum over groups of c * (log2(N) - log2(c))` bits, each
//! logarithm taken per `qlog`. Alongside the entropy, one pass also
//! yields the expected number of remaining candidates (`sum of c^2 / N`)
//! and the worst-case group size.

use vstd::arithmetic::div_mod::lemma_fundamental_div_mod;
use vstd::arithmetic::div_mod::lemma_multiply_divide_le;
use vstd::arithmetic::mul::lemma_mul_inequality;
use vstd::prelude::*;

use crate::pattern::Pattern;
use crate::pattern::pattern_value;
use crate::qlog::log2_q16;
use crate::qlog::log2q16;
use crate::qlog::lemma_log2_q16_mono;
use crate::qlog::lemma_log2_q16_u64_bound;
use crate::word::Word;

verus! {

/// How many of the candidates produce pattern `p` against the guess.
pub open spec fn count_pattern(g: Seq<u8>, cands: Seq<Word>, p: int) -> nat
    decreases cands.len(),
{
    if cands.len() == 0 {
        0
    } else {
        count_pattern(g, cands.drop_last(), p) + if pattern_value(g, cands.last()@) == p {
            1nat
        } else {
            0nat
        }
    }
}

/// The 243 group sizes of a guess against a candidate set.
pub open spec fn pattern_counts(g: Seq<u8>, cands: Seq<Word>) -> Seq<usize> {
    Seq::new(243, |p: int| count_pattern(g, cands, p) as usize)
}

/// Sum of the first `n` group sizes.
pub open spec fn sum_prefix(counts: Seq<usize>, n: int) -> nat
    decreases n,
{
    if n <= 0 {
        0
    } else {
        sum_prefix(counts, n - 1) + counts[n - 1] as nat
    }
}

/// Sum of the squares of the first `n` group sizes.
pub open spec fn sumsq_prefix(counts: Seq<usize>, n: int) -> nat
    decreases n,
{
    if n <= 0 {
        0
    } else {
        sumsq_prefix(counts, n - 1) + (counts[n - 1] * counts[n - 1]) as nat
    }
}

/// Largest of the first `n` group sizes.
pub open spec fn max_prefix(counts: Seq<usize>, n: int) -> nat
    decreases n,
{
    if n <= 0 {
        0
    } else if counts[n - 1] >= max_prefix(counts, n - 1) {
        counts[n - 1] as nat
    } else {
        max_prefix(counts, n - 1)
    }
}

/// One group's contribution to the entropy numerator, in Q16:
/// `c * (log2(total) - log2(c))`. Empty groups contribute nothing.
pub open spec fn entropy_term(c: nat, total: nat) -> nat {
    if 1 <= c && c <= total {
        (c * (log2_q16(total) - log2_q16(c))) as nat
    } else {
        0
    }
}

/// The entropy numerator over the first `n` groups, in Q16: `total`
/// times the entropy in bits.
pub open spec fn entropy_prefix(counts: Seq<usize>, total: nat, n: int) -> nat
    decreases n,
{
    if n <= 0 {
        0
    } else {
        entropy_prefix(counts, total, n - 1) + entropy_term(counts[n - 1] as nat, total)
    }
}

/// The Q16 entropy of a distribution of group sizes: the numerator
/// divided by the total count, and zero for an empty distribution.
pub open spec fn entropy_of_counts(counts: Seq<usize>) -> nat {
    let total = sum_prefix(counts, counts.len() as int);
    if total == 0 {
        0
    } else {
        entropy_prefix(counts, total, counts.len() as int) / total
    }
}

/// The Q16 entropy of a guess against a candidate set.
pub open spec fn entropy_q16(g: Seq<u8>, cands: Seq<Word>) -> nat {
    entropy_of_counts(pattern_counts(g, cands))
}

/// The Q16 expected number of candidates that remain after the guess:
/// `sum of c^2 / N`, scaled by `Q_ONE`.
pub open spec fn expected_q16(g: Seq<u8>, cands: Seq<Word>) -> nat {
    if cands.len() == 0 {
        0
    } else {
        (sumsq_prefix(pattern_counts(g, cands), 243) * 65536) / cands.len()
    }
}

/// The size of the largest group: the worst case over all patterns.
pub open spec fn max_remaining(g: Seq<u8>, cands: Seq<Word>) -> nat {
    max_prefix(pattern_counts(g, cands), 243)
}

/// No group is larger than the candidate set.
pub proof fn lemma_count_le_len(g: Seq<u8>, cands: Seq<Word>, p: int)
    ensures
        count_pattern(g, cands, p) <= cands.len(),
    decreases cands.len(),
{
    if cands.len() > 0 {
        lemma_count_le_len(g, cands.drop_last(), p);
    }
}

/// Helper: appending one candidate raises by one the prefix sums of the
/// group sizes that cover its pattern.
proof fn lemma_counts_sum_push(g: Seq<u8>, cands: Seq<Word>, w: Word, n: int)
    requires
        0 <= n <= 243,
        cands.len() < usize::MAX,
    ensures
        sum_prefix(pattern_counts(g, cands.push(w)), n) == sum_prefix(pattern_counts(g, cands), n)
            + if pattern_value(g, w@) < n {
            1int
        } else {
            0int
        },
    decreases n,
{
    crate::pattern::lemma_pattern_value_bounds(g, w@);
    if n > 0 {
        lemma_counts_sum_push(g, cands, w, n - 1);
        assert(cands.push(w).drop_last() =~= cands);
        lemma_count_le_len(g, cands, n - 1);
        lemma_count_le_len(g, cands.push(w), n - 1);
        assert(pattern_counts(g, cands)[n - 1] as nat == count_pattern(g, cands, n - 1));
        assert(pattern_counts(g, cands.push(w))[n - 1] as nat == count_pattern(
            g,
            cands.push(w),
            n - 1,
        ));
        assert(count_pattern(g, cands.push(w), n - 1) == count_pattern(g, cands, n - 1)
            + if pattern_value(g, w@) == n - 1 {
            1nat
        } else {
            0nat
        });
    }
}

/// The 243 group sizes sum to the number of candidates.
pub proof fn lemma_counts_total(g: Seq<u8>, cands: Seq<Word>)
    requires
        cands.len() <= usize::MAX,
    ensures
        sum_prefix(pattern_counts(g, cands), 243) == cands.len(),
    decreases cands.len(),
{
    if cands.len() == 0 {
        lemma_sum_zero(g, cands, 243);
    } else {
        let prefix = cands.drop_last();
        lemma_counts_total(g, prefix);
        assert(prefix.push(cands.last()) =~= cands);
        lemma_counts_sum_push(g, prefix, cands.last(), 243);
        crate::pattern::lemma_pattern_value_bounds(g, cands.last()@);
    }
}

proof fn lemma_sum_zero(g: Seq<u8>, cands: Seq<Word>, n: int)
    requires
        cands.len() == 0,
        n <= 243,
    ensures
        sum_prefix(pattern_counts(g, cands), n) == 0,
    decreases n,
{
    if n > 0 {
        lemma_sum_zero(g, cands, n - 1);
        assert(pattern_counts(g, cands)[n - 1] as nat == count_pattern(g, cands, n - 1));
    }
}

/// Prefix sums grow with the prefix.
pub proof fn lemma_sum_prefix_mono(counts: Seq<usize>, i: int, n: int)
    requires
        i <= n,
    ensures
        sum_prefix(counts, i) <= sum_prefix(counts, n),
    decreases n - i,
{
    if i < n {
        lemma_sum_prefix_mono(counts, i, n - 1);
    }
}

/// The largest group is no larger than the sum of all groups.
pub proof fn lemma_max_le_sum(counts: Seq<usize>, n: int)
    ensures
        max_prefix(counts, n) <= sum_prefix(counts, n),
    decreases n,
{
    if n > 0 {
        lemma_max_le_sum(counts, n - 1);
    }
}

/// Pigeonhole: `n` groups of size at most the maximum cover the sum.
pub proof fn lemma_sum_le_n_max(counts: Seq<usize>, n: int)
    requires
        n >= 0,
    ensures
        sum_prefix(counts, n) <= n * max_prefix(counts, n),
    decreases n,
{
    if n > 0 {
        lemma_sum_le_n_max(counts, n - 1);
        lemma_max_prefix_mono(counts, n - 1, n);
        lemma_mul_inequality(
            max_prefix(counts, n - 1) as int,
            max_prefix(counts, n) as int,
            n - 1,
        );
        assert(counts[n - 1] as nat <= max_prefix(counts, n));
        assert((n - 1) * max_prefix(counts, n) + max_prefix(counts, n) == n * max_prefix(counts, n))
            by (nonlinear_arith);
        assert(sum_prefix(counts, n) == sum_prefix(counts, n - 1) + counts[n - 1] as nat);
        assert(sum_prefix(counts, n - 1) <= (n - 1) * max_prefix(counts, n));
    }
}

/// The prefix maximum grows with the prefix.
pub proof fn lemma_max_prefix_mono(counts: Seq<usize>, i: int, n: int)
    requires
        i <= n,
    ensures
        max_prefix(counts, i) <= max_prefix(counts, n),
    decreases n - i,
{
    if i < n {
        lemma_max_prefix_mono(counts, i, n - 1);
    }
}

/// Each group's entropy contribution is at most `c * log2(total)`.
proof fn lemma_entropy_term_bound(c: nat, total: nat)
    ensures
        entropy_term(c, total) <= c * log2_q16(total),
{
    if 1 <= c && c <= total {
        lemma_log2_q16_mono(c, total);
        assert(c * (log2_q16(total) - log2_q16(c)) <= c * log2_q16(total)) by (nonlinear_arith)
            requires
                c >= 0,
                0 <= log2_q16(c) <= log2_q16(total),
        ;
    } else {
        assert(c * log2_q16(total) >= 0) by (nonlinear_arith)
            requires
                c >= 0,
                log2_q16(total) >= 0,
        ;
    }
}

/// The entropy numerator is at most `sum * log2(total)`.
pub proof fn lemma_entropy_prefix_bound(counts: Seq<usize>, total: nat, n: int)
    requires
        n >= 0,
    ensures
        entropy_prefix(counts, total, n) <= sum_prefix(counts, n) * log2_q16(total),
    decreases n,
{
    if n > 0 {
        lemma_entropy_prefix_bound(counts, total, n - 1);
        lemma_entropy_term_bound(counts[n - 1] as nat, total);
        assert(sum_prefix(counts, n - 1) * log2_q16(total) + counts[n - 1] * log2_q16(total)
            == sum_prefix(counts, n) * log2_q16(total)) by (nonlinear_arith)
            requires
                sum_prefix(counts, n) == sum_prefix(counts, n - 1) + counts[n - 1],
        ;
    }
}

/// The entropy of any split of `N` candidates is at most `log2(N)`, in
/// Q16 — and it is never negative, being a quotient of naturals.
///
/// Law: `0 <= H <= log2(|candidates|)` for every guess and candidate set.
pub proof fn lemma_entropy_le_log(g: Seq<u8>, cands: Seq<Word>)
    requires
        1 <= cands.len() <= usize::MAX,
    ensures
        entropy_q16(g, cands) <= log2_q16(cands.len()),
{
    let counts = pattern_counts(g, cands);
    lemma_counts_total(g, cands);
    lemma_entropy_prefix_bound(counts, cands.len(), 243);
    lemma_multiply_divide_le(
        entropy_prefix(counts, cands.len(), 243) as int,
        cands.len() as int,
        log2_q16(cands.len()) as int,
    );
    assert(cands.len() * log2_q16(cands.len()) == log2_q16(cands.len()) * cands.len())
        by (nonlinear_arith);
}

/// If every candidate produces the same pattern, the entropy is zero.
///
/// Law: a guess that cannot distinguish the candidates gains no
/// information.
pub proof fn lemma_entropy_single_pattern(g: Seq<u8>, cands: Seq<Word>, p0: int)
    requires
        1 <= cands.len() <= usize::MAX,
        forall|i: int| 0 <= i < cands.len() ==> pattern_value(g, #[trigger] cands[i]@) == p0,
    ensures
        entropy_q16(g, cands) == 0,
{
    let counts = pattern_counts(g, cands);
    let total = cands.len();
    lemma_counts_total(g, cands);
    lemma_count_single(g, cands, p0);
    lemma_entropy_prefix_single(g, cands, p0, 243);
    assert(entropy_prefix(counts, total, 243) / total == 0) by {
        assert(entropy_prefix(counts, total, 243) == 0);
    }
}

/// With a single pattern, every group is empty or everything.
proof fn lemma_count_single(g: Seq<u8>, cands: Seq<Word>, p0: int)
    requires
        forall|i: int| 0 <= i < cands.len() ==> pattern_value(g, #[trigger] cands[i]@) == p0,
    ensures
        count_pattern(g, cands, p0) == cands.len(),
        forall|p: int| p != p0 ==> count_pattern(g, cands, p) == 0,
    decreases cands.len(),
{
    if cands.len() > 0 {
        lemma_count_single(g, cands.drop_last(), p0);
        assert forall|p: int| p != p0 implies count_pattern(g, cands, p) == 0 by {
            assert(count_pattern(g, cands.drop_last(), p) == 0);
        }
    }
}

proof fn lemma_entropy_prefix_single(g: Seq<u8>, cands: Seq<Word>, p0: int, n: int)
    requires
        1 <= cands.len() <= usize::MAX,
        forall|i: int| 0 <= i < cands.len() ==> pattern_value(g, #[trigger] cands[i]@) == p0,
        0 <= n <= 243,
    ensures
        entropy_prefix(pattern_counts(g, cands), cands.len(), n) == 0,
    decreases n,
{
    lemma_count_single(g, cands, p0);
    if n > 0 {
        lemma_entropy_prefix_single(g, cands, p0, n - 1);
        lemma_count_le_len(g, cands, n - 1);
        let c = pattern_counts(g, cands)[n - 1] as nat;
        assert(c == count_pattern(g, cands, n - 1));
        if n - 1 == p0 {
            assert(c == cands.len());
            assert(entropy_term(c, cands.len()) == 0);
        } else {
            assert(c == 0);
        }
    }
}

/// Group the candidates by the pattern each produces against the guess:
/// entry `p` of the result is the number of candidates with pattern `p`.
pub fn group_by_pattern(guess: &Word, candidates: &[Word]) -> (r: Vec<usize>)
    ensures
        r@ =~= pattern_counts(guess@, candidates@),
        r@.len() == 243,
        candidates@.len() <= usize::MAX,
{
    let mut counts: Vec<usize> = Vec::new();
    let mut p: usize = 0;
    while p < 243
        invariant
            counts@.len() == p,
            0 <= p <= 243,
            forall|q: int| 0 <= q < p ==> #[trigger] counts@[q] == 0,
        decreases 243 - p,
    {
        counts.push(0);
        p += 1;
    }
    proof {
        lemma_counts_zero_prefix(guess@, candidates@.take(0), 243);
        assert(forall|q: int|
            0 <= q < 243 ==> #[trigger] counts@[q] == count_pattern(
                guess@,
                candidates@.take(0),
                q,
            ));
    }
    let n = candidates.len();
    let mut i: usize = 0;
    while i < n
        invariant
            n == candidates@.len(),
            0 <= i <= n,
            counts@.len() == 243,
            forall|q: int|
                0 <= q < 243 ==> #[trigger] counts@[q] == count_pattern(
                    guess@,
                    candidates@.take(i as int),
                    q,
                ),
        decreases n - i,
    {
        let pat = Pattern::calculate(guess, &candidates[i]);
        let v = pat.value() as usize;
        proof {
            crate::pattern::lemma_pattern_value_bounds(guess@, candidates@[i as int]@);
            lemma_count_le_len(guess@, candidates@.take(i as int), v as int);
            assert(candidates@.take(i as int).len() <= candidates@.len());
            assert(candidates@.take(i + 1).drop_last() =~= candidates@.take(i as int));
        }
        let c = counts[v];
        counts.set(v, c + 1);
        proof {
            assert forall|q: int|
                0 <= q < 243 implies #[trigger] counts@[q] == count_pattern(
                guess@,
                candidates@.take(i + 1),
                q,
            ) by {
                assert(count_pattern(guess@, candidates@.take(i + 1), q) == count_pattern(
                    guess@,
                    candidates@.take(i as int),
                    q,
                ) + if pattern_value(guess@, candidates@[i as int]@) == q {
                    1nat
                } else {
                    0nat
                });
            }
        }
        i += 1;
    }
    proof {
        assert(candidates@.take(n as int) =~= candidates@);
    }
    counts
}

proof fn lemma_counts_zero_prefix(g: Seq<u8>, cands: Seq<Word>, n: int)
    requires
        cands.len() == 0,
    ensures
        forall|q: int| #![trigger count_pattern(g, cands, q)] count_pattern(g, cands, q) == 0,
{
}

/// The Q16 Shannon entropy of a distribution of group sizes. The counts
/// may come from any grouping; only sizes matter. The total must fit
/// the machine word, as it would have to for the counts to describe a
/// real candidate set.
pub fn shannon_entropy(counts: &Vec<usize>) -> (r: u64)
    requires
        sum_prefix(counts@, counts@.len() as int) <= usize::MAX,
    ensures
        r == entropy_of_counts(counts@),
{
    let n = counts.len();
    let mut total: usize = 0;
    let mut i: usize = 0;
    while i < n
        invariant
            n == counts@.len(),
            0 <= i <= n,
            total == sum_prefix(counts@, i as int),
            sum_prefix(counts@, n as int) <= usize::MAX,
        decreases n - i,
    {
        proof {
            lemma_sum_prefix_mono(counts@, i + 1, n as int);
        }
        total = total + counts[i];
        i += 1;
    }
    if total == 0 {
        proof {
            assert(entropy_of_counts(counts@) == 0);
        }
        return 0;
    }
    let num = entropy_numerator(counts, total);
    proof {
        lemma_multiply_divide_le(
            num as int,
            total as int,
            log2_q16(total as nat) as int,
        );
        assert(total * log2_q16(total as nat) == log2_q16(total as nat) * total)
            by (nonlinear_arith);
        lemma_log2_q16_u64_bound(total as nat);
    }
    (num / (total as u128)) as u64
}

/// The Q16 entropy numerator of a distribution: the sum of the groups'
/// contributions against the given total.
fn entropy_numerator(counts: &Vec<usize>, total: usize) -> (r: u128)
    requires
        total as nat == sum_prefix(counts@, counts@.len() as int),
        total >= 1,
    ensures
        r == entropy_prefix(counts@, total as nat, counts@.len() as int),
        r <= total * log2_q16(total as nat),
{
    let log_total = log2q16(total as u64);
    let n = counts.len();
    let mut num: u128 = 0;
    let mut i: usize = 0;
    while i < n
        invariant
            n == counts@.len(),
            0 <= i <= n,
            total as nat == sum_prefix(counts@, n as int),
            total >= 1,
            log_total == log2_q16(total as nat),
            log_total < 64 * 65536,
            num == entropy_prefix(counts@, total as nat, i as int),
            num <= sum_prefix(counts@, i as int) * log2_q16(total as nat),
        decreases n - i,
    {
        let c = counts[i];
        proof {
            lemma_sum_prefix_mono(counts@, i + 1, n as int);
            assert(c <= total);
            lemma_entropy_term_bound(c as nat, total as nat);
            assert(sum_prefix(counts@, i as int) * log2_q16(total as nat) + c * log2_q16(
                total as nat,
            ) == sum_prefix(counts@, i + 1) * log2_q16(total as nat)) by (nonlinear_arith)
                requires
                    sum_prefix(counts@, i + 1) == sum_prefix(counts@, i as int) + c,
            ;
            lemma_mul_inequality(
                sum_prefix(counts@, i + 1) as int,
                total as int,
                log2_q16(total as nat) as int,
            );
            assert(total * log2_q16(total as nat) < 0x1_0000_0000_0000_0000u128 * 0x4_0000_0000)
                by (nonlinear_arith)
                requires
                    total < 0x1_0000_0000_0000_0000,
                    log2_q16(total as nat) < 0x4_0000_0000,
            ;
        }
        if c > 0 {
            let log_c = log2q16(c as u64);
            proof {
                lemma_log2_q16_mono(c as nat, total as nat);
                assert((c as u128) * ((log_total - log_c) as u128) == entropy_term(
                    c as nat,
                    total as nat,
                )) by (nonlinear_arith)
                    requires
                        1 <= c <= total,
                        log_c == log2_q16(c as nat),
                        log_total == log2_q16(total as nat),
                        log_c <= log_total,
                        entropy_term(c as nat, total as nat) == (c * (log2_q16(total as nat)
                            - log2_q16(c as nat))) as nat,
                ;
            }
            num = num + (c as u128) * ((log_total - log_c) as u128);
        }
        i += 1;
    }
    num
}

/// Two candidates a guess tells apart give exactly one bit.
///
/// Law: the entropy of a guess against two evenly split candidates is
/// exactly 1.0 bit — one whole `Q_ONE` in Q16.
pub proof fn lemma_entropy_even_split(g: Seq<u8>, cands: Seq<Word>)
    requires
        cands.len() == 2,
        pattern_value(g, cands[0]@) != pattern_value(g, cands[1]@),
    ensures
        entropy_q16(g, cands) == 65536,
{
    let p0 = pattern_value(g, cands[0]@);
    let p1 = pattern_value(g, cands[1]@);
    crate::pattern::lemma_pattern_value_bounds(g, cands[0]@);
    crate::pattern::lemma_pattern_value_bounds(g, cands[1]@);
    assert(cands.drop_last().len() == 1);
    assert(cands.drop_last().drop_last().len() == 0);
    assert(cands.drop_last()[0] == cands[0]);
    assert(cands.last() == cands[1]);
    assert forall|p: int| 0 <= p < 243 implies #[trigger] count_pattern(g, cands, p) == (if p == p0 {
        1nat
    } else {
        0nat
    }) + (if p == p1 {
        1nat
    } else {
        0nat
    }) by {
        assert(count_pattern(g, cands.drop_last().drop_last(), p) == 0);
        assert(count_pattern(g, cands.drop_last(), p) == count_pattern(
            g,
            cands.drop_last().drop_last(),
            p,
        ) + if pattern_value(g, cands.drop_last().last()@) == p {
            1nat
        } else {
            0nat
        });
        assert(cands.drop_last().last() == cands[0]);
    }
    lemma_counts_total(g, cands);
    assert(entropy_term(1, 2) == 65536) by {
        crate::qlog::lemma_log2_q16_pow2(0);
        crate::qlog::lemma_log2_q16_pow2(1);
        assert(vstd::arithmetic::power2::pow2(0) == 1
            && vstd::arithmetic::power2::pow2(1) == 2) by {
            vstd::arithmetic::power2::lemma2_to64();
        }
    }
    lemma_entropy_prefix_two(g, cands, p0, p1, 243);
}

/// The entropy numerator of a two-way even split, summed up to `n`.
proof fn lemma_entropy_prefix_two(g: Seq<u8>, cands: Seq<Word>, p0: int, p1: int, n: int)
    requires
        cands.len() == 2,
        0 <= p0 < 243,
        0 <= p1 < 243,
        p0 != p1,
        forall|p: int|
            0 <= p < 243 ==> #[trigger] count_pattern(g, cands, p) == (if p == p0 {
                1nat
            } else {
                0nat
            }) + (if p == p1 {
                1nat
            } else {
                0nat
            }),
        0 <= n <= 243,
    ensures
        entropy_prefix(pattern_counts(g, cands), 2, n) == (if p0 < n {
            entropy_term(1, 2)
        } else {
            0nat
        }) + (if p1 < n {
            entropy_term(1, 2)
        } else {
            0nat
        }),
    decreases n,
{
    if n > 0 {
        lemma_entropy_prefix_two(g, cands, p0, p1, n - 1);
        lemma_count_le_len(g, cands, n - 1);
        assert(pattern_counts(g, cands)[n - 1] as nat == count_pattern(g, cands, n - 1));
        assert(entropy_term(0, 2) == 0);
    }
}

/// Everything one pass over the pattern groups yields about a guess.
#[derive(Debug, Clone, Copy, PartialEq, Eq, Structural)]
pub struct GuessMetrics {
    /// Shannon entropy of the split, in Q16 bits.
    pub entropy: u64,
    /// Expected number of candidates left after the guess, in Q16.
    pub expected_remaining: u128,
    /// Size of the largest group: the worst case.
    pub max_partition: usize,
}

/// The sum of squares never exceeds the square of the sum.
pub proof fn lemma_sumsq_le_sum_sq(counts: Seq<usize>, n: int)
    ensures
        sumsq_prefix(counts, n) <= sum_prefix(counts, n) * sum_prefix(counts, n),
    decreases n,
{
    if n > 0 {
        lemma_sumsq_le_sum_sq(counts, n - 1);
        let s = sum_prefix(counts, n - 1);
        let c = counts[n - 1] as nat;
        assert(s * s + c * c <= (s + c) * (s + c)) by (nonlinear_arith)
            requires
                s >= 0,
                c >= 0,
        ;
    }
}

/// The largest of the first `n` group sizes.
pub(crate) fn max_of_counts(counts: &Vec<usize>) -> (r: usize)
    ensures
        r == max_prefix(counts@, counts@.len() as int),
{
    let n = counts.len();
    let mut r: usize = 0;
    let mut i: usize = 0;
    while i < n
        invariant
            n == counts@.len(),
            0 <= i <= n,
            r == max_prefix(counts@, i as int),
        decreases n - i,
    {
        if counts[i] > r {
            r = counts[i];
        }
        i += 1;
    }
    r
}

/// The sum of squares of the group sizes, exactly.
fn sumsq_of_counts(counts: &Vec<usize>) -> (r: u128)
    requires
        sum_prefix(counts@, counts@.len() as int) <= usize::MAX,
    ensures
        r == sumsq_prefix(counts@, counts@.len() as int),
{
    let ghost top = usize::MAX as nat;
    let n = counts.len();
    let mut r: u128 = 0;
    let mut i: usize = 0;
    while i < n
        invariant
            n == counts@.len(),
            0 <= i <= n,
            sum_prefix(counts@, n as int) <= top,
            top == usize::MAX as nat,
            r == sumsq_prefix(counts@, i as int),
            r <= sum_prefix(counts@, i as int) * top,
        decreases n - i,
    {
        let c = counts[i];
        proof {
            lemma_sum_prefix_mono(counts@, i + 1, n as int);
            assert(c as nat <= top);
            assert(c * c <= c * top) by (nonlinear_arith)
                requires
                    0 <= c,
                    c as nat <= top,
            ;
            assert(sum_prefix(counts@, i as int) * top + c * top == sum_prefix(counts@, i + 1)
                * top) by (nonlinear_arith)
                requires
                    sum_prefix(counts@, i + 1) == sum_prefix(counts@, i as int) + c,
            ;
            assert(sum_prefix(counts@, i + 1) * top <= top * top) by (nonlinear_arith)
                requires
                    sum_prefix(counts@, i + 1) <= top,
                    top >= 0,
            ;
            assert(top * top < u128::MAX) by (nonlinear_arith)
                requires
                    top < 0x1_0000_0000_0000_0000,
            ;
        }
        r = r + (c as u128) * (c as u128);
        i += 1;
    }
    r
}

/// The expected remaining count in Q16: `sum_sq * 65536 / total`,
/// computed without overflowing by splitting the division.
fn expected_from(sum_sq: u128, total: usize) -> (r: u128)
    requires
        total >= 1,
        sum_sq <= total * total,
    ensures
        r == (sum_sq * 65536) as int / (total as int),
{
    let t = total as u128;
    let q = sum_sq / t;
    let rem = sum_sq % t;
    proof {
        lemma_fundamental_div_mod(sum_sq as int, t as int);
        lemma_multiply_divide_le(sum_sq as int, total as int, total as int);
        assert(q * 65536 + rem * 65536 <= (q + rem) * 65536) by (nonlinear_arith);
        assert(sum_sq * 65536 == (q * 65536) * t + rem * 65536) by (nonlinear_arith)
            requires
                sum_sq == t * q + rem,
        ;
        vstd::arithmetic::div_mod::lemma_hoist_over_denominator(
            (rem * 65536) as int,
            (q * 65536) as int,
            total as nat,
        );
    }
    q * 65536 + (rem * 65536) / t
}

/// Entropy, expected remaining count and worst case for one guess, from
/// a single grouping pass.
pub fn calculate_metrics(guess: &Word, candidates: &[Word]) -> (m: GuessMetrics)
    ensures
        m.entropy == entropy_q16(guess@, candidates@),
        m.expected_remaining == expected_q16(guess@, candidates@),
        m.max_partition == max_remaining(guess@, candidates@),
        m.max_partition <= candidates@.len(),
{
    let counts = group_by_pattern(guess, candidates);
    proof {
        lemma_counts_total(guess@, candidates@);
        lemma_max_le_sum(counts@, 243);
    }
    let entropy = shannon_entropy(&counts);
    let max_partition = max_of_counts(&counts);
    let sum_sq = sumsq_of_counts(&counts);
    proof {
        lemma_sumsq_le_sum_sq(counts@, 243);
    }
    let expected_remaining = if candidates.len() == 0 {
        0
    } else {
        expected_from(sum_sq, candidates.len())
    };
    GuessMetrics { entropy, expected_remaining, max_partition }
}

/// The Q16 entropy of a guess against a candidate set: zero when no
/// candidates remain, and otherwise the entropy of the pattern groups.
pub fn calculate_entropy(guess: &Word, candidates: &[Word]) -> (r: u64)
    ensures
        r == entropy_q16(guess@, candidates@),
        candidates@.len() >= 1 ==> r <= log2_q16(candidates@.len() as nat),
{
    let counts = group_by_pattern(guess, candidates);
    proof {
        lemma_counts_total(guess@, candidates@);
        if candidates@.len() >= 1 {
            lemma_entropy_le_log(guess@, candidates@);
        }
    }
    shannon_entropy(&counts)
}

/// The Q16 entropy of one pool entry against the candidates.
pub open spec fn pool_entropy(pool: Seq<Word>, cands: Seq<Word>, i: int) -> nat {
    entropy_q16(pool[i]@, cands)
}

/// Whether pool entry `i` attains the highest entropy, and is the last
/// entry in pool order to do so.
pub open spec fn is_last_max_entropy(pool: Seq<Word>, cands: Seq<Word>, i: int) -> bool {
    &&& 0 <= i < pool.len()
    &&& forall|j: int| 0 <= j < pool.len() ==> #[trigger] pool_entropy(pool, cands, j)
        <= pool_entropy(pool, cands, i)
    &&& forall|j: int| i < j < pool.len() ==> #[trigger] pool_entropy(pool, cands, j)
        < pool_entropy(pool, cands, i)
}

/// Pick the guess with the highest Q16 entropy against the candidates,
/// together with that entropy; the last maximum in pool order wins
/// ties. Returns nothing only for an empty guess pool.
pub fn select_best_guess<'a>(guess_pool: &'a [Word], candidates: &[Word]) -> (r: Option<
    (&'a Word, u64),
>)
    ensures
        r is Some <==> guess_pool@.len() >= 1,
        r matches Some((w, e)) ==> exists|i: int|
            {
                &&& #[trigger] is_last_max_entropy(guess_pool@, candidates@, i)
                &&& *w == guess_pool@[i]
                &&& e == pool_entropy(guess_pool@, candidates@, i)
            },
{
    let n = guess_pool.len();
    if n == 0 {
        return None;
    }
    let mut best_i: usize = 0;
    let mut best_e: u64 = calculate_entropy(&guess_pool[0], candidates);
    let mut i: usize = 1;
    while i < n
        invariant
            n == guess_pool@.len(),
            1 <= i <= n,
            0 <= best_i < i,
            best_e == pool_entropy(guess_pool@, candidates@, best_i as int),
            forall|j: int|
                0 <= j < i ==> #[trigger] pool_entropy(guess_pool@, candidates@, j) <= best_e,
            forall|j: int|
                best_i < j < i ==> #[trigger] pool_entropy(guess_pool@, candidates@, j) < best_e,
        decreases n - i,
    {
        let e = calculate_entropy(&guess_pool[i], candidates);
        if e >= best_e {
            best_i = i;
            best_e = e;
        }
        i += 1;
    }
    proof {
        assert(is_last_max_entropy(guess_pool@, candidates@, best_i as int));
    }
    Some((&guess_pool[best_i], best_e))
}

} // verus!
