//! Benchmarking the solver over many targets.
//!
//! Plays every target word to the end and tallies how many guesses
//! each took. Timing and rate figures are the caller's business; this
//! module accounts for the guesses themselves.

use vstd::prelude::*;

use crate::engine::Solver;
use crate::entropy::sum_prefix;
use crate::pattern::Pattern;
use crate::word::Word;

verus! {

/// The tally of a benchmark run.
pub struct BenchmarkResult {
    /// How many targets were played.
    pub total_words: usize,
    /// Guesses spent over all targets.
    pub total_guesses: usize,
    /// The fewest guesses any target took; `usize::MAX` when no target
    /// was played.
    pub min_guesses: usize,
    /// The most guesses any target took; zero when no target was played.
    pub max_guesses: usize,
    /// Entry `g` counts the targets that took `g` guesses; guesses per
    /// target run from one to six, so entry zero stays zero.
    pub distribution: Vec<usize>,
}

/// Play one target to the end: up to six guesses, stopping early on a
/// perfect pattern or when no candidates remain. Returns how many
/// guesses were spent.
fn solve_one(solver: &Solver, target: &Word, forced_first: Option<&Word>) -> (g: usize)
    ensures
        1 <= g <= 6,
{
    let mut history: Vec<(Word, Pattern)> = Vec::new();
    let mut guesses: usize = 0;
    loop
        invariant
            0 <= guesses <= 5,
        decreases 6 - guesses,
    {
        guesses = guesses + 1;
        let forced_now = if guesses == 1 {
            forced_first
        } else {
            None
        };
        let guess = match forced_now {
            Some(f) => *f,
            None => {
                match solver.next_guess(&history) {
                    Some(g) => g,
                    None => {
                        return guesses;
                    },
                }
            },
        };
        let pattern = Pattern::calculate(&guess, target);
        history.push((guess, pattern));
        if pattern.is_perfect() || guesses >= 6 {
            return guesses;
        }
    }
}

/// Every prefix element is at most the prefix sum.
proof fn lemma_elem_le_sum(s: Seq<usize>, j: int, n: int)
    requires
        0 <= j < n <= s.len(),
    ensures
        s[j] <= sum_prefix(s, n),
    decreases n,
{
    if j < n - 1 {
        lemma_elem_le_sum(s, j, n - 1);
    }
}

/// Adding one to an entry adds one to the prefix sum that covers it.
proof fn lemma_sum_update(s: Seq<usize>, j: int, v: usize, n: int)
    requires
        0 <= j < s.len(),
        0 <= n <= s.len(),
        v == s[j] + 1,
    ensures
        sum_prefix(s.update(j, v), n) == sum_prefix(s, n) + if j < n {
            1int
        } else {
            0int
        },
    decreases n,
{
    if n > 0 {
        lemma_sum_update(s, j, v, n - 1);
    }
}

/// Play the solver against every target and tally the guess counts.
/// With `forced_first`, that word opens every game in place of the
/// solver's own first guess.
pub fn run_benchmark(
    solver: &Solver,
    target_words: &[Word],
    forced_first: Option<&Word>,
) -> (r: BenchmarkResult)
    requires
        target_words@.len() * 6 <= usize::MAX,
    ensures
        r.total_words == target_words@.len(),
        r.distribution@.len() == 7,
        r.distribution@[0] == 0,
        sum_prefix(r.distribution@, 7) == r.total_words,
        r.total_words >= 1 ==> {
            &&& 1 <= r.min_guesses <= r.max_guesses <= 6
            &&& r.total_words <= r.total_guesses <= 6 * r.total_words
        },
        r.total_words == 0 ==> {
            &&& r.total_guesses == 0
            &&& r.min_guesses == usize::MAX
            &&& r.max_guesses == 0
        },
{
    let n = target_words.len();
    let mut total_guesses: usize = 0;
    let mut min_guesses: usize = usize::MAX;
    let mut max_guesses: usize = 0;
    let mut distribution: Vec<usize> = Vec::new();
    let mut d: usize = 0;
    while d < 7
        invariant
            distribution@.len() == d,
            0 <= d <= 7,
            forall|q: int| 0 <= q < d ==> #[trigger] distribution@[q] == 0,
        decreases 7 - d,
    {
        distribution.push(0);
        d += 1;
    }
    proof {
        lemma_sum_zero_counts(distribution@, 7);
    }
    let mut i: usize = 0;
    while i < n
        invariant
            n == target_words@.len(),
            n * 6 <= usize::MAX,
            0 <= i <= n,
            distribution@.len() == 7,
            distribution@[0] == 0,
            sum_prefix(distribution@, 7) == i,
            i <= total_guesses <= 6 * i,
            i >= 1 ==> 1 <= min_guesses <= max_guesses <= 6,
            i == 0 ==> total_guesses == 0 && min_guesses == usize::MAX && max_guesses == 0,
        decreases n - i,
    {
        let g = solve_one(solver, &target_words[i], forced_first);
        proof {
            lemma_elem_le_sum(distribution@, g as int, 7);
            lemma_sum_update(distribution@, g as int, (distribution@[g as int] + 1) as usize, 7);
        }
        total_guesses = total_guesses + g;
        if g < min_guesses {
            min_guesses = g;
        }
        if g > max_guesses {
            max_guesses = g;
        }
        let count = distribution[g];
        distribution.set(g, count + 1);
        i += 1;
    }
    BenchmarkResult { total_words: n, total_guesses, min_guesses, max_guesses, distribution }
}

proof fn lemma_sum_zero_counts(s: Seq<usize>, n: int)
    requires
        0 <= n <= s.len(),
        forall|q: int| 0 <= q < s.len() ==> #[trigger] s[q] == 0,
    ensures
        sum_prefix(s, n) == 0,
    decreases n,
{
    if n > 0 {
        lemma_sum_zero_counts(s, n - 1);
    }
}

} // verus!
