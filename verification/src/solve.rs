//! Solving a known target word.
//!
//! Drives the solver against a given target: each turn asks for the
//! next guess, computes the true feedback, extends the history and
//! records the step, until the target is hit or the guess budget runs
//! out.

use vstd::prelude::*;
use vstd::string::StrSliceExecFns;
use vstd::string::StringSliceAdditionalSpecFns;
use vstd::utf8::encode_utf8;

use crate::engine::Solver;
use crate::engine::lemma_candidates_nonincreasing;
use crate::entropy::calculate_metrics;
use crate::pattern::PERFECT_VALUE;
use crate::pattern::Pattern;
use crate::pattern::lemma_perfect_means_equal;
use crate::pattern::pattern_value;
use crate::word::Word;
use crate::word::lower_bytes;
use crate::word::word_ok;

verus! {

/// What to solve and how many guesses are allowed.
pub struct SolveConfig {
    /// The target word's text.
    pub target: String,
    /// The guess budget.
    pub max_guesses: usize,
}

impl SolveConfig {
    /// A configuration for one target with the standard six-guess budget.
    pub fn new(target: String) -> (r: Self)
        ensures
            r.target@ == target@,
            r.max_guesses == 6,
    {
        SolveConfig { target, max_guesses: 6 }
    }
}

/// One turn of a solving run.
pub struct GuessStep {
    /// The guessed word's text.
    pub word: String,
    /// The feedback the target gave for this guess.
    pub pattern: Pattern,
    /// Candidates before the guess.
    pub candidates_before: usize,
    /// Candidates after the feedback was applied.
    pub candidates_after: usize,
    /// The guess's Q16 entropy against the candidates, when more than
    /// one candidate remained.
    pub entropy: Option<u64>,
    /// The Q16 expected remaining count for the guess, when more than
    /// one candidate remained.
    pub expected_remaining: Option<u128>,
}

/// The outcome of a solving run.
pub struct SolveResult {
    /// Whether the target was hit within the budget.
    pub success: bool,
    /// The recorded turns, in order.
    pub guesses: Vec<GuessStep>,
    /// The target's text, as configured.
    pub target: String,
}

/// Solve for a specific target word. Fails when the target is not a
/// valid word, or when a turn finds the history self-contradictory;
/// otherwise reports the turns taken, successful or not.
pub fn solve_word(config: SolveConfig, solver: &Solver) -> (r: Result<SolveResult, String>)
    ensures
        !word_ok(encode_utf8(config.target@)) ==> r is Err,
        r matches Ok(res) ==> {
            &&& word_ok(encode_utf8(config.target@))
            &&& res.target@ == config.target@
            &&& res.guesses@.len() <= config.max_guesses
            &&& forall|k: int|
                0 <= k < res.guesses@.len() ==> (#[trigger] res.guesses@[k]).candidates_after
                    <= res.guesses@[k].candidates_before
            &&& res.success == (res.guesses@.len() >= 1 && res.guesses@.last().pattern@
                == PERFECT_VALUE)
            &&& (res.success || res.guesses@.len() == config.max_guesses)
            &&& res.success ==> res.guesses@.last().word@ == lower_bytes(
                encode_utf8(config.target@),
            ).map_values(|b: u8| b as char)
            &&& forall|k: int|
                0 <= k < res.guesses@.len() ==> (#[trigger] res.guesses@[k]).pattern@
                    == pattern_value(
                    res.guesses@[k].word@.map_values(|c: char| c as u8),
                    lower_bytes(encode_utf8(config.target@)),
                )
        },
{
    let target_word = match Word::new(config.target.as_str()) {
        Ok(w) => w,
        Err(_) => {
            return Err("invalid target word".to_owned());
        },
    };
    let mut history: Vec<(Word, Pattern)> = Vec::new();
    let mut steps: Vec<GuessStep> = Vec::new();
    let mut t: usize = 0;
    while t < config.max_guesses
        invariant
            target_word@ == lower_bytes(encode_utf8(config.target@)),
            word_ok(encode_utf8(config.target@)),
            steps@.len() == t,
            0 <= t <= config.max_guesses,
            forall|k: int|
                0 <= k < t ==> (#[trigger] steps@[k]).candidates_after
                    <= steps@[k].candidates_before,
            forall|k: int| 0 <= k < t ==> (#[trigger] steps@[k]).pattern@ != PERFECT_VALUE,
            forall|k: int|
                0 <= k < t ==> (#[trigger] steps@[k]).pattern@ == pattern_value(
                    steps@[k].word@.map_values(|c: char| c as u8),
                    target_word@,
                ),
        decreases config.max_guesses - t,
    {
        let candidates_before = solver.count_candidates(&history);
        let guess = match solver.next_guess(&history) {
            Some(g) => g,
            None => {
                return Err("no candidates remain".to_owned());
            },
        };
        let (entropy, expected_remaining) = if candidates_before > 1 {
            let current = solver.get_candidates(&history);
            let m = calculate_metrics(&guess, current.as_slice());
            (Some(m.entropy), Some(m.expected_remaining))
        } else {
            (None, None)
        };
        let pattern = Pattern::calculate(&guess, &target_word);
        let ghost old_history = history@;
        history.push((guess, pattern));
        let candidates_after = solver.count_candidates(&history);
        proof {
            assert(history@ == old_history.push((guess, pattern)));
            lemma_candidates_nonincreasing(
                solver.spec_answer_words(),
                old_history,
                (guess, pattern),
            );
        }
        let word_text = guess.text();
        proof {
            use_type_invariant(guess);
            assert(word_text@.map_values(|c: char| c as u8) =~= guess@);
        }
        steps.push(
            GuessStep {
                word: word_text,
                pattern,
                candidates_before,
                candidates_after,
                entropy,
                expected_remaining,
            },
        );
        if pattern.is_perfect() {
            proof {
                use_type_invariant(guess);
                use_type_invariant(target_word);
                lemma_perfect_means_equal(guess@, target_word@);
            }
            return Ok(SolveResult { success: true, guesses: steps, target: config.target });
        }
        t += 1;
    }
    Ok(SolveResult { success: false, guesses: steps, target: config.target })
}

} // verus!
