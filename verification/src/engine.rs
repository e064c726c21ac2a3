//! The solver engine.
//!
//! A `Solver` holds a guess pool, an answer pool and a strategy, all
//! fixed at construction, and answers queries against a caller-owned
//! history of (guess, observed pattern) pairs. The candidate set is
//! never stored: it is the answer pool filtered by the history, anew on
//! every query. An empty candidate set means the history contradicts
//! itself; that is reported as no result, never as a failure.

use vstd::prelude::*;

use crate::pattern::Pattern;
use crate::pattern::pattern_value;
use crate::strategy::StrategyType;
use crate::strategy::spelled_in_pool;
use crate::strategy::strategy_pick;
use crate::strategy::strategy_some;
use crate::word::Word;

verus! {

/// Whether candidate `c` would have produced every observed pattern in
/// the history.
pub open spec fn consistent_with_history(c: Word, history: Seq<(Word, Pattern)>) -> bool {
    forall|k: int|
        0 <= k < history.len() ==> pattern_value((#[trigger] history[k]).0@, c@) == history[k].1@
}

/// The candidates: the answers consistent with the whole history.
pub open spec fn filter_spec(answers: Seq<Word>, history: Seq<(Word, Pattern)>) -> Seq<Word> {
    answers.filter(|c: Word| consistent_with_history(c, history))
}

/// The letters of "salet", the precomputed opening guess.
pub open spec fn salet() -> Seq<u8> {
    seq![115u8, 97u8, 108u8, 101u8, 116u8]
}

/// Filtering never grows a sequence under a stronger predicate.
proof fn lemma_filter_len_implies<A>(s: Seq<A>, p1: spec_fn(A) -> bool, p0: spec_fn(A) -> bool)
    requires
        forall|x: A| #[trigger] p1(x) ==> p0(x),
    ensures
        s.filter(p1).len() <= s.filter(p0).len(),
    decreases s.len(),
{
    reveal(Seq::filter);
    if s.len() > 0 {
        lemma_filter_len_implies(s.drop_last(), p1, p0);
    }
}

/// Filtering a sequence whose members all satisfy the predicate
/// returns it unchanged.
proof fn lemma_filter_all<A>(s: Seq<A>, p: spec_fn(A) -> bool)
    requires
        forall|i: int| 0 <= i < s.len() ==> #[trigger] p(s[i]),
    ensures
        s.filter(p) == s,
    decreases s.len(),
{
    reveal(Seq::filter);
    if s.len() > 0 {
        lemma_filter_all(s.drop_last(), p);
        assert(s.drop_last().push(s.last()) =~= s);
    }
}

/// Extending the history never enlarges the candidate set.
///
/// Law: the candidate count after appending a (guess, pattern) entry is
/// at most the candidate count before.
pub proof fn lemma_candidates_nonincreasing(
    answers: Seq<Word>,
    history: Seq<(Word, Pattern)>,
    entry: (Word, Pattern),
)
    ensures
        filter_spec(answers, history.push(entry)).len() <= filter_spec(answers, history).len(),
{
    let p1 = |c: Word| consistent_with_history(c, history.push(entry));
    let p0 = |c: Word| consistent_with_history(c, history);
    assert forall|c: Word| #[trigger] p1(c) implies p0(c) by {
        assert forall|k: int|
            0 <= k < history.len() implies pattern_value((#[trigger] history[k]).0@, c@)
            == history[k].1@ by {
            assert(history.push(entry)[k] == history[k]);
        }
    }
    lemma_filter_len_implies(answers, p1, p0);
}

/// Filtering the candidates by the same history again changes nothing.
///
/// Law: candidate filtering is idempotent.
pub proof fn lemma_filter_idempotent(answers: Seq<Word>, history: Seq<(Word, Pattern)>)
    ensures
        filter_spec(filter_spec(answers, history), history) == filter_spec(answers, history),
{
    let p = |c: Word| consistent_with_history(c, history);
    let once = answers.filter(p);
    once.filter_lemma(p);
    lemma_filter_all(once, p);
}

/// The solving engine: pools and a strategy fixed at construction.
pub struct Solver {
    strategy: StrategyType,
    all_words: Vec<Word>,
    answer_words: Vec<Word>,
}

impl Solver {
    /// The strategy the solver was built with.
    pub closed spec fn spec_strategy(&self) -> StrategyType {
        self.strategy
    }

    /// The guess pool the solver was built with.
    pub closed spec fn spec_all_words(&self) -> Seq<Word> {
        self.all_words@
    }

    /// The answer pool the solver was built with.
    pub closed spec fn spec_answer_words(&self) -> Seq<Word> {
        self.answer_words@
    }

    /// A solver over the given pools, driven by the given strategy.
    pub fn new(strategy: StrategyType, all_words: Vec<Word>, answer_words: Vec<Word>) -> (s:
        Solver)
        ensures
            s.spec_strategy() == strategy,
            s.spec_all_words() == all_words@,
            s.spec_answer_words() == answer_words@,
    {
        Solver { strategy, all_words, answer_words }
    }

    /// The opening guess: the precomputed optimal word if the guess
    /// pool contains it, and otherwise whatever the strategy picks
    /// against the unfiltered answer pool.
    pub fn first_guess(&self) -> (r: Option<Word>)
        ensures
            spelled_in_pool(self.spec_all_words(), salet()) ==> (r matches Some(w) && w@
                == salet()),
            !spelled_in_pool(self.spec_all_words(), salet()) ==> {
                &&& (r is Some) == strategy_some(
                    self.spec_strategy(),
                    self.spec_all_words(),
                    self.spec_answer_words(),
                )
                &&& (r matches Some(w) ==> strategy_pick(
                    self.spec_strategy(),
                    self.spec_all_words(),
                    self.spec_answer_words(),
                    w,
                ))
            },
    {
        let n = self.all_words.len();
        let mut i: usize = 0;
        while i < n
            invariant
                n == self.all_words@.len(),
                0 <= i <= n,
                forall|j: int| 0 <= j < i ==> (#[trigger] self.all_words@[j]@) != salet(),
            decreases n - i,
        {
            if is_salet(&self.all_words[i]) {
                return Some(self.all_words[i]);
            }
            i += 1;
        }
        proof {
            assert(!spelled_in_pool(self.all_words@, salet()));
        }
        match self.strategy.select_guess(self.all_words.as_slice(), self.answer_words.as_slice()) {
            Some(w) => Some(*w),
            None => None,
        }
    }

    /// The candidates consistent with every entry of the history.
    pub fn filter_candidates(&self, history: &Vec<(Word, Pattern)>) -> (r: Vec<Word>)
        ensures
            r@ == filter_spec(self.spec_answer_words(), history@),
    {
        let n = self.answer_words.len();
        let mut r: Vec<Word> = Vec::new();
        let mut i: usize = 0;
        proof {
            reveal(Seq::filter);
        }
        while i < n
            invariant
                n == self.answer_words@.len(),
                0 <= i <= n,
                r@ =~= filter_spec(self.answer_words@.take(i as int), history@),
            decreases n - i,
        {
            let keep = consistent(&self.answer_words[i], history);
            proof {
                reveal(Seq::filter);
                assert(self.answer_words@.take(i + 1).drop_last() =~= self.answer_words@.take(
                    i as int,
                ));
            }
            if keep {
                r.push(self.answer_words[i]);
            }
            i += 1;
        }
        proof {
            assert(self.answer_words@.take(n as int) =~= self.answer_words@);
        }
        r
    }

    /// How many candidates the history leaves.
    pub fn count_candidates(&self, history: &Vec<(Word, Pattern)>) -> (r: usize)
        ensures
            r == filter_spec(self.spec_answer_words(), history@).len(),
    {
        self.filter_candidates(history).len()
    }

    /// The candidates the history leaves, in answer-pool order.
    pub fn get_candidates(&self, history: &Vec<(Word, Pattern)>) -> (r: Vec<Word>)
        ensures
            r@ == filter_spec(self.spec_answer_words(), history@),
    {
        self.filter_candidates(history)
    }

    /// The next guess: the opening guess for an empty history; no
    /// result when the history is self-contradictory; the lone
    /// candidate when only one remains; and otherwise the strategy's
    /// pick from the full guess pool against the filtered candidates.
    pub fn next_guess(&self, history: &Vec<(Word, Pattern)>) -> (r: Option<Word>)
        ensures
            ({
                let cands = filter_spec(self.spec_answer_words(), history@);
                &&& (history@.len() == 0 && spelled_in_pool(self.spec_all_words(), salet()) ==> (
                r matches Some(w) && w@ == salet()))
                &&& (history@.len() == 0 && !spelled_in_pool(self.spec_all_words(), salet())
                    ==> {
                    &&& (r is Some) == strategy_some(
                        self.spec_strategy(),
                        self.spec_all_words(),
                        self.spec_answer_words(),
                    )
                    &&& (r matches Some(w) ==> strategy_pick(
                        self.spec_strategy(),
                        self.spec_all_words(),
                        self.spec_answer_words(),
                        w,
                    ))
                })
                &&& (history@.len() > 0 ==> {
                    &&& (cands.len() == 0 ==> r is None)
                    &&& (cands.len() == 1 ==> r == Some(cands[0]))
                    &&& (cands.len() > 1 ==> {
                        &&& (r is Some) == strategy_some(
                            self.spec_strategy(),
                            self.spec_all_words(),
                            cands,
                        )
                        &&& (r matches Some(w) ==> strategy_pick(
                            self.spec_strategy(),
                            self.spec_all_words(),
                            cands,
                            w,
                        ))
                    })
                })
            }),
    {
        if history.len() == 0 {
            return self.first_guess();
        }
        let candidates = self.filter_candidates(history);
        if candidates.len() == 0 {
            return None;
        }
        if candidates.len() == 1 {
            return Some(candidates[0]);
        }
        match self.strategy.select_guess(self.all_words.as_slice(), candidates.as_slice()) {
            Some(w) => Some(*w),
            None => None,
        }
    }
}

/// Whether the word spells "salet".
fn is_salet(w: &Word) -> (r: bool)
    ensures
        r == (w@ == salet()),
{
    let c = w.chars();
    let r = c[0] == 115 && c[1] == 97 && c[2] == 108 && c[3] == 101 && c[4] == 116;
    proof {
        if r {
            assert(w@ =~= salet());
        }
    }
    r
}

/// Whether the candidate would have produced every observed pattern.
fn consistent(cand: &Word, history: &Vec<(Word, Pattern)>) -> (r: bool)
    ensures
        r == consistent_with_history(*cand, history@),
{
    let n = history.len();
    let mut k: usize = 0;
    while k < n
        invariant
            n == history@.len(),
            0 <= k <= n,
            forall|j: int|
                0 <= j < k ==> pattern_value((#[trigger] history@[j]).0@, cand@) == history@[j].1@,
        decreases n - k,
    {
        let pat = Pattern::calculate(&history[k].0, cand);
        if pat.value() != history[k].1.value() {
            return false;
        }
        k += 1;
    }
    true
}

} // verus!
