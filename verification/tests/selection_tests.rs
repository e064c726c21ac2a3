use wordle_solver::selection::select_minimax_first;
use wordle_solver::selection::select_with_candidate_preference;
use wordle_solver::selection::select_with_expected_tiebreaker;
use wordle_solver::selection::select_with_hybrid_scoring;
use wordle_solver::word::Word;

/// Q16 equivalents of the tolerances the original scenarios use.
const EPS_TENTH: u64 = 6554; // 0.1 bits
const EPS_HALF: u64 = 32768; // 0.5 bits
const EPS_TWENTIETH: u64 = 3277; // 0.05 bits

fn words(texts: &[&str]) -> Vec<Word> {
    texts.iter().map(|t| Word::new(t).unwrap()).collect()
}

#[test]
fn minimax_first_prefers_low_max_partition() {
    let guesses = words(&["crane", "zzzzz"]);
    let candidates = words(&["irate", "crate", "grate", "slate"]);

    let result = select_minimax_first(&guesses, &candidates, EPS_TENTH);
    assert!(result.is_some());

    let best = result.unwrap();

    // Should prefer CRANE over ZZZZZ
    assert_eq!(best.text(), "crane");
}

#[test]
fn minimax_first_uses_candidate_preference() {
    let guesses = words(&["crane", "irate"]);
    let candidates = words(&["irate", "crate"]);

    // With a generous epsilon, should prefer a candidate if metrics are close
    let result = select_minimax_first(&guesses, &candidates, EPS_HALF);
    assert!(result.is_some());

    let best = result.unwrap();

    // Should pick one of them (both are reasonable)
    assert!(best.text() == "crane" || best.text() == "irate");
}

#[test]
fn candidate_preference_within_epsilon() {
    let guesses = words(&["aeros", "irate", "crate"]);
    let candidates = words(&["irate", "crate", "grate"]);

    let result = select_with_candidate_preference(&guesses, &candidates, EPS_HALF);
    assert!(result.is_some());

    let best = result.unwrap();

    // Should prefer a candidate if within epsilon
    assert!(best.text() == "irate" || best.text() == "crate" || best.text() == "aeros");
}

#[test]
fn candidate_preference_considers_minimax_tiebreaker() {
    let guesses = words(&["aeros", "crane"]);
    let candidates = words(&["crane", "irate"]);

    let result = select_with_candidate_preference(&guesses, &candidates, EPS_HALF);
    assert!(result.is_some());

    let best = result.unwrap();

    // Should pick one based on both entropy and minimax
    assert!(best.text() == "aeros" || best.text() == "crane");
}

#[test]
fn minimax_first_returns_none_on_empty() {
    let guesses: Vec<Word> = vec![];
    let candidates = words(&["slate"]);

    let result = select_minimax_first(&guesses, &candidates, EPS_TENTH);
    assert!(result.is_none());
}

#[test]
fn candidate_preference_returns_none_on_empty() {
    let guesses: Vec<Word> = vec![];
    let candidates = words(&["slate"]);

    let result = select_with_candidate_preference(&guesses, &candidates, EPS_TENTH);
    assert!(result.is_none());
}

#[test]
fn minimax_first_tight_epsilon() {
    // A discriminating word against a tight tolerance
    let guesses = words(&["befog", "breed"]);
    let candidates = words(&["breed", "creed", "freed", "greed"]);

    let result = select_minimax_first(&guesses, &candidates, EPS_TWENTIETH);
    assert!(result.is_some());

    let best = result.unwrap();

    // With tight epsilon, should allow discriminating word if significantly better
    assert!(best.text() == "befog" || best.text() == "breed");
}

#[test]
fn select_with_expected_tiebreaker_works() {
    let guesses = words(&["crane", "slate", "aaaaa"]);
    let candidates = words(&["irate", "crate", "grate", "plate"]);

    let result = select_with_expected_tiebreaker(&guesses, &candidates);
    assert!(result.is_some());

    let best = result.unwrap();

    // Should select one of the better guesses (not AAAAA)
    assert!(best.text() != "aaaaa");
}

#[test]
fn select_with_hybrid_scoring_works() {
    let guesses = words(&["crane", "slate", "zzzzz"]);
    let candidates = words(&["irate", "crate", "grate"]);

    let result = select_with_hybrid_scoring(&guesses, &candidates);
    assert!(result.is_some());

    let best = result.unwrap();

    // Should select a reasonable guess (not ZZZZZ)
    assert!(best.text() != "zzzzz");
}

#[test]
fn hybrid_scoring_balances_entropy_and_minimax() {
    // Scenario where pure entropy and pure minimax can disagree
    let guesses = words(&["aeros", "slate"]);
    let candidates = words(&["irate", "crate"]);

    let result = select_with_hybrid_scoring(&guesses, &candidates);
    assert!(result.is_some());

    let best = result.unwrap();

    // Should pick one of them
    assert!(best.text() == "aeros" || best.text() == "slate");
}

#[test]
fn expected_tiebreaker_returns_none_on_empty() {
    let guesses: Vec<Word> = vec![];
    let candidates = words(&["slate"]);

    let result = select_with_expected_tiebreaker(&guesses, &candidates);
    assert!(result.is_none());
}

#[test]
fn hybrid_scoring_returns_none_on_empty() {
    let guesses: Vec<Word> = vec![];
    let candidates = words(&["slate"]);

    let result = select_with_hybrid_scoring(&guesses, &candidates);
    assert!(result.is_none());
}
