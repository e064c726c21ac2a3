use wordle_solver::entropy::calculate_entropy;
use wordle_solver::entropy::calculate_metrics;
use wordle_solver::entropy::group_by_pattern;
use wordle_solver::entropy::shannon_entropy;
use wordle_solver::minimax::calculate_max_remaining;
use wordle_solver::word::Word;

fn bits(q: u64) -> f64 {
    q as f64 / wordle_solver::qlog::Q_ONE as f64
}

fn words(texts: &[&str]) -> Vec<Word> {
    texts.iter().map(|t| Word::new(t).unwrap()).collect()
}

#[test]
fn shannon_entropy_uniform_distribution() {
    // 4 patterns, each appears once = log2(4) = 2 bits
    let counts = vec![1usize, 1, 1, 1];
    let entropy = shannon_entropy(&counts);
    assert!((bits(entropy) - 2.0).abs() < 0.001);
}

#[test]
fn shannon_entropy_certain_outcome() {
    // Only one pattern = 0 bits (no uncertainty)
    let counts = vec![10usize];
    let entropy = shannon_entropy(&counts);
    assert!(bits(entropy).abs() < 0.001);
}

#[test]
fn shannon_entropy_skewed_distribution() {
    // Skewed distribution has less entropy than uniform
    let uniform = vec![25usize, 25, 25, 25];
    let skewed = vec![97usize, 1, 1, 1];
    assert!(shannon_entropy(&uniform) > shannon_entropy(&skewed));
}

#[test]
fn shannon_entropy_bounds() {
    // Entropy is always non-negative and bounded by log2(n)
    let counts = vec![10usize, 20, 30];
    let entropy = shannon_entropy(&counts);
    assert!(bits(entropy) >= 0.0);
    assert!(bits(entropy) <= (counts.len() as f64).log2());
}

#[test]
fn shannon_entropy_empty() {
    let counts: Vec<usize> = vec![];
    let entropy = shannon_entropy(&counts);
    assert_eq!(entropy, 0);
}

#[test]
fn calculate_entropy_real_words() {
    let guess = Word::new("crane").unwrap();
    let candidates = words(&["slate", "irate", "trace", "raise"]);

    let entropy = calculate_entropy(&guess, &candidates);

    // With 4 candidates and good diversity, expect 1.5-2.0 bits
    assert!(bits(entropy) > 1.0 && bits(entropy) <= 2.0);
}

#[test]
fn calculate_entropy_all_same_pattern() {
    // If all candidates produce same pattern, entropy = 0
    let guess = Word::new("zzzzz").unwrap();
    let candidates = words(&["aaaaa", "bbbbb", "ccccc"]);

    let entropy = calculate_entropy(&guess, &candidates);

    // All produce same pattern (all gray) = 0 bits
    assert_eq!(entropy, 0);
}

#[test]
fn calculate_entropy_perfect_split() {
    // Perfect binary split = 1 bit
    let guess = Word::new("slate").unwrap();
    let candidates = words(&["slate", "zzzzz"]);

    let entropy = calculate_entropy(&guess, &candidates);

    // Two patterns, equal probability = 1 bit, exactly in Q16
    assert!((bits(entropy) - 1.0).abs() < 0.001);
    assert_eq!(entropy, 65536);
}

#[test]
fn calculate_entropy_empty_candidates() {
    let guess = Word::new("crane").unwrap();
    let candidates: Vec<Word> = vec![];

    let entropy = calculate_entropy(&guess, &candidates);
    assert_eq!(entropy, 0);
}

#[test]
fn group_by_pattern_works() {
    let guess = Word::new("crane").unwrap();
    let candidates = words(&["slate", "crate"]);

    let groups = group_by_pattern(&guess, &candidates);

    // Should have 2 different patterns
    assert_eq!(groups.iter().filter(|&&c| c > 0).count(), 2);
    assert_eq!(groups.iter().sum::<usize>(), 2);
}

#[test]
fn metrics_match_parts() {
    let guess = Word::new("crane").unwrap();
    let candidates = words(&["slate", "irate", "crate", "grate"]);

    let m = calculate_metrics(&guess, &candidates);
    assert_eq!(m.entropy, calculate_entropy(&guess, &candidates));
    assert_eq!(m.max_partition, calculate_max_remaining(&guess, &candidates));
    // Expected remaining is sum of squared group sizes over the total,
    // in Q16; it lies between 1 and the candidate count.
    assert!(m.expected_remaining >= 65536);
    assert!(m.expected_remaining <= 4 * 65536);
}

#[test]
fn max_remaining_perfect_split() {
    // Perfect binary split - worst case is 1 (each pattern has 1 candidate)
    let guess = Word::new("slate").unwrap();
    let candidates = words(&["slate", "zzzzz"]);

    let max = calculate_max_remaining(&guess, &candidates);
    assert_eq!(max, 1); // Each pattern has 1 candidate
}

#[test]
fn max_remaining_all_same_pattern() {
    // All produce same pattern - worst case is all candidates
    let guess = Word::new("zzzzz").unwrap();
    let candidates = words(&["aaaaa", "bbbbb", "ccccc"]);

    let max = calculate_max_remaining(&guess, &candidates);
    assert_eq!(max, 3); // All candidates have same pattern
}

#[test]
fn max_remaining_skewed_distribution() {
    // Skewed distribution - worst case is the largest group
    let guess = Word::new("crane").unwrap();
    let candidates = words(&["slate", "irate", "crate", "grate"]);

    let max = calculate_max_remaining(&guess, &candidates);
    // The worst case should be the largest pattern group
    assert!((1..=4).contains(&max));
}

#[test]
fn max_remaining_empty_candidates() {
    let guess = Word::new("crane").unwrap();
    let candidates: Vec<Word> = vec![];

    let max = calculate_max_remaining(&guess, &candidates);
    assert_eq!(max, 0);
}

#[test]
fn max_remaining_single_candidate() {
    let guess = Word::new("crane").unwrap();
    let candidates = words(&["slate"]);

    let max = calculate_max_remaining(&guess, &candidates);
    assert_eq!(max, 1);
}

#[test]
fn max_remaining_bounds() {
    // Max remaining is always between the pigeonhole floor and the total
    let guess = Word::new("crane").unwrap();
    let candidates = words(&["slate", "irate", "trace"]);

    let max = calculate_max_remaining(&guess, &candidates);
    assert!(max <= candidates.len());
    assert!(max * wordle_solver::pattern::PATTERN_COUNT >= candidates.len());
}

#[test]
fn calculator_group_by_pattern_works() {
    let guess = Word::new("crane").unwrap();
    let candidates = words(&["slate", "crate"]);

    let groups = group_by_pattern(&guess, &candidates);

    // Should have at least 1 pattern, at most 2
    let nonzero = groups.iter().filter(|&&c| c > 0).count();
    assert!(nonzero >= 1 && nonzero <= 2);
    assert_eq!(groups.iter().sum::<usize>(), 2);
}

#[test]
fn minimax_prefers_better_splits() {
    // A guess that splits candidates evenly should have lower max_remaining
    // than one that doesn't split them at all
    let candidates = words(&["aaaaa", "bbbbb"]);

    // Bad guess - doesn't distinguish between candidates
    let bad_guess = Word::new("zzzzz").unwrap();
    let bad_max = calculate_max_remaining(&bad_guess, &candidates);

    // Good guess - one of the actual candidates, guarantees a split
    let good_guess = Word::new("aaaaa").unwrap();
    let good_max = calculate_max_remaining(&good_guess, &candidates);

    // Good guess should have lower or equal max remaining
    assert!(good_max <= bad_max);
}

#[test]
fn selects_highest_entropy() {
    let guesses = words(&["aaaaa", "aeros"]);
    let candidates = words(&["slate", "irate", "crate", "grate"]);

    let result = wordle_solver::entropy::select_best_guess(&guesses, &candidates);
    assert!(result.is_some());

    let (best, entropy) = result.unwrap();

    // AEROS should have higher entropy than AAAAA
    assert_eq!(best.text(), "aeros");
    assert!(bits(entropy) > 0.5); // Should be reasonably high
}

#[test]
fn single_guess_returns_that_guess() {
    let guesses = words(&["crane"]);
    let candidates = words(&["slate"]);

    let result = wordle_solver::entropy::select_best_guess(&guesses, &candidates);
    assert!(result.is_some());

    let (best, _) = result.unwrap();
    assert_eq!(best.text(), "crane");
}

#[test]
fn ties_resolved_consistently() {
    // If multiple guesses have same entropy, should pick one consistently
    let guesses = words(&["aaaaa", "bbbbb"]);
    let candidates = words(&["ccccc"]);

    let result1 = wordle_solver::entropy::select_best_guess(&guesses, &candidates);
    let result2 = wordle_solver::entropy::select_best_guess(&guesses, &candidates);

    assert!(result1.is_some());
    assert!(result2.is_some());

    let (best1, entropy1) = result1.unwrap();
    let (best2, entropy2) = result2.unwrap();

    // Should be deterministic
    assert_eq!(best1.text(), best2.text());
    assert_eq!(entropy1, entropy2);
}

#[test]
fn returns_none_on_empty_guess_pool() {
    let guesses: Vec<Word> = vec![];
    let candidates = words(&["slate"]);

    let result = wordle_solver::entropy::select_best_guess(&guesses, &candidates);
    assert!(result.is_none());
}

#[test]
fn selects_lowest_max_remaining() {
    let guesses = words(&["zzzzz", "crane"]);
    let candidates = words(&["slate", "irate", "crate", "grate"]);

    let result = wordle_solver::minimax::select_best_guess(&guesses, &candidates);
    assert!(result.is_some());

    let (best, max_remaining) = result.unwrap();

    // CRANE should be better than ZZZZZ
    assert_eq!(best.text(), "crane");
    assert!(max_remaining < 4); // Should split the candidates somewhat
}

#[test]
fn minimax_single_guess_returns_that_guess() {
    let guesses = words(&["crane"]);
    let candidates = words(&["slate"]);

    let result = wordle_solver::minimax::select_best_guess(&guesses, &candidates);
    assert!(result.is_some());

    let (best, _) = result.unwrap();
    assert_eq!(best.text(), "crane");
}

#[test]
fn minimax_ties_resolved_consistently() {
    // If multiple guesses have same max_remaining, should pick one consistently
    let guesses = words(&["aaaaa", "bbbbb"]);
    let candidates = words(&["ccccc"]);

    let result1 = wordle_solver::minimax::select_best_guess(&guesses, &candidates);
    let result2 = wordle_solver::minimax::select_best_guess(&guesses, &candidates);

    assert!(result1.is_some());
    assert!(result2.is_some());

    let (best1, max1) = result1.unwrap();
    let (best2, max2) = result2.unwrap();

    // Should be deterministic
    assert_eq!(best1.text(), best2.text());
    assert_eq!(max1, max2);
}

#[test]
fn minimax_returns_none_on_empty_guess_pool() {
    let guesses: Vec<Word> = vec![];
    let candidates = words(&["slate"]);

    let result = wordle_solver::minimax::select_best_guess(&guesses, &candidates);
    assert!(result.is_none());
}

#[test]
fn prefers_actual_candidates_when_equal() {
    // When all else is equal, any of the candidate words is a valid choice
    let candidates = words(&["slate", "crate"]);
    let guesses = words(&["slate", "zzzzz"]);

    let result = wordle_solver::minimax::select_best_guess(&guesses, &candidates);
    assert!(result.is_some());

    let (best, _) = result.unwrap();

    // SLATE guarantees finding the answer if it's SLATE
    assert!(best.text() == "slate" || best.text() == "zzzzz");
}
