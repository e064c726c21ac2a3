use wordle_solver::adaptive::AdaptiveStrategy;
use wordle_solver::adaptive::AdaptiveTier;
use wordle_solver::strategy::EntropyStrategy;
use wordle_solver::strategy::HybridStrategy;
use wordle_solver::strategy::MinimaxStrategy;
use wordle_solver::strategy::RandomStrategy;
use wordle_solver::strategy::StrategyType;
use wordle_solver::word::Word;

fn words(texts: &[&str]) -> Vec<Word> {
    texts.iter().map(|t| Word::new(t).unwrap()).collect()
}

fn setup_test_data() -> (Vec<Word>, Vec<Word>) {
    (words(&["crane", "slate"]), words(&["irate", "crate", "grate"]))
}

#[test]
fn entropy_strategy_selects_guess() {
    let (guesses, candidates) = setup_test_data();

    let strategy = EntropyStrategy;
    let result = strategy.select_guess(&guesses, &candidates);

    assert!(result.is_some());
    let guess = result.unwrap();

    // Should return one of the guesses
    assert!(guess.text() == "crane" || guess.text() == "slate");
}

#[test]
fn minimax_strategy_selects_guess() {
    let (guesses, candidates) = setup_test_data();

    let strategy = MinimaxStrategy;
    let result = strategy.select_guess(&guesses, &candidates);

    assert!(result.is_some());
    let guess = result.unwrap();

    // Should return one of the guesses
    assert!(guess.text() == "crane" || guess.text() == "slate");
}

#[test]
fn hybrid_uses_entropy_for_many_candidates() {
    let (guesses, candidates) = setup_test_data();

    // 3 candidates, threshold = 2, should use entropy
    let strategy = HybridStrategy::new(2);
    let result = strategy.select_guess(&guesses, &candidates);

    assert!(result.is_some());
    let guess = result.unwrap();

    // Should return one of the guesses (using entropy)
    assert!(guess.text() == "crane" || guess.text() == "slate");
}

#[test]
fn hybrid_uses_minimax_for_few_candidates() {
    let (guesses, candidates) = setup_test_data();

    // 3 candidates, threshold = 5, should use minimax
    let strategy = HybridStrategy::new(5);
    let result = strategy.select_guess(&guesses, &candidates);

    assert!(result.is_some());
    let guess = result.unwrap();

    // Should return one of the guesses (using minimax)
    assert!(guess.text() == "crane" || guess.text() == "slate");
}

#[test]
fn hybrid_default_threshold() {
    let strategy = HybridStrategy::default();
    assert_eq!(strategy.minimax_threshold, 5);
}

#[test]
fn random_strategy_selects_from_candidates() {
    let guesses = words(&["crane", "slate", "irate"]);
    let candidates = words(&["irate"]);

    let strategy = RandomStrategy;
    let result = strategy.select_guess(&guesses, &candidates);

    assert!(result.is_some());
    let guess = result.unwrap();

    // Should select the only candidate
    assert_eq!(guess.text(), "irate");
}

#[test]
fn random_strategy_only_returns_candidates() {
    let guesses = words(&["crane", "slate", "irate", "crate"]);
    let candidates = words(&["irate", "crate"]);

    // Whatever the draw, the result must be one of the candidates.
    for _ in 0..20 {
        let result = RandomStrategy.select_guess(&guesses, &candidates);
        let text = result.unwrap().text();
        assert!(text == "irate" || text == "crate");
    }
}

#[test]
fn random_strategy_none_without_pool_candidates() {
    let guesses = words(&["crane", "slate"]);
    let candidates = words(&["zzzzz"]);

    // No candidate appears in the guess pool, so there is nothing to draw.
    assert!(RandomStrategy.select_guess(&guesses, &candidates).is_none());
}

#[test]
fn strategy_from_name_variants() {
    assert!(matches!(
        StrategyType::from_name("entropy"),
        StrategyType::Entropy(_)
    ));
    assert!(matches!(
        StrategyType::from_name("pure-entropy"),
        StrategyType::Entropy(_)
    ));
    assert!(matches!(
        StrategyType::from_name("minimax"),
        StrategyType::Minimax(_)
    ));
    assert!(matches!(
        StrategyType::from_name("hybrid"),
        StrategyType::Hybrid(HybridStrategy {
            minimax_threshold: 5
        })
    ));
    assert!(matches!(
        StrategyType::from_name("random"),
        StrategyType::Random(_)
    ));
    assert!(matches!(
        StrategyType::from_name("anything-else"),
        StrategyType::Adaptive(_)
    ));
}

#[test]
fn adaptive_tiers_correct() {
    let strategy = AdaptiveStrategy::default();

    assert_eq!(strategy.get_tier(200), AdaptiveTier::PureEntropy);
    assert_eq!(strategy.get_tier(101), AdaptiveTier::PureEntropy);
    assert_eq!(strategy.get_tier(100), AdaptiveTier::EntropyMinimax);
    assert_eq!(strategy.get_tier(50), AdaptiveTier::EntropyMinimax);
    assert_eq!(strategy.get_tier(22), AdaptiveTier::EntropyMinimax);
    assert_eq!(strategy.get_tier(21), AdaptiveTier::Hybrid);
    assert_eq!(strategy.get_tier(15), AdaptiveTier::Hybrid);
    assert_eq!(strategy.get_tier(10), AdaptiveTier::Hybrid);
    assert_eq!(strategy.get_tier(9), AdaptiveTier::MinimaxFirst);
    assert_eq!(strategy.get_tier(5), AdaptiveTier::MinimaxFirst);
    assert_eq!(strategy.get_tier(4), AdaptiveTier::MinimaxFirst);
    assert_eq!(strategy.get_tier(3), AdaptiveTier::MinimaxFirst);
    assert_eq!(strategy.get_tier(2), AdaptiveTier::Random);
    assert_eq!(strategy.get_tier(1), AdaptiveTier::Random);
}

#[test]
fn adaptive_custom_thresholds() {
    let strategy = AdaptiveStrategy::new(50, 20, 10, 5);

    assert_eq!(strategy.get_tier(100), AdaptiveTier::PureEntropy);
    assert_eq!(strategy.get_tier(51), AdaptiveTier::PureEntropy);
    assert_eq!(strategy.get_tier(50), AdaptiveTier::EntropyMinimax);
    assert_eq!(strategy.get_tier(21), AdaptiveTier::EntropyMinimax);
    assert_eq!(strategy.get_tier(20), AdaptiveTier::Hybrid);
    assert_eq!(strategy.get_tier(11), AdaptiveTier::Hybrid);
    assert_eq!(strategy.get_tier(10), AdaptiveTier::MinimaxFirst);
    assert_eq!(strategy.get_tier(6), AdaptiveTier::MinimaxFirst);
    assert_eq!(strategy.get_tier(5), AdaptiveTier::Random);
}

#[test]
fn adaptive_selects_candidate_when_few_remain() {
    let guess_pool = words(&["crane", "slate", "irate"]);
    let candidates = words(&["irate"]);

    let strategy = AdaptiveStrategy::default();
    let result = strategy.select_guess(&guess_pool, &candidates);

    assert!(result.is_some());
    let guess = result.unwrap();

    // With 1 candidate, should select it
    assert_eq!(guess.text(), "irate");
}
