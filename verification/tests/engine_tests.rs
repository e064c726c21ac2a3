use wordle_solver::benchmark::run_benchmark;
use wordle_solver::engine::Solver;
use wordle_solver::pattern::Pattern;
use wordle_solver::solve::SolveConfig;
use wordle_solver::solve::solve_word;
use wordle_solver::strategy::EntropyStrategy;
use wordle_solver::strategy::StrategyType;
use wordle_solver::word::Word;

fn words(texts: &[&str]) -> Vec<Word> {
    texts.iter().map(|t| Word::new(t).unwrap()).collect()
}

fn setup_solver() -> Solver {
    let all_words = words(&["crane", "slate", "irate", "crate", "grate"]);
    let answer_words = words(&["irate", "crate", "grate"]);
    Solver::new(StrategyType::Entropy(EntropyStrategy), all_words, answer_words)
}

#[test]
fn first_guess_returns_valid_word() {
    let solver = setup_solver();
    let all_words = words(&["crane", "slate", "irate", "crate", "grate"]);

    let result = solver.first_guess();
    assert!(result.is_some());

    let guess = result.unwrap();
    assert!(all_words.iter().any(|w| *w == guess));
}

#[test]
fn first_guess_prefers_salet() {
    let all_words = words(&["crane", "salet", "slate"]);
    let answer_words = words(&["crane"]);
    let solver = Solver::new(StrategyType::Entropy(EntropyStrategy), all_words, answer_words);

    assert_eq!(solver.first_guess().unwrap().text(), "salet");
}

#[test]
fn next_guess_with_empty_history() {
    let solver = setup_solver();

    let guess = solver.next_guess(&vec![]);
    assert!(guess.is_some());
}

#[test]
fn next_guess_filters_candidates() {
    let solver = setup_solver();

    // Simulate guessing CRANE and getting a specific pattern
    let guess = Word::new("crane").unwrap();
    let answer = Word::new("irate").unwrap();
    let pattern = Pattern::calculate(&guess, &answer);

    let history = vec![(guess, pattern)];
    let next = solver.next_guess(&history);

    assert!(next.is_some());
}

#[test]
fn next_guess_returns_none_when_no_candidates() {
    let solver = setup_solver();

    // Claim we got all greens for ZZZZZ: impossible
    let guess = Word::new("zzzzz").unwrap();
    let pattern = Pattern::perfect();

    let history = vec![(guess, pattern)];
    let next = solver.next_guess(&history);

    // No candidate can match this impossible pattern
    assert!(next.is_none());
}

#[test]
fn count_candidates_decreases() {
    let solver = setup_solver();

    // Start with all candidates
    assert_eq!(solver.count_candidates(&vec![]), 3);

    // Make a guess
    let guess = Word::new("crane").unwrap();
    let answer = Word::new("irate").unwrap();
    let pattern = Pattern::calculate(&guess, &answer);

    let history = vec![(guess, pattern)];
    let remaining = solver.count_candidates(&history);

    // Should have no more candidates after filtering
    assert!(remaining <= 3);
}

#[test]
fn filter_candidates_exact_match() {
    let solver = setup_solver();

    // Guess the exact answer
    let guess = Word::new("irate").unwrap();
    let pattern = Pattern::perfect();

    let history = vec![(guess, pattern)];
    let candidates = solver.filter_candidates(&history);

    // Should have exactly one candidate: IRATE
    assert_eq!(candidates.len(), 1);
    assert_eq!(candidates[0].text(), "irate");
}

#[test]
fn filter_candidates_multiple_guesses() {
    let solver = setup_solver();

    let answer = Word::new("grate").unwrap();

    // First guess: CRANE
    let guess1 = Word::new("crane").unwrap();
    let pattern1 = Pattern::calculate(&guess1, &answer);

    // Second guess: IRATE
    let guess2 = Word::new("irate").unwrap();
    let pattern2 = Pattern::calculate(&guess2, &answer);

    let history = vec![(guess1, pattern1), (guess2, pattern2)];
    let candidates = solver.filter_candidates(&history);

    // Should narrow down significantly
    assert!(candidates.len() <= 3);
    // GRATE should be in the candidates
    assert!(candidates.iter().any(|w| w.text() == "grate"));
}

#[test]
fn filtering_is_idempotent() {
    let solver = setup_solver();

    let guess = Word::new("crane").unwrap();
    let answer = Word::new("irate").unwrap();
    let pattern = Pattern::calculate(&guess, &answer);
    let history = vec![(guess, pattern)];

    let once = solver.filter_candidates(&history);
    // Filtering the already-filtered set with the same history keeps it.
    let again: Vec<Word> = once
        .iter()
        .copied()
        .filter(|c| Pattern::calculate(&guess, c) == pattern)
        .collect();
    assert_eq!(once, again);
}

#[test]
fn end_to_end_crane_against_irate() {
    // Guess pool and answer pool both hold the same five words; after
    // guessing CRANE against the true answer IRATE, a candidate
    // survives exactly when its own pattern against CRANE matches the
    // observed feedback.
    let pool = words(&["crane", "slate", "irate", "crate", "grate"]);
    let solver = Solver::new(
        StrategyType::from_name("adaptive"),
        pool.clone(),
        pool.clone(),
    );

    let guess = Word::new("crane").unwrap();
    let answer = Word::new("irate").unwrap();
    let observed = Pattern::calculate(&guess, &answer);

    let history = vec![(guess, observed)];
    let candidates = solver.filter_candidates(&history);

    assert!(candidates.iter().any(|w| w.text() == "irate"));
    for w in &pool {
        let survives = candidates.iter().any(|c| c == w);
        let matches = Pattern::calculate(&guess, w) == observed;
        assert_eq!(survives, matches);
    }
}

#[test]
fn solve_word_hits_known_target() {
    let pool = words(&["crane", "slate", "irate", "crate", "grate"]);
    let solver = Solver::new(
        StrategyType::from_name("adaptive"),
        pool.clone(),
        pool.clone(),
    );

    let config = SolveConfig::new("irate".to_string());
    let result = solve_word(config, &solver).unwrap();

    assert!(result.success);
    assert!(!result.guesses.is_empty());
    assert!(result.guesses.len() <= 6);
    assert_eq!(result.guesses.last().unwrap().word, "irate");
    for step in &result.guesses {
        assert!(step.candidates_after <= step.candidates_before);
    }
}

#[test]
fn solve_word_rejects_invalid_target() {
    let solver = setup_solver();
    let config = SolveConfig::new("not a word".to_string());
    assert!(solve_word(config, &solver).is_err());
}

#[test]
fn solve_config_defaults() {
    let config = SolveConfig::new("crane".to_string());
    assert_eq!(config.target, "crane");
    assert_eq!(config.max_guesses, 6);
}

#[test]
fn benchmark_tallies_every_target() {
    let pool = words(&["crane", "slate", "irate", "crate", "grate"]);
    let targets = words(&["irate", "crate", "grate"]);
    let solver = Solver::new(
        StrategyType::from_name("adaptive"),
        pool.clone(),
        pool,
    );

    let result = run_benchmark(&solver, &targets, None);

    assert_eq!(result.total_words, 3);
    assert!(result.total_guesses >= 3);
    assert!(result.total_guesses <= 18);
    assert!(result.min_guesses >= 1);
    assert!(result.max_guesses <= 6);
    assert_eq!(result.distribution.iter().sum::<usize>(), 3);
    assert_eq!(result.distribution[0], 0);
}

#[test]
fn benchmark_empty_target_list() {
    let solver = setup_solver();
    let targets: Vec<Word> = vec![];

    let result = run_benchmark(&solver, &targets, None);

    assert_eq!(result.total_words, 0);
    assert_eq!(result.total_guesses, 0);
}

#[test]
fn benchmark_with_forced_first_word() {
    let pool = words(&["crane", "slate", "irate", "crate", "grate"]);
    let targets = words(&["irate", "crate"]);
    let solver = Solver::new(
        StrategyType::from_name("adaptive"),
        pool.clone(),
        pool.clone(),
    );
    let forced = Word::new("slate").unwrap();

    let result = run_benchmark(&solver, &targets, Some(&forced));

    assert_eq!(result.total_words, 2);
    assert!(result.total_guesses >= 2);
}
