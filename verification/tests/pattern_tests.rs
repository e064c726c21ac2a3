use wordle_solver::formatters::pattern_to_emoji;
use wordle_solver::pattern::Pattern;
use wordle_solver::word::Word;

#[test]
fn pattern_perfect_constant() {
    assert_eq!(Pattern::perfect().value(), 242);
    assert!(Pattern::perfect().is_perfect());
    assert_eq!(Pattern::perfect().count_greens(), 5);
    assert_eq!(Pattern::perfect().count_yellows(), 0);
}

#[test]
fn pattern_all_gray() {
    let guess = Word::new("abcde").unwrap();
    let answer = Word::new("fghij").unwrap();
    let pattern = Pattern::calculate(&guess, &answer);

    assert_eq!(pattern.value(), 0);
    assert_eq!(pattern.count_greens(), 0);
    assert_eq!(pattern.count_yellows(), 0);
}

#[test]
fn pattern_all_green() {
    let word = Word::new("crane").unwrap();
    let pattern = Pattern::calculate(&word, &word);

    assert_eq!(pattern, Pattern::perfect());
    assert_eq!(pattern.count_greens(), 5);
}

#[test]
fn pattern_duplicate_letters_green_takes_priority() {
    // SPEED vs ERASE
    // S(yellow) P(gray) E(yellow) E(yellow) D(gray)
    // S is at position 3 in ERASE, so yellow
    // Both E's are yellow (ERASE has 2 E's at positions 0 and 4)
    let guess = Word::new("speed").unwrap();
    let answer = Word::new("erase").unwrap();
    let pattern = Pattern::calculate(&guess, &answer);

    // S(yellow)=1, P(gray)=0, E(yellow)=1, E(yellow)=1, D(gray)=0
    // 1 + 0*3 + 1*9 + 1*27 + 0*81 = 37
    assert_eq!(pattern.value(), 37);
    assert_eq!(pattern.count_greens(), 0);
    assert_eq!(pattern.count_yellows(), 3);
}

#[test]
fn pattern_duplicate_letters_complex() {
    // ROBOT vs FLOOR
    // R(yellow) O(yellow) B(gray) O(green) T(gray)
    // First O is yellow (wrong position), second O is green (correct position)
    let guess = Word::new("robot").unwrap();
    let answer = Word::new("floor").unwrap();
    let pattern = Pattern::calculate(&guess, &answer);

    // R(yellow)=1, O(yellow)=1, B(gray)=0, O(green)=2, T(gray)=0
    // 1 + 1*3 + 0*9 + 2*27 + 0*81 = 58
    assert_eq!(pattern.value(), 58);
    assert_eq!(pattern.count_greens(), 1);
    assert_eq!(pattern.count_yellows(), 2);
}

#[test]
fn pattern_from_str_valid() {
    let p1 = Pattern::from_str("GYG--").unwrap();
    let p2 = Pattern::from_str("🟩🟨🟩⬜⬜").unwrap();
    let p3 = Pattern::from_str("gyg__").unwrap();

    assert_eq!(p1, p2);
    assert_eq!(p1, p3);

    // G=2, Y=1, G=2, -=0, -=0
    // 2 + 1*3 + 2*9 + 0*27 + 0*81 = 23
    assert_eq!(p1.value(), 23);
}

#[test]
fn pattern_from_str_invalid() {
    assert!(Pattern::from_str("GYGGYX").is_none()); // Too long (6 chars)
    assert!(Pattern::from_str("GYG").is_none()); // Too short
    assert!(Pattern::from_str("GXGGY").is_none()); // Invalid char
    assert!(Pattern::from_str("").is_none()); // Empty
}

#[test]
fn pattern_count_feedback() {
    // Create pattern manually: YGGYY
    // Y=1, G=2, G=2, Y=1, Y=1
    // 1 + 2*3 + 2*9 + 1*27 + 1*81 = 133
    let pattern = Pattern::new(133);

    assert_eq!(pattern.count_greens(), 2);
    assert_eq!(pattern.count_yellows(), 3);
}

#[test]
fn pattern_symmetry() {
    // Pattern of word vs itself is always perfect
    for word in ["crane", "slate", "audio", "zzzzz", "aaaaa"] {
        let w = Word::new(word).unwrap();
        assert_eq!(Pattern::calculate(&w, &w), Pattern::perfect());
    }
}

#[test]
fn pattern_real_wordle_example() {
    // Classic example: CRANE vs SLATE
    let guess = Word::new("crane").unwrap();
    let answer = Word::new("slate").unwrap();
    let pattern = Pattern::calculate(&guess, &answer);

    // C(gray)=0, R(gray)=0, A(green)=2, N(gray)=0, E(green)=2
    // R is gray because SLATE has no R
    // 0 + 0*3 + 2*9 + 0*27 + 2*81 = 180
    assert_eq!(pattern.value(), 180);
    assert_eq!(pattern.count_greens(), 2); // A and E
    assert_eq!(pattern.count_yellows(), 0); // No yellows
}

#[test]
fn pattern_green_yellow_sum_bounded() {
    // Over every possible pattern value, greens plus yellows stay
    // within the five positions.
    for v in 0..243u8 {
        let p = Pattern::new(v);
        assert!(p.count_greens() + p.count_yellows() <= 5);
    }
}

#[test]
fn pattern_to_emoji_all_gray() {
    let pattern = Pattern::new(0); // All gray
    let emoji = pattern_to_emoji(pattern);
    assert_eq!(emoji, "⬜⬜⬜⬜⬜");
}

#[test]
fn pattern_to_emoji_all_green() {
    let pattern = Pattern::perfect();
    let emoji = pattern_to_emoji(pattern);
    assert_eq!(emoji, "🟩🟩🟩🟩🟩");
}

#[test]
fn pattern_emoji_round_trip() {
    let pattern = Pattern::new(133);
    let emoji = pattern.to_emoji();
    assert_eq!(emoji, "🟨🟩🟩🟨🟨");
    assert_eq!(Pattern::from_str(&emoji), Some(pattern));
}
