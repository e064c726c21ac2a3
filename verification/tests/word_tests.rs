use wordle_solver::word::Word;
use wordle_solver::word::WordError;

#[test]
fn word_creation_valid() {
    let word = Word::new("crane").unwrap();
    assert_eq!(word.text(), "crane");
    assert_eq!(word.chars(), b"crane");
}

#[test]
fn word_creation_uppercase_normalized() {
    let word = Word::new("CRANE").unwrap();
    assert_eq!(word.text(), "crane");

    let word2 = Word::new("CrAnE").unwrap();
    assert_eq!(word2.text(), "crane");
}

#[test]
fn word_creation_invalid_length() {
    assert!(matches!(
        Word::new("too long"),
        Err(WordError::InvalidLength(8))
    ));
    assert!(matches!(
        Word::new("shrt"),
        Err(WordError::InvalidLength(4))
    ));
    assert!(matches!(Word::new(""), Err(WordError::InvalidLength(0))));
}

#[test]
fn word_creation_invalid_characters() {
    assert!(Word::new("cran3").is_err()); // Number
    assert!(Word::new("cran ").is_err()); // Space
    assert!(Word::new("cran!").is_err()); // Punctuation
}

#[test]
fn word_creation_error_variants() {
    // A five-byte text with a two-byte character is rejected as non-ASCII.
    assert!(matches!(Word::new("abc\u{e9}"), Err(WordError::NonAscii)));
    // ASCII but not letters.
    assert!(matches!(
        Word::new("cran3"),
        Err(WordError::InvalidCharacters)
    ));
    // Wrong length reports the normalized length.
    assert!(matches!(
        Word::new("abcdef"),
        Err(WordError::InvalidLength(6))
    ));
}

#[test]
fn word_char_at() {
    let word = Word::new("crane").unwrap();
    assert_eq!(word.char_at(0), b'c');
    assert_eq!(word.char_at(1), b'r');
    assert_eq!(word.char_at(2), b'a');
    assert_eq!(word.char_at(3), b'n');
    assert_eq!(word.char_at(4), b'e');
}

#[test]
fn word_has_letter() {
    let word = Word::new("crane").unwrap();
    assert!(word.has_letter(b'c'));
    assert!(word.has_letter(b'r'));
    assert!(word.has_letter(b'a'));
    assert!(!word.has_letter(b'z'));
    assert!(!word.has_letter(b'x'));
}

#[test]
fn word_positions_of() {
    let word = Word::new("crane").unwrap();
    assert_eq!(word.positions_of(b'c'), vec![0]);
    assert_eq!(word.positions_of(b'r'), vec![1]);
    assert_eq!(word.positions_of(b'a'), vec![2]);
    assert_eq!(word.positions_of(b'z'), Vec::<usize>::new());
}

#[test]
fn word_positions_of_duplicates() {
    let word = Word::new("speed").unwrap();
    assert_eq!(word.positions_of(b'e'), vec![2, 3]); // Both E positions
    assert_eq!(word.positions_of(b's'), vec![0]);
    assert_eq!(word.positions_of(b'p'), vec![1]);
    assert_eq!(word.positions_of(b'd'), vec![4]);
}

#[test]
fn word_positions_of_all_same() {
    let word = Word::new("aaaaa").unwrap();
    assert_eq!(word.positions_of(b'a'), vec![0, 1, 2, 3, 4]);
}

#[test]
fn word_char_counts() {
    let word = Word::new("speed").unwrap();
    let counts = word.char_counts();
    assert_eq!(counts[(b's' - b'a') as usize], 1);
    assert_eq!(counts[(b'p' - b'a') as usize], 1);
    assert_eq!(counts[(b'e' - b'a') as usize], 2);
    assert_eq!(counts[(b'd' - b'a') as usize], 1);
}

#[test]
fn word_char_counts_all_unique() {
    let word = Word::new("crane").unwrap();
    let counts = word.char_counts();
    let nonzero: Vec<u8> = counts.iter().copied().filter(|&c| c > 0).collect();
    assert_eq!(nonzero.len(), 5);
    assert!(nonzero.iter().all(|&count| count == 1));
}

#[test]
fn word_char_counts_all_same() {
    let word = Word::new("aaaaa").unwrap();
    let counts = word.char_counts();
    let nonzero: Vec<u8> = counts.iter().copied().filter(|&c| c > 0).collect();
    assert_eq!(nonzero.len(), 1);
    assert_eq!(counts[0], 5);
}

#[test]
fn word_display() {
    let word = Word::new("crane").unwrap();
    assert_eq!(word.text(), "crane");
}

#[test]
fn word_equality() {
    let word1 = Word::new("crane").unwrap();
    let word2 = Word::new("crane").unwrap();
    let word3 = Word::new("CRANE").unwrap();
    let word4 = Word::new("slate").unwrap();

    assert_eq!(word1, word2);
    assert_eq!(word1, word3); // Case insensitive
    assert_ne!(word1, word4);
}

#[test]
fn words_from_slice_converts_valid_words() {
    let input = &["crane", "slate", "irate"];
    let words = wordle_solver::wordlists::words_from_slice(input);

    assert_eq!(words.len(), 3);
    assert_eq!(words[0].text(), "crane");
    assert_eq!(words[1].text(), "slate");
    assert_eq!(words[2].text(), "irate");
}

#[test]
fn words_from_slice_skips_invalid() {
    let input = &["crane", "toolong", "abc", "slate"];
    let words = wordle_solver::wordlists::words_from_slice(input);

    // Only "crane" and "slate" are valid 5-letter words
    assert_eq!(words.len(), 2);
    assert_eq!(words[0].text(), "crane");
    assert_eq!(words[1].text(), "slate");
}

#[test]
fn words_from_slice_empty() {
    let input: &[&str] = &[];
    let words = wordle_solver::wordlists::words_from_slice(input);
    assert_eq!(words.len(), 0);
}
