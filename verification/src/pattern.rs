//! Feedback patterns for guesses.
//!
//! A pattern encodes the per-position feedback of a guess against an
//! answer as one base-3 number: digit 0 is gray, 1 is yellow, 2 is green,
//! and the digit for the leftmost position is the least significant.
//! Values therefore range over `0..243`, with 242 meaning all green.
//!
//! The calculation follows the two-pass rule for duplicate letters:
//! greens are marked first and consume the answer's letters; yellows are
//! then assigned left to right only while unconsumed copies of the letter
//! remain.

use vstd::prelude::*;

use crate::word::LOWER_A;
use crate::word::Word;
use crate::word::occ;
use crate::word::word_inv;
use crate::word::word_wf;

verus! {

/// The pattern value meaning all five positions are green.
pub const PERFECT_VALUE: u8 = 242;

/// Number of distinct pattern values.
pub const PATTERN_COUNT: usize = 243;

/// Whether position `i` of the guess is an exact match.
pub open spec fn is_green(g: Seq<u8>, a: Seq<u8>, i: int) -> bool {
    g[i] == a[i]
}

/// How many positions before `i` are green and hold guess letter `c`.
pub open spec fn greens_upto(g: Seq<u8>, a: Seq<u8>, c: u8, i: int) -> nat
    decreases i,
{
    if i <= 0 {
        0
    } else {
        greens_upto(g, a, c, i - 1) + if is_green(g, a, i - 1) && g[i - 1] == c {
            1nat
        } else {
            0nat
        }
    }
}

/// How many copies of letter `c` the answer has left for yellows, after
/// the green pass consumed one copy per green position with that letter.
pub open spec fn avail(g: Seq<u8>, a: Seq<u8>, c: u8) -> int {
    occ(a, c) - greens_upto(g, a, c, 5)
}

/// How many positions before `i` are yellow and hold guess letter `c`.
pub open spec fn yellows_upto(g: Seq<u8>, a: Seq<u8>, c: u8, i: int) -> nat
    decreases i, 0int,
{
    if i <= 0 {
        0
    } else {
        yellows_upto(g, a, c, i - 1) + if is_yellow(g, a, i - 1) && g[i - 1] == c {
            1nat
        } else {
            0nat
        }
    }
}

/// Whether position `i` of the guess is yellow: not green, and the
/// yellows assigned to its letter so far have not exhausted the copies
/// the answer has left for it.
pub open spec fn is_yellow(g: Seq<u8>, a: Seq<u8>, i: int) -> bool
    decreases i, 1int,
{
    &&& 0 <= i
    &&& !is_green(g, a, i)
    &&& yellows_upto(g, a, g[i], i) < avail(g, a, g[i])
}

/// The base-3 digit for position `i`: 2 green, 1 yellow, 0 gray.
pub open spec fn digit(g: Seq<u8>, a: Seq<u8>, i: int) -> int {
    if is_green(g, a, i) {
        2
    } else if is_yellow(g, a, i) {
        1
    } else {
        0
    }
}

/// The full pattern value of a guess against an answer.
pub open spec fn pattern_value(g: Seq<u8>, a: Seq<u8>) -> int {
    digit(g, a, 0) + 3 * digit(g, a, 1) + 9 * digit(g, a, 2) + 27 * digit(g, a, 3) + 81 * digit(
        g,
        a,
        4,
    )
}

/// Base-3 digit `i` of a pattern value.
pub open spec fn value_digit(v: int, i: int) -> int {
    if i == 0 {
        v % 3
    } else if i == 1 {
        (v / 3) % 3
    } else if i == 2 {
        (v / 9) % 3
    } else if i == 3 {
        (v / 27) % 3
    } else {
        (v / 81) % 3
    }
}

/// How many of the five digits of `v` equal `d`.
pub open spec fn count_digits(v: int, d: int) -> int {
    (if value_digit(v, 0) == d {
        1int
    } else {
        0int
    }) + (if value_digit(v, 1) == d {
        1int
    } else {
        0int
    }) + (if value_digit(v, 2) == d {
        1int
    } else {
        0int
    }) + (if value_digit(v, 3) == d {
        1int
    } else {
        0int
    }) + (if value_digit(v, 4) == d {
        1int
    } else {
        0int
    })
}

/// Feedback for one guess, encoded as a base-3 value below 243.
#[derive(Debug, Clone, Copy, PartialEq, Eq, Hash, Structural)]
pub struct Pattern {
    value: u8,
}

impl View for Pattern {
    type V = int;

    closed spec fn view(&self) -> int {
        self.value as int
    }
}

#[verifier::type_invariant]
pub open spec fn pattern_inv(p: Pattern) -> bool {
    0 <= p@ < 243
}

impl Pattern {
    /// Wrap a raw value; the value must encode five base-3 digits.
    pub fn new(value: u8) -> (r: Pattern)
        requires
            value < 243,
        ensures
            r@ == value,
    {
        Pattern { value }
    }

    /// The all-green pattern.
    pub fn perfect() -> (r: Pattern)
        ensures
            r@ == PERFECT_VALUE,
    {
        Pattern { value: PERFECT_VALUE }
    }

    /// The raw value, in `0..243`.
    pub fn value(self) -> (r: u8)
        ensures
            r == self@,
            r < 243,
    {
        proof {
            use_type_invariant(self);
        }
        self.value
    }

    /// Whether every position is green.
    pub fn is_perfect(self) -> (r: bool)
        ensures
            r == (self@ == PERFECT_VALUE),
    {
        self.value == PERFECT_VALUE
    }

    /// Compute the feedback for `guess` against `answer`, with exact
    /// duplicate-letter handling: greens first, then yellows left to
    /// right while copies remain.
    pub fn calculate(guess: &Word, answer: &Word) -> (r: Pattern)
        ensures
            r@ == pattern_value(guess@, answer@),
    {
        proof {
            use_type_invariant(guess);
            use_type_invariant(answer);
        }
        let ghost gs = guess@;
        let ghost as_ = answer@;
        let g = guess.chars();
        let a = answer.chars();
        let mut remaining = answer.char_counts();
        let mut res: Vec<u8> = vec![0u8, 0u8, 0u8, 0u8, 0u8];

        // Green pass: mark exact matches and consume the answer's letters.
        let mut i: usize = 0;
        while i < 5
            invariant
                word_wf(gs),
                word_wf(as_),
                g@ == gs,
                a@ == as_,
                res@.len() == 5,
                remaining@.len() == 26,
                0 <= i <= 5,
                forall|c: int|
                    0 <= c < 26 ==> #[trigger] remaining@[c] as int == occ(as_, (LOWER_A + c) as u8)
                        - greens_upto(gs, as_, (LOWER_A + c) as u8, i as int),
                forall|j: int|
                    0 <= j < i ==> #[trigger] res@[j] == if is_green(gs, as_, j) {
                        2u8
                    } else {
                        0u8
                    },
                forall|j: int| i <= j < 5 ==> #[trigger] res@[j] == 0u8,
            decreases 5 - i,
        {
            proof {
                lemma_greens_le_occ(gs, as_, gs[i as int], i as int);
            }
            if g[i] == a[i] {
                res.set(i, 2);
                let letter = g[i];
                let idx = (letter - LOWER_A) as usize;
                proof {
                    lemma_occ_take_le(as_, gs[i as int], i as int);
                }
                remaining.set(idx, remaining[idx] - 1);
            }
            i += 1;
        }

        // Yellow pass: mark non-green positions while copies remain.
        let mut i2: usize = 0;
        while i2 < 5
            invariant
                word_wf(gs),
                word_wf(as_),
                g@ == gs,
                a@ == as_,
                res@.len() == 5,
                remaining@.len() == 26,
                0 <= i2 <= 5,
                forall|c: int|
                    0 <= c < 26 ==> #[trigger] remaining@[c] as int == avail(
                        gs,
                        as_,
                        (LOWER_A + c) as u8,
                    ) - yellows_upto(gs, as_, (LOWER_A + c) as u8, i2 as int),
                forall|j: int| 0 <= j < i2 ==> #[trigger] res@[j] as int == digit(gs, as_, j),
                forall|j: int|
                    i2 <= j < 5 ==> #[trigger] res@[j] == if is_green(gs, as_, j) {
                        2u8
                    } else {
                        0u8
                    },
            decreases 5 - i2,
        {
            let letter = g[i2];
            let idx = (letter - LOWER_A) as usize;
            if res[i2] == 0 {
                proof {
                    lemma_yellows_le_avail(gs, as_, gs[i2 as int], i2 as int);
                }
                if remaining[idx] > 0 {
                    assert(is_yellow(gs, as_, i2 as int));
                    res.set(i2, 1);
                    remaining.set(idx, remaining[idx] - 1);
                }
            }
            proof {
                assert forall|c: int| 0 <= c < 26 implies #[trigger] remaining@[c] as int == avail(
                    gs,
                    as_,
                    (LOWER_A + c) as u8,
                ) - yellows_upto(gs, as_, (LOWER_A + c) as u8, i2 + 1) by {
                    let ch = (LOWER_A + c) as u8;
                    assert(yellows_upto(gs, as_, ch, i2 + 1) == yellows_upto(
                        gs,
                        as_,
                        ch,
                        i2 as int,
                    ) + if is_yellow(gs, as_, i2 as int) && gs[i2 as int] == ch {
                        1nat
                    } else {
                        0nat
                    });
                }
            }
            i2 += 1;
        }

        // Encode the five digits in base 3, least significant first.
        let v: u8 = res[0] + res[1] * 3 + res[2] * 9 + res[3] * 27 + res[4] * 81;
        Pattern { value: v }
    }

    /// How many positions are green.
    pub fn count_greens(self) -> (r: u8)
        ensures
            r as int == count_digits(self@, 2),
            r <= 5,
    {
        proof {
            use_type_invariant(self);
        }
        let v = self.value;
        let mut count: u8 = 0;
        if v % 3 == 2 {
            count += 1;
        }
        if (v / 3) % 3 == 2 {
            count += 1;
        }
        if (v / 9) % 3 == 2 {
            count += 1;
        }
        if (v / 27) % 3 == 2 {
            count += 1;
        }
        if (v / 81) % 3 == 2 {
            count += 1;
        }
        count
    }

    /// How many positions are yellow.
    pub fn count_yellows(self) -> (r: u8)
        ensures
            r as int == count_digits(self@, 1),
            r <= 5,
    {
        proof {
            use_type_invariant(self);
        }
        let v = self.value;
        let mut count: u8 = 0;
        if v % 3 == 1 {
            count += 1;
        }
        if (v / 3) % 3 == 1 {
            count += 1;
        }
        if (v / 9) % 3 == 1 {
            count += 1;
        }
        if (v / 27) % 3 == 1 {
            count += 1;
        }
        if (v / 81) % 3 == 1 {
            count += 1;
        }
        count
    }
}

/// The digit a feedback character stands for: `G`, `g` or the green
/// square are 2; `Y`, `y` or the yellow square are 1; `-`, `_` or the
/// white square are 0; anything else is rejected as -1.
pub open spec fn glyph_digit(c: char) -> int {
    if c == 'G' || c == 'g' || c == '🟩' {
        2
    } else if c == 'Y' || c == 'y' || c == '🟨' {
        1
    } else if c == '-' || c == '_' || c == '⬜' {
        0
    } else {
        -1
    }
}

/// The pattern value spelled by five feedback characters.
pub open spec fn chars_value(s: Seq<char>) -> int {
    glyph_digit(s[0]) + 3 * glyph_digit(s[1]) + 9 * glyph_digit(s[2]) + 27 * glyph_digit(s[3]) + 81
        * glyph_digit(s[4])
}

/// The feedback character for one digit.
pub open spec fn glyph_char(d: int) -> char {
    if d == 2 {
        '🟩'
    } else if d == 1 {
        '🟨'
    } else {
        '⬜'
    }
}

/// The five feedback characters of a pattern value, leftmost position first.
pub open spec fn emoji_chars(v: int) -> Seq<char> {
    seq![
        glyph_char(value_digit(v, 0)),
        glyph_char(value_digit(v, 1)),
        glyph_char(value_digit(v, 2)),
        glyph_char(value_digit(v, 3)),
        glyph_char(value_digit(v, 4)),
    ]
}

/// The digit for one feedback character, or `None` if it is not one.
fn glyph(c: char) -> (r: Option<u8>)
    ensures
        r is Some <==> glyph_digit(c) >= 0,
        r matches Some(d) ==> d as int == glyph_digit(c) && d <= 2,
{
    if c == 'G' || c == 'g' || c == '🟩' {
        Some(2)
    } else if c == 'Y' || c == 'y' || c == '🟨' {
        Some(1)
    } else if c == '-' || c == '_' || c == '⬜' {
        Some(0)
    } else {
        None
    }
}

/// The one-character string for one digit's feedback square.
fn glyph_str(d: u8) -> (r: &'static str)
    ensures
        r@ =~= seq![glyph_char(d as int)],
{
    proof {
        reveal_strlit("🟩");
        reveal_strlit("🟨");
        reveal_strlit("⬜");
    }
    if d == 2 {
        "🟩"
    } else if d == 1 {
        "🟨"
    } else {
        "⬜"
    }
}

impl Pattern {
    /// Parse five feedback characters, one per position, leftmost first.
    /// Accepts `G`/`g`/green square, `Y`/`y`/yellow square and
    /// `-`/`_`/white square; anything else, or any other length, fails.
    pub fn from_str(s: &str) -> (r: Option<Pattern>)
        ensures
            r is Some <==> (s@.len() == 5 && forall|i: int|
                0 <= i < 5 ==> #[trigger] glyph_digit(s@[i]) >= 0),
            r matches Some(p) ==> p@ == chars_value(s@),
    {
        let n = s.unicode_len();
        if n != 5 {
            return None;
        }
        let d0 = match glyph(s.get_char(0)) {
            Some(d) => d,
            None => {
                return None;
            },
        };
        let d1 = match glyph(s.get_char(1)) {
            Some(d) => d,
            None => {
                return None;
            },
        };
        let d2 = match glyph(s.get_char(2)) {
            Some(d) => d,
            None => {
                return None;
            },
        };
        let d3 = match glyph(s.get_char(3)) {
            Some(d) => d,
            None => {
                return None;
            },
        };
        let d4 = match glyph(s.get_char(4)) {
            Some(d) => d,
            None => {
                return None;
            },
        };
        let v: u8 = d0 + d1 * 3 + d2 * 9 + d3 * 27 + d4 * 81;
        Some(Pattern { value: v })
    }

    /// Render the pattern as five feedback squares, leftmost position first.
    pub fn to_emoji(self) -> (r: String)
        ensures
            r@ == emoji_chars(self@),
    {
        proof {
            use_type_invariant(self);
        }
        let v = self.value;
        let mut r = String::new();
        r.append(glyph_str(v % 3));
        r.append(glyph_str((v / 3) % 3));
        r.append(glyph_str((v / 9) % 3));
        r.append(glyph_str((v / 27) % 3));
        r.append(glyph_str((v / 81) % 3));
        proof {
            assert(r@ =~= emoji_chars(self@));
        }
        r
    }
}

/// At most `occ(a.take(i), c)` positions before `i` can be green with
/// letter `c`: each green position holds one copy of the letter in the
/// answer itself.
pub proof fn lemma_greens_le_occ(g: Seq<u8>, a: Seq<u8>, c: u8, i: int)
    requires
        a.len() == 5,
        0 <= i <= 5,
    ensures
        greens_upto(g, a, c, i) <= occ(a.take(i), c),
    decreases i,
{
    if i > 0 {
        lemma_greens_le_occ(g, a, c, i - 1);
        assert(a.take(i).drop_last() =~= a.take(i - 1));
    }
}

/// Occurrence counts grow along prefixes, strictly where the next byte matches.
pub proof fn lemma_occ_take_le(a: Seq<u8>, c: u8, i: int)
    requires
        a.len() == 5,
        0 <= i < 5,
    ensures
        occ(a.take(i), c) + if a[i] == c {
            1int
        } else {
            0int
        } <= occ(a, c),
    decreases 5 - i,
{
    assert(a.take(i + 1).drop_last() =~= a.take(i));
    if i == 4 {
        assert(a.take(5) =~= a);
    } else {
        lemma_occ_take_le_helper(a, c, i + 1);
    }
}

proof fn lemma_occ_take_le_helper(a: Seq<u8>, c: u8, i: int)
    requires
        a.len() == 5,
        0 <= i <= 5,
    ensures
        occ(a.take(i), c) <= occ(a, c),
    decreases 5 - i,
{
    if i == 5 {
        assert(a.take(5) =~= a);
    } else {
        assert(a.take(i + 1).drop_last() =~= a.take(i));
        lemma_occ_take_le_helper(a, c, i + 1);
    }
}

/// Yellows assigned to a letter never exceed what the answer has left
/// for it, and that allowance is never negative.
pub proof fn lemma_yellows_le_avail(g: Seq<u8>, a: Seq<u8>, c: u8, i: int)
    requires
        a.len() == 5,
        0 <= i,
    ensures
        yellows_upto(g, a, c, i) <= avail(g, a, c),
        avail(g, a, c) >= 0,
    decreases i,
{
    lemma_greens_le_occ(g, a, c, 5);
    assert(a.take(5) =~= a);
    if i > 0 {
        lemma_yellows_le_avail(g, a, c, i - 1);
        if is_yellow(g, a, i - 1) && g[i - 1] == c {
            assert(yellows_upto(g, a, g[i - 1], i - 1) < avail(g, a, g[i - 1]));
        }
    }
}

/// Every pattern value encodes five base-3 digits, so it lies in `0..243`.
pub proof fn lemma_pattern_value_bounds(g: Seq<u8>, a: Seq<u8>)
    ensures
        0 <= pattern_value(g, a) < 243,
{
}

/// A word guessed against itself is all green.
///
/// Law: for every word `w`, the feedback of `w` against `w` is the
/// perfect pattern.
pub proof fn lemma_self_pattern_perfect(w: Seq<u8>)
    requires
        w.len() == 5,
    ensures
        pattern_value(w, w) == PERFECT_VALUE,
{
}

/// Digit extraction inverts the base-3 encoding: the digits read back
/// from a computed pattern value are the per-position feedback digits.
/// In particular the green and yellow counts of the value are the true
/// counts of green and yellow positions, however the value was stored.
pub proof fn lemma_value_digits(g: Seq<u8>, a: Seq<u8>)
    ensures
        forall|i: int| 0 <= i < 5 ==> value_digit(pattern_value(g, a), i) == digit(g, a, i),
{
    let d0 = digit(g, a, 0);
    let d1 = digit(g, a, 1);
    let d2 = digit(g, a, 2);
    let d3 = digit(g, a, 3);
    let d4 = digit(g, a, 4);
    let v = pattern_value(g, a);
    assert(v == d0 + 3 * d1 + 9 * d2 + 27 * d3 + 81 * d4);
    assert(v % 3 == d0 && (v / 3) % 3 == d1 && (v / 9) % 3 == d2 && (v / 27) % 3 == d3 && (v / 81)
        % 3 == d4) by (nonlinear_arith)
        requires
            0 <= d0 <= 2,
            0 <= d1 <= 2,
            0 <= d2 <= 2,
            0 <= d3 <= 2,
            0 <= d4 <= 2,
            v == d0 + 3 * d1 + 9 * d2 + 27 * d3 + 81 * d4,
    ;
}

/// A perfect pattern can only come from guessing the answer itself:
/// all five digits being green forces equality at every position.
pub proof fn lemma_perfect_means_equal(g: Seq<u8>, a: Seq<u8>)
    requires
        g.len() == 5,
        a.len() == 5,
        pattern_value(g, a) == PERFECT_VALUE,
    ensures
        g =~= a,
{
    assert forall|i: int| 0 <= i < 5 implies g[i] == a[i] by {
        assert(digit(g, a, i) == 2);
    }
}

/// Greens and yellows never overlap: over the five digits of any pattern
/// value, the green count plus the yellow count is at most five.
///
/// Law: both counts are functions of the pattern value alone, and their
/// sum never exceeds the number of positions.
pub proof fn lemma_green_yellow_counts_bounded(v: int)
    ensures
        count_digits(v, 2) + count_digits(v, 1) <= 5,
        count_digits(v, 2) >= 0,
        count_digits(v, 1) >= 0,
{
}

} // verus!
