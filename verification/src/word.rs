//! Five-letter word values with byte-level queries.
//!
//! A `Word` holds exactly five lowercase ASCII letters. Construction
//! normalizes case and rejects anything else; after that the value is
//! immutable and all queries are pure functions of its five bytes.

use vstd::prelude::*;
use vstd::string::StrSliceExecFns;
use vstd::string::StringSliceAdditionalSpecFns;

verus! {

/// ASCII code of 'a'.
pub const LOWER_A: u8 = 97;

/// ASCII code of 'z'.
pub const LOWER_Z: u8 = 122;

/// ASCII code of 'A'.
pub const UPPER_A: u8 = 65;

/// ASCII code of 'Z'.
pub const UPPER_Z: u8 = 90;

} // verus!

verus! {

/// Why a string was rejected as a word.
#[derive(Debug, Clone, PartialEq, Eq, Structural)]
pub enum WordError {
    /// The normalized text was not exactly five bytes long; carries the actual length.
    InvalidLength(usize),
    /// Some byte lies outside the ASCII range.
    NonAscii,
    /// Some character is not a lowercase ASCII letter.
    InvalidCharacters,
}

/// ASCII lowercasing of a single byte; bytes outside `A..=Z` are unchanged.
pub open spec fn lower_byte(b: u8) -> u8 {
    if UPPER_A <= b && b <= UPPER_Z {
        (b + 32) as u8
    } else {
        b
    }
}

/// ASCII lowercasing of a byte sequence.
pub open spec fn lower_bytes(s: Seq<u8>) -> Seq<u8> {
    s.map_values(|b: u8| lower_byte(b))
}

/// Whether a byte is a lowercase ASCII letter.
pub open spec fn is_lower_letter(b: u8) -> bool {
    LOWER_A <= b && b <= LOWER_Z
}

/// Whether a byte sequence, after case normalization, is a valid word:
/// exactly five lowercase ASCII letters.
pub open spec fn word_ok(s: Seq<u8>) -> bool {
    s.len() == 5 && forall|i: int| 0 <= i < s.len() ==> is_lower_letter(#[trigger] lower_byte(s[i]))
}

/// How many times byte `c` occurs in `s`.
pub open spec fn occ(s: Seq<u8>, c: u8) -> nat
    decreases s.len(),
{
    if s.len() == 0 {
        0
    } else {
        occ(s.drop_last(), c) + if s.last() == c {
            1nat
        } else {
            0nat
        }
    }
}

/// The positions (in increasing order) among the first `n` of `s` that hold byte `c`.
pub open spec fn positions_upto(s: Seq<u8>, c: u8, n: int) -> Seq<usize>
    decreases n,
{
    if n <= 0 {
        Seq::empty()
    } else {
        positions_upto(s, c, n - 1) + if s[n - 1] == c {
            seq![(n - 1) as usize]
        } else {
            Seq::empty()
        }
    }
}

/// A five-letter word: exactly five lowercase ASCII letters, fixed at construction.
#[derive(Debug, Clone, Copy)]
pub struct Word {
    bytes: [u8; 5],
}

impl View for Word {
    type V = Seq<u8>;

    closed spec fn view(&self) -> Seq<u8> {
        self.bytes@
    }
}

/// The invariant every `Word` carries: five lowercase ASCII letters.
pub open spec fn word_wf(s: Seq<u8>) -> bool {
    s.len() == 5 && forall|i: int| 0 <= i < s.len() ==> is_lower_letter(#[trigger] s[i])
}

#[verifier::type_invariant]
pub open spec fn word_inv(w: Word) -> bool {
    word_wf(w@)
}

impl PartialEq for Word {
    fn eq(&self, other: &Self) -> (r: bool)
        ensures
            r == (self@ == other@),
    {
        proof {
            use_type_invariant(self);
            use_type_invariant(other);
        }
        let mut i: usize = 0;
        while i < 5
            invariant
                self@.len() == 5,
                other@.len() == 5,
                0 <= i <= 5,
                forall|j: int| 0 <= j < i ==> self@[j] == other@[j],
            decreases 5 - i,
        {
            if self.bytes[i] != other.bytes[i] {
                return false;
            }
            i += 1;
        }
        proof {
            assert(self@ =~= other@);
        }
        true
    }
}

impl Eq for Word {

}

impl vstd::std_specs::cmp::PartialEqSpecImpl for Word {
    open spec fn obeys_eq_spec() -> bool {
        true
    }

    open spec fn eq_spec(&self, other: &Word) -> bool {
        self@ == other@
    }
}

impl Word {
    /// Build a `Word` from arbitrary text: uppercase ASCII letters are
    /// lowered, then the text must be exactly five lowercase ASCII letters.
    pub fn new(text: &str) -> (r: Result<Word, WordError>)
        ensures
            ({
                let s = lower_bytes(text.spec_bytes());
                match r {
                    Ok(w) => word_ok(text.spec_bytes()) && w@ == s,
                    Err(WordError::InvalidLength(n)) => s.len() != 5 && n == s.len(),
                    Err(WordError::NonAscii) => s.len() == 5 && !(forall|i: int|
                        0 <= i < s.len() ==> #[trigger] s[i] < 128),
                    Err(WordError::InvalidCharacters) => s.len() == 5 && (forall|i: int|
                        0 <= i < s.len() ==> #[trigger] s[i] < 128) && !word_ok(
                        text.spec_bytes(),
                    ),
                }
            }),
    {
        let raw = text.as_bytes_vec();
        let mut bytes: Vec<u8> = Vec::new();
        let n = raw.len();
        let mut i: usize = 0;
        while i < n
            invariant
                raw@ == text.spec_bytes(),
                n == raw@.len(),
                0 <= i <= n,
                bytes@ =~= lower_bytes(raw@.take(i as int)),
            decreases n - i,
        {
            let b = raw[i];
            let lowered: u8 = if UPPER_A <= b && b <= UPPER_Z {
                b + 32
            } else {
                b
            };
            bytes.push(lowered);
            proof {
                assert(raw@.take(i + 1) =~= raw@.take(i as int).push(raw@[i as int]));
                assert(bytes@ =~= lower_bytes(raw@.take(i + 1)));
            }
            i += 1;
        }
        proof {
            assert(raw@.take(n as int) =~= raw@);
            assert(bytes@ =~= lower_bytes(text.spec_bytes()));
            assert(bytes@.len() == text.spec_bytes().len());
        }
        if bytes.len() != 5 {
            return Err(WordError::InvalidLength(bytes.len()));
        }
        let mut j: usize = 0;
        while j < 5
            invariant
                raw@ == text.spec_bytes(),
                bytes@ == lower_bytes(raw@),
                bytes@.len() == 5,
                0 <= j <= 5,
                forall|k: int| 0 <= k < j ==> #[trigger] bytes@[k] < 128,
            decreases 5 - j,
        {
            if bytes[j] >= 128 {
                proof {
                    let s = lower_bytes(text.spec_bytes());
                    assert(s[j as int] >= 128);
                    assert(!(forall|i: int| 0 <= i < s.len() ==> #[trigger] s[i] < 128));
                }
                return Err(WordError::NonAscii);
            }
            j += 1;
        }
        let mut k: usize = 0;
        while k < 5
            invariant
                raw@ == text.spec_bytes(),
                bytes@ == lower_bytes(raw@),
                bytes@.len() == 5,
                forall|i: int| 0 <= i < 5 ==> #[trigger] bytes@[i] < 128,
                0 <= k <= 5,
                forall|m: int| 0 <= m < k ==> is_lower_letter(#[trigger] bytes@[m]),
            decreases 5 - k,
        {
            if bytes[k] < LOWER_A || bytes[k] > LOWER_Z {
                proof {
                    assert(lower_byte(text.spec_bytes()[k as int]) == bytes@[k as int]);
                    assert(!is_lower_letter(lower_byte(text.spec_bytes()[k as int])));
                }
                return Err(WordError::InvalidCharacters);
            }
            k += 1;
        }
        proof {
            assert forall|i: int| 0 <= i < text.spec_bytes().len() implies is_lower_letter(
                #[trigger] lower_byte(text.spec_bytes()[i]),
            ) by {
                assert(lower_byte(text.spec_bytes()[i]) == bytes@[i]);
            }
        }
        let arr: [u8; 5] = [bytes[0], bytes[1], bytes[2], bytes[3], bytes[4]];
        proof {
            assert(arr@ =~= bytes@);
        }
        Ok(Word { bytes: arr })
    }

    /// The word's text as a `String` of its five letters.
    pub fn text(&self) -> (r: String)
        ensures
            r@ == self@.map_values(|b: u8| b as char),
    {
        proof {
            use_type_invariant(self);
        }
        let mut r = String::new();
        let mut i: usize = 0;
        while i < 5
            invariant
                word_wf(self@),
                0 <= i <= 5,
                r@ =~= self@.take(i as int).map_values(|b: u8| b as char),
            decreases 5 - i,
        {
            let piece = letter_str(self.bytes[i]);
            r.append(piece);
            proof {
                assert(self@.take(i + 1) =~= self@.take(i as int).push(self@[i as int]));
                assert(r@ =~= self@.take(i + 1).map_values(|b: u8| b as char));
            }
            i += 1;
        }
        proof {
            assert(self@.take(5) =~= self@);
        }
        r
    }

    /// The word's five bytes.
    pub fn chars(&self) -> (r: &[u8; 5])
        ensures
            r@ == self@,
            r@.len() == 5,
    {
        proof {
            use_type_invariant(self);
        }
        &self.bytes
    }

    /// The byte at one of the five positions.
    pub fn char_at(&self, position: usize) -> (r: u8)
        requires
            position < 5,
        ensures
            r == self@[position as int],
    {
        proof {
            use_type_invariant(self);
        }
        self.bytes[position]
    }

    /// Whether the given byte occurs anywhere in the word.
    pub fn has_letter(&self, letter: u8) -> (r: bool)
        ensures
            r == self@.contains(letter),
    {
        proof {
            use_type_invariant(self);
        }
        let mut i: usize = 0;
        while i < 5
            invariant
                self@.len() == 5,
                0 <= i <= 5,
                forall|j: int| 0 <= j < i ==> self@[j] != letter,
            decreases 5 - i,
        {
            if self.bytes[i] == letter {
                return true;
            }
            i += 1;
        }
        false
    }

    /// All positions at which the given byte occurs, in increasing order.
    pub fn positions_of(&self, letter: u8) -> (r: Vec<usize>)
        ensures
            r@ == positions_upto(self@, letter, 5),
    {
        proof {
            use_type_invariant(self);
        }
        let mut r: Vec<usize> = Vec::new();
        let mut i: usize = 0;
        while i < 5
            invariant
                self@.len() == 5,
                0 <= i <= 5,
                r@ =~= positions_upto(self@, letter, i as int),
            decreases 5 - i,
        {
            if self.bytes[i] == letter {
                r.push(i);
            }
            i += 1;
        }
        r
    }

    /// Occurrence counts for each of the 26 letters; entry `c` counts
    /// the byte `b'a' + c`.
    pub fn char_counts(&self) -> (r: Vec<u8>)
        ensures
            r@.len() == 26,
            forall|c: int| 0 <= c < 26 ==> #[trigger] r@[c] == occ(self@, (LOWER_A + c) as u8),
    {
        proof {
            use_type_invariant(self);
        }
        let mut r: Vec<u8> = Vec::new();
        let mut c: usize = 0;
        while c < 26
            invariant
                0 <= c <= 26,
                r@.len() == c,
                self@.len() == 5,
                forall|d: int| 0 <= d < c ==> #[trigger] r@[d] == occ(self@, (LOWER_A + d) as u8),
            decreases 26 - c,
        {
            let letter = LOWER_A + (c as u8);
            let mut count: u8 = 0;
            let mut i: usize = 0;
            while i < 5
                invariant
                    self@.len() == 5,
                    0 <= i <= 5,
                    count == occ(self@.take(i as int), letter),
                decreases 5 - i,
            {
                proof {
                    assert(self@.take(i + 1).drop_last() =~= self@.take(i as int));
                    assert(occ(self@.take(i as int), letter) <= i) by {
                        lemma_occ_le_len(self@.take(i as int), letter);
                    }
                }
                if self.bytes[i] == letter {
                    count += 1;
                }
                i += 1;
            }
            proof {
                assert(self@.take(5) =~= self@);
            }
            r.push(count);
            c += 1;
        }
        r
    }
}

/// The count of any byte is at most the sequence length.
pub proof fn lemma_occ_le_len(s: Seq<u8>, c: u8)
    ensures
        occ(s, c) <= s.len(),
    decreases s.len(),
{
    if s.len() > 0 {
        lemma_occ_le_len(s.drop_last(), c);
    }
}

/// The single-character string for a lowercase ASCII letter byte.
fn letter_str(b: u8) -> (r: &'static str)
    requires
        is_lower_letter(b),
    ensures
        r@ =~= seq![b as char],
{
    proof {
        reveal_strlit("a");
        reveal_strlit("b");
        reveal_strlit("c");
        reveal_strlit("d");
        reveal_strlit("e");
        reveal_strlit("f");
        reveal_strlit("g");
        reveal_strlit("h");
        reveal_strlit("i");
        reveal_strlit("j");
        reveal_strlit("k");
        reveal_strlit("l");
        reveal_strlit("m");
        reveal_strlit("n");
        reveal_strlit("o");
        reveal_strlit("p");
        reveal_strlit("q");
        reveal_strlit("r");
        reveal_strlit("s");
        reveal_strlit("t");
        reveal_strlit("u");
        reveal_strlit("v");
        reveal_strlit("w");
        reveal_strlit("x");
        reveal_strlit("y");
        reveal_strlit("z");
    }
    match b {
        97 => "a",
        98 => "b",
        99 => "c",
        100 => "d",
        101 => "e",
        102 => "f",
        103 => "g",
        104 => "h",
        105 => "i",
        106 => "j",
        107 => "k",
        108 => "l",
        109 => "m",
        110 => "n",
        111 => "o",
        112 => "p",
        113 => "q",
        114 => "r",
        115 => "s",
        116 => "t",
        117 => "u",
        118 => "v",
        119 => "w",
        120 => "x",
        121 => "y",
        _ => "z",
    }
}

} // verus!
