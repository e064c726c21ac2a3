//! Turning raw word lists into `Word` values.
//!
//! Word lists arrive as plain text entries; invalid lines are skipped
//! rather than rejected, per the loader's contract with the engine.

use vstd::prelude::*;
use vstd::string::StringSliceAdditionalSpecFns;

use crate::word::Word;
use crate::word::lower_bytes;
use crate::word::word_ok;

verus! {

/// The normalized byte views of the valid entries of a list, in order.
pub open spec fn valid_views(s: Seq<&str>) -> Seq<Seq<u8>>
    decreases s.len(),
{
    if s.len() == 0 {
        Seq::empty()
    } else {
        valid_views(s.drop_last()) + if word_ok(s.last().spec_bytes()) {
            seq![lower_bytes(s.last().spec_bytes())]
        } else {
            Seq::empty()
        }
    }
}

/// The words among the entries of a list: every valid entry becomes a
/// `Word`, in order, and invalid entries are skipped silently.
pub fn words_from_slice(slice: &[&str]) -> (r: Vec<Word>)
    ensures
        r@.map_values(|w: Word| w@) == valid_views(slice@),
{
    let n = slice.len();
    let mut r: Vec<Word> = Vec::new();
    let mut i: usize = 0;
    while i < n
        invariant
            n == slice@.len(),
            0 <= i <= n,
            r@.map_values(|w: Word| w@) =~= valid_views(slice@.take(i as int)),
        decreases n - i,
    {
        match Word::new(slice[i]) {
            Ok(w) => {
                r.push(w);
            },
            Err(_) => {
            },
        }
        proof {
            assert(slice@.take(i + 1).drop_last() =~= slice@.take(i as int));
            assert(r@.map_values(|w: Word| w@) =~= valid_views(slice@.take(i + 1)));
        }
        i += 1;
    }
    proof {
        assert(slice@.take(n as int) =~= slice@);
    }
    r
}

} // verus!
