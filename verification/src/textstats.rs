//! Counting words in a line of text: a word starts at every byte that is
//! not whitespace and either opens the line or follows whitespace. The
//! file reading around it happens outside the library.

use vstd::prelude::*;

verus! {

/// Whether a byte is one of the whitespace separators.
pub open spec fn spec_is_space(b: u8) -> bool {
    b == 0x20 || b == 0x09 || b == 0x0a || b == 0x0c || b == 0x0d
}

/// The number of word starts in `s[..upto]`.
pub open spec fn spec_word_count(s: Seq<u8>, upto: int) -> nat
    decreases upto,
{
    if upto <= 0 || upto > s.len() {
        0
    } else {
        spec_word_count(s, upto - 1) + (if !spec_is_space(s[upto - 1]) && (upto == 1 || spec_is_space(
            s[upto - 2],
        )) {
            1nat
        } else {
            0nat
        })
    }
}

/// Whether a byte is one of the whitespace separators.
pub fn is_space(b: u8) -> (r: bool)
    ensures
        r == spec_is_space(b),
{
    b == 0x20 || b == 0x09 || b == 0x0a || b == 0x0c || b == 0x0d
}

/// Counts the whitespace-separated words in a line of bytes.
pub fn count_words(line: &Vec<u8>) -> (r: usize)
    ensures
        r == spec_word_count(line@, line@.len() as int),
{
    let mut count: usize = 0;
    let mut i: usize = 0;
    while i < line.len()
        invariant
            i <= line@.len(),
            count == spec_word_count(line@, i as int),
            count <= i,
        decreases line@.len() - i,
    {
        if !is_space(line[i]) && (i == 0 || is_space(line[i - 1])) {
            count = count + 1;
        }
        i = i + 1;
    }
    count
}

} // verus!
