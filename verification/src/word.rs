//! Word-granular byte patching. The trace facility reads and writes the
//! target's memory one machine word at a time, so replacing a single byte
//! (to plant or remove a trap opcode) is an aligned read-modify-write:
//! align the address down to the word, extract or replace the addressed
//! byte by shift and mask, and write the whole word back.

use vstd::prelude::*;

verus! {

/// Width of a machine word in bytes on the modeled target.
pub const WORD_SIZE: usize = 8;

/// The address of the word containing `addr`.
pub open spec fn spec_align_addr(addr: usize) -> usize {
    (addr - (addr % 8)) as usize
}

/// The position of `addr`'s byte within its containing word.
pub open spec fn spec_byte_offset(addr: usize) -> u64 {
    (addr % 8) as u64
}

/// The byte at position `off` (little-endian) of word `w`.
pub open spec fn spec_byte_in_word(w: u64, off: u64) -> u8
    recommends
        off < 8,
{
    ((w >> ((8 * off) as u64)) & 0xff) as u8
}

/// Word `w` with the byte at position `off` replaced by `v`.
pub open spec fn spec_put_byte(w: u64, off: u64, v: u8) -> u64
    recommends
        off < 8,
{
    (w & !(0xffu64 << ((8 * off) as u64))) | ((v as u64) << ((8 * off) as u64))
}

/// Aligns `addr` down to the containing word boundary.
pub fn align_addr_to_word(addr: usize) -> (r: usize)
    ensures
        r == spec_align_addr(addr),
        r <= addr < r + 8,
        r % 8 == 0,
{
    addr - (addr % 8)
}

/// The byte offset of `addr` within its containing word.
pub fn byte_offset_in_word(addr: usize) -> (r: u64)
    ensures
        r == spec_byte_offset(addr),
        r < 8,
{
    (addr % 8) as u64
}

/// Extracts the byte at position `off` of word `w`.
pub fn byte_in_word(w: u64, off: u64) -> (r: u8)
    requires
        off < 8,
    ensures
        r == spec_byte_in_word(w, off),
{
    ((w >> (8 * off)) & 0xff) as u8
}

/// Replaces the byte at position `off` of word `w` with `v`.
pub fn put_byte_in_word(w: u64, off: u64, v: u8) -> (r: u64)
    requires
        off < 8,
    ensures
        r == spec_put_byte(w, off, v),
{
    (w & !(0xffu64 << (8 * off))) | ((v as u64) << (8 * off))
}

/// Reading back a byte just written yields that byte.
pub proof fn lemma_put_then_get(w: u64, off: u64, v: u8)
    requires
        off < 8,
    ensures
        spec_byte_in_word(spec_put_byte(w, off, v), off) == v,
{
    assert((((w & !(0xffu64 << ((8 * off) as u64))) | ((v as u64) << ((8 * off) as u64))) >> ((8
        * off) as u64)) & 0xff == v) by (bit_vector)
        requires
            off < 8,
    ;
}

/// Patching one byte leaves the other bytes of the word untouched.
pub proof fn lemma_put_preserves_others(w: u64, off: u64, v: u8, other: u64)
    requires
        off < 8,
        other < 8,
        other != off,
    ensures
        spec_byte_in_word(spec_put_byte(w, off, v), other) == spec_byte_in_word(w, other),
{
    assert((((w & !(0xffu64 << ((8 * off) as u64))) | ((v as u64) << ((8 * off) as u64))) >> ((8
        * other) as u64)) & 0xff == (w >> ((8 * other) as u64)) & 0xff) by (bit_vector)
        requires
            off < 8,
            other < 8,
            other != off,
    ;
}

/// Patching a byte and then restoring the byte that was there before
/// recovers the original word bit for bit.
pub proof fn lemma_patch_restore(w: u64, off: u64, v: u8)
    requires
        off < 8,
    ensures
        spec_put_byte(spec_put_byte(w, off, v), off, spec_byte_in_word(w, off)) == w,
{
    assert(((((w & !(0xffu64 << ((8 * off) as u64))) | ((v as u64) << ((8 * off) as u64))) & !(
    0xffu64 << ((8 * off) as u64))) | (((((w >> ((8 * off) as u64)) & 0xff) as u8) as u64) << ((8
        * off) as u64))) == w) by (bit_vector)
        requires
            off < 8,
    ;
}

} // verus!
