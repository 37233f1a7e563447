//! The traced process's memory, modeled at the granularity the trace
//! facility offers: whole machine words at word-aligned addresses. A byte
//! write is an aligned read-modify-write of the containing word, so a patch
//! can never corrupt the neighboring bytes, which is proved here.

use vstd::prelude::*;
use std::collections::HashMap;
use crate::word::{
    align_addr_to_word, byte_in_word, byte_offset_in_word, put_byte_in_word, spec_align_addr,
    spec_byte_in_word, spec_byte_offset, spec_put_byte, lemma_put_preserves_others,
    lemma_patch_restore,
};
use crate::status::TraceError;

verus! {

broadcast use vstd::std_specs::hash::group_hash_axioms;


/// Whether the word containing byte address `addr` is mapped in `mv`.
pub open spec fn map_word_mapped(mv: Map<usize, u64>, addr: usize) -> bool {
    mv.contains_key(spec_align_addr(addr))
}

/// The byte at byte address `addr` of `mv`.
pub open spec fn map_byte_at(mv: Map<usize, u64>, addr: usize) -> u8
    recommends
        map_word_mapped(mv, addr),
{
    spec_byte_in_word(mv[spec_align_addr(addr)], spec_byte_offset(addr))
}

/// `mv` with the byte at byte address `addr` replaced by `v`.
pub open spec fn map_write_byte(mv: Map<usize, u64>, addr: usize, v: u8) -> Map<usize, u64>
    recommends
        map_word_mapped(mv, addr),
{
    mv.insert(spec_align_addr(addr), spec_put_byte(mv[spec_align_addr(addr)], spec_byte_offset(addr), v))
}

/// A byte write into a mapped word changes that byte and nothing else:
/// the mapped words are the same, the byte at `addr` becomes `v`, and
/// every other byte address keeps its byte.
pub proof fn lemma_map_write_byte(mv: Map<usize, u64>, addr: usize, v: u8)
    requires
        map_word_mapped(mv, addr),
    ensures
        ({
            let mv2 = map_write_byte(mv, addr, v);
            &&& mv2.dom() == mv.dom()
            &&& forall|x: usize| map_word_mapped(mv2, x) == map_word_mapped(mv, x)
            &&& map_byte_at(mv2, addr) == v
            &&& forall|x: usize| x != addr ==> map_byte_at(mv2, x) == map_byte_at(mv, x)
        }),
{
    let a = spec_align_addr(addr);
    let off = spec_byte_offset(addr);
    let mv2 = map_write_byte(mv, addr, v);
    assert(mv2.dom() =~= mv.dom());
    crate::word::lemma_put_then_get(mv[a], off, v);
    assert forall|x: usize| x != addr implies map_byte_at(mv2, x) == map_byte_at(mv, x) by {
        if spec_align_addr(x) == a {
            assert(spec_byte_offset(x) != off);
            lemma_put_preserves_others(mv[a], off, v, spec_byte_offset(x));
        }
    }
}

/// Every mapped address in `mv` is word-aligned and lies wholly below
/// `limit`, and the bound leaves room so that an instruction pointer
/// inside a mapped word can still advance without wrapping.
pub open spec fn spec_mem_wf(mv: Map<usize, u64>, limit: usize) -> bool {
    &&& forall|a: usize| mv.contains_key(a) ==> a % 8 == 0 && a + 8 <= limit
    &&& limit <= usize::MAX - 8
}

/// Memory of the traced process: a partial map from word-aligned
/// addresses to machine words, bounded above by `limit`.
pub struct Memory {
    /// Mapped words, keyed by word-aligned address.
    pub words: HashMap<usize, u64>,
    /// Exclusive upper bound on mapped addresses.
    pub limit: usize,
}

impl View for Memory {
    type V = Map<usize, u64>;

    open spec fn view(&self) -> Map<usize, u64> {
        self.words@
    }
}

impl Memory {
    /// Every mapped address is word-aligned and below `limit`, and the
    /// bound leaves room so that an instruction pointer inside a mapped
    /// word can still advance without wrapping.
    pub open spec fn wf(self) -> bool {
        spec_mem_wf(self@, self.limit)
    }

    /// Whether the word containing byte address `addr` is mapped.
    pub open spec fn word_mapped(self, addr: usize) -> bool {
        map_word_mapped(self@, addr)
    }

    /// The byte at byte address `addr`.
    pub open spec fn spec_byte_at(self, addr: usize) -> u8
        recommends
            self.word_mapped(addr),
    {
        map_byte_at(self@, addr)
    }

    /// An empty memory with the given bound.
    pub fn new(limit: usize) -> (r: Memory)
        requires
            limit <= usize::MAX - 8,
        ensures
            r@ == Map::<usize, u64>::empty(),
            r.limit == limit,
            r.wf(),
    {
        Memory { words: HashMap::new(), limit }
    }

    /// The number of mapped words.
    pub fn word_count(&self) -> (r: usize)
        ensures
            r == self@.dom().len(),
    {
        self.words.len()
    }

    /// Maps (or remaps) the word at the aligned address `addr`.
    pub fn map_word(&mut self, addr: usize, w: u64)
        requires
            old(self).wf(),
            addr % 8 == 0,
            addr + 8 <= old(self).limit,
        ensures
            final(self)@ == old(self)@.insert(addr, w),
            final(self).limit == old(self).limit,
            final(self).wf(),
    {
        self.words.insert(addr, w);
    }

    /// Reads the word at the aligned address `addr`; fails with
    /// `MemoryAccess` exactly when `addr` is unaligned or unmapped.
    pub fn read_word(&self, addr: usize) -> (r: Result<u64, TraceError>)
        ensures
            match r {
                Ok(w) => addr % 8 == 0 && self@.contains_key(addr) && w == self@[addr],
                Err(e) => {
                    &&& e == (TraceError::MemoryAccess { addr })
                    &&& !(addr % 8 == 0 && self@.contains_key(addr))
                },
            },
    {
        if addr % 8 == 0 {
            match self.words.get(&addr) {
                Some(w) => Ok(*w),
                None => Err(TraceError::MemoryAccess { addr }),
            }
        } else {
            Err(TraceError::MemoryAccess { addr })
        }
    }

    /// Overwrites the already-mapped word at the aligned address `addr`;
    /// fails with `MemoryAccess` exactly when `addr` is unaligned or
    /// unmapped, leaving memory unchanged.
    pub fn write_word(&mut self, addr: usize, w: u64) -> (r: Result<(), TraceError>)
        requires
            old(self).wf(),
        ensures
            final(self).limit == old(self).limit,
            final(self).wf(),
            match r {
                Ok(()) => {
                    &&& addr % 8 == 0 && old(self)@.contains_key(addr)
                    &&& final(self)@ == old(self)@.insert(addr, w)
                },
                Err(e) => {
                    &&& e == (TraceError::MemoryAccess { addr })
                    &&& !(addr % 8 == 0 && old(self)@.contains_key(addr))
                    &&& final(self)@ == old(self)@
                },
            },
    {
        if addr % 8 == 0 && self.words.contains_key(&addr) {
            self.words.insert(addr, w);
            proof {
                assert(self@ == old(self)@.insert(addr, w));
                assert forall|a: usize| self@.contains_key(a) implies a % 8 == 0 && a + 8
                    <= self.limit by {
                    if a != addr {
                        assert(old(self)@.contains_key(a));
                    }
                }
            }
            Ok(())
        } else {
            Err(TraceError::MemoryAccess { addr })
        }
    }

    /// Replaces the single byte at byte address `addr` by `val` through an
    /// aligned word read-modify-write, returning the byte previously
    /// there. Every other byte of memory is untouched. Fails with
    /// `MemoryAccess` exactly when the containing word is unmapped,
    /// leaving memory unchanged.
    pub fn write_byte(&mut self, addr: usize, val: u8) -> (r: Result<u8, TraceError>)
        requires
            old(self).wf(),
        ensures
            final(self).limit == old(self).limit,
            final(self).wf(),
            match r {
                Ok(orig) => {
                    &&& old(self).word_mapped(addr)
                    &&& orig == old(self).spec_byte_at(addr)
                    &&& final(self)@ == old(self)@.insert(
                        spec_align_addr(addr),
                        spec_put_byte(
                            old(self)@[spec_align_addr(addr)],
                            spec_byte_offset(addr),
                            val,
                        ),
                    )
                    &&& final(self).spec_byte_at(addr) == val
                    &&& forall|a2: usize|
                        old(self).word_mapped(a2) ==> final(self).word_mapped(a2) && (a2 != addr
                            ==> final(self).spec_byte_at(a2) == old(self).spec_byte_at(a2))
                },
                Err(e) => {
                    &&& e == (TraceError::MemoryAccess { addr })
                    &&& !old(self).word_mapped(addr)
                    &&& final(self)@ == old(self)@
                },
            },
    {
        let aligned = align_addr_to_word(addr);
        let off = byte_offset_in_word(addr);
        let w = match self.read_word(aligned) {
            Ok(w) => w,
            Err(_) => {
                return Err(TraceError::MemoryAccess { addr });
            },
        };
        let orig = byte_in_word(w, off);
        let updated = put_byte_in_word(w, off, val);
        match self.write_word(aligned, updated) {
            Ok(()) => {
                proof {
                    crate::word::lemma_put_then_get(w, off, val);
                    assert forall|a2: usize| old(self).word_mapped(a2) implies self.word_mapped(a2)
                        && (a2 != addr ==> self.spec_byte_at(a2) == old(self).spec_byte_at(a2)) by {
                        if a2 != addr && spec_align_addr(a2) == aligned {
                            assert(spec_byte_offset(a2) != spec_byte_offset(addr));
                            lemma_put_preserves_others(
                                w,
                                off,
                                val,
                                spec_byte_offset(a2),
                            );
                        }
                    }
                }
                Ok(orig)
            },
            Err(_) => Err(TraceError::MemoryAccess { addr }),
        }
    }

    /// Reads the single byte at byte address `addr`; fails with
    /// `MemoryAccess` exactly when the containing word is unmapped.
    pub fn read_byte(&self, addr: usize) -> (r: Result<u8, TraceError>)
        ensures
            match r {
                Ok(b) => self.word_mapped(addr) && b == self.spec_byte_at(addr),
                Err(e) => e == (TraceError::MemoryAccess { addr }) && !self.word_mapped(addr),
            },
    {
        let aligned = align_addr_to_word(addr);
        let off = byte_offset_in_word(addr);
        match self.read_word(aligned) {
            Ok(w) => Ok(byte_in_word(w, off)),
            Err(_) => Err(TraceError::MemoryAccess { addr }),
        }
    }
}

/// Patching a byte (for instance with the trap opcode) and then restoring
/// the byte originally saved from that address leaves the whole memory,
/// and in particular the full containing word, bit-for-bit as it was --
/// for any mapped byte address, aligned or not.
pub proof fn lemma_byte_patch_round_trip(m: Memory, addr: usize, val: u8)
    requires
        m.wf(),
        m.word_mapped(addr),
    ensures
        ({
            let a = spec_align_addr(addr);
            let off = spec_byte_offset(addr);
            let orig = m.spec_byte_at(addr);
            let patched = m@.insert(a, spec_put_byte(m@[a], off, val));
            patched.insert(a, spec_put_byte(patched[a], off, orig)) == m@
        }),
{
    let a = spec_align_addr(addr);
    let off = spec_byte_offset(addr);
    let orig = m.spec_byte_at(addr);
    let patched = m@.insert(a, spec_put_byte(m@[a], off, val));
    lemma_patch_restore(m@[a], off, val);
    let restored = patched.insert(a, spec_put_byte(patched[a], off, orig));
    assert(restored =~= m@);
}

} // verus!
