//! Bookkeeping for requested breakpoints: the ordered list of requested
//! addresses (ids are positions in request order) and, for each address
//! whose trap patch is physically installed, the original byte saved from
//! it. The table does no direct process interaction of its own: it drives
//! the process's byte writes and gets the displaced bytes back.
//!
//! The saved byte is captured exactly once, before the first trap patch at
//! that address: installing is skipped for an address already installed, so
//! a saved original byte is never overwritten with the trap byte itself.

use vstd::prelude::*;
use std::collections::HashMap;
use crate::machine::{TracedProcess, OP_TRAP};
use crate::memory::{lemma_map_write_byte, map_byte_at, map_word_mapped, map_write_byte};
use crate::status::TraceError;

verus! {

broadcast use vstd::std_specs::hash::group_hash_axioms;

/// The requested breakpoints and the bytes their trap patches displaced.
pub struct BreakpointTable {
    /// Requested addresses, in request order; a breakpoint's id is its
    /// position here. Duplicates are permitted.
    pub addrs: Vec<usize>,
    /// For each address whose patch is currently installed, the original
    /// byte to restore.
    pub orig: HashMap<usize, u8>,
}

/// The table/memory agreement that the engine maintains: wherever a saved
/// original byte is held, the trap byte is what sits in memory.
pub open spec fn consistent(orig: Map<usize, u8>, mv: Map<usize, u64>) -> bool {
    forall|a: usize| #[trigger]
        orig.contains_key(a) ==> map_word_mapped(mv, a) && map_byte_at(mv, a) == OP_TRAP
}

/// The result of installing the breakpoints `addrs[i..]` into saved-byte
/// map `orig` and memory `mv`, in order: each address not yet installed
/// has its byte saved and replaced by the trap opcode; an unmapped
/// address stops the pass there, leaving the earlier installs in place.
/// Returns the saved-byte map, the memory, and the failing index if any.
pub open spec fn spec_install_from(
    addrs: Seq<usize>,
    i: int,
    orig: Map<usize, u8>,
    mv: Map<usize, u64>,
) -> (Map<usize, u8>, Map<usize, u64>, Option<int>)
    decreases addrs.len() - i,
{
    if i < 0 || i >= addrs.len() {
        (orig, mv, None)
    } else {
        let a = addrs[i];
        if orig.contains_key(a) {
            spec_install_from(addrs, i + 1, orig, mv)
        } else if map_word_mapped(mv, a) {
            spec_install_from(
                addrs,
                i + 1,
                orig.insert(a, map_byte_at(mv, a)),
                map_write_byte(mv, a, OP_TRAP),
            )
        } else {
            (orig, mv, Some(i))
        }
    }
}

/// What an install pass does, summarized: saved bytes are only added,
/// never changed; a newly saved byte is the byte that stood in the
/// pre-pass memory; memory keeps its mapped words and changes only at
/// newly installed addresses, which now hold the trap byte; on success
/// every requested address is installed; and table/memory agreement is
/// preserved.
pub proof fn lemma_install_from_props(
    addrs: Seq<usize>,
    i: int,
    orig: Map<usize, u8>,
    mv: Map<usize, u64>,
)
    requires
        0 <= i <= addrs.len(),
    ensures
        ({
            let (orig2, mv2, fail) = spec_install_from(addrs, i, orig, mv);
            &&& forall|a: usize| #[trigger]
                orig.contains_key(a) ==> orig2.contains_key(a) && orig2[a] == orig[a]
            &&& forall|a: usize| #[trigger]
                orig2.contains_key(a) ==> orig.contains_key(a) || (exists|j: int|
                    i <= j < addrs.len() && addrs[j] == a)
            &&& forall|a: usize| #[trigger]
                orig2.contains_key(a) && !orig.contains_key(a) ==> map_word_mapped(mv, a)
                    && orig2[a] == map_byte_at(mv, a) && map_byte_at(mv2, a) == OP_TRAP
            &&& mv2.dom() == mv.dom()
            &&& forall|x: usize| map_word_mapped(mv2, x) == map_word_mapped(mv, x)
            &&& forall|x: usize|
                !(#[trigger] orig2.contains_key(x)) || orig.contains_key(x) ==> map_byte_at(
                    mv2,
                    x,
                ) == map_byte_at(mv, x)
            &&& (fail is None ==> forall|j: int|
                i <= j < addrs.len() ==> orig2.contains_key(#[trigger] addrs[j]))
            &&& (consistent(orig, mv) ==> consistent(orig2, mv2))
            &&& match fail {
                Some(f) => {
                    &&& i <= f < addrs.len()
                    &&& !map_word_mapped(mv, addrs[f])
                    &&& !orig.contains_key(addrs[f])
                },
                None => true,
            }
        }),
    decreases addrs.len() - i,
{
    if i >= addrs.len() {
    } else {
        let a = addrs[i];
        if orig.contains_key(a) {
            lemma_install_from_props(addrs, i + 1, orig, mv);
            let (orig2, mv2, fail) = spec_install_from(addrs, i, orig, mv);
            assert forall|b: usize| #[trigger]
                orig2.contains_key(b) implies orig.contains_key(b) || (exists|j: int|
                i <= j < addrs.len() && addrs[j] == b) by {
                if !orig.contains_key(b) {
                    let j = choose|j: int| i + 1 <= j < addrs.len() && addrs[j] == b;
                    assert(i <= j < addrs.len() && addrs[j] == b);
                }
            }
        } else if map_word_mapped(mv, a) {
            let orig1 = orig.insert(a, map_byte_at(mv, a));
            let mv1 = map_write_byte(mv, a, OP_TRAP);
            lemma_map_write_byte(mv, a, OP_TRAP);
            lemma_install_from_props(addrs, i + 1, orig1, mv1);
            let (orig2, mv2, fail) = spec_install_from(addrs, i, orig, mv);
            assert(spec_install_from(addrs, i + 1, orig1, mv1) == (orig2, mv2, fail));

            assert forall|b: usize| #[trigger]
                orig.contains_key(b) implies orig2.contains_key(b) && orig2[b] == orig[b] by {
                assert(orig1.contains_key(b) && orig1[b] == orig[b]);
            }
            assert forall|b: usize| #[trigger]
                orig2.contains_key(b) implies orig.contains_key(b) || (exists|j: int|
                i <= j < addrs.len() && addrs[j] == b) by {
                if !orig.contains_key(b) {
                    if b == a {
                        assert(i <= i < addrs.len() && addrs[i] == b);
                    } else {
                        assert(!orig1.contains_key(b) || b == a || orig.contains_key(b));
                        if orig1.contains_key(b) {
                        } else {
                            let j = choose|j: int| i + 1 <= j < addrs.len() && addrs[j] == b;
                            assert(i <= j < addrs.len() && addrs[j] == b);
                        }
                    }
                }
            }
            assert forall|b: usize|
                #[trigger] orig2.contains_key(b) && !orig.contains_key(b) implies map_word_mapped(
                mv,
                b,
            ) && orig2[b] == map_byte_at(mv, b) && map_byte_at(mv2, b) == OP_TRAP by {
                if b == a {
                    assert(orig1.contains_key(b) && orig1[b] == map_byte_at(mv, b));
                    assert(orig2[b] == orig1[b]);
                    assert(map_byte_at(mv1, b) == OP_TRAP);
                    assert(map_byte_at(mv2, b) == map_byte_at(mv1, b));
                } else {
                    assert(!orig1.contains_key(b));
                    assert(map_word_mapped(mv1, b) == map_word_mapped(mv, b));
                    assert(map_byte_at(mv1, b) == map_byte_at(mv, b));
                }
            }
            assert forall|x: usize|
                !(#[trigger] orig2.contains_key(x)) || orig.contains_key(x) implies map_byte_at(
                mv2,
                x,
            ) == map_byte_at(mv, x) by {
                if orig.contains_key(x) {
                    assert(x != a);
                    assert(orig1.contains_key(x));
                    assert(map_byte_at(mv2, x) == map_byte_at(mv1, x));
                    assert(map_byte_at(mv1, x) == map_byte_at(mv, x));
                } else {
                    assert(!orig1.contains_key(x) ==> x != a);
                    assert(!orig2.contains_key(x));
                    assert(!orig1.contains_key(x));
                    assert(map_byte_at(mv2, x) == map_byte_at(mv1, x));
                    assert(map_byte_at(mv1, x) == map_byte_at(mv, x));
                }
            }
            if consistent(orig, mv) {
                assert forall|b: usize| #[trigger]
                    orig1.contains_key(b) implies map_word_mapped(mv1, b) && map_byte_at(mv1, b)
                    == OP_TRAP by {
                    if b == a {
                    } else {
                        assert(orig.contains_key(b));
                        assert(map_byte_at(mv1, b) == map_byte_at(mv, b));
                    }
                }
                assert(consistent(orig1, mv1));
            }
            match fail {
                Some(f) => {
                    assert(!map_word_mapped(mv1, addrs[f]));
                    assert(map_word_mapped(mv1, addrs[f]) == map_word_mapped(mv, addrs[f]));
                    assert(!orig1.contains_key(addrs[f]));
                },
                None => {
                    assert forall|j: int| i <= j < addrs.len() implies orig2.contains_key(
                        #[trigger] addrs[j],
                    ) by {
                        if j == i {
                            assert(orig1.contains_key(a));
                        }
                    }
                },
            }
        } else {
        }
    }
}

impl BreakpointTable {
    /// The saved-byte map.
    pub open spec fn installed(self) -> Map<usize, u8> {
        self.orig@
    }

    /// Whether the patch at `addr` is installed.
    pub open spec fn is_installed_spec(self, addr: usize) -> bool {
        self.orig@.contains_key(addr)
    }

    /// An empty table.
    pub fn new() -> (r: BreakpointTable)
        ensures
            r.addrs@ == Seq::<usize>::empty(),
            r.orig@ == Map::<usize, u8>::empty(),
    {
        BreakpointTable { addrs: Vec::new(), orig: HashMap::new() }
    }

    /// Requests a breakpoint at `addr`, returning its id: the position in
    /// request order. Duplicates are permitted and get distinct ids.
    pub fn register(&mut self, addr: usize) -> (id: usize)
        ensures
            final(self).addrs@ == old(self).addrs@.push(addr),
            final(self).orig@ == old(self).orig@,
            id == old(self).addrs@.len(),
    {
        let id = self.addrs.len();
        self.addrs.push(addr);
        id
    }

    /// The number of requested breakpoints.
    pub fn count(&self) -> (r: usize)
        ensures
            r == self.addrs@.len(),
    {
        self.addrs.len()
    }

    /// The address of breakpoint `id`.
    pub fn addr_at(&self, id: usize) -> (r: usize)
        requires
            id < self.addrs@.len(),
        ensures
            r == self.addrs@[id as int],
    {
        self.addrs[id]
    }

    /// Whether the patch at `addr` is currently installed.
    pub fn is_installed(&self, addr: usize) -> (r: bool)
        ensures
            r == self.is_installed_spec(addr),
    {
        self.orig.contains_key(&addr)
    }

    /// Forgets all saved bytes, as when the process they were patched
    /// into is replaced by a freshly spawned one: no patch is installed
    /// in the new process's memory.
    pub fn clear_installed(&mut self)
        ensures
            final(self).addrs@ == old(self).addrs@,
            final(self).orig@ == Map::<usize, u8>::empty(),
    {
        self.orig.clear();
    }

    /// Installs the trap patch at one address unless it is already
    /// installed, saving the displaced byte. Fails with `MemoryAccess`
    /// exactly when the address is unmapped and not installed, changing
    /// nothing.
    pub fn install_at(&mut self, addr: usize, proc: &mut TracedProcess) -> (r: Result<
        (),
        TraceError,
    >)
        requires
            old(proc).wf(),
            old(proc).live(),
        ensures
            final(self).addrs@ == old(self).addrs@,
            final(proc).wf(),
            final(proc).regs == old(proc).regs,
            final(proc).counter == old(proc).counter,
            final(proc).state == old(proc).state,
            final(proc).mem.limit == old(proc).mem.limit,
            match r {
                Ok(()) => {
                    if old(self).orig@.contains_key(addr) {
                        final(self).orig@ == old(self).orig@ && final(proc).mem@ == old(proc).mem@
                    } else {
                        map_word_mapped(old(proc).mem@, addr) && final(self).orig@ == old(
                            self,
                        ).orig@.insert(addr, map_byte_at(old(proc).mem@, addr)) && final(proc).mem@
                            == map_write_byte(old(proc).mem@, addr, OP_TRAP)
                    }
                },
                Err(e) => {
                    &&& e == (TraceError::MemoryAccess { addr })
                    &&& !map_word_mapped(old(proc).mem@, addr)
                    &&& !old(self).orig@.contains_key(addr)
                    &&& final(self).orig@ == old(self).orig@
                    &&& final(proc).mem@ == old(proc).mem@
                },
            },
    {
        if self.orig.contains_key(&addr) {
            return Ok(());
        }
        match proc.write_byte(addr, OP_TRAP) {
            Ok(orig_byte) => {
                self.orig.insert(addr, orig_byte);
                Ok(())
            },
            Err(e) => Err(TraceError::MemoryAccess { addr }),
        }
    }

    /// Installs the trap patches for all requested breakpoints, in
    /// request order, skipping those already installed. If one address is
    /// unmapped the pass stops there and reports which breakpoint failed;
    /// the patches installed earlier in the pass stay in place.
    pub fn install_all(&mut self, proc: &mut TracedProcess) -> (r: Result<(), TraceError>)
        requires
            old(proc).wf(),
            old(proc).live(),
        ensures
            final(self).addrs@ == old(self).addrs@,
            final(proc).wf(),
            final(proc).regs == old(proc).regs,
            final(proc).counter == old(proc).counter,
            final(proc).state == old(proc).state,
            final(proc).mem.limit == old(proc).mem.limit,
            ({
                let (orig2, mv2, fail) = spec_install_from(
                    old(self).addrs@,
                    0,
                    old(self).orig@,
                    old(proc).mem@,
                );
                &&& final(self).orig@ == orig2
                &&& final(proc).mem@ == mv2
                &&& match r {
                    Ok(()) => fail is None,
                    Err(e) => match fail {
                        Some(f) => e == (TraceError::InstallFailed {
                            index: f as usize,
                            addr: old(self).addrs@[f],
                        }),
                        None => false,
                    },
                }
            }),
    {
        let ghost addrs0 = self.addrs@;
        let ghost orig0 = self.orig@;
        let ghost mv0 = proc.mem@;
        let mut i: usize = 0;
        let n = self.addrs.len();
        while i < n
            invariant
                n == self.addrs@.len(),
                i <= n,
                self.addrs@ == addrs0,
                proc.wf(),
                proc.live(),
                proc.regs == old(proc).regs,
                proc.counter == old(proc).counter,
                proc.state == old(proc).state,
                proc.mem.limit == old(proc).mem.limit,
                addrs0 == old(self).addrs@,
                orig0 == old(self).orig@,
                mv0 == old(proc).mem@,
                spec_install_from(addrs0, i as int, self.orig@, proc.mem@) == spec_install_from(
                    addrs0,
                    0,
                    orig0,
                    mv0,
                ),
            decreases n - i,
        {
            let addr = self.addrs[i];
            let ghost orig_before = self.orig@;
            let ghost mv_before = proc.mem@;
            match self.install_at(addr, proc) {
                Ok(()) => {
                    proof {
                        assert(spec_install_from(addrs0, i as int, orig_before, mv_before)
                            == spec_install_from(addrs0, i + 1, self.orig@, proc.mem@));
                    }
                },
                Err(_) => {
                    proof {
                        assert(spec_install_from(addrs0, i as int, orig_before, mv_before) == (
                            orig_before,
                            mv_before,
                            Some(i as int),
                        ));
                    }
                    return Err(TraceError::InstallFailed { index: i, addr });
                },
            }
            i = i + 1;
        }
        Ok(())
    }

    /// Restores the saved original byte at `addr` and forgets it, so the
    /// patch is no longer installed there. Fails with `MemoryAccess`
    /// exactly when the address is unmapped, changing nothing.
    pub fn restore(&mut self, addr: usize, proc: &mut TracedProcess) -> (r: Result<
        (),
        TraceError,
    >)
        requires
            old(proc).wf(),
            old(proc).live(),
            old(self).orig@.contains_key(addr),
        ensures
            final(self).addrs@ == old(self).addrs@,
            final(proc).wf(),
            final(proc).regs == old(proc).regs,
            final(proc).counter == old(proc).counter,
            final(proc).state == old(proc).state,
            final(proc).mem.limit == old(proc).mem.limit,
            match r {
                Ok(()) => {
                    &&& map_word_mapped(old(proc).mem@, addr)
                    &&& final(self).orig@ == old(self).orig@.remove(addr)
                    &&& final(proc).mem@ == map_write_byte(
                        old(proc).mem@,
                        addr,
                        old(self).orig@[addr],
                    )
                },
                Err(e) => {
                    &&& e == (TraceError::MemoryAccess { addr })
                    &&& !map_word_mapped(old(proc).mem@, addr)
                    &&& final(self).orig@ == old(self).orig@
                    &&& final(proc).mem@ == old(proc).mem@
                },
            },
    {
        let saved = match self.orig.get(&addr) {
            Some(b) => *b,
            None => {
                return Err(TraceError::MemoryAccess { addr });
            },
        };
        match proc.write_byte(addr, saved) {
            Ok(_) => {
                self.orig.remove(&addr);
                Ok(())
            },
            Err(e) => Err(e),
        }
    }
}

} // verus!
