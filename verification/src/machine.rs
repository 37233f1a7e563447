//! The traced process itself, modeled: memory, the two registers the core
//! reads and writes (instruction pointer and frame-base pointer), a counter
//! register whose increments make instruction execution observable, and the
//! run state. Instructions are one byte wide; the process runs straight
//! through its mapped code until a trap opcode, an exit, or a fault. This
//! is the process-control capability the breakpoint engine is verified
//! against, and what its tests drive.

use vstd::prelude::*;
use crate::memory::{map_byte_at, map_word_mapped, Memory};
use crate::status::{TraceError, WaitEvent, SIGILL, SIGKILL, SIGSEGV, SIGTRAP};

verus! {

/// The trap opcode planted over a breakpoint's original byte.
pub const OP_TRAP: u8 = 0xcc;

/// An instruction with no effect.
pub const OP_NOP: u8 = 0x90;

/// Increments the counter register (saturating at its maximum).
pub const OP_INC: u8 = 0x40;

/// Ends the process; the exit code is the low byte of the counter.
pub const OP_EXIT: u8 = 0xf4;


/// The instruction byte at `rip` in memory `mv`, if mapped.
pub open spec fn spec_fetch(mv: Map<usize, u64>, rip: usize) -> Option<u8> {
    if map_word_mapped(mv, rip) {
        Some(map_byte_at(mv, rip))
    } else {
        None
    }
}

/// Whether the instruction at `rip` neither traps, exits nor faults.
pub open spec fn spec_next_is_plain(mv: Map<usize, u64>, rip: usize) -> bool {
    match spec_fetch(mv, rip) {
        Some(b) => b == OP_INC || b == OP_NOP,
        None => false,
    }
}

/// The registers, counter and run state of a live process after executing
/// exactly one instruction in memory `mv`: a trap advances past the trap
/// byte and suspends; exit and faults terminate; plain instructions
/// advance (an increment bumps the counter, saturating).
pub open spec fn spec_step(mv: Map<usize, u64>, regs: Registers, counter: u64) -> (
    Registers,
    u64,
    RunState,
) {
    match spec_fetch(mv, regs.rip) {
        None => (regs, counter, RunState::Signaled(SIGSEGV)),
        Some(b) => {
            if b == OP_TRAP {
                (Registers { rip: (regs.rip + 1) as usize, ..regs }, counter, RunState::Live)
            } else if b == OP_EXIT {
                (regs, counter, RunState::Exited((counter % 256) as i32))
            } else if b == OP_INC {
                (
                    Registers { rip: (regs.rip + 1) as usize, ..regs },
                    if counter == u64::MAX {
                        counter
                    } else {
                        (counter + 1) as u64
                    },
                    RunState::Live,
                )
            } else if b == OP_NOP {
                (Registers { rip: (regs.rip + 1) as usize, ..regs }, counter, RunState::Live)
            } else {
                (regs, counter, RunState::Signaled(SIGILL))
            }
        },
    }
}

/// The registers, counter and run state of a live process after running
/// freely in memory `mv` until the next trap, exit or fault.
pub open spec fn spec_run(mv: Map<usize, u64>, limit: usize, regs: Registers, counter: u64) -> (
    Registers,
    u64,
    RunState,
)
    decreases limit - regs.rip,
    when crate::memory::spec_mem_wf(mv, limit)
{
    if spec_next_is_plain(mv, regs.rip) {
        let (regs1, counter1, _state1) = spec_step(mv, regs, counter);
        spec_run(mv, limit, regs1, counter1)
    } else {
        spec_step(mv, regs, counter)
    }
}

/// The registers the debugging core works with.
#[derive(Clone, Copy, Debug, PartialEq, Eq, Structural)]
pub struct Registers {
    /// Instruction pointer.
    pub rip: usize,
    /// Frame-base pointer.
    pub rbp: usize,
}

/// Whether the process is still alive or has terminated, and how.
#[derive(Clone, Copy, Debug, PartialEq, Eq, Structural)]
pub enum RunState {
    /// Alive (suspended between operations, as every traced process is).
    Live,
    /// Exited normally with this code. Terminal.
    Exited(i32),
    /// Killed by this signal. Terminal.
    Signaled(i32),
}

/// The modeled traced process.
pub struct TracedProcess {
    /// Its memory.
    pub mem: Memory,
    /// Its registers.
    pub regs: Registers,
    /// The counter register: the one observable side effect of execution.
    pub counter: u64,
    /// Alive or terminated.
    pub state: RunState,
}

impl TracedProcess {
    /// Well-formedness: the memory bound holds.
    pub open spec fn wf(self) -> bool {
        self.mem.wf()
    }

    /// Whether the process has not terminated.
    pub open spec fn live(self) -> bool {
        self.state is Live
    }

    /// The instruction byte under the instruction pointer, if mapped.
    pub open spec fn fetch(self) -> Option<u8> {
        spec_fetch(self.mem@, self.regs.rip)
    }

    /// Whether the next instruction neither traps, exits nor faults, so
    /// that a free-running process would execute past it.
    pub open spec fn next_is_plain(self) -> bool {
        spec_next_is_plain(self.mem@, self.regs.rip)
    }

    /// The process after a kill request: terminated by the kill signal if
    /// it was alive, untouched if it had already terminated.
    pub open spec fn spec_kill(self) -> TracedProcess {
        if self.live() {
            TracedProcess { state: RunState::Signaled(SIGKILL), ..self }
        } else {
            self
        }
    }

    /// The wait event that reports this process's current state: alive
    /// means suspended by a trap at the current instruction pointer.
    pub open spec fn wait_event(self) -> WaitEvent {
        match self.state {
            RunState::Live => WaitEvent::Stopped(SIGTRAP, self.regs.rip),
            RunState::Exited(code) => WaitEvent::Exited(code),
            RunState::Signaled(sig) => WaitEvent::Signaled(sig),
        }
    }

    /// Launches the target, suspended at its entry point before any user
    /// instruction runs. Fails with `SpawnFailed` exactly when the entry
    /// point is not mapped, the model's analogue of a target that cannot
    /// be executed.
    pub fn start(mem: Memory, regs: Registers) -> (r: Result<TracedProcess, TraceError>)
        requires
            mem.wf(),
        ensures
            match r {
                Ok(p) => {
                    &&& p == (TracedProcess { mem, regs, counter: 0, state: RunState::Live })
                    &&& mem.word_mapped(regs.rip)
                    &&& p.wf() && p.live()
                },
                Err(e) => e == TraceError::SpawnFailed && !mem.word_mapped(regs.rip),
            },
    {
        match mem.read_byte(regs.rip) {
            Ok(_) => Ok(TracedProcess { mem, regs, counter: 0, state: RunState::Live }),
            Err(_) => Err(TraceError::SpawnFailed),
        }
    }

    /// Whether the process has not terminated.
    pub fn is_live(&self) -> (r: bool)
        ensures
            r == self.live(),
    {
        match self.state {
            RunState::Live => true,
            _ => false,
        }
    }

    /// Executes exactly one instruction and reports the resulting wait
    /// event, as a single-step request does.
    pub fn single_step(&mut self) -> (ev: WaitEvent)
        requires
            old(self).wf(),
            old(self).live(),
        ensures
            final(self).mem == old(self).mem,
            (final(self).regs, final(self).counter, final(self).state) == spec_step(
                old(self).mem@,
                old(self).regs,
                old(self).counter,
            ),
            ev == final(self).wait_event(),
            final(self).wf(),
    {
        match self.mem.read_byte(self.regs.rip) {
            Err(_) => {
                self.state = RunState::Signaled(SIGSEGV);
                WaitEvent::Signaled(SIGSEGV)
            },
            Ok(b) => {
                proof {
                    assert(self.mem@.contains_key(crate::word::spec_align_addr(self.regs.rip)));
                }
                if b == OP_TRAP {
                    self.regs.rip = self.regs.rip + 1;
                    WaitEvent::Stopped(SIGTRAP, self.regs.rip)
                } else if b == OP_EXIT {
                    let code = (self.counter % 256) as i32;
                    self.state = RunState::Exited(code);
                    WaitEvent::Exited(code)
                } else if b == OP_INC {
                    self.counter = if self.counter == u64::MAX {
                        self.counter
                    } else {
                        self.counter + 1
                    };
                    self.regs.rip = self.regs.rip + 1;
                    WaitEvent::Stopped(SIGTRAP, self.regs.rip)
                } else if b == OP_NOP {
                    self.regs.rip = self.regs.rip + 1;
                    WaitEvent::Stopped(SIGTRAP, self.regs.rip)
                } else {
                    self.state = RunState::Signaled(SIGILL);
                    WaitEvent::Signaled(SIGILL)
                }
            },
        }
    }

    /// Resumes the process to run freely and blocks until it traps, exits
    /// or faults, reporting the resulting wait event.
    pub fn resume_run(&mut self) -> (ev: WaitEvent)
        requires
            old(self).wf(),
            old(self).live(),
        ensures
            final(self).mem == old(self).mem,
            (final(self).regs, final(self).counter, final(self).state) == spec_run(
                old(self).mem@,
                old(self).mem.limit,
                old(self).regs,
                old(self).counter,
            ),
            ev == final(self).wait_event(),
            final(self).wf(),
    {
        loop
            invariant
                self.wf(),
                self.live(),
                self.mem == old(self).mem,
                spec_run(self.mem@, self.mem.limit, self.regs, self.counter) == spec_run(
                    old(self).mem@,
                    old(self).mem.limit,
                    old(self).regs,
                    old(self).counter,
                ),
            decreases self.mem.limit - self.regs.rip,
        {
            let advance = match self.mem.read_byte(self.regs.rip) {
                Ok(b) => b == OP_INC || b == OP_NOP,
                Err(_) => false,
            };
            if advance {
                proof {
                    assert(self.mem@.contains_key(crate::word::spec_align_addr(self.regs.rip)));
                }
                let _ = self.single_step();
            } else {
                let ev = self.single_step();
                return ev;
            }
        }
    }

    /// Terminates the process if it is alive; on an already-terminated
    /// process this does nothing, so a second kill, or a kill after the
    /// process exited on its own, is always safe.
    pub fn kill(&mut self)
        ensures
            *final(self) == old(self).spec_kill(),
            !final(self).live(),
    {
        match self.state {
            RunState::Live => {
                self.state = RunState::Signaled(SIGKILL);
            },
            _ => {},
        }
    }

    /// Reads the registers of the (still live) process.
    pub fn get_regs(&self) -> (r: Registers)
        requires
            self.live(),
        ensures
            r == self.regs,
    {
        self.regs
    }

    /// Rewinds or repositions the instruction pointer.
    pub fn set_rip(&mut self, rip: usize)
        requires
            old(self).live(),
        ensures
            *final(self) == (TracedProcess {
                regs: Registers { rip, ..old(self).regs },
                ..*old(self)
            }),
    {
        self.regs.rip = rip;
    }

    /// Replaces one byte of the process's memory, returning the byte that
    /// was there; registers, counter and run state are untouched.
    pub fn write_byte(&mut self, addr: usize, val: u8) -> (r: Result<u8, TraceError>)
        requires
            old(self).wf(),
            old(self).live(),
        ensures
            final(self).wf(),
            final(self).regs == old(self).regs,
            final(self).counter == old(self).counter,
            final(self).state == old(self).state,
            final(self).mem.limit == old(self).mem.limit,
            match r {
                Ok(orig) => {
                    &&& old(self).mem.word_mapped(addr)
                    &&& orig == old(self).mem.spec_byte_at(addr)
                    &&& final(self).mem@ == old(self).mem@.insert(
                        crate::word::spec_align_addr(addr),
                        crate::word::spec_put_byte(
                            old(self).mem@[crate::word::spec_align_addr(addr)],
                            crate::word::spec_byte_offset(addr),
                            val,
                        ),
                    )
                    &&& final(self).mem.spec_byte_at(addr) == val
                    &&& forall|a2: usize|
                        old(self).mem.word_mapped(a2) ==> final(self).mem.word_mapped(a2) && (a2
                            != addr ==> final(self).mem.spec_byte_at(a2) == old(
                            self,
                        ).mem.spec_byte_at(a2))
                },
                Err(e) => {
                    &&& e == (TraceError::MemoryAccess { addr })
                    &&& !old(self).mem.word_mapped(addr)
                    &&& final(self).mem@ == old(self).mem@
                },
            },
    {
        self.mem.write_byte(addr, val)
    }

    /// Reads one word of the process's memory.
    pub fn read_word(&self, addr: usize) -> (r: Result<u64, TraceError>)
        requires
            self.live(),
        ensures
            match r {
                Ok(w) => addr % 8 == 0 && self.mem@.contains_key(addr) && w == self.mem@[addr],
                Err(e) => {
                    &&& e == (TraceError::MemoryAccess { addr })
                    &&& !(addr % 8 == 0 && self.mem@.contains_key(addr))
                },
            },
    {
        self.mem.read_word(addr)
    }
}

} // verus!
