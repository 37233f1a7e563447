//! The session: one controller and one breakpoint table, driven
//! atomically by run, continue, break and backtrace requests. At most one
//! traced process is live at a time; starting a new run kills any prior
//! one first. Breakpoints outlive individual processes: the requested
//! addresses persist across runs, while the saved patch bytes belong to
//! one process's memory and are dropped when it is replaced. The session
//! returns classified results; rendering them as text, reading commands
//! and resolving breakpoint syntax belong to the layer around it.

use vstd::prelude::*;
use crate::breakpoints::BreakpointTable;
use crate::inferior::{spec_cont, Inferior};
use crate::machine::Registers;
use crate::memory::{map_word_mapped, Memory};
use crate::status::{Status, TraceError};
use crate::unwind::{backtrace, spec_is_walk, StackFrame, SymbolTable};

verus! {

/// A debugging session over one target program.
pub struct Debugger {
    /// Path of the target program, kept for display by the outer layer.
    pub target: String,
    /// Symbol information of the target.
    pub debug_data: SymbolTable,
    /// The current traced process, if one is running.
    pub inferior: Option<Inferior>,
    /// The requested breakpoints.
    pub breakpoints: BreakpointTable,
}

impl Debugger {
    /// The session invariant: a live controller agrees with the table.
    pub open spec fn wf(self) -> bool {
        match self.inferior {
            Some(inf) => inf.wf_with(self.breakpoints) && inf.proc.live(),
            None => true,
        }
    }

    /// Whether a traced process is currently running.
    pub open spec fn running(self) -> bool {
        self.inferior is Some
    }

    /// A fresh session: no process, no breakpoints.
    pub fn new(target: String, debug_data: SymbolTable) -> (d: Debugger)
        ensures
            d.target == target,
            d.debug_data == debug_data,
            d.inferior is None,
            d.breakpoints.addrs@ == Seq::<usize>::empty(),
            d.breakpoints.orig@ == Map::<usize, u8>::empty(),
            d.wf(),
    {
        Debugger { target, debug_data, inferior: None, breakpoints: BreakpointTable::new() }
    }

    /// Whether a traced process is currently running.
    pub fn is_running(&self) -> (r: bool)
        ensures
            r == self.running(),
    {
        match &self.inferior {
            Some(_) => true,
            None => false,
        }
    }

    /// Kills the current process, if any, and releases it. Safe to call
    /// at any time, any number of times: without a process it is a no-op,
    /// so killing twice or after an exit neither fails nor blocks.
    pub fn kill(&mut self)
        ensures
            final(self).inferior is None,
            final(self).breakpoints == old(self).breakpoints,
            final(self).target == old(self).target,
            final(self).debug_data == old(self).debug_data,
            old(self).inferior is None ==> *final(self) == *old(self),
            final(self).wf(),
    {
        if let Some(inf) = &mut self.inferior {
            inf.kill();
        }
        self.inferior = None;
    }

    /// Registers a breakpoint, returning its id in request order. The
    /// running process, if any, is not touched: the patch is installed at
    /// the start of the next resume.
    pub fn set_breakpoint(&mut self, addr: usize) -> (id: usize)
        requires
            old(self).wf(),
        ensures
            final(self).breakpoints.addrs@ == old(self).breakpoints.addrs@.push(addr),
            final(self).breakpoints.orig@ == old(self).breakpoints.orig@,
            id == old(self).breakpoints.addrs@.len(),
            final(self).inferior == old(self).inferior,
            final(self).target == old(self).target,
            final(self).debug_data == old(self).debug_data,
            final(self).wf(),
    {
        self.breakpoints.register(addr)
    }

    /// Resumes the running process and classifies the outcome, exactly as
    /// the controller's resume does; a terminal outcome releases the
    /// process. A failed breakpoint install leaves the process where it
    /// was, still held by the session.
    pub fn cont(&mut self) -> (r: Result<Status, TraceError>)
        requires
            old(self).wf(),
            old(self).running(),
        ensures
            final(self).target == old(self).target,
            final(self).debug_data == old(self).debug_data,
            final(self).breakpoints.addrs@ == old(self).breakpoints.addrs@,
            final(self).wf(),
            ({
                let inf = old(self).inferior.unwrap();
                let (orig_f, mv_f, regs_f, counter_f, state_f, pending_f, result) = spec_cont(
                    old(self).breakpoints.addrs@,
                    old(self).breakpoints.orig@,
                    inf.proc.mem@,
                    inf.proc.mem.limit,
                    inf.proc.regs,
                    inf.proc.counter,
                    inf.pending,
                );
                &&& r == result
                &&& final(self).breakpoints.orig@ == orig_f
                &&& (state_f is Live ==> (final(self).inferior matches Some(inf2)
                    && inf2.proc.mem@ == mv_f && inf2.proc.regs == regs_f && inf2.proc.counter
                    == counter_f && inf2.proc.state == state_f && inf2.pending == pending_f))
                &&& (!(state_f is Live) ==> final(self).inferior is None)
            }),
    {
        let inf = match &mut self.inferior {
            Some(inf) => inf,
            None => {
                proof {
                    assert(false);
                }
                return Err(TraceError::UnexpectedWaitStatus);
            },
        };
        let r = inf.cont(&mut self.breakpoints);
        if !inf.is_live() {
            self.inferior = None;
        }
        r
    }

    /// Kills any prior process, then launches the target program anew,
    /// suspended at its entry, and immediately resumes it with every
    /// requested breakpoint armed; the first classified stop, exit or
    /// failure is returned as `cont` returns it. The saved patch bytes of
    /// the old process are dropped: they belong to its memory, not to the
    /// new one.
    pub fn run_program(&mut self, mem: Memory, regs: Registers) -> (r: Result<Status, TraceError>)
        requires
            old(self).wf(),
            mem.wf(),
        ensures
            final(self).target == old(self).target,
            final(self).debug_data == old(self).debug_data,
            final(self).breakpoints.addrs@ == old(self).breakpoints.addrs@,
            final(self).wf(),
            ({
                let (orig_f, mv_f, regs_f, counter_f, state_f, pending_f, result) = spec_cont(
                    old(self).breakpoints.addrs@,
                    Map::<usize, u8>::empty(),
                    mem@,
                    mem.limit,
                    regs,
                    0,
                    None,
                );
                if map_word_mapped(mem@, regs.rip) {
                    &&& r == result
                    &&& final(self).breakpoints.orig@ == orig_f
                    &&& (state_f is Live ==> (final(self).inferior matches Some(inf2)
                        && inf2.proc.mem@ == mv_f && inf2.proc.regs == regs_f && inf2.proc.counter
                        == counter_f && inf2.proc.state == state_f && inf2.pending == pending_f))
                    &&& (!(state_f is Live) ==> final(self).inferior is None)
                } else {
                    r == Err::<Status, TraceError>(TraceError::SpawnFailed) && final(self).inferior
                        is None
                }
            }),
    {
        self.kill();
        self.breakpoints.clear_installed();
        match Inferior::new(mem, regs) {
            Ok(inf) => {
                self.inferior = Some(inf);
                self.cont()
            },
            Err(e) => Err(e),
        }
    }

    /// Walks the stopped process's frame-pointer chain and returns the
    /// stack, innermost first, ending at the entry function.
    pub fn backtrace(&self) -> (r: Result<Vec<StackFrame>, TraceError>)
        requires
            self.wf(),
            self.running(),
        ensures
            match r {
                Ok(frames) => spec_is_walk(
                    self.debug_data.entries@,
                    self.debug_data.entry_name@,
                    self.inferior.unwrap().proc.mem@,
                    self.inferior.unwrap().proc.regs.rip,
                    self.inferior.unwrap().proc.regs.rbp,
                    frames@,
                ),
                Err(e) => {
                    let p = self.inferior.unwrap().proc;
                    let at = crate::machine::Registers { rip: p.regs.rip, rbp: p.regs.rbp };
                    match e {
                        TraceError::SymbolResolutionFailed => exists|v: Seq<
                            crate::machine::Registers,
                        >|
                            crate::unwind::spec_walk_stuck_unresolved(
                                self.debug_data.entries@,
                                self.debug_data.entry_name@,
                                p.mem@,
                                at,
                                v,
                            ),
                        TraceError::MemoryAccess { addr: _ } => exists|v: Seq<
                            crate::machine::Registers,
                        >|
                            crate::unwind::spec_walk_stuck_unreadable(
                                self.debug_data.entries@,
                                self.debug_data.entry_name@,
                                p.mem@,
                                at,
                                v,
                            ),
                        TraceError::CorruptFrameChain => exists|v: Seq<
                            crate::machine::Registers,
                        >|
                            crate::unwind::spec_walk_overlong(
                                self.debug_data.entries@,
                                self.debug_data.entry_name@,
                                p.mem@,
                                at,
                                v,
                            ),
                        _ => false,
                    }
                },
            },
    {
        match &self.inferior {
            Some(inf) => backtrace(&inf.proc, &self.debug_data),
            None => {
                proof {
                    assert(false);
                }
                Err(TraceError::SymbolResolutionFailed)
            },
        }
    }
}

} // verus!
