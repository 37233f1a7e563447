//! The process controller: sole owner of the traced process. One resume
//! arms the requested breakpoints, lets the process run to its next trap,
//! exit or signal, and classifies what happened; a trap on an armed
//! breakpoint restores the displaced byte, rewinds the instruction pointer
//! onto the breakpoint, and records it as pending, so that the next resume
//! first single-steps across the original instruction and re-arms the trap
//! before running on.

use vstd::prelude::*;
use crate::breakpoints::{consistent, lemma_install_from_props, spec_install_from, BreakpointTable};
use crate::machine::{
    spec_run, spec_step, Registers, RunState, TracedProcess, OP_TRAP,
};
use crate::memory::{
    lemma_map_write_byte, map_byte_at, map_word_mapped, map_write_byte, Memory,
};
use crate::status::{Status, TraceError, SIGKILL, SIGTRAP};

verus! {

/// The controller: the traced process and the marker for a breakpoint the
/// process is currently stopped exactly on, whose original instruction
/// has not yet executed. At most one such marker exists, because the
/// process has one instruction pointer.
pub struct Inferior {
    /// The traced process.
    pub proc: TracedProcess,
    /// The address of the just-hit breakpoint still to be stepped over.
    pub pending: Option<usize>,
}

/// The classification of a process state as a reported status: a live
/// process is suspended by a trap at its current instruction pointer.
pub open spec fn spec_status_of(state: RunState, rip: usize) -> Status {
    match state {
        RunState::Live => Status::Stopped(SIGTRAP, rip),
        RunState::Exited(c) => Status::Exited(c),
        RunState::Signaled(s) => Status::Signaled(s),
    }
}

/// What one resume does after any pending step-over is out of the way:
/// install every requested patch (an unmapped address stops the pass,
/// reporting which breakpoint failed and leaving the earlier patches in
/// place and the process where it was); then run freely; if the run ends
/// in a trap whose preceding address holds an installed patch, restore
/// that byte, rewind onto the breakpoint, mark it pending, and report the
/// stop at the breakpoint address itself. Returns saved bytes, memory,
/// registers, counter, run state, pending marker, and the result.
pub open spec fn spec_resume_body(
    addrs: Seq<usize>,
    orig: Map<usize, u8>,
    mv: Map<usize, u64>,
    limit: usize,
    regs: Registers,
    counter: u64,
) -> (Map<usize, u8>, Map<usize, u64>, Registers, u64, RunState, Option<usize>, Result<
    Status,
    TraceError,
>) {
    let (orig2, mv2, fail) = spec_install_from(addrs, 0, orig, mv);
    match fail {
        Some(f) => (
            orig2,
            mv2,
            regs,
            counter,
            RunState::Live,
            None,
            Err(TraceError::InstallFailed { index: f as usize, addr: addrs[f] }),
        ),
        None => {
            let (regs3, c3, s3) = spec_run(mv2, limit, regs, counter);
            match s3 {
                RunState::Live => {
                    if regs3.rip >= 1 && orig2.contains_key((regs3.rip - 1) as usize) {
                        let bp = (regs3.rip - 1) as usize;
                        (
                            orig2.remove(bp),
                            map_write_byte(mv2, bp, orig2[bp]),
                            Registers { rip: bp, ..regs3 },
                            c3,
                            RunState::Live,
                            Some(bp),
                            Ok(Status::Stopped(SIGTRAP, bp)),
                        )
                    } else {
                        (orig2, mv2, regs3, c3, s3, None, Ok(Status::Stopped(SIGTRAP, regs3.rip)))
                    }
                },
                RunState::Exited(c) => (orig2, mv2, regs3, c3, s3, None, Ok(Status::Exited(c))),
                RunState::Signaled(sg) => (
                    orig2,
                    mv2,
                    regs3,
                    c3,
                    s3,
                    None,
                    Ok(Status::Signaled(sg)),
                ),
            }
        },
    }
}

/// One whole resume: if a breakpoint is pending, first single-step the
/// original instruction; a step that terminates the process reports that
/// status at once, installing nothing; otherwise the trap byte is
/// re-armed over the breakpoint and the resume proceeds as
/// `spec_resume_body` says.
pub open spec fn spec_cont(
    addrs: Seq<usize>,
    orig: Map<usize, u8>,
    mv: Map<usize, u64>,
    limit: usize,
    regs: Registers,
    counter: u64,
    pending: Option<usize>,
) -> (Map<usize, u8>, Map<usize, u64>, Registers, u64, RunState, Option<usize>, Result<
    Status,
    TraceError,
>) {
    match pending {
        None => spec_resume_body(addrs, orig, mv, limit, regs, counter),
        Some(bp) => {
            let (regs1, c1, s1) = spec_step(mv, regs, counter);
            if !(s1 is Live) {
                (orig, mv, regs1, c1, s1, None, Ok(spec_status_of(s1, regs1.rip)))
            } else {
                spec_resume_body(
                    addrs,
                    orig.insert(bp, map_byte_at(mv, bp)),
                    map_write_byte(mv, bp, OP_TRAP),
                    limit,
                    regs1,
                    c1,
                )
            }
        },
    }
}

impl Inferior {
    /// The agreement the engine maintains between controller and table:
    /// memory is well formed; wherever a byte is saved, the trap byte is
    /// installed; and a pending breakpoint is a mapped address the live
    /// process is stopped exactly on, whose patch is not installed.
    pub open spec fn wf_with(self, table: BreakpointTable) -> bool {
        &&& self.proc.wf()
        &&& consistent(table.orig@, self.proc.mem@)
        &&& match self.pending {
            Some(bp) => {
                &&& self.proc.live()
                &&& self.proc.regs.rip == bp
                &&& map_word_mapped(self.proc.mem@, bp)
                &&& !table.orig@.contains_key(bp)
            },
            None => true,
        }
    }

    /// Launches the target suspended at its entry point, before any user
    /// instruction has run. Fails with `SpawnFailed` exactly when the
    /// entry point is not mapped.
    pub fn new(mem: Memory, regs: Registers) -> (r: Result<Inferior, TraceError>)
        requires
            mem.wf(),
        ensures
            match r {
                Ok(inf) => {
                    &&& inf.proc == (TracedProcess { mem, regs, counter: 0, state: RunState::Live })
                    &&& inf.pending is None
                    &&& map_word_mapped(mem@, regs.rip)
                    &&& inf.proc.wf() && inf.proc.live()
                },
                Err(e) => e == TraceError::SpawnFailed && !map_word_mapped(mem@, regs.rip),
            },
    {
        match TracedProcess::start(mem, regs) {
            Ok(p) => Ok(Inferior { proc: p, pending: None }),
            Err(e) => Err(e),
        }
    }

    /// The classified state of the process right now.
    fn status_now(&self) -> (st: Status)
        ensures
            st == spec_status_of(self.proc.state, self.proc.regs.rip),
    {
        match self.proc.state {
            RunState::Live => Status::Stopped(SIGTRAP, self.proc.regs.rip),
            RunState::Exited(c) => Status::Exited(c),
            RunState::Signaled(s) => Status::Signaled(s),
        }
    }

    /// Reports the process's classified state, as a wait on it would.
    pub fn wait(&self) -> (r: Result<Status, TraceError>)
        ensures
            r == Ok::<Status, TraceError>(spec_status_of(self.proc.state, self.proc.regs.rip)),
    {
        Ok(self.status_now())
    }

    /// Whether the process has not terminated.
    pub fn is_live(&self) -> (r: bool)
        ensures
            r == self.proc.live(),
    {
        self.proc.is_live()
    }

    /// Terminates the process and drops any pending marker. Calling it
    /// again, or after the process already exited, changes nothing and
    /// never fails: kill is idempotent on a terminated process.
    pub fn kill(&mut self)
        ensures
            old(self).proc.live() ==> final(self).proc == (TracedProcess {
                state: RunState::Signaled(SIGKILL),
                ..old(self).proc
            }),
            !old(self).proc.live() ==> final(self).proc == old(self).proc,
            final(self).pending is None,
            !final(self).proc.live(),
            forall|t: BreakpointTable|
                old(self).wf_with(t) ==> final(self).wf_with(t),
    {
        self.proc.kill();
        self.pending = None;
    }

    /// Resumes the stopped process: steps over a pending breakpoint,
    /// re-arms it, installs every requested patch, runs to the next stop
    /// and classifies it, restoring and rewinding onto a hit breakpoint.
    /// The returned stop for a breakpoint hit carries the breakpoint
    /// address itself. A failed patch install aborts the resume with the
    /// failing breakpoint's index; the process stays where it was.
    pub fn cont(&mut self, table: &mut BreakpointTable) -> (r: Result<Status, TraceError>)
        requires
            old(self).wf_with(*old(table)),
            old(self).proc.live(),
        ensures
            final(table).addrs@ == old(table).addrs@,
            final(self).proc.mem.limit == old(self).proc.mem.limit,
            final(self).wf_with(*final(table)),
            ({
                let (orig_f, mv_f, regs_f, counter_f, state_f, pending_f, result) = spec_cont(
                    old(table).addrs@,
                    old(table).orig@,
                    old(self).proc.mem@,
                    old(self).proc.mem.limit,
                    old(self).proc.regs,
                    old(self).proc.counter,
                    old(self).pending,
                );
                &&& final(table).orig@ == orig_f
                &&& final(self).proc.mem@ == mv_f
                &&& final(self).proc.regs == regs_f
                &&& final(self).proc.counter == counter_f
                &&& final(self).proc.state == state_f
                &&& final(self).pending == pending_f
                &&& r == result
            }),
    {
        let ghost addrs0 = table.addrs@;
        let ghost orig0 = table.orig@;
        let ghost mv0 = self.proc.mem@;
        let ghost limit0 = self.proc.mem.limit;
        let ghost regs0 = self.proc.regs;
        let ghost counter0 = self.proc.counter;
        let ghost pending0 = self.pending;

        // Step over a pending breakpoint: execute its original
        // instruction, then re-arm the trap byte over it.
        if let Some(bp) = self.pending {
            let _ev = self.proc.single_step();
            if !self.proc.is_live() {
                self.pending = None;
                return Ok(self.status_now());
            }
            match table.install_at(bp, &mut self.proc) {
                Ok(()) => {},
                Err(e) => {
                    proof {
                        assert(false);
                    }
                    return Err(e);
                },
            }
            self.pending = None;
        }
        proof {
            assert(spec_cont(addrs0, orig0, mv0, limit0, regs0, counter0, pending0)
                == spec_resume_body(
                addrs0,
                table.orig@,
                self.proc.mem@,
                limit0,
                self.proc.regs,
                self.proc.counter,
            ));
            assert(consistent(table.orig@, self.proc.mem@)) by {
                if pending0 is Some {
                    let bp = pending0->0;
                    lemma_map_write_byte(mv0, bp, OP_TRAP);
                    assert forall|a: usize| #[trigger] table.orig@.contains_key(a) implies
                        map_word_mapped(self.proc.mem@, a) && map_byte_at(self.proc.mem@, a)
                        == OP_TRAP by {
                        if a != bp {
                            assert(orig0.contains_key(a));
                        }
                    }
                }
            }
        }
        let ghost orig_a = table.orig@;
        let ghost mv_a = self.proc.mem@;
        let ghost regs_a = self.proc.regs;
        let ghost counter_a = self.proc.counter;

        // Arm every requested breakpoint not already armed.
        match table.install_all(&mut self.proc) {
            Ok(()) => {},
            Err(e) => {
                proof {
                    lemma_install_from_props(addrs0, 0, orig_a, mv_a);
                }
                return Err(e);
            },
        }
        proof {
            lemma_install_from_props(addrs0, 0, orig_a, mv_a);
        }

        // Run freely to the next trap, exit or signal.
        let _ev = self.proc.resume_run();

        // Classify; a trap one byte past an armed breakpoint is a hit:
        // restore the original byte and rewind onto the breakpoint.
        if self.proc.is_live() {
            let rip = self.proc.get_regs().rip;
            if rip >= 1 && table.is_installed(rip - 1) {
                let bp = rip - 1;
                let ghost orig_b = table.orig@;
                let ghost mv_b = self.proc.mem@;
                match table.restore(bp, &mut self.proc) {
                    Ok(()) => {},
                    Err(e) => {
                        proof {
                            assert(false);
                        }
                        return Err(e);
                    },
                }
                self.proc.set_rip(bp);
                self.pending = Some(bp);
                proof {
                    lemma_map_write_byte(mv_b, bp, orig_b[bp]);
                    assert forall|a: usize| #[trigger] table.orig@.contains_key(a) implies
                        map_word_mapped(self.proc.mem@, a) && map_byte_at(self.proc.mem@, a)
                        == OP_TRAP by {
                        assert(orig_b.contains_key(a) && a != bp);
                    }
                }
                return Ok(Status::Stopped(SIGTRAP, bp));
            }
            return Ok(Status::Stopped(SIGTRAP, rip));
        }
        let st = self.status_now();
        Ok(st)
    }
}

} // verus!
