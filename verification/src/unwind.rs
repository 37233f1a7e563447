//! The unwinder: reconstructs the call stack of the stopped process by
//! walking the frame-pointer chain. Each visited instruction pointer is
//! resolved to a function and a source line through the symbol table; the
//! walk ends at the program's entry function, its one and only stopping
//! condition. A resolution miss fails the whole backtrace; there are no
//! partial frames. The symbol table itself is a static lookup structure
//! loaded once from the target and never mutated here.

use vstd::prelude::*;
use crate::machine::{Registers, TracedProcess};
use crate::status::TraceError;

verus! {

/// One function of the target: its name, its half-open address range,
/// and the source line reported for addresses inside it.
#[derive(Clone, Debug)]
pub struct SymbolEntry {
    /// Function name.
    pub name: String,
    /// First address of the function.
    pub low: usize,
    /// First address past the function.
    pub high: usize,
    /// Source line reported for addresses in the range.
    pub line: usize,
}

/// The pure address/name/line lookup capability the unwinder consumes.
pub struct SymbolTable {
    /// The functions, in the order lookups scan them.
    pub entries: Vec<SymbolEntry>,
    /// The name of the program's entry function, where every walk stops.
    pub entry_name: String,
}

/// One reconstructed stack frame: the resolved function name and source
/// line.
#[derive(Clone, Debug)]
pub struct StackFrame {
    /// Resolved function name.
    pub function: String,
    /// Resolved source line.
    pub line: usize,
}

/// The index of the first entry at or after `i` whose range contains
/// `addr`.
pub open spec fn spec_resolve_from(entries: Seq<SymbolEntry>, i: int, addr: usize) -> Option<int>
    decreases entries.len() - i,
{
    if i < 0 || i >= entries.len() {
        None
    } else if entries[i].low <= addr < entries[i].high {
        Some(i)
    } else {
        spec_resolve_from(entries, i + 1, addr)
    }
}

/// The index of the first entry whose range contains `addr`.
pub open spec fn spec_resolve(entries: Seq<SymbolEntry>, addr: usize) -> Option<int> {
    spec_resolve_from(entries, 0, addr)
}

/// The index of the first entry at or after `i` named `name`.
pub open spec fn spec_find_name_from(entries: Seq<SymbolEntry>, i: int, name: Seq<char>) -> Option<
    int,
>
    decreases entries.len() - i,
{
    if i < 0 || i >= entries.len() {
        None
    } else if entries[i].name@ == name {
        Some(i)
    } else {
        spec_find_name_from(entries, i + 1, name)
    }
}

/// The index of the first entry at or after `i` with source line `line`.
pub open spec fn spec_find_line_from(entries: Seq<SymbolEntry>, i: int, line: usize) -> Option<int>
    decreases entries.len() - i,
{
    if i < 0 || i >= entries.len() {
        None
    } else if entries[i].line == line {
        Some(i)
    } else {
        spec_find_line_from(entries, i + 1, line)
    }
}

/// `frames` is exactly the frame-pointer walk of memory `mv` starting at
/// instruction pointer `rip` and frame base `rbp`: each frame carries the
/// resolved name and line of the current instruction pointer; the walk
/// ends at the frame resolving to the entry function; any other frame
/// reads its return address one word above the frame base and the saved
/// caller frame base at the frame base, and continues there.
pub open spec fn spec_is_walk(
    entries: Seq<SymbolEntry>,
    entry_name: Seq<char>,
    mv: Map<usize, u64>,
    rip: usize,
    rbp: usize,
    frames: Seq<StackFrame>,
) -> bool
    decreases frames.len(),
{
    if frames.len() == 0 {
        false
    } else {
        match spec_resolve(entries, rip) {
            None => false,
            Some(i) => {
                let head_ok = frames[0].function@ == entries[i].name@ && frames[0].line
                    == entries[i].line;
                if entries[i].name@ == entry_name {
                    head_ok && frames.len() == 1
                } else {
                    head_ok && rbp + 8 <= usize::MAX && rbp % 8 == 0 && mv.contains_key(
                        (rbp + 8) as usize,
                    ) && mv.contains_key(rbp) && spec_is_walk(
                        entries,
                        entry_name,
                        mv,
                        mv[(rbp + 8) as usize] as usize,
                        mv[rbp] as usize,
                        frames.drop_first(),
                    )
                }
            },
        }
    }
}

impl SymbolTable {
    /// The index of the first entry whose range contains `addr`.
    fn resolve(&self, addr: usize) -> (r: Option<usize>)
        ensures
            match r {
                Some(i) => i < self.entries@.len() && spec_resolve(self.entries@, addr) == Some(
                    i as int,
                ),
                None => spec_resolve(self.entries@, addr) is None,
            },
    {
        let mut i: usize = 0;
        let n = self.entries.len();
        while i < n
            invariant
                i <= n,
                n == self.entries@.len(),
                spec_resolve_from(self.entries@, 0, addr) == spec_resolve_from(
                    self.entries@,
                    i as int,
                    addr,
                ),
            decreases n - i,
        {
            let e = &self.entries[i];
            if e.low <= addr && addr < e.high {
                return Some(i);
            }
            i = i + 1;
        }
        None
    }

    /// The name of the function containing `addr`, if any.
    pub fn get_function_from_addr(&self, addr: usize) -> (r: Option<String>)
        ensures
            r == match spec_resolve(self.entries@, addr) {
                Some(i) => Some(self.entries@[i].name),
                None => None::<String>,
            },
    {
        match self.resolve(addr) {
            Some(i) => Some(self.entries[i].name.clone()),
            None => None,
        }
    }

    /// The source line for `addr`, if any.
    pub fn get_line_from_addr(&self, addr: usize) -> (r: Option<usize>)
        ensures
            r == match spec_resolve(self.entries@, addr) {
                Some(i) => Some(self.entries@[i].line),
                None => None::<usize>,
            },
    {
        match self.resolve(addr) {
            Some(i) => Some(self.entries[i].line),
            None => None,
        }
    }

    /// The entry address of the first function with this name, if any.
    pub fn get_addr_for_function(&self, name: &String) -> (r: Option<usize>)
        ensures
            r == match spec_find_name_from(self.entries@, 0, name@) {
                Some(i) => Some(self.entries@[i].low),
                None => None::<usize>,
            },
    {
        let mut i: usize = 0;
        let n = self.entries.len();
        while i < n
            invariant
                i <= n,
                n == self.entries@.len(),
                spec_find_name_from(self.entries@, 0, name@) == spec_find_name_from(
                    self.entries@,
                    i as int,
                    name@,
                ),
            decreases n - i,
        {
            if self.entries[i].name == *name {
                return Some(self.entries[i].low);
            }
            i = i + 1;
        }
        None
    }

    /// The entry address of the first function carrying this source
    /// line, if any.
    pub fn get_addr_for_line(&self, line: usize) -> (r: Option<usize>)
        ensures
            r == match spec_find_line_from(self.entries@, 0, line) {
                Some(i) => Some(self.entries@[i].low),
                None => None::<usize>,
            },
    {
        let mut i: usize = 0;
        let n = self.entries.len();
        while i < n
            invariant
                i <= n,
                n == self.entries@.len(),
                spec_find_line_from(self.entries@, 0, line) == spec_find_line_from(
                    self.entries@,
                    i as int,
                    line,
                ),
            decreases n - i,
        {
            if self.entries[i].line == line {
                return Some(self.entries[i].low);
            }
            i = i + 1;
        }
        None
    }
}


/// `visited` is a valid partial walk: each position but the last
/// resolves to a non-entry function and links to the next one through
/// the frame slots in memory, exactly as the frame-pointer walk reads
/// them.
pub open spec fn spec_walk_steps(
    entries: Seq<SymbolEntry>,
    entry_name: Seq<char>,
    mv: Map<usize, u64>,
    visited: Seq<crate::machine::Registers>,
) -> bool {
    forall|k: int|
        0 <= k < visited.len() - 1 ==> {
            let i = spec_resolve(entries, (#[trigger] visited[k]).rip)->0;
            &&& spec_resolve(entries, visited[k].rip) is Some
            &&& entries[i].name@ != entry_name
            &&& visited[k].rbp + 8 <= usize::MAX
            &&& visited[k].rbp % 8 == 0
            &&& mv.contains_key((visited[k].rbp + 8) as usize)
            &&& mv.contains_key(visited[k].rbp)
            &&& visited[k + 1].rip == mv[(visited[k].rbp + 8) as usize] as usize
            &&& visited[k + 1].rbp == mv[visited[k].rbp] as usize
        }
}

/// A walk from `start` that reached a position no symbol entry covers.
pub open spec fn spec_walk_stuck_unresolved(
    entries: Seq<SymbolEntry>,
    entry_name: Seq<char>,
    mv: Map<usize, u64>,
    start: crate::machine::Registers,
    visited: Seq<crate::machine::Registers>,
) -> bool {
    &&& visited.len() >= 1
    &&& visited[0] == start
    &&& spec_walk_steps(entries, entry_name, mv, visited)
    &&& spec_resolve(entries, visited.last().rip) is None
}

/// A walk from `start` that reached a non-entry frame whose frame slots
/// cannot be read: the frame base is unaligned, too high, or its words
/// are unmapped.
pub open spec fn spec_walk_stuck_unreadable(
    entries: Seq<SymbolEntry>,
    entry_name: Seq<char>,
    mv: Map<usize, u64>,
    start: crate::machine::Registers,
    visited: Seq<crate::machine::Registers>,
) -> bool {
    &&& visited.len() >= 1
    &&& visited[0] == start
    &&& spec_walk_steps(entries, entry_name, mv, visited)
    &&& spec_resolve(entries, visited.last().rip) is Some
    &&& entries[spec_resolve(entries, visited.last().rip)->0].name@ != entry_name
    &&& !(visited.last().rbp + 8 <= usize::MAX && visited.last().rbp % 8 == 0 && mv.contains_key(
        (visited.last().rbp + 8) as usize,
    ) && mv.contains_key(visited.last().rbp))
}

/// A walk from `start` through more frames than the target has mapped
/// words: since a frame's successor is a function of its frame base
/// alone, such a walk must revisit a frame base and can only cycle.
pub open spec fn spec_walk_overlong(
    entries: Seq<SymbolEntry>,
    entry_name: Seq<char>,
    mv: Map<usize, u64>,
    start: crate::machine::Registers,
    visited: Seq<crate::machine::Registers>,
) -> bool {
    &&& visited.len() > mv.dom().len() + 1
    &&& visited[0] == start
    &&& spec_walk_steps(entries, entry_name, mv, visited)
}

/// Walks the frame-pointer chain of the stopped process and returns the
/// frames, innermost first, ending at the entry function. If it returns
/// at all, the result is exactly the chain that stands in the process's
/// memory; an unresolvable instruction pointer aborts with
/// `SymbolResolutionFailed` and an unreadable frame slot with
/// `MemoryAccess`, neither touching the process. There is no frame-count
/// limit for genuine chains: a walk can only be longer than the number of
/// mapped words by revisiting a frame base, whose successor is a function
/// of that base alone, so such a chain cycles forever; the walk stops
/// there with `CorruptFrameChain` instead of following the cycle.
pub fn backtrace(proc: &TracedProcess, symbols: &SymbolTable) -> (r: Result<
    Vec<StackFrame>,
    TraceError,
>)
    requires
        proc.live(),
    ensures
        match r {
            Ok(frames) => spec_is_walk(
                symbols.entries@,
                symbols.entry_name@,
                proc.mem@,
                proc.regs.rip,
                proc.regs.rbp,
                frames@,
            ),
            Err(e) => {
                let start = Registers { rip: proc.regs.rip, rbp: proc.regs.rbp };
                match e {
                    TraceError::SymbolResolutionFailed => exists|v: Seq<Registers>|
                        spec_walk_stuck_unresolved(
                            symbols.entries@,
                            symbols.entry_name@,
                            proc.mem@,
                            start,
                            v,
                        ),
                    TraceError::MemoryAccess { addr: _ } => exists|v: Seq<Registers>|
                        spec_walk_stuck_unreadable(
                            symbols.entries@,
                            symbols.entry_name@,
                            proc.mem@,
                            start,
                            v,
                        ),
                    TraceError::CorruptFrameChain => exists|v: Seq<Registers>|
                        spec_walk_overlong(
                            symbols.entries@,
                            symbols.entry_name@,
                            proc.mem@,
                            start,
                            v,
                        ),
                    _ => false,
                }
            },
        },
{
    let regs = proc.get_regs();
    let mut rip: usize = regs.rip;
    let mut rbp: usize = regs.rbp;
    let mut frames: Vec<StackFrame> = Vec::new();
    let wc = proc.mem.word_count();
    let mut fuel: u128 = wc as u128 + 2;
    let ghost entries = symbols.entries@;
    let ghost ename = symbols.entry_name@;
    let ghost mv = proc.mem@;
    let ghost rip0 = proc.regs.rip;
    let ghost rbp0 = proc.regs.rbp;
    let ghost start = Registers { rip: rip0, rbp: rbp0 };
    let ghost mut visited: Seq<Registers> = seq![start];
    loop
        invariant
            proc.live(),
            entries == symbols.entries@,
            ename == symbols.entry_name@,
            mv == proc.mem@,
            rip0 == proc.regs.rip,
            rbp0 == proc.regs.rbp,
            start == (Registers { rip: rip0, rbp: rbp0 }),
            wc == mv.dom().len(),
            visited.len() >= 1,
            visited[0] == start,
            visited.last() == (Registers { rip: rip, rbp: rbp }),
            spec_walk_steps(entries, ename, mv, visited),
            fuel + visited.len() == wc as u128 + 3,
            forall|w: Seq<StackFrame>|
                spec_is_walk(entries, ename, mv, rip, rbp, w) ==> spec_is_walk(
                    entries,
                    ename,
                    mv,
                    rip0,
                    rbp0,
                    frames@ + w,
                ),
        decreases fuel,
    {
        if fuel == 0 {
            proof {
                assert(spec_walk_overlong(entries, ename, mv, start, visited));
            }
            return Err(TraceError::CorruptFrameChain);
        }
        fuel = fuel - 1;
        let i = match symbols.resolve(rip) {
            Some(i) => i,
            None => {
                proof {
                    assert(spec_walk_stuck_unresolved(entries, ename, mv, start, visited));
                }
                return Err(TraceError::SymbolResolutionFailed);
            },
        };
        let function = symbols.entries[i].name.clone();
        let line = symbols.entries[i].line;
        let is_entry = function == symbols.entry_name;
        let ghost frames_old = frames@;
        frames.push(StackFrame { function, line });
        if is_entry {
            proof {
                let fr = frames@.last();
                assert(spec_is_walk(entries, ename, mv, rip, rbp, seq![fr]));
                assert(spec_is_walk(entries, ename, mv, rip0, rbp0, frames_old + seq![fr]));
                assert(frames_old + seq![fr] =~= frames@);
            }
            return Ok(frames);
        }
        if rbp > usize::MAX - 8 {
            proof {
                assert(spec_walk_stuck_unreadable(entries, ename, mv, start, visited));
            }
            return Err(TraceError::MemoryAccess { addr: rbp });
        }
        let ret_addr = match proc.read_word(rbp + 8) {
            Ok(w) => w,
            Err(e) => {
                proof {
                    assert(spec_walk_stuck_unreadable(entries, ename, mv, start, visited));
                }
                return Err(e);
            },
        };
        let saved_rbp = match proc.read_word(rbp) {
            Ok(w) => w,
            Err(e) => {
                proof {
                    assert(spec_walk_stuck_unreadable(entries, ename, mv, start, visited));
                }
                return Err(e);
            },
        };
        let ghost prev_rip = rip;
        let ghost prev_rbp = rbp;
        rip = ret_addr as usize;
        rbp = saved_rbp as usize;
        proof {
            let ghost prev_visited = visited;
            visited = visited.push(Registers { rip: rip, rbp: rbp });
            assert forall|k: int| 0 <= k < visited.len() - 1 implies {
                let idx = spec_resolve(entries, (#[trigger] visited[k]).rip)->0;
                &&& spec_resolve(entries, visited[k].rip) is Some
                &&& entries[idx].name@ != ename
                &&& visited[k].rbp + 8 <= usize::MAX
                &&& visited[k].rbp % 8 == 0
                &&& mv.contains_key((visited[k].rbp + 8) as usize)
                &&& mv.contains_key(visited[k].rbp)
                &&& visited[k + 1].rip == mv[(visited[k].rbp + 8) as usize] as usize
                &&& visited[k + 1].rbp == mv[visited[k].rbp] as usize
            } by {
                if k < prev_visited.len() - 1 {
                    assert(visited[k] == prev_visited[k]);
                    assert(visited[k + 1] == prev_visited[k + 1]);
                } else {
                    assert(visited[k] == (Registers { rip: prev_rip, rbp: prev_rbp }));
                    assert(spec_resolve(entries, prev_rip) == Some(i as int));
                    assert(entries[i as int].name@ != ename);
                }
            }
            let fr = frames@.last();
            assert forall|w: Seq<StackFrame>|
                spec_is_walk(entries, ename, mv, rip, rbp, w) implies spec_is_walk(
                entries,
                ename,
                mv,
                rip0,
                rbp0,
                frames@ + w,
            ) by {
                let w1 = seq![fr] + w;
                assert(w1.len() == w.len() + 1);
                assert(w1[0] == fr);
                assert(w1.drop_first() =~= w);
                assert(spec_resolve(entries, prev_rip) == Some(i as int));
                assert(fr.function@ == entries[i as int].name@);
                assert(fr.line == entries[i as int].line);
                assert(entries[i as int].name@ != ename);
                assert(mv.contains_key((prev_rbp + 8) as usize));
                assert(mv.contains_key(prev_rbp));
                assert(rip == mv[(prev_rbp + 8) as usize] as usize);
                assert(rbp == mv[prev_rbp] as usize);
                assert(spec_is_walk(entries, ename, mv, rip, rbp, w1.drop_first()));
                assert(spec_is_walk(entries, ename, mv, prev_rip, prev_rbp, w1));
                assert(spec_is_walk(entries, ename, mv, rip0, rbp0, frames_old + w1));
                assert(frames_old + w1 =~= frames@ + w);
            }
        }
    }
}

/// A frame chain of call depth N as it stands in the target's memory:
/// `chain[k]` holds the instruction pointer and frame base of frame k,
/// every instruction pointer resolves, only the outermost frame resolves
/// to the entry function, and each frame stores its caller's return
/// address one word above its frame base and the caller's frame base at
/// the frame base.
pub open spec fn spec_chain_ok(
    entries: Seq<SymbolEntry>,
    entry_name: Seq<char>,
    mv: Map<usize, u64>,
    chain: Seq<crate::machine::Registers>,
) -> bool {
    &&& chain.len() >= 1
    &&& (forall|k: int|
        0 <= k < chain.len() ==> spec_resolve(entries, #[trigger] chain[k].rip) is Some)
    &&& (forall|k: int|
        0 <= k < chain.len() - 1 ==> {
            let i = spec_resolve(entries, #[trigger] chain[k].rip)->0;
            &&& entries[i].name@ != entry_name
            &&& chain[k].rbp + 8 <= usize::MAX
            &&& chain[k].rbp % 8 == 0
            &&& mv.contains_key((chain[k].rbp + 8) as usize)
            &&& mv.contains_key(chain[k].rbp)
            &&& chain[k + 1].rip == mv[(chain[k].rbp + 8) as usize] as usize
            &&& chain[k + 1].rbp == mv[chain[k].rbp] as usize
        })
    &&& entries[spec_resolve(entries, chain.last().rip)->0].name@ == entry_name
}

/// Backtrace exactness: for a target whose memory holds a frame chain of
/// call depth N ending in the entry function, any backtrace of it has
/// exactly N frames, innermost to outermost, frame k carrying the name
/// and line that frame k's instruction pointer resolves to -- so the
/// last frame resolves to the entry function's name.
pub proof fn lemma_backtrace_exact(
    entries: Seq<SymbolEntry>,
    entry_name: Seq<char>,
    mv: Map<usize, u64>,
    chain: Seq<crate::machine::Registers>,
    frames: Seq<StackFrame>,
)
    requires
        spec_chain_ok(entries, entry_name, mv, chain),
        spec_is_walk(entries, entry_name, mv, chain[0].rip, chain[0].rbp, frames),
    ensures
        frames.len() == chain.len(),
        forall|k: int|
            0 <= k < chain.len() ==> {
                let i = spec_resolve(entries, #[trigger] chain[k].rip)->0;
                frames[k].function@ == entries[i].name@ && frames[k].line == entries[i].line
            },
    decreases chain.len(),
{
    let i0 = spec_resolve(entries, chain[0].rip)->0;
    if chain.len() == 1 {
        assert(chain.last() == chain[0]);
        assert(entries[i0].name@ == entry_name);
    } else {
        assert(entries[i0].name@ != entry_name);
        let chain1 = chain.drop_first();
        let frames1 = frames.drop_first();
        assert(chain1.len() == chain.len() - 1);
        assert(chain1[0] == chain[1]);
        assert(chain.last() == chain1.last());
        assert forall|k: int|
            0 <= k < chain1.len() implies spec_resolve(entries, #[trigger] chain1[k].rip)
            is Some by {
            assert(chain1[k] == chain[k + 1]);
            assert(spec_resolve(entries, chain[k + 1].rip) is Some);
        }
        assert forall|k: int| 0 <= k < chain1.len() - 1 implies {
            let i = spec_resolve(entries, #[trigger] chain1[k].rip)->0;
            &&& entries[i].name@ != entry_name
            &&& chain1[k].rbp + 8 <= usize::MAX
            &&& chain1[k].rbp % 8 == 0
            &&& mv.contains_key((chain1[k].rbp + 8) as usize)
            &&& mv.contains_key(chain1[k].rbp)
            &&& chain1[k + 1].rip == mv[(chain1[k].rbp + 8) as usize] as usize
            &&& chain1[k + 1].rbp == mv[chain1[k].rbp] as usize
        } by {
            assert(chain1[k] == chain[k + 1]);
            assert(chain1[k + 1] == chain[k + 2]);
            assert(0 <= k + 1 < chain.len() - 1);
        }
        assert(spec_chain_ok(entries, entry_name, mv, chain1));
        assert(spec_is_walk(entries, entry_name, mv, chain1[0].rip, chain1[0].rbp, frames1));
        lemma_backtrace_exact(entries, entry_name, mv, chain1, frames1);
        assert forall|k: int| 0 <= k < chain.len() implies {
            let i = spec_resolve(entries, #[trigger] chain[k].rip)->0;
            frames[k].function@ == entries[i].name@ && frames[k].line == entries[i].line
        } by {
            if k > 0 {
                assert(chain1[k - 1] == chain[k]);
                assert(frames1[k - 1] == frames[k]);
            }
        }
    }
}

} // verus!
