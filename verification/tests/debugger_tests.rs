use deet::align_addr_to_word;
use deet::debugger::Debugger;
use deet::inferior::Inferior;
use deet::machine::{Registers, RunState, TracedProcess, OP_EXIT, OP_INC, OP_NOP, OP_TRAP};
use deet::memory::Memory;
use deet::status::{classify_wait, Status, TraceError, WaitEvent, SIGKILL, SIGTRAP};
use deet::unwind::{backtrace, StackFrame, SymbolEntry, SymbolTable};
use deet::word::{byte_in_word, put_byte_in_word};

const LIMIT: usize = 0x10000;
const CODE: usize = 0x1000;
const STACK: usize = 0x2000;

fn word_of(bytes: [u8; 8]) -> u64 {
    let mut w: u64 = 0;
    for i in 0..8 {
        w |= (bytes[i] as u64) << (8 * i);
    }
    w
}

/// A program of `n` increments followed by an exit, padded with no-ops.
fn inc_then_exit(n: usize) -> Memory {
    let mut mem = Memory::new(LIMIT);
    let mut bytes = [OP_NOP; 8];
    for i in 0..8 {
        if i < n {
            bytes[i] = OP_INC;
        }
    }
    bytes[7] = OP_EXIT;
    mem.map_word(CODE, word_of(bytes));
    mem
}

fn symbols_main_foo() -> SymbolTable {
    SymbolTable {
        entries: vec![
            SymbolEntry { name: "main".to_string(), low: CODE, high: CODE + 8, line: 1 },
            SymbolEntry { name: "foo".to_string(), low: CODE + 8, high: CODE + 16, line: 7 },
        ],
        entry_name: "main".to_string(),
    }
}

#[test]
fn word_patch_helpers_exact() {
    assert_eq!(align_addr_to_word(0x103), 0x100);
    assert_eq!(align_addr_to_word(0x100), 0x100);
    let w: u64 = 0x1122334455667788;
    assert_eq!(byte_in_word(w, 0), 0x88);
    assert_eq!(byte_in_word(w, 7), 0x11);
    assert_eq!(put_byte_in_word(w, 0, 0xcc), 0x11223344556677cc);
}

#[test]
fn byte_patch_round_trip_misaligned() {
    // Patch a trap byte at a misaligned address, then restore the saved
    // byte: the containing word must be bit-for-bit what it was.
    let mut mem = Memory::new(LIMIT);
    let w: u64 = 0xa1b2c3d4e5f60718;
    mem.map_word(0x100, w);
    let orig = mem.write_byte(0x103, OP_TRAP).unwrap();
    assert_eq!(orig, 0xe5);
    assert_ne!(mem.read_word(0x100).unwrap(), w);
    let trap = mem.write_byte(0x103, orig).unwrap();
    assert_eq!(trap, OP_TRAP);
    assert_eq!(mem.read_word(0x100).unwrap(), w);
}

#[test]
fn byte_patch_round_trip_aligned() {
    let mut mem = Memory::new(LIMIT);
    let w: u64 = 0xa1b2c3d4e5f60718;
    mem.map_word(0x100, w);
    let orig = mem.write_byte(0x100, OP_TRAP).unwrap();
    assert_eq!(orig, 0x18);
    mem.write_byte(0x100, orig).unwrap();
    assert_eq!(mem.read_word(0x100).unwrap(), w);
}

#[test]
fn write_byte_unmapped_fails() {
    let mut mem = Memory::new(LIMIT);
    match mem.write_byte(0x9000, OP_TRAP) {
        Err(TraceError::MemoryAccess { addr }) => assert_eq!(addr, 0x9000),
        other => panic!("expected a memory access error, got {:?}", other),
    }
}

#[test]
fn run_to_completion_exits_zero() {
    // Spawn with no breakpoints, resume: the target runs to completion
    // and reports a normal exit with code zero.
    let mut dbg = Debugger::new("demo".to_string(), symbols_main_foo());
    let mem = inc_then_exit(0);
    let st = dbg.run_program(mem, Registers { rip: CODE, rbp: STACK }).unwrap();
    assert_eq!(st, Status::Exited(0));
    assert!(!dbg.is_running());
}

#[test]
fn exit_code_counts_increments() {
    let mut dbg = Debugger::new("demo".to_string(), symbols_main_foo());
    let mem = inc_then_exit(5);
    let st = dbg.run_program(mem, Registers { rip: CODE, rbp: STACK }).unwrap();
    assert_eq!(st, Status::Exited(5));
}

#[test]
fn breakpoints_hit_in_execution_order() {
    // Breakpoints at A then B with A before B: stops report A, then B,
    // then the exit, with the exit code of the undisturbed program.
    let mut dbg = Debugger::new("demo".to_string(), symbols_main_foo());
    let a = CODE + 1;
    let b = CODE + 2;
    assert_eq!(dbg.set_breakpoint(a), 0);
    assert_eq!(dbg.set_breakpoint(b), 1);
    let mem = inc_then_exit(3);
    let st1 = dbg.run_program(mem, Registers { rip: CODE, rbp: STACK }).unwrap();
    assert_eq!(st1, Status::Stopped(SIGTRAP, a));
    let st2 = dbg.cont().unwrap();
    assert_eq!(st2, Status::Stopped(SIGTRAP, b));
    let st3 = dbg.cont().unwrap();
    assert_eq!(st3, Status::Exited(3));
}

#[test]
fn step_over_runs_original_instruction_once() {
    // The increment displaced by the breakpoint patch executes exactly
    // once: the final exit code still counts every increment.
    let mut dbg = Debugger::new("demo".to_string(), symbols_main_foo());
    let a = CODE; // breakpoint over the first increment itself
    dbg.set_breakpoint(a);
    let mem = inc_then_exit(2);
    let st1 = dbg.run_program(mem, Registers { rip: CODE, rbp: STACK }).unwrap();
    assert_eq!(st1, Status::Stopped(SIGTRAP, a));
    // Nothing has executed yet: the counter is untouched.
    let st2 = dbg.cont().unwrap();
    assert_eq!(st2, Status::Exited(2));
}

#[test]
fn breakpoint_outside_mapped_memory() {
    // A breakpoint at an unmapped address: the resume fails with the
    // failing breakpoint tagged, and the process stays alive and held.
    let mut dbg = Debugger::new("demo".to_string(), symbols_main_foo());
    dbg.set_breakpoint(0x9000);
    let mem = inc_then_exit(0);
    match dbg.run_program(mem, Registers { rip: CODE, rbp: STACK }) {
        Err(TraceError::InstallFailed { index, addr }) => {
            assert_eq!(index, 0);
            assert_eq!(addr, 0x9000);
        },
        other => panic!("expected an install failure, got {:?}", other),
    }
    assert!(dbg.is_running());
}

#[test]
fn spawn_failure_unmapped_entry() {
    let mut dbg = Debugger::new("demo".to_string(), symbols_main_foo());
    let mem = Memory::new(LIMIT);
    match dbg.run_program(mem, Registers { rip: CODE, rbp: STACK }) {
        Err(TraceError::SpawnFailed) => {},
        other => panic!("expected a spawn failure, got {:?}", other),
    }
    assert!(!dbg.is_running());
}

#[test]
fn kill_is_idempotent() {
    // Kill twice, and kill after the process exited: never panics.
    let mem = inc_then_exit(0);
    let mut inf = Inferior::new(mem, Registers { rip: CODE, rbp: STACK }).unwrap();
    inf.kill();
    assert_eq!(inf.proc.state, RunState::Signaled(SIGKILL));
    inf.kill();
    assert_eq!(inf.proc.state, RunState::Signaled(SIGKILL));

    let mut dbg = Debugger::new("demo".to_string(), symbols_main_foo());
    let st = dbg.run_program(inc_then_exit(0), Registers { rip: CODE, rbp: STACK }).unwrap();
    assert_eq!(st, Status::Exited(0));
    dbg.kill();
    dbg.kill();
    assert!(!dbg.is_running());
}

#[test]
fn backtrace_two_frames_ends_at_entry() {
    // Stopped inside foo with a two-deep frame chain: exactly two
    // frames, innermost first, the last resolving to the entry function.
    let mut dbg = Debugger::new("demo".to_string(), symbols_main_foo());
    let foo_entry = dbg.debug_data.get_addr_for_function(&"foo".to_string()).unwrap();
    assert_eq!(foo_entry, CODE + 8);
    dbg.set_breakpoint(foo_entry);
    let mut mem = Memory::new(LIMIT);
    mem.map_word(CODE, word_of([OP_NOP; 8]));
    mem.map_word(CODE + 8, word_of([OP_NOP, OP_NOP, OP_NOP, OP_NOP, OP_NOP, OP_NOP, OP_NOP, OP_EXIT]));
    // foo's frame: saved return address into main, saved main frame base.
    mem.map_word(STACK, 0x2040);
    mem.map_word(STACK + 8, (CODE + 2) as u64);
    let st = dbg.run_program(mem, Registers { rip: CODE, rbp: STACK }).unwrap();
    assert_eq!(st, Status::Stopped(SIGTRAP, foo_entry));
    let frames = dbg.backtrace().unwrap();
    assert_eq!(frames.len(), 2);
    assert_eq!(frames[0].function, "foo");
    assert_eq!(frames[0].line, 7);
    assert_eq!(frames[1].function, "main");
    assert_eq!(frames[1].line, 1);
}

#[test]
fn backtrace_depth_three() {
    // Call depth three: exactly three (function, line) pairs, innermost
    // to outermost.
    let symbols = SymbolTable {
        entries: vec![
            SymbolEntry { name: "main".to_string(), low: CODE, high: CODE + 8, line: 1 },
            SymbolEntry { name: "foo".to_string(), low: CODE + 8, high: CODE + 16, line: 7 },
            SymbolEntry { name: "bar".to_string(), low: CODE + 16, high: CODE + 24, line: 19 },
        ],
        entry_name: "main".to_string(),
    };
    let mut mem = Memory::new(LIMIT);
    mem.map_word(CODE, word_of([OP_NOP; 8]));
    mem.map_word(CODE + 8, word_of([OP_NOP; 8]));
    mem.map_word(CODE + 16, word_of([OP_NOP; 8]));
    // bar's frame at STACK links to foo's frame at STACK+0x40, which
    // links to main.
    mem.map_word(STACK, (STACK + 0x40) as u64);
    mem.map_word(STACK + 8, (CODE + 9) as u64);
    mem.map_word(STACK + 0x40, 0x3000);
    mem.map_word(STACK + 0x48, (CODE + 2) as u64);
    let proc = match TracedProcess::start(mem, Registers { rip: CODE + 17, rbp: STACK }) {
        Ok(p) => p,
        Err(_) => panic!("start failed"),
    };
    let frames: Vec<StackFrame> = backtrace(&proc, &symbols).unwrap();
    let got: Vec<(String, usize)> =
        frames.iter().map(|f| (f.function.clone(), f.line)).collect();
    assert_eq!(
        got,
        vec![
            ("bar".to_string(), 19),
            ("foo".to_string(), 7),
            ("main".to_string(), 1)
        ]
    );
}

#[test]
fn backtrace_unresolvable_address() {
    let symbols = symbols_main_foo();
    let mut mem = Memory::new(LIMIT);
    mem.map_word(CODE, word_of([OP_NOP; 8]));
    let proc = TracedProcess::start(mem, Registers { rip: 0x1000, rbp: STACK }).unwrap();
    // Point the walk at an address no entry covers.
    let mut mem2 = Memory::new(LIMIT);
    mem2.map_word(0x500, word_of([OP_NOP; 8]));
    let proc2 = TracedProcess::start(mem2, Registers { rip: 0x500, rbp: STACK }).unwrap();
    match backtrace(&proc2, &symbols) {
        Err(TraceError::SymbolResolutionFailed) => {},
        other => panic!("expected a symbol resolution failure, got {:?}", other),
    }
    drop(proc);
}

#[test]
fn backtrace_cyclic_frame_chain() {
    // A frame base that points back at itself cannot be a real chain;
    // the walk reports it instead of looping forever.
    let symbols = symbols_main_foo();
    let mut mem = Memory::new(LIMIT);
    mem.map_word(CODE + 8, word_of([OP_NOP; 8]));
    mem.map_word(STACK, STACK as u64);
    mem.map_word(STACK + 8, (CODE + 9) as u64);
    let proc = TracedProcess::start(mem, Registers { rip: CODE + 9, rbp: STACK }).unwrap();
    match backtrace(&proc, &symbols) {
        Err(TraceError::CorruptFrameChain) => {},
        other => panic!("expected the corrupt chain report, got {:?}", other),
    }
}

#[test]
fn single_step_executes_one_instruction() {
    let mem = inc_then_exit(1);
    let mut proc = TracedProcess::start(mem, Registers { rip: CODE, rbp: STACK }).unwrap();
    assert_eq!(proc.counter, 0);
    let ev = proc.single_step();
    assert_eq!(ev, WaitEvent::Stopped(SIGTRAP, CODE + 1));
    assert_eq!(proc.counter, 1);
    assert_eq!(proc.get_regs().rip, CODE + 1);
}

#[test]
fn terminal_statuses() {
    assert!(Status::Exited(0).is_terminal());
    assert!(Status::Signaled(9).is_terminal());
    assert!(!Status::Stopped(SIGTRAP, 0x40).is_terminal());
}

#[test]
fn classify_wait_events() {
    assert_eq!(classify_wait(WaitEvent::Exited(3)), Ok(Status::Exited(3)));
    assert_eq!(classify_wait(WaitEvent::Signaled(9)), Ok(Status::Signaled(9)));
    assert_eq!(
        classify_wait(WaitEvent::Stopped(SIGTRAP, 0x40)),
        Ok(Status::Stopped(SIGTRAP, 0x40))
    );
    assert_eq!(
        classify_wait(WaitEvent::Other),
        Err(TraceError::UnexpectedWaitStatus)
    );
}

#[test]
fn symbol_lookups() {
    let symbols = symbols_main_foo();
    assert_eq!(symbols.get_function_from_addr(CODE + 9), Some("foo".to_string()));
    assert_eq!(symbols.get_function_from_addr(0x50), None);
    assert_eq!(symbols.get_line_from_addr(CODE + 1), Some(1));
    assert_eq!(symbols.get_addr_for_line(7), Some(CODE + 8));
    assert_eq!(symbols.get_addr_for_line(99), None);
    assert_eq!(symbols.get_addr_for_function(&"main".to_string()), Some(CODE));
    assert_eq!(symbols.get_addr_for_function(&"baz".to_string()), None);
}

#[test]
fn rerun_replaces_process_and_rearms() {
    // Breakpoints persist across runs; a new run kills the old process.
    let mut dbg = Debugger::new("demo".to_string(), symbols_main_foo());
    dbg.set_breakpoint(CODE + 1);
    let st1 = dbg
        .run_program(inc_then_exit(3), Registers { rip: CODE, rbp: STACK })
        .unwrap();
    assert_eq!(st1, Status::Stopped(SIGTRAP, CODE + 1));
    // Start over without continuing the first process.
    let st2 = dbg
        .run_program(inc_then_exit(3), Registers { rip: CODE, rbp: STACK })
        .unwrap();
    assert_eq!(st2, Status::Stopped(SIGTRAP, CODE + 1));
    let st3 = dbg.cont().unwrap();
    assert_eq!(st3, Status::Exited(3));
}
