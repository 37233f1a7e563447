//! The engine's laws, proved once and for all over the model: killing is
//! idempotent; a free run through straight-line code is the sum of its
//! instructions; and hitting breakpoints in execution order, stepping over
//! them without losing a single execution of the displaced instructions,
//! ends in the same exit code the undisturbed program would produce.

use vstd::prelude::*;
use crate::breakpoints::{spec_install_from, lemma_install_from_props};
use crate::inferior::{spec_cont, spec_resume_body};
use crate::machine::{
    spec_fetch, spec_next_is_plain, spec_run, spec_step, Registers, RunState, TracedProcess,
    OP_EXIT, OP_TRAP,
};
use crate::memory::{
    lemma_map_write_byte, map_byte_at, map_word_mapped, map_write_byte, spec_mem_wf,
};
use crate::status::{Status, TraceError, SIGTRAP};

verus! {

/// Killing a traced process is idempotent: a second kill, or a kill after
/// the process already terminated on its own, changes nothing. (That it
/// never panics and never blocks is the controller's contract: its kill
/// has no precondition and is total.)
pub proof fn lemma_kill_idempotent(p: TracedProcess)
    ensures
        p.spec_kill().spec_kill() == p.spec_kill(),
{
}

/// The number of counter-increment instructions in `[lo, hi)`.
pub open spec fn inc_count(mv: Map<usize, u64>, lo: usize, hi: usize) -> nat
    decreases hi - lo,
{
    if lo >= hi {
        0
    } else {
        (if spec_fetch(mv, lo) == Some(crate::machine::OP_INC) {
            1nat
        } else {
            0nat
        }) + inc_count(mv, (lo + 1) as usize, hi)
    }
}

/// Two memories whose instruction bytes agree on `[lo, hi)` hold the same
/// number of increments there.
pub proof fn lemma_inc_count_congruent(
    mv1: Map<usize, u64>,
    mv2: Map<usize, u64>,
    lo: usize,
    hi: usize,
)
    requires
        forall|x: usize| lo <= x < hi ==> spec_fetch(mv1, x) == spec_fetch(mv2, x),
    ensures
        inc_count(mv1, lo, hi) == inc_count(mv2, lo, hi),
    decreases hi - lo,
{
    if lo < hi {
        lemma_inc_count_congruent(mv1, mv2, (lo + 1) as usize, hi);
    }
}

/// Increments over a split range add up.
pub proof fn lemma_inc_count_split(mv: Map<usize, u64>, lo: usize, mid: usize, hi: usize)
    requires
        lo <= mid <= hi,
    ensures
        inc_count(mv, lo, hi) == inc_count(mv, lo, mid) + inc_count(mv, mid, hi),
    decreases mid - lo,
{
    if lo < mid {
        lemma_inc_count_split(mv, (lo + 1) as usize, mid, hi);
    }
}

/// A free run across straight-line code: as long as every instruction
/// before `stop` is plain and the one at `stop` is not, the run arrives
/// at `stop` with the counter advanced by exactly the increments passed,
/// and what happens is what the instruction at `stop` does.
pub proof fn lemma_run_through_plain(
    mv: Map<usize, u64>,
    limit: usize,
    regs: Registers,
    counter: u64,
    stop: usize,
)
    requires
        spec_mem_wf(mv, limit),
        regs.rip <= stop,
        forall|x: usize| regs.rip <= x < stop ==> spec_next_is_plain(mv, x),
        !spec_next_is_plain(mv, stop),
        counter + inc_count(mv, regs.rip, stop) <= u64::MAX,
    ensures
        spec_run(mv, limit, regs, counter) == spec_step(
            mv,
            Registers { rip: stop, ..regs },
            (counter + inc_count(mv, regs.rip, stop)) as u64,
        ),
    decreases stop - regs.rip,
{
    if regs.rip == stop {
        assert(inc_count(mv, regs.rip, stop) == 0);
    } else {
        assert(spec_next_is_plain(mv, regs.rip));
        let (regs1, counter1, _s1) = spec_step(mv, regs, counter);
        assert(regs1 == Registers { rip: (regs.rip + 1) as usize, ..regs });
        assert(map_word_mapped(mv, regs.rip));
        assert(mv.contains_key(crate::word::spec_align_addr(regs.rip)));
        assert(regs.rip + 1 <= stop);
        lemma_run_through_plain(mv, limit, regs1, counter1, stop);
    }
}

/// Memory `m` is `mv` with at most the two breakpoint bytes changed:
/// each of `a` and `b` holds either its original byte or the trap, and
/// every other byte, and the set of mapped words, are untouched.
spec fn section_patched(
    mv: Map<usize, u64>,
    m: Map<usize, u64>,
    a: usize,
    b: usize,
    trap_a: bool,
    trap_b: bool,
) -> bool {
    &&& map_byte_at(m, a) == (if trap_a {
        OP_TRAP
    } else {
        map_byte_at(mv, a)
    })
    &&& map_byte_at(m, b) == (if trap_b {
        OP_TRAP
    } else {
        map_byte_at(mv, b)
    })
    &&& forall|x: usize| x != a && x != b ==> #[trigger] map_byte_at(m, x) == map_byte_at(mv, x)
    &&& forall|x: usize| #[trigger] map_word_mapped(m, x) == map_word_mapped(mv, x)
    &&& m.dom() == mv.dom()
}

/// A patched section keeps well-formedness and fetches the original
/// instruction everywhere but at the patched bytes.
proof fn lemma_section_facts(
    mv: Map<usize, u64>,
    m: Map<usize, u64>,
    a: usize,
    b: usize,
    trap_a: bool,
    trap_b: bool,
    limit: usize,
)
    requires
        spec_mem_wf(mv, limit),
        section_patched(mv, m, a, b, trap_a, trap_b),
    ensures
        spec_mem_wf(m, limit),
        forall|x: usize| x != a && x != b ==> #[trigger] spec_fetch(m, x) == spec_fetch(mv, x),
        map_word_mapped(mv, a) && !trap_a ==> spec_fetch(m, a) == spec_fetch(mv, a),
        map_word_mapped(mv, b) && !trap_b ==> spec_fetch(m, b) == spec_fetch(mv, b),
        map_word_mapped(mv, a) && trap_a ==> spec_fetch(m, a) == Some(OP_TRAP),
        map_word_mapped(mv, b) && trap_b ==> spec_fetch(m, b) == Some(OP_TRAP),
{
    assert forall|k: usize| m.contains_key(k) implies k % 8 == 0 && k + 8 <= limit by {
        assert(mv.contains_key(k));
    }
}

/// The common premises of the staged breakpoint lemmas: straight-line
/// plain code from the start to the exit instruction, breakpoints at `a`
/// then `b` inside it, and a counter budget that cannot overflow.
spec fn straightline_setup(
    mv: Map<usize, u64>,
    limit: usize,
    regs: Registers,
    a: usize,
    b: usize,
    exit_at: usize,
    addrs: Seq<usize>,
) -> bool {
    &&& spec_mem_wf(mv, limit)
    &&& addrs == seq![a, b]
    &&& regs.rip <= a < b < exit_at
    &&& (forall|x: usize| regs.rip <= x < exit_at ==> spec_next_is_plain(mv, x))
    &&& spec_fetch(mv, exit_at) == Some(OP_EXIT)
    &&& inc_count(mv, regs.rip, exit_at) <= u64::MAX
}

/// First resume of the freshly spawned target: both patches are
/// installed, the run stops first at `a`, the stop is reported at `a`
/// itself, `a`'s byte is back in place with `b` still armed, and the
/// counter holds exactly the increments before `a`.
proof fn lemma_first_resume(
    mv: Map<usize, u64>,
    limit: usize,
    regs: Registers,
    a: usize,
    b: usize,
    exit_at: usize,
    addrs: Seq<usize>,
)
    requires
        straightline_setup(mv, limit, regs, a, b, exit_at, addrs),
    ensures
        ({
            let (o1, m1, r1, c1, s1, p1, res1) = spec_cont(
                addrs,
                Map::<usize, u8>::empty(),
                mv,
                limit,
                regs,
                0,
                None,
            );
            &&& res1 == Ok::<Status, TraceError>(Status::Stopped(SIGTRAP, a))
            &&& r1 == (Registers { rip: a, ..regs })
            &&& c1 == inc_count(mv, regs.rip, a)
            &&& s1 == RunState::Live
            &&& p1 == Some(a)
            &&& section_patched(mv, m1, a, b, false, true)
            &&& o1.contains_key(b) && !o1.contains_key(a) && o1[b] == map_byte_at(mv, b)
            &&& (forall|x: usize| #[trigger] o1.contains_key(x) ==> x == b)
        }),
{
    let r0 = regs.rip;
    let empty = Map::<usize, u8>::empty();
    lemma_inc_count_split(mv, r0, a, exit_at);
    let ca = inc_count(mv, r0, a);
    assert(spec_next_is_plain(mv, a) && spec_next_is_plain(mv, b));
    assert(map_word_mapped(mv, a) && map_word_mapped(mv, b));

    let (oi, mi, fail) = spec_install_from(addrs, 0, empty, mv);
    lemma_install_from_props(addrs, 0, empty, mv);
    assert(fail is None) by {
        if fail is Some {
            let f = fail->0;
            assert(addrs[f] == a || addrs[f] == b);
        }
    }
    assert(oi.contains_key(a) && oi.contains_key(b));
    assert(forall|x: usize| #[trigger] oi.contains_key(x) ==> x == a || x == b);
    assert(map_byte_at(mi, a) == OP_TRAP && map_byte_at(mi, b) == OP_TRAP);
    assert(oi[a] == map_byte_at(mv, a) && oi[b] == map_byte_at(mv, b));
    assert forall|x: usize| x != a && x != b implies #[trigger] map_byte_at(mi, x) == map_byte_at(
        mv,
        x,
    ) by {
        assert(addrs[0] == a && addrs[1] == b);
        assert(!oi.contains_key(x));
    }
    assert(section_patched(mv, mi, a, b, true, true));
    lemma_section_facts(mv, mi, a, b, true, true, limit);

    assert forall|x: usize| r0 <= x < a implies spec_next_is_plain(mi, x) by {
        assert(spec_next_is_plain(mv, x));
        assert(spec_fetch(mi, x) == spec_fetch(mv, x));
    }
    assert(!spec_next_is_plain(mi, a)) by {
        assert(spec_fetch(mi, a) == Some(OP_TRAP));
    }
    lemma_inc_count_congruent(mi, mv, r0, a);
    lemma_run_through_plain(mi, limit, regs, 0, a);
    let (rs1, cs1, ss1) = spec_run(mi, limit, regs, 0);
    assert(rs1 == (Registers { rip: (a + 1) as usize, ..regs }) && cs1 == ca && ss1
        == RunState::Live);

    let (o1, m1, r1, c1, s1, p1, res1) = spec_cont(addrs, empty, mv, limit, regs, 0, None);
    assert((o1, m1, r1, c1, s1, p1, res1) == spec_resume_body(addrs, empty, mv, limit, regs, 0));
    assert(o1 == oi.remove(a) && m1 == map_write_byte(mi, a, oi[a]));
    lemma_map_write_byte(mi, a, oi[a]);
    assert(section_patched(mv, m1, a, b, false, true)) by {
        assert(m1.dom() =~= mv.dom());
    }
}

/// Second resume, pending at `a`: the displaced instruction at `a`
/// executes exactly once (the counter advances by the increments in
/// `[a, b)` in total), the run stops at `b` and reports it, `b`'s byte
/// is restored with `a` re-armed.
proof fn lemma_second_resume(
    mv: Map<usize, u64>,
    limit: usize,
    regs: Registers,
    a: usize,
    b: usize,
    exit_at: usize,
    addrs: Seq<usize>,
    o1: Map<usize, u8>,
    m1: Map<usize, u64>,
    c1: u64,
)
    requires
        straightline_setup(mv, limit, regs, a, b, exit_at, addrs),
        section_patched(mv, m1, a, b, false, true),
        o1.contains_key(b) && !o1.contains_key(a) && o1[b] == map_byte_at(mv, b),
        forall|x: usize| #[trigger] o1.contains_key(x) ==> x == b,
        c1 + inc_count(mv, a, exit_at) <= u64::MAX,
    ensures
        ({
            let r1 = Registers { rip: a, ..regs };
            let (o2, m2, r2, c2, s2, p2, res2) = spec_cont(addrs, o1, m1, limit, r1, c1, Some(a));
            &&& res2 == Ok::<Status, TraceError>(Status::Stopped(SIGTRAP, b))
            &&& r2 == (Registers { rip: b, ..regs })
            &&& c2 == c1 + inc_count(mv, a, b)
            &&& s2 == RunState::Live
            &&& p2 == Some(b)
            &&& section_patched(mv, m2, a, b, true, false)
            &&& o2.contains_key(a) && !o2.contains_key(b) && o2[a] == map_byte_at(mv, a)
            &&& (forall|x: usize| #[trigger] o2.contains_key(x) ==> x == a)
        }),
{
    let r1 = Registers { rip: a, ..regs };
    lemma_inc_count_split(mv, a, b, exit_at);
    lemma_inc_count_split(mv, a, (a + 1) as usize, b);
    assert(spec_next_is_plain(mv, a) && spec_next_is_plain(mv, b));
    assert(map_word_mapped(mv, a) && map_word_mapped(mv, b));
    lemma_section_facts(mv, m1, a, b, false, true, limit);

    // Step over `a`: its original instruction runs once.
    let (rx, cx, sx) = spec_step(m1, r1, c1);
    assert(spec_fetch(m1, a) == spec_fetch(mv, a));
    assert(rx == (Registers { rip: (a + 1) as usize, ..regs }) && sx == RunState::Live);
    assert(cx == c1 + inc_count(mv, a, (a + 1) as usize)) by {
        assert(inc_count(mv, a, (a + 1) as usize) == (if spec_fetch(mv, a) == Some(
            crate::machine::OP_INC,
        ) {
            1nat
        } else {
            0nat
        }));
    }

    // Re-arm `a`; the install pass then changes nothing.
    let oa = o1.insert(a, map_byte_at(m1, a));
    let ma = map_write_byte(m1, a, OP_TRAP);
    lemma_map_write_byte(m1, a, OP_TRAP);
    assert(oa.contains_key(a) && oa.contains_key(b));
    assert(addrs[0] == a && addrs[1] == b);
    assert(spec_install_from(addrs, 0, oa, ma) == spec_install_from(addrs, 1, oa, ma));
    assert(spec_install_from(addrs, 1, oa, ma) == spec_install_from(addrs, 2, oa, ma));
    assert(spec_install_from(addrs, 2, oa, ma) == (oa, ma, Option::<int>::None));
    assert(section_patched(mv, ma, a, b, true, true)) by {
        assert(ma.dom() =~= mv.dom());
    }
    lemma_section_facts(mv, ma, a, b, true, true, limit);

    // Run on to the patch at `b`.
    assert forall|x: usize| a + 1 <= x < b implies spec_next_is_plain(ma, x) by {
        assert(spec_next_is_plain(mv, x));
        assert(spec_fetch(ma, x) == spec_fetch(mv, x));
    }
    assert(!spec_next_is_plain(ma, b)) by {
        assert(spec_fetch(ma, b) == Some(OP_TRAP));
    }
    lemma_inc_count_congruent(ma, mv, (a + 1) as usize, b);
    lemma_run_through_plain(ma, limit, rx, cx, b);
    let (rs2, cs2, ss2) = spec_run(ma, limit, rx, cx);
    assert(rs2 == (Registers { rip: (b + 1) as usize, ..regs }) && ss2 == RunState::Live);
    assert(cs2 == c1 + inc_count(mv, a, b));

    let (o2, m2, r2, c2, s2, p2, res2) = spec_cont(addrs, o1, m1, limit, r1, c1, Some(a));
    assert((o2, m2, r2, c2, s2, p2, res2) == spec_resume_body(addrs, oa, ma, limit, rx, cx));
    assert(o2 == oa.remove(b) && m2 == map_write_byte(ma, b, oa[b]));
    lemma_map_write_byte(ma, b, oa[b]);
    assert(oa[b] == map_byte_at(mv, b));
    assert(section_patched(mv, m2, a, b, true, false)) by {
        assert(m2.dom() =~= mv.dom());
    }
}

/// Third resume, pending at `b`: the displaced instruction at `b`
/// executes once, the run reaches the exit instruction, and the reported
/// exit code is the counter's low byte -- with the counter holding every
/// increment of the whole program.
proof fn lemma_third_resume(
    mv: Map<usize, u64>,
    limit: usize,
    regs: Registers,
    a: usize,
    b: usize,
    exit_at: usize,
    addrs: Seq<usize>,
    o2: Map<usize, u8>,
    m2: Map<usize, u64>,
    c2: u64,
)
    requires
        straightline_setup(mv, limit, regs, a, b, exit_at, addrs),
        section_patched(mv, m2, a, b, true, false),
        o2.contains_key(a) && !o2.contains_key(b) && o2[a] == map_byte_at(mv, a),
        forall|x: usize| #[trigger] o2.contains_key(x) ==> x == a,
        c2 + inc_count(mv, b, exit_at) <= u64::MAX,
    ensures
        ({
            let r2 = Registers { rip: b, ..regs };
            let (o3, m3, r3, c3, s3, p3, res3) = spec_cont(addrs, o2, m2, limit, r2, c2, Some(b));
            &&& res3 == Ok::<Status, TraceError>(
                Status::Exited(((c2 + inc_count(mv, b, exit_at)) as u64 % 256) as i32),
            )
            &&& s3 == RunState::Exited(((c2 + inc_count(mv, b, exit_at)) as u64 % 256) as i32)
        }),
{
    let r2 = Registers { rip: b, ..regs };
    lemma_inc_count_split(mv, b, (b + 1) as usize, exit_at);
    assert(spec_next_is_plain(mv, a) && spec_next_is_plain(mv, b));
    assert(map_word_mapped(mv, a) && map_word_mapped(mv, b));
    assert(map_word_mapped(mv, exit_at));
    lemma_section_facts(mv, m2, a, b, true, false, limit);

    // Step over `b`: its original instruction runs once.
    let (ry, cy, sy) = spec_step(m2, r2, c2);
    assert(spec_fetch(m2, b) == spec_fetch(mv, b));
    assert(ry == (Registers { rip: (b + 1) as usize, ..regs }) && sy == RunState::Live);
    assert(cy == c2 + inc_count(mv, b, (b + 1) as usize)) by {
        assert(inc_count(mv, b, (b + 1) as usize) == (if spec_fetch(mv, b) == Some(
            crate::machine::OP_INC,
        ) {
            1nat
        } else {
            0nat
        }));
    }

    // Re-arm `b`; the install pass changes nothing.
    let ob = o2.insert(b, map_byte_at(m2, b));
    let mb = map_write_byte(m2, b, OP_TRAP);
    lemma_map_write_byte(m2, b, OP_TRAP);
    assert(ob.contains_key(a) && ob.contains_key(b));
    assert(addrs[0] == a && addrs[1] == b);
    assert(spec_install_from(addrs, 0, ob, mb) == spec_install_from(addrs, 1, ob, mb));
    assert(spec_install_from(addrs, 1, ob, mb) == spec_install_from(addrs, 2, ob, mb));
    assert(spec_install_from(addrs, 2, ob, mb) == (ob, mb, Option::<int>::None));
    assert(section_patched(mv, mb, a, b, true, true)) by {
        assert(mb.dom() =~= mv.dom());
    }
    lemma_section_facts(mv, mb, a, b, true, true, limit);

    // Run to the exit instruction.
    assert forall|x: usize| b + 1 <= x < exit_at implies spec_next_is_plain(mb, x) by {
        assert(spec_next_is_plain(mv, x));
        assert(spec_fetch(mb, x) == spec_fetch(mv, x));
    }
    assert(!spec_next_is_plain(mb, exit_at)) by {
        assert(spec_fetch(mb, exit_at) == Some(OP_EXIT));
    }
    lemma_inc_count_congruent(mb, mv, (b + 1) as usize, exit_at);
    lemma_run_through_plain(mb, limit, ry, cy, exit_at);
    let (rs3, cs3, ss3) = spec_run(mb, limit, ry, cy);
    assert(cs3 == c2 + inc_count(mv, b, exit_at));
    assert(spec_fetch(mb, exit_at) == Some(OP_EXIT));
    assert(ss3 == RunState::Exited((cs3 % 256) as i32));

    let (o3, m3, r3, c3, s3, p3, res3) = spec_cont(addrs, o2, m2, limit, r2, c2, Some(b));
    assert((o3, m3, r3, c3, s3, p3, res3) == spec_resume_body(addrs, ob, mb, limit, ry, cy));
}

/// Straight-line breakpoint debugging behaves deterministically, hits in
/// execution order, steps over each displaced instruction exactly once,
/// and preserves the program's outcome. For a target whose instructions
/// from the start up to its exit are all plain, with breakpoints
/// registered at `a` then `b` (`a` before `b` in execution order): the
/// first resume stops with the trap signal at `a`; the second stops
/// likewise at `b`, and between those two stops the counter advances by
/// exactly the increments the original instructions in `[a, b)` perform,
/// so the instruction displaced at `a` executes exactly once before the
/// stop at `b`; the third resume reports the exit, with the same exit
/// code an undisturbed run of the unpatched program produces.
pub proof fn lemma_breakpoints_in_order(
    mv: Map<usize, u64>,
    limit: usize,
    regs: Registers,
    a: usize,
    b: usize,
    exit_at: usize,
    addrs: Seq<usize>,
)
    requires
        spec_mem_wf(mv, limit),
        addrs == seq![a, b],
        regs.rip <= a < b < exit_at,
        forall|x: usize| regs.rip <= x < exit_at ==> spec_next_is_plain(mv, x),
        spec_fetch(mv, exit_at) == Some(OP_EXIT),
        inc_count(mv, regs.rip, exit_at) <= u64::MAX,
    ensures
        ({
            let r0 = regs.rip;
            let empty = Map::<usize, u8>::empty();
            let (o1, m1, r1, c1, s1, p1, res1) = spec_cont(addrs, empty, mv, limit, regs, 0, None);
            let (o2, m2, r2, c2, s2, p2, res2) = spec_cont(addrs, o1, m1, limit, r1, c1, p1);
            let (o3, m3, r3, c3, s3, p3, res3) = spec_cont(addrs, o2, m2, limit, r2, c2, p2);
            &&& res1 == Ok::<Status, TraceError>(Status::Stopped(SIGTRAP, a))
            &&& res2 == Ok::<Status, TraceError>(Status::Stopped(SIGTRAP, b))
            &&& c2 == c1 + inc_count(mv, a, b)
            &&& res3 == Ok::<Status, TraceError>(
                Status::Exited((inc_count(mv, r0, exit_at) % 256) as i32),
            )
            &&& spec_run(mv, limit, regs, 0).2 == RunState::Exited(
                (inc_count(mv, r0, exit_at) % 256) as i32,
            )
        }),
{
    let r0 = regs.rip;
    let empty = Map::<usize, u8>::empty();
    let total = inc_count(mv, r0, exit_at);
    lemma_inc_count_split(mv, r0, a, exit_at);
    lemma_inc_count_split(mv, a, b, exit_at);

    lemma_first_resume(mv, limit, regs, a, b, exit_at, addrs);
    let (o1, m1, r1, c1, s1, p1, res1) = spec_cont(addrs, empty, mv, limit, regs, 0, None);
    lemma_second_resume(mv, limit, regs, a, b, exit_at, addrs, o1, m1, c1);
    let (o2, m2, r2, c2, s2, p2, res2) = spec_cont(addrs, o1, m1, limit, r1, c1, p1);
    lemma_third_resume(mv, limit, regs, a, b, exit_at, addrs, o2, m2, c2);
    assert(c2 + inc_count(mv, b, exit_at) == total);

    // The undisturbed program reaches the same exit code.
    assert(!spec_next_is_plain(mv, exit_at)) by {
        assert(map_word_mapped(mv, exit_at));
    }
    lemma_run_through_plain(mv, limit, regs, 0, exit_at);
}

} // verus!

