use vstd::prelude::*;
use crate::bytecode::NewBytecode;
use crate::ir::{IR, IROp};
use crate::range::{
    MemoryRange, Range, in_range, join, memory_range_of, moves_pointer, scan, scan_step, widen,
    widen_moves, widen_mul,
};
use crate::semantics::{
    Event, MachineState, RunState, Stop, Tier, m_add_at, m_get, m_move, m_set_at, m_shift, m_value,
    mul_u8, run, step,
};
use crate::tape::{MEMORY_LENGTH, cell_add, moved};
use vstd::arithmetic::div_mod::{lemma_add_mod_noop, lemma_add_mod_noop_right};
use vstd::arithmetic::mul::lemma_mul_is_distributive_add_other_way;

verus! {

/// Running in the optimized tier and in the checked tier from the same
/// machine state, with the same budget and fuel, ends in the same machine
/// state (tape, pointer, program counter), the same budget and the same
/// stop, so the same byte is written or read at every stop.
pub proof fn lemma_tiers_agree(
    insts: Seq<NewBytecode>,
    m: MachineState,
    budget: Option<usize>,
    fuel: nat,
    t1: Tier,
    t2: Tier,
)
    ensures
        run(insts, RunState { m, budget, tier: t1 }, fuel).0.m == run(
            insts,
            RunState { m, budget, tier: t2 },
            fuel,
        ).0.m,
        run(insts, RunState { m, budget, tier: t1 }, fuel).0.budget == run(
            insts,
            RunState { m, budget, tier: t2 },
            fuel,
        ).0.budget,
        run(insts, RunState { m, budget, tier: t1 }, fuel).1 == run(
            insts,
            RunState { m, budget, tier: t2 },
            fuel,
        ).1,
    decreases fuel,
{
    if fuel > 0 && budget != Some(0usize) {
        let r = step(insts, m);
        if r.event is Continue {
            let b = match budget {
                Some(n) => Some((n - 1) as usize),
                None => None,
            };
            lemma_tiers_agree(
                insts,
                r.state,
                b,
                (fuel - 1) as nat,
                crate::semantics::next_tier(t1, insts, m.pc, r.state),
                crate::semantics::next_tier(t2, insts, m.pc, r.state),
            );
        }
    }
}

/// A loop whose control cell is zero when it is first reached runs its
/// body zero times: `JmpIfZero` goes straight to the instruction after the
/// loop and leaves the tape as it was.
pub proof fn lemma_zero_cell_skips_loop(insts: Seq<NewBytecode>, s: MachineState)
    requires
        0 <= s.pc < insts.len(),
        insts[s.pc as int] is JmpIfZero,
        ({
            let p = moved(s.ptr, insts[s.pc as int]->JmpIfZero_delta as int);
            p < MEMORY_LENGTH && s.tape[p as int] == 0
        }),
    ensures
        step(insts, s).event is Continue,
        step(insts, s).state.pc == insts[s.pc as int]->JmpIfZero_addr,
        step(insts, s).state.tape == s.tape,
{
    reveal(m_move);
    reveal(m_get);
    reveal(m_value);
}

/// Moving the pointer out by any amount and back, with no access between,
/// returns it to where it was, however far the move wrapped.
pub proof fn lemma_move_and_back(p: usize, delta: int)
    requires
        -(usize::MAX as int) <= delta <= usize::MAX as int,
    ensures
        moved(moved(p, delta), -delta) == p,
{
}

/// After a shift the pointer rests on a zero cell; after the start of a
/// multiplication or move expansion the source cell is zero, and the
/// non-zero value it held is the one the expansion broadcasts.
pub proof fn lemma_clears_source(insts: Seq<NewBytecode>, s: MachineState)
    requires
        crate::bytecode::program_wf(insts),
        0 <= s.pc < insts.len(),
        s.tape.len() == MEMORY_LENGTH,
        step(insts, s).event is Continue,
    ensures
        ({
            let b = insts[s.pc as int];
            let after = step(insts, s).state;
            &&& (b is Shift || b is ShiftP || b is ShiftN) ==> after.ptr < MEMORY_LENGTH
                && after.tape[after.ptr as int] == 0
            &&& (b is MulStart || b is MoveStart) ==> after.ptr < MEMORY_LENGTH
                && after.tape[after.ptr as int] == 0
            &&& (b is MulStart || b is MoveStart) && s.tape[after.ptr as int] != 0 ==> after.mul_val
                == s.tape[after.ptr as int]
        }),
{
    let b = insts[s.pc as int];
    reveal(m_move);
    reveal(m_get);
    reveal(m_value);
    reveal(m_set_at);
    assert(crate::bytecode::local_ok(b, s.pc as int, insts.len() as int));
    if b is Shift || b is ShiftP || b is ShiftN {
        let step_v = crate::bytecode::shift_step(b);
        let m1 = m_move(crate::semantics::start(s), match b {
            NewBytecode::Shift { delta, .. } => delta as int,
            NewBytecode::ShiftP { delta, .. } => delta as int,
            NewBytecode::ShiftN { delta, .. } => delta as int,
            _ => 0,
        });
        lemma_shift_ends_on_zero(m1, step_v);
        assert(step(insts, s).state.ptr == m_shift(m1, step_v).ptr);
    } else if b is MulStart || b is MoveStart {
        let d = match b {
            NewBytecode::MulStart { delta, .. } => delta as int,
            NewBytecode::MoveStart { delta, .. } => delta as int,
            _ => 0,
        };
        let m = m_get(m_move(crate::semantics::start(s), d));
        assert(m.tape == s.tape);
        assert(step(insts, s).state.ptr == m.ptr);
        assert(m.err is None);
        assert(m.ptr < MEMORY_LENGTH);
        if m_value(m) != 0 {
            assert(moved(m.ptr, 0) == m.ptr);
            assert(step(insts, s).state.tape == m.tape.update(m.ptr as int, 0));
        } else {
            assert(step(insts, s).state.tape == m.tape);
            assert(m.tape[m.ptr as int] == 0);
        }
        assert(step(insts, s).state.tape[step(insts, s).state.ptr as int] == 0);
    }
}

proof fn lemma_shift_ends_on_zero(m: crate::semantics::Mach, step_v: int)
    requires
        m.err is None,
        step_v != 0,
        -32768 <= step_v <= 32767,
    ensures
        m_shift(m, step_v).err is None ==> m_shift(m, step_v).ptr < MEMORY_LENGTH && m_shift(
            m,
            step_v,
        ).tape[m_shift(m, step_v).ptr as int] == 0,
        m_shift(m, step_v).tape == m.tape,
    decreases crate::semantics::shift_measure(m, step_v),
{
    reveal(m_shift);
    if m.ptr < MEMORY_LENGTH && m.tape[m.ptr as int] != 0 {
        lemma_shift_ends_on_zero(
            crate::semantics::Mach { ptr: moved(m.ptr, step_v), ..m },
            step_v,
        );
    }
}


/// `[-]` lowered as a plain loop: test, decrement, jump back, end.
pub open spec fn clear_loop() -> Seq<NewBytecode> {
    seq![
        NewBytecode::JmpIfZero { delta: 0, addr: 3 },
        NewBytecode::SingleAdd { delta: 0, val: 255 },
        NewBytecode::JmpIfNotZero { delta: 0, addr: 1 },
        NewBytecode::End { delta: 0 },
    ]
}

/// `[-]` after the peephole: one `SetCell(0)`, then the end.
pub open spec fn clear_set() -> Seq<NewBytecode> {
    seq![NewBytecode::SingleSet { delta: 0, val: 0 }, NewBytecode::End { delta: 0 }]
}

proof fn lemma_clear_loop_shape()
    ensures
        clear_loop().len() == 4,
        clear_loop()[0] == (NewBytecode::JmpIfZero { delta: 0, addr: 3 }),
        clear_loop()[1] == (NewBytecode::SingleAdd { delta: 0, val: 255 }),
        clear_loop()[2] == (NewBytecode::JmpIfNotZero { delta: 0, addr: 1 }),
        clear_loop()[3] == (NewBytecode::End { delta: 0 }),
        clear_set().len() == 2,
        clear_set()[0] == (NewBytecode::SingleSet { delta: 0, val: 0 }),
        clear_set()[1] == (NewBytecode::End { delta: 0 }),
{
}

/// One step that continues and has no range to test: `run` goes on from
/// the next state in the same tier.
proof fn lemma_run_continue(insts: Seq<NewBytecode>, s: MachineState, next: MachineState, tier: Tier, fuel: nat)
    requires
        fuel > 0,
        step(insts, s) == (crate::semantics::StepResult { state: next, event: Event::Continue }),
        crate::semantics::attached_range(insts[s.pc as int]) is None,
    ensures
        run(insts, RunState { m: s, budget: None, tier }, fuel) == run(
            insts,
            RunState { m: next, budget: None, tier },
            (fuel - 1) as nat,
        ),
{
}

proof fn lemma_run_halt(insts: Seq<NewBytecode>, s: MachineState, tier: Tier, fuel: nat)
    requires
        fuel > 0,
        0 <= s.pc < insts.len(),
        insts[s.pc as int] == (NewBytecode::End { delta: 0 }),
    ensures
        run(insts, RunState { m: s, budget: None, tier }, fuel) == (
            RunState { m: s, budget: None, tier },
            Stop::Halt,
        ),
{
    reveal(m_move);
    assert(moved(s.ptr, 0) == s.ptr);
}

proof fn lemma_step_cell(insts: Seq<NewBytecode>, s: MachineState, val: u8, add: bool)
    requires
        0 <= s.pc < insts.len(),
        s.pc + 1 <= usize::MAX,
        insts[s.pc as int] == (if add {
            NewBytecode::SingleAdd { delta: 0, val }
        } else {
            NewBytecode::SingleSet { delta: 0, val }
        }),
        s.ptr < MEMORY_LENGTH,
        s.tape.len() == MEMORY_LENGTH,
    ensures
        step(insts, s) == (crate::semantics::StepResult {
            state: MachineState {
                tape: s.tape.update(
                    s.ptr as int,
                    if add {
                        cell_add(s.tape[s.ptr as int], val)
                    } else {
                        val
                    },
                ),
                pc: (s.pc + 1) as usize,
                ..s
            },
            event: Event::Continue,
        }),
{
    reveal(m_move);
    reveal(m_add_at);
    reveal(m_set_at);
    assert(moved(s.ptr, 0) == s.ptr);
}

proof fn lemma_step_branch(insts: Seq<NewBytecode>, s: MachineState, addr: u32, if_zero: bool)
    requires
        0 <= s.pc < insts.len(),
        s.pc + 1 <= usize::MAX,
        insts[s.pc as int] == (if if_zero {
            NewBytecode::JmpIfZero { delta: 0, addr }
        } else {
            NewBytecode::JmpIfNotZero { delta: 0, addr }
        }),
        s.ptr < MEMORY_LENGTH,
        s.tape.len() == MEMORY_LENGTH,
    ensures
        step(insts, s) == (crate::semantics::StepResult {
            state: MachineState {
                pc: if (s.tape[s.ptr as int] == 0) == if_zero {
                    addr as usize
                } else {
                    (s.pc + 1) as usize
                },
                ..s
            },
            event: Event::Continue,
        }),
{
    reveal(m_move);
    reveal(m_get);
    reveal(m_value);
    assert(moved(s.ptr, 0) == s.ptr);
}

proof fn lemma_clear_loop_body(s: MachineState, tier: Tier, fuel: nat)
    requires
        s.pc == 1,
        s.ptr < MEMORY_LENGTH,
        s.tape.len() == MEMORY_LENGTH,
        s.tape[s.ptr as int] != 0,
        fuel >= 2 * (s.tape[s.ptr as int] as nat) + 1,
    ensures
        run(clear_loop(), RunState { m: s, budget: None, tier }, fuel) == (
            RunState {
                m: MachineState { tape: s.tape.update(s.ptr as int, 0), pc: 3, ..s },
                budget: None,
                tier,
            },
            Stop::Halt,
        ),
    decreases s.tape[s.ptr as int],
{
    let a = clear_loop();
    lemma_clear_loop_shape();
    let c = s.tape[s.ptr as int];
    let t1 = s.tape.update(s.ptr as int, cell_add(c, 255));
    assert(cell_add(c, 255) == (c - 1) as u8);
    let s1 = MachineState { tape: t1, pc: 2, ..s };
    lemma_step_cell(a, s, 255, true);
    lemma_run_continue(a, s, s1, tier, fuel);
    lemma_step_branch(a, s1, 1, false);
    if c == 1 {
        let s2 = MachineState { pc: 3, ..s1 };
        lemma_run_continue(a, s1, s2, tier, (fuel - 1) as nat);
        lemma_run_halt(a, s2, tier, (fuel - 2) as nat);
        assert(t1 =~= s.tape.update(s.ptr as int, 0));
    } else {
        let s2 = MachineState { pc: 1, ..s1 };
        lemma_run_continue(a, s1, s2, tier, (fuel - 1) as nat);
        lemma_clear_loop_body(s2, tier, (fuel - 2) as nat);
        assert(t1.update(s.ptr as int, 0) =~= s.tape.update(s.ptr as int, 0));
    }
}

/// The clear-cell peephole keeps behaviour: from any state on the tape,
/// the plain `[-]` loop and `SetCell(0)` both end, leaving the same tape
/// (the cell cleared) and the same pointer, with nothing written or read.
pub proof fn lemma_clear_peephole(s: MachineState, tier: Tier, fuel: nat)
    requires
        s.pc == 0,
        s.ptr < MEMORY_LENGTH,
        s.tape.len() == MEMORY_LENGTH,
        fuel >= 2 * (s.tape[s.ptr as int] as nat) + 2,
    ensures
        run(clear_loop(), RunState { m: s, budget: None, tier }, fuel).1 is Halt,
        run(clear_set(), RunState { m: s, budget: None, tier }, fuel).1 is Halt,
        run(clear_loop(), RunState { m: s, budget: None, tier }, fuel).0.m.tape == run(
            clear_set(),
            RunState { m: s, budget: None, tier },
            fuel,
        ).0.m.tape,
        run(clear_loop(), RunState { m: s, budget: None, tier }, fuel).0.m.ptr == run(
            clear_set(),
            RunState { m: s, budget: None, tier },
            fuel,
        ).0.m.ptr,
        run(clear_set(), RunState { m: s, budget: None, tier }, fuel).0.m.tape == s.tape.update(
            s.ptr as int,
            0,
        ),
{
    let a = clear_loop();
    let b = clear_set();
    lemma_clear_loop_shape();
    let c = s.tape[s.ptr as int];
    let sb = MachineState { tape: s.tape.update(s.ptr as int, 0), pc: 1, ..s };
    lemma_step_cell(b, s, 0, false);
    lemma_run_continue(b, s, sb, tier, fuel);
    lemma_run_halt(b, sb, tier, (fuel - 1) as nat);
    lemma_step_branch(a, s, 3, true);
    if c == 0 {
        let s3 = MachineState { pc: 3, ..s };
        lemma_run_continue(a, s, s3, tier, fuel);
        lemma_run_halt(a, s3, tier, (fuel - 1) as nat);
        assert(s.tape.update(s.ptr as int, 0) =~= s.tape);
    } else {
        let s1 = MachineState { pc: 1, ..s };
        lemma_run_continue(a, s, s1, tier, fuel);
        lemma_clear_loop_body(s1, tier, (fuel - 1) as nat);
    }
}


/// A one-destination multiplication loop, unfused: test, decrement, move
/// by `k` and add `m`, move back and jump while non-zero, end.
pub open spec fn mul_loop(k: i16, m: u8) -> Seq<NewBytecode> {
    seq![
        NewBytecode::JmpIfZero { delta: 0, addr: 4 },
        NewBytecode::SingleAdd { delta: 0, val: 255 },
        NewBytecode::SingleAdd { delta: k, val: m },
        NewBytecode::JmpIfNotZero { delta: (-k) as i16, addr: 1 },
        NewBytecode::End { delta: 0 },
    ]
}

/// The same loop after fusion: `MulAndSetZero([(k, m)])` lowered.
pub open spec fn mul_fused(k: i16, m: u8) -> Seq<NewBytecode> {
    seq![
        NewBytecode::MulStart { delta: 0, jz: 2 },
        NewBytecode::Mul { delta: k, val: m },
        NewBytecode::End { delta: 0 },
    ]
}

proof fn lemma_mul_shapes(k: i16, m: u8)
    ensures
        mul_loop(k, m).len() == 5,
        mul_loop(k, m)[0] == (NewBytecode::JmpIfZero { delta: 0, addr: 4 }),
        mul_loop(k, m)[1] == (NewBytecode::SingleAdd { delta: 0, val: 255 }),
        mul_loop(k, m)[2] == (NewBytecode::SingleAdd { delta: k, val: m }),
        mul_loop(k, m)[3] == (NewBytecode::JmpIfNotZero { delta: (-k) as i16, addr: 1 }),
        mul_loop(k, m)[4] == (NewBytecode::End { delta: 0 }),
        mul_fused(k, m).len() == 3,
        mul_fused(k, m)[0] == (NewBytecode::MulStart { delta: 0, jz: 2 }),
        mul_fused(k, m)[1] == (NewBytecode::Mul { delta: k, val: m }),
        mul_fused(k, m)[2] == (NewBytecode::End { delta: 0 }),
{
}

/// The tape after moving `c` times `m` from the cell at `src` to the one at `dst`.
pub open spec fn mul_result(tape: Seq<u8>, src: int, dst: int, c: u8, m: u8) -> Seq<u8> {
    tape.update(src, 0).update(dst, ((tape[dst] as int + c as int * m as int) % 256) as u8)
}

proof fn lemma_step_add_at(insts: Seq<NewBytecode>, s: MachineState, k: i16, val: u8)
    requires
        0 <= s.pc < insts.len(),
        s.pc + 1 <= usize::MAX,
        insts[s.pc as int] == (NewBytecode::SingleAdd { delta: k, val }),
        moved(s.ptr, k as int) < MEMORY_LENGTH,
        s.tape.len() == MEMORY_LENGTH,
    ensures
        step(insts, s) == (crate::semantics::StepResult {
            state: MachineState {
                tape: s.tape.update(
                    moved(s.ptr, k as int) as int,
                    cell_add(s.tape[moved(s.ptr, k as int) as int], val),
                ),
                ptr: moved(s.ptr, k as int),
                pc: (s.pc + 1) as usize,
                ..s
            },
            event: Event::Continue,
        }),
{
    reveal(m_move);
    reveal(m_add_at);
    assert(moved(moved(s.ptr, k as int), 0) == moved(s.ptr, k as int));
}

proof fn lemma_step_jnz_back(insts: Seq<NewBytecode>, s: MachineState, k: i16, addr: u32)
    requires
        0 <= s.pc < insts.len(),
        s.pc + 1 <= usize::MAX,
        insts[s.pc as int] == (NewBytecode::JmpIfNotZero { delta: (-k) as i16, addr }),
        k != -32768,
        moved(s.ptr, -k as int) < MEMORY_LENGTH,
        s.tape.len() == MEMORY_LENGTH,
    ensures
        step(insts, s) == (crate::semantics::StepResult {
            state: MachineState {
                ptr: moved(s.ptr, -k as int),
                pc: if s.tape[moved(s.ptr, -k as int) as int] != 0 {
                    addr as usize
                } else {
                    (s.pc + 1) as usize
                },
                ..s
            },
            event: Event::Continue,
        }),
{
    reveal(m_move);
    reveal(m_get);
    reveal(m_value);
}

proof fn lemma_mod_step(d: u8, c: u8, m: u8)
    requires
        c >= 1,
    ensures
        cell_add(((d as int + (c - 1) * m as int) % 256) as u8, m) == ((d as int + c as int * m as int)
            % 256) as u8,
{
    let a = d as int + (c - 1) * m as int;
    assert(c as int * m as int == (c - 1) * m as int + m as int) by {
        lemma_mul_is_distributive_add_other_way(m as int, c - 1, 1);
    }
    lemma_add_mod_noop(a, m as int, 256);
    assert((m as int) % 256 == m as int);
    assert(0 <= a % 256 < 256);
    assert(((a % 256) as u8) as int == a % 256);
}

proof fn lemma_mul_loop_body(s: MachineState, k: i16, m: u8, tier: Tier, fuel: nat, src: usize, dst: usize, t0: Seq<u8>, c0: u8)
    requires
        s.pc == 1,
        s.ptr == src,
        src < MEMORY_LENGTH,
        k != 0,
        k != -32768,
        dst == moved(src, k as int),
        dst < MEMORY_LENGTH,
        s.tape.len() == MEMORY_LENGTH,
        t0.len() == MEMORY_LENGTH,
        1 <= s.tape[src as int] <= c0,
        s.tape == t0.update(src as int, s.tape[src as int]).update(
            dst as int,
            ((t0[dst as int] as int + (c0 - s.tape[src as int]) * m as int) % 256) as u8,
        ),
        fuel >= 3 * (s.tape[src as int] as nat) + 1,
    ensures
        run(mul_loop(k, m), RunState { m: s, budget: None, tier }, fuel) == (
            RunState {
                m: MachineState { tape: mul_result(t0, src as int, dst as int, c0, m), pc: 4, ..s },
                budget: None,
                tier,
            },
            Stop::Halt,
        ),
    decreases s.tape[src as int],
{
    let a = mul_loop(k, m);
    lemma_mul_shapes(k, m);
    let c = s.tape[src as int];
    lemma_move_and_back(src, k as int);
    assert(src != dst) by {
        reveal(m_move);
    }
    let t1 = s.tape.update(src as int, cell_add(c, 255));
    assert(cell_add(c, 255) == (c - 1) as u8);
    let s1 = MachineState { tape: t1, pc: 2, ..s };
    lemma_step_cell(a, s, 255, true);
    lemma_run_continue(a, s, s1, tier, fuel);
    let d = s.tape[dst as int];
    let t2 = t1.update(dst as int, cell_add(t1[dst as int], m));
    let s2 = MachineState { tape: t2, ptr: dst, pc: 3, ..s1 };
    lemma_step_add_at(a, s1, k, m);
    lemma_run_continue(a, s1, s2, tier, (fuel - 1) as nat);
    lemma_step_jnz_back(a, s2, k, 1);
    lemma_mod_step(t0[dst as int], (c0 - c + 1) as u8, m);
    assert(t1[dst as int] == d);
    let nd = ((t0[dst as int] as int + (c0 - (c - 1)) * m as int) % 256) as u8;
    assert(cell_add(d, m) == nd);
    assert(t2[src as int] == (c - 1) as u8);
    let rest = t0.update(src as int, (c - 1) as u8).update(dst as int, nd);
    assert(t2 =~= rest);
    if c == 1 {
        let s3 = MachineState { ptr: src, pc: 4, ..s2 };
        lemma_run_continue(a, s2, s3, tier, (fuel - 2) as nat);
        lemma_run_halt(a, s3, tier, (fuel - 3) as nat);
        assert(t2 =~= mul_result(t0, src as int, dst as int, c0, m));
    } else {
        let s3 = MachineState { ptr: src, pc: 1, ..s2 };
        lemma_run_continue(a, s2, s3, tier, (fuel - 2) as nat);
        lemma_mul_loop_body(s3, k, m, tier, (fuel - 3) as nat, src, dst, t0, c0);
    }
}

proof fn lemma_step_mul_start(insts: Seq<NewBytecode>, s: MachineState, jz: u32)
    requires
        0 <= s.pc < insts.len(),
        s.pc + 1 <= usize::MAX,
        insts[s.pc as int] == (NewBytecode::MulStart { delta: 0, jz }),
        s.ptr < MEMORY_LENGTH,
        s.tape.len() == MEMORY_LENGTH,
    ensures
        s.tape[s.ptr as int] == 0 ==> step(insts, s) == (crate::semantics::StepResult {
            state: MachineState { pc: jz as usize, ..s },
            event: Event::Continue,
        }),
        s.tape[s.ptr as int] != 0 ==> step(insts, s) == (crate::semantics::StepResult {
            state: MachineState {
                tape: s.tape.update(s.ptr as int, 0),
                pc: (s.pc + 1) as usize,
                mul_val: s.tape[s.ptr as int],
                ..s
            },
            event: Event::Continue,
        }),
{
    reveal(m_move);
    reveal(m_get);
    reveal(m_value);
    reveal(m_set_at);
    assert(moved(s.ptr, 0) == s.ptr);
}

proof fn lemma_step_mul(insts: Seq<NewBytecode>, s: MachineState, k: i16, val: u8)
    requires
        0 <= s.pc < insts.len(),
        s.pc + 1 <= usize::MAX,
        insts[s.pc as int] == (NewBytecode::Mul { delta: k, val }),
        moved(s.ptr, k as int) < MEMORY_LENGTH,
        s.tape.len() == MEMORY_LENGTH,
    ensures
        step(insts, s) == (crate::semantics::StepResult {
            state: MachineState {
                tape: s.tape.update(
                    moved(s.ptr, k as int) as int,
                    cell_add(s.tape[moved(s.ptr, k as int) as int], mul_u8(s.mul_val, val)),
                ),
                pc: (s.pc + 1) as usize,
                ..s
            },
            event: Event::Continue,
        }),
{
    reveal(m_add_at);
}

/// The multiplication peephole keeps behaviour: from any state where the
/// control cell and the destination `k` cells away are on the tape, the
/// loop `[-` move `k`, add `m`, move back `]` and its fused
/// `MulAndSetZero([(k, m)])` both end with the same tape (the control cell
/// cleared, `m` times its value added to the destination) and pointer.
pub proof fn lemma_mul_peephole(s: MachineState, k: i16, m: u8, tier: Tier, fuel: nat)
    requires
        s.pc == 0,
        s.ptr < MEMORY_LENGTH,
        k != 0,
        k != -32768,
        moved(s.ptr, k as int) < MEMORY_LENGTH,
        s.tape.len() == MEMORY_LENGTH,
        fuel >= 3 * (s.tape[s.ptr as int] as nat) + 2,
    ensures
        run(mul_loop(k, m), RunState { m: s, budget: None, tier }, fuel).1 is Halt,
        run(mul_fused(k, m), RunState { m: s, budget: None, tier }, fuel).1 is Halt,
        run(mul_loop(k, m), RunState { m: s, budget: None, tier }, fuel).0.m.tape == run(
            mul_fused(k, m),
            RunState { m: s, budget: None, tier },
            fuel,
        ).0.m.tape,
        run(mul_loop(k, m), RunState { m: s, budget: None, tier }, fuel).0.m.ptr == run(
            mul_fused(k, m),
            RunState { m: s, budget: None, tier },
            fuel,
        ).0.m.ptr,
        run(mul_fused(k, m), RunState { m: s, budget: None, tier }, fuel).0.m.tape == mul_result(
            s.tape,
            s.ptr as int,
            moved(s.ptr, k as int) as int,
            s.tape[s.ptr as int],
            m,
        ),
{
    let a = mul_loop(k, m);
    let b = mul_fused(k, m);
    lemma_mul_shapes(k, m);
    let src = s.ptr;
    let dst = moved(src, k as int);
    let c = s.tape[src as int];
    assert(src != dst) by {
        reveal(m_move);
    }
    lemma_step_mul_start(b, s, 2);
    if c == 0 {
        let sb = MachineState { pc: 2, ..s };
        lemma_run_continue(b, s, sb, tier, fuel);
        lemma_run_halt(b, sb, tier, (fuel - 1) as nat);
        let sa = MachineState { pc: 4, ..s };
        lemma_step_branch(a, s, 4, true);
        lemma_run_continue(a, s, sa, tier, fuel);
        lemma_run_halt(a, sa, tier, (fuel - 1) as nat);
        assert(mul_result(s.tape, src as int, dst as int, c, m) =~= s.tape);
    } else {
        let sb1 = MachineState { tape: s.tape.update(src as int, 0), pc: 1, mul_val: c, ..s };
        lemma_run_continue(b, s, sb1, tier, fuel);
        let f = mul_u8(c, m);
        let sb2 = MachineState {
            tape: sb1.tape.update(dst as int, cell_add(sb1.tape[dst as int], f)),
            pc: 2,
            ..sb1
        };
        lemma_step_mul(b, sb1, k, m);
        lemma_run_continue(b, sb1, sb2, tier, (fuel - 1) as nat);
        lemma_run_halt(b, sb2, tier, (fuel - 2) as nat);
        lemma_add_mod_noop_right(s.tape[dst as int] as int, c as int * m as int, 256);
        assert(0 <= c as int * m as int) by (nonlinear_arith)
            requires
                0 <= c,
                0 <= m,
        ;
        assert(sb2.tape =~= mul_result(s.tape, src as int, dst as int, c, m));
        let sa = MachineState { pc: 1, ..s };
        lemma_step_branch(a, s, 4, true);
        lemma_run_continue(a, s, sa, tier, fuel);
        assert(s.tape =~= s.tape.update(src as int, c).update(
            dst as int,
            ((s.tape[dst as int] as int + (c - c) * m as int) % 256) as u8,
        ));
        lemma_mul_loop_body(sa, k, m, tier, (fuel - 1) as nat, src, dst, s.tape, c);
    }
}


pub open spec fn moved_by(tape: Seq<u8>, at: int, v: u8, add: bool) -> Seq<u8> {
    tape.update(
        at,
        if add {
            cell_add(tape[at], v)
        } else {
            crate::tape::cell_sub(tape[at], v)
        },
    )
}

/// A two-destination move clears its source cell and changes each
/// destination exactly once, by plus or minus the source value.
pub proof fn lemma_double_move_updates(
    s: MachineState,
    delta: i16,
    to1: i16,
    add1: bool,
    to2: i16,
    add2: bool,
)
    requires
        s.tape.len() == MEMORY_LENGTH,
        moved(s.ptr, delta as int) < MEMORY_LENGTH,
        moved(moved(s.ptr, delta as int), to1 as int) < MEMORY_LENGTH,
        moved(moved(s.ptr, delta as int), to2 as int) < MEMORY_LENGTH,
    ensures
        ({
            let src = moved(s.ptr, delta as int) as int;
            let d1 = moved(src as usize, to1 as int) as int;
            let d2 = moved(src as usize, to2 as int) as int;
            let v = s.tape[src];
            let r = crate::semantics::double_move(s, delta as int, to1 as int, add1, to2 as int, add2);
            &&& r.event is Continue
            &&& r.state.ptr == src
            &&& v == 0 ==> r.state.tape == s.tape
            &&& v != 0 ==> r.state.tape == moved_by(moved_by(s.tape, d1, v, add1), d2, v, add2).update(
                src,
                0,
            )
        }),
{
    reveal(m_move);
    reveal(m_get);
    reveal(m_value);
    reveal(m_set_at);
    reveal(m_add_at);
    reveal(crate::semantics::m_sub_at);
    let src = moved(s.ptr, delta as int);
    assert(moved(src, 0) == src);
}


pub open spec fn contains(r: Range, x: int) -> bool {
    r.negative <= x <= r.positive
}

/// The IR operation works on the cell at offset `x`.
pub open spec fn touches(node: IR, x: int) -> bool {
    x == node.pointer || match node.opcode {
        IROp::MulAndSetZero(d) => exists|k: int| 0 <= k < d@.len() && (#[trigger] d@[k]).0 == x,
        IROp::MovesAndSetZero(d) => exists|k: int| 0 <= k < d@.len() && (#[trigger] d@[k]).0 == x,
        IROp::MoveAdd(d) => x == d,
        IROp::MoveSub(d) => x == d,
        _ => false,
    }
}

/// No pointer-moving operation and no loop marker lies strictly between
/// `i` and `j`.
pub open spec fn straight_stretch(ir: Seq<IR>, i: int, j: int) -> bool {
    &&& 0 <= i < j <= ir.len()
    &&& forall|k: int|
        i < k < j ==> !moves_pointer((#[trigger] ir[k]).opcode) && !(ir[k].opcode is LoopStart)
            && !(ir[k].opcode is LoopEnd)
}

proof fn lemma_widen_mul_contains(r: Range, d: Seq<(isize, u8)>, x: int)
    requires
        contains(r, x) || exists|k: int| 0 <= k < d.len() && (#[trigger] d[k]).0 == x,
    ensures
        contains(widen_mul(r, d), x),
    decreases d.len(),
{
    if d.len() > 0 {
        if contains(r, x) || exists|k: int| 0 <= k < d.len() - 1 && (#[trigger] d[k]).0 == x {
            if !contains(r, x) {
                let k = choose|k: int| 0 <= k < d.len() - 1 && (#[trigger] d[k]).0 == x;
                assert(d.drop_last()[k] == d[k]);
            }
            lemma_widen_mul_contains(r, d.drop_last(), x);
        }
    }
}

proof fn lemma_widen_moves_contains(r: Range, d: Seq<(isize, bool)>, x: int)
    requires
        contains(r, x) || exists|k: int| 0 <= k < d.len() && (#[trigger] d[k]).0 == x,
    ensures
        contains(widen_moves(r, d), x),
    decreases d.len(),
{
    if d.len() > 0 {
        if contains(r, x) || exists|k: int| 0 <= k < d.len() - 1 && (#[trigger] d[k]).0 == x {
            if !contains(r, x) {
                let k = choose|k: int| 0 <= k < d.len() - 1 && (#[trigger] d[k]).0 == x;
                assert(d.drop_last()[k] == d[k]);
            }
            lemma_widen_moves_contains(r, d.drop_last(), x);
        }
    }
}

proof fn lemma_widen_mul_keeps(r: Range, d: Seq<(isize, u8)>, x: int)
    requires
        contains(r, x),
    ensures
        contains(widen_mul(r, d), x),
{
    lemma_widen_mul_contains(r, d, x);
}

proof fn lemma_widen_moves_keeps(r: Range, d: Seq<(isize, bool)>, x: int)
    requires
        contains(r, x),
    ensures
        contains(widen_moves(r, d), x),
{
    lemma_widen_moves_contains(r, d, x);
}

/// After the scan has passed index `m` of a straight stretch ending at `j`,
/// the current window holds every cell that the operations from `m` to `j`
/// work on, and the pointer of the operation at `j`.
proof fn lemma_stretch_covered(ir: Seq<IR>, i: int, j: int, m: int)
    requires
        straight_stretch(ir, i, j),
        i < m <= j,
    ensures
        forall|k: int, x: int|
            m <= k < j && #[trigger] touches(ir[k], x) ==> contains(scan(ir, m as nat).curr, x),
        j < ir.len() ==> contains(scan(ir, m as nat).curr, ir[j].pointer as int),
    decreases j - m,
{
    if m == j {
        if j < ir.len() {
            let prev = scan(ir, (j + 1) as nat);
            assert(scan(ir, j as nat) == scan_step(ir, j, prev));
            let node = ir[j];
            let st1 = if node.opcode is LoopEnd || node.opcode is LoopEndWithOffset {
                crate::range::ScanState { stack: prev.stack.push(prev.curr), ..prev }
            } else {
                prev
            };
            let cur = widen(st1.curr, node.pointer);
            assert(contains(cur, node.pointer as int));
            match node.opcode {
                IROp::MulAndSetZero(d) => lemma_widen_mul_keeps(cur, d@, node.pointer as int),
                IROp::MovesAndSetZero(d) => lemma_widen_moves_keeps(cur, d@, node.pointer as int),
                _ => {},
            }
        }
    } else {
        lemma_stretch_covered(ir, i, j, m + 1);
        let prev = scan(ir, (m + 1) as nat);
        assert(scan(ir, m as nat) == scan_step(ir, m, prev));
        let node = ir[m];
        let cur = widen(prev.curr, node.pointer);
        assert(!moves_pointer(node.opcode) && !(node.opcode is LoopStart) && !(node.opcode is LoopEnd));
        assert forall|k: int, x: int|
            m <= k < j && #[trigger] touches(ir[k], x) implies contains(scan(ir, m as nat).curr, x) by {
            if k == m {
                match node.opcode {
                    IROp::MulAndSetZero(d) => {
                        if x != node.pointer {
                            lemma_widen_mul_contains(cur, d@, x);
                        } else {
                            lemma_widen_mul_keeps(cur, d@, x);
                        }
                    },
                    IROp::MovesAndSetZero(d) => {
                        if x != node.pointer {
                            lemma_widen_moves_contains(cur, d@, x);
                        } else {
                            lemma_widen_moves_keeps(cur, d@, x);
                        }
                    },
                    _ => {},
                }
            } else {
                assert(contains(prev.curr, x));
                match node.opcode {
                    IROp::MulAndSetZero(d) => lemma_widen_mul_keeps(cur, d@, x),
                    IROp::MovesAndSetZero(d) => lemma_widen_moves_keeps(cur, d@, x),
                    _ => {},
                }
            }
        }
        if j < ir.len() {
            let x = ir[j].pointer as int;
            match node.opcode {
                IROp::MulAndSetZero(d) => lemma_widen_mul_keeps(cur, d@, x),
                IROp::MovesAndSetZero(d) => lemma_widen_moves_keeps(cur, d@, x),
                _ => {},
            }
        }
    }
}

/// Where a recorded entry is anchored: a shift at its own pointer, and a
/// loop end with an offset, once the scan has passed its loop start, at the
/// loop start's pointer (the frame both the next pass and the code after the
/// loop work in).
pub open spec fn anchor_at(ir: Seq<IR>, i: int, m: int) -> isize {
    if ir[i].opcode is LoopEndWithOffset && m <= crate::ir::loop_end_start(ir[i].opcode) {
        ir[crate::ir::loop_end_start(ir[i].opcode)].pointer
    } else {
        ir[i].pointer
    }
}

/// Once recorded, the window of a pointer-moving operation only grows as
/// the scan goes on to the left, and its anchor is `anchor_at`.
proof fn lemma_entry_persists(ir: Seq<IR>, i: int, m: int)
    requires
        0 <= m <= i < ir.len(),
        moves_pointer(ir[i].opcode),
        crate::ir::loops_matched(ir),
        ir.len() <= usize::MAX,
    ensures
        scan(ir, m as nat).map[i] is Some,
        scan(ir, m as nat).map[i]->Some_0.pointer == anchor_at(ir, i, m),
        forall|x: int|
            contains(scan(ir, i as nat).map[i]->Some_0.range, x) ==> #[trigger] contains(
                scan(ir, m as nat).map[i]->Some_0.range,
                x,
            ),
    decreases i - m,
{
    crate::range::lemma_scan_map_len(ir, m as nat);
    crate::range::lemma_scan_map_len(ir, (m + 1) as nat);
    if m == i {
        assert(scan(ir, i as nat) == scan_step(ir, i, scan(ir, (i + 1) as nat)));
        if ir[i].opcode is LoopEndWithOffset {
            assert(crate::ir::is_loop_end(ir[i].opcode));
        }
    } else {
        lemma_entry_persists(ir, i, m + 1);
        let prev = scan(ir, (m + 1) as nat);
        assert(scan(ir, m as nat) == scan_step(ir, m, prev));
        let old_e = prev.map[i]->Some_0;
        if ir[m].opcode is LoopStart && ir[m].opcode->LoopStart_0 as int == i {
            assert(crate::ir::is_loop_end(ir[i].opcode));
            assert(crate::ir::loop_end_start(ir[i].opcode) == m);
        } else {
            assert(scan(ir, m as nat).map[i] == prev.map[i]);
            if ir[i].opcode is LoopEndWithOffset {
                let st = crate::ir::loop_end_start(ir[i].opcode);
                assert(crate::ir::is_loop_end(ir[i].opcode));
                assert(ir[st].opcode == IROp::LoopStart(i as usize));
                assert(st != m);
            }
        }
        assert forall|x: int|
            contains(scan(ir, i as nat).map[i]->Some_0.range, x) implies #[trigger] contains(
                scan(ir, m as nat).map[i]->Some_0.range,
                x,
            ) by {
            assert(contains(old_e.range, x));
        }
    }
}

/// The recorded window only grows between any two points of the scan.
proof fn lemma_entry_grows(ir: Seq<IR>, i: int, m: int, n: int, x: int)
    requires
        0 <= m <= n <= i < ir.len(),
        moves_pointer(ir[i].opcode),
        crate::ir::loops_matched(ir),
        ir.len() <= usize::MAX,
        contains(scan(ir, n as nat).map[i]->Some_0.range, x),
    ensures
        contains(scan(ir, m as nat).map[i]->Some_0.range, x),
    decreases n - m,
{
    if m < n {
        lemma_entry_grows(ir, i, m + 1, n, x);
        lemma_entry_persists(ir, i, m + 1);
        crate::range::lemma_scan_map_len(ir, (m + 1) as nat);
        let prev = scan(ir, (m + 1) as nat);
        assert(scan(ir, m as nat) == scan_step(ir, m, prev));
    }
}

proof fn lemma_range_arith(e: crate::range::RSMapElement, pointer: usize, x: int)
    requires
        pointer < MEMORY_LENGTH,
        memory_range_of(e) is Some,
        in_range(memory_range_of(e)->Some_0, pointer),
        contains(e.range, x),
    ensures
        0 <= pointer + x - e.pointer < MEMORY_LENGTH,
{
}

/// Within a straight stretch after a pointer-moving operation at `i` (no
/// loop marker and no other pointer-moving operation in between), every
/// cell that an operation works on, and the cell of the operation ending
/// the stretch, is on the tape whenever the pointer left at `i` is on the
/// tape and satisfies the range that the analysis recorded for `i`. Cells
/// are counted from the entry's anchor: the shift's own pointer, or for a
/// loop end with an offset the loop start's pointer, which is the frame the
/// code after the loop works in.
pub proof fn lemma_straight_reach(ir: Seq<IR>, i: int, j: int, pointer: usize)
    requires
        crate::ir::loops_matched(ir),
        ir.len() <= usize::MAX,
        straight_stretch(ir, i, j),
        moves_pointer(ir[i].opcode),
        pointer < MEMORY_LENGTH,
        memory_range_of(scan(ir, 0).map[i]->Some_0) is Some,
        in_range(memory_range_of(scan(ir, 0).map[i]->Some_0)->Some_0, pointer),
    ensures
        scan(ir, 0).map[i]->Some_0.pointer == anchor_at(ir, i, 0),
        forall|k: int, x: int|
            i < k < j && #[trigger] touches(ir[k], x) ==> 0 <= pointer + x - anchor_at(ir, i, 0)
                < MEMORY_LENGTH,
        j < ir.len() ==> 0 <= pointer + ir[j].pointer - anchor_at(ir, i, 0) < MEMORY_LENGTH,
{
    lemma_entry_persists(ir, i, 0);
    let p = ir[i].pointer as int;
    let e = scan(ir, 0).map[i]->Some_0;
    let w = e.range;
    if i + 1 <= j {
        lemma_stretch_covered(ir, i, j, i + 1);
    }
    crate::range::lemma_scan_map_len(ir, (i + 1) as nat);
    assert(scan(ir, i as nat) == scan_step(ir, i, scan(ir, (i + 1) as nat)));
    let rec = scan(ir, i as nat).map[i]->Some_0.range;
    assert forall|k: int, x: int|
        i < k < j && #[trigger] touches(ir[k], x) implies 0 <= pointer + x - anchor_at(ir, i, 0)
        < MEMORY_LENGTH by {
        assert(contains(scan(ir, (i + 1) as nat).curr, x));
        assert(contains(rec, x));
        assert(contains(w, x));
        lemma_range_arith(e, pointer, x);
    }
    if j < ir.len() {
        assert(contains(rec, ir[j].pointer as int));
        assert(contains(w, ir[j].pointer as int));
        lemma_range_arith(e, pointer, ir[j].pointer as int);
    }
}

/// The loop-back path of a loop that closes with an offset at `i` and
/// starts at `s`: when the pointer left by the closing jump is on the tape
/// and satisfies the range recorded for `i`, the next pass works, counted
/// from the loop start's pointer, only on cells of the tape up to the first
/// loop marker or pointer-moving operation of the body (`j`), that one
/// included.
pub proof fn lemma_loop_back_reach(ir: Seq<IR>, i: int, s: int, j: int, pointer: usize)
    requires
        crate::ir::loops_matched(ir),
        ir.len() <= usize::MAX,
        0 <= i < ir.len(),
        ir[i].opcode is LoopEndWithOffset,
        s == crate::ir::loop_end_start(ir[i].opcode),
        straight_stretch(ir, s, j),
        j <= i,
        pointer < MEMORY_LENGTH,
        memory_range_of(scan(ir, 0).map[i]->Some_0) is Some,
        in_range(memory_range_of(scan(ir, 0).map[i]->Some_0)->Some_0, pointer),
    ensures
        scan(ir, 0).map[i]->Some_0.pointer == ir[s].pointer,
        forall|k: int, x: int|
            s < k < j && #[trigger] touches(ir[k], x) ==> 0 <= pointer + x - ir[s].pointer
                < MEMORY_LENGTH,
        0 <= pointer + ir[j].pointer - ir[s].pointer < MEMORY_LENGTH,
{
    assert(crate::ir::is_loop_end(ir[i].opcode));
    assert(ir[s].opcode == IROp::LoopStart(i as usize));
    lemma_entry_persists(ir, i, 0);
    lemma_entry_persists(ir, i, s + 1);
    lemma_entry_persists(ir, i, s);
    let e = scan(ir, 0).map[i]->Some_0;
    let w = e.range;
    if s + 1 <= j {
        lemma_stretch_covered(ir, s, j, s + 1);
    }
    crate::range::lemma_scan_map_len(ir, (s + 1) as nat);
    let prev = scan(ir, (s + 1) as nat);
    assert(scan(ir, s as nat) == scan_step(ir, s, prev));
    let cur = widen(prev.curr, ir[s].pointer);
    let at_s = scan(ir, s as nat).map[i]->Some_0.range;
    assert(at_s == join(prev.map[i]->Some_0.range, cur));
    assert forall|k: int, x: int|
        s < k < j && #[trigger] touches(ir[k], x) implies 0 <= pointer + x - ir[s].pointer
        < MEMORY_LENGTH by {
        assert(contains(prev.curr, x));
        assert(contains(at_s, x));
        lemma_entry_grows(ir, i, 0, s, x);
        lemma_range_arith(e, pointer, x);
    }
    if j == s + 0 {
    } else {
        assert(contains(prev.curr, ir[j].pointer as int));
    }
    assert(contains(at_s, ir[j].pointer as int));
    lemma_entry_grows(ir, i, 0, s, ir[j].pointer as int);
    lemma_range_arith(e, pointer, ir[j].pointer as int);
}

} // verus!
