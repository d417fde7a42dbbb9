use vstd::prelude::*;
use crate::bytecode::{NewBytecode, program_wf, close_paired, is_close, local_ok};
use crate::error::RuntimeError;
use crate::program::Program;
use crate::semantics::{
    Event, Mach, MachineState, RunState, Stop, Tier, m_add_at, m_get, m_move, m_set_at, m_shift, m_sub_at,
    m_value, mul_u8, probe, probe_pointer, run, shift_measure, step,
};
use crate::range::{negative_is_out_of_range, positive_is_out_of_range};
use crate::tape::{Tape, wrapping_offset};

verus! {

pub open spec fn mach_of(t: Tape, err: Option<RuntimeError>) -> Mach {
    Mach { tape: t.buffer@, ptr: t.data_pointer, err }
}

pub open spec fn state_of(t: Tape, p: Program) -> MachineState {
    MachineState { tape: t.buffer@, ptr: t.data_pointer, pc: p.pc, mul_val: p.mul_val }
}

fn e_move(t: &mut Tape, err: &Option<RuntimeError>, delta: isize)
    requires
        old(t).wf(),
    ensures
        final(t).wf(),
        mach_of(*final(t), *err) == m_move(mach_of(*old(t), *err), delta as int),
{
    proof {
        reveal(m_move);
    }
    if err.is_none() {
        t.step(delta);
    }
}

fn e_get(t: &Tape, err: &mut Option<RuntimeError>) -> (v: u8)
    requires
        t.wf(),
    ensures
        mach_of(*t, *final(err)) == m_get(mach_of(*t, *old(err))),
        v == m_value(m_get(mach_of(*t, *old(err)))),
{
    proof {
        reveal(m_get);
        reveal(m_value);
    }
    if err.is_some() {
        return 0;
    }
    match t.get() {
        Ok(v) => v,
        Err(e) => {
            *err = Some(e);
            0
        },
    }
}

fn e_set_at(t: &mut Tape, err: &mut Option<RuntimeError>, off: isize, v: u8)
    requires
        old(t).wf(),
    ensures
        final(t).wf(),
        mach_of(*final(t), *final(err)) == m_set_at(mach_of(*old(t), *old(err)), off as int, v),
{
    proof {
        reveal(m_set_at);
    }
    if err.is_some() {
        return;
    }
    match t.set_with_offset(off, v) {
        Ok(()) => {},
        Err(e) => {
            *err = Some(e);
        },
    }
}

fn e_add_at(t: &mut Tape, err: &mut Option<RuntimeError>, off: isize, v: u8)
    requires
        old(t).wf(),
    ensures
        final(t).wf(),
        mach_of(*final(t), *final(err)) == m_add_at(mach_of(*old(t), *old(err)), off as int, v),
{
    proof {
        reveal(m_add_at);
    }
    if err.is_some() {
        return;
    }
    match t.add_with_offset(off, v) {
        Ok(()) => {},
        Err(e) => {
            *err = Some(e);
        },
    }
}

fn e_sub_at(t: &mut Tape, err: &mut Option<RuntimeError>, off: isize, v: u8)
    requires
        old(t).wf(),
    ensures
        final(t).wf(),
        mach_of(*final(t), *final(err)) == m_sub_at(mach_of(*old(t), *old(err)), off as int, v),
{
    proof {
        reveal(m_sub_at);
    }
    if err.is_some() {
        return;
    }
    match t.sub_with_offset(off, v) {
        Ok(()) => {},
        Err(e) => {
            *err = Some(e);
        },
    }
}

/// Moves the pointer by `step` until it reaches a zero cell.
fn e_shift(t: &mut Tape, err: &mut Option<RuntimeError>, step: i16)
    requires
        old(t).wf(),
    ensures
        final(t).wf(),
        mach_of(*final(t), *final(err)) == m_shift(mach_of(*old(t), *old(err)), step as int),
{
    proof {
        reveal(m_shift);
    }
    if err.is_some() {
        return;
    }
    loop
        invariant
            t.wf(),
            err.is_none(),
            m_shift(mach_of(*t, *err), step as int) == m_shift(
                mach_of(*old(t), *old(err)),
                step as int,
            ),
        ensures
            t.wf(),
            mach_of(*t, *err) == m_shift(mach_of(*old(t), *old(err)), step as int),
        decreases shift_measure(mach_of(*t, *err), step as int),
    {
        proof {
            reveal(m_shift);
        }
        match t.get() {
            Ok(v) => {
                if v == 0 || step == 0 {
                    return;
                }
                t.step(step as isize);
            },
            Err(e) => {
                *err = Some(e);
                return;
            },
        }
    }
}

fn mul_byte(a: u8, b: u8) -> (r: u8)
    ensures
        r == mul_u8(a, b),
{
    proof {
        assert(a as int * b as int <= 255 * 255) by (nonlinear_arith)
            requires
                a <= 255,
                b <= 255,
                0 <= a,
                0 <= b,
        ;
        assert(a as int * b as int >= 0) by (nonlinear_arith)
            requires
                0 <= a,
                0 <= b,
        ;
    }
    let p: u32 = (a as u32) * (b as u32);
    (p % 256) as u8
}


/// A program counter that a step leaves the program at stays inside it.
pub proof fn lemma_next_pc(insts: Seq<NewBytecode>, s: MachineState)
    requires
        program_wf(insts),
        s.pc < insts.len(),
    ensures
        !(step(insts, s).event is Halt) && !(step(insts, s).event is Fault) ==> step(
            insts,
            s,
        ).state.pc < insts.len(),
        step(insts, s).event is Fault ==> step(insts, s).state.pc == s.pc,
{
    let b = insts[s.pc as int];
    assert(local_ok(b, s.pc as int, insts.len() as int));
    if !(b is End) {
        assert(s.pc != insts.len() - 1);
    }
    if b is JmpIfZero {
        let a = b->JmpIfZero_addr as int;
        assert(is_close(insts[a - 1]));
        if a - 1 == insts.len() - 1 {
            assert(insts.last() is End);
        }
    }
    if is_close(b) {
        assert(close_paired(insts, s.pc as int));
    }
}

fn execute_cells(tape: &mut Tape, program: &mut Program) -> (ev: Event)
    requires
        old(tape).wf(),
        old(program).wf(),
        ({
            let b = old(program).insts@[old(program).pc as int];
            b is Breakpoint || b is SingleAdd || b is SingleSet || b is AddAdd || b is AddSet || b is SetAdd || b is SetSet || b is BothRangeCheck
        }),
    ensures
        final(tape).wf(),
        final(program).insts == old(program).insts,
        final(program).step_remains == old(program).step_remains,
        final(program).flush == old(program).flush,
        final(program).ocm == old(program).ocm,
        ({
            let r = step(old(program).insts@, state_of(*old(tape), *old(program)));
            state_of(*final(tape), *final(program)) == r.state && ev == r.event
        }),
{
    let len = program.insts.len();
    let pc = program.pc;
    let mul = program.mul_val;
    let b = program.insts[pc];
    let mut err: Option<RuntimeError> = None;
    let mut next: usize = pc + 1;
    let mut new_mul: u8 = mul;
    proof {
        assert(local_ok(b, pc as int, program.insts@.len() as int));
        if is_close(b) {
            assert(close_paired(program.insts@, pc as int));
        }
    }
    match b {
        NewBytecode::Breakpoint { delta } => {
            e_move(tape, &err, delta as isize);
        },
        NewBytecode::SingleAdd { delta, val } => {
            e_move(tape, &err, delta as isize);
            e_add_at(tape, &mut err, 0, val);
        },
        NewBytecode::SingleSet { delta, val } => {
            e_move(tape, &err, delta as isize);
            e_set_at(tape, &mut err, 0, val);
        },
        NewBytecode::AddAdd { delta1, val1, delta2, val2 } => {
            e_move(tape, &err, delta1 as isize);
            e_add_at(tape, &mut err, 0, val1);
            e_move(tape, &err, delta2 as isize);
            e_add_at(tape, &mut err, 0, val2);
        },
        NewBytecode::AddSet { delta1, val1, delta2, val2 } => {
            e_move(tape, &err, delta1 as isize);
            e_add_at(tape, &mut err, 0, val1);
            e_move(tape, &err, delta2 as isize);
            e_set_at(tape, &mut err, 0, val2);
        },
        NewBytecode::SetAdd { delta1, val1, delta2, val2 } => {
            e_move(tape, &err, delta1 as isize);
            e_set_at(tape, &mut err, 0, val1);
            e_move(tape, &err, delta2 as isize);
            e_add_at(tape, &mut err, 0, val2);
        },
        NewBytecode::SetSet { delta1, val1, delta2, val2 } => {
            e_move(tape, &err, delta1 as isize);
            e_set_at(tape, &mut err, 0, val1);
            e_move(tape, &err, delta2 as isize);
            e_set_at(tape, &mut err, 0, val2);
        },
        NewBytecode::BothRangeCheck { .. } => {},
        _ => {},
    }
    match err {
        Some(e) => Event::Fault(e),
        None => {
            program.pc = next;
            program.mul_val = new_mul;
            Event::Continue
        },
    }
}

fn execute_shift(tape: &mut Tape, program: &mut Program) -> (ev: Event)
    requires
        old(tape).wf(),
        old(program).wf(),
        ({
            let b = old(program).insts@[old(program).pc as int];
            b is Shift || b is ShiftP || b is ShiftN || b is ShiftAdd || b is ShiftAddP || b is ShiftAddN || b is ShiftSet || b is ShiftSetP || b is ShiftSetN
        }),
    ensures
        final(tape).wf(),
        final(program).insts == old(program).insts,
        final(program).step_remains == old(program).step_remains,
        final(program).flush == old(program).flush,
        final(program).ocm == old(program).ocm,
        ({
            let r = step(old(program).insts@, state_of(*old(tape), *old(program)));
            state_of(*final(tape), *final(program)) == r.state && ev == r.event
        }),
{
    let len = program.insts.len();
    let pc = program.pc;
    let mul = program.mul_val;
    let b = program.insts[pc];
    let mut err: Option<RuntimeError> = None;
    let mut next: usize = pc + 1;
    let mut new_mul: u8 = mul;
    proof {
        assert(local_ok(b, pc as int, program.insts@.len() as int));
        if is_close(b) {
            assert(close_paired(program.insts@, pc as int));
        }
    }
    match b {
        NewBytecode::Shift { delta, step } | NewBytecode::ShiftP { delta, step, .. }
        | NewBytecode::ShiftN { delta, step, .. } => {
            e_move(tape, &err, delta as isize);
            e_shift(tape, &mut err, step);
        },
        NewBytecode::ShiftAdd { delta1, step, delta2, val }
        | NewBytecode::ShiftAddP { delta1, step, delta2, val, .. }
        | NewBytecode::ShiftAddN { delta1, step, delta2, val, .. } => {
            e_move(tape, &err, delta1 as isize);
            e_shift(tape, &mut err, step as i16);
            e_move(tape, &err, delta2 as isize);
            e_add_at(tape, &mut err, 0, val);
        },
        NewBytecode::ShiftSet { delta1, step, delta2, val }
        | NewBytecode::ShiftSetP { delta1, step, delta2, val, .. }
        | NewBytecode::ShiftSetN { delta1, step, delta2, val, .. } => {
            e_move(tape, &err, delta1 as isize);
            e_shift(tape, &mut err, step as i16);
            e_move(tape, &err, delta2 as isize);
            e_set_at(tape, &mut err, 0, val);
        },
        _ => {},
    }
    match err {
        Some(e) => Event::Fault(e),
        None => {
            program.pc = next;
            program.mul_val = new_mul;
            Event::Continue
        },
    }
}

fn execute_expand(tape: &mut Tape, program: &mut Program) -> (ev: Event)
    requires
        old(tape).wf(),
        old(program).wf(),
        ({
            let b = old(program).insts@[old(program).pc as int];
            b is MulStart || b is MoveStart || b is Mul || b is MoveAdd || b is MoveSub
        }),
    ensures
        final(tape).wf(),
        final(program).insts == old(program).insts,
        final(program).step_remains == old(program).step_remains,
        final(program).flush == old(program).flush,
        final(program).ocm == old(program).ocm,
        ({
            let r = step(old(program).insts@, state_of(*old(tape), *old(program)));
            state_of(*final(tape), *final(program)) == r.state && ev == r.event
        }),
{
    let len = program.insts.len();
    let pc = program.pc;
    let mul = program.mul_val;
    let b = program.insts[pc];
    let mut err: Option<RuntimeError> = None;
    let mut next: usize = pc + 1;
    let mut new_mul: u8 = mul;
    proof {
        assert(local_ok(b, pc as int, program.insts@.len() as int));
        if is_close(b) {
            assert(close_paired(program.insts@, pc as int));
        }
    }
    match b {
        NewBytecode::MulStart { delta, jz } | NewBytecode::MoveStart { delta, jz } => {
            e_move(tape, &err, delta as isize);
            let v = e_get(tape, &mut err);
            if v == 0 {
                next = jz as usize;
            } else {
                e_set_at(tape, &mut err, 0, 0);
                new_mul = v;
            }
        },
        NewBytecode::Mul { delta, val } => {
            let f = mul_byte(mul, val);
            e_add_at(tape, &mut err, delta as isize, f);
        },
        NewBytecode::MoveAdd { delta } => {
            e_add_at(tape, &mut err, delta as isize, mul);
        },
        NewBytecode::MoveSub { delta } => {
            e_sub_at(tape, &mut err, delta as isize, mul);
        },
        _ => {},
    }
    match err {
        Some(e) => Event::Fault(e),
        None => {
            program.pc = next;
            program.mul_val = new_mul;
            Event::Continue
        },
    }
}

fn execute_moves(tape: &mut Tape, program: &mut Program) -> (ev: Event)
    requires
        old(tape).wf(),
        old(program).wf(),
        ({
            let b = old(program).insts@[old(program).pc as int];
            b is SingleMoveAdd || b is SingleMoveSub || b is DoubleMoveAddAdd || b is DoubleMoveAddSub || b is DoubleMoveSubAdd || b is DoubleMoveSubSub
        }),
    ensures
        final(tape).wf(),
        final(program).insts == old(program).insts,
        final(program).step_remains == old(program).step_remains,
        final(program).flush == old(program).flush,
        final(program).ocm == old(program).ocm,
        ({
            let r = step(old(program).insts@, state_of(*old(tape), *old(program)));
            state_of(*final(tape), *final(program)) == r.state && ev == r.event
        }),
{
    let len = program.insts.len();
    let pc = program.pc;
    let mul = program.mul_val;
    let b = program.insts[pc];
    let mut err: Option<RuntimeError> = None;
    let mut next: usize = pc + 1;
    let mut new_mul: u8 = mul;
    proof {
        assert(local_ok(b, pc as int, program.insts@.len() as int));
        if is_close(b) {
            assert(close_paired(program.insts@, pc as int));
        }
    }
    match b {
        NewBytecode::SingleMoveAdd { delta, to } => {
            e_move(tape, &err, delta as isize);
            let v = e_get(tape, &mut err);
            if v != 0 {
                e_set_at(tape, &mut err, 0, 0);
                e_add_at(tape, &mut err, to as isize, v);
            }
        },
        NewBytecode::SingleMoveSub { delta, to } => {
            e_move(tape, &err, delta as isize);
            let v = e_get(tape, &mut err);
            if v != 0 {
                e_set_at(tape, &mut err, 0, 0);
                e_sub_at(tape, &mut err, to as isize, v);
            }
        },
        NewBytecode::DoubleMoveAddAdd { delta, to1, to2 } => {
            e_move(tape, &err, delta as isize);
            let v = e_get(tape, &mut err);
            if v != 0 {
                e_add_at(tape, &mut err, to1 as isize, v);
                e_add_at(tape, &mut err, to2 as isize, v);
                e_set_at(tape, &mut err, 0, 0);
            }
        },
        NewBytecode::DoubleMoveAddSub { delta, to1, to2 } => {
            e_move(tape, &err, delta as isize);
            let v = e_get(tape, &mut err);
            if v != 0 {
                e_add_at(tape, &mut err, to1 as isize, v);
                e_sub_at(tape, &mut err, to2 as isize, v);
                e_set_at(tape, &mut err, 0, 0);
            }
        },
        NewBytecode::DoubleMoveSubAdd { delta, to1, to2 } => {
            e_move(tape, &err, delta as isize);
            let v = e_get(tape, &mut err);
            if v != 0 {
                e_sub_at(tape, &mut err, to1 as isize, v);
                e_add_at(tape, &mut err, to2 as isize, v);
                e_set_at(tape, &mut err, 0, 0);
            }
        },
        NewBytecode::DoubleMoveSubSub { delta, to1, to2 } => {
            e_move(tape, &err, delta as isize);
            let v = e_get(tape, &mut err);
            if v != 0 {
                e_sub_at(tape, &mut err, to1 as isize, v);
                e_sub_at(tape, &mut err, to2 as isize, v);
                e_set_at(tape, &mut err, 0, 0);
            }
        },
        _ => {},
    }
    match err {
        Some(e) => Event::Fault(e),
        None => {
            program.pc = next;
            program.mul_val = new_mul;
            Event::Continue
        },
    }
}

fn execute_jumps(tape: &mut Tape, program: &mut Program) -> (ev: Event)
    requires
        old(tape).wf(),
        old(program).wf(),
        ({
            let b = old(program).insts@[old(program).pc as int];
            b is JmpIfZero || b is JmpIfNotZero || b is PositiveRangeCheckJNZ || b is NegativeRangeCheckJNZ || b is BothRangeCheckJNZ
        }),
    ensures
        final(tape).wf(),
        final(program).insts == old(program).insts,
        final(program).step_remains == old(program).step_remains,
        final(program).flush == old(program).flush,
        final(program).ocm == old(program).ocm,
        ({
            let r = step(old(program).insts@, state_of(*old(tape), *old(program)));
            state_of(*final(tape), *final(program)) == r.state && ev == r.event
        }),
{
    let len = program.insts.len();
    let pc = program.pc;
    let mul = program.mul_val;
    let b = program.insts[pc];
    let mut err: Option<RuntimeError> = None;
    let mut next: usize = pc + 1;
    let mut new_mul: u8 = mul;
    proof {
        assert(local_ok(b, pc as int, program.insts@.len() as int));
        if is_close(b) {
            assert(close_paired(program.insts@, pc as int));
        }
    }
    match b {
        NewBytecode::JmpIfZero { delta, addr } => {
            e_move(tape, &err, delta as isize);
            let v = e_get(tape, &mut err);
            if v == 0 {
                next = addr as usize;
            }
        },
        NewBytecode::JmpIfNotZero { delta, addr } => {
            e_move(tape, &err, delta as isize);
            let v = e_get(tape, &mut err);
            if v != 0 {
                next = addr as usize;
            }
        },
        NewBytecode::PositiveRangeCheckJNZ { delta, addr_subrel, .. }
        | NewBytecode::NegativeRangeCheckJNZ { delta, addr_subrel, .. } => {
            e_move(tape, &err, delta as isize);
            let v = e_get(tape, &mut err);
            if v != 0 {
                next = pc - addr_subrel as usize;
            }
        },
        NewBytecode::BothRangeCheckJNZ { delta, addr_subrel, .. } => {
            e_move(tape, &err, delta as isize);
            let v = e_get(tape, &mut err);
            if v != 0 {
                next = pc - addr_subrel as usize;
            }
        },
        _ => {},
    }
    match err {
        Some(e) => Event::Fault(e),
        None => {
            program.pc = next;
            program.mul_val = new_mul;
            Event::Continue
        },
    }
}

/// Runs the instruction at the program counter, checking every tape access.
/// The tape, pointer, program counter and broadcast value move exactly as
/// `step` says, and the event it gives is handed back.
pub fn execute(tape: &mut Tape, program: &mut Program) -> (ev: Event)
    requires
        old(tape).wf(),
        old(program).wf(),
    ensures
        final(tape).wf(),
        final(program).insts == old(program).insts,
        final(program).step_remains == old(program).step_remains,
        final(program).flush == old(program).flush,
        final(program).ocm == old(program).ocm,
        ({
            let r = step(old(program).insts@, state_of(*old(tape), *old(program)));
            state_of(*final(tape), *final(program)) == r.state && ev == r.event
        }),
{
    let len = program.insts.len();
    let pc = program.pc;
    let b = program.insts[pc];
    let err: Option<RuntimeError> = None;
    let next: usize = pc + 1;
    match b {
        NewBytecode::Breakpoint { .. } | NewBytecode::SingleAdd { .. }
        | NewBytecode::SingleSet { .. } | NewBytecode::AddAdd { .. } | NewBytecode::AddSet { .. }
        | NewBytecode::SetAdd { .. } | NewBytecode::SetSet { .. }
        | NewBytecode::BothRangeCheck { .. } => execute_cells(tape, program),
        NewBytecode::Shift { .. } | NewBytecode::ShiftP { .. } | NewBytecode::ShiftN { .. }
        | NewBytecode::ShiftAdd { .. } | NewBytecode::ShiftAddP { .. }
        | NewBytecode::ShiftAddN { .. } | NewBytecode::ShiftSet { .. }
        | NewBytecode::ShiftSetP { .. } | NewBytecode::ShiftSetN { .. } => execute_shift(tape, program),
        NewBytecode::MulStart { .. } | NewBytecode::MoveStart { .. } | NewBytecode::Mul { .. }
        | NewBytecode::MoveAdd { .. } | NewBytecode::MoveSub { .. } => execute_expand(tape, program),
        NewBytecode::SingleMoveAdd { .. } | NewBytecode::SingleMoveSub { .. }
        | NewBytecode::DoubleMoveAddAdd { .. } | NewBytecode::DoubleMoveAddSub { .. }
        | NewBytecode::DoubleMoveSubAdd { .. } | NewBytecode::DoubleMoveSubSub { .. } => execute_moves(tape, program),
        NewBytecode::JmpIfZero { .. } | NewBytecode::JmpIfNotZero { .. }
        | NewBytecode::PositiveRangeCheckJNZ { .. } | NewBytecode::NegativeRangeCheckJNZ { .. }
        | NewBytecode::BothRangeCheckJNZ { .. } => execute_jumps(tape, program),
        NewBytecode::In { delta } => {
            e_move(tape, &err, delta as isize);
            program.pc = next;
            return Event::Input;
        },
        NewBytecode::Out { delta } => {
            e_move(tape, &err, delta as isize);
            let mut err = err;
            let v = e_get(tape, &mut err);
            match err {
                Some(e) => {
                    return Event::Fault(e);
                },
                None => {
                    program.pc = next;
                    return Event::Output(v);
                },
            }
        },
        NewBytecode::End { delta } => {
            e_move(tape, &err, delta as isize);
            return Event::Halt;
        },
    }
}


/// What an interpreter hands back to its caller.
#[derive(Debug, Clone, Copy, PartialEq, Eq, Structural)]
pub enum InterpreterResult {
    /// The program reached `End`.
    End,
    /// Execution goes on in the given tier, at the program counter reached.
    ToggleTier(Tier),
    /// The program wrote this byte.
    Output(u8),
    /// The program reads a byte into the cell under the pointer.
    Input,
    /// The allotted number of instructions was spent.
    Suspended,
}

pub open spec fn run_state(t: Tape, p: Program, tier: Tier) -> RunState {
    RunState { m: state_of(t, p), budget: p.step_remains, tier }
}

pub open spec fn stop_of(r: Result<InterpreterResult, RuntimeError>) -> Stop {
    match r {
        Ok(InterpreterResult::Output(v)) => Stop::Output(v),
        Ok(InterpreterResult::Input) => Stop::Input,
        Ok(InterpreterResult::End) => Stop::Halt,
        Ok(InterpreterResult::Suspended) => Stop::Fuel,
        Ok(InterpreterResult::ToggleTier(_)) => Stop::Fuel,
        Err(e) => Stop::Fault(e),
    }
}

/// What a tier run that started in `init` with `fuel0` instructions to go
/// and gave `r` leaves: a tier switch hands over a state from which `run`
/// goes on to the same end, with less fuel; anything else is where `run`
/// stops.
pub open spec fn tier_run_ok(
    insts: Seq<NewBytecode>,
    init: RunState,
    fuel0: nat,
    t: Tape,
    p: Program,
    fuel1: nat,
    r: Result<InterpreterResult, RuntimeError>,
) -> bool {
    match r {
        Ok(InterpreterResult::ToggleTier(tier)) => {
            &&& fuel1 < fuel0
            &&& tier != init.tier
            &&& run(insts, run_state(t, p, tier), fuel1) == run(insts, init, fuel0)
        },
        _ => run(insts, init, fuel0) == (run_state(t, p, init.tier), stop_of(r)),
    }
}

/// Whether the pointer left by instruction `b` satisfies its range.
fn probe_range(b: NewBytecode, ptr: usize) -> (r: Option<bool>)
    ensures
        r == probe(b, ptr),
{
    let at = match b {
        NewBytecode::ShiftAddP { delta2, .. } | NewBytecode::ShiftAddN { delta2, .. }
        | NewBytecode::ShiftSetP { delta2, .. } | NewBytecode::ShiftSetN { delta2, .. } => {
            wrapping_offset(ptr, -(delta2 as isize))
        },
        _ => ptr,
    };
    assert(at == probe_pointer(b, ptr));
    match b {
        NewBytecode::ShiftP { range, .. } | NewBytecode::ShiftAddP { range, .. }
        | NewBytecode::ShiftSetP { range, .. } | NewBytecode::PositiveRangeCheckJNZ { range, .. } => {
            Some(!positive_is_out_of_range(range, at))
        },
        NewBytecode::ShiftN { range, .. } | NewBytecode::ShiftAddN { range, .. }
        | NewBytecode::ShiftSetN { range, .. } | NewBytecode::NegativeRangeCheckJNZ { range, .. } => {
            Some(!negative_is_out_of_range(range, at))
        },
        NewBytecode::BothRangeCheck { positive, negative }
        | NewBytecode::BothRangeCheckJNZ { positive, negative, .. } => {
            Some(!positive_is_out_of_range(positive, at) && !negative_is_out_of_range(negative, at))
        },
        _ => None,
    }
}

/// Runs the program in one tier for at most `*fuel` instructions: every
/// instruction through `execute`, after spending a step of the budget. The
/// checked tier (`Deopt`) hands over when the pointer satisfies the range
/// of an instruction; the other one when it does not.
fn run_tier(tape: &mut Tape, program: &mut Program, fuel: &mut usize, tier: Tier) -> (r: Result<
    InterpreterResult,
    RuntimeError,
>)
    requires
        old(tape).wf(),
        old(program).wf(),
    ensures
        final(tape).wf(),
        final(program).wf(),
        final(program).insts == old(program).insts,
        final(program).flush == old(program).flush,
        tier_run_ok(
            old(program).insts@,
            run_state(*old(tape), *old(program), tier),
            *old(fuel) as nat,
            *final(tape),
            *final(program),
            *final(fuel) as nat,
            r,
        ),
{
    let ghost insts = program.insts@;
    let ghost init = run_state(*tape, *program, tier);
    let ghost fuel0 = *fuel as nat;
    loop
        invariant
            tape.wf(),
            program.wf(),
            program.insts@ == insts,
            program.insts == old(program).insts,
            program.flush == old(program).flush,
            insts == old(program).insts@,
            init == run_state(*old(tape), *old(program), tier),
            fuel0 == *old(fuel) as nat,
            *fuel <= fuel0,
            run(insts, run_state(*tape, *program, tier), *fuel as nat) == run(insts, init, fuel0),
        decreases *fuel,
    {
        if *fuel == 0 {
            return Ok(InterpreterResult::Suspended);
        }
        let ghost before = run_state(*tape, *program, tier);
        match program.check_timeout() {
            Ok(()) => {},
            Err(e) => {
                return Err(e);
            },
        }
        let pc = program.pc;
        let b = program.insts[pc];
        program.ocm.record(tier, pc);
        proof {
            lemma_next_pc(insts, before.m);
        }
        let ev = execute(tape, program);
        match ev {
            Event::Continue => {
                *fuel = *fuel - 1;
                let holds = probe_range(b, tape.data_pointer);
                match (tier, holds) {
                    (Tier::Deopt, Some(true)) => {
                        return Ok(InterpreterResult::ToggleTier(Tier::Opt));
                    },
                    (Tier::Opt, Some(false)) => {
                        return Ok(InterpreterResult::ToggleTier(Tier::Deopt));
                    },
                    _ => {},
                }
            },
            Event::Output(v) => {
                return Ok(InterpreterResult::Output(v));
            },
            Event::Input => {
                return Ok(InterpreterResult::Input);
            },
            Event::Halt => {
                return Ok(InterpreterResult::End);
            },
            Event::Fault(e) => {
                return Err(e);
            },
        }
    }
}

/// The checked tier; see `run_tier`.
pub fn run_deopt(tape: &mut Tape, program: &mut Program, fuel: &mut usize) -> (r: Result<
    InterpreterResult,
    RuntimeError,
>)
    requires
        old(tape).wf(),
        old(program).wf(),
    ensures
        final(tape).wf(),
        final(program).wf(),
        final(program).insts == old(program).insts,
        final(program).flush == old(program).flush,
        tier_run_ok(
            old(program).insts@,
            run_state(*old(tape), *old(program), Tier::Deopt),
            *old(fuel) as nat,
            *final(tape),
            *final(program),
            *final(fuel) as nat,
            r,
        ),
{
    run_tier(tape, program, fuel, Tier::Deopt)
}

/// The range-guarded tier; see `run_tier`.
pub fn run_opt(tape: &mut Tape, program: &mut Program, fuel: &mut usize) -> (r: Result<
    InterpreterResult,
    RuntimeError,
>)
    requires
        old(tape).wf(),
        old(program).wf(),
    ensures
        final(tape).wf(),
        final(program).wf(),
        final(program).insts == old(program).insts,
        final(program).flush == old(program).flush,
        tier_run_ok(
            old(program).insts@,
            run_state(*old(tape), *old(program), Tier::Opt),
            *old(fuel) as nat,
            *final(tape),
            *final(program),
            *final(fuel) as nat,
            r,
        ),
{
    run_tier(tape, program, fuel, Tier::Opt)
}

} // verus!
