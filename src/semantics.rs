use vstd::prelude::*;
use crate::bytecode::NewBytecode;
use crate::error::RuntimeError;
use crate::range::{MemoryRange, in_range};
use crate::tape::{MEMORY_LENGTH, cell_add, cell_sub, moved};

verus! {

/// The tape and pointer part of the machine, with the first error met.
pub struct Mach {
    pub tape: Seq<u8>,
    pub ptr: usize,
    pub err: Option<RuntimeError>,
}

#[verifier::opaque]
pub open spec fn m_move(m: Mach, delta: int) -> Mach {
    if m.err is Some {
        m
    } else {
        Mach { ptr: moved(m.ptr, delta), ..m }
    }
}

/// The cell under the pointer (0 once an error was met).
#[verifier::opaque]
pub open spec fn m_value(m: Mach) -> u8 {
    if m.err is None && m.ptr < MEMORY_LENGTH {
        m.tape[m.ptr as int]
    } else {
        0
    }
}

/// Reading the cell under the pointer: an error when it is off the tape.
#[verifier::opaque]
pub open spec fn m_get(m: Mach) -> Mach {
    if m.err is Some || m.ptr < MEMORY_LENGTH {
        m
    } else {
        Mach { err: Some(RuntimeError::OOBGet(m.ptr)), ..m }
    }
}

#[verifier::opaque]
pub open spec fn m_set_at(m: Mach, off: int, v: u8) -> Mach {
    let p = moved(m.ptr, off);
    if m.err is Some {
        m
    } else if p < MEMORY_LENGTH {
        Mach { tape: m.tape.update(p as int, v), ..m }
    } else {
        Mach { err: Some(RuntimeError::OOBSet(p, v)), ..m }
    }
}

#[verifier::opaque]
pub open spec fn m_add_at(m: Mach, off: int, v: u8) -> Mach {
    let p = moved(m.ptr, off);
    if m.err is Some {
        m
    } else if p < MEMORY_LENGTH {
        Mach { tape: m.tape.update(p as int, cell_add(m.tape[p as int], v)), ..m }
    } else {
        Mach { err: Some(RuntimeError::OOBAdd(p, v)), ..m }
    }
}

#[verifier::opaque]
pub open spec fn m_sub_at(m: Mach, off: int, v: u8) -> Mach {
    let p = moved(m.ptr, off);
    if m.err is Some {
        m
    } else if p < MEMORY_LENGTH {
        Mach { tape: m.tape.update(p as int, cell_sub(m.tape[p as int], v)), ..m }
    } else {
        Mach { err: Some(RuntimeError::OOBSub(p, v)), ..m }
    }
}

pub open spec fn shift_measure(m: Mach, step: int) -> nat {
    if m.err is None && m.ptr < MEMORY_LENGTH {
        if step > 0 {
            (MEMORY_LENGTH - m.ptr) as nat
        } else {
            (m.ptr + 1) as nat
        }
    } else {
        0
    }
}

/// `while cell != 0 { ptr += step }`, reading each cell with a bound check.
#[verifier::opaque]
pub open spec fn m_shift(m: Mach, step: int) -> Mach
    decreases shift_measure(m, step),
{
    if m.err is Some {
        m
    } else if m.ptr >= MEMORY_LENGTH {
        Mach { err: Some(RuntimeError::OOBGet(m.ptr)), ..m }
    } else if m.tape[m.ptr as int] == 0 || step == 0 || step < -32768 || step > 32767 {
        m
    } else {
        m_shift(Mach { ptr: moved(m.ptr, step), ..m }, step)
    }
}

/// Everything the two interpreters share while a program runs.
pub struct MachineState {
    pub tape: Seq<u8>,
    pub ptr: usize,
    pub pc: usize,
    pub mul_val: u8,
}

/// What one instruction hands back besides the new state.
pub enum Event {
    Continue,
    Output(u8),
    Input,
    Halt,
    Fault(RuntimeError),
}

pub struct StepResult {
    pub state: MachineState,
    pub event: Event,
}

pub open spec fn finish(m: Mach, pc: int, mul_val: u8) -> StepResult {
    StepResult {
        state: MachineState { tape: m.tape, ptr: m.ptr, pc: pc as usize, mul_val },
        event: match m.err {
            Some(e) => Event::Fault(e),
            None => Event::Continue,
        },
    }
}

/// A step that faulted leaves the program counter at the instruction.
pub open spec fn finish_at(m: Mach, s: MachineState, next_pc: int, mul_val: u8) -> StepResult {
    if m.err is Some {
        finish(m, s.pc as int, s.mul_val)
    } else {
        finish(m, next_pc, mul_val)
    }
}

pub open spec fn start(s: MachineState) -> Mach {
    Mach { tape: s.tape, ptr: s.ptr, err: None }
}

/// A conditional jump on the cell under the pointer after moving by `delta`.
pub open spec fn branch(s: MachineState, delta: int, if_zero: int, if_nonzero: int) -> StepResult {
    let m = m_get(m_move(start(s), delta));
    finish_at(m, s, if m_value(m) == 0 { if_zero } else { if_nonzero }, s.mul_val)
}

/// Moves the cell under the pointer onto the two destinations.
pub open spec fn double_move(s: MachineState, delta: int, to1: int, add1: bool, to2: int, add2: bool) -> StepResult {
    let m = m_get(m_move(start(s), delta));
    let v = m_value(m);
    let m1 = if v == 0 {
        m
    } else {
        let a = if add1 { m_add_at(m, to1, v) } else { m_sub_at(m, to1, v) };
        let b = if add2 { m_add_at(a, to2, v) } else { m_sub_at(a, to2, v) };
        m_set_at(b, 0, 0)
    };
    finish_at(m1, s, s.pc + 1, s.mul_val)
}

/// Starts a multiplication or move expansion: a zero cell skips it, any
/// other value is kept for the expansion and the cell is cleared.
pub open spec fn expansion_start(s: MachineState, delta: int, jz: int) -> StepResult {
    let m = m_get(m_move(start(s), delta));
    let v = m_value(m);
    if v == 0 {
        finish_at(m, s, jz, s.mul_val)
    } else {
        finish_at(m_set_at(m, 0, 0), s, s.pc + 1, v)
    }
}

pub open spec fn mul_u8(a: u8, b: u8) -> u8 {
    ((a as int * b as int) % 256) as u8
}

/// The effect of the instruction at the program counter.
pub open spec fn step(insts: Seq<NewBytecode>, s: MachineState) -> StepResult {
    let m0 = start(s);
    let next = s.pc + 1;
    match insts[s.pc as int] {
        NewBytecode::Breakpoint { delta } => finish_at(m_move(m0, delta as int), s, next, s.mul_val),
        NewBytecode::SingleAdd { delta, val } => finish_at(
            m_add_at(m_move(m0, delta as int), 0, val), s, next, s.mul_val),
        NewBytecode::SingleSet { delta, val } => finish_at(
            m_set_at(m_move(m0, delta as int), 0, val), s, next, s.mul_val),
        NewBytecode::AddAdd { delta1, val1, delta2, val2 } => finish_at(
            m_add_at(m_move(m_add_at(m_move(m0, delta1 as int), 0, val1), delta2 as int), 0, val2),
            s, next, s.mul_val),
        NewBytecode::AddSet { delta1, val1, delta2, val2 } => finish_at(
            m_set_at(m_move(m_add_at(m_move(m0, delta1 as int), 0, val1), delta2 as int), 0, val2),
            s, next, s.mul_val),
        NewBytecode::SetAdd { delta1, val1, delta2, val2 } => finish_at(
            m_add_at(m_move(m_set_at(m_move(m0, delta1 as int), 0, val1), delta2 as int), 0, val2),
            s, next, s.mul_val),
        NewBytecode::SetSet { delta1, val1, delta2, val2 } => finish_at(
            m_set_at(m_move(m_set_at(m_move(m0, delta1 as int), 0, val1), delta2 as int), 0, val2),
            s, next, s.mul_val),
        NewBytecode::BothRangeCheck { .. } => finish(m0, next, s.mul_val),
        NewBytecode::Shift { delta, step } => finish_at(
            m_shift(m_move(m0, delta as int), step as int), s, next, s.mul_val),
        NewBytecode::ShiftP { delta, step, .. } => finish_at(
            m_shift(m_move(m0, delta as int), step as int), s, next, s.mul_val),
        NewBytecode::ShiftN { delta, step, .. } => finish_at(
            m_shift(m_move(m0, delta as int), step as int), s, next, s.mul_val),
        NewBytecode::ShiftAdd { delta1, step, delta2, val } => finish_at(
            m_add_at(m_move(m_shift(m_move(m0, delta1 as int), step as int), delta2 as int), 0, val),
            s, next, s.mul_val),
        NewBytecode::ShiftAddP { delta1, step, delta2, val, .. } => finish_at(
            m_add_at(m_move(m_shift(m_move(m0, delta1 as int), step as int), delta2 as int), 0, val),
            s, next, s.mul_val),
        NewBytecode::ShiftAddN { delta1, step, delta2, val, .. } => finish_at(
            m_add_at(m_move(m_shift(m_move(m0, delta1 as int), step as int), delta2 as int), 0, val),
            s, next, s.mul_val),
        NewBytecode::ShiftSet { delta1, step, delta2, val } => finish_at(
            m_set_at(m_move(m_shift(m_move(m0, delta1 as int), step as int), delta2 as int), 0, val),
            s, next, s.mul_val),
        NewBytecode::ShiftSetP { delta1, step, delta2, val, .. } => finish_at(
            m_set_at(m_move(m_shift(m_move(m0, delta1 as int), step as int), delta2 as int), 0, val),
            s, next, s.mul_val),
        NewBytecode::ShiftSetN { delta1, step, delta2, val, .. } => finish_at(
            m_set_at(m_move(m_shift(m_move(m0, delta1 as int), step as int), delta2 as int), 0, val),
            s, next, s.mul_val),
        NewBytecode::MulStart { delta, jz } => expansion_start(s, delta as int, jz as int),
        NewBytecode::Mul { delta, val } => finish_at(
            m_add_at(m0, delta as int, mul_u8(s.mul_val, val)), s, next, s.mul_val),
        NewBytecode::SingleMoveAdd { delta, to } => {
            let m = m_get(m_move(m0, delta as int));
            let v = m_value(m);
            let m1 = if v == 0 { m } else { m_add_at(m_set_at(m, 0, 0), to as int, v) };
            finish_at(m1, s, next, s.mul_val)
        },
        NewBytecode::SingleMoveSub { delta, to } => {
            let m = m_get(m_move(m0, delta as int));
            let v = m_value(m);
            let m1 = if v == 0 { m } else { m_sub_at(m_set_at(m, 0, 0), to as int, v) };
            finish_at(m1, s, next, s.mul_val)
        },
        NewBytecode::DoubleMoveAddAdd { delta, to1, to2 } => double_move(s, delta as int, to1 as int, true, to2 as int, true),
        NewBytecode::DoubleMoveAddSub { delta, to1, to2 } => double_move(s, delta as int, to1 as int, true, to2 as int, false),
        NewBytecode::DoubleMoveSubAdd { delta, to1, to2 } => double_move(s, delta as int, to1 as int, false, to2 as int, true),
        NewBytecode::DoubleMoveSubSub { delta, to1, to2 } => double_move(s, delta as int, to1 as int, false, to2 as int, false),
        NewBytecode::MoveStart { delta, jz } => expansion_start(s, delta as int, jz as int),
        NewBytecode::MoveAdd { delta } => finish_at(m_add_at(m0, delta as int, s.mul_val), s, next, s.mul_val),
        NewBytecode::MoveSub { delta } => finish_at(m_sub_at(m0, delta as int, s.mul_val), s, next, s.mul_val),
        NewBytecode::In { delta } => {
            let m = m_move(m0, delta as int);
            StepResult {
                state: MachineState { tape: m.tape, ptr: m.ptr, pc: next as usize, mul_val: s.mul_val },
                event: Event::Input,
            }
        },
        NewBytecode::Out { delta } => {
            let m = m_get(m_move(m0, delta as int));
            if m.err is Some {
                finish(m, s.pc as int, s.mul_val)
            } else {
                StepResult {
                    state: MachineState { tape: m.tape, ptr: m.ptr, pc: next as usize, mul_val: s.mul_val },
                    event: Event::Output(m_value(m)),
                }
            }
        },
        NewBytecode::JmpIfZero { delta, addr } => branch(s, delta as int, addr as int, next),
        NewBytecode::JmpIfNotZero { delta, addr } => branch(s, delta as int, next, addr as int),
        NewBytecode::PositiveRangeCheckJNZ { delta, addr_subrel, .. } => branch(s, delta as int, next, s.pc - addr_subrel),
        NewBytecode::NegativeRangeCheckJNZ { delta, addr_subrel, .. } => branch(s, delta as int, next, s.pc - addr_subrel),
        NewBytecode::BothRangeCheckJNZ { delta, addr_subrel, .. } => branch(s, delta as int, next, s.pc - addr_subrel),
        NewBytecode::End { delta } => {
            let m = m_move(m0, delta as int);
            StepResult {
                state: MachineState { tape: m.tape, ptr: m.ptr, pc: s.pc, mul_val: s.mul_val },
                event: Event::Halt,
            }
        },
    }
}

/// The range attached to an instruction, if any.
pub open spec fn attached_range(b: NewBytecode) -> Option<MemoryRange> {
    match b {
        NewBytecode::BothRangeCheck { positive, negative } => Some(MemoryRange::Both { positive, negative }),
        NewBytecode::ShiftP { range, .. } => Some(MemoryRange::Positive(range)),
        NewBytecode::ShiftN { range, .. } => Some(MemoryRange::Negative(range)),
        NewBytecode::ShiftAddP { range, .. } => Some(MemoryRange::Positive(range)),
        NewBytecode::ShiftAddN { range, .. } => Some(MemoryRange::Negative(range)),
        NewBytecode::ShiftSetP { range, .. } => Some(MemoryRange::Positive(range)),
        NewBytecode::ShiftSetN { range, .. } => Some(MemoryRange::Negative(range)),
        NewBytecode::PositiveRangeCheckJNZ { range, .. } => Some(MemoryRange::Positive(range)),
        NewBytecode::NegativeRangeCheckJNZ { range, .. } => Some(MemoryRange::Negative(range)),
        NewBytecode::BothRangeCheckJNZ { positive, negative, .. } => Some(MemoryRange::Both { positive, negative }),
        _ => None,
    }
}

/// The pointer that the attached range is tested on, given the state after
/// the instruction: for a shift fused with a cell operation, the pointer
/// where the shift stopped.
pub open spec fn probe_pointer(b: NewBytecode, ptr: usize) -> usize {
    match b {
        NewBytecode::ShiftAddP { delta2, .. } => moved(ptr, -(delta2 as int)),
        NewBytecode::ShiftAddN { delta2, .. } => moved(ptr, -(delta2 as int)),
        NewBytecode::ShiftSetP { delta2, .. } => moved(ptr, -(delta2 as int)),
        NewBytecode::ShiftSetN { delta2, .. } => moved(ptr, -(delta2 as int)),
        _ => ptr,
    }
}

/// Whether the pointer left by instruction `b` satisfies its range.
pub open spec fn probe(b: NewBytecode, ptr: usize) -> Option<bool> {
    match attached_range(b) {
        Some(r) => Some(in_range(r, probe_pointer(b, ptr))),
        None => None,
    }
}

/// After the instruction at `pc` ran, the pointer satisfies its range
/// (`None` when it has none).
pub open spec fn range_holds(insts: Seq<NewBytecode>, pc: usize, after: MachineState) -> Option<bool> {
    probe(insts[pc as int], after.ptr)
}


/// The two interpreters: checked (`Deopt`) and range-guarded (`Opt`).
#[derive(Debug, Clone, Copy, PartialEq, Eq, Structural)]
pub enum Tier {
    Deopt,
    Opt,
}

/// The tier after an instruction: the checked tier moves up when the
/// pointer satisfies the attached range, the other one moves down when it
/// does not.
pub open spec fn next_tier(tier: Tier, insts: Seq<NewBytecode>, pc: usize, after: MachineState) -> Tier {
    match range_holds(insts, pc, after) {
        Some(holds) => if tier is Deopt && holds {
            Tier::Opt
        } else if tier is Opt && !holds {
            Tier::Deopt
        } else {
            tier
        },
        None => tier,
    }
}

/// Machine state, step budget and tier.
pub struct RunState {
    pub m: MachineState,
    pub budget: Option<usize>,
    pub tier: Tier,
}

/// Why a run stopped.
pub enum Stop {
    /// The allotted number of instructions was spent.
    Fuel,
    Output(u8),
    Input,
    Halt,
    Fault(RuntimeError),
}

pub open spec fn spend(budget: Option<usize>) -> Option<usize> {
    match budget {
        Some(n) => Some((n - 1) as usize),
        None => None,
    }
}

/// Runs at most `fuel` instructions, switching tiers as `next_tier` says,
/// until an instruction hands back anything but `Continue`.
pub open spec fn run(insts: Seq<NewBytecode>, st: RunState, fuel: nat) -> (RunState, Stop)
    decreases fuel,
{
    if fuel == 0 {
        (st, Stop::Fuel)
    } else if st.budget == Some(0usize) {
        (st, Stop::Fault(RuntimeError::TimeoutError))
    } else {
        let r = step(insts, st.m);
        let b = spend(st.budget);
        match r.event {
            Event::Continue => run(
                insts,
                RunState { m: r.state, budget: b, tier: next_tier(st.tier, insts, st.m.pc, r.state) },
                (fuel - 1) as nat,
            ),
            Event::Output(v) => (RunState { m: r.state, budget: b, tier: st.tier }, Stop::Output(v)),
            Event::Input => (RunState { m: r.state, budget: b, tier: st.tier }, Stop::Input),
            Event::Halt => (RunState { m: r.state, budget: b, tier: st.tier }, Stop::Halt),
            Event::Fault(e) => (RunState { m: r.state, budget: b, tier: st.tier }, Stop::Fault(e)),
        }
    }
}

/// The input byte lands in the cell under the pointer; past the end of the
/// input the cell becomes 0.
pub open spec fn feed(m: MachineState, byte: Option<u8>) -> Mach {
    m_set_at(
        start(m),
        0,
        match byte {
            Some(b) => b,
            None => 0,
        },
    )
}

} // verus!
