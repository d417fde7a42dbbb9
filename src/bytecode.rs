use vstd::prelude::*;
use crate::error::OptimizationError;
use crate::ir::{IR, IROp, ir_wf, is_loop_end, loop_end_start};
use crate::range::{MemoryRange, RangeInfo, moves_pointer};

verus! {

/// One instruction. `delta` is the pointer move applied before the
/// instruction acts; jumps are absolute indices, except the range-checking
/// backward jumps, whose target is their own index minus `addr_subrel`.
#[derive(Debug, Clone, Copy, PartialEq, Eq, Structural)]
pub enum NewBytecode {
    Breakpoint { delta: i16 },
    SingleAdd { delta: i16, val: u8 },
    SingleSet { delta: i16, val: u8 },
    AddAdd { delta1: i16, val1: u8, delta2: i16, val2: u8 },
    AddSet { delta1: i16, val1: u8, delta2: i16, val2: u8 },
    SetAdd { delta1: i16, val1: u8, delta2: i16, val2: u8 },
    SetSet { delta1: i16, val1: u8, delta2: i16, val2: u8 },
    BothRangeCheck { positive: u16, negative: u16 },
    Shift { delta: i16, step: i16 },
    ShiftP { delta: i16, step: i16, range: u16 },
    ShiftN { delta: i16, step: i16, range: u16 },
    ShiftAdd { delta1: i16, step: i8, delta2: i8, val: u8 },
    ShiftAddP { delta1: i16, step: i8, delta2: i8, val: u8, range: u16 },
    ShiftAddN { delta1: i16, step: i8, delta2: i8, val: u8, range: u16 },
    ShiftSet { delta1: i16, step: i8, delta2: i8, val: u8 },
    ShiftSetP { delta1: i16, step: i8, delta2: i8, val: u8, range: u16 },
    ShiftSetN { delta1: i16, step: i8, delta2: i8, val: u8, range: u16 },
    MulStart { delta: i16, jz: u32 },
    Mul { delta: i16, val: u8 },
    SingleMoveAdd { delta: i16, to: i16 },
    SingleMoveSub { delta: i16, to: i16 },
    DoubleMoveAddAdd { delta: i16, to1: i16, to2: i16 },
    DoubleMoveAddSub { delta: i16, to1: i16, to2: i16 },
    DoubleMoveSubAdd { delta: i16, to1: i16, to2: i16 },
    DoubleMoveSubSub { delta: i16, to1: i16, to2: i16 },
    MoveStart { delta: i16, jz: u32 },
    MoveAdd { delta: i16 },
    MoveSub { delta: i16 },
    In { delta: i16 },
    Out { delta: i16 },
    JmpIfZero { delta: i16, addr: u32 },
    JmpIfNotZero { delta: i16, addr: u32 },
    PositiveRangeCheckJNZ { delta: i16, addr_subrel: u16, range: u16 },
    NegativeRangeCheckJNZ { delta: i16, addr_subrel: u16, range: u16 },
    BothRangeCheckJNZ { delta: i8, addr_subrel: u16, positive: u16, negative: u16 },
    End { delta: i16 },
}

/// A backward jump that closes a loop.
pub open spec fn is_close(b: NewBytecode) -> bool {
    b is JmpIfNotZero || b is PositiveRangeCheckJNZ || b is NegativeRangeCheckJNZ
        || b is BothRangeCheckJNZ
}

/// Where the loop-closing jump at index `k` goes when the cell is non-zero.
pub open spec fn close_target(b: NewBytecode, k: int) -> int {
    match b {
        NewBytecode::JmpIfNotZero { addr, .. } => addr as int,
        NewBytecode::PositiveRangeCheckJNZ { addr_subrel, .. } => k - addr_subrel,
        NewBytecode::NegativeRangeCheckJNZ { addr_subrel, .. } => k - addr_subrel,
        NewBytecode::BothRangeCheckJNZ { addr_subrel, .. } => k - addr_subrel,
        _ => -1,
    }
}

/// The `JmpIfZero` at `j` jumps just past a loop-closing jump that goes back
/// to just past `j`.
pub open spec fn open_paired(bc: Seq<NewBytecode>, j: int) -> bool {
    let a = bc[j]->JmpIfZero_addr as int;
    &&& 1 <= a <= bc.len()
    &&& is_close(bc[a - 1])
    &&& close_target(bc[a - 1], a - 1) == j + 1
}

/// The loop-closing jump at `k` goes just past a `JmpIfZero` that jumps
/// just past `k`.
pub open spec fn close_paired(bc: Seq<NewBytecode>, k: int) -> bool {
    let t = close_target(bc[k], k);
    &&& 1 <= t <= k
    &&& bc[t - 1] is JmpIfZero
    &&& bc[t - 1]->JmpIfZero_addr == k + 1
}

/// Every forward loop jump and every loop-closing jump are paired.
pub open spec fn jumps_paired(bc: Seq<NewBytecode>) -> bool {
    &&& forall|j: int| 0 <= j < bc.len() && (#[trigger] bc[j]) is JmpIfZero ==> open_paired(bc, j)
    &&& forall|k: int| 0 <= k < bc.len() && is_close(#[trigger] bc[k]) ==> close_paired(bc, k)
}

/// The shift step of an instruction that has one (0 otherwise).
pub open spec fn shift_step(b: NewBytecode) -> int {
    match b {
        NewBytecode::Shift { step, .. } => step as int,
        NewBytecode::ShiftP { step, .. } => step as int,
        NewBytecode::ShiftN { step, .. } => step as int,
        NewBytecode::ShiftAdd { step, .. } => step as int,
        NewBytecode::ShiftAddP { step, .. } => step as int,
        NewBytecode::ShiftAddN { step, .. } => step as int,
        NewBytecode::ShiftSet { step, .. } => step as int,
        NewBytecode::ShiftSetP { step, .. } => step as int,
        NewBytecode::ShiftSetN { step, .. } => step as int,
        _ => 0,
    }
}

pub open spec fn is_shift(b: NewBytecode) -> bool {
    b is Shift || b is ShiftP || b is ShiftN || b is ShiftAdd || b is ShiftAddP || b is ShiftAddN
        || b is ShiftSet || b is ShiftSetP || b is ShiftSetN
}

/// What one instruction at index `k` needs in a program of `len`
/// instructions: shifts move, and skips of a multiplication land inside.
pub open spec fn local_ok(b: NewBytecode, k: int, len: int) -> bool {
    &&& is_shift(b) ==> shift_step(b) != 0
    &&& b is MulStart ==> k < b->MulStart_jz < len
    &&& b is MoveStart ==> k < b->MoveStart_jz < len
}

/// A program that the interpreters can run: it ends in `End`, its loop
/// jumps are paired, and every jump lands inside it.
pub open spec fn program_wf(bc: Seq<NewBytecode>) -> bool {
    &&& bc.len() > 0
    &&& bc.last() is End
    &&& jumps_paired(bc)
    &&& forall|k: int| 0 <= k < bc.len() ==> local_ok(#[trigger] bc[k], k, bc.len() as int)
}


pub open spec fn small(x: int) -> bool {
    -30 <= x <= 30
}

/// Every offset an operation names lies within 30 cells of the start.
pub open spec fn op_small(node: IR) -> bool {
    &&& small(node.pointer as int)
    &&& match node.opcode {
        IROp::Shift(step) => small(step as int),
        IROp::MulAndSetZero(d) => forall|k: int| 0 <= k < d@.len() ==> small(#[trigger] d@[k].0 as int),
        IROp::MovesAndSetZero(d) => forall|k: int| 0 <= k < d@.len() ==> small(#[trigger] d@[k].0 as int),
        IROp::MoveAdd(d) => small(d as int),
        IROp::MoveSub(d) => small(d as int),
        IROp::LoopEndWithOffset(_, off) => small(off as int),
        _ => true,
    }
}

/// An upper bound on the instructions one operation lowers to.
pub open spec fn op_size(node: IR) -> nat {
    match node.opcode {
        IROp::MulAndSetZero(d) => 2 + d@.len(),
        IROp::MovesAndSetZero(d) => 2 + d@.len(),
        _ => 2,
    }
}

pub open spec fn lowered_size(ir: Seq<IR>) -> nat
    decreases ir.len(),
{
    if ir.len() == 0 {
        0
    } else {
        lowered_size(ir.drop_last()) + op_size(ir.last())
    }
}

/// Lowering is owed success: offsets stay near the start and the program
/// stays well below the limits of the jump fields.
pub open spec fn lowering_fits(ir: Seq<IR>) -> bool {
    &&& forall|i: int| 0 <= i < ir.len() ==> op_small(#[trigger] ir[i])
    &&& lowered_size(ir) <= 60000
}

proof fn lemma_lowered_size_step(ir: Seq<IR>, i: int)
    requires
        0 <= i < ir.len(),
    ensures
        lowered_size(ir.take(i + 1)) == lowered_size(ir.take(i)) + op_size(ir[i]),
{
    assert(ir.take(i + 1).drop_last() =~= ir.take(i));
}

proof fn lemma_lowered_size_mono(ir: Seq<IR>, i: int)
    requires
        0 <= i <= ir.len(),
    ensures
        lowered_size(ir.take(i)) <= lowered_size(ir),
    decreases ir.len() - i,
{
    if i < ir.len() {
        lemma_lowered_size_step(ir, i);
        lemma_lowered_size_mono(ir, i + 1);
    } else {
        assert(ir.take(i) =~= ir);
    }
}

/// Neither a loop jump nor `End`.
pub open spec fn plain_inst(b: NewBytecode) -> bool {
    !(b is JmpIfZero) && !is_close(b) && !(b is End)
}

/// Largest bytecode index that jumps can name, with room to spare.
pub const MAX_PROGRAM_LEN: usize = 0xffff_fff0;

fn fit_i16(d: i128) -> (r: Result<i16, OptimizationError>)
    ensures
        -32768 <= d <= 32767 ==> r == Ok::<i16, OptimizationError>(d as i16),
        !(-32768 <= d <= 32767) ==> r == Err::<i16, OptimizationError>(OptimizationError::Delta),
{
    if -32768 <= d && d <= 32767 {
        Ok(d as i16)
    } else {
        Err(OptimizationError::Delta)
    }
}

fn fit_i8(d: i128) -> (r: Option<i8>)
    ensures
        -128 <= d <= 127 ==> r == Some(d as i8),
        !(-128 <= d <= 127) ==> r is None,
{
    if -128 <= d && d <= 127 {
        Some(d as i8)
    } else {
        None
    }
}

fn shift_step16(step: isize) -> (r: Result<i16, OptimizationError>)
    ensures
        -32768 <= step <= 32767 ==> r == Ok::<i16, OptimizationError>(step as i16),
        !(-32768 <= step <= 32767) ==> r == Err::<i16, OptimizationError>(
            OptimizationError::ShiftStep,
        ),
{
    if -32768 <= step && step <= 32767 {
        Ok(step as i16)
    } else {
        Err(OptimizationError::ShiftStep)
    }
}

pub open spec fn fits16(d: int) -> bool {
    -32768 <= d <= 32767
}

pub open spec fn fits8(d: int) -> bool {
    -128 <= d <= 127
}

/// A shift fused with the `Add` (`add`) or `SetCell` that follows it,
/// carrying the range unless there is none.
pub open spec fn fused_shift(range: MemoryRange, add: bool, delta1: i16, step: i8, delta2: i8, val: u8) -> NewBytecode {
    match range {
        MemoryRange::Positive(r) => if add {
            NewBytecode::ShiftAddP { delta1, step, delta2, val, range: r }
        } else {
            NewBytecode::ShiftSetP { delta1, step, delta2, val, range: r }
        },
        MemoryRange::Negative(r) => if add {
            NewBytecode::ShiftAddN { delta1, step, delta2, val, range: r }
        } else {
            NewBytecode::ShiftSetN { delta1, step, delta2, val, range: r }
        },
        _ => if add {
            NewBytecode::ShiftAdd { delta1, step, delta2, val }
        } else {
            NewBytecode::ShiftSet { delta1, step, delta2, val }
        },
    }
}

pub open spec fn plain_shift(range: MemoryRange, delta: i16, step: i16) -> NewBytecode {
    match range {
        MemoryRange::Positive(r) => NewBytecode::ShiftP { delta, step, range: r },
        MemoryRange::Negative(r) => NewBytecode::ShiftN { delta, step, range: r },
        _ => NewBytecode::Shift { delta, step },
    }
}

/// An `Add` or `SetCell` followed by another: the fused instruction.
pub open spec fn fused_pair(first_add: bool, second_add: bool, delta1: i16, val1: u8, delta2: i16, val2: u8) -> NewBytecode {
    if first_add && second_add {
        NewBytecode::AddAdd { delta1, val1, delta2, val2 }
    } else if first_add {
        NewBytecode::AddSet { delta1, val1, delta2, val2 }
    } else if second_add {
        NewBytecode::SetAdd { delta1, val1, delta2, val2 }
    } else {
        NewBytecode::SetSet { delta1, val1, delta2, val2 }
    }
}

/// `Add` or `SetCell` at `i`: fused with a following `Add` or `SetCell`.
pub open spec fn pair_spec(ir: Seq<IR>, i: int, delta: i16, val1: u8, first_add: bool) -> Result<(Seq<NewBytecode>, int, int), OptimizationError> {
    let p = ir[i].pointer as int;
    let n2 = ir[i + 1];
    let p2 = n2.pointer as int;
    if n2.opcode is Add || n2.opcode is SetCell {
        if fits16(p2 - p) {
            let val2 = if n2.opcode is Add { n2.opcode->Add_0 } else { n2.opcode->SetCell_0 };
            Ok((seq![fused_pair(first_add, n2.opcode is Add, delta, val1, (p2 - p) as i16, val2)], 2, p2))
        } else {
            Err(OptimizationError::Delta)
        }
    } else if first_add {
        Ok((seq![NewBytecode::SingleAdd { delta, val: val1 }], 1, p))
    } else {
        Ok((seq![NewBytecode::SingleSet { delta, val: val1 }], 1, p))
    }
}

pub open spec fn shift_spec(ir: Seq<IR>, ranges: Seq<Option<MemoryRange>>, i: int, delta: i16, step: isize) -> Result<(Seq<NewBytecode>, int, int), OptimizationError> {
    let p = ir[i].pointer as int;
    let range = ranges[i]->Some_0;
    let n2 = ir[i + 1];
    let p2 = n2.pointer as int;
    if range is Both {
        if fits16(step as int) {
            Ok((seq![
                NewBytecode::Shift { delta, step: step as i16 },
                NewBytecode::BothRangeCheck { positive: range->Both_positive, negative: range->Both_negative },
            ], 1, p))
        } else {
            Err(OptimizationError::ShiftStep)
        }
    } else if fits8(step as int) && fits8(p2 - p) && (n2.opcode is Add || n2.opcode is SetCell) {
        let val = if n2.opcode is Add { n2.opcode->Add_0 } else { n2.opcode->SetCell_0 };
        Ok((seq![fused_shift(range, n2.opcode is Add, delta, step as i8, (p2 - p) as i8, val)], 2, p2))
    } else if fits16(step as int) {
        Ok((seq![plain_shift(range, delta, step as i16)], 1, p))
    } else {
        Err(OptimizationError::ShiftStep)
    }
}

/// The bytecode `lower_plain` emits for the operation at `i`, how many IR
/// operations it covers and the pointer it leaves off at.
pub open spec fn plain_spec(ir: Seq<IR>, ranges: Seq<Option<MemoryRange>>, i: int, last_ptr: int, base: int) -> Result<(Seq<NewBytecode>, int, int), OptimizationError> {
    let p = ir[i].pointer as int;
    if !fits16(p - last_ptr) {
        Err(OptimizationError::Delta)
    } else {
        let delta = (p - last_ptr) as i16;
        match ir[i].opcode {
            IROp::Add(v) => pair_spec(ir, i, delta, v, true),
            IROp::SetCell(v) => pair_spec(ir, i, delta, v, false),
            IROp::Shift(step) => shift_spec(ir, ranges, i, delta, step),
            IROp::MulAndSetZero(d) => {
                let n = d@.len() as int;
                if n >= MAX_PROGRAM_LEN - base - 1 {
                    Err(OptimizationError::ProgramAbs)
                } else if exists|k: int| 0 <= k < n && !fits16((#[trigger] d@[k]).0 - p) {
                    Err(OptimizationError::Delta)
                } else {
                    Ok((seq![NewBytecode::MulStart { delta, jz: (base + n + 1) as u32 }] + Seq::new(
                        n as nat,
                        |k: int| NewBytecode::Mul { delta: (d@[k].0 - p) as i16, val: d@[k].1 },
                    ), 1, p))
                }
            },
            IROp::MovesAndSetZero(d) => {
                let n = d@.len() as int;
                if n == 1 {
                    if fits16(d@[0].0 - p) {
                        let to = (d@[0].0 - p) as i16;
                        Ok((seq![if d@[0].1 {
                            NewBytecode::SingleMoveAdd { delta, to }
                        } else {
                            NewBytecode::SingleMoveSub { delta, to }
                        }], 1, p))
                    } else {
                        Err(OptimizationError::Delta)
                    }
                } else if n == 2 {
                    if fits16(d@[0].0 - p) && fits16(d@[1].0 - p) {
                        let to1 = (d@[0].0 - p) as i16;
                        let to2 = (d@[1].0 - p) as i16;
                        Ok((seq![if d@[0].1 && d@[1].1 {
                            NewBytecode::DoubleMoveAddAdd { delta, to1, to2 }
                        } else if d@[0].1 {
                            NewBytecode::DoubleMoveAddSub { delta, to1, to2 }
                        } else if d@[1].1 {
                            NewBytecode::DoubleMoveSubAdd { delta, to1, to2 }
                        } else {
                            NewBytecode::DoubleMoveSubSub { delta, to1, to2 }
                        }], 1, p))
                    } else {
                        Err(OptimizationError::Delta)
                    }
                } else if n >= MAX_PROGRAM_LEN - base - 1 {
                    Err(OptimizationError::ProgramAbs)
                } else if exists|k: int| 0 <= k < n && !fits16((#[trigger] d@[k]).0 - p) {
                    Err(OptimizationError::Delta)
                } else {
                    Ok((seq![NewBytecode::MoveStart { delta, jz: (base + n + 1) as u32 }] + Seq::new(
                        n as nat,
                        |k: int| if d@[k].1 {
                            NewBytecode::MoveAdd { delta: (d@[k].0 - p) as i16 }
                        } else {
                            NewBytecode::MoveSub { delta: (d@[k].0 - p) as i16 }
                        },
                    ), 1, p))
                }
            },
            IROp::MoveAdd(d) => if fits16(d - p) {
                Ok((seq![NewBytecode::SingleMoveAdd { delta, to: (d - p) as i16 }], 1, p))
            } else {
                Err(OptimizationError::Delta)
            },
            IROp::MoveSub(d) => if fits16(d - p) {
                Ok((seq![NewBytecode::SingleMoveSub { delta, to: (d - p) as i16 }], 1, p))
            } else {
                Err(OptimizationError::Delta)
            },
            IROp::In => Ok((seq![NewBytecode::In { delta }], 1, p)),
            IROp::Out => Ok((seq![NewBytecode::Out { delta }], 1, p)),
            _ => Ok((seq![NewBytecode::Breakpoint { delta }], 1, p)),
        }
    }
}

/// The bytecode of the operation at `i` (with the one after it when the two
/// fuse), when it is neither a loop marker nor `End`. `last_ptr` is the
/// pointer at which the previous instruction acted and `base` the index the
/// first emitted instruction will have. Returns the instructions, how many
/// IR operations they cover, and the pointer at which they leave off.
fn lower_plain(ir: &Vec<IR>, i: usize, last_ptr: i128, base: usize, range_info: &RangeInfo) -> (r:
    Result<(Vec<NewBytecode>, usize, i128), OptimizationError>)
    requires
        ir_wf(ir@),
        i < ir@.len(),
        !(ir@[i as int].opcode is LoopStart),
        !is_loop_end(ir@[i as int].opcode),
        !(ir@[i as int].opcode is End),
        range_info.map@.len() == ir@.len(),
        forall|k: int|
            0 <= k < ir@.len() && moves_pointer(#[trigger] ir@[k].opcode) ==> range_info.map@[k] is Some,
        base + 2 < MAX_PROGRAM_LEN,
        -0x1_0000_0000_0000_0000 <= last_ptr <= 0x1_0000_0000_0000_0000,
    ensures
        match r {
            Ok((out, used, np)) => plain_spec(ir@, range_info.map@, i as int, last_ptr as int, base as int)
                == Ok::<(Seq<NewBytecode>, int, int), OptimizationError>((out@, used as int, np as int)),
            Err(e) => plain_spec(ir@, range_info.map@, i as int, last_ptr as int, base as int) == Err::<
                (Seq<NewBytecode>, int, int),
                OptimizationError,
            >(e),
        },
        op_small(ir@[i as int]) && op_small(ir@[i + 1]) && -60 <= last_ptr <= 60 && base + op_size(
            ir@[i as int],
        ) + op_size(ir@[i + 1]) <= 60004 ==> r is Ok,
        r matches Ok((out, used, np)) ==> {
            &&& op_small(ir@[i as int]) && op_small(ir@[i + 1]) ==> -30 <= np <= 30
            &&& used == 1 ==> out@.len() <= op_size(ir@[i as int])
            &&& used == 2 ==> out@.len() <= op_size(ir@[i as int]) + op_size(ir@[i + 1])
            &&& used == 1 || used == 2
            &&& i + used < ir@.len()
            &&& used == 2 ==> (ir@[i + 1].opcode is Add || ir@[i + 1].opcode is SetCell)
            &&& out@.len() > 0
            &&& base + out@.len() < MAX_PROGRAM_LEN
            &&& -0x1_0000_0000_0000_0000 <= np <= 0x1_0000_0000_0000_0000
            &&& forall|m: int|
                0 <= m < out@.len() ==> plain_inst(#[trigger] out@[m]) && local_ok(
                    out@[m],
                    base + m,
                    base + out@.len() + 1,
                )
        },
{
    let len = ir.len();
    let p = ir[i].pointer;
    let delta = fit_i16(p as i128 - last_ptr)?;
    let mut out: Vec<NewBytecode> = Vec::new();
    proof {
        assert(i != ir@.len() - 1);
        assert(i + 1 < len);
    }
    match &ir[i].opcode {
        IROp::Breakpoint => {
            out.push(NewBytecode::Breakpoint { delta });
            Ok((out, 1, p as i128))
        },
        IROp::Add(val1) => {
            let val1 = *val1;
            let ptr2 = ir[i + 1].pointer;
            match ir[i + 1].opcode {
                IROp::Add(val2) => {
                    let delta2 = fit_i16(ptr2 as i128 - p as i128)?;
                    out.push(NewBytecode::AddAdd { delta1: delta, val1, delta2, val2 });
                    Ok((out, 2, ptr2 as i128))
                },
                IROp::SetCell(val2) => {
                    let delta2 = fit_i16(ptr2 as i128 - p as i128)?;
                    out.push(NewBytecode::AddSet { delta1: delta, val1, delta2, val2 });
                    Ok((out, 2, ptr2 as i128))
                },
                _ => {
                    out.push(NewBytecode::SingleAdd { delta, val: val1 });
                    Ok((out, 1, p as i128))
                },
            }
        },
        IROp::SetCell(val1) => {
            let val1 = *val1;
            let ptr2 = ir[i + 1].pointer;
            match ir[i + 1].opcode {
                IROp::Add(val2) => {
                    let delta2 = fit_i16(ptr2 as i128 - p as i128)?;
                    out.push(NewBytecode::SetAdd { delta1: delta, val1, delta2, val2 });
                    Ok((out, 2, ptr2 as i128))
                },
                IROp::SetCell(val2) => {
                    let delta2 = fit_i16(ptr2 as i128 - p as i128)?;
                    out.push(NewBytecode::SetSet { delta1: delta, val1, delta2, val2 });
                    Ok((out, 2, ptr2 as i128))
                },
                _ => {
                    out.push(NewBytecode::SingleSet { delta, val: val1 });
                    Ok((out, 1, p as i128))
                },
            }
        },
        IROp::Shift(step) => {
            let step = *step;
            proof {
                assert(crate::ir::op_valid(ir@[i as int]));
            }
            let range = range_info.map[i].unwrap();
            if let MemoryRange::Both { positive, negative } = range {
                let step16 = shift_step16(step)?;
                out.push(NewBytecode::Shift { delta, step: step16 });
                out.push(NewBytecode::BothRangeCheck { positive, negative });
                assert(out@ =~= seq![
                    NewBytecode::Shift { delta, step: step16 },
                    NewBytecode::BothRangeCheck { positive, negative },
                ]);
                return Ok((out, 1, p as i128));
            }
            let ptr2 = ir[i + 1].pointer;
            let step8 = fit_i8(step as i128);
            let delta2 = fit_i8(ptr2 as i128 - p as i128);
            if let (Some(step8), Some(delta2)) = (step8, delta2) {
                match ir[i + 1].opcode {
                    IROp::Add(val) => {
                        let b = match range {
                            MemoryRange::Positive(r) => NewBytecode::ShiftAddP {
                                delta1: delta,
                                step: step8,
                                delta2,
                                val,
                                range: r,
                            },
                            MemoryRange::Negative(r) => NewBytecode::ShiftAddN {
                                delta1: delta,
                                step: step8,
                                delta2,
                                val,
                                range: r,
                            },
                            _ => NewBytecode::ShiftAdd { delta1: delta, step: step8, delta2, val },
                        };
                        out.push(b);
                        return Ok((out, 2, ptr2 as i128));
                    },
                    IROp::SetCell(val) => {
                        let b = match range {
                            MemoryRange::Positive(r) => NewBytecode::ShiftSetP {
                                delta1: delta,
                                step: step8,
                                delta2,
                                val,
                                range: r,
                            },
                            MemoryRange::Negative(r) => NewBytecode::ShiftSetN {
                                delta1: delta,
                                step: step8,
                                delta2,
                                val,
                                range: r,
                            },
                            _ => NewBytecode::ShiftSet { delta1: delta, step: step8, delta2, val },
                        };
                        out.push(b);
                        return Ok((out, 2, ptr2 as i128));
                    },
                    _ => {},
                }
            }
            let step16 = shift_step16(step)?;
            let b = match range {
                MemoryRange::Positive(r) => NewBytecode::ShiftP { delta, step: step16, range: r },
                MemoryRange::Negative(r) => NewBytecode::ShiftN { delta, step: step16, range: r },
                _ => NewBytecode::Shift { delta, step: step16 },
            };
            out.push(b);
            Ok((out, 1, p as i128))
        },
        IROp::MulAndSetZero(dests) => {
            let n = dests.len();
            if n >= MAX_PROGRAM_LEN - base - 1 {
                return Err(OptimizationError::ProgramAbs);
            }
            out.push(NewBytecode::MulStart { delta, jz: (base + n + 1) as u32 });
            let mut j: usize = 0;
            assert(out@ =~= seq![NewBytecode::MulStart { delta, jz: (base + n + 1) as u32 }] + Seq::new(
                0,
                |k: int| NewBytecode::Mul { delta: (dests@[k].0 - p) as i16, val: dests@[k].1 },
            ));
            while j < n
                invariant
                    n == dests@.len(),
                    j <= n,
                    out@.len() == j + 1,
                    base + n + 1 < MAX_PROGRAM_LEN,
                    out@[0] == (NewBytecode::MulStart { delta, jz: (base + n + 1) as u32 }),
                    op_small(ir@[i as int]) ==> small(p as int) && forall|k: int|
                        0 <= k < dests@.len() ==> small(#[trigger] dests@[k].0 as int),
                    forall|m: int| 1 <= m < out@.len() ==> (#[trigger] out@[m]) is Mul,
                    forall|k: int| 0 <= k < j ==> fits16(#[trigger] dests@[k].0 - p),
                    ir@[i as int].opcode == IROp::MulAndSetZero(*dests),
                    p == ir@[i as int].pointer,
                    out@ == seq![NewBytecode::MulStart { delta, jz: (base + n + 1) as u32 }] + Seq::new(
                        j as nat,
                        |k: int| NewBytecode::Mul { delta: (dests@[k].0 - p) as i16, val: dests@[k].1 },
                    ),
                decreases n - j,
            {
                let (d, v) = dests[j];
                let dd = match fit_i16(d as i128 - p as i128) {
                    Ok(x) => x,
                    Err(e) => {
                        proof {
                            assert(!fits16(dests@[j as int].0 - p));
                        }
                        return Err(e);
                    },
                };
                out.push(NewBytecode::Mul { delta: dd, val: v });
                j = j + 1;
                assert(out@ =~= seq![NewBytecode::MulStart { delta, jz: (base + n + 1) as u32 }] + Seq::new(
                    j as nat,
                    |k: int| NewBytecode::Mul { delta: (dests@[k].0 - p) as i16, val: dests@[k].1 },
                ));
            }
            Ok((out, 1, p as i128))
        },
        IROp::MovesAndSetZero(dests) => {
            let n = dests.len();
            if n == 1 {
                let (d, pos) = dests[0];
                let to = fit_i16(d as i128 - p as i128)?;
                if pos {
                    out.push(NewBytecode::SingleMoveAdd { delta, to });
                } else {
                    out.push(NewBytecode::SingleMoveSub { delta, to });
                }
                return Ok((out, 1, p as i128));
            }
            if n == 2 {
                let (d1, pos1) = dests[0];
                let (d2, pos2) = dests[1];
                let to1 = fit_i16(d1 as i128 - p as i128)?;
                let to2 = fit_i16(d2 as i128 - p as i128)?;
                let b = if pos1 && pos2 {
                    NewBytecode::DoubleMoveAddAdd { delta, to1, to2 }
                } else if pos1 {
                    NewBytecode::DoubleMoveAddSub { delta, to1, to2 }
                } else if pos2 {
                    NewBytecode::DoubleMoveSubAdd { delta, to1, to2 }
                } else {
                    NewBytecode::DoubleMoveSubSub { delta, to1, to2 }
                };
                out.push(b);
                return Ok((out, 1, p as i128));
            }
            if n >= MAX_PROGRAM_LEN - base - 1 {
                return Err(OptimizationError::ProgramAbs);
            }
            out.push(NewBytecode::MoveStart { delta, jz: (base + n + 1) as u32 });
            let mut j: usize = 0;
            assert(out@ =~= seq![NewBytecode::MoveStart { delta, jz: (base + n + 1) as u32 }] + Seq::new(
                0,
                |k: int| if dests@[k].1 {
                    NewBytecode::MoveAdd { delta: (dests@[k].0 - p) as i16 }
                } else {
                    NewBytecode::MoveSub { delta: (dests@[k].0 - p) as i16 }
                },
            ));
            while j < n
                invariant
                    n == dests@.len(),
                    j <= n,
                    out@.len() == j + 1,
                    base + n + 1 < MAX_PROGRAM_LEN,
                    out@[0] == (NewBytecode::MoveStart { delta, jz: (base + n + 1) as u32 }),
                    op_small(ir@[i as int]) ==> small(p as int) && forall|k: int|
                        0 <= k < dests@.len() ==> small(#[trigger] dests@[k].0 as int),
                    forall|m: int|
                        1 <= m < out@.len() ==> (#[trigger] out@[m]) is MoveAdd || out@[m] is MoveSub,
                    forall|k: int| 0 <= k < j ==> fits16(#[trigger] dests@[k].0 - p),
                    ir@[i as int].opcode == IROp::MovesAndSetZero(*dests),
                    p == ir@[i as int].pointer,
                    out@ == seq![NewBytecode::MoveStart { delta, jz: (base + n + 1) as u32 }] + Seq::new(
                        j as nat,
                        |k: int| if dests@[k].1 {
                            NewBytecode::MoveAdd { delta: (dests@[k].0 - p) as i16 }
                        } else {
                            NewBytecode::MoveSub { delta: (dests@[k].0 - p) as i16 }
                        },
                    ),
                decreases n - j,
            {
                let (d, pos) = dests[j];
                let dd = match fit_i16(d as i128 - p as i128) {
                    Ok(x) => x,
                    Err(e) => {
                        proof {
                            assert(!fits16(dests@[j as int].0 - p));
                        }
                        return Err(e);
                    },
                };
                if pos {
                    out.push(NewBytecode::MoveAdd { delta: dd });
                } else {
                    out.push(NewBytecode::MoveSub { delta: dd });
                }
                j = j + 1;
                assert(out@ =~= seq![NewBytecode::MoveStart { delta, jz: (base + n + 1) as u32 }] + Seq::new(
                    j as nat,
                    |k: int| if dests@[k].1 {
                        NewBytecode::MoveAdd { delta: (dests@[k].0 - p) as i16 }
                    } else {
                        NewBytecode::MoveSub { delta: (dests@[k].0 - p) as i16 }
                    },
                ));
            }
            Ok((out, 1, p as i128))
        },
        IROp::MoveAdd(d) => {
            let to = fit_i16(*d as i128 - p as i128)?;
            out.push(NewBytecode::SingleMoveAdd { delta, to });
            Ok((out, 1, p as i128))
        },
        IROp::MoveSub(d) => {
            let to = fit_i16(*d as i128 - p as i128)?;
            out.push(NewBytecode::SingleMoveSub { delta, to });
            Ok((out, 1, p as i128))
        },
        IROp::In => {
            out.push(NewBytecode::In { delta });
            Ok((out, 1, p as i128))
        },
        IROp::Out => {
            out.push(NewBytecode::Out { delta });
            Ok((out, 1, p as i128))
        },
        _ => {
            out.push(NewBytecode::Breakpoint { delta });
            Ok((out, 1, p as i128))
        },
    }
}


pub open spec fn loop_end_index(ir: Seq<IR>, s: int) -> int {
    ir[s].opcode->LoopStart_0 as int
}

/// What holds while the IR before `i` has been lowered into `bc`: `pos`
/// gives the index of the `JmpIfZero` of each loop start, `owner` the IR
/// index that each instruction came from.
#[verifier::opaque]
pub open spec fn lowering_inv(
    ir: Seq<IR>,
    i: int,
    bc: Seq<NewBytecode>,
    pos: Seq<usize>,
    owner: Seq<int>,
) -> bool {
    &&& owner.len() == bc.len()
    &&& pos.len() == ir.len()
    &&& bc.len() < MAX_PROGRAM_LEN
    &&& forall|k: int| 0 <= k < bc.len() ==> 0 <= #[trigger] owner[k] < i
    &&& forall|k: int|
        0 <= k < bc.len() && (#[trigger] bc[k]) is JmpIfZero ==> ir[owner[k]].opcode is LoopStart
            && pos[owner[k]] == k
    &&& forall|s: int|
        0 <= s < i && (#[trigger] ir[s].opcode) is LoopStart ==> {
            &&& pos[s] < bc.len()
            &&& bc[pos[s] as int] is JmpIfZero
            &&& owner[pos[s] as int] == s
            &&& loop_end_index(ir, s) < i ==> open_paired(bc, pos[s] as int)
            &&& loop_end_index(ir, s) >= i ==> bc[pos[s] as int]->JmpIfZero_addr == u32::MAX
        }
    &&& forall|k: int| 0 <= k < bc.len() && is_close(#[trigger] bc[k]) ==> close_paired(bc, k)
    &&& forall|k: int| 0 <= k < bc.len() ==> local_ok(#[trigger] bc[k], k, bc.len() + 1 as int)
}

proof fn lemma_append_plain(
    ir: Seq<IR>,
    i: int,
    used: int,
    bc: Seq<NewBytecode>,
    pos: Seq<usize>,
    owner: Seq<int>,
    out: Seq<NewBytecode>,
)
    requires
        ir_wf(ir),
        0 <= i,
        used == 1 || used == 2,
        i + used < ir.len(),
        forall|u: int| i <= u < i + used ==> !((#[trigger] ir[u].opcode) is LoopStart),
        forall|u: int| i <= u < i + used ==> !is_loop_end(#[trigger] ir[u].opcode),
        lowering_inv(ir, i, bc, pos, owner),
        bc.len() + out.len() < MAX_PROGRAM_LEN,
        forall|m: int|
            0 <= m < out.len() ==> plain_inst(#[trigger] out[m]) && local_ok(
                out[m],
                bc.len() + m,
                (bc.len() + out.len() + 1) as int,
            ),
    ensures
        lowering_inv(ir, i + used, bc + out, pos, owner + Seq::new(out.len(), |_m: int| i)),
{
    reveal(lowering_inv);
    let nb = bc + out;
    let no = owner + Seq::new(out.len(), |_m: int| i);
    assert forall|k: int| 0 <= k < bc.len() implies #[trigger] nb[k] == bc[k] && no[k] == owner[k] by {}
    assert forall|k: int| 0 <= k < nb.len() implies 0 <= #[trigger] no[k] < i + used by {
        if k < bc.len() {
            assert(no[k] == owner[k]);
        }
    }
    assert forall|k: int|
        0 <= k < nb.len() && (#[trigger] nb[k]) is JmpIfZero implies ir[no[k]].opcode is LoopStart
        && pos[no[k]] == k by {
        if k >= bc.len() {
            assert(plain_inst(out[k - bc.len()]));
        } else {
            assert(nb[k] == bc[k]);
        }
    }
    assert forall|s: int|
        0 <= s < i + used && (#[trigger] ir[s].opcode) is LoopStart implies {
            &&& pos[s] < nb.len()
            &&& nb[pos[s] as int] is JmpIfZero
            &&& no[pos[s] as int] == s
            &&& loop_end_index(ir, s) < i + used ==> open_paired(nb, pos[s] as int)
            &&& loop_end_index(ir, s) >= i + used ==> nb[pos[s] as int]->JmpIfZero_addr == u32::MAX
        } by {
        assert(s < i);
        let e = loop_end_index(ir, s);
        assert(is_loop_end(ir[e].opcode));
        if e >= i && e < i + used {
            assert(false);
        }
        assert(nb[pos[s] as int] == bc[pos[s] as int]);
        if e < i {
            let a = bc[pos[s] as int]->JmpIfZero_addr as int;
            assert(nb[a - 1] == bc[a - 1]);
        }
    }
    assert forall|k: int| 0 <= k < nb.len() && is_close(#[trigger] nb[k]) implies close_paired(
        nb,
        k,
    ) by {
        if k >= bc.len() {
            assert(plain_inst(out[k - bc.len()]));
        } else {
            assert(nb[k] == bc[k]);
            let t = close_target(bc[k], k);
            assert(nb[t - 1] == bc[t - 1]);
        }
    }
    assert forall|k: int| 0 <= k < nb.len() implies local_ok(#[trigger] nb[k], k, nb.len() + 1 as int) by {
        if k >= bc.len() {
            assert(nb[k] == out[k - bc.len()]);
        } else {
            assert(nb[k] == bc[k]);
        }
    }
}


pub open spec fn jz_delta(b: NewBytecode) -> i16 {
    match b {
        NewBytecode::JmpIfZero { delta, .. } => delta,
        _ => 0,
    }
}

/// The jump that closes a loop ending at IR index `i`, given the index `j`
/// of its `JmpIfZero`, the index `k` it will have and its pointer delta.
pub open spec fn close_jump(range: MemoryRange, delta: i16, j: int, k: int) -> NewBytecode {
    let subrel = (k - j - 1) as u16;
    match range {
        MemoryRange::Unbounded => NewBytecode::JmpIfNotZero { delta, addr: (j + 1) as u32 },
        MemoryRange::Positive(r) => NewBytecode::PositiveRangeCheckJNZ { delta, addr_subrel: subrel, range: r },
        MemoryRange::Negative(r) => NewBytecode::NegativeRangeCheckJNZ { delta, addr_subrel: subrel, range: r },
        MemoryRange::Both { positive, negative } => NewBytecode::BothRangeCheckJNZ {
            delta: delta as i8,
            addr_subrel: subrel,
            positive,
            negative,
        },
    }
}

/// Patches the `JmpIfZero` at `j` to jump just past index `k`, and appends
/// the closing jump.
pub open spec fn close_loop_in(bc: Seq<NewBytecode>, j: int, close: NewBytecode) -> Seq<NewBytecode> {
    bc.update(
        j,
        NewBytecode::JmpIfZero { delta: jz_delta(bc[j]), addr: (bc.len() + 1) as u32 },
    ).push(close)
}

/// Lowering from IR index `i` on, with the bytecode so far, the index of
/// each loop start's `JmpIfZero`, and the pointer of the last instruction.
#[verifier::opaque]
pub open spec fn lower_from(
    ir: Seq<IR>,
    ranges: Seq<Option<MemoryRange>>,
    i: nat,
    bc: Seq<NewBytecode>,
    pos: Seq<usize>,
    last_ptr: int,
) -> Result<Seq<NewBytecode>, OptimizationError>
    decreases ir.len() + 1 - i,
{
    if i >= ir.len() {
        Ok(bc)
    } else if bc.len() >= MAX_PROGRAM_LEN - 3 {
        Err(OptimizationError::ProgramAbs)
    } else {
        let p = ir[i as int].pointer as int;
        let d = p - last_ptr;
        match ir[i as int].opcode {
            IROp::LoopStart(_) => if !fits16(d) {
                Err(OptimizationError::Delta)
            } else {
                lower_from(
                    ir,
                    ranges,
                    i + 1,
                    bc.push(NewBytecode::JmpIfZero { delta: d as i16, addr: u32::MAX }),
                    pos.update(i as int, bc.len() as usize),
                    p,
                )
            },
            IROp::LoopEnd(st) => if !fits16(d) {
                Err(OptimizationError::Delta)
            } else {
                let j = pos[st as int] as int;
                lower_from(
                    ir,
                    ranges,
                    i + 1,
                    close_loop_in(bc, j, NewBytecode::JmpIfNotZero { delta: d as i16, addr: (j + 1) as u32 }),
                    pos,
                    p,
                )
            },
            IROp::LoopEndWithOffset(st, off) => if !fits16(d) {
                Err(OptimizationError::Delta)
            } else {
                let j = pos[st as int] as int;
                let k = bc.len() as int;
                let range = ranges[i as int]->Some_0;
                if k - j - 1 > 65535 {
                    Err(OptimizationError::ProgramRel)
                } else if range is Both && !fits8(d) {
                    Err(OptimizationError::Delta)
                } else {
                    lower_from(
                        ir,
                        ranges,
                        i + 1,
                        close_loop_in(bc, j, close_jump(range, d as i16, j, k)),
                        pos,
                        p - off,
                    )
                }
            },
            IROp::End => if !fits16(d) {
                Err(OptimizationError::Delta)
            } else {
                lower_from(ir, ranges, i + 1, bc.push(NewBytecode::End { delta: d as i16 }), pos, last_ptr)
            },
            _ => match plain_spec(ir, ranges, i as int, last_ptr, bc.len() as int) {
                Err(e) => Err(e),
                Ok((out, used, np)) => lower_from(
                    ir,
                    ranges,
                    i + if used == 2 { 2nat } else { 1nat },
                    bc + out,
                    pos,
                    np,
                ),
            },
        }
    }
}

/// The bytecode of an IR with its ranges.
pub open spec fn lower_spec(ir: Seq<IR>, ranges: Seq<Option<MemoryRange>>) -> Result<Seq<NewBytecode>, OptimizationError> {
    lower_from(ir, ranges, 0, Seq::empty(), Seq::new(ir.len(), |_i: int| 0usize), 0)
}

/// Lowering depends on the operations' views only.
pub proof fn lemma_lower_congruent(
    a: Seq<IR>,
    b: Seq<IR>,
    ranges: Seq<Option<MemoryRange>>,
    i: nat,
    bc: Seq<NewBytecode>,
    pos: Seq<usize>,
    last_ptr: int,
)
    requires
        crate::ir::ir_views(a) == crate::ir::ir_views(b),
        a.len() > 0,
        a.last().opcode is End,
    ensures
        lower_from(a, ranges, i, bc, pos, last_ptr) == lower_from(b, ranges, i, bc, pos, last_ptr),
    decreases a.len() + 1 - i,
{
    reveal(lower_from);
    assert(a.len() == crate::ir::ir_views(a).len());
    assert(b.len() == crate::ir::ir_views(b).len());
    assert forall|j: int| 0 <= j < a.len() implies #[trigger] a[j]@ == b[j]@ by {
        assert(crate::ir::ir_views(a)[j] == a[j]@);
        assert(crate::ir::ir_views(b)[j] == b[j]@);
    }
    if i < a.len() && bc.len() < MAX_PROGRAM_LEN - 3 {
        assert(a[i as int]@ == b[i as int]@);
        crate::ir::lemma_op_view_eq(a[i as int].opcode, b[i as int].opcode);
        let p = a[i as int].pointer as int;
        let d = p - last_ptr;
        match a[i as int].opcode {
            IROp::LoopStart(_) => {
                lemma_lower_congruent(
                    a,
                    b,
                    ranges,
                    i + 1,
                    bc.push(NewBytecode::JmpIfZero { delta: d as i16, addr: u32::MAX }),
                    pos.update(i as int, bc.len() as usize),
                    p,
                );
            },
            IROp::LoopEnd(st) => {
                let j = pos[st as int] as int;
                lemma_lower_congruent(
                    a,
                    b,
                    ranges,
                    i + 1,
                    close_loop_in(bc, j, NewBytecode::JmpIfNotZero { delta: d as i16, addr: (j + 1) as u32 }),
                    pos,
                    p,
                );
            },
            IROp::LoopEndWithOffset(st, off) => {
                let j = pos[st as int] as int;
                let k = bc.len() as int;
                let range = ranges[i as int]->Some_0;
                lemma_lower_congruent(
                    a,
                    b,
                    ranges,
                    i + 1,
                    close_loop_in(bc, j, close_jump(range, d as i16, j, k)),
                    pos,
                    p - off,
                );
            },
            IROp::End => {
                lemma_lower_congruent(a, b, ranges, i + 1, bc.push(NewBytecode::End { delta: d as i16 }), pos, last_ptr);
            },
            _ => {
                assert(i != a.len() - 1);
                assert(a[i + 1int]@ == b[i + 1int]@);
                crate::ir::lemma_op_view_eq(a[i + 1int].opcode, b[i + 1int].opcode);
                assert(plain_spec(a, ranges, i as int, last_ptr, bc.len() as int) == plain_spec(
                    b,
                    ranges,
                    i as int,
                    last_ptr,
                    bc.len() as int,
                ));
                match plain_spec(a, ranges, i as int, last_ptr, bc.len() as int) {
                    Ok((out, used, np)) => {
                        lemma_lower_congruent(
                            a,
                            b,
                            ranges,
                            i + if used == 2 { 2nat } else { 1nat },
                            bc + out,
                            pos,
                            np,
                        );
                    },
                    Err(_) => {},
                }
            },
        }
    }
}

proof fn lemma_open_jump(
    ir: Seq<IR>,
    i: int,
    bc: Seq<NewBytecode>,
    pos: Seq<usize>,
    owner: Seq<int>,
    delta: i16,
)
    requires
        ir_wf(ir),
        0 <= i < ir.len(),
        ir[i].opcode is LoopStart,
        ir.len() <= usize::MAX,
        lowering_inv(ir, i, bc, pos, owner),
        bc.len() + 3 < MAX_PROGRAM_LEN,
    ensures
        lowering_inv(
            ir,
            i + 1,
            bc.push(NewBytecode::JmpIfZero { delta, addr: u32::MAX }),
            pos.update(i, bc.len() as usize),
            owner.push(i),
        ),
{
    reveal(lowering_inv);
    let nb = bc.push(NewBytecode::JmpIfZero { delta, addr: u32::MAX });
    let np = pos.update(i, bc.len() as usize);
    let no = owner.push(i);
    assert forall|k: int| 0 <= k < bc.len() implies #[trigger] nb[k] == bc[k] && no[k] == owner[k] by {}
    assert forall|k: int|
        0 <= k < nb.len() && (#[trigger] nb[k]) is JmpIfZero implies ir[no[k]].opcode is LoopStart
        && np[no[k]] == k by {
        if k < bc.len() {
            assert(owner[k] < i);
        }
    }
    assert forall|s: int|
        0 <= s < i + 1 && (#[trigger] ir[s].opcode) is LoopStart implies {
            &&& np[s] < nb.len()
            &&& nb[np[s] as int] is JmpIfZero
            &&& no[np[s] as int] == s
            &&& loop_end_index(ir, s) < i + 1 ==> open_paired(nb, np[s] as int)
            &&& loop_end_index(ir, s) >= i + 1 ==> nb[np[s] as int]->JmpIfZero_addr == u32::MAX
        } by {
        if s < i {
            let e = loop_end_index(ir, s);
            if e == i {
                assert(is_loop_end(ir[e].opcode));
                assert(false);
            }
            if e < i {
                let a = bc[pos[s] as int]->JmpIfZero_addr as int;
                assert(nb[a - 1] == bc[a - 1]);
            }
        }
    }
    assert forall|k: int| 0 <= k < nb.len() && is_close(#[trigger] nb[k]) implies close_paired(
        nb,
        k,
    ) by {
        let t = close_target(bc[k], k);
        assert(nb[t - 1] == bc[t - 1]);
    }
    assert forall|k: int| 0 <= k < nb.len() implies local_ok(#[trigger] nb[k], k, nb.len() + 1 as int) by {
        if k < bc.len() {
            assert(nb[k] == bc[k]);
        }
    }
}

#[verifier::rlimit(60)]
proof fn lemma_close_jump(
    ir: Seq<IR>,
    i: int,
    bc: Seq<NewBytecode>,
    pos: Seq<usize>,
    owner: Seq<int>,
    close: NewBytecode,
)
    requires
        ir_wf(ir),
        0 <= i < ir.len(),
        is_loop_end(ir[i].opcode),
        ir.len() <= usize::MAX,
        lowering_inv(ir, i, bc, pos, owner),
        bc.len() + 3 < MAX_PROGRAM_LEN,
        is_close(close),
        close_target(close, bc.len() as int) == pos[loop_end_start(ir[i].opcode)] + 1,
    ensures
        ({
            let j = pos[loop_end_start(ir[i].opcode)] as int;
            lowering_inv(
                ir,
                i + 1,
                bc.update(
                    j,
                    NewBytecode::JmpIfZero {
                        delta: bc[j]->JmpIfZero_delta,
                        addr: (bc.len() + 1) as u32,
                    },
                ).push(close),
                pos,
                owner.push(i),
            )
        }),
{
    reveal(lowering_inv);
    let s0 = loop_end_start(ir[i].opcode);
    let j = pos[s0] as int;
    let len = bc.len() as int;
    assert(ir[s0].opcode == IROp::LoopStart(i as usize));
    assert(loop_end_index(ir, s0) == i);
    let nb = bc.update(
        j,
        NewBytecode::JmpIfZero { delta: bc[j]->JmpIfZero_delta, addr: (bc.len() + 1) as u32 },
    ).push(close);
    let no = owner.push(i);
    assert(nb[len] == close);
    assert forall|k: int| 0 <= k < len && k != j implies #[trigger] nb[k] == bc[k] by {}
    assert forall|k: int| 0 <= k < len implies #[trigger] no[k] == owner[k] by {}
    assert forall|k: int|
        0 <= k < nb.len() && (#[trigger] nb[k]) is JmpIfZero implies ir[no[k]].opcode is LoopStart
        && pos[no[k]] == k by {
        if k < len && k != j {
            assert(nb[k] == bc[k]);
        }
    }
    assert forall|s: int|
        0 <= s < i + 1 && (#[trigger] ir[s].opcode) is LoopStart implies {
            &&& pos[s] < nb.len()
            &&& nb[pos[s] as int] is JmpIfZero
            &&& no[pos[s] as int] == s
            &&& loop_end_index(ir, s) < i + 1 ==> open_paired(nb, pos[s] as int)
            &&& loop_end_index(ir, s) >= i + 1 ==> nb[pos[s] as int]->JmpIfZero_addr == u32::MAX
        } by {
        if s == s0 {
            assert(close_target(nb[len], len) == j + 1);
        } else {
            assert(s < i);
            assert(pos[s] as int != j);
            assert(nb[pos[s] as int] == bc[pos[s] as int]);
            let e = loop_end_index(ir, s);
            if e == i {
                assert(is_loop_end(ir[e].opcode));
                assert(false);
            }
            if e < i {
                let a = bc[pos[s] as int]->JmpIfZero_addr as int;
                assert(is_close(bc[a - 1]));
                assert(a - 1 != j);
                assert(nb[a - 1] == bc[a - 1]);
            }
        }
    }
    assert forall|k: int| 0 <= k < nb.len() && is_close(#[trigger] nb[k]) implies close_paired(
        nb,
        k,
    ) by {
        if k < len {
            assert(k != j);
            assert(nb[k] == bc[k]);
            let t = close_target(bc[k], k);
            assert(bc[t - 1] is JmpIfZero);
            if t - 1 == j {
                assert(bc[j]->JmpIfZero_addr == k + 1);
                assert(false);
            }
            assert(nb[t - 1] == bc[t - 1]);
        }
    }
    assert forall|k: int| 0 <= k < nb.len() implies local_ok(#[trigger] nb[k], k, nb.len() + 1 as int) by {
        if k < len && k != j {
            assert(nb[k] == bc[k]);
        }
    }
}

proof fn lemma_end_program(
    ir: Seq<IR>,
    bc: Seq<NewBytecode>,
    pos: Seq<usize>,
    owner: Seq<int>,
    delta: i16,
)
    requires
        ir_wf(ir),
        lowering_inv(ir, ir.len() - 1, bc, pos, owner),
    ensures
        program_wf(bc.push(NewBytecode::End { delta })),
{
    reveal(lowering_inv);
    let nb = bc.push(NewBytecode::End { delta });
    let n = ir.len() as int;
    assert forall|k: int| 0 <= k < bc.len() implies #[trigger] nb[k] == bc[k] by {}
    assert forall|j: int| 0 <= j < nb.len() && (#[trigger] nb[j]) is JmpIfZero implies open_paired(
        nb,
        j,
    ) by {
        let s = owner[j];
        assert(ir[s].opcode is LoopStart);
        let e = loop_end_index(ir, s);
        assert(is_loop_end(ir[e].opcode));
        assert(e != n - 1);
        let a = bc[j]->JmpIfZero_addr as int;
        assert(nb[a - 1] == bc[a - 1]);
    }
    assert forall|k: int| 0 <= k < nb.len() && is_close(#[trigger] nb[k]) implies close_paired(
        nb,
        k,
    ) by {
        let t = close_target(bc[k], k);
        assert(nb[t - 1] == bc[t - 1]);
    }
    assert forall|k: int| 0 <= k < nb.len() implies local_ok(#[trigger] nb[k], k, nb.len() as int) by {}
}

proof fn lemma_loop_start_pos(
    ir: Seq<IR>,
    i: int,
    bc: Seq<NewBytecode>,
    pos: Seq<usize>,
    owner: Seq<int>,
)
    requires
        ir_wf(ir),
        0 <= i < ir.len(),
        is_loop_end(ir[i].opcode),
        lowering_inv(ir, i, bc, pos, owner),
    ensures
        pos.len() == ir.len(),
        0 <= loop_end_start(ir[i].opcode) < i,
        pos[loop_end_start(ir[i].opcode)] < bc.len(),
        bc[pos[loop_end_start(ir[i].opcode)] as int] is JmpIfZero,
{
    reveal(lowering_inv);
    let s = loop_end_start(ir[i].opcode);
    assert(ir[s].opcode is LoopStart);
}

proof fn lemma_inv_start(ir: Seq<IR>, pos: Seq<usize>)
    requires
        pos.len() == ir.len(),
    ensures
        lowering_inv(ir, 0, Seq::empty(), pos, Seq::empty()),
{
    reveal(lowering_inv);
}

/// Lowers IR into bytecode, fusing adjacent operations and attaching the
/// range of each pointer-moving operation.
pub fn ir_to_bytecodes(ir_nodes: &Vec<IR>, range_info: &RangeInfo) -> (r: Result<
    Vec<NewBytecode>,
    OptimizationError,
>)
    requires
        ir_wf(ir_nodes@),
        range_info.map@.len() == ir_nodes@.len(),
        forall|k: int|
            0 <= k < ir_nodes@.len() && moves_pointer(#[trigger] ir_nodes@[k].opcode)
                ==> range_info.map@[k] is Some,
    ensures
        r matches Ok(bc) ==> program_wf(bc@),
        lowering_fits(ir_nodes@) ==> r is Ok,
        match r {
            Ok(bc) => lower_spec(ir_nodes@, range_info.map@) == Ok::<Seq<NewBytecode>, OptimizationError>(bc@),
            Err(e) => lower_spec(ir_nodes@, range_info.map@) == Err::<Seq<NewBytecode>, OptimizationError>(e),
        },
{
    let n = ir_nodes.len();
    let mut bc: Vec<NewBytecode> = Vec::new();
    let mut pos: Vec<usize> = Vec::new();
    while pos.len() < n
        invariant
            pos@.len() <= n,
            n == ir_nodes@.len(),
            forall|k: int| 0 <= k < pos@.len() ==> pos@[k] == 0usize,
        decreases n - pos@.len(),
    {
        pos.push(0);
    }
    assert(pos@ =~= Seq::new(n as nat, |_i: int| 0usize));
    assert(bc@ =~= Seq::<NewBytecode>::empty());
    let ghost mut owner: Seq<int> = Seq::empty();
    proof {
        if n > 0 {
            lemma_inv_start(ir_nodes@, pos@);
        }
    }
    let mut last_ptr: i128 = 0;
    let mut i: usize = 0;
    while i < n
        invariant
            n == ir_nodes@.len(),
            ir_wf(ir_nodes@),
            range_info.map@.len() == ir_nodes@.len(),
            forall|k: int|
                0 <= k < ir_nodes@.len() && moves_pointer(#[trigger] ir_nodes@[k].opcode)
                    ==> range_info.map@[k] is Some,
            i <= n,
            i == n ==> bc@.len() > 0 && bc@.last() is End && program_wf(bc@),
            pos@.len() == n,
            bc@.len() < MAX_PROGRAM_LEN,
            i < n ==> lowering_inv(ir_nodes@, i as int, bc@, pos@, owner),
            -0x1_0000_0000_0000_0000 <= last_ptr <= 0x1_0000_0000_0000_0000,
            lowering_fits(ir_nodes@) && i < n ==> -60 <= last_ptr <= 60 && bc@.len()
                <= lowered_size(ir_nodes@.take(i as int)),
            lower_from(ir_nodes@, range_info.map@, i as nat, bc@, pos@, last_ptr as int)
                == lower_spec(ir_nodes@, range_info.map@),
        decreases n - i,
    {
        let p = ir_nodes[i].pointer;
        proof {
            if lowering_fits(ir_nodes@) {
                lemma_lowered_size_step(ir_nodes@, i as int);
                lemma_lowered_size_mono(ir_nodes@, i + 1);
                assert(op_small(ir_nodes@[i as int]));
                if i + 1 < n {
                    lemma_lowered_size_step(ir_nodes@, i + 1);
                    lemma_lowered_size_mono(ir_nodes@, i + 2);
                    assert(op_small(ir_nodes@[i + 1]));
                }
            }
        }
        if bc.len() >= MAX_PROGRAM_LEN - 3 {
            proof {
                reveal(lower_from);
            }
            return Err(OptimizationError::ProgramAbs);
        }
        match &ir_nodes[i].opcode {
            IROp::LoopStart(_) => {
                proof {
                    reveal(lower_from);
                }
                let delta = fit_i16(p as i128 - last_ptr)?;
                proof {
                    lemma_open_jump(ir_nodes@, i as int, bc@, pos@, owner, delta);
                    owner = owner.push(i as int);
                }
                pos.set(i, bc.len());
                bc.push(NewBytecode::JmpIfZero { delta, addr: u32::MAX });
                last_ptr = p as i128;
                i = i + 1;
            },
            IROp::LoopEnd(s) => {
                proof {
                    lemma_loop_start_pos(ir_nodes@, i as int, bc@, pos@, owner);
                    reveal(lower_from);
                }
                let delta = fit_i16(p as i128 - last_ptr)?;
                let j = pos[*s];
                let k = bc.len();
                let close = NewBytecode::JmpIfNotZero { delta, addr: (j + 1) as u32 };
                proof {
                    lemma_close_jump(ir_nodes@, i as int, bc@, pos@, owner, close);
                    owner = owner.push(i as int);
                }
                let d0 = match bc[j] {
                    NewBytecode::JmpIfZero { delta, .. } => delta,
                    _ => 0,
                };
                bc.set(j, NewBytecode::JmpIfZero { delta: d0, addr: (k + 1) as u32 });
                bc.push(close);
                last_ptr = p as i128;
                i = i + 1;
            },
            IROp::LoopEndWithOffset(s, offset) => {
                proof {
                    lemma_loop_start_pos(ir_nodes@, i as int, bc@, pos@, owner);
                    reveal(lower_from);
                }
                let delta = fit_i16(p as i128 - last_ptr)?;
                let j = pos[*s];
                let k = bc.len();
                if k - j - 1 > 65535 {
                    return Err(OptimizationError::ProgramRel);
                }
                let subrel = (k - j - 1) as u16;
                let range = range_info.map[i].unwrap();
                let close = match range {
                    MemoryRange::Unbounded => NewBytecode::JmpIfNotZero {
                        delta,
                        addr: (j + 1) as u32,
                    },
                    MemoryRange::Positive(r) => NewBytecode::PositiveRangeCheckJNZ {
                        delta,
                        addr_subrel: subrel,
                        range: r,
                    },
                    MemoryRange::Negative(r) => NewBytecode::NegativeRangeCheckJNZ {
                        delta,
                        addr_subrel: subrel,
                        range: r,
                    },
                    MemoryRange::Both { positive, negative } => {
                        let d8 = match fit_i8(delta as i128) {
                            Some(d) => d,
                            None => {
                                return Err(OptimizationError::Delta);
                            },
                        };
                        NewBytecode::BothRangeCheckJNZ {
                            delta: d8,
                            addr_subrel: subrel,
                            positive,
                            negative,
                        }
                    },
                };
                proof {
                    lemma_close_jump(ir_nodes@, i as int, bc@, pos@, owner, close);
                    owner = owner.push(i as int);
                }
                let d0 = match bc[j] {
                    NewBytecode::JmpIfZero { delta, .. } => delta,
                    _ => 0,
                };
                bc.set(j, NewBytecode::JmpIfZero { delta: d0, addr: (k + 1) as u32 });
                bc.push(close);
                last_ptr = p as i128 - *offset as i128;
                i = i + 1;
            },
            IROp::End => {
                proof {
                    reveal(lower_from);
                }
                let delta = fit_i16(p as i128 - last_ptr)?;
                proof {
                    lemma_end_program(ir_nodes@, bc@, pos@, owner, delta);
                }
                bc.push(NewBytecode::End { delta });
                i = i + 1;
            },
            _ => {
                proof {
                    reveal(lower_from);
                }
                let (out, used, np) = lower_plain(ir_nodes, i, last_ptr, bc.len(), range_info)?;
                proof {
                    assert forall|u: int| i <= u < i + used implies !((
                    #[trigger] ir_nodes@[u].opcode) is LoopStart) && !is_loop_end(
                        ir_nodes@[u].opcode,
                    ) by {}
                    lemma_append_plain(ir_nodes@, i as int, used as int, bc@, pos@, owner, out@);
                    owner = owner + Seq::new(out@.len(), |_m: int| i as int);
                }
                let mut m: usize = 0;
                let ghost bc0 = bc@;
                while m < out.len()
                    invariant
                        m <= out@.len(),
                        bc@ == bc0 + out@.take(m as int),
                    decreases out@.len() - m,
                {
                    bc.push(out[m]);
                    m = m + 1;
                    proof {
                        assert(bc@ =~= bc0 + out@.take(m as int));
                    }
                }
                proof {
                    assert(out@.take(m as int) =~= out@);
                }
                last_ptr = np;
                i = i + used;
            },
        }
    }
    proof {
        assert(n > 0);
        reveal(lower_from);
    }
    Ok(bc)
}

} // verus!
