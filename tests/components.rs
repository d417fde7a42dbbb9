use brainrot::bytecode::{ir_to_bytecodes, NewBytecode};
use brainrot::interpret::{run_deopt, run_opt, InterpreterResult};
use brainrot::semantics::Tier;
use brainrot::error::{BrainrotError, OptimizationError, RangeError, RuntimeError, SyntaxError};
use brainrot::ir::{parse_bytes, parse_to_ir, IROp, IR};
use brainrot::program::{Program, UnsafeProgram};
use brainrot::range::{
    generate_range_info, negative_is_out_of_range, positive_is_out_of_range, InternalRangeState, MemoryRange,
    Range, RangeInfo,
};
use brainrot::runtime::prepare;
use brainrot::tape::{Tape, UnsafeTape, MEMORY_LENGTH};

#[test]
fn tape_starts_zeroed() {
    let t = Tape::new();
    assert_eq!(t.buffer.len(), MEMORY_LENGTH);
    assert!(t.buffer.iter().all(|&c| c == 0));
    assert_eq!(t.data_pointer, 0);
}

#[test]
fn tape_add_and_sub_wrap() {
    let mut t = Tape::new();
    t.sub(1).unwrap();
    assert_eq!(t.get(), Ok(255));
    t.add(3).unwrap();
    assert_eq!(t.get(), Ok(2));
    t.set(250).unwrap();
    t.add_with_offset(0, 10).unwrap();
    assert_eq!(t.get(), Ok(4));
    t.sub_with_offset(1, 1).unwrap();
    assert_eq!(t.get_with_offset(1), Ok(255));
    t.set_with_offset(2, 7).unwrap();
    assert_eq!(t.buffer[2], 7);
}

#[test]
fn tape_out_of_bounds_errors() {
    let mut t = Tape::new();
    t.step(-1);
    assert_eq!(t.data_pointer, usize::MAX);
    assert_eq!(t.get(), Err(RuntimeError::OOBGet(usize::MAX)));
    assert_eq!(t.set(5), Err(RuntimeError::OOBSet(usize::MAX, 5)));
    assert_eq!(t.add(6), Err(RuntimeError::OOBAdd(usize::MAX, 6)));
    assert_eq!(t.sub(7), Err(RuntimeError::OOBSub(usize::MAX, 7)));
    assert_eq!(t.get_with_offset(1), Ok(0));
    t.step(1);
    assert_eq!(t.data_pointer, 0);
    assert_eq!(t.add_with_offset(65536, 1), Err(RuntimeError::OOBAdd(65536, 1)));
}

#[test]
fn tape_unchecked_access() {
    let mut t = Tape::new();
    t.set_unchecked(10, 9);
    t.add_unchecked(10, 250);
    assert_eq!(t.get_unchecked(10), 3);
    t.sub_unchecked(10, 4);
    assert_eq!(t.get_unchecked(10), 255);
}

#[test]
fn tape_view_writes_pointer_back() {
    let mut t = Tape::new();
    t.step(5);
    let mut v = UnsafeTape::new(t);
    assert_eq!(v.get_ptr(), 5);
    v.step_ptr(3);
    assert!(v.rangecheck(0));
    assert!(!v.rangecheck(65536));
    v.set(4);
    v.add(1);
    assert_eq!(v.get(), 5);
    v.add_with_offset(-8, 2);
    v.sub_with_offset(-8, 3);
    assert_eq!(v.get_safe(0), Ok(255));
    assert_eq!(v.get_safe(70000), Err(RuntimeError::OOBGet(70000)));
    assert_eq!(v.set_safe(70000, 1), Err(RuntimeError::OOBSet(70000, 1)));
    assert_eq!(v.add_safe(70000, 1), Err(RuntimeError::OOBAdd(70000, 1)));
    v.add_safe(1, 2).unwrap();
    v.set_safe(2, 3).unwrap();
    let t = v.release();
    assert_eq!(t.data_pointer, 8);
    assert_eq!(t.buffer[8], 5);
    assert_eq!(t.buffer[1], 2);
    assert_eq!(t.buffer[2], 3);
}

#[test]
fn parser_coalesces_and_folds() {
    let ir = parse_to_ir("+++>--<[-]++x").unwrap();
    assert_eq!(ir[0], IR { pointer: 0, opcode: IROp::Add(3) });
    assert_eq!(ir[1], IR { pointer: 1, opcode: IROp::Add(254) });
    assert_eq!(ir[2], IR { pointer: 0, opcode: IROp::SetCell(2) });
    assert_eq!(ir[3], IR { pointer: 0, opcode: IROp::End });
    assert_eq!(ir.len(), 4);
}

#[test]
fn parser_recognizes_shift_and_loops() {
    let ir = parse_to_ir("+[>>]>[.>]").unwrap();
    assert_eq!(ir[1], IR { pointer: 0, opcode: IROp::Shift(2) });
    assert_eq!(ir[2], IR { pointer: 1, opcode: IROp::LoopStart(4) });
    assert_eq!(ir[3], IR { pointer: 1, opcode: IROp::Out });
    assert_eq!(ir[4], IR { pointer: 2, opcode: IROp::LoopEndWithOffset(2, 1) });
    assert_eq!(ir[5], IR { pointer: 1, opcode: IROp::End });
}

#[test]
fn parser_multiplication_shapes() {
    let ir = parse_to_ir("[->++>-<<]").unwrap();
    assert_eq!(ir[0].opcode, IROp::MulAndSetZero(vec![(1, 2), (2, 255)]));
    let ir = parse_to_ir("[->+>-<<]").unwrap();
    assert_eq!(ir[0].opcode, IROp::MovesAndSetZero(vec![(1, true), (2, false)]));
    let ir = parse_to_ir("[->+<-]").unwrap();
    assert!(matches!(ir[0].opcode, IROp::LoopStart(_)));
    let ir = parse_to_ir("[-]").unwrap();
    assert_eq!(ir[0].opcode, IROp::SetCell(0));
    let ir = parse_to_ir("[->]").unwrap();
    assert!(matches!(ir[0].opcode, IROp::LoopStart(_)));
}

#[test]
fn parser_loops_nest_and_match() {
    let ir = parse_to_ir("[.[,]]").unwrap();
    assert_eq!(ir[0].opcode, IROp::LoopStart(5));
    assert_eq!(ir[2].opcode, IROp::LoopStart(4));
    assert_eq!(ir[4].opcode, IROp::LoopEnd(2));
    assert_eq!(ir[5].opcode, IROp::LoopEnd(0));
    assert!(matches!(ir.last().unwrap().opcode, IROp::End));
}

#[test]
fn parser_errors() {
    assert_eq!(parse_to_ir("]").unwrap_err(), SyntaxError::UnmatchedClosingBracket);
    assert_eq!(parse_to_ir("[").unwrap_err(), SyntaxError::UnmatchedOpeningBracket);
    assert_eq!(parse_bytes(b"[]]").unwrap_err(), SyntaxError::UnmatchedClosingBracket);
}

#[test]
fn range_checks() {
    assert!(positive_is_out_of_range(10, 10));
    assert!(!positive_is_out_of_range(10, 9));
    assert!(negative_is_out_of_range(10, 9));
    assert!(!negative_is_out_of_range(10, 10));
}

#[test]
fn range_windows() {
    let mut r = Range { positive: 0, negative: 0 };
    r.subscribe(5);
    r.subscribe(-3);
    assert_eq!(r, Range { positive: 5, negative: -3 });
    r.subscribe_from_range(Range { positive: 7, negative: 1 });
    assert_eq!(r, Range { positive: 7, negative: -3 });
    let mut st = InternalRangeState::new(3);
    st.subscribe(4);
    st.insert(1, 0);
    assert_eq!(st.map[1].unwrap().range.positive, 4);
    assert_eq!(st.curr, Range { positive: 0, negative: 0 });
    st.push_loopend();
    st.subscribe(9);
    st.pop_loopstart();
    assert_eq!(st.curr, Range { positive: 9, negative: 0 });
    st.apply_loop(1, 2);
    assert_eq!(st.map[1].unwrap().range.positive, 9);
    assert_eq!(st.map[1].unwrap().pointer, 2);
}

#[test]
fn range_info_of_shift() {
    let ir = parse_to_ir("[>]>>+<<<+").unwrap();
    let ri = generate_range_info(&ir).unwrap();
    assert_eq!(ri.map[0], Some(MemoryRange::Both { positive: 65534, negative: 1 }));
    assert!(ri.map[1..].iter().all(|e| e.is_none()));
    assert!(ri.do_opt_first);
    let ir = parse_to_ir("[>]>>+").unwrap();
    let ri = generate_range_info(&ir).unwrap();
    assert_eq!(ri.map[0], Some(MemoryRange::Positive(65534)));
    let ir = parse_to_ir("<+").unwrap();
    assert!(!generate_range_info(&ir).unwrap().do_opt_first);
    let ir = parse_to_ir("+[>+]").unwrap();
    assert!(matches!(ir[3].opcode, IROp::LoopEndWithOffset(1, 1)));
    let ri = generate_range_info(&ir).unwrap();
    assert_eq!(ri.map[3], Some(MemoryRange::Positive(65535)));
}

#[test]
fn range_overflow_is_an_error() {
    let src = String::from("[>]") + &">".repeat(70000) + "+";
    let ir = parse_to_ir(&src).unwrap();
    assert_eq!(generate_range_info(&ir).err(), Some(RangeError::Overflow(0)));
    assert!(matches!(prepare(&src, false, None), Err(BrainrotError::RangeError(RangeError::Overflow(0)))));
}

#[test]
fn lowering_pairs_jumps() {
    let ir = parse_to_ir("+[.[,]>]").unwrap();
    let ri = generate_range_info(&ir).unwrap();
    let bc = ir_to_bytecodes(&ir, &ri).unwrap();
    assert!(matches!(bc.last().unwrap(), NewBytecode::End { .. }));
    for (j, b) in bc.iter().enumerate() {
        if let NewBytecode::JmpIfZero { addr, .. } = b {
            let a = *addr as usize;
            let target = match bc[a - 1] {
                NewBytecode::JmpIfNotZero { addr, .. } => addr as usize,
                NewBytecode::PositiveRangeCheckJNZ { addr_subrel, .. }
                | NewBytecode::NegativeRangeCheckJNZ { addr_subrel, .. }
                | NewBytecode::BothRangeCheckJNZ { addr_subrel, .. } => a - 1 - addr_subrel as usize,
                ref other => panic!("not a loop end: {:?}", other),
            };
            assert_eq!(target, j + 1);
        }
    }
}

#[test]
fn lowering_fuses_pairs() {
    let ir = parse_to_ir("+>-<[-]>+").unwrap();
    let ri = generate_range_info(&ir).unwrap();
    let bc = ir_to_bytecodes(&ir, &ri).unwrap();
    assert_eq!(bc[0], NewBytecode::AddAdd { delta1: 0, val1: 1, delta2: 1, val2: 255 });
    assert_eq!(bc[1], NewBytecode::SetAdd { delta1: -1, val1: 0, delta2: 1, val2: 1 });
    assert_eq!(bc[2], NewBytecode::End { delta: 0 });
}

#[test]
fn lowering_expansions() {
    let ir = parse_to_ir("[->+>+>+<<<]").unwrap();
    let ri = generate_range_info(&ir).unwrap();
    let bc = ir_to_bytecodes(&ir, &ri).unwrap();
    assert_eq!(bc[0], NewBytecode::MoveStart { delta: 0, jz: 4 });
    assert_eq!(bc[1], NewBytecode::MoveAdd { delta: 1 });
    let ir = parse_to_ir("[->+++<]").unwrap();
    let ri = generate_range_info(&ir).unwrap();
    let bc = ir_to_bytecodes(&ir, &ri).unwrap();
    assert_eq!(bc[0], NewBytecode::MulStart { delta: 0, jz: 2 });
    assert_eq!(bc[1], NewBytecode::Mul { delta: 1, val: 3 });
}

#[test]
fn lowering_delta_overflow() {
    let src = String::from("+") + &">".repeat(40000) + "+";
    assert!(matches!(prepare(&src, false, None), Err(BrainrotError::OptimizationError(OptimizationError::Delta))));
}

#[test]
fn lowering_shift_step_overflow() {
    let src = String::from("[") + &">".repeat(40000) + "]";
    let ir = parse_to_ir(&src).unwrap();
    let mut ri = generate_range_info(&ir).unwrap();
    ri.map[0] = Some(MemoryRange::Unbounded);
    assert_eq!(ir_to_bytecodes(&ir, &ri).err(), Some(OptimizationError::ShiftStep));
}

#[test]
fn lowering_backward_jump_overflow() {
    let src = String::from("[") + &".>".repeat(70000) + "]";
    let ir = parse_to_ir(&src).unwrap();
    let mut ri = RangeInfo { map: vec![None; ir.len()], do_opt_first: false };
    let last = ir.len() - 2;
    ri.map[last] = Some(MemoryRange::Positive(1));
    assert_eq!(ir_to_bytecodes(&ir, &ri).err(), Some(OptimizationError::ProgramRel));
}

#[test]
fn program_counter_moves() {
    let ir = parse_to_ir("+.").unwrap();
    let ri = generate_range_info(&ir).unwrap();
    let bc = ir_to_bytecodes(&ir, &ri).unwrap();
    let mut p = Program::new(bc.clone(), true, Some(1));
    assert_eq!(p.pc(), 0);
    assert_eq!(p.inst(), bc[0]);
    p.step();
    assert_eq!(p.pc(), 1);
    p.jump_abs(0);
    p.jump_back(0);
    p.jump_back(1);
    assert_eq!(p.pc(), usize::MAX);
    p.jump_abs(0);
    assert_eq!(p.insts().len(), bc.len());
    assert_eq!(p.check_timeout(), Ok(()));
    assert_eq!(p.check_timeout(), Err(RuntimeError::TimeoutError));
    let mut u = UnsafeProgram::new(p);
    u.jump_one();
    assert_eq!(u.inst(), bc[1]);
    u.jump_back(1);
    u.jump_abs(1);
    assert_eq!(u.check_timeout(), Err(RuntimeError::TimeoutError));
    let p = u.release();
    assert_eq!(p.pc(), 1);
}

#[test]
fn checked_tier_moves_up_when_in_range() {
    let mut rt = prepare(">[>]>>+<<<+", false, None).unwrap();
    let mut fuel: usize = 100;
    let r = run_deopt(&mut rt.tape, &mut rt.program, &mut fuel);
    assert_eq!(r, Ok(InterpreterResult::ToggleTier(Tier::Opt)));
    assert_eq!(rt.tape.data_pointer, 1);
}

#[test]
fn optimized_tier_moves_down_when_out_of_range() {
    let mut rt = prepare("[>]<.", false, None).unwrap();
    let ir = parse_to_ir("[>]<.").unwrap();
    let ri = generate_range_info(&ir).unwrap();
    assert_eq!(ri.map[0], Some(MemoryRange::Negative(1)));
    let mut fuel: usize = 100;
    let r = run_opt(&mut rt.tape, &mut rt.program, &mut fuel);
    assert_eq!(r, Ok(InterpreterResult::ToggleTier(Tier::Deopt)));
    let r = rt.resume(100);
    assert!(matches!(r, Err(BrainrotError::RuntimeError { err: RuntimeError::OOBGet(p), .. }) if p == usize::MAX));
}

#[test]
fn operation_counts_follow_the_tier() {
    let mut rt = prepare("+.", false, None).unwrap();
    assert_eq!(rt.tier, Tier::Opt);
    assert_eq!(rt.resume(100), Ok(InterpreterResult::Output(1)));
    assert_eq!(rt.resume(100), Ok(InterpreterResult::End));
    assert_eq!(rt.program.ocm.opt, vec![1, 1, 1]);
    assert_eq!(rt.program.ocm.deopt, vec![0, 0, 0]);
}
