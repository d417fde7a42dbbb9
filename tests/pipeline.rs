use brainrot::error::{BrainrotError, RuntimeError, SyntaxError};
use brainrot::interpret::InterpreterResult;
use brainrot::ir::{parse_to_ir, IROp};
use brainrot::runtime::{prepare, Runtime};
use brainrot::semantics::Tier;

struct Outcome {
    output: Vec<u8>,
    result: Result<bool, BrainrotError>,
    runtime: Runtime,
}

/// Runs `src` on `input`; `result` is Ok(true) when the program ended and
/// Ok(false) when `max_rounds` slices of `fuel` instructions ran out.
fn run_source(src: &str, input: &[u8], tier: Option<Tier>, fuel: usize, max_rounds: usize) -> Outcome {
    let mut rt = prepare(src, false, None).expect("program prepares");
    if let Some(t) = tier {
        rt.tier = t;
    }
    let mut output = Vec::new();
    let mut pos = 0;
    for _ in 0..max_rounds {
        match rt.resume(fuel) {
            Ok(InterpreterResult::End) => {
                return Outcome { output, result: Ok(true), runtime: rt };
            }
            Ok(InterpreterResult::Output(b)) => output.push(b),
            Ok(InterpreterResult::Input) => {
                let byte = input.get(pos).copied();
                pos += 1;
                if let Err(e) = rt.provide_input(byte) {
                    return Outcome { output, result: Err(e), runtime: rt };
                }
            }
            Ok(InterpreterResult::Suspended) => {}
            Ok(InterpreterResult::ToggleTier(_)) => panic!("resume never hands back a tier switch"),
            Err(e) => return Outcome { output, result: Err(e), runtime: rt },
        }
    }
    Outcome { output, result: Ok(false), runtime: rt }
}

fn run_simple(src: &str, input: &[u8]) -> Outcome {
    run_source(src, input, None, 1_000_000, 1_000)
}

#[test]
fn multiplication_loop_prints_25() {
    let o = run_simple("+++++[>+++++<-]>.", b"");
    assert_eq!(o.result, Ok(true));
    assert_eq!(o.output, vec![25]);
}

#[test]
fn multiplication_loop_prints_15() {
    let o = run_simple("++[>+++++++<-]>+.", b"");
    assert_eq!(o.result, Ok(true));
    assert_eq!(o.output, vec![15]);
}

#[test]
fn reads_and_increments_input() {
    let o = run_simple(",+.", b"A");
    assert_eq!(o.result, Ok(true));
    assert_eq!(o.output, vec![0x42]);
}

#[test]
fn empty_loop_on_nonzero_cell_never_ends() {
    let o = run_source("+[]", b"", None, 10_000, 5);
    assert_eq!(o.result, Ok(false));
    assert!(o.output.is_empty());
}

#[test]
fn step_budget_gives_timeout() {
    let mut rt = prepare("+[]", false, Some(1000)).unwrap();
    let r = rt.resume(1_000_000);
    assert!(matches!(r, Err(BrainrotError::RuntimeError { err: RuntimeError::TimeoutError, .. })));
}

#[test]
fn move_loop_prints_3() {
    let ir = parse_to_ir("+++[>+<-]>.").unwrap();
    assert!(ir.iter().any(|n| matches!(&n.opcode, IROp::MovesAndSetZero(d) if d == &vec![(1isize, true)])));
    let o = run_simple("+++[>+<-]>.", b"");
    assert_eq!(o.output, vec![3]);
}

#[test]
fn skipped_loop_then_clear() {
    let ir = parse_to_ir("[>+<-][-]").unwrap();
    assert!(ir.iter().any(|n| matches!(n.opcode, IROp::SetCell(0))));
    let o = run_simple("[>+<-][-]", b"");
    assert_eq!(o.result, Ok(true));
    assert_eq!(o.runtime.tape.buffer[0], 0);
    assert_eq!(o.runtime.tape.buffer[1], 0);
}

#[test]
fn cell_arithmetic_wraps() {
    let o = run_simple("-.+.", b"");
    assert_eq!(o.output, vec![255, 0]);
    let src: String = std::iter::repeat('+').take(257).collect::<String>() + ".";
    let o = run_simple(&src, b"");
    assert_eq!(o.output, vec![1]);
}

#[test]
fn read_past_end_gives_zero() {
    let o = run_simple("+,.", b"");
    assert_eq!(o.result, Ok(true));
    assert_eq!(o.output, vec![0]);
}

#[test]
fn loop_on_zero_cell_runs_no_iteration() {
    let o = run_simple("[.+]+.", b"");
    assert_eq!(o.output, vec![1]);
}

#[test]
fn pointer_far_out_and_back_is_legal() {
    let o = run_simple("<<<<<+>>>>>", b"");
    assert!(matches!(o.result, Err(BrainrotError::RuntimeError { err: RuntimeError::OOBAdd(_, 1), .. })));
    let o = run_simple("<<<<<>>>>>+.", b"");
    assert_eq!(o.result, Ok(true));
    assert_eq!(o.output, vec![1]);
}

#[test]
fn access_left_of_tape_fails() {
    let o = run_simple("<.", b"");
    assert!(matches!(
        o.result,
        Err(BrainrotError::RuntimeError { err: RuntimeError::OOBGet(p), .. }) if p == usize::MAX
    ));
}

#[test]
fn clear_cell_left_of_tape_fails_on_set() {
    let o = run_simple("<[-]", b"");
    assert!(matches!(
        o.result,
        Err(BrainrotError::RuntimeError { err: RuntimeError::OOBSet(p, 0), .. }) if p == usize::MAX
    ));
    let o = run_simple("<,", b"x");
    assert!(matches!(o.result, Err(BrainrotError::RuntimeError { err: RuntimeError::OOBSet(_, b'x'), .. })));
}

#[test]
fn subtraction_out_of_tape_fails() {
    let o = run_simple("+[<->-]", b"");
    assert!(matches!(o.result, Err(BrainrotError::RuntimeError { err: RuntimeError::OOBSub(_, 1), .. })));
}

#[test]
fn syntax_errors() {
    assert!(matches!(prepare("+]", false, None), Err(BrainrotError::SyntaxError(SyntaxError::UnmatchedClosingBracket))));
    assert!(matches!(prepare("[[]", false, None), Err(BrainrotError::SyntaxError(SyntaxError::UnmatchedOpeningBracket))));
    assert!(matches!(prepare("][", false, None), Err(BrainrotError::SyntaxError(SyntaxError::UnmatchedClosingBracket))));
}

const HELLO: &str = "++++++++[>++++[>++>+++>+++>+<<<<-]>+>+>->>+[<]<-]>>.>---.+++++++..+++.>>.<-.<.+++.------.--------.>>+.>++.";

#[test]
fn hello_world() {
    let o = run_simple(HELLO, b"");
    assert_eq!(o.result, Ok(true));
    assert_eq!(o.output, b"Hello World!\n".to_vec());
}

fn same_in_both_tiers(src: &str, input: &[u8]) {
    let a = run_source(src, input, Some(Tier::Opt), 1_000_000, 1_000);
    let b = run_source(src, input, Some(Tier::Deopt), 1_000_000, 1_000);
    assert_eq!(a.output, b.output);
    assert_eq!(a.result, b.result);
    assert_eq!(a.runtime.tape.buffer, b.runtime.tape.buffer);
    assert_eq!(a.runtime.tape.data_pointer, b.runtime.tape.data_pointer);
}

#[test]
fn tiers_agree_on_programs() {
    same_in_both_tiers(HELLO, b"");
    same_in_both_tiers(",[.,]", b"echo");
    same_in_both_tiers(">>+++[<+>>+<-]<[>>+<<-]>>[-<+>]+[>[-]<-]>>+++.", b"");
    same_in_both_tiers("+[>+]", b"");
    same_in_both_tiers("++++[>++<-]>[[>]+[<]>-]>>>.", b"");
}

#[test]
fn shift_finds_zero_cell() {
    let o = run_simple("+>+>+>>+<<<<[>]>.", b"");
    assert_eq!(o.result, Ok(true));
    assert_eq!(o.output, vec![1]);
    assert_eq!(o.runtime.tape.data_pointer, 4);
}

#[test]
fn moving_loop_runs_off_the_right_end() {
    let o = run_simple("+[>+]", b"");
    assert!(matches!(o.result, Err(BrainrotError::RuntimeError { err: RuntimeError::OOBAdd(65536, 1), .. })));
}

#[test]
fn shift_runs_off_the_left_end() {
    let o = run_simple("+[<]", b"");
    assert!(matches!(
        o.result,
        Err(BrainrotError::RuntimeError { err: RuntimeError::OOBGet(p), .. }) if p == usize::MAX
    ));
}

#[test]
fn multiplication_with_factors() {
    let o = run_simple("+++[>++>---<<-]>.>.", b"");
    assert_eq!(o.output, vec![6, 247]);
}

#[test]
fn double_move_and_wide_move() {
    let o = run_simple("++++[>+>-<<-]>.>.", b"");
    assert_eq!(o.output, vec![4, 252]);
    let o = run_simple("++[>+>+>-<<<-]>.>.>.", b"");
    assert_eq!(o.output, vec![2, 2, 254]);
}
