use vstd::prelude::*;
use crate::bytecode::{NewBytecode, ir_to_bytecodes, lower_spec, program_wf};
use crate::error::{BrainrotError, RangeError, SyntaxError};
use crate::interpret::{InterpreterResult, mach_of, run_deopt, run_opt, run_state, state_of};
use crate::ir::{IR, IRView, closes_unmatched, depth, ir_views, ir_wf, parse_spec, parse_to_ir};
use crate::program::Program;
use crate::range::{MemoryRange, entry_fits, entry_range, generate_range_info, scan, window_on_tape};
use crate::semantics::{Stop, Tier, feed, run};
use crate::tape::{Tape, zero_tape};
use vstd::string::StringSliceAdditionalSpecFns;

verus! {

/// A program being run: its tape, its program state and the current tier.
pub struct Runtime {
    pub tape: Tape,
    pub program: Program,
    pub tier: Tier,
}

/// The result of `resume` for where `run` stopped: runtime errors carry the
/// program counter and pointer at which they happened.
pub open spec fn result_of(stop: Stop, pc: usize, pointer: usize) -> Result<
    InterpreterResult,
    BrainrotError,
> {
    match stop {
        Stop::Fuel => Ok(InterpreterResult::Suspended),
        Stop::Output(v) => Ok(InterpreterResult::Output(v)),
        Stop::Input => Ok(InterpreterResult::Input),
        Stop::Halt => Ok(InterpreterResult::End),
        Stop::Fault(e) => Err(BrainrotError::RuntimeError { err: e, pc, pointer }),
    }
}

impl Runtime {
    pub open spec fn wf(&self) -> bool {
        self.tape.wf() && self.program.wf()
    }

    /// A zero tape, the program at its first instruction, and the tier that
    /// the range analysis chose for the start.
    pub fn new(bytecodes: Vec<NewBytecode>, do_opt_first: bool, flush: bool, timeout: Option<usize>) -> (r: Runtime)
        requires
            program_wf(bytecodes@),
        ensures
            r.wf(),
            r.tape.buffer@ == zero_tape(),
            r.tape.data_pointer == 0,
            r.program.insts@ == bytecodes@,
            r.program.pc == 0,
            r.program.mul_val == 0,
            r.program.step_remains == timeout,
            r.program.flush == flush,
            r.tier == (if do_opt_first {
                Tier::Opt
            } else {
                Tier::Deopt
            }),
    {
        let tier = if do_opt_first {
            Tier::Opt
        } else {
            Tier::Deopt
        };
        Runtime { tape: Tape::new(), program: Program::new(bytecodes, flush, timeout), tier }
    }

    /// Runs at most `fuel` instructions, switching tiers as each one asks,
    /// until the program writes, reads, ends or fails. Tape, program state
    /// and tier end where `run` says.
    pub fn resume(&mut self, fuel: usize) -> (r: Result<InterpreterResult, BrainrotError>)
        requires
            old(self).wf(),
        ensures
            final(self).wf(),
            final(self).program.insts == old(self).program.insts,
            final(self).program.flush == old(self).program.flush,
            ({
                let (st, stop) = run(
                    old(self).program.insts@,
                    run_state(old(self).tape, old(self).program, old(self).tier),
                    fuel as nat,
                );
                &&& st == run_state(final(self).tape, final(self).program, final(self).tier)
                &&& r == result_of(stop, st.m.pc, st.m.ptr)
            }),
    {
        let ghost insts = self.program.insts@;
        let ghost init = run_state(self.tape, self.program, self.tier);
        let mut f = fuel;
        loop
            invariant
                self.wf(),
                self.program.insts@ == insts,
                self.program.insts == old(self).program.insts,
                self.program.flush == old(self).program.flush,
                insts == old(self).program.insts@,
                init == run_state(old(self).tape, old(self).program, old(self).tier),
                run(insts, run_state(self.tape, self.program, self.tier), f as nat) == run(
                    insts,
                    init,
                    fuel as nat,
                ),
            decreases f,
        {
            let r = match self.tier {
                Tier::Deopt => run_deopt(&mut self.tape, &mut self.program, &mut f),
                Tier::Opt => run_opt(&mut self.tape, &mut self.program, &mut f),
            };
            match r {
                Ok(InterpreterResult::ToggleTier(t)) => {
                    self.tier = t;
                },
                Ok(x) => {
                    return Ok(x);
                },
                Err(e) => {
                    return Err(
                        BrainrotError::RuntimeError {
                            err: e,
                            pc: self.program.pc,
                            pointer: self.tape.data_pointer,
                        },
                    );
                },
            }
        }
    }

    /// Completes an `Input`: the byte read, or 0 when the input has ended,
    /// goes to the cell under the pointer.
    pub fn provide_input(&mut self, byte: Option<u8>) -> (r: Result<(), BrainrotError>)
        requires
            old(self).wf(),
        ensures
            final(self).wf(),
            final(self).program == old(self).program,
            final(self).tier == old(self).tier,
            ({
                let m = feed(state_of(old(self).tape, old(self).program), byte);
                &&& mach_of(final(self).tape, None) == (crate::semantics::Mach { err: None, ..m })
                &&& match m.err {
                    Some(e) => r == Err::<(), BrainrotError>(
                        BrainrotError::RuntimeError {
                            err: e,
                            pc: old(self).program.pc,
                            pointer: old(self).tape.data_pointer,
                        },
                    ),
                    None => r is Ok,
                }
            }),
    {
        proof {
            reveal(crate::semantics::m_set_at);
        }
        let v = match byte {
            Some(b) => b,
            None => 0,
        };
        match self.tape.set(v) {
            Ok(()) => Ok(()),
            Err(e) => Err(
                BrainrotError::RuntimeError {
                    err: e,
                    pc: self.program.pc,
                    pointer: self.tape.data_pointer,
                },
            ),
        }
    }
}

/// The range of each IR operation, as the analysis gives it.
pub open spec fn ranges_of(ir: Seq<IR>) -> Seq<Option<MemoryRange>> {
    Seq::new(ir.len(), |i: int| entry_range(scan(ir, 0).map[i]))
}

/// Every recorded window fits `u16` bounds.
pub open spec fn all_fit(ir: Seq<IR>) -> bool {
    forall|i: int| 0 <= i < ir.len() ==> entry_fits(#[trigger] scan(ir, 0).map[i])
}

/// What preparing a parsed IR gives: the first range overflow, else the
/// lowering's error, else a runtime at the start of the lowered program in
/// the tier the analysis chose.
pub open spec fn prepared(ir: Seq<IR>, r: Result<Runtime, BrainrotError>, flush: bool, timeout: Option<usize>) -> bool {
    let st = scan(ir, 0);
    if !all_fit(ir) {
        match r {
            Err(BrainrotError::RangeError(RangeError::Overflow(i))) => {
                &&& i < ir.len()
                &&& !entry_fits(st.map[i as int])
                &&& forall|j: int| 0 <= j < i ==> entry_fits(#[trigger] st.map[j])
            },
            _ => false,
        }
    } else {
        match lower_spec(ir, ranges_of(ir)) {
            Err(e) => r == Err::<Runtime, BrainrotError>(BrainrotError::OptimizationError(e)),
            Ok(bc) => match r {
                Ok(rt) => {
                    &&& rt.wf()
                    &&& rt.program.insts@ == bc
                    &&& rt.tape.buffer@ == zero_tape()
                    &&& rt.tape.data_pointer == 0
                    &&& rt.program.pc == 0
                    &&& rt.program.mul_val == 0
                    &&& rt.program.step_remains == timeout
                    &&& rt.program.flush == flush
                    &&& rt.tier == (if window_on_tape(st.curr) {
                        Tier::Opt
                    } else {
                        Tier::Deopt
                    })
                },
                Err(_) => false,
            },
        }
    }
}

proof fn lemma_prepared_congruent(
    a: Seq<IR>,
    b: Seq<IR>,
    r: Result<Runtime, BrainrotError>,
    flush: bool,
    timeout: Option<usize>,
)
    requires
        ir_views(a) == ir_views(b),
        a.len() > 0,
        a.last().opcode is End,
        prepared(a, r, flush, timeout),
    ensures
        prepared(b, r, flush, timeout),
{
    assert(a.len() == ir_views(a).len());
    assert(b.len() == ir_views(b).len());
    crate::range::lemma_scan_congruent(a, b, 0);
    assert(ranges_of(a) =~= ranges_of(b));
    crate::bytecode::lemma_lower_congruent(
        a,
        b,
        ranges_of(a),
        0,
        Seq::empty(),
        Seq::new(a.len(), |_i: int| 0usize),
        0,
    );
    assert(Seq::new(a.len(), |_i: int| 0usize) =~= Seq::new(b.len(), |_i: int| 0usize));
}

fn prepare_ir(ir: &Vec<IR>, flush: bool, timeout: Option<usize>) -> (r: Result<Runtime, BrainrotError>)
    requires
        ir_wf(ir@),
    ensures
        prepared(ir@, r, flush, timeout),
{
    let range_info = match generate_range_info(ir) {
        Ok(ri) => ri,
        Err(e) => {
            return Err(BrainrotError::RangeError(e));
        },
    };
    proof {
        assert(range_info.map@ =~= ranges_of(ir@));
    }
    let bytecodes = match ir_to_bytecodes(ir, &range_info) {
        Ok(bc) => bc,
        Err(e) => {
            return Err(BrainrotError::OptimizationError(e));
        },
    };
    Ok(Runtime::new(bytecodes, range_info.do_opt_first, flush, timeout))
}

/// Parses, analyses and lowers a source text into a runtime ready to start.
/// Syntax errors come exactly as the parser's spec says; past them, the
/// result is what `prepared` says of the parsed IR.
pub fn prepare(code: &str, flush: bool, timeout: Option<usize>) -> (r: Result<Runtime, BrainrotError>)
    requires
        code.spec_bytes().len() <= isize::MAX / 2,
    ensures
        closes_unmatched(code.spec_bytes()) ==> r == Err::<Runtime, BrainrotError>(
            BrainrotError::SyntaxError(SyntaxError::UnmatchedClosingBracket),
        ),
        !closes_unmatched(code.spec_bytes()) && depth(code.spec_bytes()) != 0 ==> r == Err::<
            Runtime,
            BrainrotError,
        >(BrainrotError::SyntaxError(SyntaxError::UnmatchedOpeningBracket)),
        match parse_spec(code.spec_bytes()) {
            Err(e) => r == Err::<Runtime, BrainrotError>(BrainrotError::SyntaxError(e)),
            Ok(v) => forall|ir: Seq<IR>| #[trigger] ir_views(ir) == v ==> prepared(ir, r, flush, timeout),
        },
{
    let ir = match parse_to_ir(code) {
        Ok(ir) => ir,
        Err(e) => {
            return Err(BrainrotError::SyntaxError(e));
        },
    };
    let r = prepare_ir(&ir, flush, timeout);
    proof {
        assert forall|ir2: Seq<IR>| #[trigger] ir_views(ir2) == ir_views(ir@) implies prepared(
            ir2,
            r,
            flush,
            timeout,
        ) by {
            lemma_prepared_congruent(ir@, ir2, r, flush, timeout);
        }
    }
    r
}

} // verus!
