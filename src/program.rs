use vstd::prelude::*;
use crate::bytecode::{NewBytecode, program_wf};
use crate::error::RuntimeError;
use crate::semantics::Tier;

verus! {

/// `pc - by`, modulo the width of `usize`.
pub open spec fn wrapped_back(pc: usize, by: int) -> usize {
    if by <= pc {
        (pc - by) as usize
    } else {
        (pc - by + usize::MAX + 1) as usize
    }
}

/// How often each instruction ran, in each tier.
pub struct OperationCountMap {
    pub deopt: Vec<usize>,
    pub opt: Vec<usize>,
}

pub open spec fn bumped(counts: Seq<usize>, pc: int) -> Seq<usize> {
    counts.update(pc, if counts[pc] < usize::MAX { (counts[pc] + 1) as usize } else { counts[pc] })
}

impl OperationCountMap {
    /// Zero counts for a program of `len` instructions.
    pub fn new(len: usize) -> (r: OperationCountMap)
        ensures
            r.deopt@ == Seq::new(len as nat, |_i: int| 0usize),
            r.opt@ == Seq::new(len as nat, |_i: int| 0usize),
    {
        let mut deopt: Vec<usize> = Vec::new();
        let mut opt: Vec<usize> = Vec::new();
        while deopt.len() < len
            invariant
                deopt@.len() <= len,
                opt@.len() == deopt@.len(),
                forall|i: int| 0 <= i < deopt@.len() ==> deopt@[i] == 0usize && opt@[i] == 0usize,
            decreases len - deopt@.len(),
        {
            deopt.push(0);
            opt.push(0);
        }
        assert(deopt@ =~= Seq::new(len as nat, |_i: int| 0usize));
        assert(opt@ =~= Seq::new(len as nat, |_i: int| 0usize));
        OperationCountMap { deopt, opt }
    }

    /// Counts one run of the instruction at `pc` in `tier` (saturating).
    pub fn record(&mut self, tier: Tier, pc: usize)
        requires
            pc < old(self).deopt@.len(),
            pc < old(self).opt@.len(),
        ensures
            tier is Deopt ==> final(self).deopt@ == bumped(old(self).deopt@, pc as int)
                && final(self).opt@ == old(self).opt@,
            tier is Opt ==> final(self).opt@ == bumped(old(self).opt@, pc as int)
                && final(self).deopt@ == old(self).deopt@,
    {
        match tier {
            Tier::Deopt => {
                let c = self.deopt[pc];
                if c < usize::MAX {
                    self.deopt.set(pc, c + 1);
                }
            },
            Tier::Opt => {
                let c = self.opt[pc];
                if c < usize::MAX {
                    self.opt.set(pc, c + 1);
                }
            },
        }
    }
}

/// A lowered program with its program counter, the value broadcast by the
/// current multiplication or move expansion, and an optional step budget.
pub struct Program {
    pub insts: Vec<NewBytecode>,
    pub pc: usize,
    pub mul_val: u8,
    pub step_remains: Option<usize>,
    pub flush: bool,
    pub ocm: OperationCountMap,
}

impl Program {
    pub open spec fn wf(&self) -> bool {
        &&& program_wf(self.insts@)
        &&& self.pc < self.insts@.len()
        &&& self.ocm.deopt@.len() == self.insts@.len()
        &&& self.ocm.opt@.len() == self.insts@.len()
    }

    /// A program at its first instruction. `timeout` bounds the number of
    /// instructions it may execute.
    pub fn new(bytecodes: Vec<NewBytecode>, flush: bool, timeout: Option<usize>) -> (r: Program)
        ensures
            r.insts@ == bytecodes@,
            r.pc == 0,
            r.mul_val == 0,
            r.step_remains == timeout,
            r.flush == flush,
            r.ocm.deopt@ == Seq::new(bytecodes@.len(), |_i: int| 0usize),
            r.ocm.opt@ == Seq::new(bytecodes@.len(), |_i: int| 0usize),
    {
        let ocm = OperationCountMap::new(bytecodes.len());
        Program { insts: bytecodes, pc: 0, mul_val: 0, step_remains: timeout, flush, ocm }
    }

    /// Spends one step of the budget; fails when none is left.
    pub fn check_timeout(&mut self) -> (r: Result<(), RuntimeError>)
        ensures
            final(self).insts == old(self).insts,
            final(self).pc == old(self).pc,
            final(self).mul_val == old(self).mul_val,
            final(self).flush == old(self).flush,
            final(self).ocm == old(self).ocm,
            match old(self).step_remains {
                None => r is Ok && final(self).step_remains is None,
                Some(n) => if n == 0 {
                    r == Err::<(), RuntimeError>(RuntimeError::TimeoutError)
                        && final(self).step_remains == Some(0usize)
                } else {
                    r is Ok && final(self).step_remains == Some((n - 1) as usize)
                },
            },
    {
        match self.step_remains {
            None => Ok(()),
            Some(n) => {
                if n == 0 {
                    Err(RuntimeError::TimeoutError)
                } else {
                    self.step_remains = Some(n - 1);
                    Ok(())
                }
            },
        }
    }

    pub fn pc(&self) -> (r: usize)
        ensures
            r == self.pc,
    {
        self.pc
    }

    pub fn insts(&self) -> (r: &Vec<NewBytecode>)
        ensures
            r == &self.insts,
    {
        &self.insts
    }

    /// The instruction at the program counter.
    pub fn inst(&self) -> (r: NewBytecode)
        requires
            self.pc < self.insts@.len(),
        ensures
            r == self.insts@[self.pc as int],
    {
        self.insts[self.pc]
    }

    /// Moves to the next instruction.
    pub fn step(&mut self)
        requires
            old(self).pc < usize::MAX,
        ensures
            *final(self) == (Program { pc: (old(self).pc + 1) as usize, ..*old(self) }),
    {
        self.pc = self.pc + 1;
    }

    /// Jumps to an absolute index.
    pub fn jump_abs(&mut self, addr: usize)
        ensures
            *final(self) == (Program { pc: addr, ..*old(self) }),
    {
        self.pc = addr;
    }

    /// Jumps back by `addr` instructions, wrapping below 0.
    pub fn jump_back(&mut self, addr: usize)
        ensures
            *final(self) == (Program { pc: wrapped_back(old(self).pc, addr as int), ..*old(self) }),
    {
        self.pc = self.pc.wrapping_sub(addr);
    }
}


/// An exclusive view of a program that keeps a live program counter of its
/// own; `release` writes it back.
pub struct UnsafeProgram {
    pub inner: Program,
    pub pc: usize,
}

impl UnsafeProgram {
    pub open spec fn live_pc(&self) -> usize {
        self.pc
    }

    /// Takes the program; the live counter starts at its counter.
    pub fn new(program: Program) -> (r: UnsafeProgram)
        ensures
            r.inner == program,
            r.live_pc() == program.pc,
    {
        let pc = program.pc;
        UnsafeProgram { inner: program, pc }
    }

    /// Hands the program back with the live counter written into it.
    pub fn release(self) -> (r: Program)
        ensures
            r == (Program { pc: self.live_pc(), ..self.inner }),
    {
        let mut p = self.inner;
        p.pc = self.pc;
        p
    }

    /// Spends one step of the program's budget; see `Program::check_timeout`.
    pub fn check_timeout(&mut self) -> (r: Result<(), RuntimeError>)
        ensures
            final(self).live_pc() == old(self).live_pc(),
            final(self).inner.insts == old(self).inner.insts,
            match old(self).inner.step_remains {
                None => r is Ok && final(self).inner.step_remains is None,
                Some(n) => if n == 0 {
                    r == Err::<(), RuntimeError>(RuntimeError::TimeoutError)
                        && final(self).inner.step_remains == Some(0usize)
                } else {
                    r is Ok && final(self).inner.step_remains == Some((n - 1) as usize)
                },
            },
    {
        self.inner.check_timeout()
    }

    pub fn pc(&self) -> (r: usize)
        ensures
            r == self.live_pc(),
    {
        self.pc
    }

    /// The instruction at the live counter.
    pub fn inst(&self) -> (r: NewBytecode)
        requires
            self.live_pc() < self.inner.insts@.len(),
        ensures
            r == self.inner.insts@[self.live_pc() as int],
    {
        self.inner.insts[self.pc]
    }

    pub fn jump_abs(&mut self, to: u32)
        ensures
            final(self).inner == old(self).inner,
            final(self).live_pc() == to,
    {
        self.pc = to as usize;
    }

    /// Moves the live counter back by `to`, wrapping below 0.
    pub fn jump_back(&mut self, to: u16)
        ensures
            final(self).inner == old(self).inner,
            final(self).live_pc() == wrapped_back(old(self).live_pc(), to as int),
    {
        self.pc = self.pc.wrapping_sub(to as usize);
    }

    pub fn jump_one(&mut self)
        requires
            old(self).live_pc() < usize::MAX,
        ensures
            final(self).inner == old(self).inner,
            final(self).live_pc() == old(self).live_pc() + 1,
    {
        self.pc = self.pc + 1;
    }
}

} // verus!
