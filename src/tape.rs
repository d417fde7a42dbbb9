use vstd::prelude::*;
use crate::error::RuntimeError;

verus! {

/// Number of cells on the tape.
pub const MEMORY_LENGTH: usize = 65536;

/// Adding modulo 256.
pub open spec fn cell_add(a: u8, b: u8) -> u8 {
    ((a as int + b as int) % 256) as u8
}

/// Subtracting modulo 256.
pub open spec fn cell_sub(a: u8, b: u8) -> u8 {
    ((a as int - b as int + 256) % 256) as u8
}

/// Moving a pointer by a signed amount, modulo the width of `usize`.
pub open spec fn moved(p: usize, delta: int) -> usize {
    let q = p as int + delta;
    if q > usize::MAX {
        (q - (usize::MAX + 1)) as usize
    } else if q < 0 {
        (q + (usize::MAX + 1)) as usize
    } else {
        q as usize
    }
}

/// A tape whose cells are all zero.
pub open spec fn zero_tape() -> Seq<u8> {
    Seq::new(MEMORY_LENGTH as nat, |_i: int| 0u8)
}

pub fn wrapping_offset(p: usize, delta: isize) -> (r: usize)
    ensures
        r == moved(p, delta as int),
{
    p.wrapping_add_signed(delta)
}

/// A fixed-length byte tape and the current data pointer.
pub struct Tape {
    pub buffer: Vec<u8>,
    pub data_pointer: usize,
}

impl Tape {
    pub open spec fn wf(&self) -> bool {
        self.buffer@.len() == MEMORY_LENGTH
    }

    pub open spec fn cells(&self) -> Seq<u8> {
        self.buffer@
    }

    /// A tape of zeros with the pointer at cell 0.
    pub fn new() -> (t: Tape)
        ensures
            t.wf(),
            t.buffer@ == zero_tape(),
            t.data_pointer == 0,
    {
        let mut buffer: Vec<u8> = Vec::new();
        while buffer.len() < MEMORY_LENGTH
            invariant
                buffer@.len() <= MEMORY_LENGTH,
                forall|i: int| 0 <= i < buffer@.len() ==> buffer@[i] == 0u8,
            decreases MEMORY_LENGTH - buffer@.len(),
        {
            buffer.push(0u8);
        }
        assert(buffer@ =~= zero_tape());
        Tape { buffer, data_pointer: 0 }
    }

    /// The cell under the pointer.
    pub fn get(&self) -> (r: Result<u8, RuntimeError>)
        requires
            self.wf(),
        ensures
            self.data_pointer < MEMORY_LENGTH ==> r == Ok::<u8, RuntimeError>(
                self.buffer@[self.data_pointer as int],
            ),
            self.data_pointer >= MEMORY_LENGTH ==> r == Err::<u8, RuntimeError>(
                RuntimeError::OOBGet(self.data_pointer),
            ),
    {
        self.get_with_offset(0)
    }

    /// Overwrites the cell under the pointer.
    pub fn set(&mut self, value: u8) -> (r: Result<(), RuntimeError>)
        requires
            old(self).wf(),
        ensures
            final(self).wf(),
            final(self).data_pointer == old(self).data_pointer,
            old(self).data_pointer < MEMORY_LENGTH ==> r is Ok && final(self).buffer@ == old(
                self,
            ).buffer@.update(old(self).data_pointer as int, value),
            old(self).data_pointer >= MEMORY_LENGTH ==> r == Err::<(), RuntimeError>(
                RuntimeError::OOBSet(old(self).data_pointer, value),
            ) && final(self).buffer@ == old(self).buffer@,
    {
        self.set_with_offset(0, value)
    }

    /// Adds to the cell under the pointer, modulo 256.
    pub fn add(&mut self, value: u8) -> (r: Result<(), RuntimeError>)
        requires
            old(self).wf(),
        ensures
            final(self).wf(),
            final(self).data_pointer == old(self).data_pointer,
            old(self).data_pointer < MEMORY_LENGTH ==> r is Ok && final(self).buffer@ == old(
                self,
            ).buffer@.update(
                old(self).data_pointer as int,
                cell_add(old(self).buffer@[old(self).data_pointer as int], value),
            ),
            old(self).data_pointer >= MEMORY_LENGTH ==> r == Err::<(), RuntimeError>(
                RuntimeError::OOBAdd(old(self).data_pointer, value),
            ) && final(self).buffer@ == old(self).buffer@,
    {
        self.add_with_offset(0, value)
    }

    /// Subtracts from the cell under the pointer, modulo 256.
    pub fn sub(&mut self, value: u8) -> (r: Result<(), RuntimeError>)
        requires
            old(self).wf(),
        ensures
            final(self).wf(),
            final(self).data_pointer == old(self).data_pointer,
            old(self).data_pointer < MEMORY_LENGTH ==> r is Ok && final(self).buffer@ == old(
                self,
            ).buffer@.update(
                old(self).data_pointer as int,
                cell_sub(old(self).buffer@[old(self).data_pointer as int], value),
            ),
            old(self).data_pointer >= MEMORY_LENGTH ==> r == Err::<(), RuntimeError>(
                RuntimeError::OOBSub(old(self).data_pointer, value),
            ) && final(self).buffer@ == old(self).buffer@,
    {
        self.sub_with_offset(0, value)
    }

    /// The cell at `delta` from the pointer.
    pub fn get_with_offset(&self, delta: isize) -> (r: Result<u8, RuntimeError>)
        requires
            self.wf(),
        ensures
            ({
                let p = moved(self.data_pointer, delta as int);
                &&& p < MEMORY_LENGTH ==> r == Ok::<u8, RuntimeError>(self.buffer@[p as int])
                &&& p >= MEMORY_LENGTH ==> r == Err::<u8, RuntimeError>(RuntimeError::OOBGet(p))
            }),
    {
        let p = wrapping_offset(self.data_pointer, delta);
        if p < self.buffer.len() {
            Ok(self.buffer[p])
        } else {
            Err(RuntimeError::OOBGet(p))
        }
    }

    /// Overwrites the cell at `delta` from the pointer.
    pub fn set_with_offset(&mut self, delta: isize, value: u8) -> (r: Result<(), RuntimeError>)
        requires
            old(self).wf(),
        ensures
            final(self).wf(),
            final(self).data_pointer == old(self).data_pointer,
            ({
                let p = moved(old(self).data_pointer, delta as int);
                &&& p < MEMORY_LENGTH ==> r is Ok && final(self).buffer@ == old(
                    self,
                ).buffer@.update(p as int, value)
                &&& p >= MEMORY_LENGTH ==> r == Err::<(), RuntimeError>(
                    RuntimeError::OOBSet(p, value),
                ) && final(self).buffer@ == old(self).buffer@
            }),
    {
        let p = wrapping_offset(self.data_pointer, delta);
        if p < self.buffer.len() {
            self.buffer.set(p, value);
            Ok(())
        } else {
            Err(RuntimeError::OOBSet(p, value))
        }
    }

    /// Adds to the cell at `delta` from the pointer, modulo 256.
    pub fn add_with_offset(&mut self, delta: isize, value: u8) -> (r: Result<(), RuntimeError>)
        requires
            old(self).wf(),
        ensures
            final(self).wf(),
            final(self).data_pointer == old(self).data_pointer,
            ({
                let p = moved(old(self).data_pointer, delta as int);
                &&& p < MEMORY_LENGTH ==> r is Ok && final(self).buffer@ == old(
                    self,
                ).buffer@.update(p as int, cell_add(old(self).buffer@[p as int], value))
                &&& p >= MEMORY_LENGTH ==> r == Err::<(), RuntimeError>(
                    RuntimeError::OOBAdd(p, value),
                ) && final(self).buffer@ == old(self).buffer@
            }),
    {
        let p = wrapping_offset(self.data_pointer, delta);
        if p < self.buffer.len() {
            self.add_unchecked(p, value);
            Ok(())
        } else {
            Err(RuntimeError::OOBAdd(p, value))
        }
    }

    /// Subtracts from the cell at `delta` from the pointer, modulo 256.
    pub fn sub_with_offset(&mut self, delta: isize, value: u8) -> (r: Result<(), RuntimeError>)
        requires
            old(self).wf(),
        ensures
            final(self).wf(),
            final(self).data_pointer == old(self).data_pointer,
            ({
                let p = moved(old(self).data_pointer, delta as int);
                &&& p < MEMORY_LENGTH ==> r is Ok && final(self).buffer@ == old(
                    self,
                ).buffer@.update(p as int, cell_sub(old(self).buffer@[p as int], value))
                &&& p >= MEMORY_LENGTH ==> r == Err::<(), RuntimeError>(
                    RuntimeError::OOBSub(p, value),
                ) && final(self).buffer@ == old(self).buffer@
            }),
    {
        let p = wrapping_offset(self.data_pointer, delta);
        if p < self.buffer.len() {
            self.sub_unchecked(p, value);
            Ok(())
        } else {
            Err(RuntimeError::OOBSub(p, value))
        }
    }

    /// Moves the pointer; no access happens, so no bound is checked.
    pub fn step(&mut self, delta: isize)
        requires
            old(self).wf(),
        ensures
            final(self).wf(),
            final(self).buffer@ == old(self).buffer@,
            final(self).data_pointer == moved(old(self).data_pointer, delta as int),
    {
        self.data_pointer = wrapping_offset(self.data_pointer, delta);
    }

    /// The cell at address `i`, known to be on the tape.
    pub fn get_unchecked(&self, i: usize) -> (r: u8)
        requires
            self.wf(),
            i < MEMORY_LENGTH,
        ensures
            r == self.buffer@[i as int],
    {
        self.buffer[i]
    }

    /// Overwrites the cell at address `i`, known to be on the tape.
    pub fn set_unchecked(&mut self, i: usize, value: u8)
        requires
            old(self).wf(),
            i < MEMORY_LENGTH,
        ensures
            final(self).wf(),
            final(self).data_pointer == old(self).data_pointer,
            final(self).buffer@ == old(self).buffer@.update(i as int, value),
    {
        self.buffer.set(i, value);
    }

    /// Adds to the cell at address `i`, known to be on the tape.
    pub fn add_unchecked(&mut self, i: usize, value: u8)
        requires
            old(self).wf(),
            i < MEMORY_LENGTH,
        ensures
            final(self).wf(),
            final(self).data_pointer == old(self).data_pointer,
            final(self).buffer@ == old(self).buffer@.update(
                i as int,
                cell_add(old(self).buffer@[i as int], value),
            ),
    {
        let v = self.buffer[i].wrapping_add(value);
        self.buffer.set(i, v);
    }

    /// Subtracts from the cell at address `i`, known to be on the tape.
    pub fn sub_unchecked(&mut self, i: usize, value: u8)
        requires
            old(self).wf(),
            i < MEMORY_LENGTH,
        ensures
            final(self).wf(),
            final(self).data_pointer == old(self).data_pointer,
            final(self).buffer@ == old(self).buffer@.update(
                i as int,
                cell_sub(old(self).buffer@[i as int], value),
            ),
    {
        let v = self.buffer[i].wrapping_sub(value);
        self.buffer.set(i, v);
    }
}


/// An exclusive view of a tape for the fast path: it keeps a live pointer
/// of its own and offers reads and writes whose bounds the caller has
/// already established. `release` writes the live pointer back.
pub struct UnsafeTape {
    pub inner: Tape,
    pub data_pointer: usize,
}

impl UnsafeTape {
    pub open spec fn live_pointer(&self) -> usize {
        self.data_pointer
    }

    pub open spec fn wf(&self) -> bool {
        self.inner.wf()
    }

    /// Takes the tape; the live pointer starts at the tape's pointer.
    pub fn new(tape: Tape) -> (r: UnsafeTape)
        ensures
            r.inner == tape,
            r.live_pointer() == tape.data_pointer,
    {
        let data_pointer = tape.data_pointer;
        UnsafeTape { inner: tape, data_pointer }
    }

    /// Hands the tape back with the live pointer written into it.
    pub fn release(self) -> (r: Tape)
        ensures
            r.buffer == self.inner.buffer,
            r.data_pointer == self.live_pointer(),
    {
        let mut t = self.inner;
        t.data_pointer = self.data_pointer;
        t
    }

    /// The live pointer.
    pub fn get_ptr(&self) -> (r: usize)
        ensures
            r == self.live_pointer(),
    {
        self.data_pointer
    }

    /// Whether the cell at `offset` from the live pointer is on the tape.
    pub fn rangecheck(&self, offset: isize) -> (r: bool)
        ensures
            r == (moved(self.live_pointer(), offset as int) < MEMORY_LENGTH),
    {
        wrapping_offset(self.data_pointer, offset) < MEMORY_LENGTH
    }

    /// Moves the live pointer; no access happens.
    pub fn step_ptr(&mut self, delta: isize)
        ensures
            final(self).inner == old(self).inner,
            final(self).live_pointer() == moved(old(self).live_pointer(), delta as int),
    {
        self.data_pointer = wrapping_offset(self.data_pointer, delta);
    }

    /// Checked read at an absolute address.
    pub fn get_safe(&self, abs_ptr: usize) -> (r: Result<u8, RuntimeError>)
        requires
            self.wf(),
        ensures
            abs_ptr < MEMORY_LENGTH ==> r == Ok::<u8, RuntimeError>(self.inner.buffer@[abs_ptr as int]),
            abs_ptr >= MEMORY_LENGTH ==> r == Err::<u8, RuntimeError>(RuntimeError::OOBGet(abs_ptr)),
    {
        if abs_ptr < self.inner.buffer.len() {
            Ok(self.inner.buffer[abs_ptr])
        } else {
            Err(RuntimeError::OOBGet(abs_ptr))
        }
    }

    /// Checked write at an absolute address.
    pub fn set_safe(&mut self, abs_ptr: usize, value: u8) -> (r: Result<(), RuntimeError>)
        requires
            old(self).wf(),
        ensures
            final(self).wf(),
            final(self).live_pointer() == old(self).live_pointer(),
            final(self).inner.data_pointer == old(self).inner.data_pointer,
            abs_ptr < MEMORY_LENGTH ==> r is Ok && final(self).inner.buffer@ == old(
                self,
            ).inner.buffer@.update(abs_ptr as int, value),
            abs_ptr >= MEMORY_LENGTH ==> r == Err::<(), RuntimeError>(
                RuntimeError::OOBSet(abs_ptr, value),
            ) && final(self).inner.buffer@ == old(self).inner.buffer@,
    {
        if abs_ptr < self.inner.buffer.len() {
            self.inner.set_unchecked(abs_ptr, value);
            Ok(())
        } else {
            Err(RuntimeError::OOBSet(abs_ptr, value))
        }
    }

    /// Checked addition at an absolute address.
    pub fn add_safe(&mut self, abs_ptr: usize, value: u8) -> (r: Result<(), RuntimeError>)
        requires
            old(self).wf(),
        ensures
            final(self).wf(),
            final(self).live_pointer() == old(self).live_pointer(),
            final(self).inner.data_pointer == old(self).inner.data_pointer,
            abs_ptr < MEMORY_LENGTH ==> r is Ok && final(self).inner.buffer@ == old(
                self,
            ).inner.buffer@.update(
                abs_ptr as int,
                cell_add(old(self).inner.buffer@[abs_ptr as int], value),
            ),
            abs_ptr >= MEMORY_LENGTH ==> r == Err::<(), RuntimeError>(
                RuntimeError::OOBAdd(abs_ptr, value),
            ) && final(self).inner.buffer@ == old(self).inner.buffer@,
    {
        if abs_ptr < self.inner.buffer.len() {
            self.inner.add_unchecked(abs_ptr, value);
            Ok(())
        } else {
            Err(RuntimeError::OOBAdd(abs_ptr, value))
        }
    }

    /// The cell under the live pointer, which the caller knows is on the tape.
    pub fn get(&self) -> (r: u8)
        requires
            self.wf(),
            self.live_pointer() < MEMORY_LENGTH,
        ensures
            r == self.inner.buffer@[self.live_pointer() as int],
    {
        self.inner.get_unchecked(self.data_pointer)
    }

    /// Overwrites the cell under the live pointer, known to be on the tape.
    pub fn set(&mut self, value: u8)
        requires
            old(self).wf(),
            old(self).live_pointer() < MEMORY_LENGTH,
        ensures
            final(self).wf(),
            final(self).live_pointer() == old(self).live_pointer(),
            final(self).inner.data_pointer == old(self).inner.data_pointer,
            final(self).inner.buffer@ == old(self).inner.buffer@.update(
                old(self).live_pointer() as int,
                value,
            ),
    {
        self.inner.set_unchecked(self.data_pointer, value);
    }

    /// Adds to the cell under the live pointer, known to be on the tape.
    pub fn add(&mut self, value: u8)
        requires
            old(self).wf(),
            old(self).live_pointer() < MEMORY_LENGTH,
        ensures
            final(self).wf(),
            final(self).live_pointer() == old(self).live_pointer(),
            final(self).inner.data_pointer == old(self).inner.data_pointer,
            final(self).inner.buffer@ == old(self).inner.buffer@.update(
                old(self).live_pointer() as int,
                cell_add(old(self).inner.buffer@[old(self).live_pointer() as int], value),
            ),
    {
        self.inner.add_unchecked(self.data_pointer, value);
    }

    /// Adds to the cell at `offset` from the live pointer, known to be on the tape.
    pub fn add_with_offset(&mut self, offset: isize, value: u8)
        requires
            old(self).wf(),
            moved(old(self).live_pointer(), offset as int) < MEMORY_LENGTH,
        ensures
            final(self).wf(),
            final(self).live_pointer() == old(self).live_pointer(),
            final(self).inner.data_pointer == old(self).inner.data_pointer,
            ({
                let p = moved(old(self).live_pointer(), offset as int) as int;
                final(self).inner.buffer@ == old(self).inner.buffer@.update(
                    p,
                    cell_add(old(self).inner.buffer@[p], value),
                )
            }),
    {
        let p = wrapping_offset(self.data_pointer, offset);
        self.inner.add_unchecked(p, value);
    }

    /// Subtracts from the cell at `offset` from the live pointer, known to be on the tape.
    pub fn sub_with_offset(&mut self, offset: isize, value: u8)
        requires
            old(self).wf(),
            moved(old(self).live_pointer(), offset as int) < MEMORY_LENGTH,
        ensures
            final(self).wf(),
            final(self).live_pointer() == old(self).live_pointer(),
            final(self).inner.data_pointer == old(self).inner.data_pointer,
            ({
                let p = moved(old(self).live_pointer(), offset as int) as int;
                final(self).inner.buffer@ == old(self).inner.buffer@.update(
                    p,
                    cell_sub(old(self).inner.buffer@[p], value),
                )
            }),
    {
        let p = wrapping_offset(self.data_pointer, offset);
        self.inner.sub_unchecked(p, value);
    }
}

} // verus!
