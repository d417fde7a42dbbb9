use vstd::prelude::*;
use crate::error::RangeError;
use crate::ir::{IR, IROp};
use crate::tape::MEMORY_LENGTH;

verus! {

/// The pointer is out of a `Positive` range: it reached the bound.
pub fn positive_is_out_of_range(range: u16, pointer: usize) -> (r: bool)
    ensures
        r == (pointer >= range),
{
    pointer >= range as usize
}

/// The pointer is out of a `Negative` range: it is below the bound.
pub fn negative_is_out_of_range(range: u16, pointer: usize) -> (r: bool)
    ensures
        r == (pointer < range),
{
    pointer < (range as usize)
}

/// A closed window `[negative, positive]` of IR pointer values; empty when
/// `negative > positive`.
#[derive(Debug, Clone, Copy, PartialEq, Eq, Structural)]
pub struct Range {
    pub positive: isize,
    pub negative: isize,
}

pub open spec fn empty_window() -> Range {
    Range { positive: isize::MIN, negative: isize::MAX }
}

pub open spec fn widen(r: Range, p: isize) -> Range {
    Range {
        positive: if p > r.positive {
            p
        } else {
            r.positive
        },
        negative: if p < r.negative {
            p
        } else {
            r.negative
        },
    }
}

pub open spec fn join(r: Range, o: Range) -> Range {
    Range {
        positive: if o.positive > r.positive {
            o.positive
        } else {
            r.positive
        },
        negative: if o.negative < r.negative {
            o.negative
        } else {
            r.negative
        },
    }
}

pub open spec fn widen_mul(r: Range, dests: Seq<(isize, u8)>) -> Range
    decreases dests.len(),
{
    if dests.len() == 0 {
        r
    } else {
        widen(widen_mul(r, dests.drop_last()), dests.last().0)
    }
}

pub open spec fn widen_moves(r: Range, dests: Seq<(isize, bool)>) -> Range
    decreases dests.len(),
{
    if dests.len() == 0 {
        r
    } else {
        widen(widen_moves(r, dests.drop_last()), dests.last().0)
    }
}

impl Range {
    /// Widens the window to hold `pointer`.
    pub fn subscribe(&mut self, pointer: isize)
        ensures
            *final(self) == widen(*old(self), pointer),
    {
        if pointer > self.positive {
            self.positive = pointer;
        }
        if pointer < self.negative {
            self.negative = pointer;
        }
    }

    /// Widens the window to hold `range`.
    pub fn subscribe_from_range(&mut self, range: Range)
        ensures
            *final(self) == join(*old(self), range),
    {
        if range.positive > self.positive {
            self.positive = range.positive;
        }
        if range.negative < self.negative {
            self.negative = range.negative;
        }
    }
}

/// The window recorded for a pointer-moving operation, with the pointer at
/// which that operation works.
#[derive(Debug, Clone, Copy, PartialEq, Eq, Structural)]
pub struct RSMapElement {
    pub pointer: isize,
    pub range: Range,
}

/// The state of the right-to-left scan: a window per IR index (for the
/// pointer-moving ones), the windows saved at loop ends, and the window of
/// cells used since the last pointer-moving operation.
pub struct ScanState {
    pub map: Seq<Option<RSMapElement>>,
    pub stack: Seq<Range>,
    pub curr: Range,
}

pub open spec fn scan_init(n: nat) -> ScanState {
    ScanState {
        map: Seq::new(n, |_i: int| None::<RSMapElement>),
        stack: Seq::empty(),
        curr: empty_window(),
    }
}

/// The scan's effect of the operation at index `i` (the ones after `i`
/// being done).
pub open spec fn scan_step(ir: Seq<IR>, i: int, st: ScanState) -> ScanState {
    let p = ir[i].pointer;
    let op = ir[i].opcode;
    let st1 = if op is LoopEnd || op is LoopEndWithOffset {
        ScanState { stack: st.stack.push(st.curr), ..st }
    } else {
        st
    };
    let cur = widen(st1.curr, p);
    match op {
        IROp::Shift(_) | IROp::LoopEndWithOffset(_, _) => ScanState {
            map: st1.map.update(i, Some(RSMapElement { pointer: p, range: cur })),
            stack: st1.stack,
            curr: Range { positive: p, negative: p },
        },
        IROp::MulAndSetZero(d) => ScanState { curr: widen_mul(cur, d@), ..st1 },
        IROp::MovesAndSetZero(d) => ScanState { curr: widen_moves(cur, d@), ..st1 },
        IROp::MoveAdd(d) => ScanState { curr: widen(cur, d), ..st1 },
        IROp::MoveSub(d) => ScanState { curr: widen(cur, d), ..st1 },
        IROp::LoopStart(end) => {
            let e = end as int;
            let map = if 0 <= e < st1.map.len() && ir[e].opcode is LoopEndWithOffset
                && st1.map[e] is Some {
                let old_e = st1.map[e]->Some_0;
                st1.map.update(
                    e,
                    Some(RSMapElement { pointer: p, range: join(old_e.range, cur) }),
                )
            } else {
                st1.map
            };
            let scope = if st1.stack.len() > 0 {
                st1.stack.last()
            } else {
                empty_window()
            };
            let stack = if st1.stack.len() > 0 {
                st1.stack.drop_last()
            } else {
                st1.stack
            };
            ScanState { map, stack, curr: join(cur, scope) }
        },
        _ => ScanState { curr: cur, ..st1 },
    }
}

/// The scan state once the operations at indices `k..` are done.
pub open spec fn scan(ir: Seq<IR>, k: nat) -> ScanState
    decreases ir.len() - k,
{
    if k >= ir.len() {
        scan_init(ir.len())
    } else {
        scan_step(ir, k as int, scan(ir, k + 1))
    }
}


/// The mutable state of the scan.
pub struct InternalRangeState {
    pub map: Vec<Option<RSMapElement>>,
    pub scope_stack: Vec<Range>,
    pub curr: Range,
}

impl InternalRangeState {
    pub open spec fn view_state(&self) -> ScanState {
        ScanState { map: self.map@, stack: self.scope_stack@, curr: self.curr }
    }

    /// The state before any operation of an IR of `len` operations.
    pub fn new(len: usize) -> (r: InternalRangeState)
        ensures
            r.view_state() == scan_init(len as nat),
    {
        let mut map: Vec<Option<RSMapElement>> = Vec::new();
        while map.len() < len
            invariant
                map@.len() <= len,
                forall|i: int| 0 <= i < map@.len() ==> map@[i] is None,
            decreases len - map@.len(),
        {
            map.push(None);
        }
        assert(map@ =~= scan_init(len as nat).map);
        InternalRangeState {
            map,
            scope_stack: Vec::new(),
            curr: Range { positive: isize::MIN, negative: isize::MAX },
        }
    }

    /// Widens the current window to hold `pointer`.
    pub fn subscribe(&mut self, pointer: isize)
        ensures
            final(self).view_state() == (ScanState {
                curr: widen(old(self).curr, pointer),
                ..old(self).view_state()
            }),
    {
        self.curr.subscribe(pointer);
    }

    /// Records the current window at `ir_at` and starts a new one at `pointer`.
    pub fn insert(&mut self, ir_at: usize, pointer: isize)
        requires
            ir_at < old(self).map@.len(),
        ensures
            final(self).view_state() == (ScanState {
                map: old(self).map@.update(
                    ir_at as int,
                    Some(RSMapElement { pointer, range: old(self).curr }),
                ),
                stack: old(self).scope_stack@,
                curr: Range { positive: pointer, negative: pointer },
            }),
    {
        self.map.set(ir_at, Some(RSMapElement { pointer, range: self.curr }));
        self.curr = Range { positive: pointer, negative: pointer };
    }

    /// Saves the current window at a loop end.
    pub fn push_loopend(&mut self)
        ensures
            final(self).view_state() == (ScanState {
                stack: old(self).scope_stack@.push(old(self).curr),
                ..old(self).view_state()
            }),
    {
        self.scope_stack.push(self.curr);
    }

    /// At a loop start: the window saved at the matching loop end joins the
    /// current one, since the loop may run zero times.
    pub fn pop_loopstart(&mut self)
        ensures
            ({
                let o = old(self).view_state();
                let scope = if o.stack.len() > 0 {
                    o.stack.last()
                } else {
                    empty_window()
                };
                final(self).view_state() == ScanState {
                    map: o.map,
                    stack: if o.stack.len() > 0 {
                        o.stack.drop_last()
                    } else {
                        o.stack
                    },
                    curr: join(o.curr, scope),
                }
            }),
    {
        match self.scope_stack.pop() {
            Some(scope) => self.curr.subscribe_from_range(scope),
            None => {},
        }
    }

    /// At a loop start at `pointer`: the loop may run again after its end at
    /// `ir_at`, so the window recorded there joins the current one. After
    /// that end, both the next pass and the code after the loop work
    /// relative to the loop start's pointer, so the entry is anchored there.
    pub fn apply_loop(&mut self, ir_at: usize, pointer: isize)
        requires
            ir_at < old(self).map@.len(),
            old(self).map@[ir_at as int] is Some,
        ensures
            ({
                let o = old(self).view_state();
                let e = o.map[ir_at as int]->Some_0;
                final(self).view_state() == ScanState {
                    map: o.map.update(
                        ir_at as int,
                        Some(RSMapElement { pointer, range: join(e.range, o.curr) }),
                    ),
                    ..o
                }
            }),
    {
        let e = self.map[ir_at].unwrap();
        let mut range = e.range;
        range.subscribe_from_range(self.curr);
        self.map.set(ir_at, Some(RSMapElement { pointer, range }));
    }
}

/// Where the pointer may be for the rest of the program, up to the next
/// pointer-moving operation, to stay on the tape.
#[derive(Debug, Clone, Copy, PartialEq, Eq, Structural)]
pub enum MemoryRange {
    /// Anywhere on the tape.
    Unbounded,
    /// Below the bound.
    Positive(u16),
    /// At or above the bound.
    Negative(u16),
    /// In `[negative, positive)`.
    Both { positive: u16, negative: u16 },
}

/// The pointer satisfies the range.
pub open spec fn in_range(r: MemoryRange, pointer: usize) -> bool {
    match r {
        MemoryRange::Unbounded => true,
        MemoryRange::Positive(b) => pointer < b,
        MemoryRange::Negative(b) => pointer >= b,
        MemoryRange::Both { positive, negative } => negative <= pointer && pointer < positive,
    }
}

pub open spec fn fits_u16(x: int) -> bool {
    0 <= x <= u16::MAX
}

/// The range that a recorded window gives, or `None` when a bound does not
/// fit `u16`.
pub open spec fn memory_range_of(e: RSMapElement) -> Option<MemoryRange> {
    let p = e.pointer as int;
    let hi = e.range.positive as int;
    let lo = e.range.negative as int;
    let pb = MEMORY_LENGTH - (hi - p);
    let nb = p - lo;
    if p == hi && p == lo {
        Some(MemoryRange::Unbounded)
    } else if p == lo {
        if fits_u16(pb) {
            Some(MemoryRange::Positive(pb as u16))
        } else {
            None
        }
    } else if p == hi {
        if fits_u16(nb) {
            Some(MemoryRange::Negative(nb as u16))
        } else {
            None
        }
    } else if fits_u16(pb) && fits_u16(nb) {
        Some(MemoryRange::Both { positive: pb as u16, negative: nb as u16 })
    } else {
        None
    }
}

/// The converted entry of a scanned map: `None` where nothing was recorded.
pub open spec fn entry_range(e: Option<RSMapElement>) -> Option<MemoryRange> {
    match e {
        Some(x) => memory_range_of(x),
        None => None,
    }
}

pub open spec fn entry_fits(e: Option<RSMapElement>) -> bool {
    e is Some ==> memory_range_of(e->Some_0) is Some
}

/// The final window lies on the tape.
pub open spec fn window_on_tape(r: Range) -> bool {
    r.negative >= 0 && r.positive < MEMORY_LENGTH
}

/// The range of every pointer-moving IR operation (`None` for the others),
/// and whether execution can start in the optimized tier.
pub struct RangeInfo {
    pub map: Vec<Option<MemoryRange>>,
    pub do_opt_first: bool,
}

fn convert_entry(e: RSMapElement) -> (r: Option<MemoryRange>)
    ensures
        r == memory_range_of(e),
{
    let p = e.pointer as i128;
    let hi = e.range.positive as i128;
    let lo = e.range.negative as i128;
    let pb: i128 = 65536 - (hi - p);
    let nb: i128 = p - lo;
    if p == hi && p == lo {
        Some(MemoryRange::Unbounded)
    } else if p == lo {
        if 0 <= pb && pb <= 65535 {
            Some(MemoryRange::Positive(pb as u16))
        } else {
            None
        }
    } else if p == hi {
        if 0 <= nb && nb <= 65535 {
            Some(MemoryRange::Negative(nb as u16))
        } else {
            None
        }
    } else if 0 <= pb && pb <= 65535 && 0 <= nb && nb <= 65535 {
        Some(MemoryRange::Both { positive: pb as u16, negative: nb as u16 })
    } else {
        None
    }
}

impl RangeInfo {
    /// Converts every recorded window; fails at the lowest index whose
    /// bounds do not fit `u16`.
    pub fn from(internal_ri: &InternalRangeState) -> (r: Result<RangeInfo, RangeError>)
        ensures
            match r {
                Ok(ri) => {
                    &&& ri.map@.len() == internal_ri.map@.len()
                    &&& forall|i: int|
                        0 <= i < ri.map@.len() ==> #[trigger] ri.map@[i] == entry_range(
                            internal_ri.map@[i],
                        )
                    &&& forall|i: int|
                        0 <= i < ri.map@.len() ==> entry_fits(#[trigger] internal_ri.map@[i])
                    &&& ri.do_opt_first == window_on_tape(internal_ri.curr)
                },
                Err(RangeError::Overflow(i)) => {
                    &&& i < internal_ri.map@.len()
                    &&& !entry_fits(internal_ri.map@[i as int])
                    &&& forall|j: int| 0 <= j < i ==> entry_fits(#[trigger] internal_ri.map@[j])
                },
            },
    {
        let n = internal_ri.map.len();
        let mut map: Vec<Option<MemoryRange>> = Vec::new();
        let mut i: usize = 0;
        while i < n
            invariant
                n == internal_ri.map@.len(),
                i <= n,
                map@.len() == i,
                forall|j: int| 0 <= j < i ==> #[trigger] map@[j] == entry_range(internal_ri.map@[j]),
                forall|j: int| 0 <= j < i ==> entry_fits(#[trigger] internal_ri.map@[j]),
            decreases n - i,
        {
            match internal_ri.map[i] {
                Some(e) => {
                    match convert_entry(e) {
                        Some(m) => map.push(Some(m)),
                        None => {
                            return Err(RangeError::Overflow(i));
                        },
                    }
                },
                None => map.push(None),
            }
            i = i + 1;
        }
        let curr = internal_ri.curr;
        Ok(RangeInfo { map, do_opt_first: curr.negative >= 0 && curr.positive < 65536 })
    }
}


pub open spec fn moves_pointer(op: IROp) -> bool {
    op is Shift || op is LoopEndWithOffset
}

pub proof fn lemma_scan_map_len(ir: Seq<IR>, k: nat)
    ensures
        scan(ir, k).map.len() == ir.len(),
    decreases ir.len() - k,
{
    if k < ir.len() {
        lemma_scan_map_len(ir, k + 1);
    }
}

/// The scan depends on the operations' views only.
pub proof fn lemma_scan_congruent(a: Seq<IR>, b: Seq<IR>, k: nat)
    requires
        crate::ir::ir_views(a) == crate::ir::ir_views(b),
    ensures
        scan(a, k) == scan(b, k),
    decreases a.len() - k,
{
    assert(a.len() == crate::ir::ir_views(a).len());
    assert(b.len() == crate::ir::ir_views(b).len());
    assert forall|j: int| 0 <= j < a.len() implies #[trigger] a[j]@ == b[j]@ by {
        assert(crate::ir::ir_views(a)[j] == a[j]@);
        assert(crate::ir::ir_views(b)[j] == b[j]@);
    }
    if k < a.len() {
        lemma_scan_congruent(a, b, k + 1);
        lemma_scan_map_len(a, k + 1);
        let st = scan(a, k + 1);
        assert(a[k as int]@ == b[k as int]@);
        crate::ir::lemma_op_view_eq(a[k as int].opcode, b[k as int].opcode);
        let e = a[k as int].opcode;
        if e is LoopStart {
            let end = e->LoopStart_0 as int;
            if 0 <= end < a.len() {
                assert(a[end]@ == b[end]@);
                crate::ir::lemma_op_view_eq(a[end].opcode, b[end].opcode);
            }
        }
        assert(scan_step(a, k as int, st) == scan_step(b, k as int, st));
    }
}

/// The scan records a window exactly at the pointer-moving operations it
/// has passed.
proof fn lemma_scan_domain(ir: Seq<IR>, k: nat)
    requires
        k <= ir.len(),
    ensures
        scan(ir, k).map.len() == ir.len(),
        forall|i: int|
            0 <= i < ir.len() ==> (#[trigger] scan(ir, k).map[i] is Some <==> (k <= i
                && moves_pointer(ir[i].opcode))),
    decreases ir.len() - k,
{
    if k < ir.len() {
        lemma_scan_domain(ir, k + 1);
    }
}

fn widen_by_mul(st: &mut InternalRangeState, dests: &Vec<(isize, u8)>)
    ensures
        final(st).view_state() == (ScanState {
            curr: widen_mul(old(st).curr, dests@),
            ..old(st).view_state()
        }),
{
    let ghost start = st.curr;
    let mut j: usize = 0;
    while j < dests.len()
        invariant
            j <= dests@.len(),
            st.map@ == old(st).map@,
            st.scope_stack@ == old(st).scope_stack@,
            st.curr == widen_mul(start, dests@.take(j as int)),
            start == old(st).curr,
        decreases dests@.len() - j,
    {
        proof {
            assert(dests@.take(j + 1).drop_last() =~= dests@.take(j as int));
        }
        st.subscribe(dests[j].0);
        j = j + 1;
    }
    assert(dests@.take(j as int) =~= dests@);
}

fn widen_by_moves(st: &mut InternalRangeState, dests: &Vec<(isize, bool)>)
    ensures
        final(st).view_state() == (ScanState {
            curr: widen_moves(old(st).curr, dests@),
            ..old(st).view_state()
        }),
{
    let ghost start = st.curr;
    let mut j: usize = 0;
    while j < dests.len()
        invariant
            j <= dests@.len(),
            st.map@ == old(st).map@,
            st.scope_stack@ == old(st).scope_stack@,
            st.curr == widen_moves(start, dests@.take(j as int)),
            start == old(st).curr,
        decreases dests@.len() - j,
    {
        proof {
            assert(dests@.take(j + 1).drop_last() =~= dests@.take(j as int));
        }
        st.subscribe(dests[j].0);
        j = j + 1;
    }
    assert(dests@.take(j as int) =~= dests@);
}

/// Scans the IR right to left and converts the windows into ranges: an
/// entry exactly at each `Shift` and `LoopEndWithOffset`.
pub fn generate_range_info(ir_nodes: &Vec<IR>) -> (r: Result<RangeInfo, RangeError>)
    ensures
        ({
            let st = scan(ir_nodes@, 0);
            match r {
                Ok(ri) => {
                    &&& ri.map@.len() == ir_nodes@.len()
                    &&& forall|i: int|
                        0 <= i < ri.map@.len() ==> #[trigger] ri.map@[i] == entry_range(st.map[i])
                    &&& forall|i: int|
                        0 <= i < ri.map@.len() ==> (#[trigger] ri.map@[i] is Some <==> moves_pointer(
                            ir_nodes@[i].opcode,
                        ))
                    &&& ri.do_opt_first == window_on_tape(st.curr)
                    &&& forall|i: int| 0 <= i < ir_nodes@.len() ==> entry_fits(#[trigger] st.map[i])
                },
                Err(RangeError::Overflow(i)) => {
                    &&& i < ir_nodes@.len()
                    &&& !entry_fits(st.map[i as int])
                    &&& forall|j: int| 0 <= j < i ==> entry_fits(#[trigger] st.map[j])
                },
            }
        }),
{
    let n = ir_nodes.len();
    let mut st = InternalRangeState::new(n);
    let mut k: usize = n;
    while k > 0
        invariant
            k <= n,
            n == ir_nodes@.len(),
            st.view_state() == scan(ir_nodes@, k as nat),
        decreases k,
    {
        k = k - 1;
        proof {
            lemma_scan_domain(ir_nodes@, (k + 1) as nat);
            assert(scan(ir_nodes@, k as nat) == scan_step(
                ir_nodes@,
                k as int,
                scan(ir_nodes@, (k + 1) as nat),
            ));
        }
        let pointer = ir_nodes[k].pointer;
        match &ir_nodes[k].opcode {
            IROp::LoopEnd(_) => {
                st.push_loopend();
                st.subscribe(pointer);
            },
            IROp::LoopEndWithOffset(_, _) => {
                st.push_loopend();
                st.subscribe(pointer);
                st.insert(k, pointer);
            },
            IROp::Shift(_) => {
                st.subscribe(pointer);
                st.insert(k, pointer);
            },
            IROp::MulAndSetZero(dests) => {
                st.subscribe(pointer);
                widen_by_mul(&mut st, dests);
            },
            IROp::MovesAndSetZero(dests) => {
                st.subscribe(pointer);
                widen_by_moves(&mut st, dests);
            },
            IROp::MoveAdd(dest) => {
                st.subscribe(pointer);
                st.subscribe(*dest);
            },
            IROp::MoveSub(dest) => {
                st.subscribe(pointer);
                st.subscribe(*dest);
            },
            IROp::LoopStart(end) => {
                st.subscribe(pointer);
                let e = *end;
                if e < n {
                    let closes_with_offset = match ir_nodes[e].opcode {
                        IROp::LoopEndWithOffset(_, _) => true,
                        _ => false,
                    };
                    if closes_with_offset && st.map[e].is_some() {
                        st.apply_loop(e, pointer);
                    }
                }
                st.pop_loopstart();
            },
            _ => {
                st.subscribe(pointer);
            },
        }
        assert(st.view_state() == scan(ir_nodes@, k as nat));
    }
    proof {
        lemma_scan_domain(ir_nodes@, 0);
    }
    RangeInfo::from(&st)
}

} // verus!
