use vstd::prelude::*;
use crate::error::SyntaxError;
use vstd::string::StringSliceAdditionalSpecFns;

verus! {

/// One IR operation: an opcode and the pointer offset, relative to the
/// pointer at program start, at which it works.
#[derive(Debug, Clone, PartialEq, Eq)]
pub struct IR {
    pub pointer: isize,
    pub opcode: IROp,
}

#[derive(Debug, Clone, PartialEq, Eq)]
pub enum IROp {
    Breakpoint,
    Add(u8),
    SetCell(u8),
    /// While the cell is non-zero, move the pointer by the step.
    Shift(isize),
    /// For each (offset, factor): cell[offset] += cell * factor; then cell = 0.
    MulAndSetZero(Vec<(isize, u8)>),
    /// As `MulAndSetZero` with factors +1 (`true`) or -1 (`false`).
    MovesAndSetZero(Vec<(isize, bool)>),
    MoveAdd(isize),
    MoveSub(isize),
    In,
    Out,
    /// Index of the matching loop end.
    LoopStart(usize),
    /// Index of the matching loop start.
    LoopEnd(usize),
    /// Index of the matching loop start, and the pointer offset from start to end.
    LoopEndWithOffset(usize, isize),
    End,
}

/// The mathematical form of an IR opcode, with sequences for destinations.
pub enum OpView {
    Breakpoint,
    Add(u8),
    SetCell(u8),
    Shift(isize),
    MulAndSetZero(Seq<(isize, u8)>),
    MovesAndSetZero(Seq<(isize, bool)>),
    MoveAdd(isize),
    MoveSub(isize),
    In,
    Out,
    LoopStart(usize),
    LoopEnd(usize),
    LoopEndWithOffset(usize, isize),
    End,
}

pub struct IRView {
    pub pointer: isize,
    pub op: OpView,
}

pub open spec fn op_view(op: IROp) -> OpView {
    match op {
        IROp::Breakpoint => OpView::Breakpoint,
        IROp::Add(v) => OpView::Add(v),
        IROp::SetCell(v) => OpView::SetCell(v),
        IROp::Shift(s) => OpView::Shift(s),
        IROp::MulAndSetZero(d) => OpView::MulAndSetZero(d@),
        IROp::MovesAndSetZero(d) => OpView::MovesAndSetZero(d@),
        IROp::MoveAdd(d) => OpView::MoveAdd(d),
        IROp::MoveSub(d) => OpView::MoveSub(d),
        IROp::In => OpView::In,
        IROp::Out => OpView::Out,
        IROp::LoopStart(e) => OpView::LoopStart(e),
        IROp::LoopEnd(s) => OpView::LoopEnd(s),
        IROp::LoopEndWithOffset(s, o) => OpView::LoopEndWithOffset(s, o),
        IROp::End => OpView::End,
    }
}

impl View for IR {
    type V = IRView;

    open spec fn view(&self) -> IRView {
        IRView { pointer: self.pointer, op: op_view(self.opcode) }
    }
}

/// Two opcodes with the same view agree on everything but the identity of
/// their destination vectors.
pub proof fn lemma_op_view_eq(x: IROp, y: IROp)
    requires
        op_view(x) == op_view(y),
    ensures
        x is MulAndSetZero <==> y is MulAndSetZero,
        x is MovesAndSetZero <==> y is MovesAndSetZero,
        x is MulAndSetZero ==> x->MulAndSetZero_0@ == y->MulAndSetZero_0@,
        x is MovesAndSetZero ==> x->MovesAndSetZero_0@ == y->MovesAndSetZero_0@,
        !(x is MulAndSetZero) && !(x is MovesAndSetZero) ==> x == y,
{
    match x {
        IROp::MulAndSetZero(d) => {
            assert(op_view(y) == OpView::MulAndSetZero(d@));
            assert(y is MulAndSetZero);
        },
        IROp::MovesAndSetZero(d) => {
            assert(op_view(y) == OpView::MovesAndSetZero(d@));
            assert(y is MovesAndSetZero);
        },
        _ => {
            assert(!(y is MulAndSetZero)) by {
                if y is MulAndSetZero {
                    assert(op_view(y) is MulAndSetZero);
                }
            }
            assert(!(y is MovesAndSetZero)) by {
                if y is MovesAndSetZero {
                    assert(op_view(y) is MovesAndSetZero);
                }
            }
        },
    }
}

pub open spec fn ir_views(ir: Seq<IR>) -> Seq<IRView> {
    ir.map_values(|x: IR| x@)
}

/// Scans a loop body for the flat multiplication shape around the control
/// cell `p`: whether the body is still of that shape, whether the one
/// decrement was seen, and the destinations so far.
pub open spec fn fuse_scan(body: Seq<IRView>, p: isize) -> (bool, bool, Seq<(isize, u8)>)
    decreases body.len(),
{
    if body.len() == 0 {
        (true, false, Seq::empty())
    } else {
        let (ok, seen, d) = fuse_scan(body.drop_last(), p);
        let x = body.last();
        if !ok {
            (false, seen, d)
        } else {
            match x.op {
                OpView::Add(v) => if x.pointer == p {
                    if v == 255 && !seen {
                        (true, true, d)
                    } else {
                        (false, seen, d)
                    }
                } else {
                    (true, seen, d.push((x.pointer, v)))
                },
                _ => (false, seen, d),
            }
        }
    }
}

pub open spec fn all_unit(d: Seq<(isize, u8)>) -> bool {
    forall|k: int| 0 <= k < d.len() ==> (#[trigger] d[k]).1 == 1u8 || d[k].1 == 255u8
}

pub open spec fn as_moves(d: Seq<(isize, u8)>) -> Seq<(isize, bool)> {
    d.map_values(|x: (isize, u8)| (x.0, x.1 == 1u8))
}

/// The fused operation of a flat multiplication loop, if the body has the
/// shape: only `Add`s, one `Add(255)` at `p` and no other at `p`, at least
/// one destination.
pub open spec fn fuse_spec(body: Seq<IRView>, p: isize) -> Option<OpView> {
    let (ok, seen, d) = fuse_scan(body, p);
    if ok && seen && d.len() > 0 {
        if all_unit(d) {
            Some(OpView::MovesAndSetZero(as_moves(d)))
        } else {
            Some(OpView::MulAndSetZero(d))
        }
    } else {
        None
    }
}

/// The parser's state after a prefix of the source.
pub struct ParseState {
    pub insts: Seq<IRView>,
    pub stack: Seq<usize>,
    pub pointer: isize,
}

pub open spec fn push_op(st: ParseState, op: OpView) -> ParseState {
    ParseState { insts: st.insts.push(IRView { pointer: st.pointer, op }), ..st }
}

/// `+` (`v == 1`) or `-` (`v == 255`): merges into an `Add` or `SetCell` at
/// the same pointer just before, else a new `Add`.
#[verifier::opaque]
pub open spec fn parse_add(st: ParseState, v: u8) -> ParseState {
    let n = st.insts.len();
    if n > 0 && st.insts[n - 1].pointer == st.pointer && st.insts[n - 1].op is Add {
        ParseState {
            insts: st.insts.update(
                n - 1,
                IRView {
                    pointer: st.pointer,
                    op: OpView::Add(crate::tape::cell_add(st.insts[n - 1].op->Add_0, v)),
                },
            ),
            ..st
        }
    } else if n > 0 && st.insts[n - 1].pointer == st.pointer && st.insts[n - 1].op is SetCell {
        ParseState {
            insts: st.insts.update(
                n - 1,
                IRView {
                    pointer: st.pointer,
                    op: OpView::SetCell(crate::tape::cell_add(st.insts[n - 1].op->SetCell_0, v)),
                },
            ),
            ..st
        }
    } else {
        push_op(st, OpView::Add(v))
    }
}

/// `]`: one of the peephole rules, in order, or a plain loop.
#[verifier::opaque]
pub open spec fn parse_close(st: ParseState) -> Result<ParseState, SyntaxError> {
    if st.stack.len() == 0 {
        Err(SyntaxError::UnmatchedClosingBracket)
    } else {
        let start = st.stack.last() as int;
        let stack = st.stack.drop_last();
        let start_ptr = st.insts[start].pointer;
        let end = st.insts.len() as int;
        let stable = start_ptr == st.pointer;
        let kept = st.insts.take(start);
        if stable && end - start == 2 && st.insts[start + 1] == (IRView {
            pointer: start_ptr,
            op: OpView::Add(255),
        }) {
            Ok(ParseState {
                insts: kept.push(IRView { pointer: st.pointer, op: OpView::SetCell(0) }),
                stack,
                pointer: st.pointer,
            })
        } else if !stable && end - start == 1 {
            Ok(ParseState {
                insts: kept.push(
                    IRView { pointer: start_ptr, op: OpView::Shift((st.pointer - start_ptr) as isize) },
                ),
                stack,
                pointer: start_ptr,
            })
        } else if stable && fuse_spec(st.insts.subrange(start + 1, end), st.pointer) is Some {
            Ok(ParseState {
                insts: kept.push(
                    IRView {
                        pointer: st.pointer,
                        op: fuse_spec(st.insts.subrange(start + 1, end), st.pointer)->Some_0,
                    },
                ),
                stack,
                pointer: st.pointer,
            })
        } else {
            let end_op = if stable {
                OpView::LoopEnd(start as usize)
            } else {
                OpView::LoopEndWithOffset(start as usize, (st.pointer - start_ptr) as isize)
            };
            Ok(ParseState {
                insts: st.insts.update(
                    start,
                    IRView { pointer: start_ptr, op: OpView::LoopStart(end as usize) },
                ).push(IRView { pointer: st.pointer, op: end_op }),
                stack,
                pointer: start_ptr,
            })
        }
    }
}

/// The effect of one source byte.
#[verifier::opaque]
pub open spec fn parse_char(st: ParseState, c: u8) -> Result<ParseState, SyntaxError> {
    if c == 43 {
        Ok(parse_add(st, 1))
    } else if c == 45 {
        Ok(parse_add(st, 255))
    } else if c == 62 {
        Ok(ParseState { pointer: (st.pointer + 1) as isize, ..st })
    } else if c == 60 {
        Ok(ParseState { pointer: (st.pointer - 1) as isize, ..st })
    } else if c == 46 {
        Ok(push_op(st, OpView::Out))
    } else if c == 44 {
        Ok(push_op(st, OpView::In))
    } else if c == 35 {
        Ok(push_op(st, OpView::Breakpoint))
    } else if c == 91 {
        Ok(
            ParseState {
                stack: st.stack.push(st.insts.len() as usize),
                ..push_op(st, OpView::LoopStart(usize::MAX))
            },
        )
    } else if c == 93 {
        parse_close(st)
    } else {
        Ok(st)
    }
}

/// The parser's state after the first `k` bytes, or the first error.
pub open spec fn parse_prefix(code: Seq<u8>, k: nat) -> Result<ParseState, SyntaxError>
    decreases k,
{
    if k == 0 {
        Ok(ParseState { insts: Seq::empty(), stack: Seq::empty(), pointer: 0 })
    } else {
        match parse_prefix(code, (k - 1) as nat) {
            Err(e) => Err(e),
            Ok(st) => parse_char(st, code[k - 1]),
        }
    }
}

/// The IR of a whole source: the scan's operations and a final `End`.
pub open spec fn parse_spec(code: Seq<u8>) -> Result<Seq<IRView>, SyntaxError> {
    match parse_prefix(code, code.len()) {
        Err(e) => Err(e),
        Ok(st) => if st.stack.len() > 0 {
            Err(SyntaxError::UnmatchedOpeningBracket)
        } else {
            Ok(st.insts.push(IRView { pointer: st.pointer, op: OpView::End }))
        },
    }
}

pub open spec fn is_loop_end(op: IROp) -> bool {
    op is LoopEnd || op is LoopEndWithOffset
}

pub open spec fn loop_end_start(op: IROp) -> int {
    match op {
        IROp::LoopEnd(s) => s as int,
        IROp::LoopEndWithOffset(s, _) => s as int,
        _ => -1,
    }
}

/// A loop end sits at its start's pointer; one with an offset sits that
/// (non-zero) offset away from it.
#[verifier::opaque]
pub open spec fn end_pointer_ok(ir: Seq<IR>, e: int) -> bool {
    let s = loop_end_start(ir[e].opcode);
    match ir[e].opcode {
        IROp::LoopEnd(_) => ir[e].pointer == ir[s].pointer,
        IROp::LoopEndWithOffset(_, off) => off != 0 && ir[e].pointer - ir[s].pointer == off,
        _ => true,
    }
}

/// Every loop start names a later loop end that names it back, and
/// every loop end names an earlier loop start that names it back.
pub open spec fn loops_matched(ir: Seq<IR>) -> bool {
    &&& forall|i: int|
        #![trigger ir[i].opcode->LoopStart_0]
        0 <= i < ir.len() && ir[i].opcode is LoopStart ==> {
            let e = ir[i].opcode->LoopStart_0 as int;
            &&& i < e < ir.len()
            &&& is_loop_end(ir[e].opcode)
            &&& loop_end_start(ir[e].opcode) == i
        }
    &&& forall|e: int|
        0 <= e < ir.len() && is_loop_end(#[trigger] ir[e].opcode) ==> {
            let s = loop_end_start(ir[e].opcode);
            &&& 0 <= s < e
            &&& ir[s].opcode == IROp::LoopStart(e as usize)
            &&& end_pointer_ok(ir, e)
        }
}

/// Loops do not cross: a loop that starts inside another also ends inside it.
pub open spec fn loops_nested(ir: Seq<IR>) -> bool {
    forall|a: int, b: int|
        0 <= a < b < ir.len() && (#[trigger] ir[a].opcode) is LoopStart
            && (#[trigger] ir[b].opcode) is LoopStart && b < ir[a].opcode->LoopStart_0
            ==> ir[b].opcode->LoopStart_0 < ir[a].opcode->LoopStart_0
}

/// The fused operations keep their stated shape.
pub open spec fn op_valid(node: IR) -> bool {
    match node.opcode {
        IROp::Shift(step) => step != 0,
        IROp::MulAndSetZero(dests) => dests@.len() > 0 && forall|k: int|
            0 <= k < dests@.len() ==> (#[trigger] dests@[k]).0 != node.pointer,
        IROp::MovesAndSetZero(dests) => dests@.len() > 0 && forall|k: int|
            0 <= k < dests@.len() ==> (#[trigger] dests@[k]).0 != node.pointer,
        IROp::MoveAdd(dest) => dest != node.pointer,
        IROp::MoveSub(dest) => dest != node.pointer,
        _ => true,
    }
}

/// A well-formed IR: a single `End` at the tail, matched and nested loops,
/// and valid fused operations.
pub open spec fn ir_wf(ir: Seq<IR>) -> bool {
    &&& ir.len() > 0
    &&& ir.last().opcode is End
    &&& forall|i: int| 0 <= i < ir.len() - 1 ==> !((#[trigger] ir[i]).opcode is End)
    &&& loops_matched(ir)
    &&& loops_nested(ir)
    &&& forall|i: int| 0 <= i < ir.len() ==> op_valid(#[trigger] ir[i])
}

pub open spec fn bracket_delta(b: u8) -> int {
    if b == 91 {
        1
    } else if b == 93 {
        -1
    } else {
        0
    }
}

/// Number of `[` minus number of `]`.
pub open spec fn depth(s: Seq<u8>) -> int
    decreases s.len(),
{
    if s.len() == 0 {
        0
    } else {
        depth(s.drop_last()) + bracket_delta(s.last())
    }
}

/// Some `]` closes no open `[`.
pub open spec fn closes_unmatched(s: Seq<u8>) -> bool {
    exists|k: int| 0 < k <= s.len() && #[trigger] depth(s.take(k)) < 0
}


pub open spec fn loop_end_of(insts: Seq<IR>, i: int) -> int {
    insts[i].opcode->LoopStart_0 as int
}

/// What holds of the IR built so far and of the stack of open loops while
/// the source is scanned.
#[verifier::opaque]
pub open spec fn parse_state_ok(insts: Seq<IR>, stack: Seq<usize>) -> bool {
    &&& forall|j: int|
        #![trigger stack[j]]
        0 <= j < stack.len() ==> stack[j] < insts.len() && insts[stack[j] as int].opcode
            == IROp::LoopStart(usize::MAX)
    &&& forall|j1: int, j2: int|
        0 <= j1 < j2 < stack.len() ==> #[trigger] stack[j1] < #[trigger] stack[j2]
    &&& forall|i: int|
        #![trigger insts[i].opcode->LoopStart_0]
        0 <= i < insts.len() && insts[i].opcode is LoopStart ==> {
            let e = insts[i].opcode->LoopStart_0 as int;
            &&& e < insts.len() ==> i < e && is_loop_end(insts[e].opcode) && loop_end_start(
                insts[e].opcode,
            ) == i
            &&& e >= insts.len() ==> stack.contains(i as usize)
        }
    &&& forall|e: int|
        0 <= e < insts.len() && is_loop_end(#[trigger] insts[e].opcode) ==> {
            let s = loop_end_start(insts[e].opcode);
            &&& 0 <= s < e
            &&& insts[s].opcode == IROp::LoopStart(e as usize)
            &&& end_pointer_ok(insts, e)
        }
    &&& forall|a: int, b: int|
        0 <= a < b < insts.len() && (#[trigger] insts[a].opcode) is LoopStart && loop_end_of(
            insts,
            a,
        ) < insts.len() && (#[trigger] insts[b].opcode) is LoopStart && b < loop_end_of(insts, a)
            ==> loop_end_of(insts, b) < loop_end_of(insts, a)
    &&& forall|a: int, j: int|
        0 <= a < insts.len() && (#[trigger] insts[a].opcode) is LoopStart && loop_end_of(
            insts,
            a,
        ) < insts.len() && 0 <= j < stack.len() && a < #[trigger] stack[j] ==> loop_end_of(
            insts,
            a,
        ) < stack[j]
    &&& forall|i: int|
        0 <= i < insts.len() ==> !((#[trigger] insts[i]).opcode is End) && op_valid(insts[i])
}

/// An operation that is neither a loop marker nor `End`.
pub open spec fn plain_op(node: IR) -> bool {
    !(node.opcode is LoopStart) && !is_loop_end(node.opcode) && !(node.opcode is End) && op_valid(
        node,
    )
}

proof fn lemma_stack_top(insts: Seq<IR>, stack: Seq<usize>)
    requires
        parse_state_ok(insts, stack),
        stack.len() > 0,
    ensures
        stack.last() < insts.len(),
{
    reveal(parse_state_ok);
    reveal(end_pointer_ok);
}

proof fn lemma_push_plain(insts: Seq<IR>, stack: Seq<usize>, node: IR)
    requires
        parse_state_ok(insts, stack),
        plain_op(node),
        insts.len() < usize::MAX,
    ensures
        parse_state_ok(insts.push(node), stack),
{
    reveal(parse_state_ok);
    reveal(end_pointer_ok);
    let n = insts.push(node);
    assert forall|i: int|
        0 <= i < n.len() && n[i].opcode is LoopStart implies {
            let e = n[i].opcode->LoopStart_0 as int;
            &&& e < n.len() ==> i < e && is_loop_end(n[e].opcode) && loop_end_start(n[e].opcode)
                == i
            &&& e >= n.len() ==> stack.contains(i as usize)
        } by {
        assert(n[i] == insts[i]);
        let e = n[i].opcode->LoopStart_0 as int;
        if e >= n.len() {
            assert(e >= insts.len());
        } else if e == insts.len() {
            assert(stack.contains(i as usize));
            let j = choose|j: int| 0 <= j < stack.len() && stack[j] == i as usize;
            assert(insts[stack[j] as int].opcode == IROp::LoopStart(usize::MAX));
        } else {
            assert(n[e] == insts[e]);
        }
    }
    assert forall|a: int, b: int|
        0 <= a < b < n.len() && (#[trigger] n[a].opcode) is LoopStart && loop_end_of(n, a) < n.len()
            && (#[trigger] n[b].opcode) is LoopStart && b < loop_end_of(n, a) implies loop_end_of(
        n,
        b,
    ) < loop_end_of(n, a) by {
        assert(n[a] == insts[a]);
        if loop_end_of(n, a) == insts.len() {
            assert(stack.contains(a as usize));
            let j = choose|j: int| 0 <= j < stack.len() && stack[j] == a as usize;
            assert(insts[a].opcode == IROp::LoopStart(usize::MAX));
        }
        assert(n[b] == insts[b]);
    }
    assert forall|a: int, j: int|
        0 <= a < n.len() && (#[trigger] n[a].opcode) is LoopStart && loop_end_of(n, a) < n.len()
            && 0 <= j < stack.len() && a < #[trigger] stack[j] implies loop_end_of(n, a)
        < stack[j] by {
        assert(n[a] == insts[a]);
        if loop_end_of(n, a) == insts.len() {
            assert(stack.contains(a as usize));
            let j2 = choose|j2: int| 0 <= j2 < stack.len() && stack[j2] == a as usize;
            assert(insts[a].opcode == IROp::LoopStart(usize::MAX));
        }
    }
}


proof fn lemma_open(insts: Seq<IR>, stack: Seq<usize>, pointer: isize)
    requires
        parse_state_ok(insts, stack),
        insts.len() < usize::MAX,
    ensures
        parse_state_ok(
            insts.push(IR { pointer, opcode: IROp::LoopStart(usize::MAX) }),
            stack.push(insts.len() as usize),
        ),
{
    reveal(parse_state_ok);
    reveal(end_pointer_ok);
    let n = insts.push(IR { pointer, opcode: IROp::LoopStart(usize::MAX) });
    let st = stack.push(insts.len() as usize);
    assert forall|j: int| 0 <= j < stack.len() implies #[trigger] st[j] == stack[j] by {}
    assert forall|i: int|
        0 <= i < n.len() && n[i].opcode is LoopStart implies {
            let e = n[i].opcode->LoopStart_0 as int;
            &&& e < n.len() ==> i < e && is_loop_end(n[e].opcode) && loop_end_start(n[e].opcode)
                == i
            &&& e >= n.len() ==> st.contains(i as usize)
        } by {
        let e = n[i].opcode->LoopStart_0 as int;
        if i == insts.len() {
            assert(st[stack.len() as int] == i as usize);
        } else {
            assert(n[i] == insts[i]);
            if e >= n.len() {
                assert(stack.contains(i as usize));
                let j = choose|j: int| 0 <= j < stack.len() && stack[j] == i as usize;
                assert(st[j] == i as usize);
            } else if e == insts.len() {
                assert(stack.contains(i as usize));
                let j = choose|j: int| 0 <= j < stack.len() && stack[j] == i as usize;
                assert(insts[stack[j] as int].opcode == IROp::LoopStart(usize::MAX));
            } else {
                assert(n[e] == insts[e]);
            }
        }
    }
    assert forall|e: int|
        0 <= e < n.len() && is_loop_end(#[trigger] n[e].opcode) implies {
            let s = loop_end_start(n[e].opcode);
            &&& 0 <= s < e
            &&& n[s].opcode == IROp::LoopStart(e as usize)
            &&& end_pointer_ok(n, e)
        } by {
        assert(n[e] == insts[e]);
    }
    assert forall|a: int, b: int|
        0 <= a < b < n.len() && (#[trigger] n[a].opcode) is LoopStart && loop_end_of(n, a) < n.len()
            && (#[trigger] n[b].opcode) is LoopStart && b < loop_end_of(n, a) implies loop_end_of(
        n,
        b,
    ) < loop_end_of(n, a) by {
        assert(n[a] == insts[a]);
        if loop_end_of(n, a) >= insts.len() {
            assert(stack.contains(a as usize));
            let j = choose|j: int| 0 <= j < stack.len() && stack[j] == a as usize;
            assert(insts[a].opcode == IROp::LoopStart(usize::MAX));
        }
        assert(n[b] == insts[b]);
    }
    assert forall|a: int, j: int|
        0 <= a < n.len() && (#[trigger] n[a].opcode) is LoopStart && loop_end_of(n, a) < n.len()
            && 0 <= j < st.len() && a < #[trigger] st[j] implies loop_end_of(n, a) < st[j] by {
        if a < insts.len() {
            assert(n[a] == insts[a]);
            if loop_end_of(n, a) >= insts.len() {
                assert(stack.contains(a as usize));
                let j2 = choose|j2: int| 0 <= j2 < stack.len() && stack[j2] == a as usize;
                assert(insts[a].opcode == IROp::LoopStart(usize::MAX));
            }
        }
    }
    assert forall|i: int| 0 <= i < n.len() implies !((#[trigger] n[i]).opcode is End) && op_valid(
        n[i],
    ) by {
        if i < insts.len() {
            assert(n[i] == insts[i]);
        }
    }
}

proof fn lemma_truncate(insts: Seq<IR>, stack: Seq<usize>)
    requires
        parse_state_ok(insts, stack),
        stack.len() > 0,
    ensures
        parse_state_ok(insts.take(stack.last() as int), stack.drop_last()),
{
    reveal(parse_state_ok);
    reveal(end_pointer_ok);
    let t = stack.last() as int;
    let n = insts.take(t);
    let st = stack.drop_last();
    assert(stack[stack.len() - 1] < insts.len());
    assert forall|j: int| 0 <= j < st.len() implies #[trigger] st[j] < t by {
        assert(stack[j] < stack[stack.len() - 1]);
    }
    assert forall|i: int|
        0 <= i < n.len() && n[i].opcode is LoopStart implies {
            let e = n[i].opcode->LoopStart_0 as int;
            &&& e < n.len() ==> i < e && is_loop_end(n[e].opcode) && loop_end_start(n[e].opcode)
                == i
            &&& e >= n.len() ==> st.contains(i as usize)
        } by {
        assert(n[i] == insts[i]);
        let e = n[i].opcode->LoopStart_0 as int;
        if e < insts.len() {
            assert(e < stack[stack.len() - 1]);
            assert(n[e] == insts[e]);
        } else {
            assert(stack.contains(i as usize));
            let j = choose|j: int| 0 <= j < stack.len() && stack[j] == i as usize;
            if j == stack.len() - 1 {
                assert(false);
            }
            assert(st[j] == i as usize);
        }
    }
    assert forall|e: int|
        0 <= e < n.len() && is_loop_end(#[trigger] n[e].opcode) implies {
            let s = loop_end_start(n[e].opcode);
            &&& 0 <= s < e
            &&& n[s].opcode == IROp::LoopStart(e as usize)
            &&& end_pointer_ok(n, e)
        } by {
        assert(n[e] == insts[e]);
        let s = loop_end_start(n[e].opcode);
        assert(n[s] == insts[s]);
    }
    assert forall|a: int, b: int|
        0 <= a < b < n.len() && (#[trigger] n[a].opcode) is LoopStart && loop_end_of(n, a) < n.len()
            && (#[trigger] n[b].opcode) is LoopStart && b < loop_end_of(n, a) implies loop_end_of(
        n,
        b,
    ) < loop_end_of(n, a) by {
        assert(n[a] == insts[a]);
        assert(n[b] == insts[b]);
    }
    assert forall|a: int, j: int|
        0 <= a < n.len() && (#[trigger] n[a].opcode) is LoopStart && loop_end_of(n, a) < n.len()
            && 0 <= j < st.len() && a < #[trigger] st[j] implies loop_end_of(n, a) < st[j] by {
        assert(n[a] == insts[a]);
        assert(st[j] == stack[j]);
    }
    assert forall|i: int| 0 <= i < n.len() implies !((#[trigger] n[i]).opcode is End) && op_valid(
        n[i],
    ) by {
        assert(n[i] == insts[i]);
    }
}


proof fn lemma_close(insts: Seq<IR>, stack: Seq<usize>, end_node: IR)
    requires
        parse_state_ok(insts, stack),
        stack.len() > 0,
        insts.len() < usize::MAX,
        is_loop_end(end_node.opcode),
        loop_end_start(end_node.opcode) == stack.last() as int,
        match end_node.opcode {
            IROp::LoopEnd(_) => end_node.pointer == insts[stack.last() as int].pointer,
            IROp::LoopEndWithOffset(_, off) => off != 0 && end_node.pointer - insts[
                stack.last() as int
            ].pointer == off,
            _ => true,
        },
    ensures
        parse_state_ok(
            insts.update(
                stack.last() as int,
                IR {
                    pointer: insts[stack.last() as int].pointer,
                    opcode: IROp::LoopStart(insts.len() as usize),
                },
            ).push(end_node),
            stack.drop_last(),
        ),
{
    reveal(parse_state_ok);
    reveal(end_pointer_ok);
    let t = stack.last() as int;
    let len = insts.len() as int;
    let n = insts.update(
        t,
        IR { pointer: insts[t].pointer, opcode: IROp::LoopStart(insts.len() as usize) },
    ).push(end_node);
    let st = stack.drop_last();
    assert(stack[stack.len() - 1] < insts.len());
    assert forall|j: int| 0 <= j < st.len() implies #[trigger] st[j] < t by {
        assert(stack[j] < stack[stack.len() - 1]);
    }
    assert forall|i: int| 0 <= i < len && i != t implies #[trigger] n[i] == insts[i] by {}
    assert forall|i: int|
        0 <= i < n.len() && n[i].opcode is LoopStart implies {
            let e = n[i].opcode->LoopStart_0 as int;
            &&& e < n.len() ==> i < e && is_loop_end(n[e].opcode) && loop_end_start(n[e].opcode)
                == i
            &&& e >= n.len() ==> st.contains(i as usize)
        } by {
        let e = n[i].opcode->LoopStart_0 as int;
        if i != t {
            assert(n[i] == insts[i]);
            if e < len {
                assert(n[e] == insts[e]);
            } else {
                assert(stack.contains(i as usize));
                let j = choose|j: int| 0 <= j < stack.len() && stack[j] == i as usize;
                assert(insts[stack[j] as int].opcode == IROp::LoopStart(usize::MAX));
                if j == stack.len() - 1 {
                    assert(false);
                }
                assert(st[j] == i as usize);
                if e == len {
                    assert(false);
                }
            }
        }
    }
    assert forall|e: int|
        0 <= e < n.len() && is_loop_end(#[trigger] n[e].opcode) implies {
            let s = loop_end_start(n[e].opcode);
            &&& 0 <= s < e
            &&& n[s].opcode == IROp::LoopStart(e as usize)
            &&& end_pointer_ok(n, e)
        } by {
        if e < len {
            assert(n[e] == insts[e]);
            let s = loop_end_start(n[e].opcode);
            if s == t {
                assert(insts[t].opcode == IROp::LoopStart(usize::MAX));
                assert(false);
            }
            assert(n[s] == insts[s]);
        }
    }
    assert forall|a: int, b: int|
        0 <= a < b < n.len() && (#[trigger] n[a].opcode) is LoopStart && loop_end_of(n, a) < n.len()
            && (#[trigger] n[b].opcode) is LoopStart && b < loop_end_of(n, a) implies loop_end_of(
        n,
        b,
    ) < loop_end_of(n, a) by {
        if a == t {
            if b < len {
                assert(n[b] == insts[b]);
                if loop_end_of(insts, b) >= len {
                    assert(stack.contains(b as usize));
                    let j = choose|j: int| 0 <= j < stack.len() && stack[j] == b as usize;
                    assert(insts[stack[j] as int].opcode == IROp::LoopStart(usize::MAX));
                    if j < stack.len() - 1 {
                        assert(stack[j] < stack[stack.len() - 1]);
                    }
                    assert(false);
                }
            }
        } else if b == t {
            assert(n[a] == insts[a]);
            if loop_end_of(insts, a) >= len {
                assert(stack.contains(a as usize));
                let j = choose|j: int| 0 <= j < stack.len() && stack[j] == a as usize;
                assert(insts[stack[j] as int].opcode == IROp::LoopStart(usize::MAX));
            }
            assert(loop_end_of(insts, a) < stack[stack.len() - 1]);
        } else {
            assert(n[a] == insts[a]);
            if loop_end_of(insts, a) >= len {
                assert(stack.contains(a as usize));
                let j = choose|j: int| 0 <= j < stack.len() && stack[j] == a as usize;
                assert(insts[stack[j] as int].opcode == IROp::LoopStart(usize::MAX));
            }
            assert(n[b] == insts[b]);
        }
    }
    assert forall|a: int, j: int|
        0 <= a < n.len() && (#[trigger] n[a].opcode) is LoopStart && loop_end_of(n, a) < n.len()
            && 0 <= j < st.len() && a < #[trigger] st[j] implies loop_end_of(n, a) < st[j] by {
        assert(st[j] == stack[j]);
        assert(stack[j] < stack[stack.len() - 1]);
        if a != t {
            assert(n[a] == insts[a]);
            if loop_end_of(insts, a) >= len {
                assert(stack.contains(a as usize));
                let j2 = choose|j2: int| 0 <= j2 < stack.len() && stack[j2] == a as usize;
                assert(insts[stack[j2] as int].opcode == IROp::LoopStart(usize::MAX));
            }
        }
    }
    assert forall|i: int| 0 <= i < n.len() implies !((#[trigger] n[i]).opcode is End) && op_valid(
        n[i],
    ) by {
        if i < len && i != t {
            assert(n[i] == insts[i]);
        }
    }
}

proof fn lemma_replace_last(insts: Seq<IR>, stack: Seq<usize>, node: IR)
    requires
        parse_state_ok(insts, stack),
        insts.len() > 0,
        plain_op(insts.last()),
        plain_op(node),
    ensures
        parse_state_ok(insts.update(insts.len() - 1, node), stack),
{
    reveal(parse_state_ok);
    reveal(end_pointer_ok);
    let len = insts.len() as int;
    let n = insts.update(len - 1, node);
    assert forall|i: int| 0 <= i < len - 1 implies #[trigger] n[i] == insts[i] by {}
    assert forall|i: int|
        0 <= i < n.len() && n[i].opcode is LoopStart implies {
            let e = n[i].opcode->LoopStart_0 as int;
            &&& e < n.len() ==> i < e && is_loop_end(n[e].opcode) && loop_end_start(n[e].opcode)
                == i
            &&& e >= n.len() ==> stack.contains(i as usize)
        } by {
        assert(n[i] == insts[i]);
        let e = n[i].opcode->LoopStart_0 as int;
        if e < len - 1 {
            assert(n[e] == insts[e]);
        }
    }
    assert forall|e: int|
        0 <= e < n.len() && is_loop_end(#[trigger] n[e].opcode) implies {
            let s = loop_end_start(n[e].opcode);
            &&& 0 <= s < e
            &&& n[s].opcode == IROp::LoopStart(e as usize)
            &&& end_pointer_ok(n, e)
        } by {
        assert(n[e] == insts[e]);
        let s = loop_end_start(n[e].opcode);
        assert(n[s] == insts[s]);
    }
    assert forall|a: int, b: int|
        0 <= a < b < n.len() && (#[trigger] n[a].opcode) is LoopStart && loop_end_of(n, a) < n.len()
            && (#[trigger] n[b].opcode) is LoopStart && b < loop_end_of(n, a) implies loop_end_of(
        n,
        b,
    ) < loop_end_of(n, a) by {
        assert(n[a] == insts[a]);
        assert(n[b] == insts[b]);
    }
    assert forall|a: int, j: int|
        0 <= a < n.len() && (#[trigger] n[a].opcode) is LoopStart && loop_end_of(n, a) < n.len()
            && 0 <= j < stack.len() && a < #[trigger] stack[j] implies loop_end_of(n, a)
        < stack[j] by {
        assert(n[a] == insts[a]);
    }
    assert forall|i: int| 0 <= i < n.len() implies !((#[trigger] n[i]).opcode is End) && op_valid(
        n[i],
    ) by {
        if i < len - 1 {
            assert(n[i] == insts[i]);
        }
    }
}


proof fn lemma_finish(insts: Seq<IR>, pointer: isize)
    requires
        parse_state_ok(insts, Seq::<usize>::empty()),
        insts.len() < usize::MAX,
    ensures
        ir_wf(insts.push(IR { pointer, opcode: IROp::End })),
{
    reveal(parse_state_ok);
    reveal(end_pointer_ok);
    let n = insts.push(IR { pointer, opcode: IROp::End });
    let len = insts.len() as int;
    assert forall|i: int| 0 <= i < len implies #[trigger] n[i] == insts[i] by {}
    assert forall|i: int|
        #![trigger n[i].opcode->LoopStart_0]
        0 <= i < n.len() && n[i].opcode is LoopStart implies {
            let e = n[i].opcode->LoopStart_0 as int;
            &&& i < e < n.len()
            &&& is_loop_end(n[e].opcode)
            &&& loop_end_start(n[e].opcode) == i
        } by {
        assert(n[i] == insts[i]);
        let e = n[i].opcode->LoopStart_0 as int;
        if e >= len {
            assert(Seq::<usize>::empty().contains(i as usize));
        }
        assert(n[e] == insts[e]);
    }
    assert forall|e: int|
        0 <= e < n.len() && is_loop_end(#[trigger] n[e].opcode) implies {
            let s = loop_end_start(n[e].opcode);
            &&& 0 <= s < e
            &&& n[s].opcode == IROp::LoopStart(e as usize)
            &&& end_pointer_ok(n, e)
        } by {
        assert(n[e] == insts[e]);
        let s = loop_end_start(n[e].opcode);
        assert(n[s] == insts[s]);
    }
    assert forall|a: int, b: int|
        0 <= a < b < n.len() && (#[trigger] n[a].opcode) is LoopStart && (#[trigger] n[
            b
        ].opcode) is LoopStart && b < n[a].opcode->LoopStart_0 implies n[b].opcode->LoopStart_0
        < n[a].opcode->LoopStart_0 by {
        assert(n[a] == insts[a]);
        assert(n[b] == insts[b]);
        if loop_end_of(insts, a) >= len {
            assert(Seq::<usize>::empty().contains(a as usize));
        }
    }
    assert forall|i: int| 0 <= i < n.len() implies op_valid(#[trigger] n[i]) by {
        if i < len {
            assert(n[i] == insts[i]);
        }
    }
    assert forall|i: int| 0 <= i < n.len() - 1 implies !((#[trigger] n[i]).opcode is End) by {
        assert(n[i] == insts[i]);
    }
}

proof fn lemma_views_push(v: Seq<IR>, x: IR)
    ensures
        ir_views(v.push(x)) == ir_views(v).push(x@),
{
    assert(ir_views(v.push(x)) =~= ir_views(v).push(x@));
}

proof fn lemma_views_update(v: Seq<IR>, i: int, x: IR)
    requires
        0 <= i < v.len(),
    ensures
        ir_views(v.update(i, x)) == ir_views(v).update(i, x@),
{
    assert(ir_views(v.update(i, x)) =~= ir_views(v).update(i, x@));
}

proof fn lemma_views_take(v: Seq<IR>, n: int)
    requires
        0 <= n <= v.len(),
    ensures
        ir_views(v.take(n)) == ir_views(v).take(n),
{
    assert(ir_views(v.take(n)) =~= ir_views(v).take(n));
}

proof fn lemma_all_unit_push(d: Seq<(isize, u8)>, x: (isize, u8))
    ensures
        all_unit(d.push(x)) == (all_unit(d) && (x.1 == 1u8 || x.1 == 255u8)),
{
    let e = d.push(x);
    if all_unit(e) {
        assert(e[d.len() as int] == x);
        assert forall|k: int| 0 <= k < d.len() implies (#[trigger] d[k]).1 == 1u8 || d[k].1 == 255u8 by {
            assert(e[k] == d[k]);
        }
    }
    if all_unit(d) && (x.1 == 1u8 || x.1 == 255u8) {
        assert forall|k: int| 0 <= k < e.len() implies (#[trigger] e[k]).1 == 1u8 || e[k].1 == 255u8 by {
            if k < d.len() {
                assert(e[k] == d[k]);
            }
        }
    }
}

proof fn lemma_fuse_fails(body: Seq<IRView>, p: isize, j: int)
    requires
        0 <= j <= body.len(),
        !fuse_scan(body.take(j), p).0,
    ensures
        !fuse_scan(body, p).0,
    decreases body.len() - j,
{
    if j < body.len() {
        assert(body.take(j + 1).drop_last() =~= body.take(j));
        lemma_fuse_fails(body, p, j + 1);
    } else {
        assert(body.take(j) =~= body);
    }
}

proof fn lemma_prefix_err(code: Seq<u8>, k: nat, e: SyntaxError)
    requires
        k <= code.len(),
        parse_prefix(code, k) == Err::<ParseState, SyntaxError>(e),
    ensures
        parse_prefix(code, code.len()) == Err::<ParseState, SyntaxError>(e),
    decreases code.len() - k,
{
    if k < code.len() {
        lemma_prefix_err(code, k + 1, e);
    }
}

/// Recognizes a flat multiplication loop whose body is `insts[start + 1..]`
/// and whose control cell is at `p`: every body operation is an `Add`,
/// exactly one of them is `Add(255)` at `p`, no other one is at `p`, and at
/// least one is elsewhere. The others become the destinations, in order;
/// all factors being +1 or -1 gives `MovesAndSetZero`.
fn fuse_flat_loop(insts: &Vec<IR>, start: usize, p: isize) -> (r: Option<IROp>)
    requires
        start < insts@.len(),
    ensures
        r matches Some(op) ==> (op is MulAndSetZero || op is MovesAndSetZero) && op_valid(
            IR { pointer: p, opcode: op },
        ),
        match r {
            Some(op) => fuse_spec(ir_views(insts@).subrange(start + 1, insts@.len() as int), p)
                == Some(op_view(op)),
            None => fuse_spec(ir_views(insts@).subrange(start + 1, insts@.len() as int), p) is None,
        },
{
    let ghost body = ir_views(insts@).subrange(start + 1, insts@.len() as int);
    let mut dests: Vec<(isize, u8)> = Vec::new();
    let mut seen_decrement = false;
    let mut unit = true;
    let len = insts.len();
    let mut i: usize = start + 1;
    while i < len
        invariant
            start < i <= insts@.len(),
            len == insts@.len(),
            forall|k: int| 0 <= k < dests@.len() ==> (#[trigger] dests@[k]).0 != p,
            unit == all_unit(dests@),
            body == ir_views(insts@).subrange(start + 1, insts@.len() as int),
            fuse_scan(body.take(i - start - 1), p) == (true, seen_decrement, dests@),
        decreases insts@.len() - i,
    {
        proof {
            let j = i - start - 1;
            assert(body.take(j + 1).drop_last() =~= body.take(j));
            assert(body.take(j + 1).last() == insts@[i as int]@);
        }
        match insts[i].opcode {
            IROp::Add(v) => {
                if insts[i].pointer == p {
                    if v == 255 && !seen_decrement {
                        seen_decrement = true;
                    } else {
                        proof {
                            lemma_fuse_fails(body, p, i - start);
                        }
                        return None;
                    }
                } else {
                    proof {
                        lemma_all_unit_push(dests@, (insts@[i as int].pointer, v));
                    }
                    if v != 1 && v != 255 {
                        unit = false;
                    }
                    dests.push((insts[i].pointer, v));
                }
            },
            _ => {
                proof {
                    lemma_fuse_fails(body, p, i - start);
                }
                return None;
            },
        }
        i = i + 1;
    }
    proof {
        assert(body.take(i - start - 1) =~= body);
    }
    if !seen_decrement || dests.len() == 0 {
        return None;
    }
    if unit {
        let mut moves: Vec<(isize, bool)> = Vec::new();
        let mut j: usize = 0;
        while j < dests.len()
            invariant
                j <= dests@.len(),
                moves@.len() == j,
                forall|k: int| 0 <= k < dests@.len() ==> (#[trigger] dests@[k]).0 != p,
                forall|k: int| 0 <= k < j ==> (#[trigger] moves@[k]) == (dests@[k].0, dests@[k].1 == 1u8),
            decreases dests@.len() - j,
        {
            let (d, v) = dests[j];
            moves.push((d, v == 1));
            j = j + 1;
        }
        assert(moves@ =~= as_moves(dests@));
        Some(IROp::MovesAndSetZero(moves))
    } else {
        Some(IROp::MulAndSetZero(dests))
    }
}


/// `+` or `-`: merges into the operation just before when it is an `Add`
/// or a `SetCell` at the same pointer, else appends an `Add`.
fn add_cell(insts: &mut Vec<IR>, stack: &Vec<usize>, pointer: isize, v: u8)
    requires
        parse_state_ok(old(insts)@, stack@),
        old(insts)@.len() < usize::MAX,
    ensures
        parse_add(ParseState { insts: ir_views(old(insts)@), stack: stack@, pointer }, v)
            == (ParseState { insts: ir_views(final(insts)@), stack: stack@, pointer }),
        parse_state_ok(final(insts)@, stack@),
        final(insts)@.len() <= old(insts)@.len() + 1,
        forall|i: int|
            0 <= i < final(insts)@.len() ==> (#[trigger] final(insts)@[i]).pointer == pointer || (i
                < old(insts)@.len() && final(insts)@[i].pointer == old(insts)@[i].pointer),
{
    proof {
        reveal(parse_add);
    }
    let n = insts.len();
    if n > 0 && insts[n - 1].pointer == pointer {
        match &insts[n - 1].opcode {
            IROp::Add(old_v) => {
                let node = IR { pointer, opcode: IROp::Add(old_v.wrapping_add(v)) };
                proof {
                    lemma_replace_last(insts@, stack@, node);
                    lemma_views_update(insts@, n - 1, node);
                }
                insts.set(n - 1, node);
                return;
            },
            IROp::SetCell(old_v) => {
                let node = IR { pointer, opcode: IROp::SetCell(old_v.wrapping_add(v)) };
                proof {
                    lemma_replace_last(insts@, stack@, node);
                    lemma_views_update(insts@, n - 1, node);
                }
                insts.set(n - 1, node);
                return;
            },
            _ => {},
        }
    }
    let node = IR { pointer, opcode: IROp::Add(v) };
    proof {
        lemma_push_plain(insts@, stack@, node);
        lemma_views_push(insts@, node);
    }
    insts.push(node);
}

/// `]`: pops the matching `[` and applies the peephole rules.
fn close_loop(insts: &mut Vec<IR>, stack: &mut Vec<usize>, ptr: &mut isize, bound: Ghost<int>) -> (r: Result<(), SyntaxError>)
    requires
        parse_state_ok(old(insts)@, old(stack)@),
        0 <= bound@ <= isize::MAX / 2,
        old(insts)@.len() <= bound@,
        -bound@ <= *old(ptr) <= bound@,
        forall|i: int|
            0 <= i < old(insts)@.len() ==> -bound@ <= (#[trigger] old(insts)@[i]).pointer <= bound@,
    ensures
        ({
            let st = ParseState { insts: ir_views(old(insts)@), stack: old(stack)@, pointer: *old(ptr) };
            match r {
                Ok(()) => {
                    &&& parse_close(st) == Ok::<ParseState, SyntaxError>(
                        ParseState { insts: ir_views(final(insts)@), stack: final(stack)@, pointer: *final(ptr) },
                    )
                    &&& parse_state_ok(final(insts)@, final(stack)@)
                    &&& final(insts)@.len() <= old(insts)@.len() + 1
                    &&& -bound@ <= *final(ptr) <= bound@
                    &&& forall|i: int|
                        0 <= i < final(insts)@.len() ==> -bound@ <= (#[trigger] final(insts)@[i]).pointer
                            <= bound@
                    &&& final(stack)@.len() + 1 == old(stack)@.len()
                },
                Err(e) => e == SyntaxError::UnmatchedClosingBracket && old(stack)@.len() == 0
                    && parse_close(st) == Err::<ParseState, SyntaxError>(e),
            }
        }),
{
    let ghost st = ParseState { insts: ir_views(insts@), stack: stack@, pointer: *ptr };
    proof {
        reveal(parse_close);
    }
    let ghost old_insts = insts@;
    let ghost old_stack = stack@;
    let start = match stack.pop() {
        Some(s) => s,
        None => {
            return Err(SyntaxError::UnmatchedClosingBracket);
        },
    };
    proof {
        assert(stack@ =~= old_stack.drop_last());
        lemma_stack_top(old_insts, old_stack);
        lemma_views_take(old_insts, start as int);
    }
    let start_ptr = insts[start].pointer;
    let pointer = *ptr;
    let end = insts.len();
    let stable = start_ptr == pointer;
    let clears = stable && end - start == 2 && match insts[start + 1].opcode {
        IROp::Add(v) => v == 255 && insts[start + 1].pointer == start_ptr,
        _ => false,
    };
    if clears {
        let node = IR { pointer, opcode: IROp::SetCell(0) };
        proof {
            lemma_truncate(old_insts, old_stack);
            lemma_push_plain(old_insts.take(start as int), stack@, node);
            lemma_views_push(old_insts.take(start as int), node);
        }
        insts.truncate(start);
        insts.push(node);
    } else if !stable && end - start == 1 {
        let node = IR { pointer: start_ptr, opcode: IROp::Shift(pointer - start_ptr) };
        proof {
            lemma_truncate(old_insts, old_stack);
            lemma_push_plain(old_insts.take(start as int), stack@, node);
            lemma_views_push(old_insts.take(start as int), node);
        }
        insts.truncate(start);
        insts.push(node);
        *ptr = start_ptr;
    } else {
        let fused = if stable {
            fuse_flat_loop(&insts, start, pointer)
        } else {
            None
        };
        match fused {
            Some(op) => {
                let node = IR { pointer, opcode: op };
                proof {
                    lemma_truncate(old_insts, old_stack);
                    lemma_push_plain(old_insts.take(start as int), stack@, node);
                    lemma_views_push(old_insts.take(start as int), node);
                }
                insts.truncate(start);
                insts.push(node);
            },
            None => {
                let end_node = if stable {
                    IR { pointer, opcode: IROp::LoopEnd(start) }
                } else {
                    IR {
                        pointer,
                        opcode: IROp::LoopEndWithOffset(start, pointer - start_ptr),
                    }
                };
                proof {
                    lemma_close(old_insts, old_stack, end_node);
                    let ls = IR { pointer: start_ptr, opcode: IROp::LoopStart(end) };
                    lemma_views_update(old_insts, start as int, ls);
                    lemma_views_push(old_insts.update(start as int, ls), end_node);
                }
                insts.set(start, IR { pointer: start_ptr, opcode: IROp::LoopStart(end) });
                insts.push(end_node);
                *ptr = start_ptr;
            },
        }
    }
    Ok(())
}

/// Scans source bytes into IR. Bytes other than `+ - > < . , [ ] #` are
/// ignored; runs of `+`/`-` at one pointer coalesce into `Add` (or fold into
/// a preceding `SetCell`); `[-]` becomes `SetCell(0)`; a loop whose body is
/// only a pointer move becomes `Shift`; flat multiplication loops become
/// `MulAndSetZero` / `MovesAndSetZero`.
pub fn parse_bytes(code: &[u8]) -> (r: Result<Vec<IR>, SyntaxError>)
    requires
        code@.len() <= isize::MAX / 2,
    ensures
        closes_unmatched(code@) ==> r == Err::<Vec<IR>, SyntaxError>(
            SyntaxError::UnmatchedClosingBracket,
        ),
        !closes_unmatched(code@) && depth(code@) != 0 ==> r == Err::<Vec<IR>, SyntaxError>(
            SyntaxError::UnmatchedOpeningBracket,
        ),
        !closes_unmatched(code@) && depth(code@) == 0 ==> r is Ok && ir_wf(r->Ok_0@),
        match r {
            Ok(ir) => parse_spec(code@) == Ok::<Seq<IRView>, SyntaxError>(ir_views(ir@)),
            Err(e) => parse_spec(code@) == Err::<Seq<IRView>, SyntaxError>(e),
        },
{
    let mut insts: Vec<IR> = Vec::new();
    let mut stack: Vec<usize> = Vec::new();
    let mut pointer: isize = 0;
    let len = code.len();
    let mut k: usize = 0;
    proof {
        assert(code@.take(0) =~= Seq::<u8>::empty());
        assert(ir_views(insts@) =~= Seq::<IRView>::empty());
        reveal(parse_state_ok);
    reveal(end_pointer_ok);
    }
    while k < len
        invariant
            len == code@.len(),
            k <= len,
            len <= isize::MAX / 2,
            -(k as int) <= pointer <= k,
            insts@.len() <= k,
            forall|i: int|
                0 <= i < insts@.len() ==> -(k as int) <= (#[trigger] insts@[i]).pointer <= k,
            parse_state_ok(insts@, stack@),
            stack@.len() == depth(code@.take(k as int)),
            forall|j: int| 0 < j <= k ==> depth(#[trigger] code@.take(j)) >= 0,
            parse_prefix(code@, k as nat) == Ok::<ParseState, SyntaxError>(
                ParseState { insts: ir_views(insts@), stack: stack@, pointer },
            ),
        decreases len - k,
    {
        let c = code[k];
        let ghost st = ParseState { insts: ir_views(insts@), stack: stack@, pointer };
        proof {
            assert(code@.take(k + 1).drop_last() =~= code@.take(k as int));
            assert(code@.take(k + 1).last() == c);
            assert(parse_prefix(code@, (k + 1) as nat) == parse_char(st, c));
        }
        if c == 43 || c == 45 {
            let v: u8 = if c == 43 {
                1
            } else {
                255
            };
            proof {
                reveal(parse_char);
                assert(parse_char(st, c) == Ok::<ParseState, SyntaxError>(parse_add(st, v)));
            }
            add_cell(&mut insts, &stack, pointer, v);
        } else if c == 62 {
            proof {
                reveal(parse_char);
            }
            pointer = pointer + 1;
        } else if c == 60 {
            proof {
                reveal(parse_char);
            }
            pointer = pointer - 1;
        } else if c == 46 || c == 44 || c == 35 {
            proof {
                reveal(parse_char);
            }
            let opcode = if c == 46 {
                IROp::Out
            } else if c == 44 {
                IROp::In
            } else {
                IROp::Breakpoint
            };
            let node = IR { pointer, opcode };
            proof {
                lemma_push_plain(insts@, stack@, node);
                lemma_views_push(insts@, node);
            }
            insts.push(node);
        } else if c == 91 {
            proof {
                reveal(parse_char);
                lemma_open(insts@, stack@, pointer);
                lemma_views_push(insts@, IR { pointer, opcode: IROp::LoopStart(usize::MAX) });
            }
            stack.push(insts.len());
            insts.push(IR { pointer, opcode: IROp::LoopStart(usize::MAX) });
        } else if c == 93 {
            proof {
                reveal(parse_char);
                reveal(parse_close);
                assert(parse_char(st, c) == parse_close(st));
            }
            match close_loop(&mut insts, &mut stack, &mut pointer, Ghost(k as int)) {
                Ok(()) => {},
                Err(e) => {
                    proof {
                        assert(depth(code@.take(k + 1)) < 0);
                        lemma_prefix_err(code@, (k + 1) as nat, e);
                    }
                    return Err(e);
                },
            }
        } else {
            proof {
                reveal(parse_char);
            }
        }
        k = k + 1;
    }
    proof {
        assert(code@.take(len as int) =~= code@);
        if closes_unmatched(code@) {
            let j = choose|j: int| 0 < j <= code@.len() && #[trigger] depth(code@.take(j)) < 0;
            assert(depth(code@.take(j)) >= 0);
        }
    }
    if stack.len() > 0 {
        return Err(SyntaxError::UnmatchedOpeningBracket);
    }
    proof {
        assert(stack@ =~= Seq::<usize>::empty());
        lemma_finish(insts@, pointer);
        lemma_views_push(insts@, IR { pointer, opcode: IROp::End });
    }
    insts.push(IR { pointer, opcode: IROp::End });
    Ok(insts)
}

/// Parses source text; see `parse_bytes`. Only ASCII bytes carry meaning, and
/// no byte of a multi-byte UTF-8 character is ASCII.
pub fn parse_to_ir(code: &str) -> (r: Result<Vec<IR>, SyntaxError>)
    requires
        code.spec_bytes().len() <= isize::MAX / 2,
    ensures
        closes_unmatched(code.spec_bytes()) ==> r == Err::<Vec<IR>, SyntaxError>(
            SyntaxError::UnmatchedClosingBracket,
        ),
        !closes_unmatched(code.spec_bytes()) && depth(code.spec_bytes()) != 0 ==> r == Err::<
            Vec<IR>,
            SyntaxError,
        >(SyntaxError::UnmatchedOpeningBracket),
        !closes_unmatched(code.spec_bytes()) && depth(code.spec_bytes()) == 0 ==> r is Ok
            && ir_wf(r->Ok_0@),
        match r {
            Ok(ir) => parse_spec(code.spec_bytes()) == Ok::<Seq<IRView>, SyntaxError>(ir_views(ir@)),
            Err(e) => parse_spec(code.spec_bytes()) == Err::<Seq<IRView>, SyntaxError>(e),
        },
{
    parse_bytes(code.as_bytes())
}

} // verus!
