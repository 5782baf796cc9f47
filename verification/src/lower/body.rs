//! The body of a compiled method: the dispatch loop and, block by block, the code of the
//! method's ops.

use crate::lower::blocks;
use crate::lower::linear;
use crate::lower::linear::{
    emit_box_double, emit_box_int, emit_linear, emit_perr_bail, emit_to_boolean_i32,
};
use crate::lower::manifest;
use crate::lower::manifest::{
    Layout, COERCE_I, COERCE_RETURN, DISPATCH_EXC, POP_CAUGHT, THROW,
};
use crate::lower::op;
use crate::lower::op::{ExcRange, JitOp, SwitchTable};
use crate::lower::wasm;
use crate::lower::wasm::{
    emit, emit_repeated, BlockTy, Cvtop, Instr, Relop, Target, BLOCK, REGS_LEN, REGS_PTR, SCRATCH,
    SCRATCH64, SPILL_BASE, SPILL_POOL, STATE_PTR, UNDEFINED_BITS,
};
use vstd::prelude::*;

verus! {

/// Ops that keep raw ints on the operand stack.
pub open spec fn is_int_model(op: JitOp) -> bool {
    match op {
        JitOp::GetLocal(_) => true,
        JitOp::SetLocal(_) => true,
        JitOp::PushInt(_) => true,
        JitOp::AddI => true,
        JitOp::SubtractI => true,
        JitOp::MultiplyI => true,
        JitOp::IncrementI => true,
        JitOp::DecrementI => true,
        JitOp::IncLocalI(_) => true,
        JitOp::DecLocalI(_) => true,
        JitOp::LessThan => true,
        JitOp::LessEquals => true,
        JitOp::GreaterThan => true,
        JitOp::GreaterEquals => true,
        JitOp::Equals => true,
        JitOp::IfLt(_) => true,
        JitOp::IfGe(_) => true,
        JitOp::IfFalse(_) => true,
        JitOp::IfTrue(_) => true,
        JitOp::ReturnValue => true,
        _ => false,
    }
}

/// Some op is one of the int model.
pub open spec fn int_model(ops: Seq<JitOp>) -> bool {
    exists|i: int| 0 <= i < ops.len() && is_int_model(#[trigger] ops[i])
}

/// Whether `ops` use the int model, whose operands cannot be carried between blocks.
pub fn uses_int_model(ops: &[JitOp]) -> (r: bool)
    ensures
        r == int_model(ops@),
{
    let mut i: usize = 0;
    while i < ops.len()
        invariant
            i <= ops@.len(),
            forall|j: int| 0 <= j < i ==> !is_int_model(#[trigger] ops@[j]),
        decreases ops@.len() - i,
    {
        if matches!(
            ops[i],
            JitOp::GetLocal(_) | JitOp::SetLocal(_) | JitOp::PushInt(_) | JitOp::AddI
                | JitOp::SubtractI | JitOp::MultiplyI | JitOp::IncrementI | JitOp::DecrementI
                | JitOp::IncLocalI(_) | JitOp::DecLocalI(_) | JitOp::LessThan | JitOp::LessEquals
                | JitOp::GreaterThan | JitOp::GreaterEquals | JitOp::Equals | JitOp::IfLt(_)
                | JitOp::IfGe(_) | JitOp::IfFalse(_) | JitOp::IfTrue(_) | JitOp::ReturnValue
        ) {
            assert(is_int_model(ops@[i as int]));
            return true;
        }
        assert(!is_int_model(ops@[i as int]));
        i = i + 1;
    }
    false
}

/// The handler blocks: op index and block number, in order, among the first `n` blocks.
pub open spec fn catch_list(leaders: Seq<usize>, exceptions: Seq<ExcRange>, n: nat) -> Seq<
    (u64, i32),
>
    decreases n,
{
    if n == 0 {
        Seq::empty()
    } else {
        let rest = catch_list(leaders, exceptions, (n - 1) as nat);
        if blocks::is_catch(exceptions, leaders[n - 1]) {
            rest.push((leaders[n - 1] as u64, (n - 1) as i32))
        } else {
            rest
        }
    }
}

/// What is being lowered.
pub struct Ctx {
    pub ops: Seq<JitOp>,
    pub switches: Seq<SwitchTable>,
    pub exceptions: Seq<ExcRange>,
    pub lay: Layout,
    pub target: Target,
}

impl Ctx {
    pub open spec fn leaders(self) -> Seq<usize> {
        blocks::leaders_of(self.ops, self.switches, self.exceptions)
    }

    pub open spec fn block_count(self) -> nat {
        self.leaders().len()
    }

    /// Labels between the code of block `b` and the dispatch loop.
    pub open spec fn loop_depth(self, b: int) -> u32 {
        (self.block_count() - 1 - b) as u32
    }

    /// `d` operands can be carried to another block.
    pub open spec fn carries(self, d: nat) -> bool {
        d == 0 || (!int_model(self.ops) && d <= SPILL_POOL)
    }

    pub open spec fn catches(self) -> Seq<(u64, i32)> {
        catch_list(self.leaders(), self.exceptions, self.block_count())
    }

    /// The first op past block `b`.
    pub open spec fn end(self, b: int) -> int {
        blocks::block_end(self.leaders(), self.ops.len(), b)
    }
}

/// How far lowering has come.
#[verifier::ext_equal]
pub struct St {
    /// The code so far.
    pub code: Seq<Instr>,
    /// Height of the operand stack.
    pub depth: nat,
    /// Its height at the start of each block, where a way there has been seen.
    pub entry: Seq<Option<usize>>,
}

impl St {
    pub open spec fn adding(self, code: Seq<Instr>, depth: nat) -> St {
        St { code: self.code + code, depth, entry: self.entry }
    }
}

/// `d` operands into the spill locals, the top one last in order.
pub open spec fn spill(d: nat) -> Seq<Instr> {
    Seq::new(d, |j: int| Instr::LocalSet((SPILL_BASE + (d - 1 - j)) as u32))
}

/// `d` operands back from the spill locals.
pub open spec fn reload(d: nat) -> Seq<Instr> {
    Seq::new(d, |j: int| Instr::LocalGet((SPILL_BASE + j) as u32))
}

/// To block `b` by way of the dispatch loop.
pub open spec fn goto(b: int, label: u32) -> Seq<Instr> {
    seq![Instr::I32Const(b as i32), Instr::LocalSet(BLOCK), Instr::Br(label)]
}

/// Block `taken` next if the top operand is not zero, `other` if it is.
pub open spec fn choose_block(taken: int, other: int) -> Seq<Instr> {
    seq![
        Instr::If(BlockTy::Empty),
        Instr::I32Const(taken as i32),
        Instr::LocalSet(BLOCK),
        Instr::Else,
        Instr::I32Const(other as i32),
        Instr::LocalSet(BLOCK),
        Instr::End,
    ]
}

/// Notes that block `b` is entered with `d` operands; `None` if another way there brings
/// another number.
pub open spec fn record(st: St, b: int, d: nat) -> Option<St> {
    match st.entry[b] {
        None => Some(St { entry: st.entry.update(b, Some(d as usize)), ..st }),
        Some(prev) => if prev == d {
            Some(st)
        } else {
            None
        },
    }
}

/// A chain of tests that sets the block of the handler whose op index is in the scratch
/// local.
pub open spec fn catch_chain(catches: Seq<(u64, i32)>) -> Seq<Instr>
    decreases catches.len(),
{
    if catches.len() == 0 {
        Seq::empty()
    } else {
        catch_chain(catches.drop_last()) + seq![
            Instr::LocalGet(SCRATCH64),
            Instr::I64Const(catches.last().0),
            Instr::Rel(Relop::I64Eq),
            Instr::If(BlockTy::Empty),
            Instr::I32Const(catches.last().1),
            Instr::LocalSet(BLOCK),
            Instr::End,
        ]
    }
}

/// Asks the host for a handler of the pending error raised at op `i`: continues there, or
/// returns `undefined` if there is none.
pub open spec fn dispatch(i: int, catches: Seq<(u64, i32)>, label: u32) -> Seq<Instr> {
    seq![
        Instr::I64Const(i as u64),
        Instr::Call(DISPATCH_EXC),
        Instr::LocalSet(SCRATCH64),
        Instr::LocalGet(SCRATCH64),
        Instr::I64Const(0),
        Instr::Rel(Relop::I64GeS),
        Instr::If(BlockTy::Empty),
    ] + catch_chain(catches) + seq![
        Instr::Br(label),
        Instr::Else,
        Instr::I64Const(UNDEFINED_BITS),
        Instr::Return,
        Instr::End,
    ]
}

/// A return: `pop` operands needed, `code` in front of the instruction.
pub open spec fn return_with(st: St, pop: nat, code: Seq<Instr>) -> Option<St> {
    if st.depth < pop {
        None
    } else {
        Some(st.adding(code + seq![Instr::Return], 0))
    }
}

pub open spec fn jump(c: Ctx, b: int, t: usize, st: St) -> Option<St> {
    if !c.carries(st.depth) {
        None
    } else {
        match blocks::block_of(c.leaders(), t) {
            None => None,
            Some(tb) => match record(st, tb, st.depth) {
                None => None,
                Some(s) => Some(
                    s.adding(spill(st.depth) + goto(tb, c.loop_depth(b)), 0),
                ),
            },
        }
    }
}

/// The test of an int branch, on one operand or two.
pub open spec fn int_test(op: JitOp) -> (nat, Seq<Instr>) {
    match op {
        JitOp::IfLt(_) => (2, seq![Instr::Rel(Relop::I32LtS)]),
        JitOp::IfGe(_) => (2, seq![Instr::Rel(Relop::I32GeS)]),
        JitOp::IfFalse(_) => (1, seq![Instr::Rel(Relop::I32Eqz)]),
        _ => (1, Seq::empty()),
    }
}

pub open spec fn int_branch(c: Ctx, b: int, op: JitOp, t: usize, st: St) -> Option<St> {
    let (needed, test) = int_test(op);
    if st.depth != needed || b + 1 >= c.block_count() {
        None
    } else {
        match blocks::block_of(c.leaders(), t) {
            None => None,
            Some(tb) => Some(
                st.adding(
                    test + choose_block(tb, b + 1) + seq![Instr::Br(c.loop_depth(b))],
                    0,
                ),
            ),
        }
    }
}

/// The test of a boxed branch.
pub open spec fn boxed_test(negate: bool) -> Seq<Instr> {
    if negate {
        linear::to_boolean_i32() + seq![Instr::Rel(Relop::I32Eqz)]
    } else {
        linear::to_boolean_i32()
    }
}

pub open spec fn boxed_branch(c: Ctx, b: int, negate: bool, t: usize, st: St) -> Option<St> {
    if st.depth < 1 || !c.carries((st.depth - 1) as nat) || b + 1 >= c.block_count() {
        None
    } else {
        let carried = (st.depth - 1) as nat;
        match blocks::block_of(c.leaders(), t) {
            None => None,
            Some(tb) => match record(st, tb, carried) {
                None => None,
                Some(s1) => match record(s1, b + 1, carried) {
                    None => None,
                    Some(s2) => Some(
                        s2.adding(
                            boxed_test(negate) + choose_block(tb, b + 1) + spill(carried) + seq![
                                Instr::Br(c.loop_depth(b)),
                            ],
                            0,
                        ),
                    ),
                },
            },
        }
    }
}

pub open spec fn throw(c: Ctx, b: int, i: int, st: St) -> Option<St> {
    if st.depth < 1 {
        None
    } else if c.exceptions.len() > 0 {
        Some(
            st.adding(
                seq![Instr::Call(THROW)] + wasm::repeated(st.depth, Instr::Drop) + dispatch(
                    i,
                    c.catches(),
                    (c.loop_depth(b) + 1) as u32,
                ),
                0,
            ),
        )
    } else {
        Some(st.adding(seq![Instr::Call(THROW), Instr::Return], 0))
    }
}

/// The landings of the first `k` of `n` cases of a switch in block `b`.
pub open spec fn landings(c: Ctx, b: int, cases: Seq<usize>, k: nat, st: St) -> Option<St>
    decreases k,
{
    if k == 0 {
        Some(st)
    } else {
        match landings(c, b, cases, (k - 1) as nat, st) {
            None => None,
            Some(s) => match blocks::block_of(c.leaders(), cases[k - 1]) {
                None => None,
                Some(tb) => match record(s, tb, 0) {
                    None => None,
                    Some(s2) => Some(
                        s2.adding(
                            seq![Instr::End] + goto(
                                tb,
                                (c.loop_depth(b) + (cases.len() - (k - 1))) as u32,
                            ),
                            s2.depth,
                        ),
                    ),
                },
            },
        }
    }
}

/// The selector to an int, and by `br_table` to its landing.
pub open spec fn select_case(n: nat) -> Seq<Instr> {
    seq![
        Instr::Call(COERCE_I),
        Instr::Cvt(Cvtop::I32WrapI64),
        Instr::LocalSet(SCRATCH),
    ] + wasm::repeated(n + 1, Instr::Block(BlockTy::Empty)) + seq![
        Instr::LocalGet(SCRATCH),
        Instr::BrTable(n as u32, n as u32),
    ]
}

pub open spec fn switch(c: Ctx, b: int, idx: u32, st: St) -> Option<St> {
    if st.depth != 1 || idx >= c.switches.len() {
        None
    } else {
        let sw = c.switches[idx as int];
        let n = sw.cases@.len();
        match landings(c, b, sw.cases@, n, st.adding(select_case(n), st.depth)) {
            None => None,
            Some(s) => match blocks::block_of(c.leaders(), sw.default) {
                None => None,
                Some(db) => match record(s, db, 0) {
                    None => None,
                    Some(s2) => Some(
                        s2.adding(seq![Instr::End] + goto(db, c.loop_depth(b)), 0),
                    ),
                },
            },
        }
    }
}

/// Op `i`, in block `b`.
pub open spec fn lower_op(c: Ctx, b: int, i: int, st: St) -> Option<St> {
    let op = c.ops[i];
    match op {
        JitOp::ReturnValue => return_with(st, 1, linear::box_int()),
        JitOp::ReturnValueBoxed => return_with(st, 1, Seq::empty()),
        JitOp::ReturnValueCoerced => return_with(st, 1, seq![Instr::Call(COERCE_RETURN)]),
        JitOp::ReturnValueCoerceBaked(_) => return_with(st, 1, seq![Instr::Call(COERCE_RETURN)]),
        JitOp::ReturnVoidBoxed(bits) => return_with(st, 0, seq![Instr::I64Const(bits)]),
        JitOp::ReturnDouble => return_with(st, 1, linear::box_double()),
        JitOp::Jump(t) => jump(c, b, t, st),
        JitOp::IfLt(t) => int_branch(c, b, op, t, st),
        JitOp::IfGe(t) => int_branch(c, b, op, t, st),
        JitOp::IfFalse(t) => int_branch(c, b, op, t, st),
        JitOp::IfTrue(t) => int_branch(c, b, op, t, st),
        JitOp::IfTrueBoxed(t) => boxed_branch(c, b, false, t, st),
        JitOp::IfFalseBoxed(t) => boxed_branch(c, b, true, t, st),
        JitOp::Throw => throw(c, b, i, st),
        JitOp::LookupSwitch(idx) => switch(c, b, idx, st),
        _ => match linear::linear(op, st.depth, c.lay, c.target) {
            Some((code, depth)) => Some(st.adding(code, depth)),
            None => None,
        },
    }
}

/// Some handler covers op `i`.
pub open spec fn covered(exceptions: Seq<ExcRange>, i: int) -> bool {
    exists|e: int|
        0 <= e < exceptions.len() && (#[trigger] exceptions[e]).from <= i < exceptions[e].to
}

/// What follows an op that may leave a pending error: nothing if its own code has seen to
/// it, the way to a handler if one covers it, a return otherwise.
pub open spec fn after_op(c: Ctx, b: int, i: int, st: St) -> Option<St> {
    let op = c.ops[i];
    if !manifest::can_throw(op) {
        Some(st)
    } else if c.exceptions.len() == 0 {
        if manifest::bails_itself(op) {
            Some(st)
        } else {
            Some(st.adding(linear::perr_bail(c.lay.perr_index), st.depth))
        }
    } else if !covered(c.exceptions, i) {
        Some(st.adding(linear::perr_bail(c.lay.perr_index), st.depth))
    } else if st.depth > SPILL_POOL {
        None
    } else {
        Some(
            st.adding(
                spill(st.depth) + seq![
                    Instr::Call(c.lay.perr_index),
                    Instr::If(BlockTy::Empty),
                ] + dispatch(i, c.catches(), (c.loop_depth(b) + 2) as u32) + seq![Instr::End]
                    + reload(st.depth),
                st.depth,
            ),
        )
    }
}

/// Op `i`, in block `b`, with what follows it.
pub open spec fn step(c: Ctx, b: int, i: int, st: St) -> Option<St> {
    match lower_op(c, b, i, st) {
        Some(s) => after_op(c, b, i, s),
        None => None,
    }
}

/// The ops from `from` up to `to`, in block `b`.
pub open spec fn steps(c: Ctx, b: int, from: int, to: int, st: St) -> Option<St>
    decreases to - from,
{
    if to <= from {
        Some(st)
    } else {
        match steps(c, b, from, to - 1, st) {
            Some(s) => step(c, b, to - 1, s),
            None => None,
        }
    }
}

/// The start of block `b`: carried operands come back, a handler finds what was caught.
pub open spec fn open_block(c: Ctx, b: int, st: St) -> Option<St> {
    let d: nat = match st.entry[b] {
        Some(d) => d as nat,
        None => 0,
    };
    if d > SPILL_POOL {
        None
    } else if blocks::is_catch(c.exceptions, c.leaders()[b]) {
        Some(
            st.adding(
                seq![Instr::End] + reload(d) + seq![Instr::I64Const(0), Instr::Call(POP_CAUGHT)],
                d + 1,
            ),
        )
    } else {
        Some(st.adding(seq![Instr::End] + reload(d), d))
    }
}

/// The end of block `b`: where its last op does not end it, the next block follows.
pub open spec fn close_block(c: Ctx, b: int, st: St) -> Option<St> {
    let end = c.end(b);
    if end != c.ops.len() && op::ends_block(c.ops[end - 1]) {
        Some(st)
    } else if !c.carries(st.depth) {
        None
    } else if b + 1 < c.block_count() {
        match record(st, b + 1, st.depth) {
            None => None,
            Some(s) => Some(s.adding(spill(st.depth) + goto(b + 1, c.loop_depth(b)), 0)),
        }
    } else if st.depth != 0 {
        None
    } else {
        Some(st)
    }
}

/// Block `b`.
pub open spec fn lower_block(c: Ctx, b: int, st: St) -> Option<St> {
    match open_block(c, b, st) {
        None => None,
        Some(s) => match steps(c, b, c.leaders()[b] as int, c.end(b), s) {
            None => None,
            Some(s2) => close_block(c, b, s2),
        },
    }
}

/// The first `n` blocks.
pub open spec fn lower_blocks(c: Ctx, n: nat, st: St) -> Option<St>
    decreases n,
{
    if n == 0 {
        Some(st)
    } else {
        match lower_blocks(c, (n - 1) as nat, st) {
            Some(s) => lower_block(c, n - 1, s),
            None => None,
        }
    }
}

/// On the web the function copies its registers into its frame.
pub open spec fn prologue(target: Target) -> Seq<Instr> {
    if target.web {
        seq![
            Instr::LocalGet(STATE_PTR),
            Instr::LocalGet(REGS_PTR),
            Instr::LocalGet(REGS_LEN),
            Instr::MemoryCopy(1, 0),
        ]
    } else {
        Seq::empty()
    }
}

/// The head of the dispatch loop over `n` blocks.
pub open spec fn dispatch_head(n: nat) -> Seq<Instr> {
    seq![Instr::Loop(BlockTy::Empty)] + wasm::repeated(n, Instr::Block(BlockTy::Empty)) + seq![
        Instr::LocalGet(BLOCK),
        Instr::BrTable(n as u32, 0),
    ]
}

/// Before the first block: only it is known to be entered, with no operands.
pub open spec fn start(c: Ctx) -> St {
    let n = c.block_count();
    St {
        code: prologue(c.target) + dispatch_head(n),
        depth: 0,
        entry: Seq::new(
            n,
            |b: int|
                if b == 0 {
                    Some(0usize)
                } else {
                    None
                },
        ),
    }
}

/// The whole body; `None` if lowering declines.
pub open spec fn body_code(c: Ctx) -> Option<Seq<Instr>> {
    if !blocks::targets_ok(c.ops, c.switches, c.exceptions) {
        None
    } else {
        match lower_blocks(c, c.block_count(), start(c)) {
            None => None,
            Some(s) => Some(s.code + seq![Instr::End, Instr::Unreachable, Instr::End]),
        }
    }
}

/// What lowering asks of a method: indices in range, and sizes that labels and block numbers
/// can count.
pub open spec fn lowerable(ops: Seq<JitOp>, switches: Seq<SwitchTable>) -> bool {
    &&& ops.len() < 0x4000_0000
    &&& manifest::all_in_range(ops)
    &&& forall|s: int|
        0 <= s < switches.len() ==> (#[trigger] switches[s]).cases@.len() < 0x4000_0000
}

/// Whether a method meets what lowering asks of it.
pub fn is_lowerable(ops: &[JitOp], switches: &[SwitchTable]) -> (r: bool)
    ensures
        r == lowerable(ops@, switches@),
{
    if ops.len() >= 0x4000_0000 || !manifest::ops_in_range(ops) {
        return false;
    }
    let mut s: usize = 0;
    while s < switches.len()
        invariant
            s <= switches@.len(),
            forall|k: int| 0 <= k < s ==> (#[trigger] switches@[k]).cases@.len() < 0x4000_0000,
        decreases switches@.len() - s,
    {
        if switches[s].cases.len() >= 0x4000_0000 {
            return false;
        }
        s = s + 1;
    }
    true
}

/// A method on its way through lowering.
struct Unit<'a> {
    ops: &'a [JitOp],
    switches: &'a [SwitchTable],
    exceptions: &'a [ExcRange],
    lay: Layout,
    target: Target,
    leaders: Vec<usize>,
    catches: Vec<(u64, i32)>,
    spills: bool,
}

impl Unit<'_> {
    spec fn ctx(self) -> Ctx {
        Ctx {
            ops: self.ops@,
            switches: self.switches@,
            exceptions: self.exceptions@,
            lay: self.lay,
            target: self.target,
        }
    }

    spec fn ok(self) -> bool {
        &&& lowerable(self.ops@, self.switches@)
        &&& forall|i: int| 0 <= i < self.ops@.len() ==> linear::fits(#[trigger] self.ops@[i], self.lay)
        &&& blocks::targets_ok(self.ops@, self.switches@, self.exceptions@)
        &&& self.leaders@ == self.ctx().leaders()
        &&& blocks::increasing(self.leaders@)
        &&& 0 < self.leaders@.len() < 0x4000_0000
        &&& forall|k: int|
            0 <= k < self.leaders@.len() ==> #[trigger] self.leaders@[k] < blocks::places(self.ops@)
        &&& self.catches@ == self.ctx().catches()
        &&& self.spills == !int_model(self.ops@)
    }

    /// Op `i` belongs to block `b`.
    spec fn at(self, b: int, i: int) -> bool {
        0 <= b < self.leaders@.len() && self.leaders@[b] <= i < self.ctx().end(b)
            && i < self.ops@.len()
    }

    fn carries(&self, d: usize) -> (r: bool)
        requires
            self.ok(),
        ensures
            r == self.ctx().carries(d as nat),
    {
        d == 0 || (self.spills && d <= SPILL_POOL as usize)
    }

    fn loop_depth(&self, b: usize) -> (r: u32)
        requires
            self.ok(),
            b < self.leaders@.len(),
        ensures
            r == self.ctx().loop_depth(b as int),
            r == self.leaders@.len() - 1 - b,
    {
        (self.leaders.len() - 1 - b) as u32
    }

    fn block_of(&self, t: usize) -> (r: Option<usize>)
        requires
            self.ok(),
        ensures
            match blocks::block_of(self.ctx().leaders(), t) {
                Some(b) => r == Some(b as usize) && 0 <= b < self.leaders@.len(),
                None => r is None,
            },
    {
        blocks::find_block(&self.leaders, t)
    }
}

/// How far lowering has come.
struct State {
    code: Vec<Instr>,
    depth: usize,
    entry: Vec<Option<usize>>,
}

impl View for State {
    type V = St;

    closed spec fn view(&self) -> St {
        St { code: self.code@, depth: self.depth as nat, entry: self.entry@ }
    }
}

fn emit_spill(code: &mut Vec<Instr>, d: usize)
    requires
        d <= SPILL_POOL,
    ensures
        final(code)@ == old(code)@ + spill(d as nat),
{
    let mut j: usize = 0;
    while j < d
        invariant
            j <= d <= SPILL_POOL,
            code@ == old(code)@ + spill(d as nat).take(j as int),
        decreases d - j,
    {
        code.push(Instr::LocalSet(SPILL_BASE + (d - 1 - j) as u32));
        j = j + 1;
    }
}

fn emit_reload(code: &mut Vec<Instr>, d: usize)
    requires
        d <= SPILL_POOL,
    ensures
        final(code)@ == old(code)@ + reload(d as nat),
{
    let mut j: usize = 0;
    while j < d
        invariant
            j <= d <= SPILL_POOL,
            code@ == old(code)@ + reload(d as nat).take(j as int),
        decreases d - j,
    {
        code.push(Instr::LocalGet(SPILL_BASE + j as u32));
        j = j + 1;
    }
}

fn emit_goto(code: &mut Vec<Instr>, b: usize, label: u32)
    requires
        b < 0x4000_0000,
    ensures
        final(code)@ == old(code)@ + goto(b as int, label),
{
    emit(code, [Instr::I32Const(b as i32), Instr::LocalSet(BLOCK), Instr::Br(label)]);
}

fn emit_choose_block(code: &mut Vec<Instr>, taken: usize, other: usize)
    requires
        taken < 0x4000_0000,
        other <= 0x4000_0000,
    ensures
        final(code)@ == old(code)@ + choose_block(taken as int, other as int),
{
    emit(
        code,
        [
            Instr::If(BlockTy::Empty),
            Instr::I32Const(taken as i32),
            Instr::LocalSet(BLOCK),
            Instr::Else,
            Instr::I32Const(other as i32),
            Instr::LocalSet(BLOCK),
            Instr::End,
        ],
    );
}

/// Records `d` as the operand-stack height at the entry of block `b`; `false` if another
/// height is recorded there.
fn record_entry(st: &mut State, b: usize, d: usize) -> (r: bool)
    requires
        b < old(st)@.entry.len(),
    ensures
        match record(old(st)@, b as int, d as nat) {
            Some(s) => r && final(st)@ == s,
            None => !r,
        },
        r ==> final(st)@.entry.len() == old(st)@.entry.len(),
{
    match st.entry[b] {
        None => {
            st.entry.set(b, Some(d));
            true
        },
        Some(prev) => prev == d,
    }
}

fn emit_catch_chain(code: &mut Vec<Instr>, catches: &Vec<(u64, i32)>)
    ensures
        final(code)@ == old(code)@ + catch_chain(catches@),
{
    let mut k: usize = 0;
    while k < catches.len()
        invariant
            k <= catches@.len(),
            code@ == old(code)@ + catch_chain(catches@.take(k as int)),
        decreases catches@.len() - k,
    {
        emit(
            code,
            [
                Instr::LocalGet(SCRATCH64),
                Instr::I64Const(catches[k].0),
                Instr::Rel(Relop::I64Eq),
                Instr::If(BlockTy::Empty),
                Instr::I32Const(catches[k].1),
                Instr::LocalSet(BLOCK),
                Instr::End,
            ],
        );
        assert(catches@.take(k + 1).drop_last() =~= catches@.take(k as int));
        k = k + 1;
    }
    assert(catches@.take(k as int) =~= catches@);
}

/// The way from a pending error raised at op `i` to its handler, or out of the method.
fn emit_dispatch_core(code: &mut Vec<Instr>, i: usize, catches: &Vec<(u64, i32)>, label: u32)
    ensures
        final(code)@ == old(code)@ + dispatch(i as int, catches@, label),
{
    emit(
        code,
        [
            Instr::I64Const(i as u64),
            Instr::Call(DISPATCH_EXC),
            Instr::LocalSet(SCRATCH64),
            Instr::LocalGet(SCRATCH64),
            Instr::I64Const(0),
            Instr::Rel(Relop::I64GeS),
            Instr::If(BlockTy::Empty),
        ],
    );
    emit_catch_chain(code, catches);
    emit(
        code,
        [Instr::Br(label), Instr::Else, Instr::I64Const(UNDEFINED_BITS), Instr::Return, Instr::End],
    );
}

/// What a step of lowering has to give: the state that the model gives, or a refusal where it
/// gives none.
spec fn gives(model: Option<St>, ok: bool, st: St) -> bool {
    match model {
        Some(s) => ok && st =~= s,
        None => !ok,
    }
}

fn emit_return<const N: usize>(st: &mut State, pop: usize, code: [Instr; N]) -> (ok: bool)
    ensures
        gives(return_with(old(st)@, pop as nat, code@), ok, final(st)@),
{
    if st.depth < pop {
        return false;
    }
    emit(&mut st.code, code);
    st.code.push(Instr::Return);
    st.depth = 0;
    true
}

fn emit_jump(u: &Unit, b: usize, t: usize, st: &mut State) -> (ok: bool)
    requires
        u.ok(),
        b < u.leaders@.len(),
        old(st)@.entry.len() == u.leaders@.len(),
    ensures
        gives(jump(u.ctx(), b as int, t, old(st)@), ok, final(st)@),
{
    let d: usize = st.depth;
    if !u.carries(d) {
        return false;
    }
    let tb: usize = match u.block_of(t) {
        Some(tb) => tb,
        None => {
            return false;
        },
    };
    if !record_entry(st, tb, d) {
        return false;
    }
    emit_spill(&mut st.code, d);
    emit_goto(&mut st.code, tb, u.loop_depth(b));
    st.depth = 0;
    true
}

fn emit_int_branch(u: &Unit, b: usize, op: JitOp, t: usize, st: &mut State) -> (ok: bool)
    requires
        u.ok(),
        b < u.leaders@.len(),
        old(st)@.entry.len() == u.leaders@.len(),
    ensures
        gives(int_branch(u.ctx(), b as int, op, t, old(st)@), ok, final(st)@),
{
    let needed: usize = match op {
        JitOp::IfLt(_) | JitOp::IfGe(_) => 2,
        _ => 1,
    };
    if st.depth != needed || b + 1 >= u.leaders.len() {
        return false;
    }
    let tb: usize = match u.block_of(t) {
        Some(tb) => tb,
        None => {
            return false;
        },
    };
    match op {
        JitOp::IfLt(_) => st.code.push(Instr::Rel(Relop::I32LtS)),
        JitOp::IfGe(_) => st.code.push(Instr::Rel(Relop::I32GeS)),
        JitOp::IfFalse(_) => st.code.push(Instr::Rel(Relop::I32Eqz)),
        _ => {},
    }
    emit_choose_block(&mut st.code, tb, b + 1);
    st.code.push(Instr::Br(u.loop_depth(b)));
    st.depth = 0;
    true
}

fn emit_boxed_branch(u: &Unit, b: usize, negate: bool, t: usize, st: &mut State) -> (ok: bool)
    requires
        u.ok(),
        b < u.leaders@.len(),
        old(st)@.entry.len() == u.leaders@.len(),
    ensures
        gives(boxed_branch(u.ctx(), b as int, negate, t, old(st)@), ok, final(st)@),
{
    if st.depth < 1 || b + 1 >= u.leaders.len() {
        return false;
    }
    let carried: usize = st.depth - 1;
    if !u.carries(carried) {
        return false;
    }
    let tb: usize = match u.block_of(t) {
        Some(tb) => tb,
        None => {
            return false;
        },
    };
    if !record_entry(st, tb, carried) || !record_entry(st, b + 1, carried) {
        return false;
    }
    emit_to_boolean_i32(&mut st.code);
    if negate {
        st.code.push(Instr::Rel(Relop::I32Eqz));
    }
    emit_choose_block(&mut st.code, tb, b + 1);
    emit_spill(&mut st.code, carried);
    st.code.push(Instr::Br(u.loop_depth(b)));
    st.depth = 0;
    true
}

fn emit_throw(u: &Unit, b: usize, i: usize, st: &mut State) -> (ok: bool)
    requires
        u.ok(),
        b < u.leaders@.len(),
        old(st)@.depth < 0x8000_0000,
    ensures
        gives(throw(u.ctx(), b as int, i as int, old(st)@), ok, final(st)@),
{
    if st.depth < 1 {
        return false;
    }
    st.code.push(Instr::Call(THROW));
    if u.exceptions.len() > 0 {
        emit_repeated(&mut st.code, st.depth as u32, Instr::Drop);
        emit_dispatch_core(&mut st.code, i, &u.catches, u.loop_depth(b) + 1);
    } else {
        st.code.push(Instr::Return);
    }
    st.depth = 0;
    true
}

proof fn lemma_landings_refuse(c: Ctx, b: int, cases: Seq<usize>, k: nat, n: nat, st: St)
    requires
        k <= n,
        landings(c, b, cases, k, st) is None,
    ensures
        landings(c, b, cases, n, st) is None,
    decreases n,
{
    if k < n {
        lemma_landings_refuse(c, b, cases, k, (n - 1) as nat, st);
    }
}

fn emit_landings(u: &Unit, b: usize, sw: &SwitchTable, st: &mut State) -> (ok: bool)
    requires
        u.ok(),
        b < u.leaders@.len(),
        old(st)@.entry.len() == u.leaders@.len(),
        sw.cases@.len() < 0x4000_0000,
    ensures
        gives(landings(u.ctx(), b as int, sw.cases@, sw.cases@.len(), old(st)@), ok, final(st)@),
        ok ==> final(st)@.entry.len() == old(st)@.entry.len(),
{
    let n: usize = sw.cases.len();
    let mut k: usize = 0;
    while k < n
        invariant
            u.ok(),
            b < u.leaders@.len(),
            k <= n,
            n == sw.cases@.len(),
            n < 0x4000_0000,
            st@.entry.len() == u.leaders@.len(),
            landings(u.ctx(), b as int, sw.cases@, k as nat, old(st)@) == Some(st@),
        decreases n - k,
    {
        let tb: usize = match u.block_of(sw.cases[k]) {
            Some(tb) => tb,
            None => {
                proof {
                    lemma_landings_refuse(u.ctx(), b as int, sw.cases@, (k + 1) as nat, n as nat, old(st)@);
                }
                return false;
            },
        };
        let ghost before = st@;
        if !record_entry(st, tb, 0) {
            proof {
                lemma_landings_refuse(u.ctx(), b as int, sw.cases@, (k + 1) as nat, n as nat, old(st)@);
            }
            return false;
        }
        let ghost recorded = st@;
        st.code.push(Instr::End);
        emit_goto(&mut st.code, tb, u.loop_depth(b) + (n - k) as u32);
        proof {
            let label = (u.ctx().loop_depth(b as int) + (sw.cases@.len() - k)) as u32;
            assert(st@ =~= recorded.adding(seq![Instr::End] + goto(tb as int, label), recorded.depth));
        }
        k = k + 1;
    }
    true
}

fn emit_switch(u: &Unit, b: usize, idx: u32, st: &mut State) -> (ok: bool)
    requires
        u.ok(),
        b < u.leaders@.len(),
        old(st)@.entry.len() == u.leaders@.len(),
    ensures
        gives(switch(u.ctx(), b as int, idx, old(st)@), ok, final(st)@),
{
    if st.depth != 1 || idx as usize >= u.switches.len() {
        return false;
    }
    let sw = &u.switches[idx as usize];
    let n: usize = sw.cases.len();
    emit(
        &mut st.code,
        [Instr::Call(COERCE_I), Instr::Cvt(Cvtop::I32WrapI64), Instr::LocalSet(SCRATCH)],
    );
    emit_repeated(&mut st.code, n as u32 + 1, Instr::Block(BlockTy::Empty));
    emit(&mut st.code, [Instr::LocalGet(SCRATCH), Instr::BrTable(n as u32, n as u32)]);
    assert(st@ =~= old(st)@.adding(select_case(n as nat), old(st)@.depth));
    if !emit_landings(u, b, sw, st) {
        return false;
    }
    let db: usize = match u.block_of(sw.default) {
        Some(db) => db,
        None => {
            return false;
        },
    };
    if !record_entry(st, db, 0) {
        return false;
    }
    st.code.push(Instr::End);
    emit_goto(&mut st.code, db, u.loop_depth(b));
    st.depth = 0;
    true
}

/// Recording the entry of a block keeps the number of entries.
pub proof fn lemma_record_shape(c: Ctx, st: St, t: usize, d: nat)
    requires
        st.entry.len() == c.block_count(),
    ensures
        blocks::block_of(c.leaders(), t) matches Some(tb) ==> 0 <= tb < st.entry.len()
            && (record(st, tb, d) matches Some(s) ==> s.entry.len() == st.entry.len() && s.depth
            == st.depth),
{
    if c.leaders().contains(t) {
        let k = choose|k: int| 0 <= k < c.leaders().len() && c.leaders()[k] == t;
        assert(c.leaders()[c.leaders().index_of(t)] == t);
    }
}

proof fn lemma_landings_shape(c: Ctx, b: int, cases: Seq<usize>, k: nat, st: St)
    requires
        st.entry.len() == c.block_count(),
    ensures
        landings(c, b, cases, k, st) matches Some(s) ==> s.entry.len() == st.entry.len(),
    decreases k,
{
    if k > 0 {
        lemma_landings_shape(c, b, cases, (k - 1) as nat, st);
        if let Some(s) = landings(c, b, cases, (k - 1) as nat, st) {
            lemma_record_shape(c, s, cases[k - 1], 0);
        }
    }
}

/// An op raises the operand stack by one at most.
proof fn lemma_step_shape(c: Ctx, b: int, i: int, st: St)
    requires
        st.entry.len() == c.block_count(),
        0 <= b < c.block_count(),
    ensures
        lower_op(c, b, i, st) matches Some(s) ==> s.entry.len() == st.entry.len() && s.depth
            <= st.depth + 1,
        step(c, b, i, st) matches Some(s) ==> s.entry.len() == st.entry.len() && s.depth
            <= st.depth + 1,
{
    match c.ops[i] {
        JitOp::LookupSwitch(idx) => {
            if idx < c.switches.len() {
                let sw = c.switches[idx as int];
                let n = sw.cases@.len();
                let open = st.adding(select_case(n), st.depth);
                lemma_landings_shape(c, b, sw.cases@, n, open);
                if let Some(s) = landings(c, b, sw.cases@, n, open) {
                    lemma_record_shape(c, s, sw.default, 0);
                }
            }
        },
        JitOp::Jump(t) => lemma_record_shape(c, st, t, st.depth),
        JitOp::IfTrueBoxed(t) | JitOp::IfFalseBoxed(t) => lemma_record_shape(
            c,
            st,
            t,
            (st.depth - 1) as nat,
        ),
        _ => {},
    }
    linear::lemma_arity_small(c.ops[i]);
}

fn emit_op(u: &Unit, b: usize, i: usize, st: &mut State) -> (ok: bool)
    requires
        u.ok(),
        u.at(b as int, i as int),
        old(st)@.entry.len() == u.leaders@.len(),
        old(st)@.depth < 0x7fff_ffff,
    ensures
        gives(lower_op(u.ctx(), b as int, i as int, old(st)@), ok, final(st)@),
{
    let op = u.ops[i];
    match op {
        JitOp::ReturnValue => {
            if st.depth < 1 {
                return false;
            }
            emit_box_int(&mut st.code);
            emit_return(st, 1, [])
        },
        JitOp::ReturnValueBoxed => emit_return(st, 1, []),
        JitOp::ReturnValueCoerced | JitOp::ReturnValueCoerceBaked(_) => emit_return(
            st,
            1,
            [Instr::Call(COERCE_RETURN)],
        ),
        JitOp::ReturnVoidBoxed(bits) => emit_return(st, 0, [Instr::I64Const(bits)]),
        JitOp::ReturnDouble => {
            if st.depth < 1 {
                return false;
            }
            emit_box_double(&mut st.code);
            emit_return(st, 1, [])
        },
        JitOp::Jump(t) => emit_jump(u, b, t, st),
        JitOp::IfLt(t) | JitOp::IfGe(t) | JitOp::IfFalse(t) | JitOp::IfTrue(t) => emit_int_branch(
            u,
            b,
            op,
            t,
            st,
        ),
        JitOp::IfTrueBoxed(t) => emit_boxed_branch(u, b, false, t, st),
        JitOp::IfFalseBoxed(t) => emit_boxed_branch(u, b, true, t, st),
        JitOp::Throw => emit_throw(u, b, i, st),
        JitOp::LookupSwitch(idx) => emit_switch(u, b, idx, st),
        _ => {
            let d: usize = st.depth;
            match emit_linear(&mut st.code, op, d, &u.lay, &u.target) {
                Some(after) => {
                    st.depth = after;
                    true
                },
                None => false,
            }
        },
    }
}

fn is_covered(exceptions: &[ExcRange], i: usize) -> (r: bool)
    ensures
        r == covered(exceptions@, i as int),
{
    let mut e: usize = 0;
    while e < exceptions.len()
        invariant
            e <= exceptions@.len(),
            forall|k: int|
                0 <= k < e ==> !((#[trigger] exceptions@[k]).from <= i < exceptions@[k].to),
        decreases exceptions@.len() - e,
    {
        if exceptions[e].from <= i && i < exceptions[e].to {
            return true;
        }
        e = e + 1;
    }
    false
}

fn emit_after_op(u: &Unit, b: usize, i: usize, st: &mut State) -> (ok: bool)
    requires
        u.ok(),
        u.at(b as int, i as int),
    ensures
        gives(after_op(u.ctx(), b as int, i as int, old(st)@), ok, final(st)@),
{
    let op = u.ops[i];
    if !manifest::is_throwing_call_or_dm(op) {
        return true;
    }
    if u.exceptions.len() == 0 {
        if !manifest::is_self_bailing_call(op) {
            emit_perr_bail(&mut st.code, u.lay.perr_index);
        }
    } else if !is_covered(u.exceptions, i) {
        emit_perr_bail(&mut st.code, u.lay.perr_index);
    } else if st.depth > SPILL_POOL as usize {
        return false;
    } else {
        let d: usize = st.depth;
        emit_spill(&mut st.code, d);
        emit(&mut st.code, [Instr::Call(u.lay.perr_index), Instr::If(BlockTy::Empty)]);
        emit_dispatch_core(&mut st.code, i, &u.catches, u.loop_depth(b) + 2);
        st.code.push(Instr::End);
        emit_reload(&mut st.code, d);
    }
    true
}

proof fn lemma_steps_refuse(c: Ctx, b: int, from: int, k: int, to: int, st: St)
    requires
        from < k <= to,
        steps(c, b, from, k, st) is None,
    ensures
        steps(c, b, from, to, st) is None,
    decreases to - k,
{
    if k < to {
        lemma_steps_refuse(c, b, from, k, to - 1, st);
    }
}

fn emit_ops(u: &Unit, b: usize, from: usize, to: usize, st: &mut State) -> (ok: bool)
    requires
        u.ok(),
        b < u.leaders@.len(),
        from == u.leaders@[b as int],
        to == u.ctx().end(b as int),
        to <= u.ops@.len(),
        old(st)@.entry.len() == u.leaders@.len(),
        old(st)@.depth <= SPILL_POOL + 1,
    ensures
        gives(steps(u.ctx(), b as int, from as int, to as int, old(st)@), ok, final(st)@),
        ok ==> final(st)@.entry.len() == u.leaders@.len(),
{
    let mut i: usize = from;
    while i < to
        invariant
            u.ok(),
            b < u.leaders@.len(),
            from == u.leaders@[b as int],
            to == u.ctx().end(b as int),
            to <= u.ops@.len(),
            from <= i,
            i <= to || to < from,
            steps(u.ctx(), b as int, from as int, i as int, old(st)@) == Some(st@),
            st@.entry.len() == u.leaders@.len(),
            st@.depth <= SPILL_POOL + 1 + (i - from),
        decreases to - i,
    {
        let ghost before = st@;
        proof {
            lemma_step_shape(u.ctx(), b as int, i as int, before);
        }
        if !emit_op(u, b, i, st) || !emit_after_op(u, b, i, st) {
            proof {
                assert(steps(u.ctx(), b as int, from as int, i + 1, old(st)@) is None);
                lemma_steps_refuse(u.ctx(), b as int, from as int, i + 1, to as int, old(st)@);
            }
            return false;
        }
        assert(step(u.ctx(), b as int, i as int, before) == Some(st@));
        i = i + 1;
    }
    true
}

fn is_catch_target(exceptions: &[ExcRange], t: usize) -> (r: bool)
    ensures
        r == blocks::is_catch(exceptions@, t),
{
    let mut e: usize = 0;
    while e < exceptions.len()
        invariant
            e <= exceptions@.len(),
            forall|k: int| 0 <= k < e ==> (#[trigger] exceptions@[k]).target != t,
        decreases exceptions@.len() - e,
    {
        if exceptions[e].target == t {
            return true;
        }
        e = e + 1;
    }
    false
}

fn emit_open_block(u: &Unit, b: usize, st: &mut State) -> (ok: bool)
    requires
        u.ok(),
        b < u.leaders@.len(),
        old(st)@.entry.len() == u.leaders@.len(),
    ensures
        gives(open_block(u.ctx(), b as int, old(st)@), ok, final(st)@),
{
    let d: usize = match st.entry[b] {
        Some(d) => d,
        None => 0,
    };
    if d > SPILL_POOL as usize {
        return false;
    }
    st.code.push(Instr::End);
    emit_reload(&mut st.code, d);
    st.depth = d;
    if is_catch_target(u.exceptions, u.leaders[b]) {
        emit(&mut st.code, [Instr::I64Const(0), Instr::Call(POP_CAUGHT)]);
        st.depth = d + 1;
    }
    true
}

fn emit_close_block(u: &Unit, b: usize, end: usize, st: &mut State) -> (ok: bool)
    requires
        u.ok(),
        b < u.leaders@.len(),
        end == u.ctx().end(b as int),
        end <= u.ops@.len(),
        end == u.ops@.len() || end > 0,
        old(st)@.entry.len() == u.leaders@.len(),
    ensures
        gives(close_block(u.ctx(), b as int, old(st)@), ok, final(st)@),
        ok ==> final(st)@.entry.len() == u.leaders@.len(),
{
    if end != u.ops.len() && u.ops[end - 1].is_terminator() {
        return true;
    }
    let d: usize = st.depth;
    if !u.carries(d) {
        return false;
    }
    if b + 1 < u.leaders.len() {
        if !record_entry(st, b + 1, d) {
            return false;
        }
        emit_spill(&mut st.code, d);
        emit_goto(&mut st.code, b + 1, u.loop_depth(b));
        st.depth = 0;
        true
    } else {
        d == 0
    }
}

fn emit_block(u: &Unit, b: usize, st: &mut State) -> (ok: bool)
    requires
        u.ok(),
        b < u.leaders@.len(),
        old(st)@.entry.len() == u.leaders@.len(),
    ensures
        gives(lower_block(u.ctx(), b as int, old(st)@), ok, final(st)@),
        ok ==> final(st)@.entry.len() == u.leaders@.len(),
{
    let from: usize = u.leaders[b];
    let to: usize = blocks::end_of_block(&u.leaders, u.ops.len(), b);
    assert(b + 1 < u.leaders@.len() ==> u.leaders@[b as int] < u.leaders@[b + 1] < blocks::places(
        u.ops@,
    ));
    emit_open_block(u, b, st) && emit_ops(u, b, from, to, st) && emit_close_block(u, b, to, st)
}

proof fn lemma_blocks_refuse(c: Ctx, k: nat, n: nat, st: St)
    requires
        k <= n,
        lower_blocks(c, k, st) is None,
    ensures
        lower_blocks(c, n, st) is None,
    decreases n,
{
    if k < n {
        lemma_blocks_refuse(c, k, (n - 1) as nat, st);
    }
}

fn catch_blocks(leaders: &Vec<usize>, exceptions: &[ExcRange]) -> (r: Vec<(u64, i32)>)
    requires
        leaders@.len() < 0x4000_0000,
    ensures
        r@ == catch_list(leaders@, exceptions@, leaders@.len()),
{
    let mut r: Vec<(u64, i32)> = Vec::new();
    let mut n: usize = 0;
    while n < leaders.len()
        invariant
            n <= leaders@.len() < 0x4000_0000,
            r@ == catch_list(leaders@, exceptions@, n as nat),
        decreases leaders@.len() - n,
    {
        if is_catch_target(exceptions, leaders[n]) {
            r.push((leaders[n] as u64, n as i32));
        }
        n = n + 1;
    }
    r
}

fn emit_prologue(target: &Target, n: usize) -> (r: State)
    requires
        0 < n < 0x4000_0000,
    ensures
        r@.code == prologue(*target) + dispatch_head(n as nat),
        r@.depth == 0,
        r@.entry == Seq::new(n as nat, |b: int| if b == 0 { Some(0usize) } else { None }),
{
    let mut code: Vec<Instr> = Vec::new();
    if target.web {
        emit(
            &mut code,
            [
                Instr::LocalGet(STATE_PTR),
                Instr::LocalGet(REGS_PTR),
                Instr::LocalGet(REGS_LEN),
                Instr::MemoryCopy(1, 0),
            ],
        );
    }
    assert(code@ =~= prologue(*target));
    code.push(Instr::Loop(BlockTy::Empty));
    emit_repeated(&mut code, n as u32, Instr::Block(BlockTy::Empty));
    emit(&mut code, [Instr::LocalGet(BLOCK), Instr::BrTable(n as u32, 0)]);
    let mut entry: Vec<Option<usize>> = Vec::new();
    entry.push(Some(0));
    let mut b: usize = 1;
    while b < n
        invariant
            1 <= b <= n,
            entry@ =~= Seq::new(b as nat, |k: int| if k == 0 { Some(0usize) } else { None }),
        decreases n - b,
    {
        entry.push(None);
        b = b + 1;
    }
    State { code, depth: 0, entry }
}

/// The code of one method against `lay`, whose import indices its calls use. `None` if
/// lowering declines: a branch out of range, an op without a lowering, or an operand stack
/// that underflows, differs between two ways to a block, or cannot be carried there.
pub fn emit_body(
    ops: &[JitOp],
    switches: &[SwitchTable],
    exceptions: &[ExcRange],
    lay: &Layout,
    target: &Target,
) -> (r: Option<Vec<Instr>>)
    requires
        lowerable(ops@, switches@),
        forall|i: int| 0 <= i < ops@.len() ==> linear::fits(#[trigger] ops@[i], *lay),
    ensures
        match body_code(
            Ctx {
                ops: ops@,
                switches: switches@,
                exceptions: exceptions@,
                lay: *lay,
                target: *target,
            },
        ) {
            Some(code) => r matches Some(v) && v@ == code,
            None => r is None,
        },
{
    let leaders = match blocks::block_leaders(ops, switches, exceptions) {
        Some(leaders) => leaders,
        None => {
            return None;
        },
    };
    proof {
        blocks::leaders_are_the_block_starts(ops@, switches@, exceptions@);
    }
    let n: usize = leaders.len();
    let catches = catch_blocks(&leaders, exceptions);
    let spills = !uses_int_model(ops);
    let u = Unit { ops, switches, exceptions, lay: *lay, target: *target, leaders, catches, spills };
    let ghost c = u.ctx();
    let mut st = emit_prologue(target, n);
    assert(st@ =~= start(c));
    let mut b: usize = 0;
    while b < n
        invariant
            u.ok(),
            c == u.ctx(),
            c == (Ctx {
                ops: ops@,
                switches: switches@,
                exceptions: exceptions@,
                lay: *lay,
                target: *target,
            }),
            b <= n,
            n == u.leaders@.len(),
            st@.entry.len() == n,
            lower_blocks(c, b as nat, start(c)) == Some(st@),
        decreases n - b,
    {
        if !emit_block(&u, b, &mut st) {
            proof {
                lemma_blocks_refuse(c, (b + 1) as nat, n as nat, start(c));
            }
            return None;
        }
        b = b + 1;
    }
    let mut code = st.code;
    emit(&mut code, [Instr::End, Instr::Unreachable, Instr::End]);
    Some(code)
}

} // verus!
