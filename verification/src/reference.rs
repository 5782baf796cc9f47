//! An interpreter of the int model: what compiled code of it has to compute.
//!
//! Locals are value words, operands are raw ints.

use crate::lower::linear;
use crate::lower::linear::box_int_word;
use crate::lower::op::JitOp;
use vstd::prelude::*;

verus! {

/// A method under way.
#[verifier::ext_equal]
pub struct Frame {
    pub pc: int,
    pub locals: Seq<u64>,
    pub stack: Seq<i32>,
}

/// What one op leads to.
pub enum Step {
    Next(Frame),
    Returned(u64),
    /// The op is not of the int model, or finds no operand, local or op.
    Stuck,
}

/// The int in a value word.
pub open spec fn int_of(word: u64) -> i32 {
    word as u32 as i32
}

pub open spec fn truth(b: bool) -> i32 {
    if b {
        1
    } else {
        0
    }
}

/// The result of a binary op.
pub open spec fn binary(op: JitOp, a: i32, b: i32) -> Option<i32> {
    match op {
        JitOp::AddI => Some(a.wrapping_add(b)),
        JitOp::SubtractI => Some(a.wrapping_sub(b)),
        JitOp::MultiplyI => Some(a.wrapping_mul(b)),
        JitOp::LessThan => Some(truth(a < b)),
        JitOp::LessEquals => Some(truth(a <= b)),
        JitOp::GreaterThan => Some(truth(a > b)),
        JitOp::GreaterEquals => Some(truth(a >= b)),
        JitOp::Equals => Some(truth(a == b)),
        _ => None,
    }
}

/// The result of a unary op.
pub open spec fn unary(op: JitOp, a: i32) -> Option<i32> {
    match op {
        JitOp::IncrementI => Some(a.wrapping_add(1)),
        JitOp::DecrementI => Some(a.wrapping_sub(1)),
        _ => None,
    }
}

/// Whether a branch on two operands is taken.
pub open spec fn takes_two(op: JitOp, a: i32, b: i32) -> Option<(bool, usize)> {
    match op {
        JitOp::IfLt(t) => Some((a < b, t)),
        JitOp::IfGe(t) => Some((a >= b, t)),
        _ => None,
    }
}

/// Whether a branch on one operand is taken.
pub open spec fn takes_one(op: JitOp, a: i32) -> Option<(bool, usize)> {
    match op {
        JitOp::IfFalse(t) => Some((a == 0, t)),
        JitOp::IfTrue(t) => Some((a != 0, t)),
        _ => None,
    }
}

impl Frame {
    pub open spec fn on(self, stack: Seq<i32>) -> Step {
        Step::Next(Frame { pc: self.pc + 1, stack, ..self })
    }

    pub open spec fn with_local(self, i: u32, v: i32, stack: Seq<i32>) -> Step {
        Step::Next(
            Frame {
                pc: self.pc + 1,
                locals: self.locals.update(i as int, linear::int_word(v)),
                stack,
            },
        )
    }

    pub open spec fn branch(self, taken: bool, t: usize, stack: Seq<i32>) -> Step {
        Step::Next(
            Frame {
                pc: if taken {
                    t as int
                } else {
                    self.pc + 1
                },
                stack,
                ..self
            },
        )
    }
}

/// One op.
pub open spec fn step(ops: Seq<JitOp>, f: Frame) -> Step {
    let n = f.stack.len();
    if !(0 <= f.pc < ops.len()) {
        Step::Stuck
    } else {
        match ops[f.pc] {
            JitOp::GetLocal(i) => if i < f.locals.len() {
                f.on(f.stack.push(int_of(f.locals[i as int])))
            } else {
                Step::Stuck
            },
            JitOp::SetLocal(i) => if n >= 1 && i < f.locals.len() {
                f.with_local(i, f.stack.last(), f.stack.drop_last())
            } else {
                Step::Stuck
            },
            JitOp::PushInt(v) => f.on(f.stack.push(v)),
            JitOp::IncLocalI(i) => if i < f.locals.len() {
                f.with_local(i, int_of(f.locals[i as int]).wrapping_add(1), f.stack)
            } else {
                Step::Stuck
            },
            JitOp::DecLocalI(i) => if i < f.locals.len() {
                f.with_local(i, int_of(f.locals[i as int]).wrapping_sub(1), f.stack)
            } else {
                Step::Stuck
            },
            JitOp::Pop => if n >= 1 {
                f.on(f.stack.drop_last())
            } else {
                Step::Stuck
            },
            JitOp::Dup => if n >= 1 {
                f.on(f.stack.push(f.stack.last()))
            } else {
                Step::Stuck
            },
            JitOp::Nop => f.on(f.stack),
            JitOp::Jump(t) => f.branch(true, t, f.stack),
            JitOp::ReturnValue => if n >= 1 {
                Step::Returned(linear::int_word(f.stack.last()))
            } else {
                Step::Stuck
            },
            op => if n >= 1 && unary(op, f.stack.last()) is Some {
                f.on(f.stack.drop_last().push(unary(op, f.stack.last())->0))
            } else if n >= 1 && takes_one(op, f.stack.last()) is Some {
                let (taken, t) = takes_one(op, f.stack.last())->0;
                f.branch(taken, t, f.stack.drop_last())
            } else if n >= 2 && binary(op, f.stack[n - 2], f.stack[n - 1]) is Some {
                f.on(f.stack.take(n - 2).push(binary(op, f.stack[n - 2], f.stack[n - 1])->0))
            } else if n >= 2 && takes_two(op, f.stack[n - 2], f.stack[n - 1]) is Some {
                let (taken, t) = takes_two(op, f.stack[n - 2], f.stack[n - 1])->0;
                f.branch(taken, t, f.stack.take(n - 2))
            } else {
                Step::Stuck
            },
        }
    }
}

/// What the method returns within `fuel` ops; `None` if it is not done by then, or gets stuck.
pub open spec fn result(ops: Seq<JitOp>, f: Frame, fuel: nat) -> Option<u64>
    decreases fuel,
{
    if fuel == 0 {
        None
    } else {
        match step(ops, f) {
            Step::Returned(v) => Some(v),
            Step::Next(g) => result(ops, g, (fuel - 1) as nat),
            Step::Stuck => None,
        }
    }
}

/// The start of a method.
pub open spec fn start(regs: Seq<u64>) -> Frame {
    Frame { pc: 0, locals: regs, stack: Seq::empty() }
}

fn int_in(word: u64) -> (r: i32)
    ensures
        r == int_of(word),
{
    word as u32 as i32
}

fn truth_of(b: bool) -> (r: i32)
    ensures
        r == truth(b),
{
    if b {
        1
    } else {
        0
    }
}

fn binary_op(op: JitOp, a: i32, b: i32) -> (r: Option<i32>)
    ensures
        r == binary(op, a, b),
{
    match op {
        JitOp::AddI => Some(a.wrapping_add(b)),
        JitOp::SubtractI => Some(a.wrapping_sub(b)),
        JitOp::MultiplyI => Some(a.wrapping_mul(b)),
        JitOp::LessThan => Some(truth_of(a < b)),
        JitOp::LessEquals => Some(truth_of(a <= b)),
        JitOp::GreaterThan => Some(truth_of(a > b)),
        JitOp::GreaterEquals => Some(truth_of(a >= b)),
        JitOp::Equals => Some(truth_of(a == b)),
        _ => None,
    }
}

fn unary_op(op: JitOp, a: i32) -> (r: Option<i32>)
    ensures
        r == unary(op, a),
{
    match op {
        JitOp::IncrementI => Some(a.wrapping_add(1)),
        JitOp::DecrementI => Some(a.wrapping_sub(1)),
        _ => None,
    }
}

fn branch_one(op: JitOp, a: i32) -> (r: Option<(bool, usize)>)
    ensures
        r == takes_one(op, a),
{
    match op {
        JitOp::IfFalse(t) => Some((a == 0, t)),
        JitOp::IfTrue(t) => Some((a != 0, t)),
        _ => None,
    }
}

fn branch_two(op: JitOp, a: i32, b: i32) -> (r: Option<(bool, usize)>)
    ensures
        r == takes_two(op, a, b),
{
    match op {
        JitOp::IfLt(t) => Some((a < b, t)),
        JitOp::IfGe(t) => Some((a >= b, t)),
        _ => None,
    }
}

/// A method under way.
struct Running {
    pc: usize,
    locals: Vec<u64>,
    stack: Vec<i32>,
}

impl View for Running {
    type V = Frame;

    closed spec fn view(&self) -> Frame {
        Frame { pc: self.pc as int, locals: self.locals@, stack: self.stack@ }
    }
}

/// What a step of a running method comes to.
enum After {
    Next,
    Returned(u64),
    Stuck,
}

spec fn agrees(model: Step, after: After, f: Frame) -> bool {
    match model {
        Step::Next(g) => after is Next && f =~= g,
        Step::Returned(v) => after == After::Returned(v),
        Step::Stuck => after is Stuck,
    }
}

fn goto(f: &mut Running, taken: bool, t: usize)
    requires
        old(f).pc < usize::MAX,
    ensures
        final(f).locals == old(f).locals,
        final(f).stack == old(f).stack,
        final(f).pc == if taken {
            t as int
        } else {
            old(f).pc + 1
        },
{
    if taken {
        f.pc = t;
    } else {
        f.pc = f.pc + 1;
    }
}

/// Unary and binary ops, and branches.
fn step_operands(op: JitOp, f: &mut Running) -> (r: After)
    requires
        old(f).pc < usize::MAX,
        !(op is GetLocal || op is SetLocal || op is PushInt || op is IncLocalI || op is DecLocalI
            || op is Pop || op is Dup || op is Nop || op is Jump || op is ReturnValue),
    ensures
        forall|ops: Seq<JitOp>|
            old(f).pc < ops.len() && #[trigger] ops[old(f).pc as int] == op ==> agrees(
                step(ops, old(f)@),
                r,
                final(f)@,
            ),
{
    let n: usize = f.stack.len();
    if n < 1 {
        return After::Stuck;
    }
    let top: i32 = f.stack[n - 1];
    if let Some(v) = unary_op(op, top) {
        f.stack.truncate(n - 1);
        f.stack.push(v);
        goto(f, false, 0);
        return After::Next;
    }
    if let Some((taken, t)) = branch_one(op, top) {
        f.stack.truncate(n - 1);
        goto(f, taken, t);
        return After::Next;
    }
    if n < 2 {
        return After::Stuck;
    }
    let below: i32 = f.stack[n - 2];
    if let Some(v) = binary_op(op, below, top) {
        f.stack.truncate(n - 2);
        f.stack.push(v);
        goto(f, false, 0);
        return After::Next;
    }
    if let Some((taken, t)) = branch_two(op, below, top) {
        f.stack.truncate(n - 2);
        goto(f, taken, t);
        return After::Next;
    }
    After::Stuck
}

fn step_once(ops: &[JitOp], f: &mut Running) -> (r: After)
    ensures
        agrees(step(ops@, old(f)@), r, final(f)@),
{
    if f.pc >= ops.len() {
        return After::Stuck;
    }
    let op = ops[f.pc];
    let n: usize = f.stack.len();
    match op {
        JitOp::GetLocal(i) => {
            if i as usize >= f.locals.len() {
                return After::Stuck;
            }
            f.stack.push(int_in(f.locals[i as usize]));
        },
        JitOp::SetLocal(i) => {
            if n < 1 || i as usize >= f.locals.len() {
                return After::Stuck;
            }
            let v: i32 = f.stack[n - 1];
            f.stack.truncate(n - 1);
            f.locals.set(i as usize, box_int_word(v));
        },
        JitOp::PushInt(v) => {
            f.stack.push(v);
        },
        JitOp::IncLocalI(i) => {
            if i as usize >= f.locals.len() {
                return After::Stuck;
            }
            let v: i32 = int_in(f.locals[i as usize]).wrapping_add(1);
            f.locals.set(i as usize, box_int_word(v));
        },
        JitOp::DecLocalI(i) => {
            if i as usize >= f.locals.len() {
                return After::Stuck;
            }
            let v: i32 = int_in(f.locals[i as usize]).wrapping_sub(1);
            f.locals.set(i as usize, box_int_word(v));
        },
        JitOp::Pop => {
            if n < 1 {
                return After::Stuck;
            }
            f.stack.truncate(n - 1);
        },
        JitOp::Dup => {
            if n < 1 {
                return After::Stuck;
            }
            let v: i32 = f.stack[n - 1];
            f.stack.push(v);
        },
        JitOp::Nop => {},
        JitOp::Jump(t) => {
            f.pc = t;
            return After::Next;
        },
        JitOp::ReturnValue => {
            if n < 1 {
                return After::Stuck;
            }
            return After::Returned(box_int_word(f.stack[n - 1]));
        },
        _ => {
            return step_operands(op, f);
        },
    }
    f.pc = f.pc + 1;
    After::Next
}

/// Interprets `ops` on the locals `regs`, for `fuel` ops at most. Gives the value word that
/// the method returns; `None` if it does not return by then or gets stuck.
pub fn reference_run(ops: &[JitOp], regs: &[u64], fuel: u64) -> (r: Option<u64>)
    ensures
        r == result(ops@, start(regs@), fuel as nat),
{
    let mut locals: Vec<u64> = Vec::new();
    let mut i: usize = 0;
    while i < regs.len()
        invariant
            i <= regs@.len(),
            locals@ == regs@.take(i as int),
        decreases regs@.len() - i,
    {
        locals.push(regs[i]);
        i = i + 1;
    }
    assert(regs@.take(i as int) =~= regs@);
    let mut f = Running { pc: 0, locals, stack: Vec::new() };
    assert(f@ =~= start(regs@));
    let mut left: u64 = fuel;
    while left > 0
        invariant
            result(ops@, start(regs@), fuel as nat) == result(ops@, f@, left as nat),
        decreases left,
    {
        match step_once(ops, &mut f) {
            After::Next => {},
            After::Returned(v) => {
                return Some(v);
            },
            After::Stuck => {
                return None;
            },
        }
        left = left - 1;
    }
    None
}

/// More time does not change what is returned.
pub proof fn more_fuel_same_result(ops: Seq<JitOp>, f: Frame, fuel: nat, more: nat)
    requires
        fuel <= more,
        result(ops, f, fuel) is Some,
    ensures
        result(ops, f, more) == result(ops, f, fuel),
    decreases fuel,
{
    if let Step::Next(g) = step(ops, f) {
        more_fuel_same_result(ops, g, (fuel - 1) as nat, (more - 1) as nat);
    }
}

} // verus!
