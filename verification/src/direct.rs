//! Tiny straight-line methods, run without a module of their own.
//!
//! A method of a few ops costs more to enter than to run. Such a method is run op by op here, if
//! it neither branches nor calls nor writes a local. What only the host can do, a helper, is asked
//! of the host, and the run goes on with its reply. A reply that leaves a pending error ends the
//! run with `undefined`; the host raises the error.

use crate::lower::linear;
use crate::lower::linear::box_int_word;
use crate::lower::manifest;
use crate::lower::manifest::{
    COERCE_I, COERCE_RETURN, COERCE_S, COERCE_U, GET_PUSH_STRING, GET_SCRIPT_GLOBALS, TO_BOOLEAN,
};
use crate::lower::op;
use crate::lower::op::JitOp;
use crate::lower::wasm::{UNDEFINED_BITS, VALUE_BOOL_MARK};
use crate::reference;
use crate::typed;
use vstd::prelude::*;

verus! {

/// The most ops of a method that is run directly.
pub const MAX_OPS: usize = 10;

/// The unary helpers that take a value and give one.
pub open spec fn helper_supported(i: u32) -> bool {
    i <= 4 || 8 <= i <= 15 || i == 26 || i == 27
}

fn call_helper_supported(i: u32) -> (r: bool)
    ensures
        r == helper_supported(i),
{
    i <= 4 || (8 <= i && i <= 15) || i == 26 || i == 27
}

/// How many operands the op takes and gives; `None` if the op is not run directly.
pub open spec fn effect_of(op: JitOp) -> Option<(nat, nat)> {
    match op {
        JitOp::Nop => Some((0, 0)),
        JitOp::Pop => Some((1, 0)),
        JitOp::DupValue => Some((1, 2)),
        JitOp::SwapValue => Some((2, 2)),
        JitOp::GetLocalValue(_) => Some((0, 1)),
        JitOp::PushConst(_) => Some((0, 1)),
        JitOp::PushIntValue(_) => Some((0, 1)),
        JitOp::PushString(_) => Some((0, 1)),
        JitOp::GetScriptGlobals(_) => Some((0, 1)),
        JitOp::CallHelper(i) => if helper_supported(i) {
            Some((1, 1))
        } else {
            None
        },
        JitOp::IncrementIBoxed => Some((1, 1)),
        JitOp::DecrementIBoxed => Some((1, 1)),
        JitOp::CoerceInt(_) => Some((1, 1)),
        JitOp::CoerceBool => Some((1, 1)),
        JitOp::CoerceString => Some((1, 1)),
        JitOp::Coerce(_) => Some((1, 1)),
        JitOp::GetProperty(_) => Some((1, 1)),
        JitOp::GetSlot(_, _) => Some((1, 1)),
        JitOp::CallHelper2(_) => Some((2, 1)),
        JitOp::CmpNum(_) => Some((2, 1)),
        JitOp::BitOpInt(_) => Some((2, 1)),
        JitOp::ArithInt(_) => Some((2, 1)),
        JitOp::ArithNum(_) => Some((2, 1)),
        JitOp::AddIBoxed => Some((2, 1)),
        JitOp::SubtractIBoxed => Some((2, 1)),
        JitOp::MultiplyIBoxed => Some((2, 1)),
        JitOp::GetPropertyFast(_, _) => Some((2, 1)),
        JitOp::CallHelper3(_, _) => Some((2, 0)),
        _ => None,
    }
}

/// How many operands stand before op `i`; `None` if an op before it is not run directly or
/// finds too few.
pub open spec fn height(ops: Seq<JitOp>, i: int) -> Option<nat>
    decreases i,
{
    if i <= 0 {
        Some(0)
    } else {
        match (height(ops, i - 1), effect_of(ops[i - 1])) {
            (Some(d), Some((takes, gives))) => if d >= takes {
                Some((d - takes + gives) as nat)
            } else {
                None
            },
            _ => None,
        }
    }
}

/// The method can be run directly: short, without branches and calls, with an operand for
/// everything that takes one, and a return at its end.
pub open spec fn runs_directly(ops: Seq<JitOp>) -> bool {
    &&& 0 < ops.len() <= MAX_OPS
    &&& height(ops, ops.len() - 1) matches Some(d)
    &&& match ops.last() {
        JitOp::ReturnVoidBoxed(_) => true,
        JitOp::ReturnValueBoxed => d >= 1,
        JitOp::ReturnValueCoerced => d >= 1,
        _ => false,
    }
}

/// How many operands `op` takes and gives.
pub fn effect(op: &JitOp) -> (r: Option<(usize, usize)>)
    ensures
        match effect_of(*op) {
            Some((takes, gives)) => r matches Some(p) && p.0 == takes && p.1 == gives,
            None => r is None,
        },
{
    match *op {
        JitOp::Nop => Some((0, 0)),
        JitOp::Pop => Some((1, 0)),
        JitOp::DupValue => Some((1, 2)),
        JitOp::SwapValue => Some((2, 2)),
        JitOp::GetLocalValue(_) | JitOp::PushConst(_) | JitOp::PushIntValue(_)
        | JitOp::PushString(_) | JitOp::GetScriptGlobals(_) => Some((0, 1)),
        JitOp::CallHelper(i) => if call_helper_supported(i) {
            Some((1, 1))
        } else {
            None
        },
        JitOp::IncrementIBoxed | JitOp::DecrementIBoxed | JitOp::CoerceInt(_) | JitOp::CoerceBool
        | JitOp::CoerceString | JitOp::Coerce(_) | JitOp::GetProperty(_)
        | JitOp::GetSlot(_, _) => Some((1, 1)),
        JitOp::CallHelper2(_) | JitOp::CmpNum(_) | JitOp::BitOpInt(_) | JitOp::ArithInt(_)
        | JitOp::ArithNum(_) | JitOp::AddIBoxed | JitOp::SubtractIBoxed | JitOp::MultiplyIBoxed
        | JitOp::GetPropertyFast(_, _) => Some((2, 1)),
        JitOp::CallHelper3(_, _) => Some((2, 0)),
        _ => None,
    }
}

/// An op that is run directly takes and gives what it does wherever it stands, and neither ends a
/// block nor calls nor writes a local. Of the unary helpers, those that take a value and give one
/// are run directly.
pub proof fn effects_are_plain(op: JitOp)
    ensures
        effect_of(op) matches Some(e) ==> {
            &&& e == typed::arity(op)
            &&& !op::ends_block(op)
            &&& typed::sets_local(op) is None
            &&& typed::stores_local(op) is None
            &&& !(op is IncLocalI || op is DecLocalI || op is IncDecLocalIValue
                || op is IncDecLocalNum || op is HasNext2)
            &&& !(op is CallMethod || op is CallMethodDirect || op is CallProperty
                || op is CallValue || op is ConstructSuper || op is VCall)
        },
        op matches JitOp::CallHelper(i) ==> (effect_of(op) is Some <==> helper_supported(i)),
{
}

proof fn lemma_height_small(ops: Seq<JitOp>, i: int)
    requires
        0 <= i,
    ensures
        height(ops, i) matches Some(d) ==> d <= i,
    decreases i,
{
    if i > 0 {
        lemma_height_small(ops, i - 1);
    }
}

proof fn lemma_height_stops(ops: Seq<JitOp>, i: int, n: int)
    requires
        0 <= i <= n,
        height(ops, i) is None,
    ensures
        height(ops, n) is None,
    decreases n,
{
    if i < n {
        lemma_height_stops(ops, i, n - 1);
    }
}

/// Whether `ops` can be run directly.
pub fn eligible(ops: &[JitOp]) -> (r: bool)
    ensures
        r == runs_directly(ops@),
{
    let n: usize = ops.len();
    if n == 0 || n > MAX_OPS {
        return false;
    }
    let mut depth: usize = 0;
    let mut i: usize = 0;
    while i < n - 1
        invariant
            0 < n <= MAX_OPS,
            n == ops@.len(),
            i <= n - 1,
            height(ops@, i as int) == Some(depth as nat),
            depth <= i,
        decreases n - i,
    {
        proof {
            lemma_height_small(ops@, i + 1);
        }
        match effect(&ops[i]) {
            Some((takes, gives)) if depth >= takes => {
                depth = depth - takes + gives;
            },
            _ => {
                proof {
                    lemma_height_stops(ops@, i + 1, n - 1);
                }
                return false;
            },
        }
        i = i + 1;
    }
    match ops[n - 1] {
        JitOp::ReturnVoidBoxed(_) => true,
        JitOp::ReturnValueBoxed | JitOp::ReturnValueCoerced => depth >= 1,
        _ => false,
    }
}

/// What the host is asked to do. It replies with a value word and whether an error is pending.
#[derive(Debug, Clone, Copy, PartialEq, Eq, Structural)]
pub enum Ask {
    /// A unary helper on a word.
    Helper(u32, u64),
    /// A binary helper on two words.
    Helper2(u32, u64, u64),
    /// A ternary helper on two words and an immediate.
    Helper3(u32, u64, u64, u32),
    /// A coercion to a class of the method.
    Coerce(u64, u32),
    /// A property read: receiver, name.
    GetProperty(u64, u32),
    /// A property read by a name on the operand stack: receiver, name, template.
    GetPropertyFast(u64, u64, u32),
    /// A slot read: receiver, slot.
    GetSlot(u64, u32),
}

/// A run under way.
#[verifier::ext_equal]
pub struct Progress {
    pub pc: int,
    pub stack: Seq<u64>,
}

/// What running on comes to.
pub enum Event {
    Next(Progress),
    Ask(Ask, Progress),
    Done(u64),
    /// A local that the frame does not have.
    Missing,
}

impl Progress {
    /// The `k`th operand from the top.
    pub open spec fn top(self, k: int) -> u64 {
        self.stack[self.stack.len() - k]
    }

    pub open spec fn without(self, n: int) -> Progress {
        Progress { stack: self.stack.take(self.stack.len() - n), ..self }
    }

    /// On to the next op, with `n` operands replaced by `words`.
    pub open spec fn on(self, n: int, words: Seq<u64>) -> Event {
        Event::Next(
            Progress {
                pc: self.pc + 1,
                stack: self.stack.take(self.stack.len() - n) + words,
            },
        )
    }
}

/// The int result of a boxed int op.
pub open spec fn int_result(op: JitOp, a: i32, b: i32) -> u64 {
    linear::int_word(
        match op {
            JitOp::AddIBoxed => a.wrapping_add(b),
            JitOp::SubtractIBoxed => a.wrapping_sub(b),
            _ => a.wrapping_mul(b),
        },
    )
}

/// The helper that the op asks for with one operand.
pub open spec fn unary_ask(op: JitOp, a: u64) -> Option<Ask> {
    match op {
        JitOp::CallHelper(i) => Some(Ask::Helper(i, a)),
        JitOp::CoerceInt(signed) => Some(
            Ask::Helper(
                if signed {
                    COERCE_I
                } else {
                    COERCE_U
                },
                a,
            ),
        ),
        JitOp::CoerceBool => Some(Ask::Helper(TO_BOOLEAN, a)),
        JitOp::CoerceString => Some(Ask::Helper(COERCE_S, a)),
        JitOp::Coerce(k) => Some(Ask::Coerce(a, k)),
        JitOp::GetProperty(k) => Some(Ask::GetProperty(a, k)),
        JitOp::GetSlot(id, _) => Some(Ask::GetSlot(a, id)),
        JitOp::ReturnValueCoerced => Some(Ask::Helper(COERCE_RETURN, a)),
        _ => None,
    }
}

/// The helper that the op asks for with two operands.
pub open spec fn binary_ask(op: JitOp, a: u64, b: u64) -> Option<Ask> {
    match op {
        JitOp::CallHelper2(i) => Some(Ask::Helper2(i, a, b)),
        JitOp::CmpNum(i) => Some(Ask::Helper2(i, a, b)),
        JitOp::BitOpInt(i) => Some(Ask::Helper2(i, a, b)),
        JitOp::ArithInt(i) => Some(Ask::Helper2(i, a, b)),
        JitOp::ArithNum(i) => Some(Ask::Helper2(i, a, b)),
        JitOp::CallHelper3(kind, imm) => Some(Ask::Helper3(kind, a, b, imm)),
        JitOp::GetPropertyFast(k, _) => Some(Ask::GetPropertyFast(a, b, k)),
        _ => None,
    }
}

/// One op, up to the point where the host has to act.
pub open spec fn op_event(op: JitOp, regs: Seq<u64>, p: Progress) -> Event {
    let a = reference::int_of(p.top(2));
    let b = reference::int_of(p.top(1));
    match op {
        JitOp::Nop => p.on(0, Seq::empty()),
        JitOp::Pop => p.on(1, Seq::empty()),
        JitOp::DupValue => p.on(1, seq![p.top(1), p.top(1)]),
        JitOp::SwapValue => p.on(2, seq![p.top(1), p.top(2)]),
        JitOp::GetLocalValue(i) => if i < regs.len() {
            p.on(0, seq![regs[i as int]])
        } else {
            Event::Missing
        },
        JitOp::PushConst(bits) => p.on(0, seq![bits]),
        JitOp::PushIntValue(v) => p.on(0, seq![linear::int_word(v)]),
        JitOp::PushString(k) => Event::Ask(Ask::Helper(GET_PUSH_STRING, k as u64), p.without(0)),
        JitOp::GetScriptGlobals(k) => Event::Ask(
            Ask::Helper(GET_SCRIPT_GLOBALS, k as u64),
            p.without(0),
        ),
        JitOp::IncrementIBoxed => p.on(1, seq![linear::int_word(b.wrapping_add(1))]),
        JitOp::DecrementIBoxed => p.on(1, seq![linear::int_word(b.wrapping_sub(1))]),
        JitOp::AddIBoxed => p.on(2, seq![int_result(op, a, b)]),
        JitOp::SubtractIBoxed => p.on(2, seq![int_result(op, a, b)]),
        JitOp::MultiplyIBoxed => p.on(2, seq![int_result(op, a, b)]),
        JitOp::ReturnValueBoxed => Event::Done(p.top(1)),
        JitOp::ReturnVoidBoxed(bits) => Event::Done(bits),
        _ => if unary_ask(op, p.top(1)) is Some {
            Event::Ask(unary_ask(op, p.top(1))->0, p.without(1))
        } else {
            Event::Ask(binary_ask(op, p.top(2), p.top(1))->0, p.without(2))
        },
    }
}

/// On from the current op to the next point where the host has to act, or to the end.
pub open spec fn run_on(ops: Seq<JitOp>, regs: Seq<u64>, p: Progress) -> Event
    decreases ops.len() - p.pc,
{
    if !(0 <= p.pc < ops.len()) {
        Event::Missing
    } else {
        match op_event(ops[p.pc], regs, p) {
            Event::Next(q) => if q.pc == p.pc + 1 {
                run_on(ops, regs, q)
            } else {
                Event::Missing
            },
            e => e,
        }
    }
}

/// The op leaves the host's reply on the operand stack.
pub open spec fn keeps_reply(op: JitOp) -> bool {
    !(op is CallHelper3)
}

/// What the reply of the host comes to.
pub open spec fn replied(op: JitOp, p: Progress, word: u64, pending: bool) -> Event {
    if pending {
        Event::Done(UNDEFINED_BITS)
    } else if op is ReturnValueCoerced {
        Event::Done(word)
    } else if op is CoerceBool {
        p.on(0, seq![VALUE_BOOL_MARK | (word & 1)])
    } else if keeps_reply(op) {
        p.on(0, seq![word])
    } else {
        p.on(0, Seq::empty())
    }
}

/// The run has come to op `pc` with as many operands as eligibility counted.
pub open spec fn in_step(ops: Seq<JitOp>, p: Progress) -> bool {
    &&& runs_directly(ops)
    &&& 0 <= p.pc < ops.len()
    &&& height(ops, p.pc) == Some(p.stack.len())
}

/// The run waits for the host at op `pc`, whose operands it has taken.
pub open spec fn waiting(ops: Seq<JitOp>, p: Progress) -> bool {
    &&& runs_directly(ops)
    &&& 0 <= p.pc < ops.len()
    &&& match effect_of(ops[p.pc]) {
        Some((takes, gives)) => p.pc < ops.len() - 1 && height(ops, p.pc) == Some(
            p.stack.len() + takes,
        ) && height(ops, p.pc + 1) == Some(p.stack.len() + gives) && gives == manifest::flag(
            keeps_reply(ops[p.pc]),
        ),
        None => ops[p.pc] is ReturnValueCoerced,
    }
}

pub proof fn lemma_op_in_step(ops: Seq<JitOp>, p: Progress)
    requires
        in_step(ops, p),
    ensures
        p.pc < ops.len() - 1 ==> effect_of(ops[p.pc]) is Some && height(ops, p.pc + 1) is Some
            && p.stack.len() >= (effect_of(ops[p.pc])->0).0,
        p.pc == ops.len() - 1 ==> (ops[p.pc] is ReturnVoidBoxed || ((ops[p.pc] is ReturnValueBoxed
            || ops[p.pc] is ReturnValueCoerced) && p.stack.len() >= 1)),
{
    if p.pc < ops.len() - 1 {
        if height(ops, p.pc + 1) is None {
            lemma_height_stops(ops, p.pc + 1, ops.len() - 1);
        }
    }
}

/// A run of an eligible method always finds its operands, and it ends in a return: from each
/// point it comes to one where the host has to act, or to the method's result, unless the
/// frame lacks a local.
pub proof fn eligible_methods_run_to_their_return(ops: Seq<JitOp>, regs: Seq<u64>, p: Progress)
    requires
        in_step(ops, p),
    ensures
        match run_on(ops, regs, p) {
            Event::Next(_) => false,
            Event::Ask(_, q) => waiting(ops, q) && q.pc >= p.pc,
            Event::Done(_) => true,
            Event::Missing => exists|i: int|
                0 <= i < ops.len() && (#[trigger] ops[i] matches JitOp::GetLocalValue(l) && l
                    >= regs.len()),
        },
    decreases ops.len() - p.pc,
{
    lemma_op_in_step(ops, p);
    let op = ops[p.pc];
    match op_event(op, regs, p) {
        Event::Next(q) => {
            assert(in_step(ops, q));
            eligible_methods_run_to_their_return(ops, regs, q);
        },
        Event::Ask(_, q) => {
            assert(waiting(ops, q));
        },
        _ => {},
    }
}

/// The host's reply brings a waiting run back into step, or ends it.
pub proof fn replies_keep_step(ops: Seq<JitOp>, p: Progress, word: u64, pending: bool)
    requires
        waiting(ops, p),
    ensures
        match replied(ops[p.pc], p, word, pending) {
            Event::Next(q) => in_step(ops, q),
            Event::Done(_) => true,
            _ => false,
        },
{
}

/// A run of an eligible method.
pub struct Run {
    pc: usize,
    stack: Vec<u64>,
}

impl View for Run {
    type V = Progress;

    closed spec fn view(&self) -> Progress {
        Progress { pc: self.pc as int, stack: self.stack@ }
    }
}

/// What a run wants next.
#[derive(Debug, Clone, Copy, PartialEq, Eq, Structural)]
pub enum Action {
    Ask(Ask),
    Done(u64),
    Missing,
}

/// `action` and the run after it are what the model says.
pub open spec fn is_event(e: Event, action: Option<Action>, p: Progress) -> bool {
    match e {
        Event::Next(q) => action is None && p =~= q,
        Event::Ask(ask, q) => action == Some(Action::Ask(ask)) && p =~= q,
        Event::Done(v) => action == Some(Action::Done(v)),
        Event::Missing => action == Some(Action::Missing),
    }
}

fn int_in(word: u64) -> (r: i32)
    ensures
        r == reference::int_of(word),
{
    word as u32 as i32
}

impl Run {
    /// A run at its start.
    pub fn new() -> (r: Run)
        ensures
            r@ == (Progress { pc: 0, stack: Seq::empty() }),
    {
        Run { pc: 0, stack: Vec::new() }
    }

    /// The op that the run stands at.
    pub fn position(&self) -> (r: usize)
        ensures
            r == self@.pc,
    {
        self.pc
    }

    fn pop(&mut self) -> (r: u64)
        requires
            old(self).stack@.len() >= 1,
        ensures
            r == old(self).stack@.last(),
            final(self).stack@ == old(self).stack@.drop_last(),
            final(self).pc == old(self).pc,
    {
        match self.stack.pop() {
            Some(v) => v,
            None => 0,
        }
    }

    fn ask_unary(&mut self, op: JitOp) -> (r: Option<Ask>)
        requires
            old(self).stack@.len() >= 1,
        ensures
            unary_ask(op, old(self)@.top(1)) == r,
            match r {
                Some(_) => final(self)@ == old(self)@.without(1),
                None => *final(self) == *old(self),
            },
    {
        let a: u64 = self.stack[self.stack.len() - 1];
        let ask = match op {
            JitOp::CallHelper(i) => Ask::Helper(i, a),
            JitOp::CoerceInt(true) => Ask::Helper(COERCE_I, a),
            JitOp::CoerceInt(false) => Ask::Helper(COERCE_U, a),
            JitOp::CoerceBool => Ask::Helper(TO_BOOLEAN, a),
            JitOp::CoerceString => Ask::Helper(COERCE_S, a),
            JitOp::Coerce(k) => Ask::Coerce(a, k),
            JitOp::GetProperty(k) => Ask::GetProperty(a, k),
            JitOp::GetSlot(id, _) => Ask::GetSlot(a, id),
            JitOp::ReturnValueCoerced => Ask::Helper(COERCE_RETURN, a),
            _ => {
                return None;
            },
        };
        self.pop();
        assert(self@ =~= old(self)@.without(1));
        Some(ask)
    }

    fn ask_binary(&mut self, op: JitOp) -> (r: Option<Ask>)
        requires
            effect_of(op) is Some,
            old(self).stack@.len() >= (effect_of(op)->0).0,
        ensures
            r is Some <==> binary_ask(op, 0, 0) is Some,
            r is Some ==> final(self)@ == old(self)@.without(2) && binary_ask(
                op,
                old(self)@.top(2),
                old(self)@.top(1),
            ) == r,
    {
        if !matches!(
            op,
            JitOp::CallHelper2(_) | JitOp::CmpNum(_) | JitOp::BitOpInt(_) | JitOp::ArithInt(_)
                | JitOp::ArithNum(_) | JitOp::CallHelper3(_, _) | JitOp::GetPropertyFast(_, _)
        ) {
            return None;
        }
        let b: u64 = self.pop();
        let a: u64 = self.pop();
        assert(self@ =~= old(self)@.without(2));
        let ask = match op {
            JitOp::CallHelper3(kind, imm) => Ask::Helper3(kind, a, b, imm),
            JitOp::GetPropertyFast(k, _) => Ask::GetPropertyFast(a, b, k),
            JitOp::CallHelper2(i) | JitOp::CmpNum(i) | JitOp::BitOpInt(i) | JitOp::ArithInt(i)
            | JitOp::ArithNum(i) => Ask::Helper2(i, a, b),
            _ => {
                return None;
            },
        };
        Some(ask)
    }

    fn push_next(&mut self, word: u64)
        requires
            old(self).pc < usize::MAX,
        ensures
            final(self).pc == old(self).pc + 1,
            final(self).stack@ == old(self).stack@.push(word),
    {
        self.stack.push(word);
        self.pc = self.pc + 1;
    }

    /// One op of the run; an action if the host has to act, or the run has ended.
    fn run_op(&mut self, ops: &[JitOp], regs: &[u64]) -> (r: Option<Action>)
        requires
            in_step(ops@, old(self)@),
        ensures
            is_event(op_event(ops@[old(self)@.pc], regs@, old(self)@), r, final(self)@),
    {
        let op = ops[self.pc];
        let ghost p = self@;
        proof {
            lemma_op_in_step(ops@, p);
        }
        match op {
            JitOp::Nop => {
                self.pc = self.pc + 1;
                assert(self@ =~= p.on(0, Seq::empty())->Next_0);
            },
            JitOp::Pop => {
                self.pop();
                self.pc = self.pc + 1;
                assert(self@ =~= p.on(1, Seq::empty())->Next_0);
            },
            JitOp::DupValue => {
                let a: u64 = self.stack[self.stack.len() - 1];
                self.push_next(a);
                assert(self@ =~= p.on(1, seq![p.top(1), p.top(1)])->Next_0);
            },
            JitOp::SwapValue => {
                let b: u64 = self.pop();
                let a: u64 = self.pop();
                self.stack.push(b);
                self.push_next(a);
                assert(self@ =~= p.on(2, seq![p.top(1), p.top(2)])->Next_0);
            },
            JitOp::GetLocalValue(i) => {
                if i as usize >= regs.len() {
                    return Some(Action::Missing);
                }
                self.push_next(regs[i as usize]);
                assert(self@ =~= p.on(0, seq![regs@[i as int]])->Next_0);
            },
            JitOp::PushConst(bits) => {
                self.push_next(bits);
                assert(self@ =~= p.on(0, seq![bits])->Next_0);
            },
            JitOp::PushIntValue(v) => {
                self.push_next(box_int_word(v));
                assert(self@ =~= p.on(0, seq![linear::int_word(v)])->Next_0);
            },
            JitOp::PushString(k) => {
                assert(self@ =~= p.without(0));
                return Some(Action::Ask(Ask::Helper(GET_PUSH_STRING, k as u64)));
            },
            JitOp::GetScriptGlobals(k) => {
                assert(self@ =~= p.without(0));
                return Some(Action::Ask(Ask::Helper(GET_SCRIPT_GLOBALS, k as u64)));
            },
            JitOp::IncrementIBoxed => {
                let a: i32 = int_in(self.pop());
                self.push_next(box_int_word(a.wrapping_add(1)));
                assert(self@ =~= p.on(1, seq![linear::int_word(a.wrapping_add(1))])->Next_0);
            },
            JitOp::DecrementIBoxed => {
                let a: i32 = int_in(self.pop());
                self.push_next(box_int_word(a.wrapping_sub(1)));
                assert(self@ =~= p.on(1, seq![linear::int_word(a.wrapping_sub(1))])->Next_0);
            },
            JitOp::AddIBoxed | JitOp::SubtractIBoxed | JitOp::MultiplyIBoxed => {
                let b: i32 = int_in(self.pop());
                let a: i32 = int_in(self.pop());
                let v: i32 = match op {
                    JitOp::AddIBoxed => a.wrapping_add(b),
                    JitOp::SubtractIBoxed => a.wrapping_sub(b),
                    _ => a.wrapping_mul(b),
                };
                self.push_next(box_int_word(v));
                assert(self@ =~= p.on(2, seq![int_result(op, a, b)])->Next_0);
            },
            JitOp::ReturnValueBoxed => {
                return Some(Action::Done(self.stack[self.stack.len() - 1]));
            },
            JitOp::ReturnVoidBoxed(bits) => {
                return Some(Action::Done(bits));
            },
            _ => {
                return self.run_ask(op, Ghost(ops@));
            },
        }
        None
    }

    /// An op that asks the host.
    fn run_ask(&mut self, op: JitOp, Ghost(ops): Ghost<Seq<JitOp>>) -> (r: Option<Action>)
        requires
            in_step(ops, old(self)@),
            op == ops[old(self)@.pc],
            !(op is Nop || op is Pop || op is DupValue || op is SwapValue || op is GetLocalValue
                || op is PushConst || op is PushIntValue || op is PushString
                || op is GetScriptGlobals || op is IncrementIBoxed || op is DecrementIBoxed
                || op is AddIBoxed || op is SubtractIBoxed || op is MultiplyIBoxed
                || op is ReturnValueBoxed || op is ReturnVoidBoxed),
        ensures
            forall|regs: Seq<u64>|
                is_event(#[trigger] op_event(op, regs, old(self)@), r, final(self)@),
    {
        proof {
            lemma_op_in_step(ops, self@);
        }
        if let Some(ask) = self.ask_unary(op) {
            return Some(Action::Ask(ask));
        }
        match self.ask_binary(op) {
            Some(ask) => Some(Action::Ask(ask)),
            None => Some(Action::Missing),
        }
    }

    /// Runs on to the next point where the host has to act, or to the end.
    pub fn advance(&mut self, ops: &[JitOp], regs: &[u64]) -> (r: Action)
        requires
            in_step(ops@, old(self)@),
        ensures
            is_event(run_on(ops@, regs@, old(self)@), Some(r), final(self)@),
            r is Ask ==> waiting(ops@, final(self)@),
    {
        proof {
            eligible_methods_run_to_their_return(ops@, regs@, self@);
        }
        let ghost from = self@;
        loop
            invariant
                in_step(ops@, self@),
                run_on(ops@, regs@, from) == run_on(ops@, regs@, self@),
                run_on(ops@, regs@, from) matches Event::Ask(_, q) ==> waiting(ops@, q),
                from == old(self)@,
            decreases ops@.len() - self@.pc,
        {
            let ghost p = self@;
            proof {
                lemma_op_in_step(ops@, p);
            }
            if let Some(action) = self.run_op(ops, regs) {
                return action;
            }
            assert(op_event(ops@[p.pc], regs@, p) == Event::Next(self@));
            assert(in_step(ops@, self@));
        }
    }

    /// Goes on with the host's reply to what was asked: a value word, and whether an error is
    /// pending. Gives the method's result if the run ends with it.
    pub fn reply(&mut self, ops: &[JitOp], word: u64, pending: bool) -> (r: Option<u64>)
        requires
            waiting(ops@, old(self)@),
        ensures
            match replied(ops@[old(self)@.pc], old(self)@, word, pending) {
                Event::Next(q) => r is None && final(self)@ == q && in_step(ops@, q),
                Event::Done(v) => r == Some(v),
                _ => false,
            },
    {
        let op = ops[self.pc];
        let ghost p = self@;
        if pending {
            return Some(UNDEFINED_BITS);
        }
        if matches!(op, JitOp::ReturnValueCoerced) {
            return Some(word);
        }
        let keeps = !matches!(op, JitOp::CallHelper3(_, _));
        if matches!(op, JitOp::CoerceBool) {
            self.push_next(VALUE_BOOL_MARK | (word & 1));
            assert(self@ =~= p.on(0, seq![VALUE_BOOL_MARK | (word & 1)])->Next_0);
        } else if keeps {
            self.push_next(word);
            assert(self@ =~= p.on(0, seq![word])->Next_0);
        } else {
            self.pc = self.pc + 1;
            assert(self@ =~= p.on(0, Seq::empty())->Next_0);
        }
        proof {
            replies_keep_step(ops@, p, word, pending);
        }
        None
    }
}

} // verus!
