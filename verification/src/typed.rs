//! Operand-stack effects, and which values are provably numbers.
//!
//! Every arithmetic op on boxed values checks at run time that its operands are numeric. What
//! is proved numeric here needs no such check. Whatever is not proved counts as
//! [`Repr::Boxed`], so that an answer can miss a number but never invent one.

use crate::flow;
use crate::flow::{solve, Fact, Rank};
use crate::lower::blocks;
use crate::lower::manifest;
use crate::lower::op::JitOp;
use crate::lower::vc;
use vstd::prelude::*;

verus! {

/// How many operands `op` pops and pushes.
pub open spec fn arity(op: JitOp) -> (nat, nat) {
    match op {
        JitOp::GetLocal(_) => (0, 1),
        JitOp::GetLocalValue(_) => (0, 1),
        JitOp::GetLocalDouble(_) => (0, 1),
        JitOp::PushInt(_) => (0, 1),
        JitOp::PushIntValue(_) => (0, 1),
        JitOp::PushConst(_) => (0, 1),
        JitOp::PushDouble(_) => (0, 1),
        JitOp::PushString(_) => (0, 1),
        JitOp::PushBits(_) => (0, 1),
        JitOp::GetScopeObject(_) => (0, 1),
        JitOp::GetOuterScope(_) => (0, 1),
        JitOp::GetScriptGlobals(_) => (0, 1),
        JitOp::NewCatch(_) => (0, 1),
        JitOp::FindProp(_, _) => (0, 1),
        JitOp::HasNext2(_, _) => (0, 1),
        JitOp::Dup => (1, 2),
        JitOp::DupValue => (1, 2),
        JitOp::Nop => (0, 0),
        JitOp::Pop => (1, 0),
        JitOp::SwapValue => (2, 2),
        JitOp::SetLocal(_) => (1, 0),
        JitOp::SetLocalValue(_) => (1, 0),
        JitOp::SetLocalDouble(_) => (1, 0),
        JitOp::StoreLocalValue(_) => (1, 1),
        JitOp::StoreLocalDouble(_) => (1, 1),
        JitOp::IncLocalI(_) => (0, 0),
        JitOp::DecLocalI(_) => (0, 0),
        JitOp::IncDecLocalIValue(_, _) => (0, 0),
        JitOp::IncDecLocalNum(_, _) => (0, 0),
        JitOp::IncrementI => (1, 1),
        JitOp::DecrementI => (1, 1),
        JitOp::CoerceInt(_) => (1, 1),
        JitOp::CoerceBool => (1, 1),
        JitOp::CoerceString => (1, 1),
        JitOp::Coerce(_) => (1, 1),
        JitOp::IncrementIBoxed => (1, 1),
        JitOp::DecrementIBoxed => (1, 1),
        JitOp::IncrementD => (1, 1),
        JitOp::DecrementD => (1, 1),
        JitOp::NegateD => (1, 1),
        JitOp::CallHelper(_) => (1, 1),
        JitOp::GetProperty(_) => (1, 1),
        JitOp::GetPropertyIc(_, _) => (1, 1),
        JitOp::GetSlot(_, _) => (1, 1),
        JitOp::DmLoad(_) => (1, 1),
        JitOp::DmLoadF(_) => (1, 1),
        JitOp::AddI => (2, 1),
        JitOp::SubtractI => (2, 1),
        JitOp::MultiplyI => (2, 1),
        JitOp::LessThan => (2, 1),
        JitOp::LessEquals => (2, 1),
        JitOp::GreaterThan => (2, 1),
        JitOp::GreaterEquals => (2, 1),
        JitOp::Equals => (2, 1),
        JitOp::CmpNum(_) => (2, 1),
        JitOp::BitOpInt(_) => (2, 1),
        JitOp::ArithInt(_) => (2, 1),
        JitOp::ArithNum(_) => (2, 1),
        JitOp::CallHelper2(_) => (2, 1),
        JitOp::AddIBoxed => (2, 1),
        JitOp::SubtractIBoxed => (2, 1),
        JitOp::MultiplyIBoxed => (2, 1),
        JitOp::AddD => (2, 1),
        JitOp::SubtractD => (2, 1),
        JitOp::MultiplyD => (2, 1),
        JitOp::DivideD => (2, 1),
        JitOp::GetPropertyFast(_, _) => (2, 1),
        JitOp::CallHelper3(_, _) => (2, 0),
        JitOp::DmStore(_) => (2, 0),
        JitOp::DmStoreF(_) => (2, 0),
        JitOp::IfFalse(_) => (1, 0),
        JitOp::IfTrue(_) => (1, 0),
        JitOp::IfTrueBoxed(_) => (1, 0),
        JitOp::IfFalseBoxed(_) => (1, 0),
        JitOp::IfLt(_) => (2, 0),
        JitOp::IfGe(_) => (2, 0),
        JitOp::PushScopeReal => (1, 0),
        JitOp::Jump(_) => (0, 0),
        JitOp::PopScopeReal => (0, 0),
        JitOp::LookupSwitch(_) => (1, 0),
        JitOp::ReturnValue => (1, 0),
        JitOp::ReturnValueBoxed => (1, 0),
        JitOp::ReturnValueCoerced => (1, 0),
        JitOp::ReturnValueCoerceBaked(_) => (1, 0),
        JitOp::ReturnDouble => (1, 0),
        JitOp::Throw => (1, 0),
        JitOp::ReturnVoidBoxed(_) => (0, 0),
        JitOp::CallMethod(_, argc, push) => (argc as nat + 1, manifest::flag(push)),
        JitOp::CallMethodDirect(_, argc, push, _) => (argc as nat + 1, manifest::flag(push)),
        JitOp::CallProperty(_, argc, push) => (argc as nat + 1, manifest::flag(push)),
        JitOp::CallValue(argc) => (argc as nat + 2, 1),
        JitOp::ConstructSuper(argc) => (argc as nat + 1, 0),
        JitOp::VCall(kind, _, spill, push) => (
            spill as nat + manifest::flag(vc::takes_receiver(kind)),
            manifest::flag(push),
        ),
    }
}

fn bit(b: bool) -> (r: u32)
    ensures
        r == manifest::flag(b),
{
    if b {
        1
    } else {
        0
    }
}

/// How many operands `op` pops and pushes. Lowering keeps its own count by this function.
pub fn stack_arity(op: &JitOp) -> (r: (u32, u32))
    requires
        manifest::counts_args(*op),
    ensures
        r.0 == arity(*op).0,
        r.1 == arity(*op).1,
{
    match *op {
        JitOp::GetLocal(_) | JitOp::GetLocalValue(_) | JitOp::GetLocalDouble(_)
        | JitOp::PushInt(_) | JitOp::PushIntValue(_) | JitOp::PushConst(_) | JitOp::PushDouble(_)
        | JitOp::PushString(_) | JitOp::PushBits(_) | JitOp::GetScopeObject(_)
        | JitOp::GetOuterScope(_) | JitOp::GetScriptGlobals(_) | JitOp::NewCatch(_)
        | JitOp::FindProp(_, _) | JitOp::HasNext2(_, _) => (0, 1),
        JitOp::Dup | JitOp::DupValue => (1, 2),
        JitOp::Nop | JitOp::IncLocalI(_) | JitOp::DecLocalI(_) | JitOp::IncDecLocalIValue(_, _)
        | JitOp::IncDecLocalNum(_, _) | JitOp::Jump(_) | JitOp::PopScopeReal
        | JitOp::ReturnVoidBoxed(_) => (0, 0),
        JitOp::SwapValue => (2, 2),
        JitOp::Pop | JitOp::SetLocal(_) | JitOp::SetLocalValue(_) | JitOp::SetLocalDouble(_)
        | JitOp::IfFalse(_) | JitOp::IfTrue(_) | JitOp::IfTrueBoxed(_) | JitOp::IfFalseBoxed(_)
        | JitOp::PushScopeReal | JitOp::LookupSwitch(_) | JitOp::ReturnValue
        | JitOp::ReturnValueBoxed | JitOp::ReturnValueCoerced | JitOp::ReturnValueCoerceBaked(_)
        | JitOp::ReturnDouble | JitOp::Throw => (1, 0),
        JitOp::StoreLocalValue(_) | JitOp::StoreLocalDouble(_) | JitOp::IncrementI
        | JitOp::DecrementI | JitOp::CoerceInt(_) | JitOp::CoerceBool | JitOp::CoerceString
        | JitOp::Coerce(_) | JitOp::IncrementIBoxed | JitOp::DecrementIBoxed | JitOp::IncrementD
        | JitOp::DecrementD | JitOp::NegateD | JitOp::CallHelper(_) | JitOp::GetProperty(_)
        | JitOp::GetPropertyIc(_, _) | JitOp::GetSlot(_, _) | JitOp::DmLoad(_)
        | JitOp::DmLoadF(_) => (1, 1),
        JitOp::AddI | JitOp::SubtractI | JitOp::MultiplyI | JitOp::LessThan | JitOp::LessEquals
        | JitOp::GreaterThan | JitOp::GreaterEquals | JitOp::Equals | JitOp::CmpNum(_)
        | JitOp::BitOpInt(_) | JitOp::ArithInt(_) | JitOp::ArithNum(_) | JitOp::CallHelper2(_)
        | JitOp::AddIBoxed | JitOp::SubtractIBoxed | JitOp::MultiplyIBoxed | JitOp::AddD
        | JitOp::SubtractD | JitOp::MultiplyD | JitOp::DivideD
        | JitOp::GetPropertyFast(_, _) => (2, 1),
        JitOp::CallHelper3(_, _) | JitOp::DmStore(_) | JitOp::DmStoreF(_) | JitOp::IfLt(_)
        | JitOp::IfGe(_) => (2, 0),
        JitOp::CallMethod(_, argc, push) | JitOp::CallMethodDirect(_, argc, push, _)
        | JitOp::CallProperty(_, argc, push) => (argc + 1, bit(push)),
        JitOp::CallValue(argc) => (argc + 2, 1),
        JitOp::ConstructSuper(argc) => (argc + 1, 0),
        JitOp::VCall(kind, _, spill, push) => (spill + bit(vc::has_receiver(kind)), bit(push)),
    }
}

/// What a value is proved to be.
#[derive(Debug, Clone, Copy, PartialEq, Eq, Structural)]
pub enum Repr {
    /// A `Number` whose bits are a canonical inline double.
    Number,
    /// Numeric, but maybe a `Number` that is boxed on the heap or not canonical.
    NumberBoxed,
    /// An int or a canonical `Number`.
    Numeric,
    /// Anything.
    Boxed,
}

/// The value is numeric.
pub open spec fn numeric(r: Repr) -> bool {
    r is Number || r is NumberBoxed || r is Numeric
}

/// The value is a `Number`, inline or on the heap.
pub open spec fn unboxable(r: Repr) -> bool {
    r is Number || r is NumberBoxed
}

impl Repr {
    /// Whether the value is numeric, so that it unboxes to a double without a call.
    pub fn is_numeric(self) -> (r: bool)
        ensures
            r == numeric(self),
    {
        matches!(self, Repr::Numeric | Repr::Number | Repr::NumberBoxed)
    }

    /// Whether the value is a `Number`.
    pub fn is_f64_unboxable(self) -> (r: bool)
        ensures
            r == unboxable(self),
    {
        matches!(self, Repr::Number | Repr::NumberBoxed)
    }

    /// Whether unboxing has to expect a double on the heap.
    pub fn needs_boxsafe_unbox(self) -> (r: bool)
        ensures
            r == (self is NumberBoxed),
    {
        matches!(self, Repr::NumberBoxed)
    }
}

impl Rank for Repr {
    open spec fn rank(self) -> nat {
        match self {
            Repr::Number => 3,
            Repr::Numeric => 2,
            Repr::NumberBoxed => 1,
            Repr::Boxed => 0,
        }
    }

    open spec fn height() -> nat {
        3
    }

    proof fn rank_fits(self) {
    }

    proof fn rank_tells(self, other: Repr) {
    }

    /// What holds of a value that is `self` on one way and `other` on another: a `Number` if it is
    /// one on both, else, if it is numeric on both, whatever keeps the unboxing safe.
    fn meet(self, other: Repr) -> (r: Repr) {
        if !self.is_numeric() || !other.is_numeric() {
            Repr::Boxed
        } else if self.needs_boxsafe_unbox() || other.needs_boxsafe_unbox() {
            Repr::NumberBoxed
        } else if self.is_f64_unboxable() && other.is_f64_unboxable() {
            Repr::Number
        } else {
            Repr::Numeric
        }
    }

    fn same(self, other: Repr) -> (r: bool) {
        self == other
    }
}

/// What is known of locals and operands.
#[verifier::ext_equal]
pub struct Reprs {
    pub locals: Seq<Repr>,
    pub stack: Seq<Repr>,
}

/// The `k`th operand from the top; unknown if there is none.
pub open spec fn from_top(stack: Seq<Repr>, k: int) -> Repr {
    if 1 <= k <= stack.len() {
        stack[stack.len() - k]
    } else {
        Repr::Boxed
    }
}

/// What `op` pushes.
pub open spec fn result_repr(op: JitOp, stack: Seq<Repr>) -> Repr {
    let a = from_top(stack, 1);
    let b = from_top(stack, 2);
    match op {
        JitOp::DmLoadF(_) => Repr::NumberBoxed,
        JitOp::PushDouble(_) => Repr::Number,
        JitOp::PushInt(_) => Repr::Numeric,
        JitOp::PushIntValue(_) => Repr::Numeric,
        JitOp::CoerceInt(_) => Repr::Numeric,
        JitOp::AddD => Repr::Number,
        JitOp::SubtractD => Repr::Number,
        JitOp::MultiplyD => Repr::Number,
        JitOp::DivideD => Repr::Number,
        JitOp::IncrementD => Repr::Number,
        JitOp::DecrementD => Repr::Number,
        JitOp::NegateD => Repr::Number,
        JitOp::ArithNum(_) => if numeric(a) && numeric(b) {
            Repr::Number
        } else {
            Repr::Boxed
        },
        JitOp::ArithInt(_) => arith_repr(a, b),
        JitOp::AddIBoxed => arith_repr(a, b),
        JitOp::SubtractIBoxed => arith_repr(a, b),
        JitOp::MultiplyIBoxed => arith_repr(a, b),
        JitOp::IncrementIBoxed => step_repr(a),
        JitOp::DecrementIBoxed => step_repr(a),
        JitOp::GetSlot(_, true) => Repr::Number,
        JitOp::GetPropertyFast(_, true) => Repr::Number,
        _ => Repr::Boxed,
    }
}

/// A sum, difference or product: a `Number` if an operand is one, else an int or a `Number`.
pub open spec fn arith_repr(a: Repr, b: Repr) -> Repr {
    if numeric(a) && numeric(b) {
        if unboxable(a) || unboxable(b) {
            Repr::Number
        } else {
            Repr::Numeric
        }
    } else {
        Repr::Boxed
    }
}

pub open spec fn step_repr(a: Repr) -> Repr {
    if numeric(a) {
        Repr::Numeric
    } else {
        Repr::Boxed
    }
}

/// The local that `op` pushes.
pub open spec fn loads_local(op: JitOp) -> Option<u32> {
    match op {
        JitOp::GetLocal(i) => Some(i),
        JitOp::GetLocalValue(i) => Some(i),
        JitOp::GetLocalDouble(i) => Some(i),
        _ => None,
    }
}

/// The local that `op` pops into.
pub open spec fn sets_local(op: JitOp) -> Option<u32> {
    match op {
        JitOp::SetLocal(i) => Some(i),
        JitOp::SetLocalValue(i) => Some(i),
        JitOp::SetLocalDouble(i) => Some(i),
        _ => None,
    }
}

/// The local that `op` copies the top operand into.
pub open spec fn stores_local(op: JitOp) -> Option<u32> {
    match op {
        JitOp::StoreLocalValue(i) => Some(i),
        JitOp::StoreLocalDouble(i) => Some(i),
        _ => None,
    }
}

/// One op; `None` if it finds too few operands or a local that does not exist.
pub open spec fn repr_step(op: JitOp, s: Reprs) -> Option<Reprs> {
    let (pop, push) = arity(op);
    if s.stack.len() < pop {
        None
    } else if let Some(i) = loads_local(op) {
        if i < s.locals.len() {
            Some(Reprs { stack: s.stack.push(s.locals[i as int]), ..s })
        } else {
            None
        }
    } else if let Some(i) = sets_local(op) {
        if i < s.locals.len() {
            Some(
                Reprs {
                    locals: s.locals.update(i as int, s.stack.last()),
                    stack: s.stack.drop_last(),
                },
            )
        } else {
            None
        }
    } else if let Some(i) = stores_local(op) {
        if i < s.locals.len() {
            Some(Reprs { locals: s.locals.update(i as int, s.stack.last()), ..s })
        } else {
            None
        }
    } else {
        let result = result_repr(op, s.stack);
        Some(
            Reprs {
                stack: s.stack.take(s.stack.len() - pop) + Seq::new(push, |k: int| result),
                ..s
            },
        )
    }
}

/// A run of ops.
pub open spec fn repr_run(block: Seq<JitOp>, s: Reprs) -> Option<Reprs>
    decreases block.len(),
{
    if block.len() == 0 {
        Some(s)
    } else {
        match repr_run(block.drop_last(), s) {
            Some(s) => repr_step(block.last(), s),
            None => None,
        }
    }
}

/// What is known of the operands before op `k` of a block.
pub open spec fn stack_at(block: Seq<JitOp>, s: Reprs, k: int) -> Option<Seq<Repr>> {
    match repr_run(block.take(k), s) {
        Some(before) => Some(before.stack),
        None => None,
    }
}

/// The start of a block.
pub open spec fn block_start(locals: Seq<Repr>) -> Reprs {
    Reprs { locals, stack: Seq::empty() }
}

fn operand(stack: &Vec<Repr>, k: usize) -> (r: Repr)
    ensures
        r == from_top(stack@, k as int),
{
    let n: usize = stack.len();
    if 1 <= k && k <= n {
        stack[n - k]
    } else {
        Repr::Boxed
    }
}

/// What `op` pushes, given what is known of the operands.
pub fn op_result_repr(op: &JitOp, stack: &Vec<Repr>) -> (r: Repr)
    ensures
        r == result_repr(*op, stack@),
{
    let a = operand(stack, 1);
    let b = operand(stack, 2);
    let both_numeric = a.is_numeric() && b.is_numeric();
    match *op {
        JitOp::DmLoadF(_) => Repr::NumberBoxed,
        JitOp::PushInt(_) | JitOp::PushIntValue(_) | JitOp::CoerceInt(_) => Repr::Numeric,
        JitOp::PushDouble(_) | JitOp::AddD | JitOp::SubtractD | JitOp::MultiplyD | JitOp::DivideD
        | JitOp::IncrementD | JitOp::DecrementD | JitOp::NegateD => Repr::Number,
        JitOp::ArithNum(_) => if both_numeric {
            Repr::Number
        } else {
            Repr::Boxed
        },
        JitOp::ArithInt(_) | JitOp::AddIBoxed | JitOp::SubtractIBoxed | JitOp::MultiplyIBoxed => {
            if !both_numeric {
                Repr::Boxed
            } else if a.is_f64_unboxable() || b.is_f64_unboxable() {
                Repr::Number
            } else {
                Repr::Numeric
            }
        },
        JitOp::IncrementIBoxed | JitOp::DecrementIBoxed => if a.is_numeric() {
            Repr::Numeric
        } else {
            Repr::Boxed
        },
        JitOp::GetSlot(_, true) | JitOp::GetPropertyFast(_, true) => Repr::Number,
        _ => Repr::Boxed,
    }
}

fn repr_op(op: JitOp, locals: &mut Vec<Repr>, stack: &mut Vec<Repr>) -> (r: bool)
    requires
        manifest::counts_args(op),
    ensures
        match repr_step(op, Reprs { locals: old(locals)@, stack: old(stack)@ }) {
            Some(s) => r && s == (Reprs { locals: final(locals)@, stack: final(stack)@ }),
            None => !r,
        },
{
    let (pop, push) = stack_arity(&op);
    let n: usize = stack.len();
    if n < pop as usize {
        return false;
    }
    match op {
        JitOp::GetLocal(i) | JitOp::GetLocalValue(i) | JitOp::GetLocalDouble(i) => {
            if i as usize >= locals.len() {
                return false;
            }
            stack.push(locals[i as usize]);
            return true;
        },
        JitOp::SetLocal(i) | JitOp::SetLocalValue(i) | JitOp::SetLocalDouble(i) => {
            if i as usize >= locals.len() {
                return false;
            }
            let v = stack.pop().unwrap();
            locals.set(i as usize, v);
            return true;
        },
        JitOp::StoreLocalValue(i) | JitOp::StoreLocalDouble(i) => {
            if i as usize >= locals.len() {
                return false;
            }
            locals.set(i as usize, stack[n - 1]);
            return true;
        },
        _ => {},
    }
    let result = op_result_repr(&op, stack);
    stack.truncate(n - pop as usize);
    let ghost rest = stack@;
    let mut k: u32 = 0;
    while k < push
        invariant
            k <= push,
            stack@ =~= rest + Seq::new(k as nat, |j: int| result),
        decreases push - k,
    {
        stack.push(result);
        k = k + 1;
    }
    assert(rest =~= old(stack)@.take(n - pop));
    true
}

proof fn lemma_repr_run_refuses(block: Seq<JitOp>, k: int, s: Reprs)
    requires
        0 <= k <= block.len(),
        repr_run(block.take(k), s) is None,
    ensures
        repr_run(block, s) is None,
    decreases block.len(),
{
    if k < block.len() {
        assert(block.drop_last().take(k) =~= block.take(k));
        lemma_repr_run_refuses(block.drop_last(), k, s);
    } else {
        assert(block.take(k) =~= block);
    }
}

fn copy_reprs(l: &Vec<Repr>) -> (r: Vec<Repr>)
    ensures
        r@ == l@,
{
    let mut r: Vec<Repr> = Vec::new();
    let mut i: usize = 0;
    while i < l.len()
        invariant
            i <= l@.len(),
            r@ == l@.take(i as int),
        decreases l@.len() - i,
    {
        r.push(l[i]);
        i = i + 1;
    }
    assert(l@.take(i as int) =~= l@);
    r
}

/// Runs one basic block from an empty operand stack. Gives what is known of the locals after
/// it, and of the operands before each op; `None` if the block is malformed.
pub fn simulate_block(block: &[JitOp], locals: Vec<Repr>) -> (r: Option<
    (Vec<Repr>, Vec<Vec<Repr>>),
>)
    requires
        manifest::all_count_args(block@),
    ensures
        match repr_run(block@, block_start(locals@)) {
            Some(s) => {
                &&& r matches Some(v)
                &&& (r->0).0@ == s.locals
                &&& (r->0).1@.len() == block@.len()
                &&& forall|k: int|
                    0 <= k < block@.len() ==> #[trigger] stack_at(
                        block@,
                        block_start(locals@),
                        k,
                    ) == Some((r->0).1@[k]@)
            },
            None => r is None,
        },
{
    let ghost start = block_start(locals@);
    let mut now = locals;
    let mut stack: Vec<Repr> = Vec::new();
    let mut pre: Vec<Vec<Repr>> = Vec::new();
    let mut k: usize = 0;
    assert(block@.take(0) =~= Seq::empty());
    while k < block.len()
        invariant
            k <= block@.len(),
            manifest::all_count_args(block@),
            start == block_start(locals@),
            repr_run(block@.take(k as int), start) == Some(Reprs { locals: now@, stack: stack@ }),
            pre@.len() == k,
            forall|j: int|
                0 <= j < k ==> #[trigger] stack_at(block@, start, j) == Some(pre@[j]@),
        decreases block@.len() - k,
    {
        assert(block@.take(k + 1).drop_last() =~= block@.take(k as int));
        pre.push(copy_reprs(&stack));
        if !repr_op(block[k], &mut now, &mut stack) {
            proof {
                lemma_repr_run_refuses(block@, k + 1, start);
            }
            return None;
        }
        k = k + 1;
    }
    assert(block@.take(k as int) =~= block@);
    Some((now, pre))
}

/// What is numeric in `less` is numeric in `more`.
pub open spec fn as_numeric(less: Seq<Repr>, more: Seq<Repr>) -> bool {
    &&& less.len() == more.len()
    &&& forall|i: int| 0 <= i < less.len() && numeric(#[trigger] less[i]) ==> numeric(more[i])
}

spec fn reprs_below(less: Reprs, more: Reprs) -> bool {
    as_numeric(less.locals, more.locals) && as_numeric(less.stack, more.stack)
}

/// Whether an op can be run does not depend on what is known, and whether it gives a number
/// depends on which operands are numbers alone.
proof fn lemma_repr_step(op: JitOp, less: Reprs, more: Reprs)
    requires
        less.locals.len() == more.locals.len(),
        less.stack.len() == more.stack.len(),
        repr_step(op, less) is Some,
    ensures
        repr_step(op, more) is Some,
        (repr_step(op, less)->0).locals.len() == less.locals.len(),
        (repr_step(op, more)->0).locals.len() == less.locals.len(),
        (repr_step(op, less)->0).stack.len() == (repr_step(op, more)->0).stack.len(),
        reprs_below(less, more) ==> reprs_below(repr_step(op, less)->0, repr_step(op, more)->0),
{
    let a = repr_step(op, less)->0;
    let b = repr_step(op, more)->0;
    let n = less.stack.len();
    if reprs_below(less, more) {
        if n >= 1 {
            assert(numeric(less.stack[n - 1]) ==> numeric(more.stack[n - 1]));
        }
        if n >= 2 {
            assert(numeric(less.stack[n - 2]) ==> numeric(more.stack[n - 2]));
        }
        assert(numeric(result_repr(op, less.stack)) ==> numeric(result_repr(op, more.stack)));
        assert forall|i: int| 0 <= i < a.stack.len() && numeric(#[trigger] a.stack[i]) implies
            numeric(b.stack[i]) by {
            if i < n {
                assert(numeric(less.stack[i]) ==> numeric(more.stack[i]));
            }
            if let Some(l) = loads_local(op) {
                assert(numeric(less.locals[l as int]) ==> numeric(more.locals[l as int]));
            }
        }
        assert forall|i: int| 0 <= i < a.locals.len() && numeric(#[trigger] a.locals[i]) implies
            numeric(b.locals[i]) by {
            assert(numeric(less.locals[i]) ==> numeric(more.locals[i]));
        }
    }
}

proof fn lemma_repr_run(block: Seq<JitOp>, less: Reprs, more: Reprs)
    requires
        less.locals.len() == more.locals.len(),
        less.stack.len() == more.stack.len(),
        repr_run(block, less) is Some,
    ensures
        repr_run(block, more) is Some,
        (repr_run(block, less)->0).locals.len() == less.locals.len(),
        (repr_run(block, more)->0).locals.len() == less.locals.len(),
        (repr_run(block, less)->0).stack.len() == (repr_run(block, more)->0).stack.len(),
        reprs_below(less, more) ==> reprs_below(repr_run(block, less)->0, repr_run(block, more)->0),
    decreases block.len(),
{
    if block.len() > 0 {
        let front = block.drop_last();
        lemma_repr_run(front, less, more);
        lemma_repr_step(block.last(), repr_run(front, less)->0, repr_run(front, more)->0);
    }
}

impl Fact for Repr {
    open spec fn run(block: Seq<JitOp>, locals: Seq<Repr>) -> Option<Seq<Repr>> {
        match repr_run(block, block_start(locals)) {
            Some(s) => Some(s.locals),
            None => None,
        }
    }

    open spec fn counts(op: JitOp) -> bool {
        manifest::counts_args(op)
    }

    fn simulate(block: &[JitOp], locals: &Vec<Repr>) -> (r: Option<Vec<Repr>>) {
        match simulate_block(block, copy_reprs(locals)) {
            Some((out, _)) => Some(out),
            None => None,
        }
    }

    proof fn run_keeps_len(block: Seq<JitOp>, locals: Seq<Repr>) {
        let s = block_start(locals);
        if repr_run(block, s) is Some {
            lemma_repr_run(block, s, s);
        }
    }
}

proof fn lemma_reprs_plain()
    ensures
        flow::is_plain::<Repr>(),
{
    assert forall|block: Seq<JitOp>, a: Seq<Repr>, b: Seq<Repr>|
        a.len() == b.len() && (#[trigger] <Repr as Fact>::run(block, a)) is Some implies (
    #[trigger] <Repr as Fact>::run(block, b)) is Some by {
        lemma_repr_run(block, block_start(a), block_start(b));
    }
}

/// A local is taken for a number at the start of a block only if it is one on every way there.
pub proof fn numeric_on_every_path(
    ops: Seq<JitOp>,
    leaders: Seq<usize>,
    seed: Seq<Repr>,
    e: Seq<Option<Seq<Repr>>>,
    path: Seq<int>,
)
    requires
        flow::closed(ops, leaders, seed, e),
        flow::is_path(ops, leaders, path),
    ensures
        e[path.last()] is Some,
        flow::along(ops, leaders, seed, path) is Some,
        flow::along(ops, leaders, seed, path.drop_last()) is Some,
        as_numeric(e[path.last()]->0, flow::along(ops, leaders, seed, path.drop_last())->0),
    decreases path.len(),
{
    let last = path.last();
    let front = path.drop_last();
    if path.len() == 1 {
        assert(front =~= Seq::empty());
        lemma_below_numeric(e[0]->0, seed);
    } else {
        let before = front.last();
        assert forall|k: int| 0 <= k < front.len() - 1 implies flow::succs(
            ops,
            leaders,
            #[trigger] front[k],
        ).contains(front[k + 1]) by {
            assert(front[k] == path[k]);
        }
        assert forall|k: int| 0 <= k < front.len() implies 0 <= #[trigger] front[k]
            < leaders.len() by {
            assert(front[k] == path[k]);
        }
        numeric_on_every_path(ops, leaders, seed, e, front);
        let block = flow::block_ops(ops, leaders, before);
        let here = flow::along(ops, leaders, seed, front.drop_last())->0;
        assert(flow::flows(ops, leaders, e, before));
        lemma_repr_run(block, block_start(e[before]->0), block_start(here));
        let n = path.len() - 2;
        assert(path[n] == before);
        assert(flow::succs(ops, leaders, path[n]).contains(path[n + 1]));
        let next = flow::succs(ops, leaders, before);
        let k = choose|k: int| 0 <= k < next.len() && next[k] == last;
        let out = <Repr as Fact>::run(block, e[before]->0)->0;
        assert(e[next[k]] is Some && flow::below(e[next[k]]->0, out));
        lemma_below_numeric(e[last]->0, out);
    }
    let l = flow::along(ops, leaders, seed, front)->0;
    assert(flow::flows(ops, leaders, e, last));
    lemma_repr_run(flow::block_ops(ops, leaders, last), block_start(e[last]->0), block_start(l));
}

proof fn lemma_below_numeric(less: Seq<Repr>, more: Seq<Repr>)
    requires
        flow::below(less, more),
    ensures
        as_numeric(less, more),
{
    assert forall|i: int| 0 <= i < less.len() && numeric(#[trigger] less[i]) implies numeric(
        more[i],
    ) by {
        assert(less[i].rank() <= more[i].rank());
    }
}

/// What is known at the start of a block that may not be reached: nothing, if it is not.
pub open spec fn or_boxed(o: Option<Seq<Repr>>, n: nat) -> Seq<Repr> {
    match o {
        Some(l) => l,
        None => Seq::new(n, |k: int| Repr::Boxed),
    }
}

/// What is known of the locals at the start of each block, given what is known at the
/// method's start. `None` if a branch leaves the method or a block is malformed.
pub fn infer_local_reprs(ops: &[JitOp], entry_locals: &[Repr]) -> (r: Option<Vec<Vec<Repr>>>)
    requires
        manifest::all_count_args(ops@),
        ops@.len() > 0,
    ensures
        ({
            let leaders = blocks::leaders_of(ops@, Seq::empty(), Seq::empty());
            match r {
                Some(v) => {
                    &&& blocks::targets_ok(ops@, Seq::empty(), Seq::empty())
                    &&& v@.len() == leaders.len()
                    &&& exists|e: Seq<Option<Seq<Repr>>>| #[trigger]
                        flow::ends_with(ops@, leaders, entry_locals@, e) && forall|b: int|
                            0 <= b < v@.len() ==> (#[trigger] v@[b])@ == or_boxed(
                                e[b],
                                entry_locals@.len(),
                            )
                },
                None => !blocks::targets_ok(ops@, Seq::empty(), Seq::empty()) || !flow::solvable(
                    ops@,
                    leaders,
                    entry_locals@,
                ),
            }
        }),
{
    let leaders = match blocks::basic_block_leaders(ops) {
        Some(leaders) => leaders,
        None => {
            return None;
        },
    };
    let size: usize = ops.len();
    proof {
        assert(ops@.len() == size);
        blocks::leaders_are_the_block_starts(ops@, Seq::empty(), Seq::empty());
        lemma_reprs_plain();
        flow::a_plain_search_fails_on_blocks_alone(ops@, leaders@, entry_locals@);
    }
    let known = match solve(ops, &leaders, entry_locals) {
        Some(known) => known,
        None => {
            return None;
        },
    };
    let ghost e = flow::known(known@);
    proof {
        flow::a_search_ends_closed(ops@, leaders@, entry_locals@, e);
    }
    let n: usize = entry_locals.len();
    let mut r: Vec<Vec<Repr>> = Vec::new();
    let mut b: usize = 0;
    while b < known.len()
        invariant
            b <= known@.len(),
            e == flow::known(known@),
            n == entry_locals@.len(),
            r@.len() == b,
            forall|k: int| 0 <= k < b ==> (#[trigger] r@[k])@ == or_boxed(e[k], n as nat),
        decreases known@.len() - b,
    {
        match &known[b] {
            Some(l) => {
                r.push(copy_reprs(l));
            },
            None => {
                let mut l: Vec<Repr> = Vec::new();
                let mut i: usize = 0;
                while i < n
                    invariant
                        i <= n,
                        l@ =~= Seq::new(i as nat, |k: int| Repr::Boxed),
                    decreases n - i,
                {
                    l.push(Repr::Boxed);
                    i = i + 1;
                }
                r.push(l);
            },
        }
        b = b + 1;
    }
    Some(r)
}

} // verus!
