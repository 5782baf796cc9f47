//! Translation keeps what ops mean.

use crate::lower::op::{JitOp, SwitchTable};
use crate::lower::wasm::{Target, VALUE_BOOL_MARK, VALUE_INT_MARK};
use crate::model::{End, State, Turn};
use crate::sense;
use crate::sense::{Served, Service, Tables, World};
use crate::translate;
use crate::translate::{Counts, Op, Setting};
use vstd::prelude::*;

verus! {

proof fn lemma_words()
    ensures
        sense::bool_word(true) == VALUE_BOOL_MARK + 1,
        sense::bool_word(false) == VALUE_BOOL_MARK,
        sense::int_word(0) == VALUE_INT_MARK,
{
    let bools: u64 = VALUE_BOOL_MARK;
    let ints: u64 = VALUE_INT_MARK;
    assert(bools | 1 == bools + 1 && ints | (0i32 as u32 as u64) == ints) by (bit_vector)
        requires
            bools == 0xfffa_0000_0000_0000u64,
            ints == 0xfffb_0000_0000_0000u64,
    ;
}

/// The op uses the scope stack.
pub open spec fn is_scope_op(op: Op) -> bool {
    op is PushScope || op is PopScope || op is GetScopeObject
}

#[verifier::spinoff_prover]
#[verifier::rlimit(60)]
proof fn lemma_value_sense(op: Op, t: Tables)
    requires
        translate::plain_op(op) is Some,
        sense::value_sense(op) is Some,
    ensures
        sense::boxed_sense(translate::plain_op(op)->0, t) == sense::op_sense(op),
{
    lemma_words();
    match op {
        Op::Nop => {},
        Op::Debug => {},
        Op::DebugFile => {},
        Op::DebugLine => {},
        Op::Pop => {},
        Op::Dup => {},
        Op::Swap => {},
        Op::PushTrue => {},
        Op::PushFalse => {},
        Op::PushUndefined => {},
        Op::AddI => {},
        Op::SubtractI => {},
        Op::MultiplyI => {},
        Op::IncrementI => {},
        Op::DecrementI => {},
        Op::CoerceB => {},
        Op::Throw => {},
        Op::Kill { .. } => {},
        Op::PushInt { .. } => {},
        Op::PushUint { .. } => {},
        Op::PushDouble { .. } => {},
        Op::PushNull { .. } => {},
        Op::GetLocal { .. } => {},
        Op::SetLocal { .. } => {},
        Op::StoreLocal { .. } => {},
        Op::IncLocalI { .. } => {},
        Op::DecLocalI { .. } => {},
        Op::IncLocal { .. } => {},
        Op::DecLocal { .. } => {},
        Op::Jump { .. } => {},
        Op::IfTrue { .. } => {},
        Op::IfFalse { .. } => {},
        Op::ReturnValue { .. } => {},
        Op::ReturnVoid { .. } => {},
        Op::HasNext2 { .. } => {},
        _ => {},
    }
}

#[verifier::spinoff_prover]
#[verifier::rlimit(60)]
proof fn lemma_computing_sense(op: Op, t: Tables)
    requires
        translate::plain_op(op) is Some,
        sense::value_sense(op) is None,
        sense::computing_sense(op) is Some,
    ensures
        sense::boxed_sense(translate::plain_op(op)->0, t) == sense::op_sense(op),
{
    lemma_words();
    match op {
        Op::Increment => {},
        Op::Decrement => {},
        Op::Negate => {},
        Op::BitNot => {},
        Op::Not => {},
        Op::CoerceI => {},
        Op::CoerceU => {},
        Op::CoerceS => {},
        Op::ConvertS => {},
        Op::CoerceD => {},
        Op::TypeOf => {},
        Op::Sxi1 => {},
        Op::Sxi8 => {},
        Op::Sxi16 => {},
        Op::Equals => {},
        Op::LessThan => {},
        Op::LessEquals => {},
        Op::GreaterThan => {},
        Op::GreaterEquals => {},
        Op::StrictEquals => {},
        Op::BitAnd => {},
        Op::BitOr => {},
        Op::BitXor => {},
        Op::LShift => {},
        Op::RShift => {},
        Op::URShift => {},
        Op::Add => {},
        Op::Subtract => {},
        Op::Multiply => {},
        Op::Divide => {},
        Op::Modulo => {},
        Op::AsTypeLate => {},
        Op::IsTypeLate => {},
        Op::In => {},
        Op::NextValue => {},
        _ => {},
    }
}

#[verifier::spinoff_prover]
#[verifier::rlimit(60)]
proof fn lemma_object_sense(op: Op, t: Tables)
    requires
        translate::plain_op(op) is Some,
        sense::value_sense(op) is None,
        sense::computing_sense(op) is None,
        op matches Op::NewObject { num_args } ==> num_args * 2 <= u32::MAX,
    ensures
        sense::boxed_sense(translate::plain_op(op)->0, t) == sense::op_sense(op),
{
    lemma_words();
    match op {
        Op::SetSlot { .. } => {},
        Op::SetSlotNoCoerce { .. } => {},
        Op::SetSlotCoerceI { .. } => {},
        Op::GetOuterScope { .. } => {},
        Op::NewCatch { .. } => {},
        Op::ConstructSuper { .. } => {},
        Op::Call { .. } => {},
        Op::Construct { .. } => {},
        Op::ConstructSlot { .. } => {},
        Op::ApplyType { .. } => {},
        Op::NewArray { .. } => {},
        Op::NewObject { .. } => {},
        _ => {},
    }
}

proof fn lemma_plain_sense(op: Op, t: Tables)
    requires
        translate::plain_op(op) is Some,
        op matches Op::NewObject { num_args } ==> num_args * 2 <= u32::MAX,
    ensures
        sense::op_sense(op) is Some,
        sense::boxed_sense(translate::plain_op(op)->0, t) == sense::op_sense(op),
{
    if sense::value_sense(op) is Some {
        lemma_value_sense(op, t);
    } else if sense::computing_sense(op) is Some {
        lemma_computing_sense(op, t);
    } else {
        lemma_object_sense(op, t);
        assert(sense::object_sense(op) is Some);
    }
}

#[verifier::spinoff_prover]
proof fn lemma_memory_sense(op: Op, inline: bool, t: Tables)
    requires
        translate::dm_op(op, inline) is Some,
    ensures
        sense::op_sense(op) is Some,
        sense::boxed_sense(translate::dm_op(op, inline)->0, t) == sense::op_sense(op),
{
}

#[verifier::spinoff_prover]
proof fn lemma_scope_sense(op: Op, s: Setting, t: Tables)
    requires
        translate::scope_op(op, s) is Some,
        op is GetScopeObject || s.scopes,
        !(s.scope_this && op is GetScopeObject),
    ensures
        sense::op_sense(op) is Some,
        sense::boxed_sense(translate::scope_op(op, s)->0, t) == sense::op_sense(op),
{
}

#[verifier::spinoff_prover]
#[verifier::rlimit(30)]
proof fn lemma_name_sense(op: Op, k: u32, site: u32, s: Setting, number: bool, t: Tables)
    requires
        translate::name_op(op, k, site, s, number) is Some,
        translate::name_of(op) matches Some(name) && t.names[k as int] == name.id,
    ensures
        sense::op_sense(op) is Some,
        sense::boxed_sense(translate::name_op(op, k, site, s, number)->0, t) == sense::op_sense(op),
{
}

#[verifier::spinoff_prover]
#[verifier::rlimit(30)]
proof fn lemma_table_sense(op: Op, c: Counts, s: Setting, number: bool, t: Tables)
    requires
        translate::table_op(op, c, s, number) is Some,
        translate::script_of(op) matches Some(x) ==> t.scripts[(c.scripts as u32) as int] == x,
        translate::string_of(op) matches Some(x) ==> t.strings[(c.strings as u32) as int] == x,
        translate::class_of(op) matches Some(x) ==> t.classes[(c.classes as u32) as int] == x,
        translate::native_of(op) matches Some(x) ==> t.natives[(c.natives as u32) as int] == x,
        translate::namespace_of(op) matches Some(x) ==> t.namespaces[(c.namespaces as u32) as int]
            == x,
        op matches Op::LookupSwitch(table) ==> translate::same_switch(
            t.switches[(c.switches as u32) as int],
            table,
        ),
    ensures
        sense::op_sense(op) is Some,
        sense::boxed_sense(translate::table_op(op, c, s, number)->0, t) == sense::op_sense(op),
{
}

/// A boxed op means what its op means. Only the ops on the scope stack are apart, where the method
/// does without one.
pub proof fn boxed_ops_mean_what_their_ops_mean(
    ops: Seq<Op>,
    number_slots: Seq<u32>,
    target: Target,
    switches: Seq<SwitchTable>,
    i: int,
)
    requires
        translate::countable(ops),
        0 <= i < ops.len(),
        translate::switches_line_up(
            ops,
            translate::setting(ops, target),
            ops.len() as int,
            switches,
        ),
        translate::boxed_at(ops, number_slots, target, i) is Some,
        translate::setting(ops, target).scopes || !is_scope_op(ops[i]),
        !(translate::setting(ops, target).scope_this && ops[i] is GetScopeObject),
    ensures
        sense::op_sense(ops[i]) is Some,
        sense::boxed_sense(
            translate::boxed_at(ops, number_slots, target, i)->0,
            sense::tables_of(ops, switches),
        ) == sense::op_sense(ops[i]),
{
    let s = translate::setting(ops, target);
    let c = translate::counts(ops, i, s);
    translate::tables_line_up(ops, s, i);
    translate::lemma_counts_bounded(ops, i, s);
    let t = sense::tables_of(ops, switches);
    let number = number_slots.contains(i as u32);
    let op = ops[i];
    if translate::plain_op(op) is Some {
        lemma_plain_sense(op, t);
    } else if translate::dm_op(op, s.inline_dm) is Some {
        lemma_memory_sense(op, s.inline_dm, t);
    } else if translate::scope_op(op, s) is Some {
        lemma_scope_sense(op, s, t);
    } else if translate::name_op(op, c.names as u32, c.reads as u32, s, number) is Some {
        lemma_name_sense(op, c.names as u32, c.reads as u32, s, number, t);
    } else {
        lemma_table_sense(op, c, s, number, t);
    }
}

/// One op of the bytecode.
pub open spec fn op_turn<H>(w: World<H>, ops: Seq<Op>, s: State<H>) -> Turn<H> {
    if 0 <= s.pc < ops.len() && sense::op_sense(ops[s.pc]) is Some {
        sense::turn(w, sense::op_sense(ops[s.pc])->0, s)
    } else {
        Turn::Stuck
    }
}

/// One boxed op.
pub open spec fn boxed_turn<H>(w: World<H>, ops: Seq<JitOp>, t: Tables, s: State<H>) -> Turn<H> {
    if 0 <= s.pc < ops.len() && sense::boxed_sense(ops[s.pc], t) is Some {
        sense::turn(w, sense::boxed_sense(ops[s.pc], t)->0, s)
    } else {
        Turn::Stuck
    }
}

/// How the bytecode ends within `fuel` ops; `None` if it has not ended by then, or gets stuck.
pub open spec fn op_end<H>(w: World<H>, ops: Seq<Op>, s: State<H>, fuel: nat) -> Option<End<H>>
    decreases fuel,
{
    if fuel == 0 {
        None
    } else {
        match op_turn(w, ops, s) {
            Turn::Next(n) => op_end(w, ops, n, (fuel - 1) as nat),
            Turn::Returned(v, h) => Some(End::Returned(v, h)),
            Turn::Threw(h) => Some(End::Threw(h)),
            Turn::Stuck => None,
        }
    }
}

/// How the boxed ops end within `fuel` ops; `None` if they have not ended by then, or get stuck.
pub open spec fn boxed_end<H>(
    w: World<H>,
    ops: Seq<JitOp>,
    t: Tables,
    s: State<H>,
    fuel: nat,
) -> Option<End<H>>
    decreases fuel,
{
    if fuel == 0 {
        None
    } else {
        match boxed_turn(w, ops, t, s) {
            Turn::Next(n) => boxed_end(w, ops, t, n, (fuel - 1) as nat),
            Turn::Returned(v, h) => Some(End::Returned(v, h)),
            Turn::Threw(h) => Some(End::Threw(h)),
            Turn::Stuck => None,
        }
    }
}

/// `code` and `switches` are what the method translates to.
pub open spec fn is_translation(
    ops: Seq<Op>,
    number_slots: Seq<u32>,
    target: Target,
    code: Seq<JitOp>,
    switches: Seq<SwitchTable>,
) -> bool {
    &&& translate::countable(ops)
    &&& code.len() == ops.len()
    &&& forall|i: int|
        0 <= i < ops.len() ==> translate::boxed_at(ops, number_slots, target, i) == Some(
            #[trigger] code[i],
        )
    &&& translate::switches_line_up(
        ops,
        translate::setting(ops, target),
        ops.len() as int,
        switches,
    )
}

/// The method keeps its scopes where the host does, or has none.
pub open spec fn has_real_scopes(ops: Seq<Op>, target: Target) -> bool {
    let s = translate::setting(ops, target);
    forall|i: int|
        0 <= i < ops.len() && is_scope_op(#[trigger] ops[i]) ==> s.scopes && !(s.scope_this
            && ops[i] is GetScopeObject)
}

/// A translated method ends as its bytecode does, on every host.
pub proof fn translated_methods_end_alike<H>(
    w: World<H>,
    ops: Seq<Op>,
    number_slots: Seq<u32>,
    target: Target,
    code: Seq<JitOp>,
    switches: Seq<SwitchTable>,
    s: State<H>,
    fuel: nat,
)
    requires
        is_translation(ops, number_slots, target, code, switches),
        has_real_scopes(ops, target),
    ensures
        boxed_turn(w, code, sense::tables_of(ops, switches), s) == op_turn(w, ops, s),
        boxed_end(w, code, sense::tables_of(ops, switches), s, fuel) == op_end(w, ops, s, fuel),
    decreases fuel,
{
    if 0 <= s.pc < ops.len() {
        assert(translate::boxed_at(ops, number_slots, target, s.pc) == Some(code[s.pc]));
        let op = ops[s.pc];
        boxed_ops_mean_what_their_ops_mean(ops, number_slots, target, switches, s.pc);
    }
    if fuel > 0 {
        if let Turn::Next(n) = op_turn(w, ops, s) {
            translated_methods_end_alike(
                w,
                ops,
                number_slots,
                target,
                code,
                switches,
                n,
                (fuel - 1) as nat,
            );
        }
    }
}

/// A translated conditional branches just when its bytecode op does: `iftrue` where the operand is
/// true, `iffalse` where it is not. Both take the operand.
pub proof fn conditionals_branch_on_their_truth<H>(
    w: World<H>,
    ops: Seq<Op>,
    number_slots: Seq<u32>,
    target: Target,
    code: Seq<JitOp>,
    switches: Seq<SwitchTable>,
    s: State<H>,
)
    requires
        is_translation(ops, number_slots, target, code, switches),
        0 <= s.pc < ops.len(),
        s.stack.len() > 0,
    ensures
        ({
            let taken = |to: int|
                Turn::Next(State { pc: to, stack: s.stack.drop_last(), ..s });
            let t = sense::tables_of(ops, switches);
            &&& ops[s.pc] matches Op::IfTrue { offset } ==> boxed_turn(w, code, t, s) == taken(
                if (w.truth)(s.stack.last()) {
                    offset as int
                } else {
                    s.pc + 1
                },
            )
            &&& ops[s.pc] matches Op::IfFalse { offset } ==> boxed_turn(w, code, t, s) == taken(
                if (w.truth)(s.stack.last()) {
                    s.pc + 1
                } else {
                    offset as int
                },
            )
        }),
{
    assert(translate::boxed_at(ops, number_slots, target, s.pc) == Some(code[s.pc]));
    assert(s.stack.take(s.stack.len() - 1) =~= s.stack.drop_last());
    if ops[s.pc] is IfTrue || ops[s.pc] is IfFalse {
        boxed_ops_mean_what_their_ops_mean(ops, number_slots, target, switches, s.pc);
    }
}

/// A method that does without a scope stack leaves its operands and its locals as one with a scope
/// stack does, and goes on at the same op, where the host does not throw. What it reads as its
/// scope is `this`.
pub proof fn methods_do_without_a_scope_stack<H>(
    w: World<H>,
    ops: Seq<Op>,
    number_slots: Seq<u32>,
    target: Target,
    code: Seq<JitOp>,
    switches: Seq<SwitchTable>,
    s: State<H>,
    word: u64,
    h: H,
)
    requires
        is_translation(ops, number_slots, target, code, switches),
        0 <= s.pc < ops.len(),
        is_scope_op(ops[s.pc]),
        s.locals.len() > 0,
        ops[s.pc] is PushScope ==> s.stack.len() > 0 && (w.serve)(
            Service::PushScope,
            seq![s.stack.last()],
            s.host,
        ) == Served::Word(word, h),
        ops[s.pc] is PopScope ==> (w.serve)(Service::PopScope, Seq::empty(), s.host)
            == Served::Word(word, h),
        ops[s.pc] matches Op::GetScopeObject { index } ==> (w.serve)(
            Service::Scope(index),
            Seq::empty(),
            s.host,
        ) == Served::Word(
            if index == 0 {
                s.locals[0]
            } else {
                word
            },
            h,
        ),
    ensures
        ({
            let t = sense::tables_of(ops, switches);
            &&& op_turn(w, ops, s) matches Turn::Next(n)
            &&& boxed_turn(w, code, t, s) matches Turn::Next(n2)
            &&& n2.pc == n.pc
            &&& n2.stack == n.stack
            &&& n2.locals == n.locals
        }),
{
    let t = sense::tables_of(ops, switches);
    let n = s.stack.len() as int;
    assert(translate::boxed_at(ops, number_slots, target, s.pc) == Some(code[s.pc]));
    assert(s.stack.skip(n) =~= Seq::empty());
    assert(s.stack.take(n) =~= s.stack);
    if n > 0 {
        assert(s.stack.skip(n - 1) =~= seq![s.stack.last()]);
    }
}

} // verus!
