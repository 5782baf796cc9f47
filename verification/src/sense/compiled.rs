//! Direct runs return what compiled code returns.
//!
//! A short method can be run without its code. Here the code is run as well, on any engine that
//! computes as [`machine`] does, and both return the same word.

use crate::direct;
use crate::direct::{Event, Progress};
use crate::lower::agree;
use crate::lower::body;
use crate::lower::body::Ctx;
use crate::lower::fast;
use crate::lower::follow;
use crate::lower::follow::{At, Engine, Going, Move, Out};
use crate::lower::linear;
use crate::lower::machine;
use crate::lower::machine::{Machine, Node, Val};
use crate::lower::op::JitOp;
use crate::lower::pieces;
use crate::lower::wasm::{
    Binop, Cvtop, Instr, Memop, BLOCK, SCRATCH, SCRATCH64, SCRATCH64_2, STATE_PTR, VALUE_INT_MARK,
};
use vstd::prelude::*;

verus! {

/// An instruction that computes, or reads the first memory.
pub open spec fn is_pure(i: Instr) -> bool {
    i is Cvt || i is Bin || (i matches Instr::Access(op, _) && op is I64Load)
}

/// How many operands such an instruction takes.
pub open spec fn taken(i: Instr) -> nat {
    if i is Bin {
        2
    } else {
        1
    }
}

/// The engine computes as the machine does, with the memory that its state has.
pub open spec fn computes<X>(e: Engine<X>, memory: spec_fn(X) -> Seq<u8>) -> bool {
    &&& forall|i: Instr| is_pure(i) ==> #[trigger] (e.takes)(i) == taken(i)
    &&& forall|i: Instr, args: Seq<Val>, x: X|
        is_pure(i) && args.len() == taken(i) ==> #[trigger] (e.does)(i, args, x) == (
        match machine::plain(
            i,
            Machine { locals: Seq::empty(), stack: args, memory: memory(x), outer: Seq::empty() },
        ) {
            Some(m) => Some((m.stack, x)),
            None => None,
        })
}

/// Words as operands.
pub open spec fn words(s: Seq<u64>) -> Seq<Val> {
    Seq::new(s.len(), |k: int| Val::I64(s[k]))
}

/// The method under way has those registers, and those words as operands.
pub open spec fn stands<X>(
    memory: spec_fn(X) -> Seq<u8>,
    m: Going<X>,
    regs: Seq<u64>,
    stack: Seq<u64>,
) -> bool {
    &&& m.locals.len() == follow::LOCALS
    &&& m.locals[STATE_PTR as int] matches Val::I32(base) && agree::holds(
        memory(m.state),
        base as u32 as int,
        regs,
    )
    &&& m.stack == words(stack)
}

// Plain code.

/// Plain code, from instruction `k` on.
pub open spec fn through<X>(e: Engine<X>, code: Seq<Instr>, k: int, m: Going<X>) -> Out<X>
    decreases code.len() - k,
{
    if k < 0 || k >= code.len() {
        Out::Next(m)
    } else {
        match follow::act(e, code[k], m) {
            Out::Next(m2) => through(e, code, k + 1, m2),
            o => o,
        }
    }
}

pub proof fn lemma_through<X>(e: Engine<X>, code: Seq<Instr>, k: int, m: Going<X>)
    requires
        0 <= k <= code.len(),
    ensures
        follow::go(e, machine::plains(code.skip(k)), m) == through(e, code, k, m),
    decreases code.len() - k,
{
    if k == code.len() {
        assert(machine::plains(code.skip(k)) =~= Seq::empty());
    } else {
        assert(code.skip(k) =~= seq![code[k]] + code.skip(k + 1));
        follow::lemma_go_first(e, code[k], code.skip(k + 1), m);
        if let Out::Next(m2) = follow::act(e, code[k], m) {
            lemma_through(e, code, k + 1, m2);
        }
    }
}

/// Code without blocks has one structure.
pub proof fn lemma_plain_structure(nodes: Seq<Node>)
    requires
        pieces::is_proper(nodes),
        forall|k: int|
            0 <= k < machine::flat(nodes).len() ==> !pieces::is_bracket(
                #[trigger] machine::flat(nodes)[k],
            ),
    ensures
        nodes == machine::plains(machine::flat(nodes)),
    decreases nodes.len(),
{
    let code = machine::flat(nodes);
    if nodes.len() == 0 {
        assert(nodes =~= machine::plains(code));
    } else {
        let front = nodes.drop_last();
        let last = nodes.last();
        let a = machine::flat(front);
        let b = machine::flat_node(last);
        assert(code == a + b);
        assert forall|k: int| 0 <= k < a.len() implies !pieces::is_bracket(#[trigger] a[k]) by {
            assert(code[k] == a[k]);
        }
        lemma_plain_structure(front);
        assert(b.len() > 0);
        assert(code[a.len() as int] == b[0]);
        assert(last is Plain);
        assert(last == Node::Plain(last->Plain_0));
        assert(code =~= a.push(last->Plain_0));
        assert(front.len() == a.len());
        assert forall|k: int| 0 <= k < nodes.len() implies #[trigger] nodes[k] == machine::plains(
            code,
        )[k] by {
            if k < a.len() {
                assert(nodes[k] == front[k]);
                assert(front[k] == machine::plains(a)[k]);
            }
        }
        assert(nodes =~= machine::plains(code));
    }
}

/// The code of an op that neither throws nor has blocks is run one instruction after the other.
proof fn lemma_part<X>(e: Engine<X>, c: Ctx, i: int, m: Going<X>)
    requires
        0 <= i < c.ops.len(),
        follow::bail_code(c, i).len() == 0,
        forall|k: int|
            0 <= k < follow::own_code(c, i).len() ==> !pieces::is_bracket(
                #[trigger] follow::own_code(c, i)[k],
            ),
    ensures
        follow::go(e, pieces::parts_of(c)[i], m) == through(e, follow::own_code(c, i), 0, m),
{
    let code = follow::own_code(c, i);
    pieces::the_code_of_an_op_stands_alone(c, i);
    assert(pieces::whole_code(c, i) =~= code);
    let nodes = pieces::structure_of(pieces::whole_code(c, i));
    lemma_plain_structure(nodes);
    lemma_through(e, code, 0, m);
    assert(code.skip(0) =~= code);
}

// Instructions.

proof fn lemma_convert<X>(e: Engine<X>, memory: spec_fn(X) -> Seq<u8>, op: Cvtop, m: Going<X>)
    requires
        computes(e, memory),
        m.stack.len() >= 1,
        machine::converted(op, m.top()) is Some,
    ensures
        follow::act(e, Instr::Cvt(op), m) == Out::Next(
            m.popped().pushed(machine::converted(op, m.top())->0),
        ),
{
    let n = m.stack.len() as int;
    let args = m.stack.skip(n - 1);
    assert(args =~= seq![m.top()]);
    let i = Instr::Cvt(op);
    assert((e.takes)(i) == taken(i));
    let v = machine::converted(op, m.top())->0;
    let given = machine::plain(
        i,
        Machine { locals: Seq::empty(), stack: args, memory: memory(m.state), outer: Seq::empty() },
    );
    assert((e.does)(i, args, m.state) == (match given {
        Some(g) => Some((g.stack, m.state)),
        None => None,
    }));
    assert((given->0).stack =~= seq![v]);
    assert(m.stack.take(n - 1) + seq![v] =~= m.stack.drop_last().push(v));
}

proof fn lemma_compute<X>(e: Engine<X>, memory: spec_fn(X) -> Seq<u8>, op: Binop, m: Going<X>)
    requires
        computes(e, memory),
        m.stack.len() >= 2,
        machine::computed(op, m.below(), m.top()) is Some,
    ensures
        follow::act(e, Instr::Bin(op), m) == Out::Next(
            m.popped().popped().pushed(machine::computed(op, m.below(), m.top())->0),
        ),
{
    let n = m.stack.len() as int;
    let args = m.stack.skip(n - 2);
    assert(args =~= seq![m.below(), m.top()]);
    let i = Instr::Bin(op);
    assert((e.takes)(i) == taken(i));
    let v = machine::computed(op, m.below(), m.top())->0;
    let given = machine::plain(
        i,
        Machine { locals: Seq::empty(), stack: args, memory: memory(m.state), outer: Seq::empty() },
    );
    assert((e.does)(i, args, m.state) == (match given {
        Some(g) => Some((g.stack, m.state)),
        None => None,
    }));
    assert((given->0).stack =~= seq![v]);
    assert(m.stack.take(n - 2) + seq![v] =~= m.stack.drop_last().drop_last().push(v));
}

proof fn lemma_read<X>(
    e: Engine<X>,
    memory: spec_fn(X) -> Seq<u8>,
    i: u32,
    m: Going<X>,
    regs: Seq<u64>,
    stack: Seq<u64>,
)
    requires
        computes(e, memory),
        stands(memory, m, regs, stack),
        i < regs.len(),
    ensures
        follow::act(
            e,
            Instr::Access(Memop::I64Load, linear::slot_of(i)),
            m.pushed(m.locals[STATE_PTR as int]),
        ) == Out::Next(m.pushed(Val::I64(regs[i as int]))),
{
    let m1 = m.pushed(m.locals[STATE_PTR as int]);
    let n = m1.stack.len() as int;
    let args = m1.stack.skip(n - 1);
    assert(args =~= seq![m1.top()]);
    let instr = Instr::Access(Memop::I64Load, linear::slot_of(i));
    assert(is_pure(instr));
    assert((e.takes)(instr) == taken(instr));
    let base = m.locals[STATE_PTR as int]->I32_0;
    let bytes = memory(m.state);
    assert(agree::holds(bytes, base as u32 as int, regs));
    let at = base as u32 as int + 8 * (i as int);
    assert(machine::load(bytes, at) == regs[i as int]);
    assert(machine::address(base, linear::slot_of(i), bytes.len()) == Some(at));
    let given = machine::plain(
        instr,
        Machine { locals: Seq::empty(), stack: args, memory: bytes, outer: Seq::empty() },
    );
    assert((e.does)(instr, args, m.state) == (match given {
        Some(g) => Some((g.stack, m.state)),
        None => None,
    }));
    assert((given->0).stack =~= seq![Val::I64(regs[i as int])]);
    assert(m1.stack.take(n - 1) + seq![Val::I64(regs[i as int])] =~= m.stack.push(
        Val::I64(regs[i as int]),
    ));
}

// Ops.

/// Two ints of the words on top, put together.
proof fn lemma_whole<X>(
    e: Engine<X>,
    memory: spec_fn(X) -> Seq<u8>,
    op: Binop,
    m: Going<X>,
    a: u64,
    b: u64,
    v: i32,
)
    requires
        computes(e, memory),
        m.locals.len() == follow::LOCALS,
        m.stack.len() >= 2,
        m.below() == Val::I64(a),
        m.top() == Val::I64(b),
        machine::computed(op, Val::I32(a as u32 as i32), Val::I32(b as u32 as i32)) == Some(
            Val::I32(v),
        ),
    ensures
        through(e, linear::boxed_int_op(op), 0, m) == Out::Next(
            m.popped().popped().with_local(SCRATCH, Val::I32(b as u32 as i32)).pushed(
                Val::I64(linear::int_word(v)),
            ),
        ),
{
    reveal(linear::box_int);
    reveal_with_fuel(through, 9);
    let code = linear::boxed_int_op(op);
    let y = Val::I32(b as u32 as i32);
    let x = Val::I32(a as u32 as i32);
    lemma_convert(e, memory, Cvtop::I32WrapI64, m);
    let m1 = m.popped().pushed(y);
    let m2 = m1.popped().with_local(SCRATCH, y);
    assert(m1.popped().stack =~= m.popped().stack);
    assert(m2.top() == Val::I64(a));
    lemma_convert(e, memory, Cvtop::I32WrapI64, m2);
    let m3 = m2.popped().pushed(x);
    let m4 = m3.pushed(y);
    lemma_compute(e, memory, op, m4);
    let m5 = m4.popped().popped().pushed(Val::I32(v));
    let low = m.popped().popped().with_local(SCRATCH, y);
    assert(m5 =~= low.pushed(Val::I32(v)));
    lemma_boxed(e, memory, low, v);
    assert(code[5] == linear::box_int()[0]);
    assert(code[6] == linear::box_int()[1]);
    assert(code[7] == linear::box_int()[2]);
}

/// An int on top becomes its word.
proof fn lemma_boxed<X>(e: Engine<X>, memory: spec_fn(X) -> Seq<u8>, low: Going<X>, v: i32)
    requires
        computes(e, memory),
    ensures
        follow::act(e, Instr::Cvt(Cvtop::I64ExtendI32U), low.pushed(Val::I32(v))) == Out::Next(
            low.pushed(Val::I64(v as u32 as u64)),
        ),
        follow::act(
            e,
            Instr::Bin(Binop::I64Or),
            low.pushed(Val::I64(v as u32 as u64)).pushed(Val::I64(VALUE_INT_MARK)),
        ) == Out::Next(low.pushed(Val::I64(linear::int_word(v)))),
{
    let m = low.pushed(Val::I32(v));
    lemma_convert(e, memory, Cvtop::I64ExtendI32U, m);
    assert(m.popped() =~= low);
    let n = low.pushed(Val::I64(v as u32 as u64)).pushed(Val::I64(VALUE_INT_MARK));
    lemma_compute(e, memory, Binop::I64Or, n);
    assert(n.popped().popped() =~= low);
    fast::lemma_int_words(v);
}

/// One more or less than the int of the word on top.
proof fn lemma_moved<X>(
    e: Engine<X>,
    memory: spec_fn(X) -> Seq<u8>,
    op: Binop,
    m: Going<X>,
    a: u64,
    v: i32,
)
    requires
        computes(e, memory),
        m.stack.len() >= 1,
        m.top() == Val::I64(a),
        machine::computed(op, Val::I32(a as u32 as i32), Val::I32(1)) == Some(Val::I32(v)),
    ensures
        through(
            e,
            seq![Instr::Cvt(Cvtop::I32WrapI64), Instr::I32Const(1), Instr::Bin(op)]
                + linear::box_int(),
            0,
            m,
        ) == Out::Next(m.popped().pushed(Val::I64(linear::int_word(v)))),
{
    reveal(linear::box_int);
    reveal_with_fuel(through, 7);
    let code = seq![Instr::Cvt(Cvtop::I32WrapI64), Instr::I32Const(1), Instr::Bin(op)]
        + linear::box_int();
    lemma_convert(e, memory, Cvtop::I32WrapI64, m);
    let x = Val::I32(a as u32 as i32);
    let m2 = m.popped().pushed(x).pushed(Val::I32(1));
    lemma_compute(e, memory, op, m2);
    assert(m2.popped().popped() =~= m.popped());
    lemma_boxed(e, memory, m.popped(), v);
    assert(code[3] == linear::box_int()[0]);
    assert(code[4] == linear::box_int()[1]);
    assert(code[5] == linear::box_int()[2]);
}

/// The code of the next op does what a direct run does for it, if that asks for nothing.
spec fn does_alike<X>(
    e: Engine<X>,
    memory: spec_fn(X) -> Seq<u8>,
    c: Ctx,
    regs: Seq<u64>,
    p: Progress,
    m: Going<X>,
) -> bool {
    let code = follow::own_code(c, p.pc);
    let flat = forall|k: int| 0 <= k < code.len() ==> !pieces::is_bracket(#[trigger] code[k]);
    match direct::op_event(c.ops[p.pc], regs, p) {
        Event::Next(q) => {
            &&& through(e, code, 0, m) matches Out::Next(m2) && stands(memory, m2, regs, q.stack)
                && m2.state == m.state
            &&& flat
            &&& q.stack.len() == follow::height_after(c, p.pc, p.stack.len())
        },
        Event::Done(v) => {
            &&& through(e, code, 0, m) == Out::Returned(Val::I64(v), m.state)
            &&& flat
        },
        _ => true,
    }
}

#[verifier::rlimit(40)]
proof fn lemma_int_code<X>(
    e: Engine<X>,
    memory: spec_fn(X) -> Seq<u8>,
    c: Ctx,
    regs: Seq<u64>,
    p: Progress,
    m: Going<X>,
)
    requires
        computes(e, memory),
        stands(memory, m, regs, p.stack),
        p.stack.len() >= 2,
        c.ops[p.pc] is AddIBoxed || c.ops[p.pc] is SubtractIBoxed || c.ops[p.pc] is MultiplyIBoxed,
    ensures
        does_alike(e, memory, c, regs, p, m),
{
    let o = c.ops[p.pc];
    let code = follow::own_code(c, p.pc);
    reveal(linear::box_int);
    assert(m.top() == Val::I64(p.top(1)));
    assert(m.below() == Val::I64(p.top(2)));
    let a = p.top(2);
    let b = p.top(1);
    let x = a as u32 as i32;
    let y = b as u32 as i32;
    if o is AddIBoxed {
        lemma_whole(e, memory, Binop::I32Add, m, a, b, x.wrapping_add(y));
    } else if o is SubtractIBoxed {
        lemma_whole(e, memory, Binop::I32Sub, m, a, b, x.wrapping_sub(y));
    } else {
        lemma_whole(e, memory, Binop::I32Mul, m, a, b, x.wrapping_mul(y));
    }
    let q = direct::op_event(o, regs, p)->Next_0;
    let m2 = through(e, code, 0, m)->Next_0;
    assert(m2.stack =~= words(q.stack));
}

#[verifier::rlimit(40)]
proof fn lemma_step_code<X>(
    e: Engine<X>,
    memory: spec_fn(X) -> Seq<u8>,
    c: Ctx,
    regs: Seq<u64>,
    p: Progress,
    m: Going<X>,
)
    requires
        computes(e, memory),
        stands(memory, m, regs, p.stack),
        p.stack.len() >= 1,
        c.ops[p.pc] is IncrementIBoxed || c.ops[p.pc] is DecrementIBoxed,
    ensures
        does_alike(e, memory, c, regs, p, m),
{
    let o = c.ops[p.pc];
    let code = follow::own_code(c, p.pc);
    reveal(linear::box_int);
    assert(m.top() == Val::I64(p.top(1)));
    let b = p.top(1);
    let y = b as u32 as i32;
    if o is IncrementIBoxed {
        lemma_moved(e, memory, Binop::I32Add, m, b, y.wrapping_add(1));
    } else {
        lemma_moved(e, memory, Binop::I32Sub, m, b, y.wrapping_sub(1));
    }
    let q = direct::op_event(o, regs, p)->Next_0;
    let m2 = through(e, code, 0, m)->Next_0;
    assert(m2.stack =~= words(q.stack));
}

#[verifier::spinoff_prover]
#[verifier::rlimit(40)]
proof fn lemma_swap_code<X>(
    e: Engine<X>,
    memory: spec_fn(X) -> Seq<u8>,
    c: Ctx,
    regs: Seq<u64>,
    p: Progress,
    m: Going<X>,
)
    requires
        computes(e, memory),
        stands(memory, m, regs, p.stack),
        p.stack.len() >= 2,
        c.ops[p.pc] is SwapValue,
    ensures
        does_alike(e, memory, c, regs, p, m),
{
    let o = c.ops[p.pc];
    let code = follow::own_code(c, p.pc);
    reveal_with_fuel(through, 5);
    let a = p.top(2);
    let b = p.top(1);
    assert(m.top() == Val::I64(b));
    assert(m.below() == Val::I64(a));
    assert(code =~= seq![
        Instr::LocalSet(SCRATCH64),
        Instr::LocalSet(SCRATCH64_2),
        Instr::LocalGet(SCRATCH64),
        Instr::LocalGet(SCRATCH64_2),
    ]);
    let m1 = m.popped().with_local(SCRATCH64, Val::I64(b));
    assert(m1.top() == Val::I64(a));
    let m2 = m1.popped().with_local(SCRATCH64_2, Val::I64(a));
    let m3 = m2.pushed(Val::I64(b));
    let m4 = m3.pushed(Val::I64(a));
    assert(through(e, code, 3, m3) == Out::Next(m4));
    assert(through(e, code, 2, m2) == Out::Next(m4));
    assert(through(e, code, 1, m1) == Out::Next(m4));
    assert(through(e, code, 0, m) == Out::Next(m4));
    let q = direct::op_event(o, regs, p)->Next_0;
    assert(m4.stack =~= words(q.stack));
}

#[verifier::spinoff_prover]
#[verifier::rlimit(40)]
proof fn lemma_local_code<X>(
    e: Engine<X>,
    memory: spec_fn(X) -> Seq<u8>,
    c: Ctx,
    regs: Seq<u64>,
    p: Progress,
    m: Going<X>,
)
    requires
        computes(e, memory),
        stands(memory, m, regs, p.stack),
        c.ops[p.pc] is GetLocalValue,
    ensures
        does_alike(e, memory, c, regs, p, m),
{
    let o = c.ops[p.pc];
    let code = follow::own_code(c, p.pc);
    let i = o->GetLocalValue_0;
    if i < regs.len() {
        reveal_with_fuel(through, 3);
        lemma_read(e, memory, i, m, regs, p.stack);
        let m1 = m.pushed(m.locals[STATE_PTR as int]);
        let m2 = m.pushed(Val::I64(regs[i as int]));
        assert(code =~= seq![
            Instr::LocalGet(STATE_PTR),
            Instr::Access(Memop::I64Load, linear::slot_of(i)),
        ]);
        assert(through(e, code, 1, m1) == Out::Next(m2));
        assert(through(e, code, 0, m) == Out::Next(m2));
        let q = direct::op_event(o, regs, p)->Next_0;
        assert(m2.stack =~= words(q.stack));
    }
}

#[verifier::spinoff_prover]
#[verifier::rlimit(40)]
proof fn lemma_dup_code<X>(
    e: Engine<X>,
    memory: spec_fn(X) -> Seq<u8>,
    c: Ctx,
    regs: Seq<u64>,
    p: Progress,
    m: Going<X>,
)
    requires
        computes(e, memory),
        stands(memory, m, regs, p.stack),
        p.stack.len() >= 1,
        c.ops[p.pc] is DupValue,
    ensures
        does_alike(e, memory, c, regs, p, m),
{
    let o = c.ops[p.pc];
    let code = follow::own_code(c, p.pc);
    reveal_with_fuel(through, 3);
    let b = p.top(1);
    assert(m.top() == Val::I64(b));
    let m1 = m.with_local(SCRATCH64, Val::I64(b));
    let m2 = m1.pushed(Val::I64(b));
    assert(code =~= seq![Instr::LocalTee(SCRATCH64), Instr::LocalGet(SCRATCH64)]);
    assert(through(e, code, 1, m1) == Out::Next(m2));
    assert(through(e, code, 0, m) == Out::Next(m2));
    let q = direct::op_event(o, regs, p)->Next_0;
    assert(m2.stack =~= words(q.stack));
}

#[verifier::spinoff_prover]
#[verifier::rlimit(40)]
proof fn lemma_push_code<X>(
    e: Engine<X>,
    memory: spec_fn(X) -> Seq<u8>,
    c: Ctx,
    regs: Seq<u64>,
    p: Progress,
    m: Going<X>,
)
    requires
        computes(e, memory),
        stands(memory, m, regs, p.stack),
        p.stack.len() >= 1 || !(c.ops[p.pc] is Pop),
        c.ops[p.pc] is Nop || c.ops[p.pc] is Pop || c.ops[p.pc] is PushConst
            || c.ops[p.pc] is PushIntValue,
    ensures
        does_alike(e, memory, c, regs, p, m),
{
    let o = c.ops[p.pc];
    let code = follow::own_code(c, p.pc);
    reveal_with_fuel(through, 2);
    let q = direct::op_event(o, regs, p)->Next_0;
    let m2 = through(e, code, 0, m)->Next_0;
    assert(m2.stack =~= words(q.stack));
}

#[verifier::spinoff_prover]
#[verifier::rlimit(40)]
proof fn lemma_return_code<X>(
    e: Engine<X>,
    memory: spec_fn(X) -> Seq<u8>,
    c: Ctx,
    regs: Seq<u64>,
    p: Progress,
    m: Going<X>,
)
    requires
        computes(e, memory),
        stands(memory, m, regs, p.stack),
        p.stack.len() >= 1 || c.ops[p.pc] is ReturnVoidBoxed,
        c.ops[p.pc] is ReturnValueBoxed || c.ops[p.pc] is ReturnVoidBoxed,
    ensures
        does_alike(e, memory, c, regs, p, m),
{
    let o = c.ops[p.pc];
    let code = follow::own_code(c, p.pc);
    reveal_with_fuel(through, 3);
    if let JitOp::ReturnVoidBoxed(bits) = o {
        let m1 = m.pushed(Val::I64(bits));
        assert(code =~= seq![Instr::I64Const(bits), Instr::Return]);
        assert(through(e, code, 1, m1) == Out::Returned(Val::I64(bits), m.state));
    } else {
        assert(m.top() == Val::I64(p.top(1)));
        assert(code =~= seq![Instr::Return]);
    }
}

proof fn lemma_silent_code<X>(
    e: Engine<X>,
    memory: spec_fn(X) -> Seq<u8>,
    c: Ctx,
    regs: Seq<u64>,
    p: Progress,
    m: Going<X>,
)
    requires
        computes(e, memory),
        direct::in_step(c.ops, p),
        stands(memory, m, regs, p.stack),
    ensures
        does_alike(e, memory, c, regs, p, m),
        direct::op_event(c.ops[p.pc], regs, p) matches Event::Next(q) ==> direct::in_step(
            c.ops,
            q,
        ) && q.pc == p.pc + 1 && !crate::lower::manifest::can_throw(c.ops[p.pc])
            && !follow::is_branch(c.ops[p.pc]) && !(c.ops[p.pc] is Jump) && !(
        c.ops[p.pc] is LookupSwitch) && !(c.ops[p.pc] is Throw),
{
    direct::lemma_op_in_step(c.ops, p);
    let o = c.ops[p.pc];
    match o {
        JitOp::AddIBoxed => lemma_int_code(e, memory, c, regs, p, m),
        JitOp::SubtractIBoxed => lemma_int_code(e, memory, c, regs, p, m),
        JitOp::MultiplyIBoxed => lemma_int_code(e, memory, c, regs, p, m),
        JitOp::IncrementIBoxed => lemma_step_code(e, memory, c, regs, p, m),
        JitOp::DecrementIBoxed => lemma_step_code(e, memory, c, regs, p, m),
        JitOp::Nop => lemma_push_code(e, memory, c, regs, p, m),
        JitOp::Pop => lemma_push_code(e, memory, c, regs, p, m),
        JitOp::DupValue => lemma_dup_code(e, memory, c, regs, p, m),
        JitOp::SwapValue => lemma_swap_code(e, memory, c, regs, p, m),
        JitOp::GetLocalValue(_) => lemma_local_code(e, memory, c, regs, p, m),
        JitOp::PushConst(_) => lemma_push_code(e, memory, c, regs, p, m),
        JitOp::PushIntValue(_) => lemma_push_code(e, memory, c, regs, p, m),
        JitOp::ReturnValueBoxed => lemma_return_code(e, memory, c, regs, p, m),
        JitOp::ReturnVoidBoxed(_) => lemma_return_code(e, memory, c, regs, p, m),
        _ => {},
    }
}

proof fn lemma_followed<X>(
    e: Engine<X>,
    memory: spec_fn(X) -> Seq<u8>,
    c: Ctx,
    regs: Seq<u64>,
    p: Progress,
    m: Going<X>,
    v: u64,
    fuel: nat,
)
    requires
        computes(e, memory),
        c.exceptions.len() == 0,
        direct::in_step(c.ops, p),
        stands(memory, m, regs, p.stack),
        direct::run_on(c.ops, regs, p) == Event::Done(v),
        fuel >= c.ops.len() - p.pc,
    ensures
        follow::followed(e, c, pieces::parts_of(c), At { pc: p.pc, going: m }, fuel) == Some(
            (Val::I64(v), m.state),
        ),
    decreases c.ops.len() - p.pc,
{
    let parts = pieces::parts_of(c);
    let s = At { pc: p.pc, going: m };
    lemma_silent_code(e, memory, c, regs, p, m);
    assert(follow::landed(e, c, s) == Some(m));
    match direct::op_event(c.ops[p.pc], regs, p) {
        Event::Next(q) => {
            lemma_part(e, c, p.pc, m);
            let m2 = through(e, follow::own_code(c, p.pc), 0, m)->Next_0;
            assert(m2.stack.len() == q.stack.len());
            assert(follow::op_move(e, c, parts, s) == Move::To(At { pc: q.pc, going: m2 }));
            lemma_followed(e, memory, c, regs, q, m2, v, (fuel - 1) as nat);
        },
        Event::Done(_) => {
            lemma_part(e, c, p.pc, m);
        },
        _ => {},
    }
}

/// A direct run that asks for nothing returns the word that the compiled code of the same ops
/// returns from the same registers, on every engine that computes as the machine does. The code is
/// a loop behind the copying of the registers, and `inner` is what it runs; the registers stand
/// where local 0 points.
pub proof fn direct_runs_return_what_the_code_returns<X>(
    e: Engine<X>,
    memory: spec_fn(X) -> Seq<u8>,
    c: Ctx,
    regs: Seq<u64>,
    m: Going<X>,
    fuel: nat,
) -> (inner: Seq<Node>)
    requires
        computes(e, memory),
        direct::runs_directly(c.ops),
        c.exceptions.len() == 0,
        follow::is_method(c),
        body::body_code(c) is Some,
        stands(memory, m, regs, Seq::empty()),
        m.locals[BLOCK as int] == Val::I32(0),
        direct::run_on(c.ops, regs, Progress { pc: 0, stack: Seq::empty() }) is Done,
        fuel >= c.ops.len(),
    ensures
        body::body_code(c) == Some(
            machine::flat(follow::method_nodes(c, inner)) + seq![Instr::End],
        ),
        direct::run_on(c.ops, regs, Progress { pc: 0, stack: Seq::empty() }) matches Event::Done(
            v,
        ) && follow::go_round(e, inner, m, fuel) == Out::Returned(Val::I64(v), m.state),
{
    let p = Progress { pc: 0, stack: Seq::empty() };
    let v = direct::run_on(c.ops, regs, p)->Done_0;
    lemma_followed(e, memory, c, regs, p, m, v, fuel);
    lemma_straight(c);
    pieces::methods_laid_out_from_above_are_settled(c);
    assert(m.stack.len() == 0);
    pieces::code_follows_the_ops(e, c, m, fuel)
}

/// Nothing leads back in a method that is run directly.
proof fn lemma_straight(c: Ctx)
    requires
        direct::runs_directly(c.ops),
        c.exceptions.len() == 0,
    ensures
        follow::is_laid_out(c),
{
    assert forall|i: int, t: usize|
        0 <= i < c.ops.len() && t < c.ops.len() && #[trigger] follow::leads_to(
            c,
            i,
            t,
        ) implies i < t by {
        lemma_known_ops(c.ops, i);
    }
}

proof fn lemma_known_ops(ops: Seq<JitOp>, i: int)
    requires
        direct::runs_directly(ops),
        0 <= i < ops.len(),
    ensures
        i < ops.len() - 1 ==> direct::effect_of(ops[i]) is Some,
{
    if i < ops.len() - 1 {
        lemma_known_below(ops, i, ops.len() - 1);
    }
}

proof fn lemma_known_below(ops: Seq<JitOp>, i: int, n: int)
    requires
        0 <= i < n,
        direct::height(ops, n) is Some,
    ensures
        direct::effect_of(ops[i]) is Some,
    decreases n,
{
    if i < n - 1 {
        lemma_known_below(ops, i, n - 1);
    }
}

} // verus!
