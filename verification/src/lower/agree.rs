//! Compiled code of the int model does what its interpreter does.

use crate::lower::blocks;
use crate::lower::body;
use crate::lower::body::{Ctx, St};
use crate::lower::encode::{Body, Part};
use crate::lower::linear;
use crate::lower::machine;
use crate::lower::machine::{Machine, Node, Outcome, Val};
use crate::lower::manifest;
use crate::lower::module;
use crate::lower::module::GenMember;
use crate::lower::op;
use crate::lower::op::JitOp;
use crate::lower::wasm;
use crate::lower::wasm::{
    BlockTy, Instr, Target, BLOCK, REGS_LEN, REGS_PTR, SCRATCH, STATE_PTR, VALUE_INT_MARK,
};
use crate::reference;
use crate::reference::{Frame, Step};
use crate::typed;
use vstd::prelude::*;

verus! {

// Memory.

/// The words from `p` on are `regs`.
pub open spec fn holds(memory: Seq<u8>, p: int, regs: Seq<u64>) -> bool {
    &&& 0 <= p
    &&& p + 8 * regs.len() <= memory.len()
    &&& forall|i: int| 0 <= i < regs.len() ==> #[trigger] machine::load(memory, p + 8 * i) == regs[i]
}

pub proof fn lemma_store_holds(memory: Seq<u8>, p: int, regs: Seq<u64>, i: int, word: u64)
    requires
        holds(memory, p, regs),
        0 <= i < regs.len(),
    ensures
        holds(machine::store(memory, p + 8 * i, word), p, regs.update(i, word)),
        machine::store(memory, p + 8 * i, word).len() == memory.len(),
{
    vstd::bytes::lemma_auto_spec_u64_to_from_le_bytes();
    let at = p + 8 * i;
    let after = machine::store(memory, at, word);
    let new = regs.update(i, word);
    assert(vstd::bytes::spec_u64_to_le_bytes(word).len() == 8);
    assert forall|j: int| 0 <= j < new.len() implies #[trigger] machine::load(after, p + 8 * j)
        == new[j] by {
        let a = p + 8 * j;
        if j == i {
            assert(after.subrange(a, a + 8) =~= vstd::bytes::spec_u64_to_le_bytes(word));
        } else {
            assert(after.subrange(a, a + 8) =~= memory.subrange(a, a + 8));
            assert(machine::load(memory, p + 8 * j) == regs[j]);
        }
    }
}

// One op.

/// Operands as the machine holds them.
pub open spec fn as_vals(stack: Seq<i32>) -> Seq<Val> {
    stack.map_values(|v: i32| Val::I32(v))
}

/// The machine holds what the interpreter holds, with the frame at `ptr`.
pub open spec fn mirrors(m: Machine, f: Frame, ptr: i32) -> bool {
    &&& m.locals.len() == 19
    &&& m.locals[STATE_PTR as int] == Val::I32(ptr)
    &&& m.stack =~= as_vals(f.stack)
    &&& holds(m.memory, ptr as u32 as int, f.locals)
}

proof fn lemma_slot(m: Machine, f: Frame, ptr: i32, i: u32)
    requires
        mirrors(m, f, ptr),
        i < f.locals.len(),
    ensures
        machine::address(ptr, linear::slot_of(i), m.memory.len()) == Some(
            ptr as u32 as int + 8 * i,
        ),
        machine::load(m.memory, ptr as u32 as int + 8 * i) == f.locals[i as int],
{
    assert(linear::slot_of(i).offset == i * 8);
    assert(machine::load(m.memory, ptr as u32 as int + 8 * (i as int)) == f.locals[i as int]);
}

proof fn lemma_or_mark(v: i32)
    ensures
        (v as u32 as u64) | VALUE_INT_MARK == linear::int_word(v),
{
    let x = v as u32 as u64;
    assert(x | 0xFFFB_0000_0000_0000u64 == 0xFFFB_0000_0000_0000u64 | x) by (bit_vector);
}

/// The code of `op` takes a machine that mirrors `f` to one that mirrors `g`.
spec fn carries_over(code: Seq<Instr>, m: Machine, g: Frame, ptr: i32) -> bool {
    &&& machine::forward(code, 0, m) is Some
    &&& mirrors(machine::forward(code, 0, m)->0, g, ptr)
}

proof fn lemma_get_local(m: Machine, f: Frame, ptr: i32, i: u32, code: Seq<Instr>)
    requires
        mirrors(m, f, ptr),
        i < f.locals.len(),
        linear::int_op_code(JitOp::GetLocal(i)) == Some(code),
    ensures
        carries_over(
            code,
            m,
            Frame {
                pc: f.pc + 1,
                stack: f.stack.push(reference::int_of(f.locals[i as int])),
                ..f
            },
            ptr,
        ),
{
    lemma_slot(m, f, ptr, i);
    reveal_with_fuel(machine::forward, 4);
    let m1 = machine::run_instr(code[0], m)->Next_0;
    let m2 = machine::run_instr(code[1], m1)->Next_0;
    let m3 = machine::run_instr(code[2], m2)->Next_0;
    assert(m1.stack =~= m.stack.push(Val::I32(ptr)));
    assert(m2.stack =~= m.stack.push(Val::I64(f.locals[i as int])));
    assert(m3.stack =~= m.stack.push(Val::I32(reference::int_of(f.locals[i as int]))));
    assert(machine::forward(code, 0, m) == Some(m3));
}

proof fn lemma_set_local(m: Machine, f: Frame, ptr: i32, i: u32, code: Seq<Instr>)
    requires
        mirrors(m, f, ptr),
        i < f.locals.len(),
        f.stack.len() >= 1,
        linear::int_op_code(JitOp::SetLocal(i)) == Some(code),
    ensures
        carries_over(
            code,
            m,
            Frame {
                pc: f.pc + 1,
                locals: f.locals.update(i as int, linear::int_word(f.stack.last())),
                stack: f.stack.drop_last(),
            },
            ptr,
        ),
{
    lemma_slot(m, f, ptr, i);
    reveal_with_fuel(machine::forward, 8);
    let v = f.stack.last();
    let word = linear::int_word(v);
    let base = as_vals(f.stack.drop_last());
    let m1 = machine::run_instr(code[0], m)->Next_0;
    let m2 = machine::run_instr(code[1], m1)->Next_0;
    let m3 = machine::run_instr(code[2], m2)->Next_0;
    let m4 = machine::run_instr(code[3], m3)->Next_0;
    let m5 = machine::run_instr(code[4], m4)->Next_0;
    let m6 = machine::run_instr(code[5], m5)->Next_0;
    let m7 = machine::run_instr(code[6], m6)->Next_0;
    assert(m1.stack =~= base);
    assert(m1.locals[SCRATCH as int] == Val::I32(v));
    assert(m2.stack =~= base.push(Val::I32(ptr)));
    assert(m3.stack =~= base.push(Val::I32(ptr)).push(Val::I32(v)));
    assert(m4.stack =~= base.push(Val::I32(ptr)).push(Val::I64(v as u32 as u64)));
    assert(m5.stack =~= base.push(Val::I32(ptr)).push(Val::I64(v as u32 as u64)).push(
        Val::I64(VALUE_INT_MARK),
    ));
    lemma_or_mark(v);
    assert(m6.stack =~= base.push(Val::I32(ptr)).push(Val::I64(word)));
    assert(m7.stack =~= base);
    lemma_store_holds(m.memory, ptr as u32 as int, f.locals, i as int, word);
    assert(machine::forward(code, 0, m) == Some(m7));
}

proof fn lemma_step_local(m: Machine, f: Frame, ptr: i32, i: u32, up: bool, code: Seq<Instr>)
    requires
        mirrors(m, f, ptr),
        i < f.locals.len(),
        code == linear::step_local(i, up),
    ensures
        ({
            let v = reference::int_of(f.locals[i as int]);
            let stepped = if up {
                v.wrapping_add(1)
            } else {
                v.wrapping_sub(1)
            };
            carries_over(
                code,
                m,
                Frame {
                    pc: f.pc + 1,
                    locals: f.locals.update(i as int, linear::int_word(stepped)),
                    ..f
                },
                ptr,
            )
        }),
{
    lemma_slot(m, f, ptr, i);
    reveal(linear::step_local);
    reveal_with_fuel(machine::forward, 11);
    let v = reference::int_of(f.locals[i as int]);
    let stepped = if up {
        v.wrapping_add(1)
    } else {
        v.wrapping_sub(1)
    };
    let word = linear::int_word(stepped);
    let base = m.stack.push(Val::I32(ptr));
    let m1 = machine::run_instr(code[0], m)->Next_0;
    let m2 = machine::run_instr(code[1], m1)->Next_0;
    let m3 = machine::run_instr(code[2], m2)->Next_0;
    let m4 = machine::run_instr(code[3], m3)->Next_0;
    let m5 = machine::run_instr(code[4], m4)->Next_0;
    let m6 = machine::run_instr(code[5], m5)->Next_0;
    let m7 = machine::run_instr(code[6], m6)->Next_0;
    let m8 = machine::run_instr(code[7], m7)->Next_0;
    let m9 = machine::run_instr(code[8], m8)->Next_0;
    let m10 = machine::run_instr(code[9], m9)->Next_0;
    assert(m1.stack =~= base);
    assert(m2.stack =~= base.push(Val::I32(ptr)));
    assert(m3.stack =~= base.push(Val::I64(f.locals[i as int])));
    assert(m4.stack =~= base.push(Val::I32(v)));
    assert(m5.stack =~= base.push(Val::I32(v)).push(Val::I32(1)));
    assert(m6.stack =~= base.push(Val::I32(stepped)));
    assert(m7.stack =~= base.push(Val::I64(stepped as u32 as u64)));
    assert(m8.stack =~= base.push(Val::I64(stepped as u32 as u64)).push(Val::I64(VALUE_INT_MARK)));
    lemma_or_mark(stepped);
    assert(m9.stack =~= base.push(Val::I64(word)));
    assert(m10.stack =~= m.stack);
    lemma_store_holds(m.memory, ptr as u32 as int, f.locals, i as int, word);
    assert(machine::forward(code, 0, m) == Some(m10));
}

/// The code of a binary op is one instruction.
proof fn lemma_binary(m: Machine, f: Frame, o: JitOp, code: Seq<Instr>)
    requires
        m.stack =~= as_vals(f.stack),
        f.stack.len() >= 2,
        linear::int_op_code(o) == Some(code),
        reference::binary(o, f.stack[f.stack.len() - 2], f.stack[f.stack.len() - 1]) is Some,
    ensures
        code.len() == 1,
        machine::run_instr(code[0], m) == Outcome::Next(
            m.put(
                2,
                Val::I32(
                    reference::binary(
                        o,
                        f.stack[f.stack.len() - 2],
                        f.stack[f.stack.len() - 1],
                    )->0,
                ),
            ),
        ),
{
    let n = f.stack.len() as int;
    assert(m.top(2) == Val::I32(f.stack[n - 2]));
    assert(m.top(1) == Val::I32(f.stack[n - 1]));
    match o {
        JitOp::AddI => {},
        JitOp::SubtractI => {},
        JitOp::MultiplyI => {},
        _ => {},
    }
}

/// The code of an op that does not branch does what the interpreter does.
#[verifier::rlimit(30)]
proof fn lemma_op_agrees(ops: Seq<JitOp>, m: Machine, f: Frame, ptr: i32, code: Seq<Instr>, g: Frame)
    requires
        mirrors(m, f, ptr),
        0 <= f.pc < ops.len(),
        linear::int_op_code(ops[f.pc]) == Some(code),
        reference::step(ops, f) == Step::Next(g),
    ensures
        carries_over(code, m, g, ptr),
        g.pc == f.pc + 1,
        g.stack.len() == f.stack.len() - typed::arity(ops[f.pc]).0 + typed::arity(ops[f.pc]).1,
{
    let n = f.stack.len() as int;
    let o = ops[f.pc];
    match o {
        JitOp::GetLocal(i) => lemma_get_local(m, f, ptr, i, code),
        JitOp::SetLocal(i) => lemma_set_local(m, f, ptr, i, code),
        JitOp::IncLocalI(i) => lemma_step_local(m, f, ptr, i, true, code),
        JitOp::DecLocalI(i) => lemma_step_local(m, f, ptr, i, false, code),
        _ => {
            reveal_with_fuel(machine::forward, 3);
            if n >= 2 && reference::binary(o, f.stack[n - 2], f.stack[n - 1]) is Some {
                lemma_binary(m, f, o, code);
                let m1 = machine::run_instr(code[0], m)->Next_0;
                assert(m1.stack =~= as_vals(g.stack));
                assert(machine::forward(code, 0, m) == Some(m1));
            } else if code.len() == 1 {
                let m1 = machine::run_instr(code[0], m)->Next_0;
                assert(m1.stack =~= as_vals(g.stack));
                assert(machine::forward(code, 0, m) == Some(m1));
            } else if code.len() == 2 {
                let m1 = machine::run_instr(code[0], m)->Next_0;
                let m2 = machine::run_instr(code[1], m1)->Next_0;
                assert(m2.stack =~= as_vals(g.stack));
                assert(machine::forward(code, 0, m) == Some(m2));
            }
        },
    }
}

// The structure of a method's code.

/// The op is one that the interpreter knows.
pub open spec fn is_int_op(o: JitOp) -> bool {
    linear::int_op_code(o) is Some || o is Jump || o is IfLt || o is IfGe || o is IfTrue
        || o is IfFalse || o is ReturnValue
}

/// A method of the int model, without switches and handlers.
pub open spec fn is_int_method(c: Ctx) -> bool {
    &&& c.switches.len() == 0
    &&& c.exceptions.len() == 0
    &&& 0 < c.ops.len() < 0x4000_0000
    &&& blocks::targets_ok(c.ops, c.switches, c.exceptions)
    &&& body::int_model(c.ops)
    &&& forall|i: int| 0 <= i < c.ops.len() ==> is_int_op(#[trigger] c.ops[i])
}

spec fn target_of(c: Ctx, t: usize) -> int {
    blocks::block_of(c.leaders(), t)->0
}

spec fn set_block(b: int) -> Seq<Instr> {
    seq![Instr::I32Const(b as i32), Instr::LocalSet(BLOCK)]
}

spec fn branch_nodes(c: Ctx, b: int, o: JitOp, t: usize) -> Seq<Node> {
    machine::plains(body::int_test(o).1) + seq![
        Node::If(machine::plains(set_block(target_of(c, t))), machine::plains(set_block(b + 1))),
    ] + machine::plains(seq![Instr::Br(c.loop_depth(b))])
}

/// The code of op `i`, in block `b`.
spec fn op_nodes(c: Ctx, b: int, i: int) -> Seq<Node> {
    let o = c.ops[i];
    match o {
        JitOp::ReturnValue => machine::plains(linear::box_int() + seq![Instr::Return]),
        JitOp::Jump(t) => machine::plains(body::goto(target_of(c, t), c.loop_depth(b))),
        JitOp::IfLt(t) => branch_nodes(c, b, o, t),
        JitOp::IfGe(t) => branch_nodes(c, b, o, t),
        JitOp::IfFalse(t) => branch_nodes(c, b, o, t),
        JitOp::IfTrue(t) => branch_nodes(c, b, o, t),
        _ => machine::plains(linear::int_op_code(o)->0),
    }
}

/// No operands are carried between blocks.
spec fn bare(entry: Seq<Option<usize>>) -> bool {
    forall|b: int| 0 <= b < entry.len() ==> (#[trigger] entry[b] matches Some(d) ==> d == 0)
}

proof fn lemma_flat_branch(test: Seq<Instr>, taken: int, other: int, label: u32)
    ensures
        machine::flat(
            machine::plains(test) + seq![Node::If(machine::plains(set_block(taken)), machine::plains(set_block(other)))]
                + machine::plains(seq![Instr::Br(label)]),
        ) == test + body::choose_block(taken, other) + seq![Instr::Br(label)],
{
    let pick = Node::If(machine::plains(set_block(taken)), machine::plains(set_block(other)));
    machine::lemma_flat_concat(machine::plains(test) + seq![pick], machine::plains(seq![Instr::Br(label)]));
    machine::lemma_flat_concat(machine::plains(test), seq![pick]);
    machine::lemma_flat_plains(test);
    machine::lemma_flat_plains(seq![Instr::Br(label)]);
    machine::lemma_flat_plains(set_block(taken));
    machine::lemma_flat_plains(set_block(other));
    machine::lemma_flat_one(pick);
    lemma_flat_if(machine::plains(set_block(taken)), machine::plains(set_block(other)));
    assert(machine::flat_node(pick) =~= body::choose_block(taken, other));
}

proof fn lemma_flat_if(yes: Seq<Node>, no: Seq<Node>)
    ensures
        machine::flat_node(Node::If(yes, no)) == seq![Instr::If(BlockTy::Empty)] + machine::flat(yes)
            + seq![Instr::Else] + machine::flat(no) + seq![Instr::End],
{
    reveal_with_fuel(machine::flat_node, 2);
}

proof fn lemma_op_code(c: Ctx, b: int, i: int, st: St)
    requires
        is_int_method(c),
        0 <= i < c.ops.len(),
        0 <= b < c.block_count(),
        bare(st.entry),
        st.entry.len() == c.block_count(),
        body::lower_op(c, b, i, st) is Some,
    ensures
        ({
            let s = body::lower_op(c, b, i, st)->0;
            &&& s.code == st.code + machine::flat(op_nodes(c, b, i))
            &&& bare(s.entry)
            &&& s.entry.len() == st.entry.len()
            &&& body::after_op(c, b, i, s) == Some(s)
        }),
{
    let o = c.ops[i];
    assert(is_int_op(o));
    let s = body::lower_op(c, b, i, st)->0;
    match o {
        JitOp::ReturnValue => {
            machine::lemma_flat_plains(linear::box_int() + seq![Instr::Return]);
        },
        JitOp::Jump(t) => {
            let tb = target_of(c, t);
            body::lemma_record_shape(c, st, t, st.depth);
            assert(body::spill(0) =~= Seq::empty());
            assert(body::spill(0) + body::goto(tb, c.loop_depth(b)) =~= body::goto(
                tb,
                c.loop_depth(b),
            ));
            machine::lemma_flat_plains(body::goto(tb, c.loop_depth(b)));
        },
        JitOp::IfLt(t) | JitOp::IfGe(t) | JitOp::IfFalse(t) | JitOp::IfTrue(t) => {
            lemma_flat_branch(
                body::int_test(o).1,
                target_of(c, t),
                b + 1,
                c.loop_depth(b),
            );
        },
        _ => {
            machine::lemma_flat_plains(linear::int_op_code(o)->0);
        },
    }
    assert(!manifest::can_throw(o));
}

spec fn ops_nodes(c: Ctx, b: int, from: int, to: int) -> Seq<Node>
    decreases to - from,
{
    if to <= from {
        Seq::empty()
    } else {
        ops_nodes(c, b, from, to - 1) + op_nodes(c, b, to - 1)
    }
}

/// The ops from `from` to `to` of block `b` have been lowered; before op `i` lowering had come
/// to a certain state.
proof fn lemma_steps_code(c: Ctx, b: int, from: int, to: int, st: St)
    requires
        is_int_method(c),
        0 <= from <= to <= c.ops.len(),
        0 <= b < c.block_count(),
        bare(st.entry),
        st.entry.len() == c.block_count(),
        body::steps(c, b, from, to, st) is Some,
    ensures
        ({
            let s = body::steps(c, b, from, to, st)->0;
            &&& s.code == st.code + machine::flat(ops_nodes(c, b, from, to))
            &&& bare(s.entry)
            &&& s.entry.len() == st.entry.len()
        }),
    decreases to - from,
{
    if from < to {
        lemma_steps_code(c, b, from, to - 1, st);
        let before = body::steps(c, b, from, to - 1, st)->0;
        lemma_op_code(c, b, to - 1, before);
        machine::lemma_flat_concat(ops_nodes(c, b, from, to - 1), op_nodes(c, b, to - 1));
        assert(body::steps(c, b, from, to, st)->0.code =~= st.code + machine::flat(
            ops_nodes(c, b, from, to),
        ));
    } else {
        assert(st.code + machine::flat(Seq::empty()) =~= st.code);
    }
}

spec fn close_nodes(c: Ctx, b: int) -> Seq<Node> {
    let end = c.end(b);
    if end != c.ops.len() && op::ends_block(c.ops[end - 1]) {
        Seq::empty()
    } else if b + 1 < c.block_count() {
        machine::plains(body::goto(b + 1, c.loop_depth(b)))
    } else {
        Seq::empty()
    }
}

spec fn block_nodes(c: Ctx, b: int) -> Seq<Node> {
    ops_nodes(c, b, c.leaders()[b] as int, c.end(b)) + close_nodes(c, b)
}

/// Where a block starts and ends.
proof fn lemma_block_range(c: Ctx, b: int)
    requires
        is_int_method(c),
        0 <= b < c.block_count(),
    ensures
        0 <= c.leaders()[b] < c.end(b) <= c.ops.len(),
        b + 1 < c.block_count() ==> c.end(b) == c.leaders()[b + 1] && c.end(b) < c.ops.len(),
        b + 1 == c.block_count() ==> c.end(b) == c.ops.len(),
{
    blocks::leaders_are_the_block_starts(c.ops, c.switches, c.exceptions);
    let l = c.leaders();
    if b + 1 < l.len() {
        assert(l[b] < l[b + 1]);
    }
}

proof fn lemma_block_code(c: Ctx, b: int, st: St)
    requires
        is_int_method(c),
        0 <= b < c.block_count(),
        bare(st.entry),
        st.entry.len() == c.block_count(),
        body::lower_block(c, b, st) is Some,
    ensures
        ({
            let s = body::lower_block(c, b, st)->0;
            &&& s.code == st.code + seq![Instr::End] + machine::flat(block_nodes(c, b))
            &&& bare(s.entry)
            &&& s.entry.len() == st.entry.len()
            &&& body::open_block(c, b, st) is Some
            &&& (body::open_block(c, b, st)->0).depth == 0
            &&& (body::open_block(c, b, st)->0).entry == st.entry
        }),
{
    lemma_block_range(c, b);
    let from = c.leaders()[b] as int;
    let end = c.end(b);
    let opened = body::open_block(c, b, st)->0;
    assert(body::reload(0) =~= Seq::empty());
    assert(!blocks::is_catch(c.exceptions, c.leaders()[b]));
    assert(st.entry[b] matches Some(d) ==> d == 0);
    assert(opened.code =~= st.code + seq![Instr::End]);
    lemma_steps_code(c, b, from, end, opened);
    let stepped = body::steps(c, b, from, end, opened)->0;
    let closed = body::close_block(c, b, stepped)->0;
    machine::lemma_flat_concat(ops_nodes(c, b, from, end), close_nodes(c, b));
    if close_nodes(c, b).len() > 0 {
        machine::lemma_flat_plains(body::goto(b + 1, c.loop_depth(b)));
        assert(body::spill(0) =~= Seq::empty());
    }
    assert(machine::flat(Seq::empty()) =~= Seq::<Instr>::empty());
    assert(closed.code =~= stepped.code + machine::flat(close_nodes(c, b)));
    assert(closed.code =~= st.code + seq![Instr::End] + machine::flat(block_nodes(c, b)));
}

/// The dispatch over the blocks below `k`, with their code.
spec fn tree(c: Ctx, k: nat) -> Seq<Node>
    decreases k,
{
    if k == 0 {
        machine::plains(seq![Instr::LocalGet(BLOCK), Instr::BrTable(c.block_count() as u32, 0)])
    } else {
        seq![Node::Block(tree(c, (k - 1) as nat))] + block_nodes(c, k - 1)
    }
}

/// What follows the dispatch: for each block below `k`, an end and its code.
spec fn tail(c: Ctx, k: nat) -> Seq<Instr>
    decreases k,
{
    if k == 0 {
        Seq::empty()
    } else {
        tail(c, (k - 1) as nat) + seq![Instr::End] + machine::flat(block_nodes(c, k - 1))
    }
}

proof fn lemma_flat_block(inner: Seq<Node>)
    ensures
        machine::flat_node(Node::Block(inner)) == seq![Instr::Block(BlockTy::Empty)]
            + machine::flat(inner) + seq![Instr::End],
        machine::flat_node(Node::Loop(inner)) == seq![Instr::Loop(BlockTy::Empty)] + machine::flat(
            inner,
        ) + seq![Instr::End],
{
    reveal_with_fuel(machine::flat_node, 2);
}

proof fn lemma_tree_flat(c: Ctx, k: nat)
    ensures
        machine::flat(tree(c, k)) == wasm::repeated(k, Instr::Block(BlockTy::Empty)) + seq![
            Instr::LocalGet(BLOCK),
            Instr::BrTable(c.block_count() as u32, 0),
        ] + tail(c, k),
    decreases k,
{
    let head = seq![Instr::LocalGet(BLOCK), Instr::BrTable(c.block_count() as u32, 0)];
    if k == 0 {
        machine::lemma_flat_plains(head);
        assert(wasm::repeated(0, Instr::Block(BlockTy::Empty)) + head + tail(c, 0) =~= head);
    } else {
        let inner = tree(c, (k - 1) as nat);
        lemma_tree_flat(c, (k - 1) as nat);
        machine::lemma_flat_concat(seq![Node::Block(inner)], block_nodes(c, k - 1));
        machine::lemma_flat_one(Node::Block(inner));
        lemma_flat_block(inner);
        assert(machine::flat(tree(c, k)) =~= wasm::repeated(k, Instr::Block(BlockTy::Empty)) + head
            + tail(c, k));
    }
}

proof fn lemma_blocks_code(c: Ctx, k: nat)
    requires
        is_int_method(c),
        k <= c.block_count(),
        body::lower_blocks(c, k, body::start(c)) is Some,
    ensures
        ({
            let s = body::lower_blocks(c, k, body::start(c))->0;
            &&& s.code == body::start(c).code + tail(c, k)
            &&& bare(s.entry)
            &&& s.entry.len() == c.block_count()
        }),
    decreases k,
{
    if k == 0 {
        assert(body::start(c).code + tail(c, 0) =~= body::start(c).code);
    } else {
        lemma_blocks_code(c, (k - 1) as nat);
        let before = body::lower_blocks(c, (k - 1) as nat, body::start(c))->0;
        lemma_block_code(c, k - 1, before);
        assert(body::lower_blocks(c, k, body::start(c))->0.code =~= body::start(c).code + tail(c, k));
    }
}

/// The structure of a method's whole code.
pub closed spec fn method_nodes(c: Ctx) -> Seq<Node> {
    machine::plains(body::prologue(c.target)) + seq![
        Node::Loop(tree(c, c.block_count())),
        Node::Plain(Instr::Unreachable),
    ]
}

/// The structure is that of the code that lowering emits, which ends the function behind it.
proof fn lemma_method_code(c: Ctx)
    requires
        is_int_method(c),
        body::body_code(c) is Some,
    ensures
        body::body_code(c) == Some(machine::flat(method_nodes(c)) + seq![Instr::End]),
{
    let n = c.block_count();
    let whole = tree(c, n);
    lemma_blocks_code(c, n);
    lemma_tree_flat(c, n);
    machine::lemma_flat_concat(seq![Node::Loop(whole)], seq![Node::Plain(Instr::Unreachable)]);
    machine::lemma_flat_one(Node::Loop(whole));
    machine::lemma_flat_one(Node::Plain(Instr::Unreachable));
    lemma_flat_block(whole);
    machine::lemma_flat_plain(Instr::Unreachable);
    let rest = seq![Node::Loop(whole), Node::Plain(Instr::Unreachable)];
    assert(rest =~= seq![Node::Loop(whole)] + seq![Node::Plain(Instr::Unreachable)]);
    machine::lemma_flat_concat(machine::plains(body::prologue(c.target)), rest);
    machine::lemma_flat_plains(body::prologue(c.target));
    let s = body::lower_blocks(c, n, body::start(c))->0;
    assert(s.code + seq![Instr::End, Instr::Unreachable, Instr::End] =~= machine::flat(
        method_nodes(c),
    ) + seq![Instr::End]);
}

// The run.

proof fn lemma_ops_nodes_front(c: Ctx, b: int, i: int, to: int)
    requires
        i < to,
    ensures
        ops_nodes(c, b, i, to) == op_nodes(c, b, i) + ops_nodes(c, b, i + 1, to),
    decreases to - i,
{
    if i + 1 < to {
        lemma_ops_nodes_front(c, b, i, to - 1);
        assert(op_nodes(c, b, i) + ops_nodes(c, b, i + 1, to - 1) + op_nodes(c, b, to - 1)
            =~= op_nodes(c, b, i) + (ops_nodes(c, b, i + 1, to - 1) + op_nodes(c, b, to - 1)));
    } else {
        assert(ops_nodes(c, b, i, to - 1) =~= Seq::empty());
        assert(Seq::<Node>::empty() + op_nodes(c, b, i) =~= op_nodes(c, b, i) + Seq::<
            Node,
        >::empty());
    }
}

/// Lowering that comes to the end of a block has come by each of its ops.
proof fn lemma_steps_prefix(c: Ctx, b: int, from: int, i: int, to: int, st: St)
    requires
        from <= i <= to,
        body::steps(c, b, from, to, st) is Some,
    ensures
        body::steps(c, b, from, i, st) is Some,
    decreases to - i,
{
    if i < to {
        lemma_steps_prefix(c, b, from, i, to - 1, st);
    }
}

/// The code of block `b` from op `i` on.
spec fn rest_nodes(c: Ctx, b: int, i: int) -> Seq<Node> {
    ops_nodes(c, b, i, c.end(b)) + close_nodes(c, b)
}

/// Sets the number of the next block and branches.
proof fn lemma_run_goto(b: int, label: u32, m: Machine, fuel: nat)
    requires
        m.locals.len() == 19,
        0 <= b < 0x4000_0000,
    ensures
        machine::run(machine::plains(body::goto(b, label)), m, fuel) == Outcome::Branch(
            label as nat,
            Machine { locals: m.locals.update(BLOCK as int, Val::I32(b as i32)), ..m },
        ),
{
    let set = set_block(b);
    let m2 = Machine { locals: m.locals.update(BLOCK as int, Val::I32(b as i32)), ..m };
    lemma_run_set(b, m, fuel);
    assert(machine::plains(body::goto(b, label)) =~= machine::plains(set) + seq![Node::Plain(Instr::Br(label))]);
    machine::lemma_run_concat(machine::plains(set), seq![Node::Plain(Instr::Br(label))], m, fuel);
    machine::lemma_run_one(Node::Plain(Instr::Br(label)), m2, fuel);
    machine::lemma_run_plain(Instr::Br(label), m2, fuel);
}

proof fn lemma_run_set(b: int, m: Machine, fuel: nat)
    requires
        m.locals.len() == 19,
    ensures
        machine::run(machine::plains(set_block(b)), m, fuel) == Outcome::Next(
            Machine { locals: m.locals.update(BLOCK as int, Val::I32(b as i32)), ..m },
        ),
{
    let set = set_block(b);
    let m2 = Machine { locals: m.locals.update(BLOCK as int, Val::I32(b as i32)), ..m };
    reveal_with_fuel(machine::forward, 3);
    let mid = machine::run_instr(set[0], m)->Next_0;
    assert(mid.stack =~= m.stack.push(Val::I32(b as i32)));
    let last = machine::run_instr(set[1], mid)->Next_0;
    assert(last =~= m2);
    assert(machine::forward(set, 0, m) == Some(last));
    machine::lemma_forward(set, m, fuel);
}

proof fn lemma_run_if(yes: Seq<Node>, no: Seq<Node>, m: Machine, cond: i32, fuel: nat)
    requires
        m.stack.len() >= 1,
        m.top(1) == Val::I32(cond),
    ensures
        machine::run_node(Node::If(yes, no), m, fuel) == if cond != 0 {
            machine::leave(machine::run(yes, m.shed(1), fuel), m.shed(1))
        } else {
            machine::leave(machine::run(no, m.shed(1), fuel), m.shed(1))
        },
{
    reveal_with_fuel(machine::run_node, 2);
}

/// The test of an int branch leaves whether it is taken.
proof fn lemma_run_test(o: JitOp, m: Machine, f: Frame, taken: bool, t: usize, fuel: nat)
    requires
        m.stack =~= as_vals(f.stack),
        ({
            let n = f.stack.len();
            ||| n == 1 && reference::takes_one(o, f.stack[0]) == Some((taken, t))
            ||| n == 2 && reference::takes_two(o, f.stack[0], f.stack[1]) == Some((taken, t))
        }),
    ensures
        machine::run(machine::plains(body::int_test(o).1), m, fuel) is Next,
        ({
            let m2 = machine::run(machine::plains(body::int_test(o).1), m, fuel)->Next_0;
            &&& m2.locals == m.locals
            &&& m2.memory == m.memory
            &&& m2.outer == m.outer
            &&& m2.stack.len() == 1
            &&& m2.stack[0] matches Val::I32(cond) && (cond != 0 <==> taken)
        }),
{
    let code = body::int_test(o).1;
    reveal_with_fuel(machine::forward, 2);
    if code.len() == 1 {
        let m1 = machine::run_instr(code[0], m)->Next_0;
        assert(machine::forward(code, 0, m) == Some(m1));
    }
    machine::lemma_forward(code, m, fuel);
}

proof fn lemma_run_branch(
    c: Ctx,
    b: int,
    o: JitOp,
    m: Machine,
    f: Frame,
    taken: bool,
    t: usize,
    fuel: nat,
)
    requires
        m.locals.len() == 19,
        m.stack =~= as_vals(f.stack),
        ({
            let n = f.stack.len();
            ||| n == 1 && reference::takes_one(o, f.stack[0]) == Some((taken, t))
            ||| n == 2 && reference::takes_two(o, f.stack[0], f.stack[1]) == Some((taken, t))
        }),
    ensures
        ({
            let next = if taken {
                target_of(c, t)
            } else {
                b + 1
            };
            machine::run(branch_nodes(c, b, o, t), m, fuel) == Outcome::Branch(
                c.loop_depth(b) as nat,
                Machine {
                    locals: m.locals.update(BLOCK as int, Val::I32(next as i32)),
                    stack: Seq::empty(),
                    ..m
                },
            )
        }),
{
    let tb = target_of(c, t);
    let test = machine::plains(body::int_test(o).1);
    let pick = Node::If(machine::plains(set_block(tb)), machine::plains(set_block(b + 1)));
    let br = Instr::Br(c.loop_depth(b));
    machine::lemma_run_concat(test + seq![pick], machine::plains(seq![br]), m, fuel);
    machine::lemma_run_concat(test, seq![pick], m, fuel);
    lemma_run_test(o, m, f, taken, t, fuel);
    let m1 = machine::run(test, m, fuel)->Next_0;
    machine::lemma_run_one(pick, m1, fuel);
    let cond = m1.stack[0]->I32_0;
    lemma_run_if(machine::plains(set_block(tb)), machine::plains(set_block(b + 1)), m1, cond, fuel);
    let m2 = m1.shed(1);
    assert(m2.stack =~= Seq::empty());
    lemma_run_set(tb, m2, fuel);
    lemma_run_set(b + 1, m2, fuel);
    let next = if taken {
        tb
    } else {
        b + 1
    };
    let m3 = Machine {
        locals: m.locals.update(BLOCK as int, Val::I32(next as i32)),
        stack: Seq::empty(),
        ..m
    };
    assert(machine::run_node(pick, m1, fuel) == Outcome::Next(m3));
    assert(machine::plains(seq![br]) =~= seq![Node::Plain(br)]);
    machine::lemma_run_one(Node::Plain(br), m3, fuel);
    machine::lemma_run_plain(br, m3, fuel);
}

/// A method that returns holds a return.
proof fn lemma_returns_somewhere(ops: Seq<JitOp>, f: Frame, fuel: nat)
    requires
        reference::result(ops, f, fuel) is Some,
    ensures
        body::int_model(ops),
    decreases fuel,
{
    match reference::step(ops, f) {
        Step::Next(g) => lemma_returns_somewhere(ops, g, (fuel - 1) as nat),
        _ => {
            assert(body::is_int_model(ops[f.pc]));
        },
    }
}

/// An op that ends its block is its last.
proof fn lemma_ender_is_last(c: Ctx, b: int, i: int)
    requires
        is_int_method(c),
        0 <= b < c.block_count(),
        c.leaders()[b] <= i < c.end(b),
        op::ends_block(c.ops[i]),
    ensures
        c.end(b) == i + 1,
{
    lemma_block_range(c, b);
    if i + 1 < c.ops.len() {
        blocks::leaders_are_the_block_starts(c.ops, c.switches, c.exceptions);
        let l = c.leaders();
        let next = (i + 1) as usize;
        assert(blocks::is_leader(c.ops, c.switches, c.exceptions, next));
        assert(l.contains(next));
        let q = choose|q: int| 0 <= q < l.len() && l[q] == next;
        if q <= b {
            assert(q == b || l[q] < l[b]);
        }
        assert(b + 1 <= q);
        assert(b + 1 == q || l[b + 1] < l[q]);
    }
}

/// A branch target starts a block.
proof fn lemma_target_block(c: Ctx, i: int, t: usize)
    requires
        is_int_method(c),
        0 <= i < c.ops.len(),
        op::branch_target(c.ops[i]) == Some(t),
    ensures
        0 <= target_of(c, t) < c.block_count(),
        c.leaders()[target_of(c, t)] == t,
        blocks::block_of(c.leaders(), t) is Some,
{
    blocks::leaders_are_the_block_starts(c.ops, c.switches, c.exceptions);
    assert(blocks::target_ok(c.ops[i], c.switches, c.ops.len()));
    assert(blocks::jumps_to(c.ops, c.switches, i, t));
    assert(blocks::is_leader(c.ops, c.switches, c.exceptions, t));
    assert(c.leaders().contains(t));
    let k = choose|k: int| 0 <= k < c.leaders().len() && c.leaders()[k] == t;
    assert(c.leaders()[c.leaders().index_of(t)] == t);
}

/// Where a run of a block has come to: the next block, with the interpreter at its start.
struct Onward {
    block: int,
    frame: Frame,
    machine: Machine,
    fuel: nat,
}

/// The block of `to` is entered next, and from there the interpreter returns `v`.
spec fn goes_on(c: Ctx, to: Onward, ptr: i32, v: u64) -> bool {
    &&& 0 <= to.block < c.block_count()
    &&& to.frame.pc == c.leaders()[to.block]
    &&& to.frame.stack.len() == 0
    &&& mirrors(to.machine, to.frame, ptr)
    &&& to.machine.locals[BLOCK as int] == Val::I32(to.block as i32)
    &&& reference::result(c.ops, to.frame, to.fuel) == Some(v)
}

/// A run of code comes to what `r` says: it returns `v`, or goes on to another block.
spec fn comes_to(
    c: Ctx,
    b: int,
    o: Outcome,
    r: Option<Onward>,
    ptr: i32,
    v: u64,
    left: nat,
) -> bool {
    match r {
        None => o == Outcome::Returned(v),
        Some(to) => {
            &&& o == Outcome::Branch(c.loop_depth(b) as nat, to.machine)
            &&& goes_on(c, to, ptr, v)
            &&& to.fuel <= left
        },
    }
}

/// Lowering of block `b` has come to op `i` with as many operands as the interpreter, and on
/// to the end.
spec fn lowered_to(c: Ctx, b: int, i: int, opened: St, f: Frame) -> bool {
    let from = c.leaders()[b] as int;
    &&& is_int_method(c)
    &&& 0 <= b < c.block_count()
    &&& from <= i <= c.end(b)
    &&& bare(opened.entry)
    &&& opened.entry.len() == c.block_count()
    &&& body::steps(c, b, from, c.end(b), opened) is Some
    &&& body::close_block(c, b, body::steps(c, b, from, c.end(b), opened)->0) is Some
    &&& body::steps(c, b, from, i, opened) is Some
    &&& (body::steps(c, b, from, i, opened)->0).depth == f.stack.len()
    &&& f.pc == i
}

proof fn lemma_few_blocks(c: Ctx)
    requires
        is_int_method(c),
    ensures
        0 < c.block_count() < 0x4000_0000,
{
    blocks::leaders_are_the_block_starts(c.ops, c.switches, c.exceptions);
}

/// At the end of a block that runs on into the next.
proof fn lemma_close_agrees(
    c: Ctx,
    b: int,
    opened: St,
    f: Frame,
    m: Machine,
    ptr: i32,
    left: nat,
    v: u64,
    fuel: nat,
) -> (r: Option<Onward>)
    requires
        lowered_to(c, b, c.end(b), opened, f),
        !op::ends_block(c.ops[c.end(b) - 1]),
        mirrors(m, f, ptr),
        reference::result(c.ops, f, left) == Some(v),
    ensures
        comes_to(c, b, machine::run(rest_nodes(c, b, c.end(b)), m, fuel), r, ptr, v, left),
{
    lemma_block_range(c, b);
    lemma_few_blocks(c);
    let end = c.end(b);
    assert(ops_nodes(c, b, end, end) =~= Seq::empty());
    assert(rest_nodes(c, b, end) =~= close_nodes(c, b));
    assert(end < c.ops.len());
    lemma_run_goto(b + 1, c.loop_depth(b), m, fuel);
    let m2 = Machine {
        locals: m.locals.update(BLOCK as int, Val::I32((b + 1) as i32)),
        ..m
    };
    Some(Onward { block: b + 1, frame: f, machine: m2, fuel: left })
}

/// At an op, its code comes first.
proof fn lemma_rest_front(c: Ctx, b: int, i: int, opened: St, f: Frame, m: Machine, fuel: nat)
    requires
        lowered_to(c, b, i, opened, f),
        i < c.end(b),
    ensures
        machine::run(rest_nodes(c, b, i), m, fuel) == (match machine::run(
            op_nodes(c, b, i),
            m,
            fuel,
        ) {
            Outcome::Next(m2) => machine::run(rest_nodes(c, b, i + 1), m2, fuel),
            o => o,
        }),
        i < c.ops.len(),
        is_int_op(c.ops[i]),
        body::steps(c, b, c.leaders()[b] as int, i + 1, opened) is Some,
        ({
            let st = body::steps(c, b, c.leaders()[b] as int, i, opened)->0;
            &&& body::lower_op(c, b, i, st) is Some
            &&& body::steps(c, b, c.leaders()[b] as int, i + 1, opened) == body::lower_op(
                c,
                b,
                i,
                st,
            )
        }),
{
    lemma_block_range(c, b);
    let from = c.leaders()[b] as int;
    let end = c.end(b);
    let st = body::steps(c, b, from, i, opened)->0;
    lemma_steps_prefix(c, b, from, i + 1, end, opened);
    lemma_steps_code(c, b, from, i, opened);
    lemma_op_code(c, b, i, st);
    lemma_ops_nodes_front(c, b, i, end);
    let later = rest_nodes(c, b, i + 1);
    assert(rest_nodes(c, b, i) =~= op_nodes(c, b, i) + later);
    machine::lemma_run_concat(op_nodes(c, b, i), later, m, fuel);
}

proof fn lemma_jump_agrees(
    c: Ctx,
    b: int,
    i: int,
    t: usize,
    opened: St,
    f: Frame,
    m: Machine,
    ptr: i32,
    left: nat,
    v: u64,
    fuel: nat,
) -> (r: Option<Onward>)
    requires
        lowered_to(c, b, i, opened, f),
        i < c.end(b),
        c.ops[i] == JitOp::Jump(t),
        mirrors(m, f, ptr),
        reference::result(c.ops, f, left) == Some(v),
    ensures
        comes_to(
            c,
            b,
            machine::run(rest_nodes(c, b, i), m, fuel),
            r,
            ptr,
            v,
            (left - 1) as nat,
        ),
{
    lemma_rest_front(c, b, i, opened, f, m, fuel);
    lemma_few_blocks(c);
    lemma_target_block(c, i, t);
    let tb = target_of(c, t);
    lemma_run_goto(tb, c.loop_depth(b), m, fuel);
    let g = Frame { pc: t as int, ..f };
    assert(reference::step(c.ops, f) == Step::Next(g));
    let m2 = Machine { locals: m.locals.update(BLOCK as int, Val::I32(tb as i32)), ..m };
    Some(Onward { block: tb, frame: g, machine: m2, fuel: (left - 1) as nat })
}

proof fn lemma_branch_agrees(
    c: Ctx,
    b: int,
    i: int,
    t: usize,
    opened: St,
    f: Frame,
    m: Machine,
    ptr: i32,
    left: nat,
    v: u64,
    fuel: nat,
) -> (r: Option<Onward>)
    requires
        lowered_to(c, b, i, opened, f),
        i < c.end(b),
        c.ops[i] is IfLt || c.ops[i] is IfGe || c.ops[i] is IfTrue || c.ops[i] is IfFalse,
        op::branch_target(c.ops[i]) == Some(t),
        mirrors(m, f, ptr),
        reference::result(c.ops, f, left) == Some(v),
    ensures
        comes_to(
            c,
            b,
            machine::run(rest_nodes(c, b, i), m, fuel),
            r,
            ptr,
            v,
            (left - 1) as nat,
        ),
{
    lemma_rest_front(c, b, i, opened, f, m, fuel);
    lemma_few_blocks(c);
    lemma_block_range(c, b);
    lemma_target_block(c, i, t);
    lemma_ender_is_last(c, b, i);
    let o = c.ops[i];
    let taken = if f.stack.len() == 1 {
        (reference::takes_one(o, f.stack[0])->0).0
    } else {
        (reference::takes_two(o, f.stack[0], f.stack[1])->0).0
    };
    lemma_run_branch(c, b, o, m, f, taken, t, fuel);
    let next = if taken {
        target_of(c, t)
    } else {
        b + 1
    };
    let m2 = Machine {
        locals: m.locals.update(BLOCK as int, Val::I32(next as i32)),
        stack: Seq::empty(),
        ..m
    };
    let g = Frame {
        pc: if taken {
            t as int
        } else {
            i + 1
        },
        stack: Seq::empty(),
        ..f
    };
    assert(f.stack.drop_last().len() == 0 ==> f.stack.drop_last() =~= g.stack);
    assert(f.stack.len() == 2 ==> f.stack.take(0) =~= g.stack);
    assert(reference::step(c.ops, f) == Step::Next(g));
    reveal_with_fuel(reference::result, 2);
    assert(0 <= g.pc < c.ops.len());
    Some(Onward { block: next, frame: g, machine: m2, fuel: (left - 1) as nat })
}

/// The code of block `b` from op `i` on does what the interpreter does from there: it returns
/// what the interpreter returns, or enters the block that the interpreter comes to.
proof fn lemma_rest_agrees(
    c: Ctx,
    b: int,
    i: int,
    opened: St,
    f: Frame,
    m: Machine,
    ptr: i32,
    left: nat,
    v: u64,
    fuel: nat,
) -> (r: Option<Onward>)
    requires
        lowered_to(c, b, i, opened, f),
        i == c.end(b) ==> !op::ends_block(c.ops[i - 1]),
        mirrors(m, f, ptr),
        reference::result(c.ops, f, left) == Some(v),
    ensures
        comes_to(
            c,
            b,
            machine::run(rest_nodes(c, b, i), m, fuel),
            r,
            ptr,
            v,
            if i < c.end(b) {
                (left - 1) as nat
            } else {
                left
            },
        ),
    decreases c.end(b) - i,
{
    if i == c.end(b) {
        lemma_close_agrees(c, b, opened, f, m, ptr, left, v, fuel)
    } else {
        let o = c.ops[i];
        lemma_rest_front(c, b, i, opened, f, m, fuel);
        match o {
            JitOp::ReturnValue => {
                lemma_run_return(m, f, fuel);
                None
            },
            JitOp::Jump(t) => lemma_jump_agrees(c, b, i, t, opened, f, m, ptr, left, v, fuel),
            JitOp::IfLt(t) => lemma_branch_agrees(c, b, i, t, opened, f, m, ptr, left, v, fuel),
            JitOp::IfGe(t) => lemma_branch_agrees(c, b, i, t, opened, f, m, ptr, left, v, fuel),
            JitOp::IfTrue(t) => lemma_branch_agrees(c, b, i, t, opened, f, m, ptr, left, v, fuel),
            JitOp::IfFalse(t) => lemma_branch_agrees(c, b, i, t, opened, f, m, ptr, left, v, fuel),
            _ => {
                let g = reference::step(c.ops, f)->Next_0;
                assert(reference::step(c.ops, f) is Next);
                let code = linear::int_op_code(o)->0;
                lemma_op_agrees(c.ops, m, f, ptr, code, g);
                machine::lemma_forward(code, m, fuel);
                let m2 = machine::forward(code, 0, m)->0;
                lemma_rest_agrees(c, b, i + 1, opened, g, m2, ptr, (left - 1) as nat, v, fuel)
            },
        }
    }
}

proof fn lemma_run_return(m: Machine, f: Frame, fuel: nat)
    requires
        m.stack =~= as_vals(f.stack),
        f.stack.len() >= 1,
    ensures
        machine::run(machine::plains(linear::box_int() + seq![Instr::Return]), m, fuel) == Outcome::Returned(
            linear::int_word(f.stack.last()),
        ),
{
    reveal(linear::box_int);
    let code = linear::box_int();
    let v = f.stack.last();
    let base = m.stack.drop_last();
    reveal_with_fuel(machine::forward, 4);
    let m1 = machine::run_instr(code[0], m)->Next_0;
    let m2 = machine::run_instr(code[1], m1)->Next_0;
    let m3 = machine::run_instr(code[2], m2)->Next_0;
    assert(m1.stack =~= base.push(Val::I64(v as u32 as u64)));
    assert(m2.stack =~= base.push(Val::I64(v as u32 as u64)).push(Val::I64(VALUE_INT_MARK)));
    lemma_or_mark(v);
    assert(m3.stack =~= base.push(Val::I64(linear::int_word(v))));
    assert(machine::forward(code, 0, m) == Some(m3));
    machine::lemma_forward(code, m, fuel);
    let ret = seq![Instr::Return];
    assert(machine::plains(code + ret) =~= machine::plains(code) + machine::plains(ret));
    assert(machine::plains(ret) =~= seq![Node::Plain(Instr::Return)]);
    machine::lemma_run_concat(machine::plains(code), machine::plains(ret), m, fuel);
    machine::lemma_run_one(Node::Plain(Instr::Return), m3, fuel);
    machine::lemma_run_plain(Instr::Return, m3, fuel);
}

proof fn lemma_run_block(inner: Seq<Node>, m: Machine, fuel: nat)
    ensures
        machine::run_node(Node::Block(inner), m, fuel) == machine::leave(
            machine::run(inner, m, fuel),
            m,
        ),
{
    reveal_with_fuel(machine::run_node, 2);
}

/// The dispatch brings the machine to the code of the block that it is to enter, and a branch
/// out of that code comes out of the dispatch.
proof fn lemma_dispatch(c: Ctx, k: nat, b: int, m: Machine, fuel: nat)
    requires
        0 <= b < c.block_count() < 0x4000_0000,
        k <= c.block_count(),
        m.locals.len() == 19,
        m.stack.len() == 0,
        m.locals[BLOCK as int] == Val::I32(b as i32),
    ensures
        b >= k ==> machine::run(tree(c, k), m, fuel) == Outcome::Branch((b - k) as nat, m),
        b < k ==> (match machine::run(block_nodes(c, b), m, fuel) {
            Outcome::Returned(v) => machine::run(tree(c, k), m, fuel) == Outcome::Returned(v),
            Outcome::Branch(l, m2) => l >= k - 1 - b ==> machine::run(tree(c, k), m, fuel)
                == Outcome::Branch((l - (k - 1 - b)) as nat, m2),
            _ => true,
        }),
    decreases k,
{
    if k == 0 {
        let head = seq![Instr::LocalGet(BLOCK), Instr::BrTable(c.block_count() as u32, 0)];
        let get = seq![Instr::LocalGet(BLOCK)];
        let table = Instr::BrTable(c.block_count() as u32, 0);
        reveal_with_fuel(machine::forward, 2);
        let m1 = machine::run_instr(get[0], m)->Next_0;
        assert(m1.stack =~= seq![Val::I32(b as i32)]);
        assert(machine::forward(get, 0, m) == Some(m1));
        machine::lemma_forward(get, m, fuel);
        assert(machine::plains(head) =~= machine::plains(get) + seq![Node::Plain(table)]);
        machine::lemma_run_concat(machine::plains(get), seq![Node::Plain(table)], m, fuel);
        machine::lemma_run_one(Node::Plain(table), m1, fuel);
        machine::lemma_run_plain(table, m1, fuel);
        assert(m1.shed(1) =~= m);
        assert((b as i32) as u32 == b);
    } else {
        let inner = tree(c, (k - 1) as nat);
        lemma_dispatch(c, (k - 1) as nat, b, m, fuel);
        machine::lemma_run_concat(seq![Node::Block(inner)], block_nodes(c, k - 1), m, fuel);
        machine::lemma_run_one(Node::Block(inner), m, fuel);
        lemma_run_block(inner, m, fuel);
        if b == k - 1 {
            assert(Machine { stack: m.stack, ..m } =~= m);
        }
    }
}

proof fn lemma_run_loop(inner: Seq<Node>, m: Machine, fuel: nat)
    requires
        fuel > 0,
    ensures
        machine::run_node(Node::Loop(inner), m, fuel) == (match machine::run(
            inner,
            m,
            (fuel - 1) as nat,
        ) {
            Outcome::Branch(l, m2) => if l == 0 {
                machine::run_node(
                    Node::Loop(inner),
                    Machine { stack: m.stack, ..m2 },
                    (fuel - 1) as nat,
                )
            } else {
                Outcome::Branch((l - 1) as nat, m2)
            },
            o => o,
        }),
{
    reveal_with_fuel(machine::run_node, 2);
}

/// From the start of a block, the dispatch loop returns what the interpreter returns.
proof fn lemma_loop_agrees(c: Ctx, to: Onward, ptr: i32, v: u64, fuel: nat)
    requires
        is_int_method(c),
        body::lower_blocks(c, c.block_count(), body::start(c)) is Some,
        goes_on(c, to, ptr, v),
        fuel >= to.fuel,
    ensures
        machine::run_node(Node::Loop(tree(c, c.block_count())), to.machine, fuel)
            == Outcome::Returned(v),
    decreases to.fuel,
{
    let n = c.block_count();
    let b = to.block;
    blocks::leaders_are_the_block_starts(c.ops, c.switches, c.exceptions);
    assert(to.fuel > 0);
    let less = (fuel - 1) as nat;
    let inner = tree(c, n);
    lemma_run_loop(inner, to.machine, fuel);
    lemma_dispatch(c, n, b, to.machine, less);
    lemma_block_was_lowered(c, b);
    let before = body::lower_blocks(c, b as nat, body::start(c))->0;
    lemma_blocks_code(c, b as nat);
    lemma_block_code(c, b, before);
    lemma_block_range(c, b);
    let opened = body::open_block(c, b, before)->0;
    let r = lemma_rest_agrees(
        c,
        b,
        c.leaders()[b] as int,
        opened,
        to.frame,
        to.machine,
        ptr,
        to.fuel,
        v,
        less,
    );
    assert(rest_nodes(c, b, c.leaders()[b] as int) == block_nodes(c, b));
    if let Some(next) = r {
        assert(next.machine.stack =~= to.machine.stack);
        assert(Machine { stack: to.machine.stack, ..next.machine } =~= next.machine);
        lemma_loop_agrees(c, next, ptr, v, less);
    }
}

proof fn lemma_block_was_lowered(c: Ctx, b: int)
    requires
        0 <= b < c.block_count(),
        body::lower_blocks(c, c.block_count(), body::start(c)) is Some,
    ensures
        body::lower_blocks(c, b as nat, body::start(c)) is Some,
        body::lower_block(c, b, body::lower_blocks(c, b as nat, body::start(c))->0) is Some,
{
    lemma_prefix_lowered(c, (b + 1) as nat, c.block_count());
}

proof fn lemma_prefix_lowered(c: Ctx, k: nat, n: nat)
    requires
        k <= n,
        body::lower_blocks(c, n, body::start(c)) is Some,
    ensures
        body::lower_blocks(c, k, body::start(c)) is Some,
    decreases n,
{
    if k < n {
        lemma_prefix_lowered(c, k, (n - 1) as nat);
    }
}

/// A compiled method at its entry: five parameters, then locals that are all zero.
pub open spec fn entered(params: Seq<Val>, memory: Seq<u8>, outer: Seq<u8>) -> Machine {
    Machine {
        locals: params + seq![
            Val::I32(0),
            Val::I32(0),
            Val::I32(0),
            Val::I64(0),
            Val::I64(0),
            Val::F64(0),
            Val::I64(0),
            Val::I64(0),
            Val::I64(0),
            Val::I64(0),
            Val::I64(0),
            Val::I64(0),
            Val::I64(0),
            Val::I64(0),
        ],
        stack: Seq::empty(),
        memory,
        outer,
    }
}

/// A compiled method is called on the locals `regs`. The first parameter is the address of its
/// frame. The frame holds the locals; on the web they are still in the second memory, at the
/// address and with the size that the last two parameters give, and the frame has room.
pub open spec fn called_on(
    target: Target,
    params: Seq<Val>,
    memory: Seq<u8>,
    outer: Seq<u8>,
    regs: Seq<u64>,
) -> bool {
    &&& params.len() == 5
    &&& params[STATE_PTR as int] matches Val::I32(ptr) && if target.web {
        &&& params[REGS_PTR as int] matches Val::I32(from) && holds(outer, from as u32 as int, regs)
        &&& params[REGS_LEN as int] matches Val::I32(size) && size as u32 == 8 * regs.len()
        &&& (ptr as u32) + 8 * regs.len() <= memory.len()
    } else {
        holds(memory, ptr as u32 as int, regs)
    }
}

/// The words of one memory copied into another.
proof fn lemma_copy_holds(memory: Seq<u8>, to: int, from: Seq<u8>, at: int, regs: Seq<u64>)
    requires
        holds(from, at, regs),
        0 <= to,
        to + 8 * regs.len() <= memory.len(),
    ensures
        holds(machine::copied(memory, to, from, at, 8 * regs.len() as int), to, regs),
{
    let after = machine::copied(memory, to, from, at, 8 * regs.len() as int);
    assert forall|i: int| 0 <= i < regs.len() implies #[trigger] machine::load(after, to + 8 * i)
        == regs[i] by {
        let a = to + 8 * i;
        let b = at + 8 * i;
        assert(after.subrange(a, a + 8) =~= from.subrange(b, b + 8));
        assert(machine::load(from, at + 8 * i) == regs[i]);
    }
}

/// Behind the prologue the frame holds the locals.
proof fn lemma_prologue(
    target: Target,
    params: Seq<Val>,
    memory: Seq<u8>,
    outer: Seq<u8>,
    regs: Seq<u64>,
    fuel: nat,
) -> (m2: Machine)
    requires
        called_on(target, params, memory, outer, regs),
    ensures
        machine::run(machine::plains(body::prologue(target)), entered(params, memory, outer), fuel)
            == Outcome::Next(m2),
        m2.locals == entered(params, memory, outer).locals,
        m2.stack.len() == 0,
        holds(m2.memory, params[STATE_PTR as int]->I32_0 as u32 as int, regs),
{
    let m = entered(params, memory, outer);
    let code = body::prologue(target);
    if target.web {
        let ptr = params[STATE_PTR as int]->I32_0;
        let from = params[REGS_PTR as int]->I32_0;
        let size = params[REGS_LEN as int]->I32_0;
        reveal_with_fuel(machine::forward, 5);
        let m1 = machine::run_instr(code[0], m)->Next_0;
        assert(m1.stack =~= seq![Val::I32(ptr)]);
        let m2 = machine::run_instr(code[1], m1)->Next_0;
        assert(m2.stack =~= seq![Val::I32(ptr), Val::I32(from)]);
        let m3 = machine::run_instr(code[2], m2)->Next_0;
        assert(m3.stack =~= seq![Val::I32(ptr), Val::I32(from), Val::I32(size)]);
        let m4 = machine::run_instr(code[3], m3)->Next_0;
        lemma_copy_holds(memory, ptr as u32 as int, outer, from as u32 as int, regs);
        assert(machine::forward(code, 0, m) == Some(m4));
        machine::lemma_forward(code, m, fuel);
        m4
    } else {
        assert(machine::plains(code) =~= Seq::empty());
        m
    }
}

/// Compiled code of the int model returns what the interpreter returns, for every method and
/// on all locals, on either kind of host.
pub proof fn compiled_code_agrees(
    c: Ctx,
    regs: Seq<u64>,
    fuel: nat,
    params: Seq<Val>,
    memory: Seq<u8>,
    outer: Seq<u8>,
)
    requires
        c.switches.len() == 0,
        c.exceptions.len() == 0,
        0 < c.ops.len() < 0x4000_0000,
        forall|i: int| 0 <= i < c.ops.len() ==> is_int_op(#[trigger] c.ops[i]),
        body::body_code(c) is Some,
        reference::result(c.ops, reference::start(regs), fuel) is Some,
        called_on(c.target, params, memory, outer, regs),
    ensures
        body::body_code(c) == Some(machine::flat(method_nodes(c)) + seq![Instr::End]),
        machine::run(method_nodes(c), entered(params, memory, outer), fuel) == Outcome::Returned(
            reference::result(c.ops, reference::start(regs), fuel)->0,
        ),
{
    let f = reference::start(regs);
    let v = reference::result(c.ops, f, fuel)->0;
    let ptr = params[STATE_PTR as int]->I32_0;
    lemma_returns_somewhere(c.ops, f, fuel);
    assert(is_int_method(c));
    lemma_method_code(c);
    blocks::leaders_are_the_block_starts(c.ops, c.switches, c.exceptions);
    let m0 = entered(params, memory, outer);
    let m = lemma_prologue(c.target, params, memory, outer, regs, fuel);
    assert(m.stack =~= as_vals(f.stack));
    let to = Onward { block: 0, frame: f, machine: m, fuel };
    lemma_loop_agrees(c, to, ptr, v, fuel);
    let whole = Node::Loop(tree(c, c.block_count()));
    let stop = Node::Plain(Instr::Unreachable);
    assert(seq![whole, stop] =~= seq![whole] + seq![stop]);
    machine::lemma_run_concat(machine::plains(body::prologue(c.target)), seq![whole, stop], m0, fuel);
    machine::lemma_run_concat(seq![whole], seq![stop], m, fuel);
    machine::lemma_run_one(whole, m, fuel);
}

/// The function is structured code that, called with `params`, returns `word`.
pub open spec fn answers(
    body: Body,
    params: Seq<Val>,
    memory: Seq<u8>,
    outer: Seq<u8>,
    fuel: nat,
    word: u64,
) -> bool {
    &&& body.locals == module::method_locals()
    &&& exists|nodes: Seq<Node>|
        #![trigger machine::flat(nodes)]
        body.code == machine::flat(nodes) + seq![Instr::End] && machine::run(
            nodes,
            entered(params, memory, outer),
            fuel,
        ) == Outcome::Returned(word)
}

/// The one function of a compiled module returns what the interpreter returns.
pub proof fn compiled_module_agrees(
    ops: Seq<JitOp>,
    target: Target,
    regs: Seq<u64>,
    fuel: nat,
    params: Seq<Val>,
    memory: Seq<u8>,
    outer: Seq<u8>,
)
    requires
        forall|i: int| 0 <= i < ops.len() ==> is_int_op(#[trigger] ops[i]),
        module::module_parts(ops, Seq::empty(), Seq::empty(), target) is Some,
        reference::result(ops, reference::start(regs), fuel) is Some,
        called_on(target, params, memory, outer, regs),
    ensures
        ({
            let parts = module::module_parts(ops, Seq::empty(), Seq::empty(), target)->0;
            &&& parts[4] matches Part::Code(bodies) && bodies.len() == 1 && answers(
                bodies[0],
                params,
                memory,
                outer,
                fuel,
                reference::result(ops, reference::start(regs), fuel)->0,
            )
        }),
{
    let c = Ctx {
        ops,
        switches: Seq::empty(),
        exceptions: Seq::empty(),
        lay: manifest::layout_for(manifest::manifest_of(ops), false),
        target,
    };
    compiled_code_agrees(c, regs, fuel, params, memory, outer);
    let code = machine::flat(method_nodes(c)) + seq![Instr::End];
    assert(body::body_code(c) == Some(code));
}

/// A member of a generation returns what the interpreter returns, though its code stands in one
/// module with that of other methods and calls the imports of them all. The dispatcher reaches
/// it: the table holds, under the member's index, the number of its function.
pub proof fn generation_member_agrees(
    members: Seq<GenMember>,
    target: Target,
    k: int,
    regs: Seq<u64>,
    fuel: nat,
    params: Seq<Val>,
    memory: Seq<u8>,
    outer: Seq<u8>,
)
    requires
        module::generation_parts(members, target) is Some,
        0 <= k < members.len(),
        members[k].switches@.len() == 0,
        members[k].exceptions@.len() == 0,
        forall|i: int| 0 <= i < members[k].ops@.len() ==> is_int_op(#[trigger] members[k].ops@[i]),
        reference::result(members[k].ops@, reference::start(regs), fuel) is Some,
        called_on(target, params, memory, outer, regs),
    ensures
        ({
            let (parts, m) = module::generation_parts(members, target)->0;
            &&& parts[5] matches Part::Elements(segments) && segments[0].functions[k] == (manifest::import_count(
                m,
            ) + k) as u32
            &&& parts[6] matches Part::Code(bodies) && answers(
                bodies[k],
                params,
                memory,
                outer,
                fuel,
                reference::result(members[k].ops@, reference::start(regs), fuel)->0,
            )
        }),
{
    let n = members.len();
    let m = module::union_over(members, n);
    let member = members[k];
    module::members_keep_their_places(members, n, m, target, k);
    lemma_returns_somewhere(member.ops@, reference::start(regs), fuel);
    assert(body::lowerable(member.ops@, member.switches@));
    let c = Ctx {
        ops: member.ops@,
        switches: member.switches@,
        exceptions: member.exceptions@,
        lay: manifest::layout_for(m, false),
        target,
    };
    compiled_code_agrees(c, regs, fuel, params, memory, outer);
    let code = machine::flat(method_nodes(c)) + seq![Instr::End];
    assert(body::body_code(c) == Some(code));
}

/// The dispatcher hands its last five arguments over to the function that the table holds under
/// its first argument: its code is `nodes`, which leaves just these operands, then the indirect
/// call through the table.
pub proof fn dispatcher_hands_over(k: i32, params: Seq<Val>, memory: Seq<u8>, outer: Seq<u8>)
    requires
        params.len() == 5,
    ensures
        exists|nodes: Seq<Node>|
            #![trigger machine::flat(nodes)]
            module::dispatcher().code == machine::flat(nodes) + seq![
                Instr::CallIndirect(0, 0),
                Instr::End,
            ] && ({
                let args = seq![Val::I32(k)] + params;
                let m = Machine { locals: args, stack: Seq::empty(), memory, outer };
                machine::run(nodes, m, 0) == Outcome::Next(
                    Machine { stack: params.push(Val::I32(k)), ..m },
                )
            }),
{
    let args = seq![Val::I32(k)] + params;
    let m = Machine { locals: args, stack: Seq::empty(), memory, outer };
    let whole = module::dispatcher().code;
    let code = whole.take(6);
    assert(whole =~= code + seq![Instr::CallIndirect(0, 0), Instr::End]);
    machine::lemma_flat_plains(code);
    reveal_with_fuel(machine::forward, 7);
    let m1 = machine::run_instr(code[0], m)->Next_0;
    let m2 = machine::run_instr(code[1], m1)->Next_0;
    let m3 = machine::run_instr(code[2], m2)->Next_0;
    let m4 = machine::run_instr(code[3], m3)->Next_0;
    let m5 = machine::run_instr(code[4], m4)->Next_0;
    let m6 = machine::run_instr(code[5], m5)->Next_0;
    assert(m5.stack =~= params);
    assert(m6 =~= Machine { stack: params.push(Val::I32(k)), ..m });
    assert(machine::forward(code, 0, m) == Some(m6));
    machine::lemma_forward(code, m, 0);
    assert(whole == machine::flat(machine::plains(code)) + seq![Instr::CallIndirect(0, 0), Instr::End]);
}

} // verus!
