//! The code of every op has a structure of its own, and keeps to its own locals.

use crate::lower::body;
use crate::lower::body::Ctx;
use crate::lower::follow;
use crate::lower::follow::{At, Engine, Going, Out};
use crate::lower::linear;
use crate::lower::machine;
use crate::lower::machine::{Node, Val};
use crate::lower::manifest;
use crate::lower::manifest::{Layout, DM_STORE_F_KIND, DM_STORE_KIND, TO_BOOLEAN};
use crate::lower::op::JitOp;
use crate::lower::wasm;
use crate::lower::wasm::{
    Align, Binop, BlockTy, Cvtop, Instr, Memop, Relop, SlotLayout, Target, BLOCK, BOX_MARK, CANON_NAN,
    SCRATCH, SCRATCH2, SCRATCH64, SCRATCH64_2, SCRATCH_F64, STATE_PTR, UNDEFINED_BITS,
    VALUE_BOOL_MARK, VALUE_INT_MARK, VALUE_OBJECT_TAG16, VALUE_TAG_MASK,
};
use vstd::prelude::*;

verus! {

/// The instruction opens, parts or ends a block.
pub open spec fn is_bracket(i: Instr) -> bool {
    i is Block || i is Loop || i is If || i is Else || i is End
}

/// Every block is one of the structure, and no loop is among them.
pub open spec fn is_proper(nodes: Seq<Node>) -> bool
    decreases nodes,
{
    nodes.len() == 0 || (is_proper(nodes.drop_last()) && is_proper_node(nodes.last()))
}

pub open spec fn is_proper_node(node: Node) -> bool
    decreases node,
{
    match node {
        Node::Plain(i) => !is_bracket(i),
        Node::Block(inner) => is_proper(inner),
        Node::Loop(_) => false,
        Node::If(yes, no) => is_proper(yes) && is_proper(no),
        Node::Pick(_, yes, no) => is_proper(yes) && is_proper(no),
        Node::When(yes) => is_proper(yes),
    }
}

/// `nodes` is the structure of `code`.
pub open spec fn is_structure(nodes: Seq<Node>, code: Seq<Instr>) -> bool {
    is_proper(nodes) && machine::flat(nodes) == code
}

/// The code has a structure, and keeps off the locals of the code around it.
#[verifier::opaque]
spec fn is_piece(code: Seq<Instr>) -> bool {
    follow::is_apart(code) && exists|nodes: Seq<Node>| #[trigger] is_structure(nodes, code)
}

proof fn lemma_plain(code: Seq<Instr>)
    requires
        forall|k: int|
            0 <= k < code.len() ==> !follow::touches(#[trigger] code[k]) && !is_bracket(code[k]),
    ensures
        is_piece(code),
{
    reveal(is_piece);
    machine::lemma_flat_plains(code);
    lemma_plains_proper(code);
    assert(is_structure(machine::plains(code), code));
}

proof fn lemma_plains_proper(code: Seq<Instr>)
    requires
        forall|k: int| 0 <= k < code.len() ==> !is_bracket(#[trigger] code[k]),
    ensures
        is_proper(machine::plains(code)),
    decreases code.len(),
{
    reveal_with_fuel(is_proper, 2);
    reveal_with_fuel(is_proper_node, 2);
    if code.len() > 0 {
        lemma_plains_proper(code.drop_last());
        assert(machine::plains(code).drop_last() =~= machine::plains(code.drop_last()));
        assert(machine::plains(code).last() == Node::Plain(code.last()));
    }
}

proof fn lemma_proper_concat(a: Seq<Node>, b: Seq<Node>)
    requires
        is_proper(a),
        is_proper(b),
    ensures
        is_proper(a + b),
    decreases b.len(),
{
    if b.len() == 0 {
        assert(a + b =~= a);
    } else {
        lemma_proper_concat(a, b.drop_last());
        assert((a + b).drop_last() =~= a + b.drop_last());
    }
}

proof fn lemma_both(a: Seq<Instr>, b: Seq<Instr>)
    requires
        is_piece(a),
        is_piece(b),
    ensures
        is_piece(a + b),
{
    reveal(is_piece);
    let x = choose|x: Seq<Node>| #[trigger] is_structure(x, a);
    let y = choose|y: Seq<Node>| #[trigger] is_structure(y, b);
    lemma_proper_concat(x, y);
    machine::lemma_flat_concat(x, y);
    assert(is_structure(x + y, a + b));
    let ab = a + b;
    assert forall|k: int| 0 <= k < ab.len() implies !follow::touches(#[trigger] ab[k]) by {
        if k < a.len() {
            assert(ab[k] == a[k]);
        } else {
            assert(ab[k] == b[k - a.len()]);
        }
    }
}

/// An `if` with both branches.
spec fn pick(ty: BlockTy, yes: Seq<Instr>, no: Seq<Instr>) -> Seq<Instr> {
    seq![Instr::If(ty)] + yes + seq![Instr::Else] + no + seq![Instr::End]
}

proof fn lemma_pick(ty: BlockTy, yes: Seq<Instr>, no: Seq<Instr>)
    requires
        is_piece(yes),
        is_piece(no),
    ensures
        is_piece(pick(ty, yes, no)),
{
    reveal(is_piece);
    let x = choose|x: Seq<Node>| #[trigger] is_structure(x, yes);
    let y = choose|y: Seq<Node>| #[trigger] is_structure(y, no);
    let node = Node::Pick(ty, x, y);
    machine::lemma_flat_one(node);
    reveal_with_fuel(machine::flat_node, 2);
    reveal_with_fuel(is_proper, 2);
    reveal_with_fuel(is_proper_node, 2);
    assert(seq![node].drop_last() =~= Seq::empty());
    let code = pick(ty, yes, no);
    assert(is_structure(seq![node], code));
    assert forall|k: int| 0 <= k < code.len() implies !follow::touches(#[trigger] code[k]) by {
        let n = yes.len();
        if 0 < k <= n {
            assert(code[k] == yes[k - 1]);
        } else if n + 1 < k <= n + 1 + no.len() {
            assert(code[k] == no[k - n - 2]);
        }
    }
}

/// An `if` with one branch.
spec fn when(yes: Seq<Instr>) -> Seq<Instr> {
    seq![Instr::If(BlockTy::Empty)] + yes + seq![Instr::End]
}

proof fn lemma_when(yes: Seq<Instr>)
    requires
        is_piece(yes),
    ensures
        is_piece(when(yes)),
{
    reveal(is_piece);
    let x = choose|x: Seq<Node>| #[trigger] is_structure(x, yes);
    let node = Node::When(x);
    machine::lemma_flat_one(node);
    reveal_with_fuel(machine::flat_node, 2);
    reveal_with_fuel(is_proper, 2);
    reveal_with_fuel(is_proper_node, 2);
    assert(seq![node].drop_last() =~= Seq::empty());
    let code = when(yes);
    assert(is_structure(seq![node], code));
    assert forall|k: int| 0 <= k < code.len() implies !follow::touches(#[trigger] code[k]) by {
        if 0 < k <= yes.len() {
            assert(code[k] == yes[k - 1]);
        }
    }
}

proof fn lemma_three(a: Seq<Instr>, b: Seq<Instr>, c: Seq<Instr>)
    requires
        is_piece(a),
        is_piece(b),
        is_piece(c),
    ensures
        is_piece(a + b + c),
{
    lemma_both(a, b);
    lemma_both(a + b, c);
}

proof fn lemma_four(a: Seq<Instr>, b: Seq<Instr>, c: Seq<Instr>, d: Seq<Instr>)
    requires
        is_piece(a),
        is_piece(b),
        is_piece(c),
        is_piece(d),
    ensures
        is_piece(a + b + c + d),
{
    lemma_three(a, b, c);
    lemma_both(a + b + c, d);
}

proof fn lemma_five(a: Seq<Instr>, b: Seq<Instr>, c: Seq<Instr>, d: Seq<Instr>, e: Seq<Instr>)
    requires
        is_piece(a),
        is_piece(b),
        is_piece(c),
        is_piece(d),
        is_piece(e),
    ensures
        is_piece(a + b + c + d + e),
{
    lemma_four(a, b, c, d);
    lemma_both(a + b + c + d, e);
}

// The pieces that codes are made of.

proof fn lemma_box_int()
    ensures
        is_piece(linear::box_int()),
{
    reveal(linear::box_int);
    let code = seq![
        Instr::Cvt(Cvtop::I64ExtendI32U),
        Instr::I64Const(VALUE_INT_MARK),
        Instr::Bin(Binop::I64Or),
    ];
    lemma_plain(code);
    assert(linear::box_int() =~= code);
}

proof fn lemma_box_scratch()
    ensures
        is_piece(linear::box_scratch_f64()),
{
    reveal(linear::box_scratch_f64);
    let is_nan = seq![
        Instr::LocalGet(SCRATCH_F64),
        Instr::LocalGet(SCRATCH_F64),
        Instr::Rel(Relop::F64Ne),
    ];
    lemma_plain(is_nan);
    let nan = seq![Instr::I64Const(CANON_NAN)];
    lemma_plain(nan);
    let bits = seq![Instr::LocalGet(SCRATCH_F64), Instr::Cvt(Cvtop::I64ReinterpretF64)];
    lemma_plain(bits);
    lemma_pick(BlockTy::I64, nan, bits);
    lemma_both(is_nan, pick(BlockTy::I64, nan, bits));
    assert(linear::box_scratch_f64() =~= is_nan + pick(BlockTy::I64, nan, bits));
}

proof fn lemma_box_double()
    ensures
        is_piece(linear::box_double()),
{
    reveal(linear::box_double);
    let set = seq![Instr::LocalSet(SCRATCH_F64)];
    lemma_plain(set);
    lemma_box_scratch();
    lemma_both(set, linear::box_scratch_f64());
    assert(linear::box_double() =~= set + linear::box_scratch_f64());
}

proof fn lemma_is_int(local: u32)
    requires
        !follow::is_hidden(local),
    ensures
        is_piece(linear::is_int(local)),
{
    reveal(linear::is_int);
    let code = seq![
        Instr::LocalGet(local),
        Instr::I64Const(VALUE_TAG_MASK),
        Instr::Bin(Binop::I64And),
        Instr::I64Const(VALUE_INT_MARK),
        Instr::Rel(Relop::I64Eq),
    ];
    lemma_plain(code);
    assert(linear::is_int(local) =~= code);
}

proof fn lemma_is_f64(local: u32)
    requires
        !follow::is_hidden(local),
    ensures
        is_piece(linear::is_f64(local)),
{
    reveal(linear::is_f64);
    let code = seq![
        Instr::LocalGet(local),
        Instr::I64Const(BOX_MARK),
        Instr::Bin(Binop::I64And),
        Instr::I64Const(BOX_MARK),
        Instr::Rel(Relop::I64Ne),
    ];
    lemma_plain(code);
    assert(linear::is_f64(local) =~= code);
}

proof fn lemma_is_numeric(local: u32)
    requires
        !follow::is_hidden(local),
    ensures
        is_piece(linear::is_numeric(local)),
{
    reveal(linear::is_numeric);
    lemma_is_f64(local);
    lemma_is_int(local);
    let either = seq![Instr::Bin(Binop::I32Or)];
    lemma_plain(either);
    lemma_three(linear::is_f64(local), linear::is_int(local), either);
    assert(linear::is_numeric(local) =~= linear::is_f64(local) + linear::is_int(local) + either);
}

proof fn lemma_numval(local: u32)
    requires
        !follow::is_hidden(local),
    ensures
        is_piece(linear::numval(local)),
{
    reveal(linear::numval);
    let both = seq![
        Instr::LocalGet(local),
        Instr::Cvt(Cvtop::F64ReinterpretI64),
        Instr::LocalGet(local),
        Instr::Cvt(Cvtop::I32WrapI64),
        Instr::Cvt(Cvtop::F64ConvertI32S),
    ];
    lemma_plain(both);
    lemma_is_f64(local);
    let one = seq![Instr::Select];
    lemma_plain(one);
    lemma_three(both, linear::is_f64(local), one);
    assert(linear::numval(local) =~= both + linear::is_f64(local) + one);
}

proof fn lemma_to_boolean()
    ensures
        is_piece(linear::to_boolean_i32()),
{
    reveal(linear::to_boolean_i32);
    let is_bool = seq![
        Instr::LocalSet(SCRATCH64),
        Instr::LocalGet(SCRATCH64),
        Instr::I64Const(VALUE_TAG_MASK),
        Instr::Bin(Binop::I64And),
        Instr::I64Const(VALUE_BOOL_MARK),
        Instr::Rel(Relop::I64Eq),
    ];
    lemma_plain(is_bool);
    let bit = seq![
        Instr::LocalGet(SCRATCH64),
        Instr::Cvt(Cvtop::I32WrapI64),
        Instr::I32Const(1),
        Instr::Bin(Binop::I32And),
    ];
    lemma_plain(bit);
    lemma_is_int(SCRATCH64);
    let nonzero = seq![
        Instr::LocalGet(SCRATCH64),
        Instr::Cvt(Cvtop::I32WrapI64),
        Instr::I32Const(0),
        Instr::Rel(Relop::I32Ne),
    ];
    lemma_plain(nonzero);
    let asked = seq![
        Instr::LocalGet(SCRATCH64),
        Instr::Call(TO_BOOLEAN),
        Instr::Cvt(Cvtop::I32WrapI64),
    ];
    lemma_plain(asked);
    lemma_pick(BlockTy::I32, nonzero, asked);
    lemma_both(linear::is_int(SCRATCH64), pick(BlockTy::I32, nonzero, asked));
    let other = linear::is_int(SCRATCH64) + pick(BlockTy::I32, nonzero, asked);
    lemma_pick(BlockTy::I32, bit, other);
    lemma_both(is_bool, pick(BlockTy::I32, bit, other));
    assert(linear::to_boolean_i32() =~= is_bool + pick(BlockTy::I32, bit, other));
}

proof fn lemma_perr_bail(index: u32)
    ensures
        is_piece(linear::perr_bail(index)),
{
    reveal(linear::perr_bail);
    let ask = seq![Instr::Call(index)];
    lemma_plain(ask);
    let leave = seq![Instr::I64Const(UNDEFINED_BITS), Instr::Return];
    lemma_plain(leave);
    lemma_when(leave);
    lemma_both(ask, when(leave));
    assert(linear::perr_bail(index) =~= ask + when(leave));
}

proof fn lemma_own_bail(lay: Layout)
    ensures
        is_piece(linear::own_bail(lay)),
{
    lemma_perr_bail(lay.perr_index);
    lemma_plain(Seq::empty());
}

/// Both operands are numbers.
spec fn are_numeric() -> Seq<Instr> {
    linear::is_numeric(SCRATCH64_2) + linear::is_numeric(SCRATCH64) + seq![
        Instr::Bin(Binop::I32And),
    ]
}

proof fn lemma_are_numeric()
    ensures
        is_piece(are_numeric()),
{
    lemma_is_numeric(SCRATCH64_2);
    lemma_is_numeric(SCRATCH64);
    lemma_plain(seq![Instr::Bin(Binop::I32And)]);
    lemma_three(
        linear::is_numeric(SCRATCH64_2),
        linear::is_numeric(SCRATCH64),
        seq![Instr::Bin(Binop::I32And)],
    );
}

/// Both operands are ints.
spec fn are_ints() -> Seq<Instr> {
    linear::is_int(SCRATCH64_2) + linear::is_int(SCRATCH64) + seq![Instr::Bin(Binop::I32And)]
}

proof fn lemma_are_ints()
    ensures
        is_piece(are_ints()),
{
    lemma_is_int(SCRATCH64_2);
    lemma_is_int(SCRATCH64);
    lemma_plain(seq![Instr::Bin(Binop::I32And)]);
    lemma_three(
        linear::is_int(SCRATCH64_2),
        linear::is_int(SCRATCH64),
        seq![Instr::Bin(Binop::I32And)],
    );
}

/// Both operands as doubles.
spec fn doubles() -> Seq<Instr> {
    linear::numval(SCRATCH64_2) + linear::numval(SCRATCH64)
}

proof fn lemma_doubles()
    ensures
        is_piece(doubles()),
{
    lemma_numval(SCRATCH64_2);
    lemma_numval(SCRATCH64);
    lemma_both(linear::numval(SCRATCH64_2), linear::numval(SCRATCH64));
}

proof fn lemma_compare(lay: Layout, index: u32)
    ensures
        is_piece(linear::compare_code(lay, index)),
{
    reveal(linear::compare_code);
    lemma_plain(linear::stash2());
    lemma_are_numeric();
    lemma_doubles();
    let relate = seq![
        Instr::Rel(linear::relation(index)),
        Instr::Cvt(Cvtop::I64ExtendI32U),
        Instr::I64Const(VALUE_BOOL_MARK),
        Instr::Bin(Binop::I64Or),
    ];
    lemma_plain(relate);
    lemma_both(doubles(), relate);
    let yes = doubles() + relate;
    lemma_plain(linear::fallback2(lay, index));
    lemma_pick(BlockTy::I64, yes, linear::fallback2(lay, index));
    lemma_three(
        linear::stash2(),
        are_numeric(),
        pick(BlockTy::I64, yes, linear::fallback2(lay, index)),
    );
    assert(linear::compare_code(lay, index) =~= linear::stash2() + are_numeric()
        + pick(BlockTy::I64, yes, linear::fallback2(lay, index)));
}

proof fn lemma_box_bits(index: u32)
    ensures
        is_piece(linear::box_bits(index)),
{
    lemma_box_int();
    if index == 10 {
        let test = seq![Instr::LocalTee(SCRATCH), Instr::I32Const(0), Instr::Rel(Relop::I32GeS)];
        let get = seq![Instr::LocalGet(SCRATCH)];
        let no = seq![
            Instr::LocalGet(SCRATCH),
            Instr::Cvt(Cvtop::F64ConvertI32U),
            Instr::Cvt(Cvtop::I64ReinterpretF64),
        ];
        lemma_plain(test);
        lemma_plain(get);
        lemma_plain(no);
        let yes = get + linear::box_int();
        lemma_both(get, linear::box_int());
        lemma_pick(BlockTy::I64, yes, no);
        lemma_both(test, pick(BlockTy::I64, yes, no));
        assert(linear::box_bits(index) =~= test + pick(BlockTy::I64, yes, no));
    }
}

proof fn lemma_bit(lay: Layout, index: u32)
    ensures
        is_piece(linear::bit_code(lay, index)),
{
    reveal(linear::bit_code);
    lemma_plain(linear::stash2());
    lemma_are_ints();
    let ints = seq![
        Instr::LocalGet(SCRATCH64_2),
        Instr::Cvt(Cvtop::I32WrapI64),
        Instr::LocalGet(SCRATCH64),
        Instr::Cvt(Cvtop::I32WrapI64),
    ];
    lemma_plain(ints);
    lemma_plain(linear::shift_mask(index));
    let compute = seq![Instr::Bin(linear::bit_operation(index))];
    lemma_plain(compute);
    lemma_box_bits(index);
    lemma_four(ints, linear::shift_mask(index), compute, linear::box_bits(index));
    let yes = ints + linear::shift_mask(index) + compute + linear::box_bits(index);
    lemma_plain(linear::fallback2(lay, index));
    lemma_pick(BlockTy::I64, yes, linear::fallback2(lay, index));
    lemma_three(
        linear::stash2(),
        are_ints(),
        pick(BlockTy::I64, yes, linear::fallback2(lay, index)),
    );
    assert(linear::bit_code(lay, index) =~= linear::stash2() + are_ints()
        + pick(BlockTy::I64, yes, linear::fallback2(lay, index)));
}

proof fn lemma_int_arith(index: u32)
    ensures
        is_piece(linear::int_arith(index)),
{
    reveal(linear::int_arith);
    let compute = seq![
        Instr::LocalGet(SCRATCH64_2),
        Instr::Cvt(Cvtop::I32WrapI64),
        Instr::Cvt(Cvtop::I64ExtendI32S),
        Instr::LocalGet(SCRATCH64),
        Instr::Cvt(Cvtop::I32WrapI64),
        Instr::Cvt(Cvtop::I64ExtendI32S),
        Instr::Bin(linear::int_operation(index)),
        Instr::LocalSet(SCRATCH64_2),
        Instr::LocalGet(SCRATCH64_2),
        Instr::LocalGet(SCRATCH64_2),
        Instr::Cvt(Cvtop::I64Extend32S),
        Instr::Rel(Relop::I64Eq),
    ];
    lemma_plain(compute);
    let low = seq![Instr::LocalGet(SCRATCH64_2), Instr::Cvt(Cvtop::I32WrapI64)];
    lemma_plain(low);
    lemma_box_int();
    lemma_both(low, linear::box_int());
    let yes = low + linear::box_int();
    let wide = seq![
        Instr::LocalGet(SCRATCH64_2),
        Instr::Cvt(Cvtop::F64ConvertI64S),
        Instr::Cvt(Cvtop::I64ReinterpretF64),
    ];
    lemma_plain(wide);
    lemma_pick(BlockTy::I64, yes, wide);
    lemma_both(compute, pick(BlockTy::I64, yes, wide));
    assert(linear::int_arith(index) =~= compute + pick(BlockTy::I64, yes, wide));
}

proof fn lemma_double_arith(lay: Layout, index: u32, op: Binop)
    ensures
        is_piece(linear::double_arith(lay, index, op)),
{
    reveal(linear::double_arith);
    lemma_are_numeric();
    lemma_doubles();
    let compute = seq![Instr::Bin(op)];
    lemma_plain(compute);
    lemma_box_double();
    lemma_three(doubles(), compute, linear::box_double());
    let yes = doubles() + compute + linear::box_double();
    lemma_plain(linear::fallback2(lay, index));
    lemma_pick(BlockTy::I64, yes, linear::fallback2(lay, index));
    lemma_both(are_numeric(), pick(BlockTy::I64, yes, linear::fallback2(lay, index)));
    assert(linear::double_arith(lay, index, op) =~= are_numeric()
        + pick(BlockTy::I64, yes, linear::fallback2(lay, index)));
}

proof fn lemma_arith_int(lay: Layout, index: u32)
    ensures
        is_piece(linear::arith_int_code(lay, index)),
{
    reveal(linear::arith_int_code);
    let op = linear::double_operation(index);
    let yes = linear::int_arith(index);
    let no = linear::double_arith(lay, index, op);
    lemma_plain(linear::stash2());
    lemma_are_ints();
    lemma_int_arith(index);
    lemma_double_arith(lay, index, op);
    lemma_pick(BlockTy::I64, yes, no);
    lemma_three(linear::stash2(), are_ints(), pick(BlockTy::I64, yes, no));
    assert(linear::arith_int_code(lay, index) =~= linear::stash2() + are_ints() + pick(
        BlockTy::I64,
        yes,
        no,
    ));
}

proof fn lemma_divide(lay: Layout, index: u32)
    ensures
        is_piece(linear::divide_code(lay, index)),
{
    reveal(linear::divide_code);
    lemma_plain(linear::stash2());
    lemma_double_arith(lay, index, Binop::F64Div);
    lemma_both(linear::stash2(), linear::double_arith(lay, index, Binop::F64Div));
}

proof fn lemma_coerce_int(signed: bool)
    ensures
        is_piece(linear::coerce_int_code(signed)),
{
    reveal(linear::coerce_int_code);
    let set = seq![Instr::LocalSet(SCRATCH64)];
    lemma_plain(set);
    lemma_is_int(SCRATCH64);
    lemma_plain(linear::sign_check(signed));
    let same = seq![Instr::LocalGet(SCRATCH64)];
    lemma_plain(same);
    let asked = seq![Instr::LocalGet(SCRATCH64), Instr::Call(manifest::coerce_helper(signed))];
    lemma_plain(asked);
    lemma_pick(BlockTy::I64, same, asked);
    lemma_four(
        set,
        linear::is_int(SCRATCH64),
        linear::sign_check(signed),
        pick(BlockTy::I64, same, asked),
    );
    assert(linear::coerce_int_code(signed) =~= set + linear::is_int(SCRATCH64)
        + linear::sign_check(signed) + pick(BlockTy::I64, same, asked));
}

proof fn lemma_step_local(i: u32, inc: bool)
    ensures
        is_piece(linear::step_local(i, inc)),
{
    reveal(linear::step_local);
    lemma_plain(linear::step_local(i, inc));
}

proof fn lemma_slot_fallback(lay: Layout, id: u32)
    ensures
        is_piece(linear::slot_fallback(lay, id)),
{
    let ask = seq![
        Instr::LocalGet(SCRATCH64),
        Instr::I64Const(id as u64),
        Instr::Call(lay.gs_index),
    ];
    lemma_plain(ask);
    lemma_own_bail(lay);
    lemma_both(ask, linear::own_bail(lay));
    assert(linear::slot_fallback(lay, id) =~= ask + linear::own_bail(lay));
}

proof fn lemma_slot_inline(lay: Layout, id: u32, at: SlotLayout)
    ensures
        is_piece(linear::slot_inline_code(lay, id, at)),
{
    reveal(linear::slot_inline_code);
    let is_object = seq![
        Instr::LocalSet(SCRATCH64),
        Instr::LocalGet(SCRATCH64),
        Instr::I64Const(48),
        Instr::Bin(Binop::I64ShrU),
        Instr::I64Const(VALUE_OBJECT_TAG16),
        Instr::Rel(Relop::I64Eq),
    ];
    lemma_plain(is_object);
    let is_there = seq![
        Instr::LocalGet(SCRATCH64),
        Instr::Cvt(Cvtop::I32WrapI64),
        Instr::LocalSet(SCRATCH),
        Instr::LocalGet(SCRATCH),
        Instr::Access(Memop::I32Load, linear::field(at.len_off as u64, Align::Four)),
        Instr::I32Const(id as i32),
        Instr::Rel(Relop::I32GtU),
    ];
    lemma_plain(is_there);
    let load = seq![
        Instr::LocalGet(SCRATCH),
        Instr::Access(Memop::I32Load, linear::field(at.ptr_off as u64, Align::Four)),
        Instr::Access(Memop::I64Load, linear::field((id * 8) as u64, Align::Eight)),
    ];
    lemma_plain(load);
    lemma_slot_fallback(lay, id);
    lemma_pick(BlockTy::I64, load, linear::slot_fallback(lay, id));
    lemma_both(is_there, pick(BlockTy::I64, load, linear::slot_fallback(lay, id)));
    let yes = is_there + pick(BlockTy::I64, load, linear::slot_fallback(lay, id));
    lemma_pick(BlockTy::I64, yes, linear::slot_fallback(lay, id));
    lemma_both(is_object, pick(BlockTy::I64, yes, linear::slot_fallback(lay, id)));
    assert(linear::slot_inline_code(lay, id, at) =~= is_object
        + pick(BlockTy::I64, yes, linear::slot_fallback(lay, id)));
}

proof fn lemma_slot_helper(lay: Layout, id: u32)
    ensures
        is_piece(linear::slot_helper_code(lay, id)),
{
    let ask = seq![Instr::I64Const(id as u64), Instr::Call(lay.gs_index)];
    lemma_plain(ask);
    lemma_own_bail(lay);
    lemma_both(ask, linear::own_bail(lay));
    assert(linear::slot_helper_code(lay, id) =~= ask + linear::own_bail(lay));
}

proof fn lemma_dm(width: u32)
    ensures
        is_piece(linear::dm_check(width)),
        is_piece(linear::dm_address()),
{
    reveal(linear::dm_check);
    reveal(linear::dm_address);
    lemma_plain(linear::dm_check(width));
    lemma_plain(linear::dm_address());
}

proof fn lemma_dm_load(width: u32)
    ensures
        is_piece(linear::dm_load_code(width)),
{
    reveal(linear::dm_load_code);
    let set = seq![Instr::Cvt(Cvtop::I32WrapI64), Instr::LocalSet(SCRATCH)];
    lemma_plain(set);
    lemma_dm(width);
    let load = seq![Instr::Access(linear::load_of(width), linear::field(0, Align::One))];
    lemma_plain(load);
    lemma_box_int();
    lemma_three(linear::dm_address(), load, linear::box_int());
    let yes = linear::dm_address() + load + linear::box_int();
    let get = seq![Instr::LocalGet(SCRATCH)];
    lemma_plain(get);
    let ask = seq![Instr::Call(manifest::dm_load_helper(width))];
    lemma_plain(ask);
    lemma_three(get, linear::box_int(), ask);
    let no = get + linear::box_int() + ask;
    lemma_pick(BlockTy::I64, yes, no);
    lemma_three(set, linear::dm_check(width), pick(BlockTy::I64, yes, no));
    assert(linear::dm_load_code(width) =~= set + linear::dm_check(width)
        + pick(BlockTy::I64, yes, no));
}

proof fn lemma_dm_store(lay: Layout, width: u32)
    ensures
        is_piece(linear::dm_store_code(lay, width)),
{
    reveal(linear::dm_store_code);
    let set = seq![
        Instr::Cvt(Cvtop::I32WrapI64),
        Instr::LocalSet(SCRATCH),
        Instr::Cvt(Cvtop::I32WrapI64),
        Instr::LocalSet(SCRATCH2),
    ];
    lemma_plain(set);
    lemma_dm(width);
    let store = seq![
        Instr::LocalGet(SCRATCH2),
        Instr::Access(linear::store_of(width), linear::field(0, Align::One)),
    ];
    lemma_plain(store);
    lemma_both(linear::dm_address(), store);
    let yes = linear::dm_address() + store;
    let value = seq![Instr::LocalGet(SCRATCH2)];
    lemma_plain(value);
    lemma_box_int();
    let address = seq![Instr::LocalGet(SCRATCH)];
    lemma_plain(address);
    let ask = seq![
        Instr::I64Const(width as u64),
        Instr::Call(lay.set3_index@[DM_STORE_KIND as int]),
        Instr::Drop,
    ];
    lemma_plain(ask);
    lemma_five(value, linear::box_int(), address, linear::box_int(), ask);
    let no = value + linear::box_int() + address + linear::box_int() + ask;
    lemma_pick(BlockTy::Empty, yes, no);
    lemma_three(set, linear::dm_check(width), pick(BlockTy::Empty, yes, no));
    assert(linear::dm_store_code(lay, width) =~= set + linear::dm_check(width)
        + pick(BlockTy::Empty, yes, no));
}

proof fn lemma_dm_load_f(width: u32)
    ensures
        is_piece(linear::dm_load_f_code(width)),
{
    reveal(linear::dm_load_f_code);
    let set = seq![Instr::Cvt(Cvtop::I32WrapI64), Instr::LocalSet(SCRATCH)];
    lemma_plain(set);
    lemma_dm(width);
    lemma_plain(linear::float_load(width));
    lemma_box_double();
    lemma_three(linear::dm_address(), linear::float_load(width), linear::box_double());
    let yes = linear::dm_address() + linear::float_load(width) + linear::box_double();
    let get = seq![Instr::LocalGet(SCRATCH)];
    lemma_plain(get);
    lemma_box_int();
    let ask = seq![Instr::Call(manifest::dm_load_f_helper(width))];
    lemma_plain(ask);
    lemma_three(get, linear::box_int(), ask);
    let no = get + linear::box_int() + ask;
    lemma_pick(BlockTy::I64, yes, no);
    lemma_three(set, linear::dm_check(width), pick(BlockTy::I64, yes, no));
    assert(linear::dm_load_f_code(width) =~= set + linear::dm_check(width)
        + pick(BlockTy::I64, yes, no));
}

proof fn lemma_dm_store_f(lay: Layout, width: u32)
    ensures
        is_piece(linear::dm_store_f_code(lay, width)),
{
    reveal(linear::dm_store_f_code);
    let set = seq![
        Instr::Cvt(Cvtop::I32WrapI64),
        Instr::LocalSet(SCRATCH),
        Instr::LocalSet(SCRATCH64),
    ];
    lemma_plain(set);
    lemma_dm(width);
    lemma_numval(SCRATCH64);
    lemma_plain(linear::float_store(width));
    lemma_three(linear::dm_address(), linear::numval(SCRATCH64), linear::float_store(width));
    let yes = linear::dm_address() + linear::numval(SCRATCH64) + linear::float_store(width);
    let get = seq![Instr::LocalGet(SCRATCH64), Instr::LocalGet(SCRATCH)];
    lemma_plain(get);
    lemma_box_int();
    let ask = seq![
        Instr::I64Const(width as u64),
        Instr::Call(lay.set3_index@[DM_STORE_F_KIND as int]),
        Instr::Drop,
    ];
    lemma_plain(ask);
    lemma_three(get, linear::box_int(), ask);
    let no = get + linear::box_int() + ask;
    lemma_pick(BlockTy::Empty, yes, no);
    lemma_three(set, linear::dm_check(width), pick(BlockTy::Empty, yes, no));
    assert(linear::dm_store_f_code(lay, width) =~= set + linear::dm_check(width)
        + pick(BlockTy::Empty, yes, no));
}

proof fn lemma_call(lay: Layout, argc: u32, imms: Seq<Instr>, f: u32, push: bool)
    requires
        is_piece(imms),
    ensures
        is_piece(linear::call_code(lay, argc, imms, f, push)),
{
    reveal(linear::call_code);
    let args = wasm::repeated(argc as nat, Instr::Call(lay.pca_index));
    lemma_plain(args);
    let call = seq![Instr::Call(f)];
    lemma_plain(call);
    lemma_plain(linear::drop_unless(push));
    lemma_own_bail(lay);
    lemma_five(args, imms, call, linear::drop_unless(push), linear::own_bail(lay));
    assert(linear::call_code(lay, argc, imms, f, push) =~= args + imms + call
        + linear::drop_unless(push) + linear::own_bail(lay));
}

// The ops.

proof fn lemma_int_op(op: JitOp)
    ensures
        linear::int_op_code(op) matches Some(code) ==> is_piece(code),
{
    if let Some(code) = linear::int_op_code(op) {
        match op {
            JitOp::IncLocalI(i) => lemma_step_local(i, true),
            JitOp::DecLocalI(i) => lemma_step_local(i, false),
            _ => lemma_plain(code),
        }
    }
}

proof fn lemma_double_op(op: JitOp)
    ensures
        linear::double_op_code(op) matches Some(code) ==> is_piece(code),
{
    if let Some(code) = linear::double_op_code(op) {
        match op {
            JitOp::SetLocalDouble(i) => {
                lemma_box_double();
                lemma_plain(linear::set_word(i));
                lemma_both(linear::box_double(), linear::set_word(i));
            },
            JitOp::StoreLocalDouble(i) => {
                let a = seq![Instr::LocalTee(SCRATCH_F64), Instr::LocalGet(STATE_PTR)];
                let z = seq![Instr::Access(Memop::I64Store, linear::slot_of(i))];
                lemma_box_scratch();
                lemma_plain(a);
                lemma_plain(z);
                lemma_both(a, linear::box_scratch_f64());
                lemma_both(a + linear::box_scratch_f64(), z);
            },
            _ => lemma_plain(code),
        }
    }
}

proof fn lemma_boxed_int_op(op: Binop)
    ensures
        is_piece(linear::boxed_int_op(op)),
{
    let a = seq![
        Instr::Cvt(Cvtop::I32WrapI64),
        Instr::LocalSet(SCRATCH),
        Instr::Cvt(Cvtop::I32WrapI64),
        Instr::LocalGet(SCRATCH),
        Instr::Bin(op),
    ];
    lemma_plain(a);
    lemma_box_int();
    lemma_both(a, linear::box_int());
}

proof fn lemma_boxed_step(op: Binop)
    ensures
        is_piece(
            seq![Instr::Cvt(Cvtop::I32WrapI64), Instr::I32Const(1), Instr::Bin(op)]
                + linear::box_int(),
        ),
{
    let a = seq![Instr::Cvt(Cvtop::I32WrapI64), Instr::I32Const(1), Instr::Bin(op)];
    lemma_plain(a);
    lemma_box_int();
    lemma_both(a, linear::box_int());
}

proof fn lemma_word_op(op: JitOp, lay: Layout)
    ensures
        linear::word_op_code(op, lay) matches Some(code) ==> is_piece(code),
{
    if let Some(code) = linear::word_op_code(op, lay) {
        match op {
            JitOp::CmpNum(index) => lemma_compare(lay, index),
            JitOp::BitOpInt(index) => lemma_bit(lay, index),
            JitOp::ArithInt(index) => lemma_arith_int(lay, index),
            JitOp::ArithNum(index) => lemma_divide(lay, index),
            JitOp::CoerceInt(signed) => lemma_coerce_int(signed),
            JitOp::CoerceBool => {
                let z = seq![
                    Instr::Cvt(Cvtop::I64ExtendI32U),
                    Instr::I64Const(VALUE_BOOL_MARK),
                    Instr::Bin(Binop::I64Or),
                ];
                lemma_to_boolean();
                lemma_plain(z);
                lemma_both(linear::to_boolean_i32(), z);
            },
            JitOp::AddIBoxed => lemma_boxed_int_op(Binop::I32Add),
            JitOp::SubtractIBoxed => lemma_boxed_int_op(Binop::I32Sub),
            JitOp::MultiplyIBoxed => lemma_boxed_int_op(Binop::I32Mul),
            JitOp::IncrementIBoxed => lemma_boxed_step(Binop::I32Add),
            JitOp::DecrementIBoxed => lemma_boxed_step(Binop::I32Sub),
            JitOp::IncDecLocalIValue(i, inc) => lemma_step_local(i, inc),
            JitOp::DmLoad(width) => lemma_dm_load(width),
            JitOp::DmStore(width) => lemma_dm_store(lay, width),
            JitOp::DmLoadF(width) => lemma_dm_load_f(width),
            JitOp::DmStoreF(width) => lemma_dm_store_f(lay, width),
            _ => lemma_plain(code),
        }
    }
}

proof fn lemma_helper_op(op: JitOp, lay: Layout, target: Target)
    ensures
        linear::helper_op_code(op, lay, target) matches Some(code) ==> is_piece(code),
{
    if let Some(code) = linear::helper_op_code(op, lay, target) {
        match op {
            JitOp::GetSlot(id, _) => match target.slots {
                Some(at) => lemma_slot_inline(lay, id, at),
                None => lemma_slot_helper(lay, id),
            },
            JitOp::CallMethod(id, argc, push) => {
                let imms = seq![Instr::I64Const(id as u64), Instr::I64Const(argc as u64)];
                lemma_plain(imms);
                lemma_call(lay, argc, imms, lay.call_index, push);
            },
            JitOp::CallMethodDirect(id, argc, push, _) => {
                let imms = seq![Instr::I64Const(id as u64), Instr::I64Const(argc as u64)];
                lemma_plain(imms);
                lemma_call(lay, argc, imms, lay.call_index, push);
            },
            JitOp::CallProperty(k, argc, push) => {
                let imms = seq![Instr::I64Const(k as u64), Instr::I64Const(argc as u64)];
                lemma_plain(imms);
                lemma_call(lay, argc, imms, lay.callprop_index, push);
            },
            JitOp::ConstructSuper(argc) => {
                let imms = seq![Instr::I64Const(argc as u64)];
                lemma_plain(imms);
                lemma_call(lay, argc, imms, lay.csup_index, false);
            },
            JitOp::CallValue(argc) => {
                let imms = seq![Instr::I64Const(argc as u64)];
                lemma_plain(imms);
                lemma_call(lay, argc, imms, lay.callv_index, true);
            },
            JitOp::VCall(kind, imm, spill, push) => {
                lemma_plain(linear::vcall_imms(kind, imm, spill));
                lemma_call(lay, spill, linear::vcall_imms(kind, imm, spill), lay.vc_index, push);
            },
            _ => lemma_plain(code),
        }
    }
}

proof fn lemma_own(c: Ctx, i: int)
    ensures
        is_piece(follow::own_code(c, i)),
{
    match c.ops[i] {
        JitOp::IfTrueBoxed(_) => lemma_to_boolean(),
        JitOp::IfFalseBoxed(_) => {
            let z = seq![Instr::Rel(Relop::I32Eqz)];
            lemma_to_boolean();
            lemma_plain(z);
            lemma_both(linear::to_boolean_i32(), z);
        },
        JitOp::ReturnValue => {
            let z = seq![Instr::Return];
            lemma_box_int();
            lemma_plain(z);
            lemma_both(linear::box_int(), z);
        },
        JitOp::ReturnDouble => {
            let z = seq![Instr::Return];
            lemma_box_double();
            lemma_plain(z);
            lemma_both(linear::box_double(), z);
        },
        JitOp::IfLt(_) | JitOp::IfGe(_) | JitOp::IfTrue(_) | JitOp::IfFalse(_) => lemma_plain(
            follow::own_code(c, i),
        ),
        JitOp::Jump(_) | JitOp::LookupSwitch(_) | JitOp::ReturnValueBoxed
        | JitOp::ReturnValueCoerced | JitOp::ReturnValueCoerceBaked(_)
        | JitOp::ReturnVoidBoxed(_) | JitOp::Throw => lemma_plain(follow::own_code(c, i)),
        op => {
            lemma_int_op(op);
            lemma_double_op(op);
            lemma_word_op(op, c.lay);
            lemma_helper_op(op, c.lay, c.target);
            lemma_plain(Seq::empty());
        },
    }
}

/// The code of op `i`, with the return behind it.
pub open spec fn whole_code(c: Ctx, i: int) -> Seq<Instr> {
    follow::own_code(c, i) + follow::bail_code(c, i)
}

/// The structure of `code`.
pub open spec fn structure_of(code: Seq<Instr>) -> Seq<Node> {
    choose|nodes: Seq<Node>| is_structure(nodes, code)
}

/// The code of every op by its structure.
pub open spec fn parts_of(c: Ctx) -> Seq<Seq<Node>> {
    Seq::new(c.ops.len(), |i: int| structure_of(whole_code(c, i)))
}

/// The blocks of an op's code are closed in it, there is no loop in it, and it touches neither the
/// block index nor the operands that are carried between blocks.
pub proof fn the_code_of_an_op_stands_alone(c: Ctx, i: int)
    ensures
        is_structure(structure_of(whole_code(c, i)), whole_code(c, i)),
        follow::is_apart(whole_code(c, i)),
{
    lemma_own(c, i);
    lemma_perr_bail(c.lay.perr_index);
    lemma_plain(Seq::empty());
    lemma_both(follow::own_code(c, i), follow::bail_code(c, i));
    reveal(is_piece);
}

proof fn lemma_parts(c: Ctx)
    ensures
        follow::reads(c, parts_of(c)),
        forall|i: int|
            0 <= i < c.ops.len() ==> follow::is_apart(machine::flat(#[trigger] parts_of(c)[i])),
{
    let parts = parts_of(c);
    assert forall|i: int| 0 <= i < parts.len() implies machine::flat(#[trigger] parts[i])
        == whole_code(c, i) && follow::is_apart(machine::flat(parts[i])) by {
        the_code_of_an_op_stands_alone(c, i);
    }
}

/// Where whatever a branch leads back to can be come to from above as well, and handlers only by an
/// error, every block finds the operands that are brought to it.
pub proof fn methods_laid_out_from_above_are_settled(c: Ctx)
    requires
        follow::is_method(c),
        body::body_code(c) is Some,
        follow::is_laid_out(c),
    ensures
        follow::is_settled(c),
{
    lemma_parts(c);
    follow::lemma_settled(c, parts_of(c));
}

/// On every engine, the code of a method returns what one gets by running the codes of its ops,
/// one after the other as the branches lead. The code is a loop behind the copying of the
/// registers, and `inner` is what it runs.
pub proof fn code_follows_the_ops<X>(e: Engine<X>, c: Ctx, m: Going<X>, fuel: nat) -> (inner: Seq<
    Node,
>)
    requires
        follow::is_method(c),
        body::body_code(c) is Some,
        follow::is_settled(c),
        m.locals.len() == follow::LOCALS,
        m.locals[BLOCK as int] == Val::I32(0),
        m.stack.len() == 0,
        follow::followed(e, c, parts_of(c), At { pc: 0, going: m }, fuel) is Some,
    ensures
        body::body_code(c) == Some(
            machine::flat(follow::method_nodes(c, inner)) + seq![Instr::End],
        ),
        ({
            let (v, x) = follow::followed(e, c, parts_of(c), At { pc: 0, going: m }, fuel)->0;
            follow::go_round(e, inner, m, fuel) == Out::Returned(v, x)
        }),
{
    lemma_parts(c);
    follow::lemma_code_follows(e, c, parts_of(c), m, fuel)
}

} // verus!
