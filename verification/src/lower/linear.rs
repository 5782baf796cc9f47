//! The code of every op that neither branches nor returns.

use crate::lower::manifest::{
    Layout, COERCE_I, COERCE_S, COERCE_U, DECREMENT, DM_LOAD16, DM_LOAD32, DM_LOAD8, DM_LOADF32,
    DM_LOADF64, DM_STORE_F_KIND, DM_STORE_KIND, GET_OUTER_SCOPE, GET_PUSH_STRING,
    GET_SCOPE_OBJECT, GET_SCRIPT_GLOBALS, INCREMENT, NEW_CATCH, POP_SCOPE, PUSH_SCOPE, TO_BOOLEAN,
};
use crate::lower::manifest;
use crate::lower::op;
use crate::lower::op::JitOp;
use crate::lower::vc;
use crate::lower::wasm;
use crate::lower::wasm::{
    Align, emit, emit_repeated, Binop, BlockTy, Cvtop, Instr, Mem, Memop, Relop, SlotLayout, Target,
    BOX_MARK, CANON_NAN, DM_BASE, SCRATCH, SCRATCH2, SCRATCH64, SCRATCH64_2, SCRATCH_F64,
    STATE_PTR, UNDEFINED_BITS, VALUE_BOOL_MARK, VALUE_INT_MARK, VALUE_OBJECT_TAG16,
    VALUE_TAG_MASK,
};
use crate::typed;
use vstd::prelude::*;

verus! {

/// Register `i` of the frame.
pub open spec fn slot_of(i: u32) -> Mem {
    Mem { offset: (i * 8) as u64, align: Align::Eight, memory: 0 }
}

fn slot(i: u32) -> (r: Mem)
    ensures
        r == slot_of(i),
{
    Mem { offset: i as u64 * 8, align: Align::Eight, memory: 0 }
}

/// A field of the second memory, naturally aligned.
pub open spec fn field(offset: u64, align: Align) -> Mem {
    Mem { offset, align, memory: 1 }
}

fn field_at(offset: u64, align: Align) -> (r: Mem)
    ensures
        r == field(offset, align),
{
    Mem { offset, align, memory: 1 }
}

// Pieces shared by several ops.

/// int -> boxed int.
#[verifier::opaque]
pub open spec fn box_int() -> Seq<Instr> {
    seq![Instr::Cvt(Cvtop::I64ExtendI32U), Instr::I64Const(VALUE_INT_MARK), Instr::Bin(Binop::I64Or)]
}

pub fn emit_box_int(body: &mut Vec<Instr>)
    ensures
        final(body)@ == old(body)@ + box_int(),
{
    reveal(box_int);
    emit(
        body,
        [
            Instr::Cvt(Cvtop::I64ExtendI32U),
            Instr::I64Const(VALUE_INT_MARK),
            Instr::Bin(Binop::I64Or),
        ],
    );
}

/// Pushes the word of the double in the scratch local: its bits, or the canonical NaN.
#[verifier::opaque]
pub open spec fn box_scratch_f64() -> Seq<Instr> {
    seq![
        Instr::LocalGet(SCRATCH_F64),
        Instr::LocalGet(SCRATCH_F64),
        Instr::Rel(Relop::F64Ne),
        Instr::If(BlockTy::I64),
        Instr::I64Const(CANON_NAN),
        Instr::Else,
        Instr::LocalGet(SCRATCH_F64),
        Instr::Cvt(Cvtop::I64ReinterpretF64),
        Instr::End,
    ]
}

fn emit_box_scratch_f64(body: &mut Vec<Instr>)
    ensures
        final(body)@ == old(body)@ + box_scratch_f64(),
{
    reveal(box_scratch_f64);
    emit(
        body,
        [
            Instr::LocalGet(SCRATCH_F64),
            Instr::LocalGet(SCRATCH_F64),
            Instr::Rel(Relop::F64Ne),
            Instr::If(BlockTy::I64),
            Instr::I64Const(CANON_NAN),
            Instr::Else,
            Instr::LocalGet(SCRATCH_F64),
            Instr::Cvt(Cvtop::I64ReinterpretF64),
            Instr::End,
        ],
    );
}

/// double -> boxed double.
#[verifier::opaque]
pub open spec fn box_double() -> Seq<Instr> {
    seq![Instr::LocalSet(SCRATCH_F64)] + box_scratch_f64()
}

pub fn emit_box_double(body: &mut Vec<Instr>)
    ensures
        final(body)@ == old(body)@ + box_double(),
{
    reveal(box_double);
    emit(body, [Instr::LocalSet(SCRATCH_F64)]);
    emit_box_scratch_f64(body);
}

/// Pushes whether the word in `local` is a boxed int.
#[verifier::opaque]
pub open spec fn is_int(local: u32) -> Seq<Instr> {
    seq![
        Instr::LocalGet(local),
        Instr::I64Const(VALUE_TAG_MASK),
        Instr::Bin(Binop::I64And),
        Instr::I64Const(VALUE_INT_MARK),
        Instr::Rel(Relop::I64Eq),
    ]
}

fn emit_is_int(body: &mut Vec<Instr>, local: u32)
    ensures
        final(body)@ == old(body)@ + is_int(local),
{
    reveal(is_int);
    emit(
        body,
        [
            Instr::LocalGet(local),
            Instr::I64Const(VALUE_TAG_MASK),
            Instr::Bin(Binop::I64And),
            Instr::I64Const(VALUE_INT_MARK),
            Instr::Rel(Relop::I64Eq),
        ],
    );
}

/// Pushes whether the word in `local` is a double.
#[verifier::opaque]
pub open spec fn is_f64(local: u32) -> Seq<Instr> {
    seq![
        Instr::LocalGet(local),
        Instr::I64Const(BOX_MARK),
        Instr::Bin(Binop::I64And),
        Instr::I64Const(BOX_MARK),
        Instr::Rel(Relop::I64Ne),
    ]
}

fn emit_is_f64(body: &mut Vec<Instr>, local: u32)
    ensures
        final(body)@ == old(body)@ + is_f64(local),
{
    reveal(is_f64);
    emit(
        body,
        [
            Instr::LocalGet(local),
            Instr::I64Const(BOX_MARK),
            Instr::Bin(Binop::I64And),
            Instr::I64Const(BOX_MARK),
            Instr::Rel(Relop::I64Ne),
        ],
    );
}

/// Pushes whether the word in `local` is a boxed int or a double.
#[verifier::opaque]
pub open spec fn is_numeric(local: u32) -> Seq<Instr> {
    is_f64(local) + is_int(local) + seq![Instr::Bin(Binop::I32Or)]
}

fn emit_is_numeric(body: &mut Vec<Instr>, local: u32)
    ensures
        final(body)@ == old(body)@ + is_numeric(local),
{
    reveal(is_numeric);
    emit_is_f64(body, local);
    emit_is_int(body, local);
    emit(body, [Instr::Bin(Binop::I32Or)]);
}

/// Pushes the numeric word in `local` as a double.
#[verifier::opaque]
pub open spec fn numval(local: u32) -> Seq<Instr> {
    seq![
        Instr::LocalGet(local),
        Instr::Cvt(Cvtop::F64ReinterpretI64),
        Instr::LocalGet(local),
        Instr::Cvt(Cvtop::I32WrapI64),
        Instr::Cvt(Cvtop::F64ConvertI32S),
    ] + is_f64(local) + seq![Instr::Select]
}

fn emit_numval(body: &mut Vec<Instr>, local: u32)
    ensures
        final(body)@ == old(body)@ + numval(local),
{
    reveal(numval);
    emit(
        body,
        [
            Instr::LocalGet(local),
            Instr::Cvt(Cvtop::F64ReinterpretI64),
            Instr::LocalGet(local),
            Instr::Cvt(Cvtop::I32WrapI64),
            Instr::Cvt(Cvtop::F64ConvertI32S),
        ],
    );
    emit_is_f64(body, local);
    emit(body, [Instr::Select]);
}

/// boxed value -> `0` or `1`: inline for booleans and ints, by helper otherwise.
#[verifier::opaque]
pub open spec fn to_boolean_i32() -> Seq<Instr> {
    seq![
        Instr::LocalSet(SCRATCH64),
        Instr::LocalGet(SCRATCH64),
        Instr::I64Const(VALUE_TAG_MASK),
        Instr::Bin(Binop::I64And),
        Instr::I64Const(VALUE_BOOL_MARK),
        Instr::Rel(Relop::I64Eq),
        Instr::If(BlockTy::I32),
        Instr::LocalGet(SCRATCH64),
        Instr::Cvt(Cvtop::I32WrapI64),
        Instr::I32Const(1),
        Instr::Bin(Binop::I32And),
        Instr::Else,
    ] + is_int(SCRATCH64) + seq![
        Instr::If(BlockTy::I32),
        Instr::LocalGet(SCRATCH64),
        Instr::Cvt(Cvtop::I32WrapI64),
        Instr::I32Const(0),
        Instr::Rel(Relop::I32Ne),
        Instr::Else,
        Instr::LocalGet(SCRATCH64),
        Instr::Call(TO_BOOLEAN),
        Instr::Cvt(Cvtop::I32WrapI64),
        Instr::End,
        Instr::End,
    ]
}

pub fn emit_to_boolean_i32(body: &mut Vec<Instr>)
    ensures
        final(body)@ == old(body)@ + to_boolean_i32(),
{
    reveal(to_boolean_i32);
    emit(
        body,
        [
            Instr::LocalSet(SCRATCH64),
            Instr::LocalGet(SCRATCH64),
            Instr::I64Const(VALUE_TAG_MASK),
            Instr::Bin(Binop::I64And),
            Instr::I64Const(VALUE_BOOL_MARK),
            Instr::Rel(Relop::I64Eq),
            Instr::If(BlockTy::I32),
            Instr::LocalGet(SCRATCH64),
            Instr::Cvt(Cvtop::I32WrapI64),
            Instr::I32Const(1),
            Instr::Bin(Binop::I32And),
            Instr::Else,
        ],
    );
    emit_is_int(body, SCRATCH64);
    emit(
        body,
        [
            Instr::If(BlockTy::I32),
            Instr::LocalGet(SCRATCH64),
            Instr::Cvt(Cvtop::I32WrapI64),
            Instr::I32Const(0),
            Instr::Rel(Relop::I32Ne),
            Instr::Else,
            Instr::LocalGet(SCRATCH64),
            Instr::Call(TO_BOOLEAN),
            Instr::Cvt(Cvtop::I32WrapI64),
            Instr::End,
            Instr::End,
        ],
    );
}

/// Returns `undefined` from the method if an error is pending.
#[verifier::opaque]
pub open spec fn perr_bail(perr_index: u32) -> Seq<Instr> {
    seq![
        Instr::Call(perr_index),
        Instr::If(BlockTy::Empty),
        Instr::I64Const(UNDEFINED_BITS),
        Instr::Return,
        Instr::End,
    ]
}

pub fn emit_perr_bail(body: &mut Vec<Instr>, perr_index: u32)
    ensures
        final(body)@ == old(body)@ + perr_bail(perr_index),
{
    reveal(perr_bail);
    emit(
        body,
        [
            Instr::Call(perr_index),
            Instr::If(BlockTy::Empty),
            Instr::I64Const(UNDEFINED_BITS),
            Instr::Return,
            Instr::End,
        ],
    );
}

/// [`perr_bail`] where the op checks for itself, nothing otherwise.
pub open spec fn own_bail(lay: Layout) -> Seq<Instr> {
    if lay.inline_perr {
        perr_bail(lay.perr_index)
    } else {
        Seq::empty()
    }
}

fn emit_own_bail(body: &mut Vec<Instr>, lay: &Layout)
    ensures
        final(body)@ == old(body)@ + own_bail(*lay),
{
    if lay.inline_perr {
        emit_perr_bail(body, lay.perr_index);
    }
}

/// Two boxed operands into the scratch locals, the lower one into the second.
pub open spec fn stash2() -> Seq<Instr> {
    seq![Instr::LocalSet(SCRATCH64), Instr::LocalSet(SCRATCH64_2)]
}

/// Both stashed operands by a binary helper.
pub open spec fn fallback2(lay: Layout, index: u32) -> Seq<Instr> {
    seq![
        Instr::LocalGet(SCRATCH64_2),
        Instr::LocalGet(SCRATCH64),
        Instr::Call((lay.t_base + index) as u32),
    ]
}

/// The float comparison of an index.
pub open spec fn relation(index: u32) -> Relop {
    if index == 0 {
        Relop::F64Eq
    } else if index == 1 {
        Relop::F64Lt
    } else if index == 2 {
        Relop::F64Le
    } else if index == 3 {
        Relop::F64Gt
    } else {
        Relop::F64Ge
    }
}

fn relation_of(index: u32) -> (r: Relop)
    ensures
        r == relation(index),
{
    match index {
        0 => Relop::F64Eq,
        1 => Relop::F64Lt,
        2 => Relop::F64Le,
        3 => Relop::F64Gt,
        _ => Relop::F64Ge,
    }
}

/// [`JitOp::CmpNum`].
#[verifier::opaque]
pub open spec fn compare_code(lay: Layout, index: u32) -> Seq<Instr> {
    stash2() + is_numeric(SCRATCH64_2) + is_numeric(SCRATCH64) + seq![
        Instr::Bin(Binop::I32And),
        Instr::If(BlockTy::I64),
    ] + numval(SCRATCH64_2) + numval(SCRATCH64) + seq![
        Instr::Rel(relation(index)),
        Instr::Cvt(Cvtop::I64ExtendI32U),
        Instr::I64Const(VALUE_BOOL_MARK),
        Instr::Bin(Binop::I64Or),
        Instr::Else,
    ] + fallback2(lay, index) + seq![Instr::End]
}

fn emit_compare(body: &mut Vec<Instr>, lay: &Layout, index: u32)
    requires
        lay.t_base + index <= u32::MAX,
    ensures
        final(body)@ == old(body)@ + compare_code(*lay, index),
{
    reveal(compare_code);
    emit(body, [Instr::LocalSet(SCRATCH64), Instr::LocalSet(SCRATCH64_2)]);
    emit_is_numeric(body, SCRATCH64_2);
    emit_is_numeric(body, SCRATCH64);
    emit(body, [Instr::Bin(Binop::I32And), Instr::If(BlockTy::I64)]);
    emit_numval(body, SCRATCH64_2);
    emit_numval(body, SCRATCH64);
    emit(
        body,
        [
            Instr::Rel(relation_of(index)),
            Instr::Cvt(Cvtop::I64ExtendI32U),
            Instr::I64Const(VALUE_BOOL_MARK),
            Instr::Bin(Binop::I64Or),
            Instr::Else,
        ],
    );
    emit(
        body,
        [
            Instr::LocalGet(SCRATCH64_2),
            Instr::LocalGet(SCRATCH64),
            Instr::Call(lay.t_base + index),
        ],
    );
    emit(body, [Instr::End]);
}

/// The bitwise operation of an index.
pub open spec fn bit_operation(index: u32) -> Binop {
    if index == 5 {
        Binop::I32And
    } else if index == 6 {
        Binop::I32Or
    } else if index == 7 {
        Binop::I32Xor
    } else if index == 8 {
        Binop::I32Shl
    } else if index == 10 {
        Binop::I32ShrU
    } else {
        Binop::I32ShrS
    }
}

fn bit_operation_of(index: u32) -> (r: Binop)
    ensures
        r == bit_operation(index),
{
    match index {
        5 => Binop::I32And,
        6 => Binop::I32Or,
        7 => Binop::I32Xor,
        8 => Binop::I32Shl,
        10 => Binop::I32ShrU,
        _ => Binop::I32ShrS,
    }
}

/// Shifts use the low five bits of the count.
pub open spec fn shift_mask(index: u32) -> Seq<Instr> {
    if index == 8 || index == 9 || index == 10 {
        seq![Instr::I32Const(0x1F), Instr::Bin(Binop::I32And)]
    } else {
        Seq::empty()
    }
}

/// int -> boxed int, or, for the unsigned shift, uint -> boxed int or double.
pub open spec fn box_bits(index: u32) -> Seq<Instr> {
    if index == 10 {
        seq![
            Instr::LocalTee(SCRATCH),
            Instr::I32Const(0),
            Instr::Rel(Relop::I32GeS),
            Instr::If(BlockTy::I64),
            Instr::LocalGet(SCRATCH),
        ] + box_int() + seq![
            Instr::Else,
            Instr::LocalGet(SCRATCH),
            Instr::Cvt(Cvtop::F64ConvertI32U),
            Instr::Cvt(Cvtop::I64ReinterpretF64),
            Instr::End,
        ]
    } else {
        box_int()
    }
}

fn emit_box_bits(body: &mut Vec<Instr>, index: u32)
    ensures
        final(body)@ == old(body)@ + box_bits(index),
{
    if index == 10 {
        emit(
            body,
            [
                Instr::LocalTee(SCRATCH),
                Instr::I32Const(0),
                Instr::Rel(Relop::I32GeS),
                Instr::If(BlockTy::I64),
                Instr::LocalGet(SCRATCH),
            ],
        );
        emit_box_int(body);
        emit(
            body,
            [
                Instr::Else,
                Instr::LocalGet(SCRATCH),
                Instr::Cvt(Cvtop::F64ConvertI32U),
                Instr::Cvt(Cvtop::I64ReinterpretF64),
                Instr::End,
            ],
        );
    } else {
        emit_box_int(body);
    }
}

/// [`JitOp::BitOpInt`].
#[verifier::opaque]
pub open spec fn bit_code(lay: Layout, index: u32) -> Seq<Instr> {
    stash2() + is_int(SCRATCH64_2) + is_int(SCRATCH64) + seq![
        Instr::Bin(Binop::I32And),
        Instr::If(BlockTy::I64),
        Instr::LocalGet(SCRATCH64_2),
        Instr::Cvt(Cvtop::I32WrapI64),
        Instr::LocalGet(SCRATCH64),
        Instr::Cvt(Cvtop::I32WrapI64),
    ] + shift_mask(index) + seq![Instr::Bin(bit_operation(index))] + box_bits(index) + seq![
        Instr::Else,
    ] + fallback2(lay, index) + seq![Instr::End]
}

fn emit_bit(body: &mut Vec<Instr>, lay: &Layout, index: u32)
    requires
        lay.t_base + index <= u32::MAX,
    ensures
        final(body)@ == old(body)@ + bit_code(*lay, index),
{
    reveal(bit_code);
    emit(body, [Instr::LocalSet(SCRATCH64), Instr::LocalSet(SCRATCH64_2)]);
    emit_is_int(body, SCRATCH64_2);
    emit_is_int(body, SCRATCH64);
    emit(
        body,
        [
            Instr::Bin(Binop::I32And),
            Instr::If(BlockTy::I64),
            Instr::LocalGet(SCRATCH64_2),
            Instr::Cvt(Cvtop::I32WrapI64),
            Instr::LocalGet(SCRATCH64),
            Instr::Cvt(Cvtop::I32WrapI64),
        ],
    );
    if matches!(index, 8 | 9 | 10) {
        emit(body, [Instr::I32Const(0x1F), Instr::Bin(Binop::I32And)]);
    }
    emit(body, [Instr::Bin(bit_operation_of(index))]);
    emit_box_bits(body, index);
    emit(body, [Instr::Else]);
    emit(
        body,
        [
            Instr::LocalGet(SCRATCH64_2),
            Instr::LocalGet(SCRATCH64),
            Instr::Call(lay.t_base + index),
        ],
    );
    emit(body, [Instr::End]);
}

/// The operation of an index on 64-bit ints.
pub open spec fn int_operation(index: u32) -> Binop {
    if index == 11 {
        Binop::I64Mul
    } else if index == 18 {
        Binop::I64Add
    } else {
        Binop::I64Sub
    }
}

/// The operation of an index on doubles.
pub open spec fn double_operation(index: u32) -> Binop {
    if index == 11 {
        Binop::F64Mul
    } else if index == 18 {
        Binop::F64Add
    } else {
        Binop::F64Sub
    }
}

fn operations_of(index: u32) -> (r: (Binop, Binop))
    ensures
        r == (int_operation(index), double_operation(index)),
{
    match index {
        11 => (Binop::I64Mul, Binop::F64Mul),
        18 => (Binop::I64Add, Binop::F64Add),
        _ => (Binop::I64Sub, Binop::F64Sub),
    }
}

/// Both stashed ints: the exact result as an int if it fits, as a double otherwise.
#[verifier::opaque]
pub open spec fn int_arith(index: u32) -> Seq<Instr> {
    seq![
        Instr::LocalGet(SCRATCH64_2),
        Instr::Cvt(Cvtop::I32WrapI64),
        Instr::Cvt(Cvtop::I64ExtendI32S),
        Instr::LocalGet(SCRATCH64),
        Instr::Cvt(Cvtop::I32WrapI64),
        Instr::Cvt(Cvtop::I64ExtendI32S),
        Instr::Bin(int_operation(index)),
        Instr::LocalSet(SCRATCH64_2),
        Instr::LocalGet(SCRATCH64_2),
        Instr::LocalGet(SCRATCH64_2),
        Instr::Cvt(Cvtop::I64Extend32S),
        Instr::Rel(Relop::I64Eq),
        Instr::If(BlockTy::I64),
        Instr::LocalGet(SCRATCH64_2),
        Instr::Cvt(Cvtop::I32WrapI64),
    ] + box_int() + seq![
        Instr::Else,
        Instr::LocalGet(SCRATCH64_2),
        Instr::Cvt(Cvtop::F64ConvertI64S),
        Instr::Cvt(Cvtop::I64ReinterpretF64),
        Instr::End,
    ]
}

fn emit_int_arith(body: &mut Vec<Instr>, index: u32)
    ensures
        final(body)@ == old(body)@ + int_arith(index),
{
    reveal(int_arith);
    let (int_op, _) = operations_of(index);
    emit(
        body,
        [
            Instr::LocalGet(SCRATCH64_2),
            Instr::Cvt(Cvtop::I32WrapI64),
            Instr::Cvt(Cvtop::I64ExtendI32S),
            Instr::LocalGet(SCRATCH64),
            Instr::Cvt(Cvtop::I32WrapI64),
            Instr::Cvt(Cvtop::I64ExtendI32S),
            Instr::Bin(int_op),
            Instr::LocalSet(SCRATCH64_2),
            Instr::LocalGet(SCRATCH64_2),
            Instr::LocalGet(SCRATCH64_2),
            Instr::Cvt(Cvtop::I64Extend32S),
            Instr::Rel(Relop::I64Eq),
            Instr::If(BlockTy::I64),
            Instr::LocalGet(SCRATCH64_2),
            Instr::Cvt(Cvtop::I32WrapI64),
        ],
    );
    emit_box_int(body);
    emit(
        body,
        [
            Instr::Else,
            Instr::LocalGet(SCRATCH64_2),
            Instr::Cvt(Cvtop::F64ConvertI64S),
            Instr::Cvt(Cvtop::I64ReinterpretF64),
            Instr::End,
        ],
    );
}

/// Both stashed operands as doubles if they are numbers, by binary helper otherwise.
#[verifier::opaque]
pub open spec fn double_arith(lay: Layout, index: u32, op: Binop) -> Seq<Instr> {
    is_numeric(SCRATCH64_2) + is_numeric(SCRATCH64) + seq![
        Instr::Bin(Binop::I32And),
        Instr::If(BlockTy::I64),
    ] + numval(SCRATCH64_2) + numval(SCRATCH64) + seq![Instr::Bin(op)] + box_double() + seq![
        Instr::Else,
    ] + fallback2(lay, index) + seq![Instr::End]
}

fn emit_double_arith(body: &mut Vec<Instr>, lay: &Layout, index: u32, op: Binop)
    requires
        lay.t_base + index <= u32::MAX,
    ensures
        final(body)@ == old(body)@ + double_arith(*lay, index, op),
{
    reveal(double_arith);
    emit_is_numeric(body, SCRATCH64_2);
    emit_is_numeric(body, SCRATCH64);
    emit(body, [Instr::Bin(Binop::I32And), Instr::If(BlockTy::I64)]);
    emit_numval(body, SCRATCH64_2);
    emit_numval(body, SCRATCH64);
    emit(body, [Instr::Bin(op)]);
    emit_box_double(body);
    emit(body, [Instr::Else]);
    emit(
        body,
        [
            Instr::LocalGet(SCRATCH64_2),
            Instr::LocalGet(SCRATCH64),
            Instr::Call(lay.t_base + index),
        ],
    );
    emit(body, [Instr::End]);
}

/// [`JitOp::ArithInt`].
#[verifier::opaque]
pub open spec fn arith_int_code(lay: Layout, index: u32) -> Seq<Instr> {
    stash2() + is_int(SCRATCH64_2) + is_int(SCRATCH64) + seq![
        Instr::Bin(Binop::I32And),
        Instr::If(BlockTy::I64),
    ] + int_arith(index) + seq![Instr::Else] + double_arith(lay, index, double_operation(index))
        + seq![Instr::End]
}

fn emit_arith_int(body: &mut Vec<Instr>, lay: &Layout, index: u32)
    requires
        lay.t_base + index <= u32::MAX,
    ensures
        final(body)@ == old(body)@ + arith_int_code(*lay, index),
{
    reveal(arith_int_code);
    let (_, double_op) = operations_of(index);
    emit(body, [Instr::LocalSet(SCRATCH64), Instr::LocalSet(SCRATCH64_2)]);
    emit_is_int(body, SCRATCH64_2);
    emit_is_int(body, SCRATCH64);
    emit(body, [Instr::Bin(Binop::I32And), Instr::If(BlockTy::I64)]);
    emit_int_arith(body, index);
    emit(body, [Instr::Else]);
    emit_double_arith(body, lay, index, double_op);
    emit(body, [Instr::End]);
}

/// [`JitOp::ArithNum`] for division.
#[verifier::opaque]
pub open spec fn divide_code(lay: Layout, index: u32) -> Seq<Instr> {
    stash2() + double_arith(lay, index, Binop::F64Div)
}

fn emit_divide(body: &mut Vec<Instr>, lay: &Layout, index: u32)
    requires
        lay.t_base + index <= u32::MAX,
    ensures
        final(body)@ == old(body)@ + divide_code(*lay, index),
{
    reveal(divide_code);
    emit(body, [Instr::LocalSet(SCRATCH64), Instr::LocalSet(SCRATCH64_2)]);
    emit_double_arith(body, lay, index, Binop::F64Div);
}

/// For `ToUint32`, an int is its own image only if it is not negative.
pub open spec fn sign_check(signed: bool) -> Seq<Instr> {
    if signed {
        Seq::empty()
    } else {
        seq![
            Instr::LocalGet(SCRATCH64),
            Instr::Cvt(Cvtop::I32WrapI64),
            Instr::I32Const(0),
            Instr::Rel(Relop::I32GeS),
            Instr::Bin(Binop::I32And),
        ]
    }
}

/// [`JitOp::CoerceInt`].
#[verifier::opaque]
pub open spec fn coerce_int_code(signed: bool) -> Seq<Instr> {
    seq![Instr::LocalSet(SCRATCH64)] + is_int(SCRATCH64) + sign_check(signed) + seq![
        Instr::If(BlockTy::I64),
        Instr::LocalGet(SCRATCH64),
        Instr::Else,
        Instr::LocalGet(SCRATCH64),
        Instr::Call(manifest::coerce_helper(signed)),
        Instr::End,
    ]
}

fn emit_coerce_int(body: &mut Vec<Instr>, signed: bool)
    ensures
        final(body)@ == old(body)@ + coerce_int_code(signed),
{
    reveal(coerce_int_code);
    emit(body, [Instr::LocalSet(SCRATCH64)]);
    emit_is_int(body, SCRATCH64);
    if !signed {
        emit(
            body,
            [
                Instr::LocalGet(SCRATCH64),
                Instr::Cvt(Cvtop::I32WrapI64),
                Instr::I32Const(0),
                Instr::Rel(Relop::I32GeS),
                Instr::Bin(Binop::I32And),
            ],
        );
    }
    let helper: u32 = if signed {
        COERCE_I
    } else {
        COERCE_U
    };
    emit(
        body,
        [
            Instr::If(BlockTy::I64),
            Instr::LocalGet(SCRATCH64),
            Instr::Else,
            Instr::LocalGet(SCRATCH64),
            Instr::Call(helper),
            Instr::End,
        ],
    );
}

/// In-place `+1` or `-1` of a boxed int local.
#[verifier::opaque]
pub open spec fn step_local(i: u32, inc: bool) -> Seq<Instr> {
    seq![
        Instr::LocalGet(STATE_PTR),
        Instr::LocalGet(STATE_PTR),
        Instr::Access(Memop::I64Load, slot_of(i)),
        Instr::Cvt(Cvtop::I32WrapI64),
        Instr::I32Const(1),
        Instr::Bin(
            if inc {
                Binop::I32Add
            } else {
                Binop::I32Sub
            },
        ),
        Instr::Cvt(Cvtop::I64ExtendI32U),
        Instr::I64Const(VALUE_INT_MARK),
        Instr::Bin(Binop::I64Or),
        Instr::Access(Memop::I64Store, slot_of(i)),
    ]
}

fn emit_step_local(body: &mut Vec<Instr>, i: u32, inc: bool)
    ensures
        final(body)@ == old(body)@ + step_local(i, inc),
{
    reveal(step_local);
    let op = if inc {
        Binop::I32Add
    } else {
        Binop::I32Sub
    };
    emit(
        body,
        [
            Instr::LocalGet(STATE_PTR),
            Instr::LocalGet(STATE_PTR),
            Instr::Access(Memop::I64Load, slot(i)),
            Instr::Cvt(Cvtop::I32WrapI64),
            Instr::I32Const(1),
            Instr::Bin(op),
            Instr::Cvt(Cvtop::I64ExtendI32U),
            Instr::I64Const(VALUE_INT_MARK),
            Instr::Bin(Binop::I64Or),
            Instr::Access(Memop::I64Store, slot(i)),
        ],
    );
}

/// The stashed receiver's slot by helper.
pub open spec fn slot_fallback(lay: Layout, id: u32) -> Seq<Instr> {
    seq![
        Instr::LocalGet(SCRATCH64),
        Instr::I64Const(id as u64),
        Instr::Call(lay.gs_index),
    ] + own_bail(lay)
}

fn emit_slot_fallback(body: &mut Vec<Instr>, lay: &Layout, id: u32)
    ensures
        final(body)@ == old(body)@ + slot_fallback(*lay, id),
{
    emit(
        body,
        [Instr::LocalGet(SCRATCH64), Instr::I64Const(id as u64), Instr::Call(lay.gs_index)],
    );
    emit_own_bail(body, lay);
}

/// [`JitOp::GetSlot`] where objects can be reached: an object with enough slots is read
/// directly.
#[verifier::opaque]
pub open spec fn slot_inline_code(lay: Layout, id: u32, at: SlotLayout) -> Seq<Instr> {
    seq![
        Instr::LocalSet(SCRATCH64),
        Instr::LocalGet(SCRATCH64),
        Instr::I64Const(48),
        Instr::Bin(Binop::I64ShrU),
        Instr::I64Const(VALUE_OBJECT_TAG16),
        Instr::Rel(Relop::I64Eq),
        Instr::If(BlockTy::I64),
        Instr::LocalGet(SCRATCH64),
        Instr::Cvt(Cvtop::I32WrapI64),
        Instr::LocalSet(SCRATCH),
        Instr::LocalGet(SCRATCH),
        Instr::Access(Memop::I32Load, field(at.len_off as u64, Align::Four)),
        Instr::I32Const(id as i32),
        Instr::Rel(Relop::I32GtU),
        Instr::If(BlockTy::I64),
        Instr::LocalGet(SCRATCH),
        Instr::Access(Memop::I32Load, field(at.ptr_off as u64, Align::Four)),
        Instr::Access(Memop::I64Load, field((id * 8) as u64, Align::Eight)),
        Instr::Else,
    ] + slot_fallback(lay, id) + seq![Instr::End, Instr::Else] + slot_fallback(lay, id) + seq![
        Instr::End,
    ]
}

fn emit_slot_inline(body: &mut Vec<Instr>, lay: &Layout, id: u32, at: SlotLayout)
    ensures
        final(body)@ == old(body)@ + slot_inline_code(*lay, id, at),
{
    reveal(slot_inline_code);
    emit(
        body,
        [
            Instr::LocalSet(SCRATCH64),
            Instr::LocalGet(SCRATCH64),
            Instr::I64Const(48),
            Instr::Bin(Binop::I64ShrU),
            Instr::I64Const(VALUE_OBJECT_TAG16),
            Instr::Rel(Relop::I64Eq),
            Instr::If(BlockTy::I64),
            Instr::LocalGet(SCRATCH64),
            Instr::Cvt(Cvtop::I32WrapI64),
            Instr::LocalSet(SCRATCH),
            Instr::LocalGet(SCRATCH),
            Instr::Access(Memop::I32Load, field_at(at.len_off as u64, Align::Four)),
            Instr::I32Const(id as i32),
            Instr::Rel(Relop::I32GtU),
            Instr::If(BlockTy::I64),
            Instr::LocalGet(SCRATCH),
            Instr::Access(Memop::I32Load, field_at(at.ptr_off as u64, Align::Four)),
            Instr::Access(Memop::I64Load, field_at(id as u64 * 8, Align::Eight)),
            Instr::Else,
        ],
    );
    emit_slot_fallback(body, lay, id);
    emit(body, [Instr::End, Instr::Else]);
    emit_slot_fallback(body, lay, id);
    emit(body, [Instr::End]);
}

/// [`JitOp::GetSlot`] by helper.
pub open spec fn slot_helper_code(lay: Layout, id: u32) -> Seq<Instr> {
    seq![Instr::I64Const(id as u64), Instr::Call(lay.gs_index)] + own_bail(lay)
}

/// Pushes whether `width` bytes at the address in the scratch local are inside domain
/// memory: there is one, and address plus width, without wrapping, is at most its capacity.
#[verifier::opaque]
pub open spec fn dm_check(width: u32) -> Seq<Instr> {
    seq![
        Instr::LocalGet(DM_BASE),
        Instr::I32Const(0),
        Instr::Rel(Relop::I32Ne),
        Instr::LocalGet(SCRATCH),
        Instr::Cvt(Cvtop::I64ExtendI32U),
        Instr::I64Const(width as u64),
        Instr::Bin(Binop::I64Add),
        Instr::LocalGet(DM_BASE),
        Instr::Access(Memop::I32Load, field(4, Align::Four)),
        Instr::Cvt(Cvtop::I64ExtendI32U),
        Instr::Rel(Relop::I64LeU),
        Instr::Bin(Binop::I32And),
    ]
}

fn emit_dm_check(body: &mut Vec<Instr>, width: u32)
    ensures
        final(body)@ == old(body)@ + dm_check(width),
{
    reveal(dm_check);
    emit(
        body,
        [
            Instr::LocalGet(DM_BASE),
            Instr::I32Const(0),
            Instr::Rel(Relop::I32Ne),
            Instr::LocalGet(SCRATCH),
            Instr::Cvt(Cvtop::I64ExtendI32U),
            Instr::I64Const(width as u64),
            Instr::Bin(Binop::I64Add),
            Instr::LocalGet(DM_BASE),
            Instr::Access(Memop::I32Load, field_at(4, Align::Four)),
            Instr::Cvt(Cvtop::I64ExtendI32U),
            Instr::Rel(Relop::I64LeU),
            Instr::Bin(Binop::I32And),
        ],
    );
}

/// Pushes the address, in the second memory, of the byte at the scratch address.
#[verifier::opaque]
pub open spec fn dm_address() -> Seq<Instr> {
    seq![
        Instr::LocalGet(DM_BASE),
        Instr::Access(Memop::I32Load, field(0, Align::Four)),
        Instr::LocalGet(SCRATCH),
        Instr::Bin(Binop::I32Add),
    ]
}

fn emit_dm_address(body: &mut Vec<Instr>)
    ensures
        final(body)@ == old(body)@ + dm_address(),
{
    reveal(dm_address);
    emit(
        body,
        [
            Instr::LocalGet(DM_BASE),
            Instr::Access(Memop::I32Load, field_at(0, Align::Four)),
            Instr::LocalGet(SCRATCH),
            Instr::Bin(Binop::I32Add),
        ],
    );
}

/// The load of `width` bytes, zero-extended.
pub open spec fn load_of(width: u32) -> Memop {
    if width == 1 {
        Memop::I32Load8U
    } else if width == 2 {
        Memop::I32Load16U
    } else {
        Memop::I32Load
    }
}

/// The store of the low `width` bytes.
pub open spec fn store_of(width: u32) -> Memop {
    if width == 1 {
        Memop::I32Store8
    } else if width == 2 {
        Memop::I32Store16
    } else {
        Memop::I32Store
    }
}

fn width_ops(width: u32) -> (r: (Memop, Memop, u32))
    ensures
        r == (load_of(width), store_of(width), manifest::dm_load_helper(width)),
{
    match width {
        1 => (Memop::I32Load8U, Memop::I32Store8, DM_LOAD8),
        2 => (Memop::I32Load16U, Memop::I32Store16, DM_LOAD16),
        _ => (Memop::I32Load, Memop::I32Store, DM_LOAD32),
    }
}

/// [`JitOp::DmLoad`].
#[verifier::opaque]
pub open spec fn dm_load_code(width: u32) -> Seq<Instr> {
    seq![Instr::Cvt(Cvtop::I32WrapI64), Instr::LocalSet(SCRATCH)] + dm_check(width) + seq![
        Instr::If(BlockTy::I64),
    ] + dm_address() + seq![Instr::Access(load_of(width), field(0, Align::One))] + box_int() + seq![
        Instr::Else,
        Instr::LocalGet(SCRATCH),
    ] + box_int() + seq![Instr::Call(manifest::dm_load_helper(width)), Instr::End]
}

fn emit_dm_load(body: &mut Vec<Instr>, width: u32)
    ensures
        final(body)@ == old(body)@ + dm_load_code(width),
{
    reveal(dm_load_code);
    let (load, _, helper) = width_ops(width);
    emit(body, [Instr::Cvt(Cvtop::I32WrapI64), Instr::LocalSet(SCRATCH)]);
    emit_dm_check(body, width);
    emit(body, [Instr::If(BlockTy::I64)]);
    emit_dm_address(body);
    emit(body, [Instr::Access(load, field_at(0, Align::One))]);
    emit_box_int(body);
    emit(body, [Instr::Else, Instr::LocalGet(SCRATCH)]);
    emit_box_int(body);
    emit(body, [Instr::Call(helper), Instr::End]);
}

/// [`JitOp::DmStore`].
#[verifier::opaque]
pub open spec fn dm_store_code(lay: Layout, width: u32) -> Seq<Instr> {
    seq![
        Instr::Cvt(Cvtop::I32WrapI64),
        Instr::LocalSet(SCRATCH),
        Instr::Cvt(Cvtop::I32WrapI64),
        Instr::LocalSet(SCRATCH2),
    ] + dm_check(width) + seq![Instr::If(BlockTy::Empty)] + dm_address() + seq![
        Instr::LocalGet(SCRATCH2),
        Instr::Access(store_of(width), field(0, Align::One)),
        Instr::Else,
        Instr::LocalGet(SCRATCH2),
    ] + box_int() + seq![Instr::LocalGet(SCRATCH)] + box_int() + seq![
        Instr::I64Const(width as u64),
        Instr::Call(lay.set3_index@[DM_STORE_KIND as int]),
        Instr::Drop,
        Instr::End,
    ]
}

fn emit_dm_store(body: &mut Vec<Instr>, lay: &Layout, width: u32)
    ensures
        final(body)@ == old(body)@ + dm_store_code(*lay, width),
{
    reveal(dm_store_code);
    let (_, store, _) = width_ops(width);
    emit(
        body,
        [
            Instr::Cvt(Cvtop::I32WrapI64),
            Instr::LocalSet(SCRATCH),
            Instr::Cvt(Cvtop::I32WrapI64),
            Instr::LocalSet(SCRATCH2),
        ],
    );
    emit_dm_check(body, width);
    emit(body, [Instr::If(BlockTy::Empty)]);
    emit_dm_address(body);
    emit(
        body,
        [
            Instr::LocalGet(SCRATCH2),
            Instr::Access(store, field_at(0, Align::One)),
            Instr::Else,
            Instr::LocalGet(SCRATCH2),
        ],
    );
    emit_box_int(body);
    emit(body, [Instr::LocalGet(SCRATCH)]);
    emit_box_int(body);
    emit(
        body,
        [
            Instr::I64Const(width as u64),
            Instr::Call(lay.set3_index[DM_STORE_KIND as usize]),
            Instr::Drop,
            Instr::End,
        ],
    );
}

/// The float load of `width` bytes, as a double.
pub open spec fn float_load(width: u32) -> Seq<Instr> {
    if width == 4 {
        seq![Instr::Access(Memop::F32Load, field(0, Align::One)), Instr::Cvt(Cvtop::F64PromoteF32)]
    } else {
        seq![Instr::Access(Memop::F64Load, field(0, Align::One))]
    }
}

/// The store of a double in `width` bytes.
pub open spec fn float_store(width: u32) -> Seq<Instr> {
    if width == 4 {
        seq![Instr::Cvt(Cvtop::F32DemoteF64), Instr::Access(Memop::F32Store, field(0, Align::One))]
    } else {
        seq![Instr::Access(Memop::F64Store, field(0, Align::One))]
    }
}

/// [`JitOp::DmLoadF`].
#[verifier::opaque]
pub open spec fn dm_load_f_code(width: u32) -> Seq<Instr> {
    seq![Instr::Cvt(Cvtop::I32WrapI64), Instr::LocalSet(SCRATCH)] + dm_check(width) + seq![
        Instr::If(BlockTy::I64),
    ] + dm_address() + float_load(width) + box_double() + seq![
        Instr::Else,
        Instr::LocalGet(SCRATCH),
    ] + box_int() + seq![Instr::Call(manifest::dm_load_f_helper(width)), Instr::End]
}

fn emit_dm_load_f(body: &mut Vec<Instr>, width: u32)
    ensures
        final(body)@ == old(body)@ + dm_load_f_code(width),
{
    reveal(dm_load_f_code);
    emit(body, [Instr::Cvt(Cvtop::I32WrapI64), Instr::LocalSet(SCRATCH)]);
    emit_dm_check(body, width);
    emit(body, [Instr::If(BlockTy::I64)]);
    emit_dm_address(body);
    let helper: u32 = if width == 4 {
        emit(
            body,
            [
                Instr::Access(Memop::F32Load, field_at(0, Align::One)),
                Instr::Cvt(Cvtop::F64PromoteF32),
            ],
        );
        DM_LOADF32
    } else {
        emit(body, [Instr::Access(Memop::F64Load, field_at(0, Align::One))]);
        DM_LOADF64
    };
    emit_box_double(body);
    emit(body, [Instr::Else, Instr::LocalGet(SCRATCH)]);
    emit_box_int(body);
    emit(body, [Instr::Call(helper), Instr::End]);
}

/// [`JitOp::DmStoreF`].
#[verifier::opaque]
pub open spec fn dm_store_f_code(lay: Layout, width: u32) -> Seq<Instr> {
    seq![
        Instr::Cvt(Cvtop::I32WrapI64),
        Instr::LocalSet(SCRATCH),
        Instr::LocalSet(SCRATCH64),
    ] + dm_check(width) + seq![Instr::If(BlockTy::Empty)] + dm_address() + numval(SCRATCH64)
        + float_store(width) + seq![
        Instr::Else,
        Instr::LocalGet(SCRATCH64),
        Instr::LocalGet(SCRATCH),
    ] + box_int() + seq![
        Instr::I64Const(width as u64),
        Instr::Call(lay.set3_index@[DM_STORE_F_KIND as int]),
        Instr::Drop,
        Instr::End,
    ]
}

fn emit_dm_store_f(body: &mut Vec<Instr>, lay: &Layout, width: u32)
    ensures
        final(body)@ == old(body)@ + dm_store_f_code(*lay, width),
{
    reveal(dm_store_f_code);
    emit(
        body,
        [Instr::Cvt(Cvtop::I32WrapI64), Instr::LocalSet(SCRATCH), Instr::LocalSet(SCRATCH64)],
    );
    emit_dm_check(body, width);
    emit(body, [Instr::If(BlockTy::Empty)]);
    emit_dm_address(body);
    emit_numval(body, SCRATCH64);
    if width == 4 {
        emit(
            body,
            [
                Instr::Cvt(Cvtop::F32DemoteF64),
                Instr::Access(Memop::F32Store, field_at(0, Align::One)),
            ],
        );
    } else {
        emit(body, [Instr::Access(Memop::F64Store, field_at(0, Align::One))]);
    }
    emit(body, [Instr::Else, Instr::LocalGet(SCRATCH64), Instr::LocalGet(SCRATCH)]);
    emit_box_int(body);
    emit(
        body,
        [
            Instr::I64Const(width as u64),
            Instr::Call(lay.set3_index[DM_STORE_F_KIND as usize]),
            Instr::Drop,
            Instr::End,
        ],
    );
}

/// `Drop` unless the result is kept.
pub open spec fn drop_unless(push: bool) -> Seq<Instr> {
    if push {
        Seq::empty()
    } else {
        seq![Instr::Drop]
    }
}

/// A call with `argc` spilled arguments: spill them, push the immediates, call.
#[verifier::opaque]
pub open spec fn call_code(lay: Layout, argc: u32, imms: Seq<Instr>, f: u32, push: bool) -> Seq<
    Instr,
> {
    wasm::repeated(argc as nat, Instr::Call(lay.pca_index)) + imms + seq![Instr::Call(f)]
        + drop_unless(push) + own_bail(lay)
}

fn emit_call<const N: usize>(
    body: &mut Vec<Instr>,
    lay: &Layout,
    argc: u32,
    imms: [Instr; N],
    f: u32,
    push: bool,
)
    ensures
        final(body)@ == old(body)@ + call_code(*lay, argc, imms@, f, push),
{
    reveal(call_code);
    emit_repeated(body, argc, Instr::Call(lay.pca_index));
    emit(body, imms);
    emit(body, [Instr::Call(f)]);
    if !push {
        emit(body, [Instr::Drop]);
    }
    emit_own_bail(body, lay);
}

/// The immediates of [`JitOp::VCall`], after a `0` for a missing receiver.
pub open spec fn vcall_imms(kind: u32, imm: u32, spill: u32) -> Seq<Instr> {
    if vc::takes_receiver(kind) {
        seq![
            Instr::I64Const(imm as u64),
            Instr::I64Const(spill as u64),
            Instr::I64Const(kind as u64),
        ]
    } else {
        seq![
            Instr::I64Const(0),
            Instr::I64Const(imm as u64),
            Instr::I64Const(spill as u64),
            Instr::I64Const(kind as u64),
        ]
    }
}

fn emit_vcall(body: &mut Vec<Instr>, lay: &Layout, kind: u32, imm: u32, spill: u32, push: bool)
    ensures
        final(body)@ == old(body)@ + call_code(
            *lay,
            spill,
            vcall_imms(kind, imm, spill),
            lay.vc_index,
            push,
        ),
{
    if vc::has_receiver(kind) {
        let imms = [
            Instr::I64Const(imm as u64),
            Instr::I64Const(spill as u64),
            Instr::I64Const(kind as u64),
        ];
        assert(imms@ =~= vcall_imms(kind, imm, spill));
        emit_call(body, lay, spill, imms, lay.vc_index, push);
    } else {
        let imms = [
            Instr::I64Const(0),
            Instr::I64Const(imm as u64),
            Instr::I64Const(spill as u64),
            Instr::I64Const(kind as u64),
        ];
        assert(imms@ =~= vcall_imms(kind, imm, spill));
        emit_call(body, lay, spill, imms, lay.vc_index, push);
    }
}

/// Pops a word into a local, under the stash.
pub open spec fn set_word(i: u32) -> Seq<Instr> {
    seq![
        Instr::LocalSet(SCRATCH64),
        Instr::LocalGet(STATE_PTR),
        Instr::LocalGet(SCRATCH64),
        Instr::Access(Memop::I64Store, slot_of(i)),
    ]
}

/// Two boxed ints -> boxed int.
pub open spec fn boxed_int_op(op: Binop) -> Seq<Instr> {
    seq![
        Instr::Cvt(Cvtop::I32WrapI64),
        Instr::LocalSet(SCRATCH),
        Instr::Cvt(Cvtop::I32WrapI64),
        Instr::LocalGet(SCRATCH),
        Instr::Bin(op),
    ] + box_int()
}

/// The code of a word pushed by a unary helper from an immediate.
pub open spec fn by_index(k: u32, helper: u32) -> Seq<Instr> {
    seq![Instr::I64Const(k as u64), Instr::Call(helper)]
}

/// The boxed int of `v`.
pub open spec fn int_word(v: i32) -> u64 {
    VALUE_INT_MARK | (v as u32 as u64)
}

/// The code of the int model's ops.
pub open spec fn int_op_code(op: JitOp) -> Option<Seq<Instr>> {
    match op {
        JitOp::GetLocal(i) => Some(
            seq![
                Instr::LocalGet(STATE_PTR),
                Instr::Access(Memop::I64Load, slot_of(i)),
                Instr::Cvt(Cvtop::I32WrapI64),
            ],
        ),
        JitOp::SetLocal(i) => Some(
            seq![
                Instr::LocalSet(SCRATCH),
                Instr::LocalGet(STATE_PTR),
                Instr::LocalGet(SCRATCH),
                Instr::Cvt(Cvtop::I64ExtendI32U),
                Instr::I64Const(VALUE_INT_MARK),
                Instr::Bin(Binop::I64Or),
                Instr::Access(Memop::I64Store, slot_of(i)),
            ],
        ),
        JitOp::PushInt(v) => Some(seq![Instr::I32Const(v)]),
        JitOp::AddI => Some(seq![Instr::Bin(Binop::I32Add)]),
        JitOp::SubtractI => Some(seq![Instr::Bin(Binop::I32Sub)]),
        JitOp::MultiplyI => Some(seq![Instr::Bin(Binop::I32Mul)]),
        JitOp::LessThan => Some(seq![Instr::Rel(Relop::I32LtS)]),
        JitOp::LessEquals => Some(seq![Instr::Rel(Relop::I32LeS)]),
        JitOp::GreaterThan => Some(seq![Instr::Rel(Relop::I32GtS)]),
        JitOp::GreaterEquals => Some(seq![Instr::Rel(Relop::I32GeS)]),
        JitOp::Equals => Some(seq![Instr::Rel(Relop::I32Eq)]),
        JitOp::IncrementI => Some(seq![Instr::I32Const(1), Instr::Bin(Binop::I32Add)]),
        JitOp::DecrementI => Some(seq![Instr::I32Const(1), Instr::Bin(Binop::I32Sub)]),
        JitOp::IncLocalI(i) => Some(step_local(i, true)),
        JitOp::DecLocalI(i) => Some(step_local(i, false)),
        JitOp::Pop => Some(seq![Instr::Drop]),
        JitOp::Dup => Some(seq![Instr::LocalTee(SCRATCH), Instr::LocalGet(SCRATCH)]),
        JitOp::Nop => Some(Seq::empty()),
        _ => None,
    }
}

/// The code of the double model's ops.
pub open spec fn double_op_code(op: JitOp) -> Option<Seq<Instr>> {
    match op {
        JitOp::GetLocalDouble(i) => Some(
            seq![
                Instr::LocalGet(STATE_PTR),
                Instr::Access(Memop::I64Load, slot_of(i)),
                Instr::Cvt(Cvtop::F64ReinterpretI64),
            ],
        ),
        JitOp::SetLocalDouble(i) => Some(box_double() + set_word(i)),
        JitOp::StoreLocalDouble(i) => Some(
            seq![Instr::LocalTee(SCRATCH_F64), Instr::LocalGet(STATE_PTR)] + box_scratch_f64()
                + seq![Instr::Access(Memop::I64Store, slot_of(i))],
        ),
        JitOp::PushDouble(bits) => Some(seq![Instr::F64Const(bits)]),
        JitOp::AddD => Some(seq![Instr::Bin(Binop::F64Add)]),
        JitOp::SubtractD => Some(seq![Instr::Bin(Binop::F64Sub)]),
        JitOp::MultiplyD => Some(seq![Instr::Bin(Binop::F64Mul)]),
        JitOp::DivideD => Some(seq![Instr::Bin(Binop::F64Div)]),
        JitOp::IncrementD => Some(seq![Instr::F64Const(ONE_BITS), Instr::Bin(Binop::F64Add)]),
        JitOp::DecrementD => Some(seq![Instr::F64Const(ONE_BITS), Instr::Bin(Binop::F64Sub)]),
        JitOp::NegateD => Some(seq![Instr::Cvt(Cvtop::F64Neg)]),
        _ => None,
    }
}

/// The bits of the double `1.0`.
pub const ONE_BITS: u64 = 0x3FF0_0000_0000_0000;

/// The code of the boxed model's ops that move words about or compute on them.
pub open spec fn word_op_code(op: JitOp, lay: Layout) -> Option<Seq<Instr>> {
    match op {
        JitOp::GetLocalValue(i) => Some(
            seq![Instr::LocalGet(STATE_PTR), Instr::Access(Memop::I64Load, slot_of(i))],
        ),
        JitOp::SetLocalValue(i) => Some(set_word(i)),
        JitOp::StoreLocalValue(i) => Some(
            seq![
                Instr::LocalTee(SCRATCH64),
                Instr::LocalGet(STATE_PTR),
                Instr::LocalGet(SCRATCH64),
                Instr::Access(Memop::I64Store, slot_of(i)),
            ],
        ),
        JitOp::CmpNum(index) => Some(compare_code(lay, index)),
        JitOp::BitOpInt(index) => Some(bit_code(lay, index)),
        JitOp::ArithInt(index) => Some(arith_int_code(lay, index)),
        JitOp::ArithNum(index) => if index == 13 {
            Some(divide_code(lay, index))
        } else {
            None
        },
        JitOp::CoerceInt(signed) => Some(coerce_int_code(signed)),
        JitOp::CoerceBool => Some(
            to_boolean_i32() + seq![
                Instr::Cvt(Cvtop::I64ExtendI32U),
                Instr::I64Const(VALUE_BOOL_MARK),
                Instr::Bin(Binop::I64Or),
            ],
        ),
        JitOp::SwapValue => Some(
            stash2() + seq![Instr::LocalGet(SCRATCH64), Instr::LocalGet(SCRATCH64_2)],
        ),
        JitOp::DupValue => Some(seq![Instr::LocalTee(SCRATCH64), Instr::LocalGet(SCRATCH64)]),
        JitOp::AddIBoxed => Some(boxed_int_op(Binop::I32Add)),
        JitOp::SubtractIBoxed => Some(boxed_int_op(Binop::I32Sub)),
        JitOp::MultiplyIBoxed => Some(boxed_int_op(Binop::I32Mul)),
        JitOp::IncrementIBoxed => Some(
            seq![
                Instr::Cvt(Cvtop::I32WrapI64),
                Instr::I32Const(1),
                Instr::Bin(Binop::I32Add),
            ] + box_int(),
        ),
        JitOp::DecrementIBoxed => Some(
            seq![
                Instr::Cvt(Cvtop::I32WrapI64),
                Instr::I32Const(1),
                Instr::Bin(Binop::I32Sub),
            ] + box_int(),
        ),
        JitOp::IncDecLocalIValue(i, inc) => Some(step_local(i, inc)),
        JitOp::IncDecLocalNum(i, inc) => Some(
            seq![
                Instr::LocalGet(STATE_PTR),
                Instr::LocalGet(STATE_PTR),
                Instr::Access(Memop::I64Load, slot_of(i)),
                Instr::Call(
                    if inc {
                        INCREMENT
                    } else {
                        DECREMENT
                    },
                ),
                Instr::Access(Memop::I64Store, slot_of(i)),
            ],
        ),
        JitOp::PushIntValue(v) => Some(seq![Instr::I64Const(int_word(v))]),
        JitOp::PushConst(bits) => Some(seq![Instr::I64Const(bits)]),
        JitOp::PushBits(bits) => Some(seq![Instr::I64Const(bits)]),
        JitOp::DmLoad(width) => Some(dm_load_code(width)),
        JitOp::DmStore(width) => Some(dm_store_code(lay, width)),
        JitOp::DmLoadF(width) => Some(dm_load_f_code(width)),
        JitOp::DmStoreF(width) => Some(dm_store_f_code(lay, width)),
        _ => None,
    }
}

/// The code of the boxed model's ops that call out.
pub open spec fn helper_op_code(op: JitOp, lay: Layout, target: Target) -> Option<Seq<Instr>> {
    match op {
        JitOp::CallHelper(index) => Some(seq![Instr::Call(index)]),
        JitOp::CallHelper2(index) => Some(seq![Instr::Call((lay.t_base + index) as u32)]),
        JitOp::CallHelper3(helper, imm) => Some(
            seq![
                Instr::I64Const(imm as u64),
                Instr::Call(lay.set3_index@[helper as int]),
                Instr::Drop,
            ],
        ),
        JitOp::PushScopeReal => Some(seq![Instr::Call(PUSH_SCOPE), Instr::Drop]),
        JitOp::PopScopeReal => Some(seq![Instr::I64Const(0), Instr::Call(POP_SCOPE), Instr::Drop]),
        JitOp::GetScopeObject(index) => Some(by_index(index, GET_SCOPE_OBJECT)),
        JitOp::GetOuterScope(index) => Some(by_index(index, GET_OUTER_SCOPE)),
        JitOp::GetScriptGlobals(k) => Some(by_index(k, GET_SCRIPT_GLOBALS)),
        JitOp::PushString(k) => Some(by_index(k, GET_PUSH_STRING)),
        JitOp::NewCatch(index) => Some(by_index(index, NEW_CATCH)),
        JitOp::CoerceString => Some(seq![Instr::Call(COERCE_S)]),
        JitOp::Coerce(k) => Some(by_index(k, lay.coerce_index)),
        JitOp::GetProperty(k) => Some(by_index(k, lay.gp_index)),
        JitOp::GetPropertyIc(k, _) => Some(by_index(k, lay.gp_index)),
        JitOp::GetPropertyFast(k, _) => Some(by_index(k, lay.gpf_index)),
        JitOp::GetSlot(id, _) => match target.slots {
            Some(at) => Some(slot_inline_code(lay, id, at)),
            None => Some(slot_helper_code(lay, id)),
        },
        JitOp::CallMethod(id, argc, push) => Some(
            call_code(
                lay,
                argc,
                seq![Instr::I64Const(id as u64), Instr::I64Const(argc as u64)],
                lay.call_index,
                push,
            ),
        ),
        JitOp::CallMethodDirect(id, argc, push, _) => Some(
            call_code(
                lay,
                argc,
                seq![Instr::I64Const(id as u64), Instr::I64Const(argc as u64)],
                lay.call_index,
                push,
            ),
        ),
        JitOp::CallProperty(k, argc, push) => Some(
            call_code(
                lay,
                argc,
                seq![Instr::I64Const(k as u64), Instr::I64Const(argc as u64)],
                lay.callprop_index,
                push,
            ),
        ),
        JitOp::ConstructSuper(argc) => Some(
            call_code(lay, argc, seq![Instr::I64Const(argc as u64)], lay.csup_index, false),
        ),
        JitOp::CallValue(argc) => Some(
            call_code(lay, argc, seq![Instr::I64Const(argc as u64)], lay.callv_index, true),
        ),
        JitOp::VCall(kind, imm, spill, push) => Some(
            call_code(lay, spill, vcall_imms(kind, imm, spill), lay.vc_index, push),
        ),
        _ => None,
    }
}

/// The code of `op`; `None` if it has none of its own here.
pub open spec fn op_code(op: JitOp, lay: Layout, target: Target) -> Option<Seq<Instr>> {
    match int_op_code(op) {
        Some(code) => Some(code),
        None => match double_op_code(op) {
            Some(code) => Some(code),
            None => match word_op_code(op, lay) {
                Some(code) => Some(code),
                None => helper_op_code(op, lay, target),
            },
        },
    }
}

/// What appending the code of an op means: its code, or nothing and `false`.
pub open spec fn appended(
    before: Seq<Instr>,
    after: Seq<Instr>,
    code: Option<Seq<Instr>>,
    done: bool,
) -> bool {
    match code {
        Some(c) => done && after =~= before + c,
        None => !done && after =~= before,
    }
}

/// The index of a binary helper that `op` may call fits behind the base.
pub open spec fn fits(op: JitOp, lay: Layout) -> bool {
    lay.t_base + manifest::helper2_need(op) <= u32::MAX
}

fn emit_int_op(body: &mut Vec<Instr>, op: JitOp) -> (done: bool)
    ensures
        appended(old(body)@, final(body)@, int_op_code(op), done),
{
    match op {
        JitOp::GetLocal(i) => emit(
            body,
            [
                Instr::LocalGet(STATE_PTR),
                Instr::Access(Memop::I64Load, slot(i)),
                Instr::Cvt(Cvtop::I32WrapI64),
            ],
        ),
        JitOp::SetLocal(i) => emit(
            body,
            [
                Instr::LocalSet(SCRATCH),
                Instr::LocalGet(STATE_PTR),
                Instr::LocalGet(SCRATCH),
                Instr::Cvt(Cvtop::I64ExtendI32U),
                Instr::I64Const(VALUE_INT_MARK),
                Instr::Bin(Binop::I64Or),
                Instr::Access(Memop::I64Store, slot(i)),
            ],
        ),
        JitOp::PushInt(v) => emit(body, [Instr::I32Const(v)]),
        JitOp::AddI => emit(body, [Instr::Bin(Binop::I32Add)]),
        JitOp::SubtractI => emit(body, [Instr::Bin(Binop::I32Sub)]),
        JitOp::MultiplyI => emit(body, [Instr::Bin(Binop::I32Mul)]),
        JitOp::LessThan => emit(body, [Instr::Rel(Relop::I32LtS)]),
        JitOp::LessEquals => emit(body, [Instr::Rel(Relop::I32LeS)]),
        JitOp::GreaterThan => emit(body, [Instr::Rel(Relop::I32GtS)]),
        JitOp::GreaterEquals => emit(body, [Instr::Rel(Relop::I32GeS)]),
        JitOp::Equals => emit(body, [Instr::Rel(Relop::I32Eq)]),
        JitOp::IncrementI => emit(body, [Instr::I32Const(1), Instr::Bin(Binop::I32Add)]),
        JitOp::DecrementI => emit(body, [Instr::I32Const(1), Instr::Bin(Binop::I32Sub)]),
        JitOp::IncLocalI(i) => emit_step_local(body, i, true),
        JitOp::DecLocalI(i) => emit_step_local(body, i, false),
        JitOp::Pop => emit(body, [Instr::Drop]),
        JitOp::Dup => emit(body, [Instr::LocalTee(SCRATCH), Instr::LocalGet(SCRATCH)]),
        JitOp::Nop => {},
        _ => {
            return false;
        },
    }
    true
}

fn emit_double_op(body: &mut Vec<Instr>, op: JitOp) -> (done: bool)
    ensures
        appended(old(body)@, final(body)@, double_op_code(op), done),
{
    match op {
        JitOp::GetLocalDouble(i) => emit(
            body,
            [
                Instr::LocalGet(STATE_PTR),
                Instr::Access(Memop::I64Load, slot(i)),
                Instr::Cvt(Cvtop::F64ReinterpretI64),
            ],
        ),
        JitOp::SetLocalDouble(i) => {
            emit_box_double(body);
            emit_set_word(body, i);
        },
        JitOp::StoreLocalDouble(i) => {
            emit(body, [Instr::LocalTee(SCRATCH_F64), Instr::LocalGet(STATE_PTR)]);
            emit_box_scratch_f64(body);
            emit(body, [Instr::Access(Memop::I64Store, slot(i))]);
        },
        JitOp::PushDouble(bits) => emit(body, [Instr::F64Const(bits)]),
        JitOp::AddD => emit(body, [Instr::Bin(Binop::F64Add)]),
        JitOp::SubtractD => emit(body, [Instr::Bin(Binop::F64Sub)]),
        JitOp::MultiplyD => emit(body, [Instr::Bin(Binop::F64Mul)]),
        JitOp::DivideD => emit(body, [Instr::Bin(Binop::F64Div)]),
        JitOp::IncrementD => emit(body, [Instr::F64Const(ONE_BITS), Instr::Bin(Binop::F64Add)]),
        JitOp::DecrementD => emit(body, [Instr::F64Const(ONE_BITS), Instr::Bin(Binop::F64Sub)]),
        JitOp::NegateD => emit(body, [Instr::Cvt(Cvtop::F64Neg)]),
        _ => {
            return false;
        },
    }
    true
}

fn emit_set_word(body: &mut Vec<Instr>, i: u32)
    ensures
        final(body)@ == old(body)@ + set_word(i),
{
    emit(
        body,
        [
            Instr::LocalSet(SCRATCH64),
            Instr::LocalGet(STATE_PTR),
            Instr::LocalGet(SCRATCH64),
            Instr::Access(Memop::I64Store, slot(i)),
        ],
    );
}

fn emit_boxed_int_op(body: &mut Vec<Instr>, op: Binop)
    ensures
        final(body)@ == old(body)@ + boxed_int_op(op),
{
    emit(
        body,
        [
            Instr::Cvt(Cvtop::I32WrapI64),
            Instr::LocalSet(SCRATCH),
            Instr::Cvt(Cvtop::I32WrapI64),
            Instr::LocalGet(SCRATCH),
            Instr::Bin(op),
        ],
    );
    emit_box_int(body);
}

/// The boxed int of `v`.
pub fn box_int_word(v: i32) -> (r: u64)
    ensures
        r == int_word(v),
{
    VALUE_INT_MARK | (v as u32 as u64)
}

fn emit_word_op(body: &mut Vec<Instr>, op: JitOp, lay: &Layout) -> (done: bool)
    requires
        fits(op, *lay),
    ensures
        appended(old(body)@, final(body)@, word_op_code(op, *lay), done),
{
    match op {
        JitOp::GetLocalValue(i) => emit(
            body,
            [Instr::LocalGet(STATE_PTR), Instr::Access(Memop::I64Load, slot(i))],
        ),
        JitOp::SetLocalValue(i) => emit_set_word(body, i),
        JitOp::StoreLocalValue(i) => emit(
            body,
            [
                Instr::LocalTee(SCRATCH64),
                Instr::LocalGet(STATE_PTR),
                Instr::LocalGet(SCRATCH64),
                Instr::Access(Memop::I64Store, slot(i)),
            ],
        ),
        JitOp::CmpNum(index) => emit_compare(body, lay, index),
        JitOp::BitOpInt(index) => emit_bit(body, lay, index),
        JitOp::ArithInt(index) => emit_arith_int(body, lay, index),
        JitOp::ArithNum(index) => {
            if index != 13 {
                return false;
            }
            emit_divide(body, lay, index);
        },
        JitOp::CoerceInt(signed) => emit_coerce_int(body, signed),
        JitOp::CoerceBool => {
            emit_to_boolean_i32(body);
            emit(
                body,
                [
                    Instr::Cvt(Cvtop::I64ExtendI32U),
                    Instr::I64Const(VALUE_BOOL_MARK),
                    Instr::Bin(Binop::I64Or),
                ],
            );
        },
        JitOp::SwapValue => emit(
            body,
            [
                Instr::LocalSet(SCRATCH64),
                Instr::LocalSet(SCRATCH64_2),
                Instr::LocalGet(SCRATCH64),
                Instr::LocalGet(SCRATCH64_2),
            ],
        ),
        JitOp::DupValue => emit(body, [Instr::LocalTee(SCRATCH64), Instr::LocalGet(SCRATCH64)]),
        JitOp::AddIBoxed => emit_boxed_int_op(body, Binop::I32Add),
        JitOp::SubtractIBoxed => emit_boxed_int_op(body, Binop::I32Sub),
        JitOp::MultiplyIBoxed => emit_boxed_int_op(body, Binop::I32Mul),
        JitOp::IncrementIBoxed => {
            emit(
                body,
                [
                    Instr::Cvt(Cvtop::I32WrapI64),
                    Instr::I32Const(1),
                    Instr::Bin(Binop::I32Add),
                ],
            );
            emit_box_int(body);
        },
        JitOp::DecrementIBoxed => {
            emit(
                body,
                [
                    Instr::Cvt(Cvtop::I32WrapI64),
                    Instr::I32Const(1),
                    Instr::Bin(Binop::I32Sub),
                ],
            );
            emit_box_int(body);
        },
        JitOp::IncDecLocalIValue(i, inc) => emit_step_local(body, i, inc),
        JitOp::IncDecLocalNum(i, inc) => {
            let helper: u32 = if inc {
                INCREMENT
            } else {
                DECREMENT
            };
            emit(
                body,
                [
                    Instr::LocalGet(STATE_PTR),
                    Instr::LocalGet(STATE_PTR),
                    Instr::Access(Memop::I64Load, slot(i)),
                    Instr::Call(helper),
                    Instr::Access(Memop::I64Store, slot(i)),
                ],
            );
        },
        JitOp::PushIntValue(v) => emit(body, [Instr::I64Const(box_int_word(v))]),
        JitOp::PushConst(bits) => emit(body, [Instr::I64Const(bits)]),
        JitOp::PushBits(bits) => emit(body, [Instr::I64Const(bits)]),
        JitOp::DmLoad(width) => emit_dm_load(body, width),
        JitOp::DmStore(width) => emit_dm_store(body, lay, width),
        JitOp::DmLoadF(width) => emit_dm_load_f(body, width),
        JitOp::DmStoreF(width) => emit_dm_store_f(body, lay, width),
        _ => {
            return false;
        },
    }
    true
}

fn emit_by_index(body: &mut Vec<Instr>, k: u32, helper: u32)
    ensures
        final(body)@ == old(body)@ + by_index(k, helper),
{
    emit(body, [Instr::I64Const(k as u64), Instr::Call(helper)]);
}

fn emit_method_call(body: &mut Vec<Instr>, lay: &Layout, id: u32, argc: u32, f: u32, push: bool)
    ensures
        final(body)@ == old(body)@ + call_code(
            *lay,
            argc,
            seq![Instr::I64Const(id as u64), Instr::I64Const(argc as u64)],
            f,
            push,
        ),
{
    let imms = [Instr::I64Const(id as u64), Instr::I64Const(argc as u64)];
    assert(imms@ =~= seq![Instr::I64Const(id as u64), Instr::I64Const(argc as u64)]);
    emit_call(body, lay, argc, imms, f, push);
}

fn emit_counted_call(body: &mut Vec<Instr>, lay: &Layout, argc: u32, f: u32, push: bool)
    ensures
        final(body)@ == old(body)@ + call_code(
            *lay,
            argc,
            seq![Instr::I64Const(argc as u64)],
            f,
            push,
        ),
{
    let imms = [Instr::I64Const(argc as u64)];
    assert(imms@ =~= seq![Instr::I64Const(argc as u64)]);
    emit_call(body, lay, argc, imms, f, push);
}

fn emit_helper_op(body: &mut Vec<Instr>, op: JitOp, lay: &Layout, target: &Target) -> (done: bool)
    requires
        fits(op, *lay),
        manifest::in_range(op),
    ensures
        appended(old(body)@, final(body)@, helper_op_code(op, *lay, *target), done),
{
    match op {
        JitOp::CallHelper(index) => emit(body, [Instr::Call(index)]),
        JitOp::CallHelper2(index) => emit(body, [Instr::Call(lay.t_base + index)]),
        JitOp::CallHelper3(helper, imm) => emit(
            body,
            [
                Instr::I64Const(imm as u64),
                Instr::Call(lay.set3_index[helper as usize]),
                Instr::Drop,
            ],
        ),
        JitOp::PushScopeReal => emit(body, [Instr::Call(PUSH_SCOPE), Instr::Drop]),
        JitOp::PopScopeReal => emit(
            body,
            [Instr::I64Const(0), Instr::Call(POP_SCOPE), Instr::Drop],
        ),
        JitOp::GetScopeObject(index) => emit_by_index(body, index, GET_SCOPE_OBJECT),
        JitOp::GetOuterScope(index) => emit_by_index(body, index, GET_OUTER_SCOPE),
        JitOp::GetScriptGlobals(k) => emit_by_index(body, k, GET_SCRIPT_GLOBALS),
        JitOp::PushString(k) => emit_by_index(body, k, GET_PUSH_STRING),
        JitOp::NewCatch(index) => emit_by_index(body, index, NEW_CATCH),
        JitOp::CoerceString => emit(body, [Instr::Call(COERCE_S)]),
        JitOp::Coerce(k) => emit_by_index(body, k, lay.coerce_index),
        JitOp::GetProperty(k) | JitOp::GetPropertyIc(k, _) => emit_by_index(body, k, lay.gp_index),
        JitOp::GetPropertyFast(k, _) => emit_by_index(body, k, lay.gpf_index),
        JitOp::GetSlot(id, _) => match target.slots {
            Some(at) => emit_slot_inline(body, lay, id, at),
            None => {
                emit(body, [Instr::I64Const(id as u64), Instr::Call(lay.gs_index)]);
                emit_own_bail(body, lay);
            },
        },
        JitOp::CallMethod(id, argc, push) | JitOp::CallMethodDirect(id, argc, push, _) => {
            emit_method_call(body, lay, id, argc, lay.call_index, push)
        },
        JitOp::CallProperty(k, argc, push) => {
            emit_method_call(body, lay, k, argc, lay.callprop_index, push)
        },
        JitOp::ConstructSuper(argc) => emit_counted_call(body, lay, argc, lay.csup_index, false),
        JitOp::CallValue(argc) => emit_counted_call(body, lay, argc, lay.callv_index, true),
        JitOp::VCall(kind, imm, spill, push) => emit_vcall(body, lay, kind, imm, spill, push),
        _ => {
            return false;
        },
    }
    true
}

/// The effect of lowering one op at operand-stack height `depth`: its code, and the height
/// after it. `None` if the op has no code or would find too few operands.
pub open spec fn linear(op: JitOp, depth: nat, lay: Layout, target: Target) -> Option<
    (Seq<Instr>, nat),
> {
    let (pop, push) = typed::arity(op);
    if depth < pop {
        None
    } else {
        match op_code(op, lay, target) {
            Some(code) => Some((code, (depth - pop + push) as nat)),
            None => None,
        }
    }
}

/// The op has no code: of the numeric operations on any operands, division alone has.
pub open spec fn has_no_code(op: JitOp) -> bool {
    op is FindProp || op is HasNext2 || (op matches JitOp::ArithNum(index) && index != 13)
}

/// Lowering refuses the ops that end a block, those without code, and those that would find too
/// few operands, and no others. The height moves by what the op takes and gives.
pub proof fn lowering_refuses_nothing_else(op: JitOp, depth: nat, lay: Layout, target: Target)
    ensures
        linear(op, depth, lay, target) is None <==> op::ends_block(op) || has_no_code(op) || depth
            < typed::arity(op).0,
        linear(op, depth, lay, target) matches Some((_, after)) ==> after == depth - typed::arity(
            op,
        ).0 + typed::arity(op).1,
{
}

/// Lowers an op that neither branches nor returns. Gives the operand-stack height after it,
/// or `None`, with nothing emitted, if the op is not such an op or underflows the stack.
pub fn emit_linear(
    body: &mut Vec<Instr>,
    op: JitOp,
    depth: usize,
    lay: &Layout,
    target: &Target,
) -> (r: Option<usize>)
    requires
        fits(op, *lay),
        manifest::in_range(op),
        depth < usize::MAX,
    ensures
        match linear(op, depth as nat, *lay, *target) {
            Some((code, after)) => r == Some(after as usize) && after <= usize::MAX
                && final(body)@ == old(body)@ + code,
            None => r is None && final(body)@ == old(body)@,
        },
{
    let (pop, push) = typed::stack_arity(&op);
    if depth < pop as usize {
        return None;
    }
    if emit_int_op(body, op) || emit_double_op(body, op) || emit_word_op(body, op, lay)
        || emit_helper_op(body, op, lay, target) {
        proof {
            lemma_arity_small(op);
        }
        Some(depth - pop as usize + push as usize)
    } else {
        None
    }
}

pub proof fn lemma_arity_small(op: JitOp)
    ensures
        typed::arity(op).1 <= typed::arity(op).0 + 1,
{
}

} // verus!
