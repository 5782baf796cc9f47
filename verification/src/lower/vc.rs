//! The kinds of [`JitOp::VCall`](crate::lower::JitOp::VCall): the operations that share the
//! one variadic import `vc(a, imm, spill, kind)`. Operands beyond `a` are spilled one by
//! one before the call. Every kind may throw.

use vstd::prelude::*;

verus! {

/// `a` = receiver, `imm` = slot id, `spill` = argument count.
pub const CONSTRUCT_SLOT: u32 = 0;

/// `a` = constructor value, `spill` = argument count.
pub const CONSTRUCT: u32 = 1;

/// `a` = source, `imm` = multiname index, `spill` = argument count.
pub const CONSTRUCT_PROP: u32 = 2;

/// `a` = receiver, `imm` = multiname index, `spill` = argument count.
pub const CALL_SUPER: u32 = 3;

/// `a` = receiver, `imm` = native-table index, `spill` = argument count.
pub const CALL_NATIVE: u32 = 4;

/// `a` = generic class, `spill` = number of type arguments.
pub const APPLY_TYPE: u32 = 5;

/// No receiver, `spill` = number of elements.
pub const NEW_ARRAY: u32 = 6;

/// No receiver, `spill` = twice the number of name/value pairs.
pub const NEW_OBJECT: u32 = 7;

/// `a` = receiver, `imm` = multiname index.
pub const GET_SUPER: u32 = 8;

/// `a` = receiver, `imm` = multiname index, `spill` = 1 (the value); no result.
pub const SET_SUPER: u32 = 9;

/// `a` = receiver, `imm` = multiname index.
pub const DELETE_PROPERTY: u32 = 10;

/// `a` = object, `spill` = 1 (the index).
pub const NEXT_VALUE: u32 = 11;

/// `a` = name value, `spill` = 1 (the object).
pub const IN: u32 = 12;

/// `a` = receiver, `imm` = multiname index, `spill` = 1 (the value); no result.
pub const SET_PROP_STATIC: u32 = 13;

/// `a` = receiver, `imm` = multiname template index, `spill` = 2 (name, value); no result.
pub const SET_PROP_FAST: u32 = 14;

/// `a` = base class value, `imm` = class-table index.
pub const NEW_CLASS: u32 = 15;

/// No receiver, `imm` = class-table index.
pub const NEW_ACTIVATION: u32 = 16;

/// `a` = value.
pub const TYPE_OF: u32 = 17;

/// No receiver, `imm` = namespace-table index.
pub const PUSH_NAMESPACE: u32 = 18;

/// `a` = value; `ToNumber`.
pub const COERCE_D: u32 = 19;

/// `a` = value; `ToString`.
pub const CONVERT_S: u32 = 20;

/// `imm` = class-table index of the erased method; captures the scope chain.
pub const NEW_FUNCTION: u32 = 21;

/// The kinds that pop no operand as `a`; the emitted code passes `0` for it.
pub open spec fn takes_receiver(kind: u32) -> bool {
    kind != NEW_ARRAY && kind != NEW_OBJECT && kind != NEW_ACTIVATION && kind != PUSH_NAMESPACE
        && kind != NEW_FUNCTION
}

/// Whether `kind` pops a real operand as `a`.
pub fn has_receiver(kind: u32) -> (r: bool)
    ensures
        r == takes_receiver(kind),
{
    !matches!(kind, NEW_ARRAY | NEW_OBJECT | NEW_ACTIVATION | PUSH_NAMESPACE | NEW_FUNCTION)
}

} // verus!
