//! From verified method code to [`JitOp`]s.
//!
//! [`Op`] is the part of a verified op that matters here, as plain values: constants by their
//! value words, classes, methods, scripts and names by the words that stand for them. Branch
//! offsets are op indices on both sides, and every op becomes one op, so they carry over.
//!
//! There are three ways. [`translate`] works on raw ints and [`translate_double`] on raw
//! doubles; both are right only where the analysis says so. [`translate_boxed`] works on boxed
//! values and leaves to helpers what it does not do itself.

use crate::lower::op;
use crate::lower::op::{JitOp, SwitchTable};
use crate::lower::vc;
use crate::lower::wasm;
use crate::lower::wasm::{
    Target, UNDEFINED_BITS, VALUE_BOOL_MARK, VALUE_INT_MARK,
};
use vstd::prelude::*;

verus! {

/// A name that a property is found by. A lazy one takes a part of itself from the operand
/// stack.
#[derive(Debug, Clone, Copy, PartialEq, Eq, Structural)]
pub struct Multiname {
    pub id: u64,
    pub lazy: bool,
}

/// What a declared return type is.
#[derive(Debug, Clone, Copy, PartialEq, Eq, Structural)]
pub enum ClassKind {
    Void,
    Int,
    Uint,
    Number,
    Boolean,
    Other,
}

/// An op of a verified method.
#[derive(Debug, PartialEq, Eq)]
pub enum Op {
    AddI,
    SubtractI,
    MultiplyI,
    IncrementI,
    DecrementI,
    LessThan,
    LessEquals,
    GreaterThan,
    GreaterEquals,
    Equals,
    Pop,
    PushScope,
    PopScope,
    PushWith,
    Dup,
    Swap,
    Nop,
    Debug,
    DebugFile,
    DebugLine,
    CoerceI,
    CoerceU,
    CoerceB,
    CoerceS,
    CoerceD,
    ConvertS,
    Increment,
    Decrement,
    Negate,
    BitNot,
    Not,
    Add,
    Subtract,
    Multiply,
    Divide,
    Modulo,
    BitAnd,
    BitOr,
    BitXor,
    LShift,
    RShift,
    URShift,
    StrictEquals,
    AsTypeLate,
    IsTypeLate,
    Sxi1,
    Sxi8,
    Sxi16,
    Li8,
    Li16,
    Li32,
    Si8,
    Si16,
    Si32,
    Lf32,
    Lf64,
    Sf32,
    Sf64,
    PushTrue,
    PushFalse,
    PushUndefined,
    Throw,
    NextValue,
    In,
    TypeOf,
    GetPropertySlow,
    SetPropertySlow,
    CheckFilter,
    GetLocal { index: u32 },
    SetLocal { index: u32 },
    StoreLocal { index: u32 },
    IncLocalI { index: u32 },
    DecLocalI { index: u32 },
    IncLocal { index: u32 },
    DecLocal { index: u32 },
    Kill { index: u32 },
    GetSlot { index: u32 },
    SetSlot { index: u32 },
    SetSlotNoCoerce { index: u32 },
    SetSlotCoerceI { index: u32 },
    GetScopeObject { index: u32 },
    GetOuterScope { index: u32 },
    NewCatch { index: u32 },
    PushInt { value: i32 },
    /// The value word of the constant.
    PushUint { bits: u64 },
    /// The double's own bits, and its value word.
    PushDouble { double: u64, bits: u64 },
    /// The value word of `null`.
    PushNull { bits: u64 },
    /// The value word of the string.
    PushString { bits: u64 },
    PushNamespace { namespace: u64 },
    GetScriptGlobals { script: u64 },
    Jump { offset: usize },
    IfTrue { offset: usize },
    IfFalse { offset: usize },
    LookupSwitch(SwitchTable),
    ReturnValue { return_type: Option<ClassKind> },
    /// The declared return type, and the value word of `null`.
    ReturnVoid { return_type: Option<ClassKind>, null_bits: u64 },
    HasNext2 { object_register: u32, index_register: u32 },
    GetPropertyStatic { multiname: Multiname },
    GetPropertyFast { multiname: Multiname },
    FindPropStrict { multiname: Multiname },
    FindProperty { multiname: Multiname },
    GetSuper { multiname: Multiname },
    SetSuper { multiname: Multiname },
    DeleteProperty { multiname: Multiname },
    SetPropertyStatic { multiname: Multiname },
    SetPropertyFast { multiname: Multiname },
    CallProperty { multiname: Multiname, num_args: u32 },
    CallPropVoid { multiname: Multiname, num_args: u32 },
    ConstructProp { multiname: Multiname, num_args: u32 },
    CallSuper { multiname: Multiname, num_args: u32 },
    ConstructSuper { num_args: u32 },
    Call { num_args: u32 },
    Construct { num_args: u32 },
    NewArray { num_args: u32 },
    NewObject { num_args: u32 },
    ConstructSlot { index: u32, num_args: u32 },
    ApplyType { num_types: u32 },
    CallMethod { index: u32, num_args: u32, push_return_value: bool },
    CallNative { native: u64, num_args: u32, push_return_value: bool },
    Coerce { class: u64 },
    NewClass { class: u64 },
    NewActivation { activation_class: u64 },
    NewFunction { method: u64 },
    /// Any other op, by its name.
    Other { name: String },
}

/// The name of an op.
pub open spec fn variant_name(op: Op) -> Seq<char> {
    match op {
        Op::AddI => "AddI"@,
        Op::SubtractI => "SubtractI"@,
        Op::MultiplyI => "MultiplyI"@,
        Op::IncrementI => "IncrementI"@,
        Op::DecrementI => "DecrementI"@,
        Op::LessThan => "LessThan"@,
        Op::LessEquals => "LessEquals"@,
        Op::GreaterThan => "GreaterThan"@,
        Op::GreaterEquals => "GreaterEquals"@,
        Op::Equals => "Equals"@,
        Op::Pop => "Pop"@,
        Op::PushScope => "PushScope"@,
        Op::PopScope => "PopScope"@,
        Op::PushWith => "PushWith"@,
        Op::Dup => "Dup"@,
        Op::Swap => "Swap"@,
        Op::Nop => "Nop"@,
        Op::Debug => "Debug"@,
        Op::DebugFile => "DebugFile"@,
        Op::DebugLine => "DebugLine"@,
        Op::CoerceI => "CoerceI"@,
        Op::CoerceU => "CoerceU"@,
        Op::CoerceB => "CoerceB"@,
        Op::CoerceS => "CoerceS"@,
        Op::CoerceD => "CoerceD"@,
        Op::ConvertS => "ConvertS"@,
        Op::Increment => "Increment"@,
        Op::Decrement => "Decrement"@,
        Op::Negate => "Negate"@,
        Op::BitNot => "BitNot"@,
        Op::Not => "Not"@,
        Op::Add => "Add"@,
        Op::Subtract => "Subtract"@,
        Op::Multiply => "Multiply"@,
        Op::Divide => "Divide"@,
        Op::Modulo => "Modulo"@,
        Op::BitAnd => "BitAnd"@,
        Op::BitOr => "BitOr"@,
        Op::BitXor => "BitXor"@,
        Op::LShift => "LShift"@,
        Op::RShift => "RShift"@,
        Op::URShift => "URShift"@,
        Op::StrictEquals => "StrictEquals"@,
        Op::AsTypeLate => "AsTypeLate"@,
        Op::IsTypeLate => "IsTypeLate"@,
        Op::Sxi1 => "Sxi1"@,
        Op::Sxi8 => "Sxi8"@,
        Op::Sxi16 => "Sxi16"@,
        Op::Li8 => "Li8"@,
        Op::Li16 => "Li16"@,
        Op::Li32 => "Li32"@,
        Op::Si8 => "Si8"@,
        Op::Si16 => "Si16"@,
        Op::Si32 => "Si32"@,
        Op::Lf32 => "Lf32"@,
        Op::Lf64 => "Lf64"@,
        Op::Sf32 => "Sf32"@,
        Op::Sf64 => "Sf64"@,
        Op::PushTrue => "PushTrue"@,
        Op::PushFalse => "PushFalse"@,
        Op::PushUndefined => "PushUndefined"@,
        Op::Throw => "Throw"@,
        Op::NextValue => "NextValue"@,
        Op::In => "In"@,
        Op::TypeOf => "TypeOf"@,
        Op::GetPropertySlow => "GetPropertySlow"@,
        Op::SetPropertySlow => "SetPropertySlow"@,
        Op::CheckFilter => "CheckFilter"@,
        Op::GetLocal { .. } => "GetLocal"@,
        Op::SetLocal { .. } => "SetLocal"@,
        Op::StoreLocal { .. } => "StoreLocal"@,
        Op::IncLocalI { .. } => "IncLocalI"@,
        Op::DecLocalI { .. } => "DecLocalI"@,
        Op::IncLocal { .. } => "IncLocal"@,
        Op::DecLocal { .. } => "DecLocal"@,
        Op::Kill { .. } => "Kill"@,
        Op::GetSlot { .. } => "GetSlot"@,
        Op::SetSlot { .. } => "SetSlot"@,
        Op::SetSlotNoCoerce { .. } => "SetSlotNoCoerce"@,
        Op::SetSlotCoerceI { .. } => "SetSlotCoerceI"@,
        Op::GetScopeObject { .. } => "GetScopeObject"@,
        Op::GetOuterScope { .. } => "GetOuterScope"@,
        Op::NewCatch { .. } => "NewCatch"@,
        Op::PushInt { .. } => "PushInt"@,
        Op::PushUint { .. } => "PushUint"@,
        Op::PushDouble { .. } => "PushDouble"@,
        Op::PushNull { .. } => "PushNull"@,
        Op::PushString { .. } => "PushString"@,
        Op::PushNamespace { .. } => "PushNamespace"@,
        Op::GetScriptGlobals { .. } => "GetScriptGlobals"@,
        Op::Jump { .. } => "Jump"@,
        Op::IfTrue { .. } => "IfTrue"@,
        Op::IfFalse { .. } => "IfFalse"@,
        Op::LookupSwitch(_) => "LookupSwitch"@,
        Op::ReturnValue { .. } => "ReturnValue"@,
        Op::ReturnVoid { .. } => "ReturnVoid"@,
        Op::HasNext2 { .. } => "HasNext2"@,
        Op::GetPropertyStatic { .. } => "GetPropertyStatic"@,
        Op::GetPropertyFast { .. } => "GetPropertyFast"@,
        Op::FindPropStrict { .. } => "FindPropStrict"@,
        Op::FindProperty { .. } => "FindProperty"@,
        Op::GetSuper { .. } => "GetSuper"@,
        Op::SetSuper { .. } => "SetSuper"@,
        Op::DeleteProperty { .. } => "DeleteProperty"@,
        Op::SetPropertyStatic { .. } => "SetPropertyStatic"@,
        Op::SetPropertyFast { .. } => "SetPropertyFast"@,
        Op::CallProperty { .. } => "CallProperty"@,
        Op::CallPropVoid { .. } => "CallPropVoid"@,
        Op::ConstructProp { .. } => "ConstructProp"@,
        Op::CallSuper { .. } => "CallSuper"@,
        Op::ConstructSuper { .. } => "ConstructSuper"@,
        Op::Call { .. } => "Call"@,
        Op::Construct { .. } => "Construct"@,
        Op::NewArray { .. } => "NewArray"@,
        Op::NewObject { .. } => "NewObject"@,
        Op::ConstructSlot { .. } => "ConstructSlot"@,
        Op::ApplyType { .. } => "ApplyType"@,
        Op::CallMethod { .. } => "CallMethod"@,
        Op::CallNative { .. } => "CallNative"@,
        Op::Coerce { .. } => "Coerce"@,
        Op::NewClass { .. } => "NewClass"@,
        Op::NewActivation { .. } => "NewActivation"@,
        Op::NewFunction { .. } => "NewFunction"@,
        Op::Other { name } => name@,
    }
}

/// The name of an op, to tell by it why a method was declined.
pub fn op_variant_name(op: &Op) -> (r: String)
    ensures
        r@ == variant_name(*op),
{
    let name: &str = match op {
        Op::AddI => "AddI",
        Op::SubtractI => "SubtractI",
        Op::MultiplyI => "MultiplyI",
        Op::IncrementI => "IncrementI",
        Op::DecrementI => "DecrementI",
        Op::LessThan => "LessThan",
        Op::LessEquals => "LessEquals",
        Op::GreaterThan => "GreaterThan",
        Op::GreaterEquals => "GreaterEquals",
        Op::Equals => "Equals",
        Op::Pop => "Pop",
        Op::PushScope => "PushScope",
        Op::PopScope => "PopScope",
        Op::PushWith => "PushWith",
        Op::Dup => "Dup",
        Op::Swap => "Swap",
        Op::Nop => "Nop",
        Op::Debug => "Debug",
        Op::DebugFile => "DebugFile",
        Op::DebugLine => "DebugLine",
        Op::CoerceI => "CoerceI",
        Op::CoerceU => "CoerceU",
        Op::CoerceB => "CoerceB",
        Op::CoerceS => "CoerceS",
        Op::CoerceD => "CoerceD",
        Op::ConvertS => "ConvertS",
        Op::Increment => "Increment",
        Op::Decrement => "Decrement",
        Op::Negate => "Negate",
        Op::BitNot => "BitNot",
        Op::Not => "Not",
        Op::Add => "Add",
        Op::Subtract => "Subtract",
        Op::Multiply => "Multiply",
        Op::Divide => "Divide",
        Op::Modulo => "Modulo",
        Op::BitAnd => "BitAnd",
        Op::BitOr => "BitOr",
        Op::BitXor => "BitXor",
        Op::LShift => "LShift",
        Op::RShift => "RShift",
        Op::URShift => "URShift",
        Op::StrictEquals => "StrictEquals",
        Op::AsTypeLate => "AsTypeLate",
        Op::IsTypeLate => "IsTypeLate",
        Op::Sxi1 => "Sxi1",
        Op::Sxi8 => "Sxi8",
        Op::Sxi16 => "Sxi16",
        Op::Li8 => "Li8",
        Op::Li16 => "Li16",
        Op::Li32 => "Li32",
        Op::Si8 => "Si8",
        Op::Si16 => "Si16",
        Op::Si32 => "Si32",
        Op::Lf32 => "Lf32",
        Op::Lf64 => "Lf64",
        Op::Sf32 => "Sf32",
        Op::Sf64 => "Sf64",
        Op::PushTrue => "PushTrue",
        Op::PushFalse => "PushFalse",
        Op::PushUndefined => "PushUndefined",
        Op::Throw => "Throw",
        Op::NextValue => "NextValue",
        Op::In => "In",
        Op::TypeOf => "TypeOf",
        Op::GetPropertySlow => "GetPropertySlow",
        Op::SetPropertySlow => "SetPropertySlow",
        Op::CheckFilter => "CheckFilter",
        Op::GetLocal { .. } => "GetLocal",
        Op::SetLocal { .. } => "SetLocal",
        Op::StoreLocal { .. } => "StoreLocal",
        Op::IncLocalI { .. } => "IncLocalI",
        Op::DecLocalI { .. } => "DecLocalI",
        Op::IncLocal { .. } => "IncLocal",
        Op::DecLocal { .. } => "DecLocal",
        Op::Kill { .. } => "Kill",
        Op::GetSlot { .. } => "GetSlot",
        Op::SetSlot { .. } => "SetSlot",
        Op::SetSlotNoCoerce { .. } => "SetSlotNoCoerce",
        Op::SetSlotCoerceI { .. } => "SetSlotCoerceI",
        Op::GetScopeObject { .. } => "GetScopeObject",
        Op::GetOuterScope { .. } => "GetOuterScope",
        Op::NewCatch { .. } => "NewCatch",
        Op::PushInt { .. } => "PushInt",
        Op::PushUint { .. } => "PushUint",
        Op::PushDouble { .. } => "PushDouble",
        Op::PushNull { .. } => "PushNull",
        Op::PushString { .. } => "PushString",
        Op::PushNamespace { .. } => "PushNamespace",
        Op::GetScriptGlobals { .. } => "GetScriptGlobals",
        Op::Jump { .. } => "Jump",
        Op::IfTrue { .. } => "IfTrue",
        Op::IfFalse { .. } => "IfFalse",
        Op::LookupSwitch(_) => "LookupSwitch",
        Op::ReturnValue { .. } => "ReturnValue",
        Op::ReturnVoid { .. } => "ReturnVoid",
        Op::HasNext2 { .. } => "HasNext2",
        Op::GetPropertyStatic { .. } => "GetPropertyStatic",
        Op::GetPropertyFast { .. } => "GetPropertyFast",
        Op::FindPropStrict { .. } => "FindPropStrict",
        Op::FindProperty { .. } => "FindProperty",
        Op::GetSuper { .. } => "GetSuper",
        Op::SetSuper { .. } => "SetSuper",
        Op::DeleteProperty { .. } => "DeleteProperty",
        Op::SetPropertyStatic { .. } => "SetPropertyStatic",
        Op::SetPropertyFast { .. } => "SetPropertyFast",
        Op::CallProperty { .. } => "CallProperty",
        Op::CallPropVoid { .. } => "CallPropVoid",
        Op::ConstructProp { .. } => "ConstructProp",
        Op::CallSuper { .. } => "CallSuper",
        Op::ConstructSuper { .. } => "ConstructSuper",
        Op::Call { .. } => "Call",
        Op::Construct { .. } => "Construct",
        Op::NewArray { .. } => "NewArray",
        Op::NewObject { .. } => "NewObject",
        Op::ConstructSlot { .. } => "ConstructSlot",
        Op::ApplyType { .. } => "ApplyType",
        Op::CallMethod { .. } => "CallMethod",
        Op::CallNative { .. } => "CallNative",
        Op::Coerce { .. } => "Coerce",
        Op::NewClass { .. } => "NewClass",
        Op::NewActivation { .. } => "NewActivation",
        Op::NewFunction { .. } => "NewFunction",
        Op::Other { name } => name.as_str(),
    };
    name.to_string()
}

/// The op of the int model.
pub open spec fn int_op(op: Op) -> Option<JitOp> {
    match op {
        Op::GetLocal { index } => Some(JitOp::GetLocal(index)),
        Op::SetLocal { index } => Some(JitOp::SetLocal(index)),
        Op::PushInt { value } => Some(JitOp::PushInt(value)),
        Op::AddI => Some(JitOp::AddI),
        Op::SubtractI => Some(JitOp::SubtractI),
        Op::MultiplyI => Some(JitOp::MultiplyI),
        Op::IncrementI => Some(JitOp::IncrementI),
        Op::DecrementI => Some(JitOp::DecrementI),
        Op::IncLocalI { index } => Some(JitOp::IncLocalI(index)),
        Op::DecLocalI { index } => Some(JitOp::DecLocalI(index)),
        Op::LessThan => Some(JitOp::LessThan),
        Op::LessEquals => Some(JitOp::LessEquals),
        Op::GreaterThan => Some(JitOp::GreaterThan),
        Op::GreaterEquals => Some(JitOp::GreaterEquals),
        Op::Equals => Some(JitOp::Equals),
        Op::Jump { offset } => Some(JitOp::Jump(offset)),
        Op::IfFalse { offset } => Some(JitOp::IfFalse(offset)),
        Op::IfTrue { offset } => Some(JitOp::IfTrue(offset)),
        Op::ReturnValue { return_type: None } => Some(JitOp::ReturnValue),
        Op::ReturnValue { return_type: Some(ClassKind::Int) } => Some(JitOp::ReturnValue),
        Op::Pop => Some(JitOp::Pop),
        Op::PushScope => Some(JitOp::Pop),
        Op::Dup => Some(JitOp::Dup),
        Op::Nop => Some(JitOp::Nop),
        Op::CoerceI => Some(JitOp::Nop),
        Op::Kill { .. } => Some(JitOp::Nop),
        Op::Debug => Some(JitOp::Nop),
        Op::DebugFile => Some(JitOp::Nop),
        Op::DebugLine => Some(JitOp::Nop),
        _ => None,
    }
}

/// The op of the double model.
pub open spec fn double_op(op: Op) -> Option<JitOp> {
    match op {
        Op::GetLocal { index } => Some(JitOp::GetLocalDouble(index)),
        Op::SetLocal { index } => Some(JitOp::SetLocalDouble(index)),
        Op::StoreLocal { index } => Some(JitOp::StoreLocalDouble(index)),
        Op::PushDouble { double, .. } => Some(JitOp::PushDouble(double)),
        Op::Add => Some(JitOp::AddD),
        Op::Subtract => Some(JitOp::SubtractD),
        Op::Multiply => Some(JitOp::MultiplyD),
        Op::Divide => Some(JitOp::DivideD),
        Op::Increment => Some(JitOp::IncrementD),
        Op::Decrement => Some(JitOp::DecrementD),
        Op::Negate => Some(JitOp::NegateD),
        Op::ReturnValue { .. } => Some(JitOp::ReturnDouble),
        Op::Pop => Some(JitOp::Pop),
        Op::PushScope => Some(JitOp::Pop),
        Op::Nop => Some(JitOp::Nop),
        Op::Kill { .. } => Some(JitOp::Nop),
        Op::Debug => Some(JitOp::Nop),
        Op::DebugFile => Some(JitOp::Nop),
        Op::DebugLine => Some(JitOp::Nop),
        _ => None,
    }
}

/// Every op has a counterpart.
pub open spec fn all_map(ops: Seq<Op>, f: spec_fn(Op) -> Option<JitOp>) -> bool {
    forall|i: int| 0 <= i < ops.len() ==> f(#[trigger] ops[i]) is Some
}

/// The counterparts of all ops, in order.
pub open spec fn mapped(ops: Seq<Op>, f: spec_fn(Op) -> Option<JitOp>) -> Seq<JitOp> {
    Seq::new(ops.len(), |i: int| f(ops[i])->0)
}

fn to_int_op(op: &Op) -> (r: Option<JitOp>)
    ensures
        r == int_op(*op),
{
    Some(match op {
        Op::GetLocal { index } => JitOp::GetLocal(*index),
        Op::SetLocal { index } => JitOp::SetLocal(*index),
        Op::PushInt { value } => JitOp::PushInt(*value),
        Op::AddI => JitOp::AddI,
        Op::SubtractI => JitOp::SubtractI,
        Op::MultiplyI => JitOp::MultiplyI,
        Op::IncrementI => JitOp::IncrementI,
        Op::DecrementI => JitOp::DecrementI,
        Op::IncLocalI { index } => JitOp::IncLocalI(*index),
        Op::DecLocalI { index } => JitOp::DecLocalI(*index),
        Op::LessThan => JitOp::LessThan,
        Op::LessEquals => JitOp::LessEquals,
        Op::GreaterThan => JitOp::GreaterThan,
        Op::GreaterEquals => JitOp::GreaterEquals,
        Op::Equals => JitOp::Equals,
        Op::Jump { offset } => JitOp::Jump(*offset),
        Op::IfFalse { offset } => JitOp::IfFalse(*offset),
        Op::IfTrue { offset } => JitOp::IfTrue(*offset),
        Op::ReturnValue { return_type: None }
        | Op::ReturnValue { return_type: Some(ClassKind::Int) } => JitOp::ReturnValue,
        Op::Pop | Op::PushScope => JitOp::Pop,
        Op::Dup => JitOp::Dup,
        Op::Nop | Op::CoerceI | Op::Kill { .. } | Op::Debug | Op::DebugFile | Op::DebugLine => {
            JitOp::Nop
        },
        _ => {
            return None;
        },
    })
}

/// Translates to the int model; `None` if an op is not of it.
pub fn translate(ops: &[Op]) -> (r: Option<Vec<JitOp>>)
    ensures
        r is Some <==> all_map(ops@, |op: Op| int_op(op)),
        r matches Some(out) ==> out@ == mapped(ops@, |op: Op| int_op(op)),
{
    let ghost f = |op: Op| int_op(op);
    let mut out: Vec<JitOp> = Vec::new();
    let mut i: usize = 0;
    while i < ops.len()
        invariant
            i <= ops@.len(),
            f == (|op: Op| int_op(op)),
            forall|k: int| 0 <= k < i ==> f(#[trigger] ops@[k]) is Some,
            out@ =~= mapped(ops@, f).take(i as int),
        decreases ops@.len() - i,
    {
        match to_int_op(&ops[i]) {
            Some(op) => {
                out.push(op);
            },
            None => {
                assert(f(ops@[i as int]) is None);
                return None;
            },
        }
        i = i + 1;
    }
    Some(out)
}

fn to_double_op(op: &Op) -> (r: Option<JitOp>)
    ensures
        r == double_op(*op),
{
    Some(match op {
        Op::GetLocal { index } => JitOp::GetLocalDouble(*index),
        Op::SetLocal { index } => JitOp::SetLocalDouble(*index),
        Op::StoreLocal { index } => JitOp::StoreLocalDouble(*index),
        Op::PushDouble { double, .. } => JitOp::PushDouble(*double),
        Op::Add => JitOp::AddD,
        Op::Subtract => JitOp::SubtractD,
        Op::Multiply => JitOp::MultiplyD,
        Op::Divide => JitOp::DivideD,
        Op::Increment => JitOp::IncrementD,
        Op::Decrement => JitOp::DecrementD,
        Op::Negate => JitOp::NegateD,
        Op::ReturnValue { .. } => JitOp::ReturnDouble,
        Op::Pop | Op::PushScope => JitOp::Pop,
        Op::Nop | Op::Kill { .. } | Op::Debug | Op::DebugFile | Op::DebugLine => JitOp::Nop,
        _ => {
            return None;
        },
    })
}

/// Translates to the double model; `None` if an op is not of it.
pub fn translate_double(ops: &[Op]) -> (r: Option<Vec<JitOp>>)
    ensures
        r is Some <==> all_map(ops@, |op: Op| double_op(op)),
        r matches Some(out) ==> out@ == mapped(ops@, |op: Op| double_op(op)),
{
    let ghost f = |op: Op| double_op(op);
    let mut out: Vec<JitOp> = Vec::new();
    let mut i: usize = 0;
    while i < ops.len()
        invariant
            i <= ops@.len(),
            f == (|op: Op| double_op(op)),
            forall|k: int| 0 <= k < i ==> f(#[trigger] ops@[k]) is Some,
            out@ =~= mapped(ops@, f).take(i as int),
        decreases ops@.len() - i,
    {
        match to_double_op(&ops[i]) {
            Some(op) => {
                out.push(op);
            },
            None => {
                assert(f(ops@[i as int]) is None);
                return None;
            },
        }
        i = i + 1;
    }
    Some(out)
}


// Unary helpers.
pub const HELPER_INCREMENT: u32 = 0;

pub const HELPER_DECREMENT: u32 = 1;

pub const HELPER_NEGATE: u32 = 2;

pub const HELPER_BITNOT: u32 = 3;

pub const HELPER_NOT: u32 = 4;

pub const HELPER_DM_LOAD8: u32 = 8;

pub const HELPER_DM_LOAD16: u32 = 9;

pub const HELPER_DM_LOAD32: u32 = 10;

pub const HELPER_SXI1: u32 = 13;

pub const HELPER_SXI8: u32 = 14;

pub const HELPER_SXI16: u32 = 15;

// Binary helpers.
pub const EQ: u32 = 0;

pub const LT: u32 = 1;

pub const LE: u32 = 2;

pub const GT: u32 = 3;

pub const GE: u32 = 4;

pub const BIT_AND: u32 = 5;

pub const BIT_OR: u32 = 6;

pub const BIT_XOR: u32 = 7;

pub const LSHIFT: u32 = 8;

pub const RSHIFT: u32 = 9;

pub const URSHIFT: u32 = 10;

pub const MULTIPLY: u32 = 11;

pub const SUBTRACT: u32 = 12;

pub const DIVIDE: u32 = 13;

pub const MODULO: u32 = 14;

pub const STRICT_EQ: u32 = 15;

pub const AS_TYPE_LATE: u32 = 16;

pub const IS_TYPE_LATE: u32 = 17;

pub const ADD: u32 = 18;

// Ternary helpers.
pub const SET_SLOT: u32 = 0;

pub const SET_SLOT_NO_COERCE: u32 = 1;

pub const SET_SLOT_COERCE_I: u32 = 2;

pub const DM_STORE: u32 = 3;

/// The value word of a constant.
pub open spec fn constant(op: Op) -> Option<u64> {
    match op {
        Op::PushUint { bits } => Some(bits),
        Op::PushDouble { bits, .. } => Some(bits),
        Op::PushNull { bits } => Some(bits),
        Op::PushTrue => Some((VALUE_BOOL_MARK + 1) as u64),
        Op::PushFalse => Some(VALUE_BOOL_MARK),
        Op::PushUndefined => Some(UNDEFINED_BITS),
        _ => None,
    }
}

fn const_push_bits(op: &Op) -> (r: Option<u64>)
    ensures
        r == constant(*op),
{
    match op {
        Op::PushUint { bits } => Some(*bits),
        Op::PushDouble { bits, .. } => Some(*bits),
        Op::PushNull { bits } => Some(*bits),
        Op::PushTrue => Some(VALUE_BOOL_MARK + 1),
        Op::PushFalse => Some(VALUE_BOOL_MARK),
        Op::PushUndefined => Some(UNDEFINED_BITS),
        _ => None,
    }
}

/// What a return without a value gives: the declared type's own zero.
pub open spec fn void_bits(return_type: Option<ClassKind>, null_bits: u64) -> u64 {
    match return_type {
        None => UNDEFINED_BITS,
        Some(ClassKind::Void) => UNDEFINED_BITS,
        Some(ClassKind::Int) => VALUE_INT_MARK,
        Some(ClassKind::Uint) => VALUE_INT_MARK,
        Some(ClassKind::Number) => VALUE_INT_MARK,
        Some(ClassKind::Boolean) => VALUE_BOOL_MARK,
        Some(ClassKind::Other) => null_bits,
    }
}

/// The value word that a return without a value gives: `undefined` for no type and for
/// `void`, `0` for a number, `false` for a boolean, `null` for any other class.
pub fn return_void_bits(return_type: Option<ClassKind>, null_bits: u64) -> (r: u64)
    ensures
        r == void_bits(return_type, null_bits),
{
    match return_type {
        None | Some(ClassKind::Void) => UNDEFINED_BITS,
        Some(ClassKind::Int) | Some(ClassKind::Uint) | Some(ClassKind::Number) => VALUE_INT_MARK,
        Some(ClassKind::Boolean) => VALUE_BOOL_MARK,
        Some(ClassKind::Other) => null_bits,
    }
}

// The boxed way. Ops that need something of the method's own refer to it by its place in a
// table: names, scripts, strings, classes, natives, namespaces, switches. A table holds one
// entry for each op that refers to it, in the order of the ops.

/// How many ops so far refer to each table.
#[verifier::ext_equal]
pub struct Counts {
    pub names: nat,
    pub scripts: nat,
    pub strings: nat,
    pub classes: nat,
    pub natives: nat,
    pub namespaces: nat,
    pub switches: nat,
    /// Property reads with a cache.
    pub reads: nat,
    /// Calls with a cache.
    pub calls: nat,
}

/// What the whole method decides for each of its ops.
#[derive(Debug, Clone, Copy, PartialEq, Eq, Structural)]
pub struct Setting {
    /// `pushscope` works on the real scope stack.
    pub scopes: bool,
    /// The only scope is `this`.
    pub scope_this: bool,
    /// Domain memory is accessed inline.
    pub inline_dm: bool,
    /// Property reads and calls have caches.
    pub caches: bool,
}

/// The name that the op refers to.
pub open spec fn name_of(op: Op) -> Option<Multiname> {
    match op {
        Op::GetPropertyStatic { multiname } => Some(multiname),
        Op::GetPropertyFast { multiname } => Some(multiname),
        Op::FindPropStrict { multiname } => Some(multiname),
        Op::FindProperty { multiname } => Some(multiname),
        Op::GetSuper { multiname } => Some(multiname),
        Op::SetSuper { multiname } => Some(multiname),
        Op::DeleteProperty { multiname } => Some(multiname),
        Op::SetPropertyStatic { multiname } => Some(multiname),
        Op::SetPropertyFast { multiname } => Some(multiname),
        Op::CallProperty { multiname, .. } => Some(multiname),
        Op::CallPropVoid { multiname, .. } => Some(multiname),
        Op::ConstructProp { multiname, .. } => Some(multiname),
        Op::CallSuper { multiname, .. } => Some(multiname),
        _ => None,
    }
}

/// The class or method that the op refers to.
pub open spec fn class_of(op: Op) -> Option<u64> {
    match op {
        Op::Coerce { class } => Some(class),
        Op::NewClass { class } => Some(class),
        Op::NewActivation { activation_class } => Some(activation_class),
        Op::NewFunction { method } => Some(method),
        _ => None,
    }
}

/// The native that the op calls.
pub open spec fn native_of(op: Op) -> Option<u64> {
    match op {
        Op::CallNative { native, .. } => Some(native),
        _ => None,
    }
}

/// The namespace that the op pushes.
pub open spec fn namespace_of(op: Op) -> Option<u64> {
    match op {
        Op::PushNamespace { namespace } => Some(namespace),
        _ => None,
    }
}

/// The string that the op pushes.
pub open spec fn string_of(op: Op) -> Option<u64> {
    match op {
        Op::PushString { bits } => Some(bits),
        _ => None,
    }
}

/// The script whose globals the op pushes.
pub open spec fn script_of(op: Op) -> Option<u64> {
    match op {
        Op::GetScriptGlobals { script } => Some(script),
        _ => None,
    }
}

pub open spec fn one_if(b: bool) -> nat {
    if b {
        1
    } else {
        0
    }
}

impl Counts {
    pub open spec fn none() -> Counts {
        Counts {
            names: 0,
            scripts: 0,
            strings: 0,
            classes: 0,
            natives: 0,
            namespaces: 0,
            switches: 0,
            reads: 0,
            calls: 0,
        }
    }

    pub open spec fn after(self, op: Op, s: Setting) -> Counts {
        Counts {
            names: self.names + one_if(name_of(op) is Some),
            scripts: self.scripts + one_if(script_of(op) is Some),
            strings: self.strings + one_if(string_of(op) is Some),
            classes: self.classes + one_if(class_of(op) is Some),
            natives: self.natives + one_if(native_of(op) is Some),
            namespaces: self.namespaces + one_if(namespace_of(op) is Some),
            switches: self.switches + one_if(op is LookupSwitch),
            reads: self.reads + one_if(s.caches && op is GetPropertyStatic),
            calls: self.calls + one_if(s.caches && op is CallMethod),
        }
    }
}

/// How many of the first `i` ops refer to each table.
pub open spec fn counts(ops: Seq<Op>, i: int, s: Setting) -> Counts
    decreases i,
{
    if i <= 0 {
        Counts::none()
    } else {
        counts(ops, i - 1, s).after(ops[i - 1], s)
    }
}

/// The boxed op of an op that depends on nothing else.
pub open spec fn plain_op(op: Op) -> Option<JitOp> {
    match op {
        Op::Increment => Some(JitOp::CallHelper(HELPER_INCREMENT)),
        Op::Decrement => Some(JitOp::CallHelper(HELPER_DECREMENT)),
        Op::Negate => Some(JitOp::CallHelper(HELPER_NEGATE)),
        Op::BitNot => Some(JitOp::CallHelper(HELPER_BITNOT)),
        Op::Not => Some(JitOp::CallHelper(HELPER_NOT)),
        Op::AddI => Some(JitOp::AddIBoxed),
        Op::SubtractI => Some(JitOp::SubtractIBoxed),
        Op::MultiplyI => Some(JitOp::MultiplyIBoxed),
        Op::IncrementI => Some(JitOp::IncrementIBoxed),
        Op::DecrementI => Some(JitOp::DecrementIBoxed),
        Op::Swap => Some(JitOp::SwapValue),
        Op::CoerceU => Some(JitOp::CoerceInt(false)),
        Op::CoerceI => Some(JitOp::CoerceInt(true)),
        Op::CoerceB => Some(JitOp::CoerceBool),
        Op::CoerceS => Some(JitOp::CoerceString),
        Op::StrictEquals => Some(JitOp::CallHelper2(STRICT_EQ)),
        Op::AsTypeLate => Some(JitOp::CallHelper2(AS_TYPE_LATE)),
        Op::IsTypeLate => Some(JitOp::CallHelper2(IS_TYPE_LATE)),
        Op::Sxi1 => Some(JitOp::CallHelper(HELPER_SXI1)),
        Op::Sxi8 => Some(JitOp::CallHelper(HELPER_SXI8)),
        Op::Sxi16 => Some(JitOp::CallHelper(HELPER_SXI16)),
        Op::Multiply => Some(JitOp::ArithInt(MULTIPLY)),
        Op::Subtract => Some(JitOp::ArithInt(SUBTRACT)),
        Op::Divide => Some(JitOp::ArithNum(DIVIDE)),
        Op::Modulo => Some(JitOp::CallHelper2(MODULO)),
        Op::Add => Some(JitOp::ArithInt(ADD)),
        Op::Equals => Some(JitOp::CmpNum(EQ)),
        Op::LessThan => Some(JitOp::CmpNum(LT)),
        Op::LessEquals => Some(JitOp::CmpNum(LE)),
        Op::GreaterThan => Some(JitOp::CmpNum(GT)),
        Op::GreaterEquals => Some(JitOp::CmpNum(GE)),
        Op::BitAnd => Some(JitOp::BitOpInt(BIT_AND)),
        Op::BitOr => Some(JitOp::BitOpInt(BIT_OR)),
        Op::BitXor => Some(JitOp::BitOpInt(BIT_XOR)),
        Op::LShift => Some(JitOp::BitOpInt(LSHIFT)),
        Op::RShift => Some(JitOp::BitOpInt(RSHIFT)),
        Op::URShift => Some(JitOp::BitOpInt(URSHIFT)),
        Op::Throw => Some(JitOp::Throw),
        Op::Dup => Some(JitOp::DupValue),
        Op::NextValue => Some(JitOp::VCall(vc::NEXT_VALUE, 0, 1, true)),
        Op::In => Some(JitOp::VCall(vc::IN, 0, 1, true)),
        Op::TypeOf => Some(JitOp::VCall(vc::TYPE_OF, 0, 0, true)),
        Op::CoerceD => Some(JitOp::VCall(vc::COERCE_D, 0, 0, true)),
        Op::ConvertS => Some(JitOp::VCall(vc::CONVERT_S, 0, 0, true)),
        Op::Pop => Some(JitOp::Pop),
        Op::Nop => Some(JitOp::Nop),
        Op::Debug => Some(JitOp::Nop),
        Op::DebugFile => Some(JitOp::Nop),
        Op::DebugLine => Some(JitOp::Nop),
        Op::GetLocal { index } => Some(JitOp::GetLocalValue(index)),
        Op::SetLocal { index } => Some(JitOp::SetLocalValue(index)),
        Op::StoreLocal { index } => Some(JitOp::StoreLocalValue(index)),
        Op::IncLocalI { index } => Some(JitOp::IncDecLocalIValue(index, true)),
        Op::DecLocalI { index } => Some(JitOp::IncDecLocalIValue(index, false)),
        Op::IncLocal { index } => Some(JitOp::IncDecLocalNum(index, true)),
        Op::DecLocal { index } => Some(JitOp::IncDecLocalNum(index, false)),
        Op::NewCatch { index } => Some(JitOp::NewCatch(index)),
        Op::SetSlot { index } => Some(JitOp::CallHelper3(SET_SLOT, index)),
        Op::SetSlotNoCoerce { index } => Some(JitOp::CallHelper3(SET_SLOT_NO_COERCE, index)),
        Op::SetSlotCoerceI { index } => Some(JitOp::CallHelper3(SET_SLOT_COERCE_I, index)),
        Op::GetOuterScope { index } => Some(JitOp::GetOuterScope(index)),
        Op::Kill { .. } => Some(JitOp::Nop),
        Op::PushInt { value } => Some(JitOp::PushIntValue(value)),
        Op::Jump { offset } => Some(JitOp::Jump(offset)),
        Op::IfTrue { offset } => Some(JitOp::IfTrueBoxed(offset)),
        Op::IfFalse { offset } => Some(JitOp::IfFalseBoxed(offset)),
        Op::ReturnValue { return_type: Some(_) } => Some(JitOp::ReturnValueCoerced),
        Op::ReturnValue { return_type: None } => Some(JitOp::ReturnValueBoxed),
        Op::HasNext2 { object_register, index_register } => Some(JitOp::HasNext2(object_register, index_register)),
        Op::ConstructSuper { num_args } => Some(JitOp::ConstructSuper(num_args)),
        Op::Call { num_args } => Some(JitOp::CallValue(num_args)),
        Op::ConstructSlot { index, num_args } => Some(JitOp::VCall(vc::CONSTRUCT_SLOT, index, num_args, true)),
        Op::Construct { num_args } => Some(JitOp::VCall(vc::CONSTRUCT, 0, num_args, true)),
        Op::ApplyType { num_types } => Some(JitOp::VCall(vc::APPLY_TYPE, 0, num_types, true)),
        Op::NewArray { num_args } => Some(JitOp::VCall(vc::NEW_ARRAY, 0, num_args, true)),
        Op::NewObject { num_args } => Some(
            JitOp::VCall(vc::NEW_OBJECT, 0, (num_args * 2) as u32, true),
        ),
        Op::ReturnVoid { return_type, null_bits } => Some(
            JitOp::ReturnVoidBoxed(void_bits(return_type, null_bits)),
        ),
        _ => match constant(op) {
            Some(bits) => Some(JitOp::PushConst(bits)),
            None => None,
        },
    }
}

/// The boxed op of a domain-memory access.
pub open spec fn dm_op(op: Op, inline: bool) -> Option<JitOp> {
    match op {
        Op::Li8 => Some(if inline { JitOp::DmLoad(1) } else { JitOp::CallHelper(HELPER_DM_LOAD8) }),
        Op::Li16 => Some(if inline { JitOp::DmLoad(2) } else { JitOp::CallHelper(HELPER_DM_LOAD16) }),
        Op::Li32 => Some(if inline { JitOp::DmLoad(4) } else { JitOp::CallHelper(HELPER_DM_LOAD32) }),
        Op::Si8 => Some(if inline { JitOp::DmStore(1) } else { JitOp::CallHelper3(DM_STORE, 1) }),
        Op::Si16 => Some(if inline { JitOp::DmStore(2) } else { JitOp::CallHelper3(DM_STORE, 2) }),
        Op::Si32 => Some(if inline { JitOp::DmStore(4) } else { JitOp::CallHelper3(DM_STORE, 4) }),
        Op::Lf32 => if inline { Some(JitOp::DmLoadF(4)) } else { None },
        Op::Lf64 => if inline { Some(JitOp::DmLoadF(8)) } else { None },
        Op::Sf32 => if inline { Some(JitOp::DmStoreF(4)) } else { None },
        Op::Sf64 => if inline { Some(JitOp::DmStoreF(8)) } else { None },
        _ => None,
    }
}

/// The boxed op of an op on the scope stack.
pub open spec fn scope_op(op: Op, s: Setting) -> Option<JitOp> {
    match op {
        Op::GetScopeObject { index } => Some(
            if s.scope_this && index == 0 {
                JitOp::GetLocalValue(0)
            } else {
                JitOp::GetScopeObject(index)
            },
        ),
        Op::PushScope => Some(if s.scopes { JitOp::PushScopeReal } else { JitOp::Pop }),
        Op::PopScope => Some(if s.scopes { JitOp::PopScopeReal } else { JitOp::Nop }),
        _ => None,
    }
}

/// An op by a name that is complete.
pub open spec fn unless_lazy(multiname: Multiname, op: JitOp) -> Option<JitOp> {
    if multiname.lazy {
        None
    } else {
        Some(op)
    }
}

/// The boxed op of an op by a name, which is entry `k` of the names. `number` says that it is
/// known to give a `Number`.
pub open spec fn name_op(op: Op, k: u32, site: u32, s: Setting, number: bool) -> Option<JitOp> {
    match op {
        Op::GetPropertyStatic { .. } => Some(
            if s.caches {
                JitOp::GetPropertyIc(k, site)
            } else {
                JitOp::GetProperty(k)
            },
        ),
        Op::GetPropertyFast { .. } => Some(JitOp::GetPropertyFast(k, number)),
        Op::FindPropStrict { multiname } => unless_lazy(multiname, JitOp::FindProp(k, true)),
        Op::FindProperty { multiname } => unless_lazy(multiname, JitOp::FindProp(k, false)),
        Op::CallProperty { multiname, num_args } => unless_lazy(
            multiname,
            JitOp::CallProperty(k, num_args, true),
        ),
        Op::CallPropVoid { multiname, num_args } => unless_lazy(
            multiname,
            JitOp::CallProperty(k, num_args, false),
        ),
        Op::ConstructProp { multiname, num_args } => unless_lazy(
            multiname,
            JitOp::VCall(vc::CONSTRUCT_PROP, k, num_args, true),
        ),
        Op::CallSuper { multiname, num_args } => unless_lazy(
            multiname,
            JitOp::VCall(vc::CALL_SUPER, k, num_args, true),
        ),
        Op::GetSuper { multiname } => unless_lazy(
            multiname,
            JitOp::VCall(vc::GET_SUPER, k, 0, true),
        ),
        Op::SetSuper { multiname } => unless_lazy(
            multiname,
            JitOp::VCall(vc::SET_SUPER, k, 1, false),
        ),
        Op::DeleteProperty { multiname } => unless_lazy(
            multiname,
            JitOp::VCall(vc::DELETE_PROPERTY, k, 0, true),
        ),
        Op::SetPropertyStatic { .. } => Some(JitOp::VCall(vc::SET_PROP_STATIC, k, 1, false)),
        Op::SetPropertyFast { .. } => Some(JitOp::VCall(vc::SET_PROP_FAST, k, 2, false)),
        _ => None,
    }
}

/// The boxed op of an op that refers to another table, or has a cache.
pub open spec fn table_op(op: Op, c: Counts, s: Setting, number: bool) -> Option<JitOp> {
    match op {
        Op::GetSlot { index } => Some(JitOp::GetSlot(index, number)),
        Op::PushString { .. } => Some(JitOp::PushString(c.strings as u32)),
        Op::GetScriptGlobals { .. } => Some(JitOp::GetScriptGlobals(c.scripts as u32)),
        Op::Coerce { .. } => Some(JitOp::Coerce(c.classes as u32)),
        Op::NewClass { .. } => Some(JitOp::VCall(vc::NEW_CLASS, c.classes as u32, 0, true)),
        Op::NewFunction { .. } => Some(JitOp::VCall(vc::NEW_FUNCTION, c.classes as u32, 0, true)),
        Op::NewActivation { .. } => Some(
            JitOp::VCall(vc::NEW_ACTIVATION, c.classes as u32, 0, true),
        ),
        Op::CallNative { num_args, push_return_value, .. } => Some(
            JitOp::VCall(vc::CALL_NATIVE, c.natives as u32, num_args, push_return_value),
        ),
        Op::PushNamespace { .. } => Some(
            JitOp::VCall(vc::PUSH_NAMESPACE, c.namespaces as u32, 0, true),
        ),
        Op::LookupSwitch(_) => Some(JitOp::LookupSwitch(c.switches as u32)),
        Op::CallMethod { index, num_args, push_return_value } => Some(
            if s.caches {
                JitOp::CallMethodDirect(index, num_args, push_return_value, c.calls as u32)
            } else {
                JitOp::CallMethod(index, num_args, push_return_value)
            },
        ),
        _ => None,
    }
}

/// The boxed op of an op behind others that refer to the tables as often as `c` says; `None`
/// if there is none.
pub open spec fn boxed(op: Op, c: Counts, s: Setting, number: bool) -> Option<JitOp> {
    if let Some(j) = plain_op(op) {
        Some(j)
    } else if let Some(j) = dm_op(op, s.inline_dm) {
        Some(j)
    } else if let Some(j) = scope_op(op, s) {
        Some(j)
    } else if let Some(j) = name_op(op, c.names as u32, c.reads as u32, s, number) {
        Some(j)
    } else {
        table_op(op, c, s, number)
    }
}

fn to_plain_op(op: &Op) -> (r: Option<JitOp>)
    requires
        *op matches Op::NewObject { num_args } ==> num_args * 2 <= u32::MAX,
    ensures
        r == plain_op(*op),
{
    Some(match op {
        Op::Increment => JitOp::CallHelper(HELPER_INCREMENT),
        Op::Decrement => JitOp::CallHelper(HELPER_DECREMENT),
        Op::Negate => JitOp::CallHelper(HELPER_NEGATE),
        Op::BitNot => JitOp::CallHelper(HELPER_BITNOT),
        Op::Not => JitOp::CallHelper(HELPER_NOT),
        Op::AddI => JitOp::AddIBoxed,
        Op::SubtractI => JitOp::SubtractIBoxed,
        Op::MultiplyI => JitOp::MultiplyIBoxed,
        Op::IncrementI => JitOp::IncrementIBoxed,
        Op::DecrementI => JitOp::DecrementIBoxed,
        Op::Swap => JitOp::SwapValue,
        Op::CoerceU => JitOp::CoerceInt(false),
        Op::CoerceI => JitOp::CoerceInt(true),
        Op::CoerceB => JitOp::CoerceBool,
        Op::CoerceS => JitOp::CoerceString,
        Op::StrictEquals => JitOp::CallHelper2(STRICT_EQ),
        Op::AsTypeLate => JitOp::CallHelper2(AS_TYPE_LATE),
        Op::IsTypeLate => JitOp::CallHelper2(IS_TYPE_LATE),
        Op::Sxi1 => JitOp::CallHelper(HELPER_SXI1),
        Op::Sxi8 => JitOp::CallHelper(HELPER_SXI8),
        Op::Sxi16 => JitOp::CallHelper(HELPER_SXI16),
        Op::Multiply => JitOp::ArithInt(MULTIPLY),
        Op::Subtract => JitOp::ArithInt(SUBTRACT),
        Op::Divide => JitOp::ArithNum(DIVIDE),
        Op::Modulo => JitOp::CallHelper2(MODULO),
        Op::Add => JitOp::ArithInt(ADD),
        Op::Equals => JitOp::CmpNum(EQ),
        Op::LessThan => JitOp::CmpNum(LT),
        Op::LessEquals => JitOp::CmpNum(LE),
        Op::GreaterThan => JitOp::CmpNum(GT),
        Op::GreaterEquals => JitOp::CmpNum(GE),
        Op::BitAnd => JitOp::BitOpInt(BIT_AND),
        Op::BitOr => JitOp::BitOpInt(BIT_OR),
        Op::BitXor => JitOp::BitOpInt(BIT_XOR),
        Op::LShift => JitOp::BitOpInt(LSHIFT),
        Op::RShift => JitOp::BitOpInt(RSHIFT),
        Op::URShift => JitOp::BitOpInt(URSHIFT),
        Op::Throw => JitOp::Throw,
        Op::Dup => JitOp::DupValue,
        Op::NextValue => JitOp::VCall(vc::NEXT_VALUE, 0, 1, true),
        Op::In => JitOp::VCall(vc::IN, 0, 1, true),
        Op::TypeOf => JitOp::VCall(vc::TYPE_OF, 0, 0, true),
        Op::CoerceD => JitOp::VCall(vc::COERCE_D, 0, 0, true),
        Op::ConvertS => JitOp::VCall(vc::CONVERT_S, 0, 0, true),
        Op::Pop => JitOp::Pop,
        Op::Nop => JitOp::Nop,
        Op::Debug => JitOp::Nop,
        Op::DebugFile => JitOp::Nop,
        Op::DebugLine => JitOp::Nop,
        Op::GetLocal { index } => JitOp::GetLocalValue(*index),
        Op::SetLocal { index } => JitOp::SetLocalValue(*index),
        Op::StoreLocal { index } => JitOp::StoreLocalValue(*index),
        Op::IncLocalI { index } => JitOp::IncDecLocalIValue(*index, true),
        Op::DecLocalI { index } => JitOp::IncDecLocalIValue(*index, false),
        Op::IncLocal { index } => JitOp::IncDecLocalNum(*index, true),
        Op::DecLocal { index } => JitOp::IncDecLocalNum(*index, false),
        Op::NewCatch { index } => JitOp::NewCatch(*index),
        Op::SetSlot { index } => JitOp::CallHelper3(SET_SLOT, *index),
        Op::SetSlotNoCoerce { index } => JitOp::CallHelper3(SET_SLOT_NO_COERCE, *index),
        Op::SetSlotCoerceI { index } => JitOp::CallHelper3(SET_SLOT_COERCE_I, *index),
        Op::GetOuterScope { index } => JitOp::GetOuterScope(*index),
        Op::Kill { .. } => JitOp::Nop,
        Op::PushInt { value } => JitOp::PushIntValue(*value),
        Op::Jump { offset } => JitOp::Jump(*offset),
        Op::IfTrue { offset } => JitOp::IfTrueBoxed(*offset),
        Op::IfFalse { offset } => JitOp::IfFalseBoxed(*offset),
        Op::ReturnValue { return_type: Some(_) } => JitOp::ReturnValueCoerced,
        Op::ReturnValue { return_type: None } => JitOp::ReturnValueBoxed,
        Op::HasNext2 { object_register, index_register } => JitOp::HasNext2(*object_register, *index_register),
        Op::ConstructSuper { num_args } => JitOp::ConstructSuper(*num_args),
        Op::Call { num_args } => JitOp::CallValue(*num_args),
        Op::ConstructSlot { index, num_args } => JitOp::VCall(vc::CONSTRUCT_SLOT, *index, *num_args, true),
        Op::Construct { num_args } => JitOp::VCall(vc::CONSTRUCT, 0, *num_args, true),
        Op::ApplyType { num_types } => JitOp::VCall(vc::APPLY_TYPE, 0, *num_types, true),
        Op::NewArray { num_args } => JitOp::VCall(vc::NEW_ARRAY, 0, *num_args, true),
        Op::NewObject { num_args } => JitOp::VCall(vc::NEW_OBJECT, 0, *num_args * 2, true),
        Op::ReturnVoid { return_type, null_bits } => JitOp::ReturnVoidBoxed(
            return_void_bits(*return_type, *null_bits),
        ),
        _ => match const_push_bits(op) {
            Some(bits) => JitOp::PushConst(bits),
            None => {
                return None;
            },
        },
    })
}

fn to_dm_op(op: &Op, inline: bool) -> (r: Option<JitOp>)
    ensures
        r == dm_op(*op, inline),
{
    Some(
        match (op, inline) {
            (Op::Li8, true) => JitOp::DmLoad(1),
            (Op::Li16, true) => JitOp::DmLoad(2),
            (Op::Li32, true) => JitOp::DmLoad(4),
            (Op::Si8, true) => JitOp::DmStore(1),
            (Op::Si16, true) => JitOp::DmStore(2),
            (Op::Si32, true) => JitOp::DmStore(4),
            (Op::Lf32, true) => JitOp::DmLoadF(4),
            (Op::Lf64, true) => JitOp::DmLoadF(8),
            (Op::Sf32, true) => JitOp::DmStoreF(4),
            (Op::Sf64, true) => JitOp::DmStoreF(8),
            (Op::Li8, false) => JitOp::CallHelper(HELPER_DM_LOAD8),
            (Op::Li16, false) => JitOp::CallHelper(HELPER_DM_LOAD16),
            (Op::Li32, false) => JitOp::CallHelper(HELPER_DM_LOAD32),
            (Op::Si8, false) => JitOp::CallHelper3(DM_STORE, 1),
            (Op::Si16, false) => JitOp::CallHelper3(DM_STORE, 2),
            (Op::Si32, false) => JitOp::CallHelper3(DM_STORE, 4),
            _ => {
                return None;
            },
        },
    )
}

fn to_scope_op(op: &Op, s: &Setting) -> (r: Option<JitOp>)
    ensures
        r == scope_op(*op, *s),
{
    match op {
        Op::GetScopeObject { index } => if s.scope_this && *index == 0 {
            Some(JitOp::GetLocalValue(0))
        } else {
            Some(JitOp::GetScopeObject(*index))
        },
        Op::PushScope => if s.scopes {
            Some(JitOp::PushScopeReal)
        } else {
            Some(JitOp::Pop)
        },
        Op::PopScope => if s.scopes {
            Some(JitOp::PopScopeReal)
        } else {
            Some(JitOp::Nop)
        },
        _ => None,
    }
}

fn to_name_op(op: &Op, k: u32, site: u32, s: &Setting, number: bool) -> (r: Option<JitOp>)
    ensures
        r == name_op(*op, k, site, *s, number),
{
    let (multiname, named) = match op {
        Op::GetPropertyStatic { .. } => {
            return if s.caches {
                Some(JitOp::GetPropertyIc(k, site))
            } else {
                Some(JitOp::GetProperty(k))
            };
        },
        Op::GetPropertyFast { .. } => {
            return Some(JitOp::GetPropertyFast(k, number));
        },
        Op::SetPropertyStatic { .. } => {
            return Some(JitOp::VCall(vc::SET_PROP_STATIC, k, 1, false));
        },
        Op::SetPropertyFast { .. } => {
            return Some(JitOp::VCall(vc::SET_PROP_FAST, k, 2, false));
        },
        Op::FindPropStrict { multiname } => (multiname, JitOp::FindProp(k, true)),
        Op::FindProperty { multiname } => (multiname, JitOp::FindProp(k, false)),
        Op::CallProperty { multiname, num_args } => (
            multiname,
            JitOp::CallProperty(k, *num_args, true),
        ),
        Op::CallPropVoid { multiname, num_args } => (
            multiname,
            JitOp::CallProperty(k, *num_args, false),
        ),
        Op::ConstructProp { multiname, num_args } => (
            multiname,
            JitOp::VCall(vc::CONSTRUCT_PROP, k, *num_args, true),
        ),
        Op::CallSuper { multiname, num_args } => (
            multiname,
            JitOp::VCall(vc::CALL_SUPER, k, *num_args, true),
        ),
        Op::GetSuper { multiname } => (multiname, JitOp::VCall(vc::GET_SUPER, k, 0, true)),
        Op::SetSuper { multiname } => (multiname, JitOp::VCall(vc::SET_SUPER, k, 1, false)),
        Op::DeleteProperty { multiname } => (
            multiname,
            JitOp::VCall(vc::DELETE_PROPERTY, k, 0, true),
        ),
        _ => {
            return None;
        },
    };
    if multiname.lazy {
        None
    } else {
        Some(named)
    }
}

/// The next free entry of each table.
struct Next {
    names: u32,
    scripts: u32,
    strings: u32,
    classes: u32,
    natives: u32,
    namespaces: u32,
    reads: u32,
    calls: u32,
}

impl Next {
    spec fn is(self, c: Counts) -> bool {
        &&& self.names == c.names
        &&& self.scripts == c.scripts
        &&& self.strings == c.strings
        &&& self.classes == c.classes
        &&& self.natives == c.natives
        &&& self.namespaces == c.namespaces
        &&& self.reads == c.reads
        &&& self.calls == c.calls
    }

    spec fn at_most(self, n: int) -> bool {
        &&& self.names <= n
        &&& self.scripts <= n
        &&& self.strings <= n
        &&& self.classes <= n
        &&& self.natives <= n
        &&& self.namespaces <= n
        &&& self.reads <= n
        &&& self.calls <= n
    }
}

/// Two switches have the same targets.
pub open spec fn same_switch(a: SwitchTable, b: SwitchTable) -> bool {
    a.default == b.default && a.cases@ == b.cases@
}

fn copy_switch(table: &SwitchTable) -> (r: SwitchTable)
    ensures
        same_switch(r, *table),
{
    let mut cases: Vec<usize> = Vec::new();
    let mut i: usize = 0;
    while i < table.cases.len()
        invariant
            i <= table.cases@.len(),
            cases@ == table.cases@.take(i as int),
        decreases table.cases@.len() - i,
    {
        cases.push(table.cases[i]);
        i = i + 1;
    }
    assert(table.cases@.take(i as int) =~= table.cases@);
    SwitchTable { default: table.default, cases }
}

fn to_table_op(op: &Op, next: &Next, switches: u32, s: &Setting, number: bool, Ghost(c): Ghost<
    Counts,
>) -> (r: Option<JitOp>)
    requires
        next.is(c),
        switches == c.switches,
    ensures
        r == table_op(*op, c, *s, number),
{
    Some(
        match op {
            Op::GetSlot { index } => JitOp::GetSlot(*index, number),
            Op::PushString { .. } => JitOp::PushString(next.strings),
            Op::GetScriptGlobals { .. } => JitOp::GetScriptGlobals(next.scripts),
            Op::Coerce { .. } => JitOp::Coerce(next.classes),
            Op::NewClass { .. } => JitOp::VCall(vc::NEW_CLASS, next.classes, 0, true),
            Op::NewFunction { .. } => JitOp::VCall(vc::NEW_FUNCTION, next.classes, 0, true),
            Op::NewActivation { .. } => JitOp::VCall(vc::NEW_ACTIVATION, next.classes, 0, true),
            Op::CallNative { num_args, push_return_value, .. } => JitOp::VCall(
                vc::CALL_NATIVE,
                next.natives,
                *num_args,
                *push_return_value,
            ),
            Op::PushNamespace { .. } => JitOp::VCall(
                vc::PUSH_NAMESPACE,
                next.namespaces,
                0,
                true,
            ),
            Op::LookupSwitch(_) => JitOp::LookupSwitch(switches),
            Op::CallMethod { index, num_args, push_return_value } => if s.caches {
                JitOp::CallMethodDirect(*index, *num_args, *push_return_value, next.calls)
            } else {
                JitOp::CallMethod(*index, *num_args, *push_return_value)
            },
            _ => {
                return None;
            },
        },
    )
}

/// Counts the tables that `op` refers to.
fn advance(next: &mut Next, op: &Op, s: &Setting, Ghost(c): Ghost<Counts>, Ghost(n): Ghost<int>)
    requires
        old(next).is(c),
        old(next).at_most(n),
        n < u32::MAX,
    ensures
        final(next).is(c.after(*op, *s)),
        final(next).at_most(n + 1),
{
    match op {
        Op::GetPropertyStatic { .. } => {
            next.names = next.names + 1;
            if s.caches {
                next.reads = next.reads + 1;
            }
        },
        Op::GetPropertyFast { .. } | Op::FindPropStrict { .. } | Op::FindProperty { .. }
        | Op::GetSuper { .. } | Op::SetSuper { .. } | Op::DeleteProperty { .. }
        | Op::SetPropertyStatic { .. } | Op::SetPropertyFast { .. } | Op::CallProperty { .. }
        | Op::CallPropVoid { .. } | Op::ConstructProp { .. } | Op::CallSuper { .. } => {
            next.names = next.names + 1;
        },
        Op::GetScriptGlobals { .. } => {
            next.scripts = next.scripts + 1;
        },
        Op::PushString { .. } => {
            next.strings = next.strings + 1;
        },
        Op::Coerce { .. } | Op::NewClass { .. } | Op::NewActivation { .. } | Op::NewFunction {
            ..
        } => {
            next.classes = next.classes + 1;
        },
        Op::CallNative { .. } => {
            next.natives = next.natives + 1;
        },
        Op::PushNamespace { .. } => {
            next.namespaces = next.namespaces + 1;
        },
        Op::CallMethod { .. } => {
            if s.caches {
                next.calls = next.calls + 1;
            }
        },
        _ => {},
    }
}

/// The boxed op of `op`, or `None` if there is none.
fn boxed_op(op: &Op, next: &Next, switches: u32, s: &Setting, number: bool, Ghost(c): Ghost<
    Counts,
>) -> (r: Option<JitOp>)
    requires
        next.is(c),
        switches == c.switches,
        *op matches Op::NewObject { num_args } ==> num_args * 2 <= u32::MAX,
    ensures
        r == boxed(*op, c, *s, number),
{
    if let Some(j) = to_plain_op(op) {
        Some(j)
    } else if let Some(j) = to_dm_op(op, s.inline_dm) {
        Some(j)
    } else if let Some(j) = to_scope_op(op, s) {
        Some(j)
    } else if let Some(j) = to_name_op(op, next.names, next.reads, s, number) {
        Some(j)
    } else {
        to_table_op(op, next, switches, s, number, Ghost(c))
    }
}

/// How many ops push a scope.
pub open spec fn scope_pushes(ops: Seq<Op>) -> nat
    decreases ops.len(),
{
    if ops.len() == 0 {
        0
    } else {
        scope_pushes(ops.drop_last()) + one_if(ops.last() is PushScope)
    }
}

/// The op changes the scope stack other than by a push, looks past its first entry, or writes
/// local 0.
pub open spec fn unsettles_scope(op: Op) -> bool {
    match op {
        Op::PushWith => true,
        Op::PopScope => true,
        Op::GetScopeObject { index } => index >= 1,
        Op::SetLocal { index } => index == 0,
        Op::StoreLocal { index } => index == 0,
        Op::Kill { index } => index == 0,
        _ => false,
    }
}

/// The scope stack holds `this` and nothing else: the method starts by pushing it, pushes
/// nothing more, and leaves local 0 alone.
pub open spec fn this_is_the_scope(ops: Seq<Op>) -> bool {
    &&& ops.len() >= 2
    &&& ops[0] matches Op::GetLocal { index: 0 }
    &&& ops[1] is PushScope
    &&& scope_pushes(ops) == 1
    &&& forall|i: int| 0 <= i < ops.len() ==> !unsettles_scope(#[trigger] ops[i])
}

/// Whether the whole use of scopes is the prologue that pushes `this`.
fn scope_is_this(ops: &[Op]) -> (r: bool)
    ensures
        r == this_is_the_scope(ops@),
{
    if ops.len() < 2 || !matches!(ops[0], Op::GetLocal { index: 0 }) || !matches!(
        ops[1],
        Op::PushScope
    ) {
        return false;
    }
    let mut pushes: usize = 0;
    let mut i: usize = 0;
    assert(ops@.take(0) =~= Seq::empty());
    while i < ops.len()
        invariant
            i <= ops@.len(),
            pushes <= i,
            pushes == scope_pushes(ops@.take(i as int)),
            forall|k: int| 0 <= k < i ==> !unsettles_scope(#[trigger] ops@[k]),
        decreases ops@.len() - i,
    {
        assert(ops@.take(i + 1).drop_last() =~= ops@.take(i as int));
        let unsettles = match &ops[i] {
            Op::PushWith | Op::PopScope => true,
            Op::GetScopeObject { index } => *index >= 1,
            Op::SetLocal { index } | Op::StoreLocal { index } | Op::Kill { index } => *index == 0,
            _ => false,
        };
        if unsettles {
            assert(unsettles_scope(ops@[i as int]));
            return false;
        }
        if matches!(ops[i], Op::PushScope) {
            pushes = pushes + 1;
        }
        i = i + 1;
    }
    assert(ops@.take(i as int) =~= ops@);
    pushes == 1
}

/// Some op keeps the scope chain.
pub open spec fn keeps_scopes(ops: Seq<Op>) -> bool {
    exists|i: int| 0 <= i < ops.len() && ((#[trigger] ops[i]) is NewClass || ops[i] is NewFunction)
}

/// Some op reads a scope.
pub open spec fn reads_scopes(ops: Seq<Op>) -> bool {
    exists|i: int| 0 <= i < ops.len() && (#[trigger] ops[i]) is GetScopeObject
}

/// What the method decides for each of its ops.
pub open spec fn setting(ops: Seq<Op>, target: Target) -> Setting {
    Setting {
        scopes: keeps_scopes(ops) || (!this_is_the_scope(ops) && reads_scopes(ops)),
        scope_this: this_is_the_scope(ops),
        inline_dm: target.web,
        caches: target.slots is Some,
    }
}

fn method_setting(ops: &[Op], target: &Target) -> (s: Setting)
    ensures
        s == setting(ops@, *target),
{
    let scope_this = scope_is_this(ops);
    let mut keeps = false;
    let mut reads = false;
    let mut i: usize = 0;
    while i < ops.len()
        invariant
            i <= ops@.len(),
            keeps <==> exists|k: int|
                0 <= k < i && ((#[trigger] ops@[k]) is NewClass || ops@[k] is NewFunction),
            reads <==> exists|k: int| 0 <= k < i && (#[trigger] ops@[k]) is GetScopeObject,
        decreases ops@.len() - i,
    {
        match &ops[i] {
            Op::NewClass { .. } | Op::NewFunction { .. } => {
                keeps = true;
            },
            Op::GetScopeObject { .. } => {
                reads = true;
            },
            _ => {},
        }
        i = i + 1;
    }
    Setting {
        scopes: keeps || (!scope_this && reads),
        scope_this,
        inline_dm: target.web,
        caches: target.slots.is_some(),
    }
}

fn has_index(idx: &[u32], i: u32) -> (r: bool)
    ensures
        r == idx@.contains(i),
{
    let mut k: usize = 0;
    while k < idx.len()
        invariant
            k <= idx@.len(),
            forall|j: int| 0 <= j < k ==> idx@[j] != i,
        decreases idx@.len() - k,
    {
        if idx[k] == i {
            return true;
        }
        k = k + 1;
    }
    false
}

/// Sizes that the tables can count.
pub open spec fn countable(ops: Seq<Op>) -> bool {
    &&& ops.len() < u32::MAX
    &&& forall|i: int|
        0 <= i < ops.len() ==> (#[trigger] ops[i] matches Op::NewObject { num_args } ==> num_args
            * 2 <= u32::MAX)
}

/// Whether the ops of a method can be counted.
pub fn ops_countable(ops: &[Op]) -> (r: bool)
    ensures
        r == countable(ops@),
{
    if ops.len() >= u32::MAX as usize {
        return false;
    }
    let mut i: usize = 0;
    while i < ops.len()
        invariant
            i <= ops@.len(),
            forall|k: int|
                0 <= k < i ==> (#[trigger] ops@[k] matches Op::NewObject { num_args } ==> num_args
                    * 2 <= u32::MAX),
        decreases ops@.len() - i,
    {
        if let Op::NewObject { num_args } = &ops[i] {
            if *num_args > u32::MAX / 2 {
                assert(ops@[i as int] matches Op::NewObject { num_args } && num_args * 2
                    > u32::MAX);
                return false;
            }
        }
        i = i + 1;
    }
    true
}

/// Where the op may branch to, as an op index.
pub open spec fn jump_target(op: Op) -> Option<usize> {
    match op {
        Op::Jump { offset } => Some(offset),
        Op::IfTrue { offset } => Some(offset),
        Op::IfFalse { offset } => Some(offset),
        _ => None,
    }
}

/// A boxed op branches to where its op does.
pub proof fn branches_carry_over(op: Op, c: Counts, s: Setting, number: bool)
    requires
        boxed(op, c, s, number) is Some,
    ensures
        op::branch_target(boxed(op, c, s, number)->0) == jump_target(op),
{
}

/// The boxed op of op `i`.
pub open spec fn boxed_at(ops: Seq<Op>, number_slots: Seq<u32>, target: Target, i: int) -> Option<
    JitOp,
> {
    let s = setting(ops, target);
    boxed(ops[i], counts(ops, i, s), s, number_slots.contains(i as u32))
}

/// Every op has a boxed op.
pub open spec fn all_boxed(ops: Seq<Op>, number_slots: Seq<u32>, target: Target) -> bool {
    forall|i: int|
        0 <= i < ops.len() ==> (#[trigger] boxed_at(ops, number_slots, target, i)) is Some
}

/// `tables` holds the targets of each switch among the first `n` ops, in order.
pub open spec fn switches_line_up(ops: Seq<Op>, s: Setting, n: int, tables: Seq<SwitchTable>) -> bool {
    &&& tables.len() == counts(ops, n, s).switches
    &&& forall|i: int|
        0 <= i < n ==> (#[trigger] ops[i] matches Op::LookupSwitch(table) ==> {
            let at = counts(ops, i, s).switches as int;
            at < tables.len() && same_switch(tables[at], table)
        })
}

proof fn lemma_counts_grow(ops: Seq<Op>, i: int, j: int, s: Setting)
    requires
        0 <= i <= j,
    ensures
        counts(ops, i, s).switches <= counts(ops, j, s).switches,
        counts(ops, j, s).switches <= j,
    decreases j,
{
    if i < j {
        lemma_counts_grow(ops, i, j - 1, s);
    } else if j > 0 {
        lemma_counts_grow(ops, j - 1, j - 1, s);
    }
}

/// Translates to boxed ops for `target`, with the targets of the switches. `number_slots`
/// holds the indices of the reads that are known to give a `Number`. `None` if an op has no
/// boxed op.
pub fn translate_boxed_for(target: &Target, ops: &[Op], number_slots: &[u32]) -> (r: Option<
    (Vec<JitOp>, Vec<SwitchTable>),
>)
    requires
        countable(ops@),
    ensures
        r is Some <==> all_boxed(ops@, number_slots@, *target),
        r matches Some(p) ==> {
            &&& p.0@.len() == ops@.len()
            &&& forall|i: int|
                0 <= i < ops@.len() ==> boxed_at(ops@, number_slots@, *target, i) == Some(
                    #[trigger] p.0@[i],
                )
            &&& switches_line_up(ops@, setting(ops@, *target), ops@.len() as int, p.1@)
        },
{
    let s = method_setting(ops, target);
    let mut out: Vec<JitOp> = Vec::new();
    let mut switches: Vec<SwitchTable> = Vec::new();
    let mut next = Next {
        names: 0,
        scripts: 0,
        strings: 0,
        classes: 0,
        natives: 0,
        namespaces: 0,
        reads: 0,
        calls: 0,
    };
    let mut i: usize = 0;
    while i < ops.len()
        invariant
            i <= ops@.len(),
            countable(ops@),
            s == setting(ops@, *target),
            next.is(counts(ops@, i as int, s)),
            next.at_most(i as int),
            out@.len() == i,
            forall|k: int|
                0 <= k < i ==> boxed_at(ops@, number_slots@, *target, k) == Some(
                    #[trigger] out@[k],
                ),
            switches_line_up(ops@, s, i as int, switches@),
        decreases ops@.len() - i,
    {
        let op = &ops[i];
        let ghost c = counts(ops@, i as int, s);
        proof {
            lemma_counts_grow(ops@, i as int, i as int, s);
            assert(*op == ops@[i as int]);
        }
        let number = has_index(number_slots, i as u32);
        match boxed_op(op, &next, switches.len() as u32, &s, number, Ghost(c)) {
            Some(j) => {
                out.push(j);
            },
            None => {
                assert(boxed_at(ops@, number_slots@, *target, i as int) is None);
                return None;
            },
        }
        advance(&mut next, op, &s, Ghost(c), Ghost(i as int));
        let ghost before = switches@;
        if let Op::LookupSwitch(table) = op {
            switches.push(copy_switch(table));
        }
        proof {
            assert forall|k: int| 0 <= k < i + 1 implies (#[trigger] ops@[k] matches Op::LookupSwitch(
                table,
            ) ==> {
                let at = counts(ops@, k, s).switches as int;
                at < switches@.len() && same_switch(switches@[at], table)
            }) by {
                if k < i {
                    lemma_counts_grow(ops@, k, i as int, s);
                }
            }
        }
        i = i + 1;
    }
    proof {
        assert forall|k: int| 0 <= k < ops@.len() implies (#[trigger] boxed_at(
            ops@,
            number_slots@,
            *target,
            k,
        )) is Some by {
            assert(boxed_at(ops@, number_slots@, *target, k) == Some(out@[k]));
        }
    }
    Some((out, switches))
}

/// Translates to boxed ops, with the targets of the switches.
pub fn translate_boxed(ops: &[Op], number_slots: &[u32]) -> (r: Option<
    (Vec<JitOp>, Vec<SwitchTable>),
>)
    requires
        countable(ops@),
    ensures
        r is Some <==> all_boxed(ops@, number_slots@, wasm::native_target()),
        r matches Some(p) ==> {
            &&& p.0@.len() == ops@.len()
            &&& forall|i: int|
                0 <= i < ops@.len() ==> boxed_at(
                    ops@,
                    number_slots@,
                    wasm::native_target(),
                    i,
                ) == Some(#[trigger] p.0@[i])
            &&& switches_line_up(
                ops@,
                setting(ops@, wasm::native_target()),
                ops@.len() as int,
                p.1@,
            )
        },
{
    translate_boxed_for(&Target::native(), ops, number_slots)
}

/// The op has a boxed op for `target`, whatever stands around it.
pub open spec fn supported(op: Op, target: Target) -> bool {
    plain_op(op) is Some || dm_op(op, target.web) is Some || op is GetScopeObject
        || op is PushScope || op is PopScope || (match name_of(op) {
        Some(multiname) => !multiname.lazy || op is GetPropertyStatic || op is GetPropertyFast
            || op is SetPropertyStatic || op is SetPropertyFast,
        None => false,
    }) || op is GetSlot || string_of(op) is Some || script_of(op) is Some || class_of(op) is Some
        || native_of(op) is Some || namespace_of(op) is Some || op is LookupSwitch
        || op is CallMethod
}

/// Whether an op has a boxed op does not depend on what stands around it.
pub proof fn support_is_the_ops_own(op: Op, c: Counts, s: Setting, number: bool, target: Target)
    requires
        s.inline_dm == target.web,
    ensures
        boxed(op, c, s, number) is Some <==> supported(op, target),
{
}

/// The name of the first op that has no boxed op for `target`; `None` if every op has one.
pub fn first_unsupported_boxed_for(target: &Target, ops: &[Op]) -> (r: Option<String>)
    requires
        countable(ops@),
    ensures
        match r {
            Some(name) => exists|i: int|
                0 <= i < ops@.len() && !supported(#[trigger] ops@[i], *target) && name@
                    == variant_name(ops@[i]) && forall|j: int|
                    0 <= j < i ==> supported(#[trigger] ops@[j], *target),
            None => forall|i: int| 0 <= i < ops@.len() ==> supported(#[trigger] ops@[i], *target),
        },
{
    let s = Setting {
        scopes: true,
        scope_this: false,
        inline_dm: target.web,
        caches: target.slots.is_some(),
    };
    let next = Next {
        names: 0,
        scripts: 0,
        strings: 0,
        classes: 0,
        natives: 0,
        namespaces: 0,
        reads: 0,
        calls: 0,
    };
    let mut i: usize = 0;
    while i < ops.len()
        invariant
            i <= ops@.len(),
            countable(ops@),
            next.is(Counts::none()),
            s.inline_dm == target.web,
            forall|k: int| 0 <= k < i ==> supported(#[trigger] ops@[k], *target),
        decreases ops@.len() - i,
    {
        let op = &ops[i];
        proof {
            assert(*op == ops@[i as int]);
            support_is_the_ops_own(*op, Counts::none(), s, false, *target);
        }
        if boxed_op(op, &next, 0, &s, false, Ghost(Counts::none())).is_none() {
            return Some(op_variant_name(op));
        }
        i = i + 1;
    }
    None
}

/// The name of the first op that has no boxed op; `None` if every op has one.
pub fn first_unsupported_boxed(ops: &[Op]) -> (r: Option<String>)
    requires
        countable(ops@),
    ensures
        match r {
            Some(name) => exists|i: int|
                0 <= i < ops@.len() && !supported(#[trigger] ops@[i], wasm::native_target())
                    && name@ == variant_name(ops@[i]) && forall|j: int|
                    0 <= j < i ==> supported(#[trigger] ops@[j], wasm::native_target()),
            None => forall|i: int|
                0 <= i < ops@.len() ==> supported(#[trigger] ops@[i], wasm::native_target()),
        },
{
    first_unsupported_boxed_for(&Target::native(), ops)
}

/// The boxed way takes a method just when none of its ops is named as unsupported.
pub proof fn declined_iff_an_op_is_unsupported(
    ops: Seq<Op>,
    number_slots: Seq<u32>,
    target: Target,
)
    ensures
        all_boxed(ops, number_slots, target) <==> forall|i: int|
            0 <= i < ops.len() ==> supported(#[trigger] ops[i], target),
{
    let s = setting(ops, target);
    assert forall|i: int| 0 <= i < ops.len() implies ((#[trigger] boxed_at(
        ops,
        number_slots,
        target,
        i,
    )) is Some <==> supported(ops[i], target)) by {
        support_is_the_ops_own(
            ops[i],
            counts(ops, i, s),
            s,
            number_slots.contains(i as u32),
            target,
        );
    }
    if all_boxed(ops, number_slots, target) {
        assert forall|i: int| 0 <= i < ops.len() implies supported(#[trigger] ops[i], target) by {
            assert(boxed_at(ops, number_slots, target, i) is Some);
        }
    }
}

// The tables.

/// The entries of the first `n` ops, in order.
pub open spec fn entries(ops: Seq<Op>, n: int, f: spec_fn(Op) -> Option<u64>) -> Seq<u64>
    decreases n,
{
    if n <= 0 {
        Seq::empty()
    } else {
        let rest = entries(ops, n - 1, f);
        match f(ops[n - 1]) {
            Some(x) => rest.push(x),
            None => rest,
        }
    }
}

fn table_of<F: Fn(&Op) -> Option<u64>>(
    ops: &[Op],
    f: F,
    Ghost(p): Ghost<spec_fn(Op) -> Option<u64>>,
) -> (r: Vec<u64>)
    requires
        forall|op: &Op| f.requires((op,)),
        forall|op: &Op, x: Option<u64>| f.ensures((op,), x) ==> x == p(*op),
    ensures
        r@ == entries(ops@, ops@.len() as int, p),
{
    let mut r: Vec<u64> = Vec::new();
    let mut i: usize = 0;
    while i < ops.len()
        invariant
            i <= ops@.len(),
            forall|op: &Op| f.requires((op,)),
            forall|op: &Op, x: Option<u64>| f.ensures((op,), x) ==> x == p(*op),
            r@ == entries(ops@, i as int, p),
        decreases ops@.len() - i,
    {
        let x: Option<u64> = f(&ops[i]);
        assert(x == p(ops@[i as int]));
        if let Some(x) = x {
            r.push(x);
        }
        i = i + 1;
    }
    r
}

/// The word of the name that the op refers to.
pub open spec fn name_id(op: Op) -> Option<u64> {
    match name_of(op) {
        Some(multiname) => Some(multiname.id),
        None => None,
    }
}

fn op_name(op: &Op) -> (r: Option<u64>)
    ensures
        r == name_id(*op),
{
    match op {
        Op::GetPropertyStatic { multiname } | Op::GetPropertyFast { multiname }
        | Op::FindPropStrict { multiname } | Op::FindProperty { multiname } | Op::GetSuper {
            multiname,
        } | Op::SetSuper { multiname } | Op::DeleteProperty { multiname }
        | Op::SetPropertyStatic { multiname } | Op::SetPropertyFast { multiname }
        | Op::CallProperty { multiname, .. } | Op::CallPropVoid { multiname, .. }
        | Op::ConstructProp { multiname, .. } | Op::CallSuper { multiname, .. } => Some(
            multiname.id,
        ),
        _ => None,
    }
}

fn op_class(op: &Op) -> (r: Option<u64>)
    ensures
        r == class_of(*op),
{
    match op {
        Op::Coerce { class } | Op::NewClass { class } => Some(*class),
        Op::NewActivation { activation_class } => Some(*activation_class),
        Op::NewFunction { method } => Some(*method),
        _ => None,
    }
}

fn op_native(op: &Op) -> (r: Option<u64>)
    ensures
        r == native_of(*op),
{
    match op {
        Op::CallNative { native, .. } => Some(*native),
        _ => None,
    }
}

fn op_namespace(op: &Op) -> (r: Option<u64>)
    ensures
        r == namespace_of(*op),
{
    match op {
        Op::PushNamespace { namespace } => Some(*namespace),
        _ => None,
    }
}

fn op_string(op: &Op) -> (r: Option<u64>)
    ensures
        r == string_of(*op),
{
    match op {
        Op::PushString { bits } => Some(*bits),
        _ => None,
    }
}

fn op_script(op: &Op) -> (r: Option<u64>)
    ensures
        r == script_of(*op),
{
    match op {
        Op::GetScriptGlobals { script } => Some(*script),
        _ => None,
    }
}

/// The names that a method refers to.
pub fn multiname_table(ops: &[Op]) -> (r: Vec<u64>)
    ensures
        r@ == entries(ops@, ops@.len() as int, |op: Op| name_id(op)),
{
    table_of(ops, op_name, Ghost(|op: Op| name_id(op)))
}

/// The scripts whose globals a method reads.
pub fn script_table(ops: &[Op]) -> (r: Vec<u64>)
    ensures
        r@ == entries(ops@, ops@.len() as int, |op: Op| script_of(op)),
{
    table_of(ops, op_script, Ghost(|op: Op| script_of(op)))
}

/// The strings that a method pushes.
pub fn push_string_table(ops: &[Op]) -> (r: Vec<u64>)
    ensures
        r@ == entries(ops@, ops@.len() as int, |op: Op| string_of(op)),
{
    table_of(ops, op_string, Ghost(|op: Op| string_of(op)))
}

/// The classes that a method coerces to or makes, and the methods that it makes closures of.
pub fn coerce_class_table(ops: &[Op]) -> (r: Vec<u64>)
    ensures
        r@ == entries(ops@, ops@.len() as int, |op: Op| class_of(op)),
{
    table_of(ops, op_class, Ghost(|op: Op| class_of(op)))
}

/// The natives that a method calls.
pub fn natives_table(ops: &[Op]) -> (r: Vec<u64>)
    ensures
        r@ == entries(ops@, ops@.len() as int, |op: Op| native_of(op)),
{
    table_of(ops, op_native, Ghost(|op: Op| native_of(op)))
}

/// The namespaces that a method pushes.
pub fn namespaces_table(ops: &[Op]) -> (r: Vec<u64>)
    ensures
        r@ == entries(ops@, ops@.len() as int, |op: Op| namespace_of(op)),
{
    table_of(ops, op_namespace, Ghost(|op: Op| namespace_of(op)))
}

/// No more ops refer to a table than there are.
pub proof fn lemma_counts_bounded(ops: Seq<Op>, i: int, s: Setting)
    requires
        0 <= i,
    ensures
        counts(ops, i, s).names <= i,
        counts(ops, i, s).scripts <= i,
        counts(ops, i, s).strings <= i,
        counts(ops, i, s).classes <= i,
        counts(ops, i, s).natives <= i,
        counts(ops, i, s).namespaces <= i,
        counts(ops, i, s).switches <= i,
    decreases i,
{
    if i > 0 {
        lemma_counts_bounded(ops, i - 1, s);
    }
}

proof fn lemma_entry(ops: Seq<Op>, i: int, n: int, f: spec_fn(Op) -> Option<u64>)
    requires
        0 <= i < n,
        f(ops[i]) is Some,
    ensures
        entries(ops, i, f).len() < entries(ops, n, f).len(),
        entries(ops, n, f)[entries(ops, i, f).len() as int] == f(ops[i])->0,
    decreases n,
{
    if i < n - 1 {
        lemma_entry(ops, i, n - 1, f);
    }
}

proof fn lemma_counts_are_lengths(ops: Seq<Op>, i: int, s: Setting)
    ensures
        counts(ops, i, s).names == entries(ops, i, |op: Op| name_id(op)).len(),
        counts(ops, i, s).scripts == entries(ops, i, |op: Op| script_of(op)).len(),
        counts(ops, i, s).strings == entries(ops, i, |op: Op| string_of(op)).len(),
        counts(ops, i, s).classes == entries(ops, i, |op: Op| class_of(op)).len(),
        counts(ops, i, s).natives == entries(ops, i, |op: Op| native_of(op)).len(),
        counts(ops, i, s).namespaces == entries(ops, i, |op: Op| namespace_of(op)).len(),
    decreases i,
{
    if i > 0 {
        lemma_counts_are_lengths(ops, i - 1, s);
    }
}

/// Entry `k` of the table made by `f` is what op `i` refers to.
pub open spec fn refers_to(
    ops: Seq<Op>,
    i: int,
    f: spec_fn(Op) -> Option<u64>,
    k: nat,
) -> bool {
    f(ops[i]) is Some ==> {
        &&& k < entries(ops, ops.len() as int, f).len()
        &&& entries(ops, ops.len() as int, f)[k as int] == f(ops[i])->0
    }
}

/// The entry that a boxed op names is, in the table of the whole method, the one for its own
/// op.
pub proof fn tables_line_up(ops: Seq<Op>, s: Setting, i: int)
    requires
        0 <= i < ops.len(),
    ensures
        refers_to(ops, i, |op: Op| name_id(op), counts(ops, i, s).names),
        refers_to(ops, i, |op: Op| script_of(op), counts(ops, i, s).scripts),
        refers_to(ops, i, |op: Op| string_of(op), counts(ops, i, s).strings),
        refers_to(ops, i, |op: Op| class_of(op), counts(ops, i, s).classes),
        refers_to(ops, i, |op: Op| native_of(op), counts(ops, i, s).natives),
        refers_to(ops, i, |op: Op| namespace_of(op), counts(ops, i, s).namespaces),
{
    lemma_counts_are_lengths(ops, i, s);
    let n = ops.len() as int;
    if name_id(ops[i]) is Some {
        lemma_entry(ops, i, n, |op: Op| name_id(op));
    }
    if script_of(ops[i]) is Some {
        lemma_entry(ops, i, n, |op: Op| script_of(op));
    }
    if string_of(ops[i]) is Some {
        lemma_entry(ops, i, n, |op: Op| string_of(op));
    }
    if class_of(ops[i]) is Some {
        lemma_entry(ops, i, n, |op: Op| class_of(op));
    }
    if native_of(ops[i]) is Some {
        lemma_entry(ops, i, n, |op: Op| native_of(op));
    }
    if namespace_of(ops[i]) is Some {
        lemma_entry(ops, i, n, |op: Op| namespace_of(op));
    }
}

/// The slots of `this` that a run is checked on: two fixed ones, and those that the method
/// writes.
pub open spec fn is_tracked(ops: Seq<Op>, slot: u32) -> bool {
    slot == 1 || slot == 2 || exists|i: int|
        0 <= i < ops.len() && #[trigger] written_slot(ops[i]) == Some(slot)
}

/// The slot that the op writes.
pub open spec fn written_slot(op: Op) -> Option<u32> {
    match op {
        Op::SetSlot { index } => Some(index),
        Op::SetSlotNoCoerce { index } => Some(index),
        Op::SetSlotCoerceI { index } => Some(index),
        _ => None,
    }
}

fn has_slot(ids: &Vec<u32>, slot: u32) -> (r: bool)
    ensures
        r == ids@.contains(slot),
{
    let mut k: usize = 0;
    while k < ids.len()
        invariant
            k <= ids@.len(),
            forall|j: int| 0 <= j < k ==> ids@[j] != slot,
        decreases ids@.len() - k,
    {
        if ids[k] == slot {
            return true;
        }
        k = k + 1;
    }
    false
}

/// The slots to track, each once.
pub fn tracked_slot_ids(ops: &[Op]) -> (ids: Vec<u32>)
    ensures
        forall|slot: u32| ids@.contains(slot) <==> #[trigger] is_tracked(ops@, slot),
        ids@.no_duplicates(),
{
    let mut ids: Vec<u32> = Vec::new();
    ids.push(1);
    ids.push(2);
    let mut i: usize = 0;
    assert(ids@[0] == 1 && ids@[1] == 2);
    while i < ops.len()
        invariant
            i <= ops@.len(),
            ids@.no_duplicates(),
            forall|slot: u32|
                #![trigger ids@.contains(slot)]
                ids@.contains(slot) <==> (slot == 1 || slot == 2 || exists|k: int|
                    0 <= k < i && #[trigger] written_slot(ops@[k]) == Some(slot)),
        decreases ops@.len() - i,
    {
        let written: Option<u32> = match &ops[i] {
            Op::SetSlot { index } | Op::SetSlotNoCoerce { index } | Op::SetSlotCoerceI {
                index,
            } => Some(*index),
            _ => None,
        };
        assert(written == written_slot(ops@[i as int]));
        let ghost before = ids@;
        if let Some(slot) = written {
            if !has_slot(&ids, slot) {
                ids.push(slot);
                assert(ids@[before.len() as int] == slot);
                assert forall|x: u32| #[trigger] ids@.contains(x) <==> (before.contains(x) || x
                    == slot) by {
                    if before.contains(x) {
                        let j = choose|j: int| 0 <= j < before.len() && before[j] == x;
                        assert(ids@[j] == x);
                    }
                }
            }
        }
        i = i + 1;
    }
    ids
}

} // verus!
