//! The compiler's instruction set.

use vstd::prelude::*;

verus! {

/// The targets of one `lookupswitch`, as op indices. [`JitOp::LookupSwitch`] names its
/// table by position in a side list, which keeps `JitOp` a `Copy` type.
#[derive(Debug, PartialEq, Eq)]
pub struct SwitchTable {
    /// Taken when the selector names no case.
    pub default: usize,
    /// `cases[selector]`.
    pub cases: Vec<usize>,
}

/// One exception handler of a method, as op indices.
#[derive(Debug, Clone, Copy, PartialEq, Eq, Structural)]
pub struct ExcRange {
    /// First op that the handler covers.
    pub from: usize,
    /// First op past the covered range.
    pub to: usize,
    /// Where a caught exception continues.
    pub target: usize,
}

/// An op of the compiler. Branch targets are indices into the op list.
///
/// Three models of the operand stack exist side by side. The int ops keep raw `i32`s on
/// it, the boxed ops raw 64-bit value words, the double ops raw `f64`s. A method uses one
/// of the three; `Pop` and `Nop` belong to all.
#[derive(Debug, Clone, Copy, PartialEq, Eq, Structural)]
pub enum JitOp {
    // Int model.
    /// Push the low 32 bits of a local.
    GetLocal(u32),
    /// Pop an int; store it, boxed, into a local.
    SetLocal(u32),
    /// Push an int.
    PushInt(i32),
    /// Pop `a`, `b`; push `a + b`, wrapping.
    AddI,
    /// Pop `a`, `b`; push `a - b`, wrapping.
    SubtractI,
    /// Pop `a`, `b`; push `a * b`, wrapping.
    MultiplyI,
    /// Add one to the top int.
    IncrementI,
    /// Subtract one from the top int.
    DecrementI,
    /// Add one to an int local in place.
    IncLocalI(u32),
    /// Subtract one from an int local in place.
    DecLocalI(u32),
    /// Pop `a`, `b`; push `a < b` as `0` or `1`.
    LessThan,
    /// Pop `a`, `b`; push `a <= b`.
    LessEquals,
    /// Pop `a`, `b`; push `a > b`.
    GreaterThan,
    /// Pop `a`, `b`; push `a >= b`.
    GreaterEquals,
    /// Pop `a`, `b`; push `a == b`.
    Equals,
    /// Drop the top operand.
    Pop,
    /// Duplicate the top int.
    Dup,
    /// Nothing.
    Nop,
    /// Go to an op.
    Jump(usize),
    /// Pop `a`, `b`; branch if `a < b`.
    IfLt(usize),
    /// Pop `a`, `b`; branch if `a >= b`.
    IfGe(usize),
    /// Pop an int; branch if it is zero.
    IfFalse(usize),
    /// Pop an int; branch if it is not zero.
    IfTrue(usize),
    /// Return the top int, boxed.
    ReturnValue,
    // Boxed model.
    /// Push a local's value word.
    GetLocalValue(u32),
    /// Pop a value word into a local.
    SetLocalValue(u32),
    /// Replace the top by a unary helper's result.
    CallHelper(u32),
    /// Pop `v1`, `v2`; push a binary helper's result.
    CallHelper2(u32),
    /// A comparison, inline for numbers, by binary helper otherwise. The index selects
    /// both: `0` `==`, `1` `<`, `2` `<=`, `3` `>`, `4` `>=`.
    CmpNum(u32),
    /// A bitwise operation, inline for ints, by binary helper otherwise: `5` and, `6` or,
    /// `7` xor, `8` shift left, `9` shift right, `10` unsigned shift right.
    BitOpInt(u32),
    /// `11` multiply, `12` subtract, `18` add: inline for ints (an int if it fits, else a
    /// `Number`) and for numbers, by binary helper otherwise.
    ArithInt(u32),
    /// `13` divide: inline for numbers, always a `Number`; by binary helper otherwise.
    ArithNum(u32),
    /// `ToInt32` (`true`) or `ToUint32`, inline where the value is already its own image.
    CoerceInt(bool),
    /// `ToBoolean`, boxed.
    CoerceBool,
    /// Swap the top two.
    SwapValue,
    /// Return the top value word.
    ReturnValueBoxed,
    /// Return the top value coerced to the declared return type.
    ReturnValueCoerced,
    /// As [`JitOp::ReturnValueCoerced`], with the class of the return type at hand.
    ReturnValueCoerceBaked(u64),
    /// Return fixed value bits.
    ReturnVoidBoxed(u64),
    /// Duplicate the top value word.
    DupValue,
    /// Copy the top into a local, keeping it.
    StoreLocalValue(u32),
    /// Inline domain-memory load of `1`, `2` or `4` bytes.
    DmLoad(u32),
    /// Inline domain-memory store of `1`, `2` or `4` bytes.
    DmStore(u32),
    /// Inline domain-memory float load of `4` or `8` bytes.
    DmLoadF(u32),
    /// Inline domain-memory float store of `4` or `8` bytes.
    DmStoreF(u32),
    /// Pop two boxed ints; push their sum, boxed.
    AddIBoxed,
    /// Pop two boxed ints; push their difference.
    SubtractIBoxed,
    /// Pop two boxed ints; push their product.
    MultiplyIBoxed,
    /// Add one to the top boxed int.
    IncrementIBoxed,
    /// Subtract one from the top boxed int.
    DecrementIBoxed,
    /// Replace the receiver by its property named by the k-th multiname.
    GetProperty(u32),
    /// As [`JitOp::GetProperty`], at a numbered cache site.
    GetPropertyIc(u32, u32),
    /// Pop receiver and name; push the property. `true`: it is known to be a `Number`.
    GetPropertyFast(u32, bool),
    /// Replace the receiver by one of its slots. `true`: it is known to be a `Number`.
    GetSlot(u32, bool),
    /// Push the object that holds the k-th multiname; `true`: throw if there is none.
    FindProp(u32, bool),
    /// Push a boxed int constant.
    PushIntValue(i32),
    /// Push value bits fixed at translation.
    PushConst(u64),
    /// Push value bits fixed at compilation.
    PushBits(u64),
    /// Pop two; call a ternary helper with an immediate, for its effect.
    CallHelper3(u32, u32),
    /// Pop a value; branch if it is true.
    IfTrueBoxed(usize),
    /// Pop a value; branch if it is false.
    IfFalseBoxed(usize),
    /// Push the k-th string constant.
    PushString(u32),
    /// Pop a value and throw it.
    Throw,
    /// Push the scope object of an exception handler.
    NewCatch(u32),
    /// Pop the scope stack.
    PopScopeReal,
    /// Push a captured scope.
    GetOuterScope(u32),
    /// `ToString`; may throw.
    CoerceString,
    /// Coerce to the k-th class; may throw.
    Coerce(u32),
    /// Add (`true`) or subtract one, in a boxed int local.
    IncDecLocalIValue(u32, bool),
    /// Add (`true`) or subtract one, in a local taken as a `Number`.
    IncDecLocalNum(u32, bool),
    /// Enumeration step over two locals; push whether the loop goes on.
    HasNext2(u32, u32),
    /// Pop a selector; branch by the given [`SwitchTable`].
    LookupSwitch(u32),
    /// Pop a value onto the scope stack.
    PushScopeReal,
    /// Push a scope of the method's own.
    GetScopeObject(u32),
    /// Push the k-th script's global object.
    GetScriptGlobals(u32),
    /// Call method `id` with `argc` arguments; push the result if the flag is set.
    CallMethod(u32, u32, bool),
    /// As [`JitOp::CallMethod`], at a numbered cache site.
    CallMethodDirect(u32, u32, bool, u32),
    /// Call the property named by the k-th multiname.
    CallProperty(u32, u32, bool),
    /// Run the superclass constructor on the receiver.
    ConstructSuper(u32),
    /// Call a function value with an explicit receiver.
    CallValue(u32),
    /// `(kind, imm, spill, push)`: see [`crate::lower::vc`].
    VCall(u32, u32, u32, bool),
    // Double model.
    /// Push a local as a double.
    GetLocalDouble(u32),
    /// Pop a double into a local, boxed.
    SetLocalDouble(u32),
    /// Copy the top double into a local, boxed, keeping it.
    StoreLocalDouble(u32),
    /// Push a double by its bits.
    PushDouble(u64),
    /// Pop two doubles; push their sum.
    AddD,
    /// Pop two doubles; push their difference.
    SubtractD,
    /// Pop two doubles; push their product.
    MultiplyD,
    /// Pop two doubles; push their quotient.
    DivideD,
    /// Add one to the top double.
    IncrementD,
    /// Subtract one from the top double.
    DecrementD,
    /// Negate the top double.
    NegateD,
    /// Return the top double, boxed.
    ReturnDouble,
}

/// The op that `op` may branch to, if it is a branch with one target.
pub open spec fn branch_target(op: JitOp) -> Option<usize> {
    match op {
        JitOp::Jump(t) => Some(t),
        JitOp::IfLt(t) => Some(t),
        JitOp::IfGe(t) => Some(t),
        JitOp::IfFalse(t) => Some(t),
        JitOp::IfTrue(t) => Some(t),
        JitOp::IfTrueBoxed(t) => Some(t),
        JitOp::IfFalseBoxed(t) => Some(t),
        _ => None,
    }
}

/// The returns.
pub open spec fn is_return(op: JitOp) -> bool {
    match op {
        JitOp::ReturnValue => true,
        JitOp::ReturnValueBoxed => true,
        JitOp::ReturnValueCoerced => true,
        JitOp::ReturnValueCoerceBaked(_) => true,
        JitOp::ReturnVoidBoxed(_) => true,
        JitOp::ReturnDouble => true,
        _ => false,
    }
}

/// A basic block ends after a branch, a switch, a throw or a return.
pub open spec fn ends_block(op: JitOp) -> bool {
    branch_target(op) is Some || op is LookupSwitch || op is Throw || is_return(op)
}

/// `op` with its branch target replaced by `t`, if it has one.
pub open spec fn with_target(op: JitOp, t: usize) -> JitOp {
    match op {
        JitOp::Jump(_) => JitOp::Jump(t),
        JitOp::IfLt(_) => JitOp::IfLt(t),
        JitOp::IfGe(_) => JitOp::IfGe(t),
        JitOp::IfFalse(_) => JitOp::IfFalse(t),
        JitOp::IfTrue(_) => JitOp::IfTrue(t),
        JitOp::IfTrueBoxed(_) => JitOp::IfTrueBoxed(t),
        JitOp::IfFalseBoxed(_) => JitOp::IfFalseBoxed(t),
        other => other,
    }
}

impl JitOp {
    /// The branch target, if this op is a branch with one target.
    pub fn target(self) -> (r: Option<usize>)
        ensures
            r == branch_target(self),
    {
        match self {
            JitOp::Jump(t) | JitOp::IfLt(t) | JitOp::IfGe(t) | JitOp::IfFalse(t)
            | JitOp::IfTrue(t) | JitOp::IfTrueBoxed(t) | JitOp::IfFalseBoxed(t) => Some(t),
            _ => None,
        }
    }

    /// Whether this op ends a basic block.
    pub fn is_terminator(self) -> (r: bool)
        ensures
            r == ends_block(self),
    {
        matches!(
            self,
            JitOp::Jump(_) | JitOp::IfLt(_) | JitOp::IfGe(_) | JitOp::IfFalse(_)
                | JitOp::IfTrue(_) | JitOp::IfTrueBoxed(_) | JitOp::IfFalseBoxed(_)
                | JitOp::LookupSwitch(_) | JitOp::Throw | JitOp::ReturnValue
                | JitOp::ReturnValueBoxed | JitOp::ReturnValueCoerced
                | JitOp::ReturnValueCoerceBaked(_) | JitOp::ReturnVoidBoxed(_)
                | JitOp::ReturnDouble
        )
    }

    /// This op with its branch target replaced, if it has one.
    pub fn retargeted(self, t: usize) -> (r: JitOp)
        ensures
            r == with_target(self, t),
    {
        match self {
            JitOp::Jump(_) => JitOp::Jump(t),
            JitOp::IfLt(_) => JitOp::IfLt(t),
            JitOp::IfGe(_) => JitOp::IfGe(t),
            JitOp::IfFalse(_) => JitOp::IfFalse(t),
            JitOp::IfTrue(_) => JitOp::IfTrue(t),
            JitOp::IfTrueBoxed(_) => JitOp::IfTrueBoxed(t),
            JitOp::IfFalseBoxed(_) => JitOp::IfFalseBoxed(t),
            other => other,
        }
    }
}

} // verus!
