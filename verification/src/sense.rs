//! What ops mean.
//!
//! Bytecode ops and the compiler's boxed ops are given a meaning in the same terms: moves of value
//! words, arithmetic on ints, branches, and services that the host does. A [`World`] says what the
//! services come to and which words are true. On every world, an op does what its boxed op does.
//!
//! The host's services have names here. What the numbers of helpers and of variadic kinds stand
//! for is said once, in [`unary_service`], [`binary_service`], [`ternary_service`] and
//! [`kind_service`].

pub mod called;
pub mod compiled;
pub mod direct;
pub mod fallback;
pub mod passes;
pub mod raw;
pub mod translated;

use crate::lower::linear;
use crate::lower::op::{JitOp, SwitchTable};
use crate::model::{State, Turn};
use crate::translate;
use crate::translate::{ClassKind, Op};
use vstd::prelude::*;

verus! {

/// What the host does for an op, on operands in the order of the operand stack. Names, classes,
/// natives, namespaces and scripts are given by the words that stand for them.
pub enum Service {
    /// `ToNumber(v) + 1`.
    Increment,
    /// `ToNumber(v) - 1`.
    Decrement,
    /// `-ToNumber(v)`.
    Negate,
    /// `!ToInt32(v)`, bit by bit.
    BitNot,
    /// `!ToBoolean(v)`.
    Not,
    ToInt,
    ToUint,
    /// Keeps `null` and `undefined` from becoming text.
    CoerceText,
    ConvertText,
    ToNumber,
    ToReturnType,
    ToClass(u64),
    TypeOf,
    /// The sign bit at the given place is carried up.
    SignExtend(nat),
    Equal,
    Less,
    LessOrEqual,
    Greater,
    GreaterOrEqual,
    StrictEqual,
    BitAnd,
    BitOr,
    BitXor,
    ShiftLeft,
    ShiftRight,
    ShiftRightUnsigned,
    Add,
    Subtract,
    Multiply,
    Divide,
    Modulo,
    AsType,
    IsType,
    /// So many bytes of domain memory.
    LoadInt(nat),
    LoadFloat(nat),
    StoreInt(nat),
    StoreFloat(nat),
    GetSlot(u32),
    /// Coerces to the type of the slot.
    SetSlot(u32),
    SetSlotAsIs(u32),
    SetSlotAsInt(u32),
    GetProperty(u64),
    /// The name on the operand stack completes the given one.
    GetPropertyBy(u64),
    SetProperty(u64),
    SetPropertyBy(u64),
    DeleteProperty(u64),
    /// Throws if the flag is set and there is none.
    FindProperty(u64, bool),
    GetSuper(u64),
    SetSuper(u64),
    In,
    NextValue,
    CallMethod(u32),
    CallProperty(u64),
    CallSuper(u64),
    CallNative(u64),
    Call,
    Construct,
    ConstructSlot(u32),
    ConstructProperty(u64),
    ConstructSuper,
    ApplyType,
    NewArray,
    NewObject,
    NewClass(u64),
    NewActivation(u64),
    NewFunction(u64),
    NewCatch(u32),
    Namespace(u64),
    Globals(u64),
    PushScope,
    PopScope,
    Scope(u32),
    OuterScope(u32),
}

/// Arithmetic on two ints.
pub enum Whole {
    Plus,
    Minus,
    Times,
}

/// What an op does.
pub enum Sense {
    Nothing,
    Shed,
    Twice,
    Swap,
    Push(u64),
    /// Pushes a local.
    Read(u32),
    /// Pops into a local.
    Write(u32),
    /// Copies the top into a local.
    Save(u32),
    /// Two ints to one.
    Ints(Whole),
    /// The top int, moved by so much.
    MoveTop(int),
    /// An int local, moved by so much.
    MoveLocal(u32, int),
    /// A local, replaced by what a service makes of it.
    Local(u32, Service),
    /// The top, replaced by the boolean that it is taken for.
    Truth,
    /// A service on the top operands, whose result is kept or not.
    Ask(Service, nat, bool),
    Jump(usize),
    /// Pops the top, and branches if it is true, or if it is not.
    Branch(usize, bool),
    /// Pops an index: leads to one of the cases, or to the default.
    Select(usize, Seq<usize>),
    /// Returns the top.
    Return,
    /// Returns what the service makes of the top.
    ReturnVia(Service),
    ReturnConst(u64),
    /// Throws the top.
    Throw,
    /// Steps an enumeration over two locals.
    Enumerate(u32, u32),
}

/// What a service comes to.
pub enum Served<H> {
    Word(u64, H),
    Threw(H),
}

/// A host.
#[verifier::reject_recursive_types(H)]
pub struct World<H> {
    pub serve: spec_fn(Service, Seq<u64>, H) -> Served<H>,
    /// `ToBoolean`.
    pub truth: spec_fn(u64) -> bool,
    /// `ToInt32`, for the selector of a switch.
    pub selector: spec_fn(u64) -> i32,
    /// Throws a value.
    pub throw: spec_fn(u64, H) -> H,
    /// Whether an enumeration goes on, and its two locals then.
    pub next: spec_fn(u64, u64, H) -> (bool, u64, u64, H),
}

/// The int with the low 32 bits of `x`.
pub open spec fn wrapped(x: int) -> i32 {
    let low = x % 0x1_0000_0000;
    if low < 0x8000_0000 {
        low as i32
    } else {
        (low - 0x1_0000_0000) as i32
    }
}

/// The int in a word.
pub open spec fn int_in(word: u64) -> i32 {
    crate::reference::int_of(word)
}

/// The word of the int with the low 32 bits of `x`.
pub open spec fn int_word(x: int) -> u64 {
    linear::int_word(wrapped(x))
}

/// The word of a boolean.
pub open spec fn bool_word(b: bool) -> u64 {
    crate::lower::fast::bool_word(b)
}

pub open spec fn whole(w: Whole, a: i32, b: i32) -> int {
    match w {
        Whole::Plus => a + b,
        Whole::Minus => a - b,
        Whole::Times => a * b,
    }
}

/// On with a new stack.
pub open spec fn to<H>(s: State<H>, stack: Seq<u64>) -> Turn<H> {
    Turn::Next(State { pc: s.pc + 1, stack, ..s })
}

/// One op, by what it does.
pub open spec fn turn<H>(w: World<H>, sense: Sense, s: State<H>) -> Turn<H> {
    let n = s.stack.len() as int;
    match sense {
        Sense::Nothing => to(s, s.stack),
        Sense::Shed => if n >= 1 {
            to(s, s.stack.take(n - 1))
        } else {
            Turn::Stuck
        },
        Sense::Twice => if n >= 1 {
            to(s, s.stack.push(s.stack[n - 1]))
        } else {
            Turn::Stuck
        },
        Sense::Swap => if n >= 2 {
            to(s, s.stack.take(n - 2).push(s.stack[n - 1]).push(s.stack[n - 2]))
        } else {
            Turn::Stuck
        },
        Sense::Push(word) => to(s, s.stack.push(word)),
        Sense::Read(i) => if i < s.locals.len() {
            to(s, s.stack.push(s.locals[i as int]))
        } else {
            Turn::Stuck
        },
        Sense::Write(i) => if n >= 1 && i < s.locals.len() {
            to(
                State { locals: s.locals.update(i as int, s.stack[n - 1]), ..s },
                s.stack.take(n - 1),
            )
        } else {
            Turn::Stuck
        },
        Sense::Save(i) => if n >= 1 && i < s.locals.len() {
            to(State { locals: s.locals.update(i as int, s.stack[n - 1]), ..s }, s.stack)
        } else {
            Turn::Stuck
        },
        Sense::Ints(o) => if n >= 2 {
            to(
                s,
                s.stack.take(n - 2).push(
                    int_word(whole(o, int_in(s.stack[n - 2]), int_in(s.stack[n - 1]))),
                ),
            )
        } else {
            Turn::Stuck
        },
        Sense::MoveTop(d) => if n >= 1 {
            to(s, s.stack.take(n - 1).push(int_word(int_in(s.stack[n - 1]) + d)))
        } else {
            Turn::Stuck
        },
        Sense::MoveLocal(i, d) => if i < s.locals.len() {
            to(
                State {
                    locals: s.locals.update(i as int, int_word(int_in(s.locals[i as int]) + d)),
                    ..s
                },
                s.stack,
            )
        } else {
            Turn::Stuck
        },
        Sense::Local(i, service) => if i < s.locals.len() {
            match (w.serve)(service, seq![s.locals[i as int]], s.host) {
                Served::Word(word, host) => to(
                    State { locals: s.locals.update(i as int, word), host, ..s },
                    s.stack,
                ),
                Served::Threw(host) => Turn::Threw(host),
            }
        } else {
            Turn::Stuck
        },
        Sense::Truth => if n >= 1 {
            to(s, s.stack.take(n - 1).push(bool_word((w.truth)(s.stack[n - 1]))))
        } else {
            Turn::Stuck
        },
        Sense::Ask(service, takes, keeps) => if n >= takes {
            match (w.serve)(service, s.stack.skip(n - takes), s.host) {
                Served::Word(word, host) => to(
                    State { host, ..s },
                    if keeps {
                        s.stack.take(n - takes).push(word)
                    } else {
                        s.stack.take(n - takes)
                    },
                ),
                Served::Threw(host) => Turn::Threw(host),
            }
        } else {
            Turn::Stuck
        },
        Sense::Jump(t) => Turn::Next(State { pc: t as int, ..s }),
        Sense::Branch(t, when) => if n >= 1 {
            Turn::Next(
                State {
                    pc: if (w.truth)(s.stack[n - 1]) == when {
                        t as int
                    } else {
                        s.pc + 1
                    },
                    stack: s.stack.take(n - 1),
                    ..s
                },
            )
        } else {
            Turn::Stuck
        },
        Sense::Select(default, cases) => if n >= 1 {
            let x = (w.selector)(s.stack[n - 1]);
            Turn::Next(
                State {
                    pc: if 0 <= x < cases.len() {
                        cases[x as int] as int
                    } else {
                        default as int
                    },
                    stack: s.stack.take(n - 1),
                    ..s
                },
            )
        } else {
            Turn::Stuck
        },
        Sense::Return => if n >= 1 {
            Turn::Returned(s.stack[n - 1], s.host)
        } else {
            Turn::Stuck
        },
        Sense::ReturnVia(service) => if n >= 1 {
            match (w.serve)(service, seq![s.stack[n - 1]], s.host) {
                Served::Word(word, host) => Turn::Returned(word, host),
                Served::Threw(host) => Turn::Threw(host),
            }
        } else {
            Turn::Stuck
        },
        Sense::ReturnConst(word) => Turn::Returned(word, s.host),
        Sense::Throw => if n >= 1 {
            Turn::Threw((w.throw)(s.stack[n - 1], s.host))
        } else {
            Turn::Stuck
        },
        Sense::Enumerate(o, i) => if o < s.locals.len() && i < s.locals.len() {
            let (more, object, index, host) = (w.next)(
                s.locals[o as int],
                s.locals[i as int],
                s.host,
            );
            to(
                State {
                    locals: s.locals.update(o as int, object).update(i as int, index),
                    host,
                    ..s
                },
                s.stack.push(bool_word(more)),
            )
        } else {
            Turn::Stuck
        },
    }
}

/// What a return without a value gives, by the declared type.
pub open spec fn zero_of(t: Option<ClassKind>, null: u64) -> u64 {
    if t is None || t == Some(ClassKind::Void) {
        crate::lower::wasm::UNDEFINED_BITS
    } else if t == Some(ClassKind::Boolean) {
        bool_word(false)
    } else if t == Some(ClassKind::Other) {
        null
    } else {
        int_word(0)
    }
}

/// A service on `takes` operands, with a result.
pub open spec fn ask(service: Service, takes: nat) -> Option<Sense> {
    Some(Sense::Ask(service, takes, true))
}

/// A service on `takes` operands, for its effect.
pub open spec fn tell(service: Service, takes: nat) -> Option<Sense> {
    Some(Sense::Ask(service, takes, false))
}

/// What a bytecode op on plain values does.
pub open spec fn value_sense(op: Op) -> Option<Sense> {
    match op {
        Op::Nop => Some(Sense::Nothing),
        Op::Debug => Some(Sense::Nothing),
        Op::DebugFile => Some(Sense::Nothing),
        Op::DebugLine => Some(Sense::Nothing),
        // A killed local is not read again.
        Op::Kill { .. } => Some(Sense::Nothing),
        Op::Pop => Some(Sense::Shed),
        Op::Dup => Some(Sense::Twice),
        Op::Swap => Some(Sense::Swap),
        Op::PushInt { value } => Some(Sense::Push(int_word(value as int))),
        Op::PushUint { bits } => Some(Sense::Push(bits)),
        Op::PushDouble { bits, .. } => Some(Sense::Push(bits)),
        Op::PushNull { bits } => Some(Sense::Push(bits)),
        Op::PushString { bits } => Some(Sense::Push(bits)),
        Op::PushTrue => Some(Sense::Push(bool_word(true))),
        Op::PushFalse => Some(Sense::Push(bool_word(false))),
        Op::PushUndefined => Some(Sense::Push(crate::lower::wasm::UNDEFINED_BITS)),
        Op::GetLocal { index } => Some(Sense::Read(index)),
        Op::SetLocal { index } => Some(Sense::Write(index)),
        Op::StoreLocal { index } => Some(Sense::Save(index)),
        Op::IncLocalI { index } => Some(Sense::MoveLocal(index, 1)),
        Op::DecLocalI { index } => Some(Sense::MoveLocal(index, -1)),
        Op::IncLocal { index } => Some(Sense::Local(index, Service::Increment)),
        Op::DecLocal { index } => Some(Sense::Local(index, Service::Decrement)),
        Op::AddI => Some(Sense::Ints(Whole::Plus)),
        Op::SubtractI => Some(Sense::Ints(Whole::Minus)),
        Op::MultiplyI => Some(Sense::Ints(Whole::Times)),
        Op::IncrementI => Some(Sense::MoveTop(1)),
        Op::DecrementI => Some(Sense::MoveTop(-1)),
        Op::CoerceB => Some(Sense::Truth),
        Op::Jump { offset } => Some(Sense::Jump(offset)),
        Op::IfTrue { offset } => Some(Sense::Branch(offset, true)),
        Op::IfFalse { offset } => Some(Sense::Branch(offset, false)),
        Op::LookupSwitch(table) => Some(Sense::Select(table.default, table.cases@)),
        Op::ReturnValue { return_type: None } => Some(Sense::Return),
        Op::ReturnValue { return_type: Some(_) } => Some(Sense::ReturnVia(Service::ToReturnType)),
        Op::ReturnVoid { return_type, null_bits } => Some(
            Sense::ReturnConst(zero_of(return_type, null_bits)),
        ),
        Op::Throw => Some(Sense::Throw),
        Op::HasNext2 { object_register, index_register } => Some(
            Sense::Enumerate(object_register, index_register),
        ),
        _ => None,
    }
}

/// What a bytecode op that computes does.
pub open spec fn computing_sense(op: Op) -> Option<Sense> {
    match op {
        Op::Increment => ask(Service::Increment, 1),
        Op::Decrement => ask(Service::Decrement, 1),
        Op::Negate => ask(Service::Negate, 1),
        Op::BitNot => ask(Service::BitNot, 1),
        Op::Not => ask(Service::Not, 1),
        Op::CoerceI => ask(Service::ToInt, 1),
        Op::CoerceU => ask(Service::ToUint, 1),
        Op::CoerceS => ask(Service::CoerceText, 1),
        Op::ConvertS => ask(Service::ConvertText, 1),
        Op::CoerceD => ask(Service::ToNumber, 1),
        Op::Coerce { class } => ask(Service::ToClass(class), 1),
        Op::TypeOf => ask(Service::TypeOf, 1),
        Op::Sxi1 => ask(Service::SignExtend(0), 1),
        Op::Sxi8 => ask(Service::SignExtend(7), 1),
        Op::Sxi16 => ask(Service::SignExtend(15), 1),
        Op::Equals => ask(Service::Equal, 2),
        Op::LessThan => ask(Service::Less, 2),
        Op::LessEquals => ask(Service::LessOrEqual, 2),
        Op::GreaterThan => ask(Service::Greater, 2),
        Op::GreaterEquals => ask(Service::GreaterOrEqual, 2),
        Op::StrictEquals => ask(Service::StrictEqual, 2),
        Op::BitAnd => ask(Service::BitAnd, 2),
        Op::BitOr => ask(Service::BitOr, 2),
        Op::BitXor => ask(Service::BitXor, 2),
        Op::LShift => ask(Service::ShiftLeft, 2),
        Op::RShift => ask(Service::ShiftRight, 2),
        Op::URShift => ask(Service::ShiftRightUnsigned, 2),
        Op::Add => ask(Service::Add, 2),
        Op::Subtract => ask(Service::Subtract, 2),
        Op::Multiply => ask(Service::Multiply, 2),
        Op::Divide => ask(Service::Divide, 2),
        Op::Modulo => ask(Service::Modulo, 2),
        Op::AsTypeLate => ask(Service::AsType, 2),
        Op::IsTypeLate => ask(Service::IsType, 2),
        Op::In => ask(Service::In, 2),
        Op::NextValue => ask(Service::NextValue, 2),
        Op::Li8 => ask(Service::LoadInt(1), 1),
        Op::Li16 => ask(Service::LoadInt(2), 1),
        Op::Li32 => ask(Service::LoadInt(4), 1),
        Op::Lf32 => ask(Service::LoadFloat(4), 1),
        Op::Lf64 => ask(Service::LoadFloat(8), 1),
        Op::Si8 => tell(Service::StoreInt(1), 2),
        Op::Si16 => tell(Service::StoreInt(2), 2),
        Op::Si32 => tell(Service::StoreInt(4), 2),
        Op::Sf32 => tell(Service::StoreFloat(4), 2),
        Op::Sf64 => tell(Service::StoreFloat(8), 2),
        _ => None,
    }
}

/// What a bytecode op on objects does.
pub open spec fn object_sense(op: Op) -> Option<Sense> {
    match op {
        Op::GetSlot { index } => ask(Service::GetSlot(index), 1),
        Op::SetSlot { index } => tell(Service::SetSlot(index), 2),
        Op::SetSlotNoCoerce { index } => tell(Service::SetSlotAsIs(index), 2),
        Op::SetSlotCoerceI { index } => tell(Service::SetSlotAsInt(index), 2),
        Op::GetPropertyStatic { multiname } => ask(Service::GetProperty(multiname.id), 1),
        Op::GetPropertyFast { multiname } => ask(Service::GetPropertyBy(multiname.id), 2),
        Op::SetPropertyStatic { multiname } => tell(Service::SetProperty(multiname.id), 2),
        Op::SetPropertyFast { multiname } => tell(Service::SetPropertyBy(multiname.id), 3),
        Op::DeleteProperty { multiname } => ask(Service::DeleteProperty(multiname.id), 1),
        Op::FindPropStrict { multiname } => ask(Service::FindProperty(multiname.id, true), 0),
        Op::FindProperty { multiname } => ask(Service::FindProperty(multiname.id, false), 0),
        Op::GetSuper { multiname } => ask(Service::GetSuper(multiname.id), 1),
        Op::SetSuper { multiname } => tell(Service::SetSuper(multiname.id), 2),
        Op::CallMethod { index, num_args, push_return_value } => Some(
            Sense::Ask(Service::CallMethod(index), num_args as nat + 1, push_return_value),
        ),
        Op::CallProperty { multiname, num_args } => ask(
            Service::CallProperty(multiname.id),
            num_args as nat + 1,
        ),
        Op::CallPropVoid { multiname, num_args } => tell(
            Service::CallProperty(multiname.id),
            num_args as nat + 1,
        ),
        Op::CallSuper { multiname, num_args } => ask(
            Service::CallSuper(multiname.id),
            num_args as nat + 1,
        ),
        Op::CallNative { native, num_args, push_return_value } => Some(
            Sense::Ask(Service::CallNative(native), num_args as nat + 1, push_return_value),
        ),
        Op::Call { num_args } => ask(Service::Call, num_args as nat + 2),
        Op::Construct { num_args } => ask(Service::Construct, num_args as nat + 1),
        Op::ConstructSlot { index, num_args } => ask(
            Service::ConstructSlot(index),
            num_args as nat + 1,
        ),
        Op::ConstructProp { multiname, num_args } => ask(
            Service::ConstructProperty(multiname.id),
            num_args as nat + 1,
        ),
        Op::ConstructSuper { num_args } => tell(Service::ConstructSuper, num_args as nat + 1),
        Op::ApplyType { num_types } => ask(Service::ApplyType, num_types as nat + 1),
        Op::NewArray { num_args } => ask(Service::NewArray, num_args as nat),
        Op::NewObject { num_args } => ask(Service::NewObject, 2 * (num_args as nat)),
        Op::NewClass { class } => ask(Service::NewClass(class), 1),
        Op::NewActivation { activation_class } => ask(Service::NewActivation(activation_class), 0),
        Op::NewFunction { method } => ask(Service::NewFunction(method), 0),
        Op::NewCatch { index } => ask(Service::NewCatch(index), 0),
        Op::PushNamespace { namespace } => ask(Service::Namespace(namespace), 0),
        Op::GetScriptGlobals { script } => ask(Service::Globals(script), 0),
        Op::PushScope => tell(Service::PushScope, 1),
        Op::PopScope => tell(Service::PopScope, 0),
        Op::GetScopeObject { index } => ask(Service::Scope(index), 0),
        Op::GetOuterScope { index } => ask(Service::OuterScope(index), 0),
        _ => None,
    }
}

/// What a bytecode op does; `None` for ops that are not known here.
pub open spec fn op_sense(op: Op) -> Option<Sense> {
    if value_sense(op) is Some {
        value_sense(op)
    } else if computing_sense(op) is Some {
        computing_sense(op)
    } else {
        object_sense(op)
    }
}

/// What the tables of a method hold.
pub struct Tables {
    pub names: Seq<u64>,
    pub scripts: Seq<u64>,
    pub strings: Seq<u64>,
    pub classes: Seq<u64>,
    pub natives: Seq<u64>,
    pub namespaces: Seq<u64>,
    pub switches: Seq<SwitchTable>,
}

/// The service of a unary helper.
pub open spec fn unary_service(i: u32) -> Option<Service> {
    match i {
        0u32 => Some(Service::Increment),
        1u32 => Some(Service::Decrement),
        2u32 => Some(Service::Negate),
        3u32 => Some(Service::BitNot),
        4u32 => Some(Service::Not),
        8u32 => Some(Service::LoadInt(1)),
        9u32 => Some(Service::LoadInt(2)),
        10u32 => Some(Service::LoadInt(4)),
        11u32 => Some(Service::ToUint),
        12u32 => Some(Service::ToInt),
        13u32 => Some(Service::SignExtend(0)),
        14u32 => Some(Service::SignExtend(7)),
        15u32 => Some(Service::SignExtend(15)),
        16u32 => Some(Service::ToReturnType),
        25u32 => Some(Service::CoerceText),
        26u32 => Some(Service::LoadFloat(4)),
        27u32 => Some(Service::LoadFloat(8)),
        _ => None,
    }
}

/// The service of a binary helper.
pub open spec fn binary_service(i: u32) -> Option<Service> {
    match i {
        0u32 => Some(Service::Equal),
        1u32 => Some(Service::Less),
        2u32 => Some(Service::LessOrEqual),
        3u32 => Some(Service::Greater),
        4u32 => Some(Service::GreaterOrEqual),
        5u32 => Some(Service::BitAnd),
        6u32 => Some(Service::BitOr),
        7u32 => Some(Service::BitXor),
        8u32 => Some(Service::ShiftLeft),
        9u32 => Some(Service::ShiftRight),
        10u32 => Some(Service::ShiftRightUnsigned),
        11u32 => Some(Service::Multiply),
        12u32 => Some(Service::Subtract),
        13u32 => Some(Service::Divide),
        14u32 => Some(Service::Modulo),
        15u32 => Some(Service::StrictEqual),
        16u32 => Some(Service::AsType),
        17u32 => Some(Service::IsType),
        18u32 => Some(Service::Add),
        _ => None,
    }
}

/// The service of a ternary helper, with its immediate.
pub open spec fn ternary_service(kind: u32, imm: u32) -> Option<Service> {
    match kind {
        0u32 => Some(Service::SetSlot(imm)),
        1u32 => Some(Service::SetSlotAsIs(imm)),
        2u32 => Some(Service::SetSlotAsInt(imm)),
        3u32 => Some(Service::StoreInt(imm as nat)),
        4u32 => Some(Service::StoreFloat(imm as nat)),
        _ => None,
    }
}

/// The service of a variadic kind, with its immediate, and how many operands it takes beyond those
/// that are spilled.
pub open spec fn kind_service(kind: u32, imm: u32, t: Tables) -> Option<(Service, nat)> {
    let k = imm as int;
    match kind {
        0u32 => Some((Service::ConstructSlot(imm), 1)),
        1u32 => Some((Service::Construct, 1)),
        2u32 => Some((Service::ConstructProperty(t.names[k]), 1)),
        3u32 => Some((Service::CallSuper(t.names[k]), 1)),
        4u32 => Some((Service::CallNative(t.natives[k]), 1)),
        5u32 => Some((Service::ApplyType, 1)),
        6u32 => Some((Service::NewArray, 0)),
        7u32 => Some((Service::NewObject, 0)),
        8u32 => Some((Service::GetSuper(t.names[k]), 1)),
        9u32 => Some((Service::SetSuper(t.names[k]), 1)),
        10u32 => Some((Service::DeleteProperty(t.names[k]), 1)),
        11u32 => Some((Service::NextValue, 1)),
        12u32 => Some((Service::In, 1)),
        13u32 => Some((Service::SetProperty(t.names[k]), 1)),
        14u32 => Some((Service::SetPropertyBy(t.names[k]), 1)),
        15u32 => Some((Service::NewClass(t.classes[k]), 1)),
        16u32 => Some((Service::NewActivation(t.classes[k]), 0)),
        17u32 => Some((Service::TypeOf, 1)),
        18u32 => Some((Service::Namespace(t.namespaces[k]), 0)),
        19u32 => Some((Service::ToNumber, 1)),
        20u32 => Some((Service::ConvertText, 1)),
        21u32 => Some((Service::NewFunction(t.classes[k]), 0)),
        _ => None,
    }
}

/// A service that a helper does.
pub open spec fn helped(service: Option<Service>, takes: nat, keeps: bool) -> Option<Sense> {
    match service {
        Some(service) => Some(Sense::Ask(service, takes, keeps)),
        None => None,
    }
}

/// What a boxed op on plain values does.
pub open spec fn boxed_value_sense(o: JitOp, t: Tables) -> Option<Sense> {
    match o {
        JitOp::Nop => Some(Sense::Nothing),
        JitOp::Pop => Some(Sense::Shed),
        JitOp::DupValue => Some(Sense::Twice),
        JitOp::SwapValue => Some(Sense::Swap),
        JitOp::PushIntValue(v) => Some(Sense::Push(int_word(v as int))),
        JitOp::PushConst(bits) => Some(Sense::Push(bits)),
        JitOp::PushBits(bits) => Some(Sense::Push(bits)),
        JitOp::PushString(k) => Some(Sense::Push(t.strings[k as int])),
        JitOp::GetLocalValue(i) => Some(Sense::Read(i)),
        JitOp::SetLocalValue(i) => Some(Sense::Write(i)),
        JitOp::StoreLocalValue(i) => Some(Sense::Save(i)),
        JitOp::IncDecLocalIValue(i, up) => Some(
            Sense::MoveLocal(
                i,
                if up {
                    1
                } else {
                    -1
                },
            ),
        ),
        JitOp::IncDecLocalNum(i, up) => Some(
            Sense::Local(
                i,
                if up {
                    Service::Increment
                } else {
                    Service::Decrement
                },
            ),
        ),
        JitOp::AddIBoxed => Some(Sense::Ints(Whole::Plus)),
        JitOp::SubtractIBoxed => Some(Sense::Ints(Whole::Minus)),
        JitOp::MultiplyIBoxed => Some(Sense::Ints(Whole::Times)),
        JitOp::IncrementIBoxed => Some(Sense::MoveTop(1)),
        JitOp::DecrementIBoxed => Some(Sense::MoveTop(-1)),
        JitOp::CoerceBool => Some(Sense::Truth),
        JitOp::Jump(to) => Some(Sense::Jump(to)),
        JitOp::IfTrueBoxed(to) => Some(Sense::Branch(to, true)),
        JitOp::IfFalseBoxed(to) => Some(Sense::Branch(to, false)),
        JitOp::LookupSwitch(k) => Some(
            Sense::Select(t.switches[k as int].default, t.switches[k as int].cases@),
        ),
        JitOp::ReturnValueBoxed => Some(Sense::Return),
        JitOp::ReturnValueCoerced => Some(Sense::ReturnVia(Service::ToReturnType)),
        JitOp::ReturnValueCoerceBaked(_) => Some(Sense::ReturnVia(Service::ToReturnType)),
        JitOp::ReturnVoidBoxed(bits) => Some(Sense::ReturnConst(bits)),
        JitOp::Throw => Some(Sense::Throw),
        JitOp::HasNext2(o, i) => Some(Sense::Enumerate(o, i)),
        _ => None,
    }
}

/// What a boxed op that the host does comes to.
pub open spec fn boxed_host_sense(o: JitOp, t: Tables) -> Option<Sense> {
    match o {
        JitOp::CallHelper(i) => helped(unary_service(i), 1, true),
        JitOp::CallHelper2(i) => helped(binary_service(i), 2, true),
        JitOp::CmpNum(i) => helped(binary_service(i), 2, true),
        JitOp::BitOpInt(i) => helped(binary_service(i), 2, true),
        JitOp::ArithInt(i) => helped(binary_service(i), 2, true),
        JitOp::ArithNum(i) => helped(binary_service(i), 2, true),
        JitOp::CallHelper3(kind, imm) => helped(ternary_service(kind, imm), 2, false),
        JitOp::CoerceInt(signed) => ask(
            if signed {
                Service::ToInt
            } else {
                Service::ToUint
            },
            1,
        ),
        JitOp::CoerceString => ask(Service::CoerceText, 1),
        JitOp::Coerce(k) => ask(Service::ToClass(t.classes[k as int]), 1),
        JitOp::DmLoad(width) => ask(Service::LoadInt(width as nat), 1),
        JitOp::DmLoadF(width) => ask(Service::LoadFloat(width as nat), 1),
        JitOp::DmStore(width) => tell(Service::StoreInt(width as nat), 2),
        JitOp::DmStoreF(width) => tell(Service::StoreFloat(width as nat), 2),
        JitOp::GetSlot(id, _) => ask(Service::GetSlot(id), 1),
        JitOp::GetProperty(k) => ask(Service::GetProperty(t.names[k as int]), 1),
        JitOp::GetPropertyIc(k, _) => ask(Service::GetProperty(t.names[k as int]), 1),
        JitOp::GetPropertyFast(k, _) => ask(Service::GetPropertyBy(t.names[k as int]), 2),
        JitOp::FindProp(k, strict) => ask(Service::FindProperty(t.names[k as int], strict), 0),
        JitOp::CallMethod(id, argc, push) => Some(
            Sense::Ask(Service::CallMethod(id), argc as nat + 1, push),
        ),
        JitOp::CallMethodDirect(id, argc, push, _) => Some(
            Sense::Ask(Service::CallMethod(id), argc as nat + 1, push),
        ),
        JitOp::CallProperty(k, argc, push) => Some(
            Sense::Ask(Service::CallProperty(t.names[k as int]), argc as nat + 1, push),
        ),
        JitOp::CallValue(argc) => ask(Service::Call, argc as nat + 2),
        JitOp::ConstructSuper(argc) => tell(Service::ConstructSuper, argc as nat + 1),
        JitOp::VCall(kind, imm, spill, push) => match kind_service(kind, imm, t) {
            Some((service, more)) => Some(Sense::Ask(service, spill as nat + more, push)),
            None => None,
        },
        JitOp::NewCatch(i) => ask(Service::NewCatch(i), 0),
        JitOp::GetScriptGlobals(k) => ask(Service::Globals(t.scripts[k as int]), 0),
        JitOp::PushScopeReal => tell(Service::PushScope, 1),
        JitOp::PopScopeReal => tell(Service::PopScope, 0),
        JitOp::GetScopeObject(i) => ask(Service::Scope(i), 0),
        JitOp::GetOuterScope(i) => ask(Service::OuterScope(i), 0),
        _ => None,
    }
}

/// What a boxed op does; `None` for ops of the other models.
pub open spec fn boxed_sense(o: JitOp, t: Tables) -> Option<Sense> {
    if boxed_value_sense(o, t) is Some {
        boxed_value_sense(o, t)
    } else {
        boxed_host_sense(o, t)
    }
}

/// The tables of a method, with its switches.
pub open spec fn tables_of(ops: Seq<Op>, switches: Seq<SwitchTable>) -> Tables {
    let n = ops.len() as int;
    Tables {
        names: translate::entries(ops, n, |op: Op| translate::name_id(op)),
        scripts: translate::entries(ops, n, |op: Op| translate::script_of(op)),
        strings: translate::entries(ops, n, |op: Op| translate::string_of(op)),
        classes: translate::entries(ops, n, |op: Op| translate::class_of(op)),
        natives: translate::entries(ops, n, |op: Op| translate::native_of(op)),
        namespaces: translate::entries(ops, n, |op: Op| translate::namespace_of(op)),
        switches,
    }
}

/// Wrapping arithmetic keeps the low 32 bits.
pub proof fn lemma_wrapping(a: i32, b: i32)
    ensures
        a.wrapping_add(b) == wrapped(a + b),
        a.wrapping_sub(b) == wrapped(a - b),
        a.wrapping_mul(b) == wrapped(a * b),
        wrapped(a as int) == a,
{
}

} // verus!
