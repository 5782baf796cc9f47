//! What the helpers ask of the host, and in which order.
//!
//! A helper that works on objects does nothing to them itself: it asks the host, and decides by
//! the replies what to ask next, until it has a result or something has thrown. A helper is a
//! function of its operands and of the replies so far. With too few replies it gives the next
//! [`Ask`]; the host replies to it and calls the helper again.

use crate::lower::linear;
use crate::lower::linear::box_int_word;
use crate::lower::vc;
use crate::lower::wasm::{UNDEFINED_BITS, VALUE_BOOL_MARK};
use vstd::prelude::*;

verus! {

/// What kind of value a word is.
#[derive(Debug, Clone, Copy, PartialEq, Eq, Structural)]
pub enum Kind {
    Undefined,
    Null,
    Boolean,
    Integer,
    Number,
    Text,
    Object,
}

/// A name: one of the method's, one that the host has filled in, or none.
#[derive(Debug, Clone, Copy, PartialEq, Eq, Structural)]
pub enum Name {
    Nothing,
    Table(u32),
    Filled(u64),
}

/// An error that a helper itself throws.
#[derive(Debug, Clone, Copy, PartialEq, Eq, Structural)]
pub enum Fault {
    /// Error 1009 for `null`, 1010 for `undefined`.
    NullOrUndefined(u64),
    /// Error 1009.
    Null,
    /// Error 1041: the operand is no class.
    NoClass,
    /// Error 1108: the base class is not the declared one.
    WrongBase,
    /// Error 1127: the operand takes no type parameters.
    NoTypeParameters,
}

/// What is asked of the host. The host replies with a word, with [`Reply::No`] where it can
/// say no, or with [`Reply::Thrown`] where it can throw. Those that take operands besides come
/// with them, in [`Action::AskWith`].
#[derive(Debug, Clone, Copy, PartialEq, Eq, Structural)]
pub enum Ask {
    /// Replied with [`Reply::Kind`].
    Kind(u64),
    /// The value, unless it is null or undefined, which throws.
    NullCheck(u64, Name),
    /// The object, unless the value is none, which throws.
    ObjectCheck(u64, Name),
    /// The object; no if the value is none.
    AsObject(u64),
    /// The class object; no if the value is none.
    AsClass(u64),
    /// The dictionary; no if the object is none.
    AsDictionary(u64),
    /// The value is of the class.
    IsOfType(u64, u64),
    GetSlot(u64, u32),
    /// Stores into a slot, coerced to the type of the slot.
    SetSlot(u64, u32, u64),
    /// Stores into a slot.
    SetSlotRaw(u64, u32, u64),
    GetProperty(u64, Name),
    SetProperty(u64, Name, u64),
    DeleteProperty(u64, Name),
    /// The index that a number names; no if it names none.
    Index(u64),
    /// No if the object has no such element.
    GetIndex(u64, u64),
    /// No if the object takes no such element.
    SetIndex(u64, u64, u64),
    GetByObject(u64, u64),
    SetByObject(u64, u64, u64),
    HasByObject(u64, u64),
    /// The multiname `0` with the value as its missing part.
    FillName(u32, u64),
    Call(u64, u64),
    CallMethod(u64, u32),
    CallProperty(u64, Name),
    CallNative(u64, u32),
    Construct(u64),
    ConstructProp(u64, Name),
    ConstructSuper(u64),
    /// Coerces to the superclass of the method's class.
    CoerceToSuper(u64),
    CallSuper(u64, Name),
    GetSuper(u64, Name),
    SetSuper(u64, Name, u64),
    /// Applies type parameters.
    Apply(u64),
    NewArray,
    NewObject,
    SetDynamic(u64, u64, u64),
    /// The value as an int.
    ToInt(u64),
    ToNumber(u64),
    ToText(u64),
    /// Coerces to a class of the method's table.
    ToType(u64, u32),
    /// Coerces to the declared return type.
    ToReturnType(u64),
    /// The object that a primitive inherits from.
    Proto(u64),
    /// The value at an enumeration index.
    Enumerant(u64, u32),
    /// The public name of a text.
    PublicName(u64),
    HasVia(u64, Name),
    HasTrait(u64, Name),
    HasProperty(u64, Name),
    /// The class of the method's table is `Object` itself: its class object.
    IsObjectClass(u32),
    /// The class of the method's table is `Class` itself: its class object.
    IsClassClass(u32),
    RunInitializer(u64),
    /// Coerces to `Class`.
    ToClass(u64),
    /// The class that a class object is of.
    ClassOf(u64),
    /// The superclass of a class of the method's table; no if it has none.
    SuperClass(u32),
    /// Makes a class object, with a base or without.
    MakeClass(u32, Option<u64>),
    NewActivation(u32),
    NewFunction(u32),
    Namespace(u32),
    TypeOf(u64),
}

/// What the host replies.
#[derive(Debug, Clone, Copy, PartialEq, Eq, Structural)]
pub enum Reply {
    Word(u64),
    Kind(Kind),
    No,
    Thrown,
}

/// What a helper does next.
#[derive(Debug, Clone, PartialEq, Eq)]
pub enum Action {
    Ask(Ask),
    /// Asks, with the operands that the call or the new value is to have, in their order.
    AskWith(Ask, Vec<u64>),
    Done(u64),
    /// Something has thrown; the host has the error.
    Stop,
    Throw(Fault),
}

/// What an [`Action`] is.
#[verifier::ext_equal]
pub enum Step {
    Ask(Ask),
    AskWith(Ask, Seq<u64>),
    Done(u64),
    Stop,
    Throw(Fault),
}

impl View for Action {
    type V = Step;

    open spec fn view(&self) -> Step {
        match self {
            Action::Ask(ask) => Step::Ask(*ask),
            Action::AskWith(ask, args) => Step::AskWith(*ask, args@),
            Action::Done(w) => Step::Done(*w),
            Action::Stop => Step::Stop,
            Action::Throw(fault) => Step::Throw(*fault),
        }
    }
}

/// The word that a boolean is boxed as.
pub open spec fn bool_word(b: bool) -> u64 {
    if b {
        (VALUE_BOOL_MARK + 1) as u64
    } else {
        VALUE_BOOL_MARK
    }
}

// Conversations: what is done, given replies `r` of which the first `i` have been used.

/// Asks, and goes on with the word.
pub open spec fn word(r: Seq<Reply>, i: int, ask: Ask, next: spec_fn(u64) -> Step) -> Step {
    if i >= r.len() {
        Step::Ask(ask)
    } else {
        match r[i] {
            Reply::Word(w) => next(w),
            _ => Step::Stop,
        }
    }
}

/// Asks, and goes on with the word, or otherwise if there is none.
pub open spec fn maybe(
    r: Seq<Reply>,
    i: int,
    ask: Ask,
    next: spec_fn(u64) -> Step,
    no: Step,
) -> Step {
    if i >= r.len() {
        Step::Ask(ask)
    } else {
        match r[i] {
            Reply::Word(w) => next(w),
            Reply::No => no,
            _ => Step::Stop,
        }
    }
}

/// Asks for the kind of a value, and goes on with it.
pub open spec fn kind(r: Seq<Reply>, i: int, w: u64, next: spec_fn(Kind) -> Step) -> Step {
    if i >= r.len() {
        Step::Ask(Ask::Kind(w))
    } else {
        match r[i] {
            Reply::Kind(k) => next(k),
            _ => Step::Stop,
        }
    }
}

/// Asks, and is done with the word.
pub open spec fn finish(r: Seq<Reply>, i: int, ask: Ask) -> Step {
    word(r, i, ask, |w: u64| Step::Done(w))
}

/// Asks, and is done with `undefined`.
pub open spec fn finish_void(r: Seq<Reply>, i: int, ask: Ask) -> Step {
    word(r, i, ask, |w: u64| Step::Done(UNDEFINED_BITS))
}

/// Asks with operands, and goes on with the word.
pub open spec fn word_with(
    r: Seq<Reply>,
    i: int,
    ask: Ask,
    args: Seq<u64>,
    next: spec_fn(u64) -> Step,
) -> Step {
    if i >= r.len() {
        Step::AskWith(ask, args)
    } else {
        match r[i] {
            Reply::Word(w) => next(w),
            _ => Step::Stop,
        }
    }
}

/// Asks with operands, and is done with the word.
pub open spec fn finish_with(r: Seq<Reply>, i: int, ask: Ask, args: Seq<u64>) -> Step {
    word_with(r, i, ask, args, |w: u64| Step::Done(w))
}

/// The replies as they are used.
struct Talk<'a> {
    replies: &'a [Reply],
    at: usize,
}

fn copied(args: &[u64]) -> (r: Vec<u64>)
    ensures
        r@ == args@,
{
    let mut r: Vec<u64> = Vec::new();
    let mut k: usize = 0;
    while k < args.len()
        invariant
            k <= args@.len(),
            r@ == args@.take(k as int),
        decreases args@.len() - k,
    {
        r.push(args[k]);
        k = k + 1;
    }
    assert(args@.take(k as int) =~= args@);
    r
}

impl<'a> Talk<'a> {
    spec fn well_formed(self) -> bool {
        self.at <= self.replies@.len()
    }

    fn new(replies: &'a [Reply]) -> (r: Talk<'a>)
        ensures
            r.replies == replies,
            r.at == 0,
            r.well_formed(),
    {
        Talk { replies, at: 0 }
    }

    /// The word replied to `ask`; else what to do instead.
    fn word(&mut self, ask: Ask) -> (r: Result<u64, Action>)
        requires
            old(self).well_formed(),
        ensures
            final(self).well_formed(),
            final(self).replies == old(self).replies,
            match r {
                Ok(w) => final(self).at == old(self).at + 1 && old(self).at
                    < old(self).replies@.len() && old(self).replies@[old(self).at as int]
                    == Reply::Word(w),
                Err(action) => action@ == word(
                    old(self).replies@,
                    old(self).at as int,
                    ask,
                    |w: u64| Step::Stop,
                ) && !(old(self).at < old(self).replies@.len() && old(self).replies@[old(
                    self,
                ).at as int] is Word),
            },
    {
        if self.at >= self.replies.len() {
            return Err(Action::Ask(ask));
        }
        match self.replies[self.at] {
            Reply::Word(w) => {
                self.at = self.at + 1;
                Ok(w)
            },
            _ => Err(Action::Stop),
        }
    }

    /// The word replied to `ask`, `None` for no; else what to do instead.
    fn maybe(&mut self, ask: Ask) -> (r: Result<Option<u64>, Action>)
        requires
            old(self).well_formed(),
        ensures
            final(self).well_formed(),
            final(self).replies == old(self).replies,
            match r {
                Ok(found) => {
                    &&& final(self).at == old(self).at + 1
                    &&& old(self).at < old(self).replies@.len()
                    &&& match found {
                        Some(w) => old(self).replies@[old(self).at as int] == Reply::Word(w),
                        None => old(self).replies@[old(self).at as int] == Reply::No,
                    }
                },
                Err(action) => {
                    &&& action@ == if old(self).at >= old(self).replies@.len() {
                        Step::Ask(ask)
                    } else {
                        Step::Stop
                    }
                    &&& old(self).at < old(self).replies@.len() ==> !(old(self).replies@[old(
                        self,
                    ).at as int] is Word || old(self).replies@[old(self).at as int] is No)
                },
            },
    {
        if self.at >= self.replies.len() {
            return Err(Action::Ask(ask));
        }
        match self.replies[self.at] {
            Reply::Word(w) => {
                self.at = self.at + 1;
                Ok(Some(w))
            },
            Reply::No => {
                self.at = self.at + 1;
                Ok(None)
            },
            _ => Err(Action::Stop),
        }
    }

    /// The kind of a value; else what to do instead.
    fn kind(&mut self, w: u64) -> (r: Result<Kind, Action>)
        requires
            old(self).well_formed(),
        ensures
            final(self).well_formed(),
            final(self).replies == old(self).replies,
            match r {
                Ok(k) => final(self).at == old(self).at + 1 && old(self).at
                    < old(self).replies@.len() && old(self).replies@[old(self).at as int]
                    == Reply::Kind(k),
                Err(action) => action@ == kind(
                    old(self).replies@,
                    old(self).at as int,
                    w,
                    |k: Kind| Step::Stop,
                ) && !(old(self).at < old(self).replies@.len() && old(self).replies@[old(
                    self,
                ).at as int] is Kind),
            },
    {
        if self.at >= self.replies.len() {
            return Err(Action::Ask(Ask::Kind(w)));
        }
        match self.replies[self.at] {
            Reply::Kind(k) => {
                self.at = self.at + 1;
                Ok(k)
            },
            _ => Err(Action::Stop),
        }
    }

    /// Asks, and is done with the word.
    fn finish(&mut self, ask: Ask) -> (r: Action)
        requires
            old(self).well_formed(),
        ensures
            r@ == finish(old(self).replies@, old(self).at as int, ask),
    {
        match self.word(ask) {
            Ok(w) => Action::Done(w),
            Err(action) => action,
        }
    }

    /// The word replied to `ask` with operands; else what to do instead.
    fn word_with(&mut self, ask: Ask, args: &[u64]) -> (r: Result<u64, Action>)
        requires
            old(self).well_formed(),
        ensures
            final(self).well_formed(),
            final(self).replies == old(self).replies,
            match r {
                Ok(w) => final(self).at == old(self).at + 1 && old(self).at
                    < old(self).replies@.len() && old(self).replies@[old(self).at as int]
                    == Reply::Word(w),
                Err(action) => action@ == word_with(
                    old(self).replies@,
                    old(self).at as int,
                    ask,
                    args@,
                    |w: u64| Step::Stop,
                ) && !(old(self).at < old(self).replies@.len() && old(self).replies@[old(
                    self,
                ).at as int] is Word),
            },
    {
        if self.at >= self.replies.len() {
            return Err(Action::AskWith(ask, copied(args)));
        }
        self.word(ask)
    }

    /// Asks with operands, and is done with the word.
    fn finish_with(&mut self, ask: Ask, args: &[u64]) -> (r: Action)
        requires
            old(self).well_formed(),
        ensures
            r@ == finish_with(old(self).replies@, old(self).at as int, ask, args@),
    {
        match self.word_with(ask, args) {
            Ok(w) => Action::Done(w),
            Err(action) => action,
        }
    }

    /// Asks, and is done with `undefined`.
    fn finish_void(&mut self, ask: Ask) -> (r: Action)
        requires
            old(self).well_formed(),
        ensures
            r@ == finish_void(old(self).replies@, old(self).at as int, ask),
    {
        match self.word(ask) {
            Ok(_) => Action::Done(UNDEFINED_BITS),
            Err(action) => action,
        }
    }
}

// Properties and slots.

/// What [`get_property`] does.
pub open spec fn getting_property(receiver: u64, k: u32, r: Seq<Reply>) -> Step {
    word(
        r,
        0,
        Ask::NullCheck(receiver, Name::Table(k)),
        |object: u64| finish(r, 1, Ask::GetProperty(object, Name::Table(k))),
    )
}

/// `gp`: reads the property with the method's name `k`.
pub fn get_property(receiver: u64, k: u32, replies: &[Reply]) -> (r: Action)
    ensures
        r@ == getting_property(receiver, k, replies@),
{
    let mut talk = Talk::new(replies);
    let object: u64 = match talk.word(Ask::NullCheck(receiver, Name::Table(k))) {
        Ok(w) => w,
        Err(action) => {
            return action;
        },
    };
    talk.finish(Ask::GetProperty(object, Name::Table(k)))
}

/// The multiname `k` filled in with `name`, and the property of that name read.
pub open spec fn getting_slowly(
    receiver: u64,
    name: u64,
    k: u32,
    r: Seq<Reply>,
    i: int,
) -> Step {
    word(
        r,
        i,
        Ask::FillName(k, name),
        |filled: u64|
            word(
                r,
                i + 1,
                Ask::NullCheck(receiver, Name::Filled(filled)),
                |object: u64| finish(r, i + 2, Ask::GetProperty(object, Name::Filled(filled))),
            ),
    )
}

/// What [`get_property_fast`] does.
pub open spec fn getting_property_fast(receiver: u64, name: u64, k: u32, r: Seq<Reply>) -> Step {
    kind(
        r,
        0,
        receiver,
        |of: Kind|
            if of is Object {
                kind(
                    r,
                    1,
                    name,
                    |by: Kind|
                        if by is Integer || by is Number {
                            maybe(
                                r,
                                2,
                                Ask::Index(name),
                                |index: u64|
                                    maybe(
                                        r,
                                        3,
                                        Ask::GetIndex(receiver, index),
                                        |found: u64| Step::Done(found),
                                        getting_slowly(receiver, name, k, r, 4),
                                    ),
                                getting_slowly(receiver, name, k, r, 3),
                            )
                        } else if by is Object {
                            maybe(
                                r,
                                2,
                                Ask::AsDictionary(receiver),
                                |dictionary: u64| finish(r, 3, Ask::GetByObject(dictionary, name)),
                                getting_slowly(receiver, name, k, r, 3),
                            )
                        } else {
                            getting_slowly(receiver, name, k, r, 2)
                        },
                )
            } else {
                getting_slowly(receiver, name, k, r, 1)
            },
    )
}

fn get_slowly(receiver: u64, name: u64, k: u32, talk: &mut Talk<'_>) -> (r: Action)
    requires
        old(talk).well_formed(),
    ensures
        r@ == getting_slowly(receiver, name, k, old(talk).replies@, old(talk).at as int),
{
    let filled: u64 = match talk.word(Ask::FillName(k, name)) {
        Ok(w) => w,
        Err(action) => {
            return action;
        },
    };
    let object: u64 = match talk.word(Ask::NullCheck(receiver, Name::Filled(filled))) {
        Ok(w) => w,
        Err(action) => {
            return action;
        },
    };
    talk.finish(Ask::GetProperty(object, Name::Filled(filled)))
}

/// `gpf`: reads the property that a value names: an element by a number, an entry of a
/// dictionary by an object; else the property with the method's name `k`, filled in.
pub fn get_property_fast(receiver: u64, name: u64, k: u32, replies: &[Reply]) -> (r: Action)
    ensures
        r@ == getting_property_fast(receiver, name, k, replies@),
{
    let mut talk = Talk::new(replies);
    let of = match talk.kind(receiver) {
        Ok(k) => k,
        Err(action) => {
            return action;
        },
    };
    if matches!(of, Kind::Object) {
        let by = match talk.kind(name) {
            Ok(k) => k,
            Err(action) => {
                return action;
            },
        };
        if matches!(by, Kind::Integer | Kind::Number) {
            let index: Option<u64> = match talk.maybe(Ask::Index(name)) {
                Ok(found) => found,
                Err(action) => {
                    return action;
                },
            };
            if let Some(index) = index {
                let found: Option<u64> = match talk.maybe(Ask::GetIndex(receiver, index)) {
                    Ok(found) => found,
                    Err(action) => {
                        return action;
                    },
                };
                if let Some(word) = found {
                    return Action::Done(word);
                }
            }
        } else if matches!(by, Kind::Object) {
            let dictionary: Option<u64> = match talk.maybe(Ask::AsDictionary(receiver)) {
                Ok(found) => found,
                Err(action) => {
                    return action;
                },
            };
            if let Some(dictionary) = dictionary {
                return talk.finish(Ask::GetByObject(dictionary, name));
            }
        }
    }
    get_slowly(receiver, name, k, &mut talk)
}

/// What [`get_slot`] does.
pub open spec fn getting_slot(receiver: u64, slot: u32, r: Seq<Reply>) -> Step {
    kind(
        r,
        0,
        receiver,
        |of: Kind|
            if of is Object {
                finish(r, 1, Ask::GetSlot(receiver, slot))
            } else {
                word(
                    r,
                    1,
                    Ask::ObjectCheck(receiver, Name::Nothing),
                    |object: u64| finish(r, 2, Ask::GetSlot(object, slot)),
                )
            },
    )
}

/// `gs`: reads a slot. A receiver that is no object throws.
pub fn get_slot(receiver: u64, slot: u32, replies: &[Reply]) -> (r: Action)
    ensures
        r@ == getting_slot(receiver, slot, replies@),
{
    let mut talk = Talk::new(replies);
    let of = match talk.kind(receiver) {
        Ok(k) => k,
        Err(action) => {
            return action;
        },
    };
    if matches!(of, Kind::Object) {
        return talk.finish(Ask::GetSlot(receiver, slot));
    }
    let object: u64 = match talk.word(Ask::ObjectCheck(receiver, Name::Nothing)) {
        Ok(w) => w,
        Err(action) => {
            return action;
        },
    };
    talk.finish(Ask::GetSlot(object, slot))
}

/// What [`set_slot`] does.
pub open spec fn setting_slot(receiver: u64, value: u64, slot: u32, r: Seq<Reply>) -> Step {
    word(
        r,
        0,
        Ask::ObjectCheck(receiver, Name::Nothing),
        |object: u64| word(r, 1, Ask::SetSlot(object, slot, value), |w: u64| Step::Done(0)),
    )
}

/// Ternary helper 0: stores into a slot, coerced to its type.
pub fn set_slot(receiver: u64, value: u64, slot: u32, replies: &[Reply]) -> (r: Action)
    ensures
        r@ == setting_slot(receiver, value, slot, replies@),
{
    let mut talk = Talk::new(replies);
    let object: u64 = match talk.word(Ask::ObjectCheck(receiver, Name::Nothing)) {
        Ok(w) => w,
        Err(action) => {
            return action;
        },
    };
    if let Err(action) = talk.word(Ask::SetSlot(object, slot, value)) {
        return action;
    }
    Action::Done(0)
}

/// What [`set_slot_no_coerce`] does.
pub open spec fn setting_slot_raw(receiver: u64, value: u64, slot: u32, r: Seq<Reply>) -> Step {
    word(
        r,
        0,
        Ask::ObjectCheck(receiver, Name::Nothing),
        |object: u64| word(r, 1, Ask::SetSlotRaw(object, slot, value), |w: u64| Step::Done(0)),
    )
}

/// Ternary helper 1: stores into a slot as it is.
pub fn set_slot_no_coerce(receiver: u64, value: u64, slot: u32, replies: &[Reply]) -> (r: Action)
    ensures
        r@ == setting_slot_raw(receiver, value, slot, replies@),
{
    let mut talk = Talk::new(replies);
    let object: u64 = match talk.word(Ask::ObjectCheck(receiver, Name::Nothing)) {
        Ok(w) => w,
        Err(action) => {
            return action;
        },
    };
    if let Err(action) = talk.word(Ask::SetSlotRaw(object, slot, value)) {
        return action;
    }
    Action::Done(0)
}

/// The int in a reply.
pub open spec fn int_in(w: u64) -> i32 {
    w as u32 as i32
}

/// What [`set_slot_coerce_i`] does.
pub open spec fn setting_slot_int(receiver: u64, value: u64, slot: u32, r: Seq<Reply>) -> Step {
    word(
        r,
        0,
        Ask::ObjectCheck(receiver, Name::Nothing),
        |object: u64|
            word(
                r,
                1,
                Ask::ToInt(value),
                |n: u64|
                    word(
                        r,
                        2,
                        Ask::SetSlotRaw(object, slot, linear::int_word(int_in(n))),
                        |w: u64| Step::Done(0),
                    ),
            ),
    )
}

/// Ternary helper 2: stores into a slot as an int.
pub fn set_slot_coerce_i(receiver: u64, value: u64, slot: u32, replies: &[Reply]) -> (r: Action)
    ensures
        r@ == setting_slot_int(receiver, value, slot, replies@),
{
    let mut talk = Talk::new(replies);
    let object: u64 = match talk.word(Ask::ObjectCheck(receiver, Name::Nothing)) {
        Ok(w) => w,
        Err(action) => {
            return action;
        },
    };
    let n: u64 = match talk.word(Ask::ToInt(value)) {
        Ok(w) => w,
        Err(action) => {
            return action;
        },
    };
    if let Err(action) = talk.word(Ask::SetSlotRaw(object, slot, box_int_word(n as u32 as i32))) {
        return action;
    }
    Action::Done(0)
}

// Calls.

/// What [`call_method`] does.
pub open spec fn calling_method(receiver: u64, id: u32, args: Seq<u64>, r: Seq<Reply>) -> Step {
    word(
        r,
        0,
        Ask::NullCheck(receiver, Name::Nothing),
        |object: u64| finish_with(r, 1, Ask::CallMethod(object, id), args),
    )
}

/// `cm`: calls the method with a dispatch id.
pub fn call_method(receiver: u64, id: u32, args: &[u64], replies: &[Reply]) -> (r: Action)
    ensures
        r@ == calling_method(receiver, id, args@, replies@),
{
    let mut talk = Talk::new(replies);
    let object: u64 = match talk.word(Ask::NullCheck(receiver, Name::Nothing)) {
        Ok(w) => w,
        Err(action) => {
            return action;
        },
    };
    talk.finish_with(Ask::CallMethod(object, id), args)
}

/// What [`call_property`] does.
pub open spec fn calling_property(receiver: u64, k: u32, args: Seq<u64>, r: Seq<Reply>) -> Step {
    word(
        r,
        0,
        Ask::NullCheck(receiver, Name::Table(k)),
        |object: u64| finish_with(r, 1, Ask::CallProperty(object, Name::Table(k)), args),
    )
}

/// `cp`: calls the property with the method's name `k`.
pub fn call_property(receiver: u64, k: u32, args: &[u64], replies: &[Reply]) -> (r: Action)
    ensures
        r@ == calling_property(receiver, k, args@, replies@),
{
    let mut talk = Talk::new(replies);
    let object: u64 = match talk.word(Ask::NullCheck(receiver, Name::Table(k))) {
        Ok(w) => w,
        Err(action) => {
            return action;
        },
    };
    talk.finish_with(Ask::CallProperty(object, Name::Table(k)), args)
}

/// What [`construct_super`] does.
pub open spec fn constructing_super(receiver: u64, args: Seq<u64>, r: Seq<Reply>) -> Step {
    word(
        r,
        0,
        Ask::NullCheck(receiver, Name::Nothing),
        |object: u64| word_with(r, 1, Ask::ConstructSuper(object), args, |w: u64| Step::Done(0)),
    )
}

/// `csup`: runs the constructor of the superclass.
pub fn construct_super(receiver: u64, args: &[u64], replies: &[Reply]) -> (r: Action)
    ensures
        r@ == constructing_super(receiver, args@, replies@),
{
    let mut talk = Talk::new(replies);
    let object: u64 = match talk.word(Ask::NullCheck(receiver, Name::Nothing)) {
        Ok(w) => w,
        Err(action) => {
            return action;
        },
    };
    if let Err(action) = talk.word_with(Ask::ConstructSuper(object), args) {
        return action;
    }
    Action::Done(0)
}

/// What [`call_value`] does.
pub open spec fn calling_value(
    function: u64,
    receiver: u64,
    args: Seq<u64>,
    r: Seq<Reply>,
) -> Step {
    finish_with(r, 0, Ask::Call(function, receiver), args)
}

/// `callv`: calls a value.
pub fn call_value(function: u64, receiver: u64, args: &[u64], replies: &[Reply]) -> (r: Action)
    ensures
        r@ == calling_value(function, receiver, args@, replies@),
{
    let mut talk = Talk::new(replies);
    talk.finish_with(Ask::Call(function, receiver), args)
}

// Types.

/// What [`as_type_late`] does.
pub open spec fn as_type(value: u64, class: u64, null_bits: u64, r: Seq<Reply>) -> Step {
    kind(
        r,
        0,
        class,
        |of: Kind|
            if of is Undefined {
                Step::Throw(Fault::NullOrUndefined(class))
            } else {
                maybe(
                    r,
                    1,
                    Ask::AsObject(class),
                    |object: u64|
                        maybe(
                            r,
                            2,
                            Ask::AsClass(object),
                            |c: u64|
                                maybe(
                                    r,
                                    3,
                                    Ask::IsOfType(value, c),
                                    |w: u64| Step::Done(value),
                                    Step::Done(null_bits),
                                ),
                            Step::Throw(Fault::NoClass),
                        ),
                    Step::Throw(Fault::Null),
                )
            },
    )
}

/// Binary helper 16: the value if it is of the class, else `null`. What is no class throws.
pub fn as_type_late(value: u64, class: u64, null_bits: u64, replies: &[Reply]) -> (r: Action)
    ensures
        r@ == as_type(value, class, null_bits, replies@),
{
    let mut talk = Talk::new(replies);
    let of = match talk.kind(class) {
        Ok(k) => k,
        Err(action) => {
            return action;
        },
    };
    if matches!(of, Kind::Undefined) {
        return Action::Throw(Fault::NullOrUndefined(class));
    }
    let object: Option<u64> = match talk.maybe(Ask::AsObject(class)) {
        Ok(found) => found,
        Err(action) => {
            return action;
        },
    };
    let object: u64 = match object {
        Some(object) => object,
        None => {
            return Action::Throw(Fault::Null);
        },
    };
    let found: Option<u64> = match talk.maybe(Ask::AsClass(object)) {
        Ok(found) => found,
        Err(action) => {
            return action;
        },
    };
    let c: u64 = match found {
        Some(c) => c,
        None => {
            return Action::Throw(Fault::NoClass);
        },
    };
    let is_one: Option<u64> = match talk.maybe(Ask::IsOfType(value, c)) {
        Ok(found) => found,
        Err(action) => {
            return action;
        },
    };
    if is_one.is_some() {
        Action::Done(value)
    } else {
        Action::Done(null_bits)
    }
}

/// What [`is_type_late`] does.
pub open spec fn is_type(value: u64, class: u64, r: Seq<Reply>) -> Step {
    maybe(
        r,
        0,
        Ask::AsObject(class),
        |object: u64|
            maybe(
                r,
                1,
                Ask::AsClass(object),
                |c: u64|
                    maybe(
                        r,
                        2,
                        Ask::IsOfType(value, c),
                        |w: u64| Step::Done(bool_word(true)),
                        Step::Done(bool_word(false)),
                    ),
                Step::Throw(Fault::NoClass),
            ),
        Step::Throw(Fault::NoClass),
    )
}

fn box_bool(b: bool) -> (r: u64)
    ensures
        r == bool_word(b),
{
    if b {
        VALUE_BOOL_MARK + 1
    } else {
        VALUE_BOOL_MARK
    }
}

/// Binary helper 17: whether the value is of the class. What is no class throws.
pub fn is_type_late(value: u64, class: u64, replies: &[Reply]) -> (r: Action)
    ensures
        r@ == is_type(value, class, replies@),
{
    let mut talk = Talk::new(replies);
    let object: Option<u64> = match talk.maybe(Ask::AsObject(class)) {
        Ok(found) => found,
        Err(action) => {
            return action;
        },
    };
    let object: u64 = match object {
        Some(object) => object,
        None => {
            return Action::Throw(Fault::NoClass);
        },
    };
    let found: Option<u64> = match talk.maybe(Ask::AsClass(object)) {
        Ok(found) => found,
        Err(action) => {
            return action;
        },
    };
    let c: u64 = match found {
        Some(c) => c,
        None => {
            return Action::Throw(Fault::NoClass);
        },
    };
    let is_one: Option<u64> = match talk.maybe(Ask::IsOfType(value, c)) {
        Ok(found) => found,
        Err(action) => {
            return action;
        },
    };
    Action::Done(box_bool(is_one.is_some()))
}

/// What [`coerce_s`] does.
pub open spec fn to_text(value: u64, null_bits: u64, r: Seq<Reply>) -> Step {
    kind(
        r,
        0,
        value,
        |of: Kind|
            match of {
                Kind::Undefined => Step::Done(null_bits),
                Kind::Null => Step::Done(null_bits),
                Kind::Text => Step::Done(value),
                _ => finish(r, 1, Ask::ToText(value)),
            },
    )
}

/// Unary helper 25: the value as a text; `null` for `null` and `undefined`.
pub fn coerce_s(value: u64, null_bits: u64, replies: &[Reply]) -> (r: Action)
    ensures
        r@ == to_text(value, null_bits, replies@),
{
    let mut talk = Talk::new(replies);
    let of = match talk.kind(value) {
        Ok(k) => k,
        Err(action) => {
            return action;
        },
    };
    match of {
        Kind::Undefined | Kind::Null => Action::Done(null_bits),
        Kind::Text => Action::Done(value),
        _ => talk.finish(Ask::ToText(value)),
    }
}

/// What [`coerce`] does.
pub open spec fn to_type(value: u64, k: u32, classes: nat, r: Seq<Reply>) -> Step {
    if k < classes {
        finish(r, 0, Ask::ToType(value, k))
    } else {
        Step::Done(value)
    }
}

/// `coerce`: the value as one of class `k` of the method's table of `classes` classes.
pub fn coerce(value: u64, k: u32, classes: usize, replies: &[Reply]) -> (r: Action)
    ensures
        r@ == to_type(value, k, classes as nat, replies@),
{
    if k as usize >= classes {
        return Action::Done(value);
    }
    let mut talk = Talk::new(replies);
    talk.finish(Ask::ToType(value, k))
}

/// What [`coerce_return`] does.
pub open spec fn to_return_type(value: u64, typed: bool, r: Seq<Reply>) -> Step {
    if typed {
        finish(r, 0, Ask::ToReturnType(value))
    } else {
        Step::Done(value)
    }
}

/// Unary helper 16: the value as one of the declared return type, if there is one.
pub fn coerce_return(value: u64, typed: bool, replies: &[Reply]) -> (r: Action)
    ensures
        r@ == to_return_type(value, typed, replies@),
{
    if !typed {
        return Action::Done(value);
    }
    let mut talk = Talk::new(replies);
    talk.finish(Ask::ToReturnType(value))
}

// The variadic helper.

/// Coerces the receiver to the superclass, and goes on with the object.
pub open spec fn as_super(
    a: u64,
    k: u32,
    r: Seq<Reply>,
    i: int,
    next: spec_fn(u64) -> Step,
) -> Step {
    word(
        r,
        i,
        Ask::CoerceToSuper(a),
        |receiver: u64| word(r, i + 1, Ask::ObjectCheck(receiver, Name::Table(k)), next),
    )
}

/// Sets the first `n` pairs of names and values, the last pair first, so that of two pairs with
/// one name the first one stays.
pub open spec fn setting_pairs(
    object: u64,
    args: Seq<u64>,
    n: nat,
    r: Seq<Reply>,
    i: int,
) -> Step
    decreases n,
{
    if n == 0 {
        Step::Done(object)
    } else {
        word(
            r,
            i,
            Ask::ToText(args[2 * n - 2]),
            |name: u64|
                word(
                    r,
                    i + 1,
                    Ask::SetDynamic(object, name, args[2 * n - 1]),
                    |w: u64| setting_pairs(object, args, (n - 1) as nat, r, i + 2),
                ),
        )
    }
}

/// The value at an enumeration index; an index below 1 has none.
pub open spec fn next_value(a: u64, index: u64, r: Seq<Reply>, i: int) -> Step {
    word(
        r,
        i,
        Ask::ToInt(index),
        |n: u64|
            if int_in(n) <= 0 {
                Step::Done(UNDEFINED_BITS)
            } else {
                word(
                    r,
                    i + 1,
                    Ask::NullCheck(a, Name::Nothing),
                    |v: u64|
                        kind(
                            r,
                            i + 2,
                            v,
                            |of: Kind|
                                if of is Object {
                                    finish(r, i + 3, Ask::Enumerant(v, int_in(n) as u32))
                                } else {
                                    word(
                                        r,
                                        i + 3,
                                        Ask::Proto(v),
                                        |proto: u64|
                                            finish(
                                                r,
                                                i + 4,
                                                Ask::Enumerant(proto, int_in(n) as u32),
                                            ),
                                    )
                                },
                        ),
                )
            },
    )
}

/// The text of a value as a public name.
pub open spec fn public_name(
    a: u64,
    r: Seq<Reply>,
    i: int,
    next: spec_fn(u64) -> Step,
) -> Step {
    word(r, i, Ask::ToText(a), |text: u64| word(r, i + 1, Ask::PublicName(text), next))
}

/// Whether the object has a property of the name `a`.
pub open spec fn has_via(v: u64, a: u64, r: Seq<Reply>, i: int) -> Step {
    public_name(a, r, i, |name: u64| finish(r, i + 2, Ask::HasVia(v, Name::Filled(name))))
}

/// Whether `object` has a property of the name `a`: by the object itself in a dictionary; of a
/// primitive, among its traits and then in what it inherits from.
pub open spec fn is_in(a: u64, object: u64, r: Seq<Reply>, i: int) -> Step {
    word(
        r,
        i,
        Ask::NullCheck(object, Name::Nothing),
        |v: u64|
            kind(
                r,
                i + 1,
                v,
                |of: Kind|
                    if of is Object {
                        maybe(
                            r,
                            i + 2,
                            Ask::AsDictionary(v),
                            |dictionary: u64|
                                maybe(
                                    r,
                                    i + 3,
                                    Ask::AsObject(a),
                                    |key: u64| finish(r, i + 4, Ask::HasByObject(dictionary, key)),
                                    has_via(v, a, r, i + 4),
                                ),
                            has_via(v, a, r, i + 3),
                        )
                    } else {
                        public_name(
                            a,
                            r,
                            i + 2,
                            |name: u64|
                                maybe(
                                    r,
                                    i + 4,
                                    Ask::HasTrait(v, Name::Filled(name)),
                                    |w: u64| Step::Done(bool_word(true)),
                                    word(
                                        r,
                                        i + 5,
                                        Ask::Proto(v),
                                        |proto: u64|
                                            finish(
                                                r,
                                                i + 6,
                                                Ask::HasProperty(proto, Name::Filled(name)),
                                            ),
                                    ),
                                ),
                        )
                    },
            ),
    )
}

/// The multiname `k` filled in with `name`, and the property of that name set.
pub open spec fn setting_slowly(
    a: u64,
    k: u32,
    name: u64,
    value: u64,
    r: Seq<Reply>,
    i: int,
) -> Step {
    word(
        r,
        i,
        Ask::FillName(k, name),
        |filled: u64|
            word(
                r,
                i + 1,
                Ask::NullCheck(a, Name::Filled(filled)),
                |object: u64|
                    finish_void(r, i + 2, Ask::SetProperty(object, Name::Filled(filled), value)),
            ),
    )
}

/// Sets the property that a value names: an element by a number, an entry of a dictionary by an
/// object; else the property with the multiname `k`, filled in.
pub open spec fn setting_fast(
    a: u64,
    k: u32,
    name: u64,
    value: u64,
    r: Seq<Reply>,
    i: int,
) -> Step {
    kind(
        r,
        i,
        a,
        |of: Kind|
            if of is Object {
                kind(
                    r,
                    i + 1,
                    name,
                    |by: Kind|
                        if by is Integer || by is Number {
                            maybe(
                                r,
                                i + 2,
                                Ask::Index(name),
                                |index: u64|
                                    maybe(
                                        r,
                                        i + 3,
                                        Ask::SetIndex(a, index, value),
                                        |w: u64| Step::Done(UNDEFINED_BITS),
                                        setting_slowly(a, k, name, value, r, i + 4),
                                    ),
                                setting_slowly(a, k, name, value, r, i + 3),
                            )
                        } else if by is Object {
                            maybe(
                                r,
                                i + 2,
                                Ask::AsDictionary(a),
                                |dictionary: u64|
                                    finish_void(
                                        r,
                                        i + 3,
                                        Ask::SetByObject(dictionary, name, value),
                                    ),
                                setting_slowly(a, k, name, value, r, i + 3),
                            )
                        } else {
                            setting_slowly(a, k, name, value, r, i + 2)
                        },
                )
            } else {
                setting_slowly(a, k, name, value, r, i + 1)
            },
    )
}

/// Runs the initializer of a class object that exists.
pub open spec fn initialized(class: u64, r: Seq<Reply>, i: int) -> Step {
    word(r, i, Ask::RunInitializer(class), |w: u64| Step::Done(class))
}

/// Makes a class object with the base class `a`, which has to be the declared superclass.
pub open spec fn deriving_class(a: u64, k: u32, r: Seq<Reply>, i: int) -> Step {
    word(
        r,
        i,
        Ask::ToClass(a),
        |base: u64|
            kind(
                r,
                i + 1,
                base,
                |of: Kind|
                    if of is Object {
                        word(
                            r,
                            i + 2,
                            Ask::ClassOf(base),
                            |class: u64|
                                maybe(
                                    r,
                                    i + 3,
                                    Ask::SuperClass(k),
                                    |declared: u64|
                                        if class == declared {
                                            finish(r, i + 4, Ask::MakeClass(k, Some(base)))
                                        } else {
                                            Step::Throw(Fault::WrongBase)
                                        },
                                    Step::Throw(Fault::WrongBase),
                                ),
                        )
                    } else {
                        maybe(
                            r,
                            i + 2,
                            Ask::SuperClass(k),
                            |declared: u64| Step::Throw(Fault::Null),
                            finish(r, i + 3, Ask::MakeClass(k, None)),
                        )
                    },
            ),
    )
}

/// Makes a class object. Those of `Object` and `Class` exist already.
pub open spec fn making_class(a: u64, k: u32, r: Seq<Reply>, i: int) -> Step {
    maybe(
        r,
        i,
        Ask::IsObjectClass(k),
        |class: u64| initialized(class, r, i + 1),
        maybe(
            r,
            i + 1,
            Ask::IsClassClass(k),
            |class: u64| initialized(class, r, i + 2),
            deriving_class(a, k, r, i + 2),
        ),
    )
}

/// How many spilled operands a kind works on at least.
pub open spec fn least_args(kind: u32) -> nat {
    if kind == vc::SET_SUPER || kind == vc::NEXT_VALUE || kind == vc::IN || kind
        == vc::SET_PROP_STATIC {
        1
    } else if kind == vc::SET_PROP_FAST {
        2
    } else {
        0
    }
}

/// How many spilled operands a kind works on at least.
pub fn operands_needed(kind: u32) -> (r: usize)
    ensures
        r == least_args(kind),
{
    match kind {
        vc::SET_SUPER | vc::NEXT_VALUE | vc::IN | vc::SET_PROP_STATIC => 1,
        vc::SET_PROP_FAST => 2,
        _ => 0,
    }
}

/// What [`vcall`] does for the kinds that construct and call.
pub open spec fn vcall_of_calls(
    a: u64,
    imm: u32,
    args: Seq<u64>,
    kind: u32,
    r: Seq<Reply>,
) -> Option<Step> {
    let named = Name::Table(imm);
    if kind == vc::CONSTRUCT_SLOT {
        Some(
            word(
                r,
                0,
                Ask::ObjectCheck(a, Name::Nothing),
                |source: u64|
                    word(
                        r,
                        1,
                        Ask::GetSlot(source, imm),
                        |c: u64| finish_with(r, 2, Ask::Construct(c), args),
                    ),
            ),
        )
    } else if kind == vc::CONSTRUCT {
        Some(finish_with(r, 0, Ask::Construct(a), args))
    } else if kind == vc::CONSTRUCT_PROP {
        Some(
            word(
                r,
                0,
                Ask::NullCheck(a, named),
                |source: u64| finish_with(r, 1, Ask::ConstructProp(source, named), args),
            ),
        )
    } else if kind == vc::CALL_SUPER {
        Some(
            as_super(
                a,
                imm,
                r,
                0,
                |object: u64| finish_with(r, 2, Ask::CallSuper(object, named), args),
            ),
        )
    } else if kind == vc::CALL_NATIVE {
        Some(
            word(
                r,
                0,
                Ask::NullCheck(a, Name::Nothing),
                |receiver: u64| finish_with(r, 1, Ask::CallNative(receiver, imm), args),
            ),
        )
    } else if kind == vc::APPLY_TYPE {
        Some(
            maybe(
                r,
                0,
                Ask::AsObject(a),
                |base: u64| finish_with(r, 1, Ask::Apply(base), args),
                Step::Throw(Fault::NoTypeParameters),
            ),
        )
    } else {
        None
    }
}

/// What [`vcall`] does for the kinds that make a value.
pub open spec fn vcall_of_values(
    a: u64,
    imm: u32,
    args: Seq<u64>,
    kind: u32,
    r: Seq<Reply>,
) -> Option<Step> {
    if kind == vc::NEW_ARRAY {
        Some(finish_with(r, 0, Ask::NewArray, args))
    } else if kind == vc::NEW_OBJECT {
        Some(
            word(
                r,
                0,
                Ask::NewObject,
                |object: u64| setting_pairs(object, args, args.len() / 2, r, 1),
            ),
        )
    } else if kind == vc::NEW_CLASS {
        Some(making_class(a, imm, r, 0))
    } else if kind == vc::NEW_ACTIVATION {
        Some(finish(r, 0, Ask::NewActivation(imm)))
    } else if kind == vc::NEW_FUNCTION {
        Some(finish(r, 0, Ask::NewFunction(imm)))
    } else if kind == vc::TYPE_OF {
        Some(finish(r, 0, Ask::TypeOf(a)))
    } else if kind == vc::PUSH_NAMESPACE {
        Some(finish(r, 0, Ask::Namespace(imm)))
    } else if kind == vc::COERCE_D {
        Some(finish(r, 0, Ask::ToNumber(a)))
    } else if kind == vc::CONVERT_S {
        Some(finish(r, 0, Ask::ToText(a)))
    } else {
        None
    }
}

/// What [`vcall`] does for the kinds that work on properties.
pub open spec fn vcall_of_properties(
    a: u64,
    imm: u32,
    args: Seq<u64>,
    kind: u32,
    r: Seq<Reply>,
) -> Option<Step> {
    let named = Name::Table(imm);
    if kind == vc::GET_SUPER {
        Some(as_super(a, imm, r, 0, |object: u64| finish(r, 2, Ask::GetSuper(object, named))))
    } else if kind == vc::SET_SUPER {
        Some(
            as_super(
                a,
                imm,
                r,
                0,
                |object: u64| finish_void(r, 2, Ask::SetSuper(object, named, args[0])),
            ),
        )
    } else if kind == vc::DELETE_PROPERTY {
        Some(
            word(
                r,
                0,
                Ask::NullCheck(a, named),
                |object: u64| finish(r, 1, Ask::DeleteProperty(object, named)),
            ),
        )
    } else if kind == vc::NEXT_VALUE {
        Some(next_value(a, args[0], r, 0))
    } else if kind == vc::IN {
        Some(is_in(a, args[0], r, 0))
    } else if kind == vc::SET_PROP_STATIC {
        Some(
            word(
                r,
                0,
                Ask::NullCheck(a, named),
                |object: u64| finish_void(r, 1, Ask::SetProperty(object, named, args[0])),
            ),
        )
    } else if kind == vc::SET_PROP_FAST {
        Some(setting_fast(a, imm, args[0], args[1], r, 0))
    } else {
        None
    }
}

/// What [`vcall`] does for each kind.
pub open spec fn vcalling(a: u64, imm: u32, args: Seq<u64>, kind: u32, r: Seq<Reply>) -> Step {
    match (
        vcall_of_calls(a, imm, args, kind, r),
        vcall_of_values(a, imm, args, kind, r),
        vcall_of_properties(a, imm, args, kind, r),
    ) {
        (Some(action), _, _) => action,
        (None, Some(action), _) => action,
        (None, None, Some(action)) => action,
        (None, None, None) => Step::Stop,
    }
}

fn next_value_step(a: u64, index: u64, talk: &mut Talk<'_>) -> (r: Action)
    requires
        old(talk).well_formed(),
    ensures
        r@ == next_value(a, index, old(talk).replies@, old(talk).at as int),
{
    let n: u64 = match talk.word(Ask::ToInt(index)) {
        Ok(w) => w,
        Err(action) => {
            return action;
        },
    };
    let n: i32 = n as u32 as i32;
    if n <= 0 {
        return Action::Done(UNDEFINED_BITS);
    }
    let v: u64 = match talk.word(Ask::NullCheck(a, Name::Nothing)) {
        Ok(w) => w,
        Err(action) => {
            return action;
        },
    };
    let of = match talk.kind(v) {
        Ok(k) => k,
        Err(action) => {
            return action;
        },
    };
    if matches!(of, Kind::Object) {
        return talk.finish(Ask::Enumerant(v, n as u32));
    }
    let proto: u64 = match talk.word(Ask::Proto(v)) {
        Ok(w) => w,
        Err(action) => {
            return action;
        },
    };
    talk.finish(Ask::Enumerant(proto, n as u32))
}

fn has_via_step(v: u64, a: u64, talk: &mut Talk<'_>) -> (r: Action)
    requires
        old(talk).well_formed(),
    ensures
        r@ == has_via(v, a, old(talk).replies@, old(talk).at as int),
{
    let text: u64 = match talk.word(Ask::ToText(a)) {
        Ok(w) => w,
        Err(action) => {
            return action;
        },
    };
    let name: u64 = match talk.word(Ask::PublicName(text)) {
        Ok(w) => w,
        Err(action) => {
            return action;
        },
    };
    talk.finish(Ask::HasVia(v, Name::Filled(name)))
}

fn in_step(a: u64, object: u64, talk: &mut Talk<'_>) -> (r: Action)
    requires
        old(talk).well_formed(),
    ensures
        r@ == is_in(a, object, old(talk).replies@, old(talk).at as int),
{
    let v: u64 = match talk.word(Ask::NullCheck(object, Name::Nothing)) {
        Ok(w) => w,
        Err(action) => {
            return action;
        },
    };
    let of = match talk.kind(v) {
        Ok(k) => k,
        Err(action) => {
            return action;
        },
    };
    if matches!(of, Kind::Object) {
        let dictionary: Option<u64> = match talk.maybe(Ask::AsDictionary(v)) {
            Ok(found) => found,
            Err(action) => {
                return action;
            },
        };
        if let Some(dictionary) = dictionary {
            let key: Option<u64> = match talk.maybe(Ask::AsObject(a)) {
                Ok(found) => found,
                Err(action) => {
                    return action;
                },
            };
            if let Some(key) = key {
                return talk.finish(Ask::HasByObject(dictionary, key));
            }
        }
        return has_via_step(v, a, talk);
    }
    let text: u64 = match talk.word(Ask::ToText(a)) {
        Ok(w) => w,
        Err(action) => {
            return action;
        },
    };
    let name: u64 = match talk.word(Ask::PublicName(text)) {
        Ok(w) => w,
        Err(action) => {
            return action;
        },
    };
    let has_trait: Option<u64> = match talk.maybe(Ask::HasTrait(v, Name::Filled(name))) {
        Ok(found) => found,
        Err(action) => {
            return action;
        },
    };
    if has_trait.is_some() {
        return Action::Done(box_bool(true));
    }
    let proto: u64 = match talk.word(Ask::Proto(v)) {
        Ok(w) => w,
        Err(action) => {
            return action;
        },
    };
    talk.finish(Ask::HasProperty(proto, Name::Filled(name)))
}

fn set_slowly(a: u64, k: u32, name: u64, value: u64, talk: &mut Talk<'_>) -> (r: Action)
    requires
        old(talk).well_formed(),
    ensures
        r@ == setting_slowly(a, k, name, value, old(talk).replies@, old(talk).at as int),
{
    let filled: u64 = match talk.word(Ask::FillName(k, name)) {
        Ok(w) => w,
        Err(action) => {
            return action;
        },
    };
    let object: u64 = match talk.word(Ask::NullCheck(a, Name::Filled(filled))) {
        Ok(w) => w,
        Err(action) => {
            return action;
        },
    };
    talk.finish_void(Ask::SetProperty(object, Name::Filled(filled), value))
}

fn set_fast(a: u64, k: u32, name: u64, value: u64, talk: &mut Talk<'_>) -> (r: Action)
    requires
        old(talk).well_formed(),
    ensures
        r@ == setting_fast(a, k, name, value, old(talk).replies@, old(talk).at as int),
{
    let of = match talk.kind(a) {
        Ok(k) => k,
        Err(action) => {
            return action;
        },
    };
    if matches!(of, Kind::Object) {
        let by = match talk.kind(name) {
            Ok(k) => k,
            Err(action) => {
                return action;
            },
        };
        if matches!(by, Kind::Integer | Kind::Number) {
            let index: Option<u64> = match talk.maybe(Ask::Index(name)) {
                Ok(found) => found,
                Err(action) => {
                    return action;
                },
            };
            if let Some(index) = index {
                let done: Option<u64> = match talk.maybe(Ask::SetIndex(a, index, value)) {
                    Ok(found) => found,
                    Err(action) => {
                        return action;
                    },
                };
                if done.is_some() {
                    return Action::Done(UNDEFINED_BITS);
                }
            }
        } else if matches!(by, Kind::Object) {
            let dictionary: Option<u64> = match talk.maybe(Ask::AsDictionary(a)) {
                Ok(found) => found,
                Err(action) => {
                    return action;
                },
            };
            if let Some(dictionary) = dictionary {
                return talk.finish_void(Ask::SetByObject(dictionary, name, value));
            }
        }
    }
    set_slowly(a, k, name, value, talk)
}

fn initialize(class: u64, talk: &mut Talk<'_>) -> (r: Action)
    requires
        old(talk).well_formed(),
    ensures
        r@ == initialized(class, old(talk).replies@, old(talk).at as int),
{
    if let Err(action) = talk.word(Ask::RunInitializer(class)) {
        return action;
    }
    Action::Done(class)
}

fn derive_class(a: u64, k: u32, talk: &mut Talk<'_>) -> (r: Action)
    requires
        old(talk).well_formed(),
    ensures
        r@ == deriving_class(a, k, old(talk).replies@, old(talk).at as int),
{
    let base: u64 = match talk.word(Ask::ToClass(a)) {
        Ok(w) => w,
        Err(action) => {
            return action;
        },
    };
    let of = match talk.kind(base) {
        Ok(k) => k,
        Err(action) => {
            return action;
        },
    };
    if matches!(of, Kind::Object) {
        let class: u64 = match talk.word(Ask::ClassOf(base)) {
            Ok(w) => w,
            Err(action) => {
                return action;
            },
        };
        let declared: Option<u64> = match talk.maybe(Ask::SuperClass(k)) {
            Ok(found) => found,
            Err(action) => {
                return action;
            },
        };
        return match declared {
            Some(declared) => if class == declared {
                talk.finish(Ask::MakeClass(k, Some(base)))
            } else {
                Action::Throw(Fault::WrongBase)
            },
            None => Action::Throw(Fault::WrongBase),
        };
    }
    let declared: Option<u64> = match talk.maybe(Ask::SuperClass(k)) {
        Ok(found) => found,
        Err(action) => {
            return action;
        },
    };
    if declared.is_some() {
        return Action::Throw(Fault::Null);
    }
    talk.finish(Ask::MakeClass(k, None))
}

fn make_class(a: u64, k: u32, talk: &mut Talk<'_>) -> (r: Action)
    requires
        old(talk).well_formed(),
    ensures
        r@ == making_class(a, k, old(talk).replies@, old(talk).at as int),
{
    let class: Option<u64> = match talk.maybe(Ask::IsObjectClass(k)) {
        Ok(found) => found,
        Err(action) => {
            return action;
        },
    };
    if let Some(class) = class {
        return initialize(class, talk);
    }
    let class: Option<u64> = match talk.maybe(Ask::IsClassClass(k)) {
        Ok(found) => found,
        Err(action) => {
            return action;
        },
    };
    if let Some(class) = class {
        return initialize(class, talk);
    }
    derive_class(a, k, talk)
}

fn set_pairs(object: u64, args: &[u64], talk: &mut Talk<'_>) -> (r: Action)
    requires
        old(talk).well_formed(),
    ensures
        r@ == setting_pairs(
            object,
            args@,
            args@.len() / 2,
            old(talk).replies@,
            old(talk).at as int,
        ),
{
    let ghost replies = talk.replies@;
    let len: usize = args.len();
    let mut n: usize = len / 2;
    while n > 0
        invariant
            len == args@.len(),
            talk.well_formed(),
            talk.replies@ == replies,
            replies == old(talk).replies@,
            2 * n <= len,
            setting_pairs(object, args@, args@.len() / 2, replies, old(talk).at as int)
                == setting_pairs(object, args@, n as nat, replies, talk.at as int),
        decreases n,
    {
        let name: u64 = match talk.word(Ask::ToText(args[2 * n - 2])) {
            Ok(w) => w,
            Err(action) => {
                return action;
            },
        };
        if let Err(action) = talk.word(Ask::SetDynamic(object, name, args[2 * n - 1])) {
            return action;
        }
        n = n - 1;
    }
    Action::Done(object)
}

fn super_object(a: u64, k: u32, talk: &mut Talk<'_>) -> (r: Result<u64, Action>)
    requires
        old(talk).well_formed(),
    ensures
        final(talk).well_formed(),
        final(talk).replies == old(talk).replies,
        match r {
            Ok(object) => final(talk).at == old(talk).at + 2 && forall|next: spec_fn(u64) -> Step|
                #[trigger] as_super(a, k, old(talk).replies@, old(talk).at as int, next) == next(
                    object,
                ),
            Err(action) => forall|next: spec_fn(u64) -> Step|
                #[trigger] as_super(a, k, old(talk).replies@, old(talk).at as int, next) == action@,
        },
{
    match talk.word(Ask::CoerceToSuper(a)) {
        Ok(receiver) => talk.word(Ask::ObjectCheck(receiver, Name::Table(k))),
        Err(action) => Err(action),
    }
}

fn vcall_call(a: u64, imm: u32, args: &[u64], kind: u32, replies: &[Reply]) -> (r: Action)
    requires
        kind <= vc::APPLY_TYPE,
    ensures
        vcall_of_calls(a, imm, args@, kind, replies@) == Some(r@),
{
    let mut talk = Talk::new(replies);
    let named = Name::Table(imm);
    match kind {
        vc::CONSTRUCT_SLOT => {
            let source: u64 = match talk.word(Ask::ObjectCheck(a, Name::Nothing)) {
                Ok(w) => w,
                Err(action) => {
                    return action;
                },
            };
            let c: u64 = match talk.word(Ask::GetSlot(source, imm)) {
                Ok(w) => w,
                Err(action) => {
                    return action;
                },
            };
            talk.finish_with(Ask::Construct(c), args)
        },
        vc::CONSTRUCT => talk.finish_with(Ask::Construct(a), args),
        vc::CONSTRUCT_PROP => {
            let source: u64 = match talk.word(Ask::NullCheck(a, named)) {
                Ok(w) => w,
                Err(action) => {
                    return action;
                },
            };
            talk.finish_with(Ask::ConstructProp(source, named), args)
        },
        vc::CALL_SUPER => {
            let object: u64 = match super_object(a, imm, &mut talk) {
                Ok(w) => w,
                Err(action) => {
                    return action;
                },
            };
            talk.finish_with(Ask::CallSuper(object, named), args)
        },
        vc::CALL_NATIVE => {
            let receiver: u64 = match talk.word(Ask::NullCheck(a, Name::Nothing)) {
                Ok(w) => w,
                Err(action) => {
                    return action;
                },
            };
            talk.finish_with(Ask::CallNative(receiver, imm), args)
        },
        _ => {
            let base: Option<u64> = match talk.maybe(Ask::AsObject(a)) {
                Ok(found) => found,
                Err(action) => {
                    return action;
                },
            };
            match base {
                Some(base) => talk.finish_with(Ask::Apply(base), args),
                None => Action::Throw(Fault::NoTypeParameters),
            }
        },
    }
}

fn vcall_value(a: u64, imm: u32, args: &[u64], kind: u32, replies: &[Reply]) -> (r: Option<Action>)
    ensures
        match r {
            Some(action) => vcall_of_values(a, imm, args@, kind, replies@) == Some(action@),
            None => vcall_of_values(a, imm, args@, kind, replies@) is None,
        },
{
    let mut talk = Talk::new(replies);
    let action = match kind {
        vc::NEW_ARRAY => talk.finish_with(Ask::NewArray, args),
        vc::NEW_OBJECT => match talk.word(Ask::NewObject) {
            Ok(object) => set_pairs(object, args, &mut talk),
            Err(action) => action,
        },
        vc::NEW_CLASS => make_class(a, imm, &mut talk),
        vc::NEW_ACTIVATION => talk.finish(Ask::NewActivation(imm)),
        vc::NEW_FUNCTION => talk.finish(Ask::NewFunction(imm)),
        vc::TYPE_OF => talk.finish(Ask::TypeOf(a)),
        vc::PUSH_NAMESPACE => talk.finish(Ask::Namespace(imm)),
        vc::COERCE_D => talk.finish(Ask::ToNumber(a)),
        vc::CONVERT_S => talk.finish(Ask::ToText(a)),
        _ => {
            return None;
        },
    };
    Some(action)
}

fn vcall_property(a: u64, imm: u32, args: &[u64], kind: u32, replies: &[Reply]) -> (r: Action)
    requires
        vcall_of_properties(a, imm, args@, kind, replies@) is Some,
        args@.len() >= least_args(kind),
    ensures
        vcall_of_properties(a, imm, args@, kind, replies@) == Some(r@),
{
    let mut talk = Talk::new(replies);
    let named = Name::Table(imm);
    match kind {
        vc::GET_SUPER => {
            let object: u64 = match super_object(a, imm, &mut talk) {
                Ok(w) => w,
                Err(action) => {
                    return action;
                },
            };
            talk.finish(Ask::GetSuper(object, named))
        },
        vc::SET_SUPER => {
            let object: u64 = match super_object(a, imm, &mut talk) {
                Ok(w) => w,
                Err(action) => {
                    return action;
                },
            };
            talk.finish_void(Ask::SetSuper(object, named, args[0]))
        },
        vc::DELETE_PROPERTY => {
            let object: u64 = match talk.word(Ask::NullCheck(a, named)) {
                Ok(w) => w,
                Err(action) => {
                    return action;
                },
            };
            talk.finish(Ask::DeleteProperty(object, named))
        },
        vc::NEXT_VALUE => next_value_step(a, args[0], &mut talk),
        vc::IN => in_step(a, args[0], &mut talk),
        vc::SET_PROP_STATIC => {
            let object: u64 = match talk.word(Ask::NullCheck(a, named)) {
                Ok(w) => w,
                Err(action) => {
                    return action;
                },
            };
            talk.finish_void(Ask::SetProperty(object, named, args[0]))
        },
        _ => set_fast(a, imm, args[0], args[1], &mut talk),
    }
}

/// `vc`: the variadic helper. `a` is the receiver or the one operand, `imm` the index that the op
/// holds, `args` the operands that were spilled, in the order of the stack.
pub fn vcall(a: u64, imm: u32, args: &[u64], kind: u32, replies: &[Reply]) -> (r: Action)
    requires
        kind <= vc::NEW_FUNCTION,
        args@.len() >= least_args(kind),
    ensures
        r@ == vcalling(a, imm, args@, kind, replies@),
{
    if kind <= vc::APPLY_TYPE {
        return vcall_call(a, imm, args, kind, replies);
    }
    match vcall_value(a, imm, args, kind, replies) {
        Some(action) => action,
        None => vcall_property(a, imm, args, kind, replies),
    }
}

} // verus!
