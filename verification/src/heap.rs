//! What comes of the helpers' conversations, with a host that keeps objects.
//!
//! [`crate::dialog`] says what a helper asks, given the replies so far. Here a host replies: it
//! keeps the slots and properties of its objects, converts values, and does calls. The laws say
//! what a helper comes to in the end: what it gives, what the host holds then, and which calls it
//! did.

use crate::dialog;
use crate::dialog::{Ask, Fault, Kind, Name, Reply, Step};
use crate::lower::fast;
use crate::lower::linear;
use crate::lower::wasm::UNDEFINED_BITS;
use vstd::prelude::*;

verus! {

/// A call that the host does, on the operands that it is given.
pub enum Deed {
    /// Function, receiver.
    Call(u64, u64, Seq<u64>),
    /// Object, dispatch id.
    Method(u64, u32, Seq<u64>),
    /// Object, name.
    Property(u64, u64, Seq<u64>),
    /// Receiver, entry of the natives.
    Native(u64, u32, Seq<u64>),
    Construct(u64, Seq<u64>),
    /// Object, name.
    ConstructProperty(u64, u64, Seq<u64>),
    ConstructSuper(u64, Seq<u64>),
    /// Object, name.
    Super(u64, u64, Seq<u64>),
    Apply(u64, Seq<u64>),
    Initialize(u64),
}

/// What the host holds.
#[verifier::ext_equal]
pub struct Heap {
    pub slots: Map<(u64, u32), u64>,
    /// By object and name.
    pub properties: Map<(u64, u64), u64>,
    /// What the superclass keeps, by object and name.
    pub supers: Map<(u64, u64), u64>,
    /// By object and index.
    pub elements: Map<(u64, u64), u64>,
    /// The entries of dictionaries, by their keys.
    pub entries: Map<(u64, u64), u64>,
    /// The properties of the objects that literals have made, by their texts.
    pub literals: Map<u64, Map<u64, u64>>,
    /// The elements of the arrays that literals have made.
    pub arrays: Map<u64, Seq<u64>>,
    /// The names that were made in the conversation.
    pub names: Seq<u64>,
    /// The calls that were done, in order.
    pub deeds: Seq<Deed>,
}

/// What the host makes of values. None of it changes.
pub struct Realm {
    pub kind: spec_fn(u64) -> Kind,
    pub int: spec_fn(u64) -> i32,
    pub number: spec_fn(u64) -> u64,
    pub text: spec_fn(u64) -> u64,
    pub kind_text: spec_fn(u64) -> u64,
    /// The value as one of class `1` of the method's table.
    pub as_class: spec_fn(u64, u32) -> u64,
    pub as_return: spec_fn(u64) -> u64,
    pub as_super: spec_fn(u64) -> u64,
    /// The value, as the slot of the object takes it.
    pub as_slot: spec_fn(u64, u32, u64) -> u64,
    pub index: spec_fn(u64) -> Option<u64>,
    pub is_class: spec_fn(u64) -> bool,
    pub is_dictionary: spec_fn(u64) -> bool,
    /// The object has elements.
    pub is_list: spec_fn(u64) -> bool,
    pub is_of: spec_fn(u64, u64) -> bool,
    /// Entry `0` of the method's names.
    pub named: spec_fn(u32) -> u64,
    /// The name that entry `0` is, with the value as its missing part.
    pub filled: spec_fn(u32, u64) -> u64,
    /// The public name of a text.
    pub public: spec_fn(u64) -> u64,
    pub has: spec_fn(u64, u64) -> bool,
    pub has_trait: spec_fn(u64, u64) -> bool,
    pub proto: spec_fn(u64) -> u64,
    pub enumerant: spec_fn(u64, u32) -> u64,
    pub result: spec_fn(Deed) -> u64,
    /// A new object, by what there was before.
    pub fresh: spec_fn(Heap) -> u64,
    /// The class object of `Object`, if entry `0` of the classes is that class.
    pub object_class: spec_fn(u32) -> Option<u64>,
    /// The class object of `Class`, if entry `0` of the classes is that class.
    pub class_class: spec_fn(u32) -> Option<u64>,
    /// The value as a class, or as `null`.
    pub as_base: spec_fn(u64) -> u64,
    pub class_of: spec_fn(u64) -> u64,
    pub super_class: spec_fn(u32) -> Option<u64>,
    pub made_class: spec_fn(u32, Option<u64>) -> u64,
    pub activation: spec_fn(u32) -> u64,
    pub function: spec_fn(u32) -> u64,
    pub namespace: spec_fn(u32) -> u64,
}

/// The name that is meant.
pub open spec fn key(w: Realm, name: Name, h: Heap) -> u64 {
    match name {
        Name::Nothing => 0,
        Name::Table(k) => (w.named)(k),
        Name::Filled(id) => h.names[id as int],
    }
}

pub open spec fn given(word: u64, h: Heap) -> (Reply, Heap) {
    (Reply::Word(word), h)
}

pub open spec fn perhaps(word: Option<u64>, h: Heap) -> (Reply, Heap) {
    match word {
        Some(word) => (Reply::Word(word), h),
        None => (Reply::No, h),
    }
}

pub open spec fn only_if(yes: bool, word: u64, h: Heap) -> (Reply, Heap) {
    if yes {
        (Reply::Word(word), h)
    } else {
        (Reply::No, h)
    }
}

/// A call is done.
pub open spec fn done(w: Realm, deed: Deed, h: Heap) -> (Reply, Heap) {
    (Reply::Word((w.result)(deed)), Heap { deeds: h.deeds.push(deed), ..h })
}

/// A name is made.
pub open spec fn coined(name: u64, h: Heap) -> (Reply, Heap) {
    (Reply::Word(h.names.len() as u64), Heap { names: h.names.push(name), ..h })
}

/// The value is neither `null` nor `undefined`.
pub open spec fn is_something(w: Realm, v: u64) -> bool {
    !((w.kind)(v) is Null || (w.kind)(v) is Undefined)
}

/// What the host replies about values.
pub open spec fn told(w: Realm, ask: Ask, h: Heap) -> (Reply, Heap) {
    match ask {
        Ask::Kind(v) => (Reply::Kind((w.kind)(v)), h),
        Ask::NullCheck(v, _) => if is_something(w, v) {
            given(v, h)
        } else {
            (Reply::Thrown, h)
        },
        Ask::ObjectCheck(v, _) => if (w.kind)(v) is Object {
            given(v, h)
        } else {
            (Reply::Thrown, h)
        },
        Ask::AsObject(v) => only_if((w.kind)(v) is Object, v, h),
        Ask::AsClass(v) => only_if((w.is_class)(v), v, h),
        Ask::AsDictionary(v) => only_if((w.is_dictionary)(v), v, h),
        Ask::IsOfType(v, class) => only_if((w.is_of)(v, class), 1, h),
        Ask::Index(v) => perhaps((w.index)(v), h),
        Ask::FillName(k, v) => coined((w.filled)(k, v), h),
        Ask::PublicName(t) => coined((w.public)(t), h),
        Ask::CoerceToSuper(v) => given((w.as_super)(v), h),
        Ask::ToInt(v) => given(linear::int_word((w.int)(v)), h),
        Ask::ToNumber(v) => given((w.number)(v), h),
        Ask::ToText(v) => given((w.text)(v), h),
        Ask::ToType(v, k) => given((w.as_class)(v, k), h),
        Ask::ToReturnType(v) => given((w.as_return)(v), h),
        Ask::Proto(v) => given((w.proto)(v), h),
        Ask::Enumerant(o, i) => given((w.enumerant)(o, i), h),
        Ask::HasVia(o, n) => given(fast::bool_word((w.has)(o, key(w, n, h))), h),
        Ask::HasProperty(o, n) => given(fast::bool_word((w.has)(o, key(w, n, h))), h),
        Ask::HasTrait(o, n) => only_if((w.has_trait)(o, key(w, n, h)), 1, h),
        Ask::IsObjectClass(k) => perhaps((w.object_class)(k), h),
        Ask::IsClassClass(k) => perhaps((w.class_class)(k), h),
        Ask::ToClass(v) => given((w.as_base)(v), h),
        Ask::ClassOf(c) => given((w.class_of)(c), h),
        Ask::SuperClass(k) => perhaps((w.super_class)(k), h),
        Ask::MakeClass(k, base) => given((w.made_class)(k, base), h),
        Ask::NewActivation(k) => given((w.activation)(k), h),
        Ask::NewFunction(k) => given((w.function)(k), h),
        Ask::Namespace(k) => given((w.namespace)(k), h),
        Ask::TypeOf(v) => given((w.kind_text)(v), h),
        _ => (Reply::Thrown, h),
    }
}

/// What the host replies, and holds then.
pub open spec fn replied(w: Realm, ask: Ask, args: Seq<u64>, h: Heap) -> (Reply, Heap) {
    match ask {
        Ask::GetSlot(o, i) => given(h.slots[(o, i)], h),
        Ask::SetSlot(o, i, v) => given(
            0,
            Heap { slots: h.slots.insert((o, i), (w.as_slot)(o, i, v)), ..h },
        ),
        Ask::SetSlotRaw(o, i, v) => given(0, Heap { slots: h.slots.insert((o, i), v), ..h }),
        Ask::GetProperty(o, n) => given(h.properties[(o, key(w, n, h))], h),
        Ask::SetProperty(o, n, v) => given(
            0,
            Heap { properties: h.properties.insert((o, key(w, n, h)), v), ..h },
        ),
        Ask::DeleteProperty(o, n) => given(
            fast::bool_word(true),
            Heap { properties: h.properties.remove((o, key(w, n, h))), ..h },
        ),
        Ask::GetSuper(o, n) => given(h.supers[(o, key(w, n, h))], h),
        Ask::SetSuper(o, n, v) => given(
            0,
            Heap { supers: h.supers.insert((o, key(w, n, h)), v), ..h },
        ),
        Ask::GetIndex(o, i) => only_if((w.is_list)(o), h.elements[(o, i)], h),
        Ask::SetIndex(o, i, v) => if (w.is_list)(o) {
            given(0, Heap { elements: h.elements.insert((o, i), v), ..h })
        } else {
            (Reply::No, h)
        },
        Ask::GetByObject(d, k) => given(h.entries[(d, k)], h),
        Ask::SetByObject(d, k, v) => given(
            0,
            Heap { entries: h.entries.insert((d, k), v), ..h },
        ),
        Ask::HasByObject(d, k) => given(
            fast::bool_word(h.entries.dom().contains((d, k))),
            h,
        ),
        Ask::NewArray => given(
            (w.fresh)(h),
            Heap { arrays: h.arrays.insert((w.fresh)(h), args), ..h },
        ),
        Ask::NewObject => given(
            (w.fresh)(h),
            Heap { literals: h.literals.insert((w.fresh)(h), Map::empty()), ..h },
        ),
        Ask::SetDynamic(o, name, v) => given(
            0,
            Heap { literals: h.literals.insert(o, h.literals[o].insert(name, v)), ..h },
        ),
        Ask::Call(f, receiver) => done(w, Deed::Call(f, receiver, args), h),
        Ask::CallMethod(o, id) => done(w, Deed::Method(o, id, args), h),
        Ask::CallProperty(o, n) => done(w, Deed::Property(o, key(w, n, h), args), h),
        Ask::CallNative(o, k) => done(w, Deed::Native(o, k, args), h),
        Ask::Construct(f) => done(w, Deed::Construct(f, args), h),
        Ask::ConstructProp(o, n) => done(w, Deed::ConstructProperty(o, key(w, n, h), args), h),
        Ask::ConstructSuper(o) => done(w, Deed::ConstructSuper(o, args), h),
        Ask::CallSuper(o, n) => done(w, Deed::Super(o, key(w, n, h), args), h),
        Ask::Apply(o) => done(w, Deed::Apply(o, args), h),
        Ask::RunInitializer(c) => done(w, Deed::Initialize(c), h),
        _ => told(w, ask, h),
    }
}

/// What a conversation comes to that has got the replies `r`: how the helper ends, and what the
/// host holds then. `None` if `fuel` questions are not enough.
pub open spec fn held(
    w: Realm,
    helper: spec_fn(Seq<Reply>) -> Step,
    r: Seq<Reply>,
    h: Heap,
    fuel: nat,
) -> Option<(Step, Heap)>
    decreases fuel,
{
    match helper(r) {
        Step::Ask(ask) => if fuel == 0 {
            None
        } else {
            let (reply, h2) = replied(w, ask, Seq::empty(), h);
            held(w, helper, r.push(reply), h2, (fuel - 1) as nat)
        },
        Step::AskWith(ask, args) => if fuel == 0 {
            None
        } else {
            let (reply, h2) = replied(w, ask, args, h);
            held(w, helper, r.push(reply), h2, (fuel - 1) as nat)
        },
        end => Some((end, h)),
    }
}

/// The whole conversation, of eight questions at most.
pub open spec fn talk(w: Realm, helper: spec_fn(Seq<Reply>) -> Step, h: Heap) -> Option<
    (Step, Heap),
> {
    held(w, helper, Seq::empty(), h, 8)
}

/// The helper is done with a word.
pub open spec fn gives(word: u64, h: Heap) -> Option<(Step, Heap)> {
    Some((Step::Done(word), h))
}

/// Something has thrown, and nothing has changed.
pub open spec fn throws(h: Heap) -> Option<(Step, Heap)> {
    Some((Step::Stop, h))
}

// Slots.

/// A slot read gives what the slot of the object holds, and changes nothing. What is no object
/// throws.
pub proof fn slots_are_read(w: Realm, h: Heap, receiver: u64, slot: u32)
    ensures
        talk(w, |r: Seq<Reply>| dialog::getting_slot(receiver, slot, r), h) == if (w.kind)(
            receiver,
        ) is Object {
            gives(h.slots[(receiver, slot)], h)
        } else {
            throws(h)
        },
{
    reveal_with_fuel(held, 6);
}

/// What a slot store comes to: the slot holds the value, and nothing else has changed.
pub open spec fn stores(w: Realm, h: Heap, receiver: u64, slot: u32, v: u64) -> Option<
    (Step, Heap),
> {
    if (w.kind)(receiver) is Object {
        gives(0, Heap { slots: h.slots.insert((receiver, slot), v), ..h })
    } else {
        throws(h)
    }
}

/// A slot store leaves the value in the slot, as the slot takes it.
pub proof fn slots_are_written(w: Realm, h: Heap, receiver: u64, v: u64, slot: u32)
    ensures
        talk(w, |r: Seq<Reply>| dialog::setting_slot(receiver, v, slot, r), h) == stores(
            w,
            h,
            receiver,
            slot,
            (w.as_slot)(receiver, slot, v),
        ),
{
    reveal_with_fuel(held, 4);
}

/// A raw slot store leaves the value in the slot as it is.
pub proof fn slots_are_written_raw(w: Realm, h: Heap, receiver: u64, v: u64, slot: u32)
    ensures
        talk(w, |r: Seq<Reply>| dialog::setting_slot_raw(receiver, v, slot, r), h) == stores(
            w,
            h,
            receiver,
            slot,
            v,
        ),
{
    reveal_with_fuel(held, 4);
}

/// A slot store of an int leaves the int that the value is in the slot.
pub proof fn slots_are_written_as_ints(w: Realm, h: Heap, receiver: u64, v: u64, slot: u32)
    ensures
        talk(w, |r: Seq<Reply>| dialog::setting_slot_int(receiver, v, slot, r), h) == stores(
            w,
            h,
            receiver,
            slot,
            linear::int_word((w.int)(v)),
        ),
{
    fast::lemma_int_words((w.int)(v));
    reveal_with_fuel(held, 5);
}

// Properties.

/// A property read gives what the property of that name holds. `null` and `undefined` throw.
pub proof fn properties_are_read(w: Realm, h: Heap, receiver: u64, k: u32)
    ensures
        talk(w, |r: Seq<Reply>| dialog::getting_property(receiver, k, r), h) == if is_something(
            w,
            receiver,
        ) {
            gives(h.properties[(receiver, (w.named)(k))], h)
        } else {
            throws(h)
        },
{
    reveal_with_fuel(held, 4);
}

/// The value is a number, and names an element of the object.
pub open spec fn names_element(w: Realm, o: u64, name: u64) -> bool {
    &&& (w.kind)(o) is Object
    &&& (w.kind)(name) is Integer || (w.kind)(name) is Number
    &&& (w.index)(name) is Some
    &&& (w.is_list)(o)
}

/// The value is an object, and names an entry of the object, which is a dictionary.
pub open spec fn names_entry(w: Realm, o: u64, name: u64) -> bool {
    &&& (w.kind)(o) is Object
    &&& (w.kind)(name) is Object
    &&& (w.is_dictionary)(o)
}

/// The host has filled in a name.
pub open spec fn with_name(h: Heap, name: u64) -> Heap {
    Heap { names: h.names.push(name), ..h }
}

/// What reading the property that a value names comes to.
pub open spec fn reads(w: Realm, h: Heap, o: u64, name: u64, k: u32) -> Option<(Step, Heap)> {
    let called = (w.filled)(k, name);
    if names_element(w, o, name) {
        gives(h.elements[(o, (w.index)(name)->0)], h)
    } else if names_entry(w, o, name) {
        gives(h.entries[(o, name)], h)
    } else if is_something(w, o) {
        gives(h.properties[(o, called)], with_name(h, called))
    } else {
        throws(with_name(h, called))
    }
}

/// A read by a value gives the element that a number names, the entry of a dictionary that an
/// object names, and else the property with the filled-in name.
#[verifier::spinoff_prover]
#[verifier::rlimit(40)]
pub proof fn named_properties_are_read(w: Realm, h: Heap, receiver: u64, name: u64, k: u32)
    requires
        h.names.len() < 0xffff_ffff,
    ensures
        talk(w, |r: Seq<Reply>| dialog::getting_property_fast(receiver, name, k, r), h) == reads(
            w,
            h,
            receiver,
            name,
            k,
        ),
{
    reveal_with_fuel(held, 9);
}

// Calls.

/// What a call comes to: it is done on those operands, and its result is given.
pub open spec fn calls(w: Realm, h: Heap, deed: Deed) -> Option<(Step, Heap)> {
    gives((w.result)(deed), Heap { deeds: h.deeds.push(deed), ..h })
}

/// A method call calls the method with that dispatch id, on the receiver and the arguments.
pub proof fn methods_are_called(w: Realm, h: Heap, receiver: u64, id: u32, args: Seq<u64>)
    ensures
        talk(w, |r: Seq<Reply>| dialog::calling_method(receiver, id, args, r), h)
            == if is_something(w, receiver) {
            calls(w, h, Deed::Method(receiver, id, args))
        } else {
            throws(h)
        },
{
    reveal_with_fuel(held, 4);
}

/// A property call calls the property of that name, on the receiver and the arguments.
pub proof fn properties_are_called(w: Realm, h: Heap, receiver: u64, k: u32, args: Seq<u64>)
    ensures
        talk(w, |r: Seq<Reply>| dialog::calling_property(receiver, k, args, r), h)
            == if is_something(w, receiver) {
            calls(w, h, Deed::Property(receiver, (w.named)(k), args))
        } else {
            throws(h)
        },
{
    reveal_with_fuel(held, 4);
}

/// The constructor of the superclass is called on the receiver and the arguments.
pub proof fn superclasses_construct(w: Realm, h: Heap, receiver: u64, args: Seq<u64>)
    ensures
        talk(w, |r: Seq<Reply>| dialog::constructing_super(receiver, args, r), h)
            == if is_something(w, receiver) {
            gives(0, Heap { deeds: h.deeds.push(Deed::ConstructSuper(receiver, args)), ..h })
        } else {
            throws(h)
        },
{
    reveal_with_fuel(held, 4);
}

/// A value is called on the receiver and the arguments.
pub proof fn values_are_called(w: Realm, h: Heap, f: u64, receiver: u64, args: Seq<u64>)
    ensures
        talk(w, |r: Seq<Reply>| dialog::calling_value(f, receiver, args, r), h) == calls(
            w,
            h,
            Deed::Call(f, receiver, args),
        ),
{
    reveal_with_fuel(held, 3);
}

// Types.

proof fn lemma_bool_words()
    ensures
        forall|b: bool| #[trigger] dialog::bool_word(b) == fast::bool_word(b),
{
    assert(0xFFFA_0000_0000_0000u64 | 1 == 0xFFFA_0000_0000_0001) by (bit_vector);
}

/// The class operand is the class object of a class.
pub open spec fn is_class(w: Realm, class: u64) -> bool {
    (w.kind)(class) is Object && (w.is_class)(class)
}

/// `as`: the value if it is of the class, else `null`. What is no class throws: `undefined` as
/// such, what is no object as `null`.
pub proof fn values_are_taken_as_types(w: Realm, h: Heap, v: u64, class: u64, null: u64)
    ensures
        talk(w, |r: Seq<Reply>| dialog::as_type(v, class, null, r), h) == if is_class(w, class) {
            gives(
                if (w.is_of)(v, class) {
                    v
                } else {
                    null
                },
                h,
            )
        } else if (w.kind)(class) is Undefined {
            Some((Step::Throw(Fault::NullOrUndefined(class)), h))
        } else if (w.kind)(class) is Object {
            Some((Step::Throw(Fault::NoClass), h))
        } else {
            Some((Step::Throw(Fault::Null), h))
        },
{
    reveal_with_fuel(held, 6);
}

/// `is`: whether the value is of the class. What is no class throws.
pub proof fn types_are_tested(w: Realm, h: Heap, v: u64, class: u64)
    ensures
        talk(w, |r: Seq<Reply>| dialog::is_type(v, class, r), h) == if is_class(w, class) {
            gives(fast::bool_word((w.is_of)(v, class)), h)
        } else {
            Some((Step::Throw(Fault::NoClass), h))
        },
{
    lemma_bool_words();
    reveal_with_fuel(held, 5);
}

/// A value coerced to a text is its text, and `null` if there is nothing.
pub proof fn values_are_coerced_to_texts(w: Realm, h: Heap, v: u64, null: u64)
    requires
        forall|t: u64| (w.kind)(t) is Text ==> #[trigger] (w.text)(t) == t,
    ensures
        talk(w, |r: Seq<Reply>| dialog::to_text(v, null, r), h) == gives(
            if is_something(w, v) {
                (w.text)(v)
            } else {
                null
            },
            h,
        ),
{
    reveal_with_fuel(held, 4);
}

/// A value coerced to a class of the table is one of that class; to one that there is none of,
/// it stays.
pub proof fn values_are_coerced_to_classes(w: Realm, h: Heap, v: u64, k: u32, classes: nat)
    ensures
        talk(w, |r: Seq<Reply>| dialog::to_type(v, k, classes, r), h) == gives(
            if k < classes {
                (w.as_class)(v, k)
            } else {
                v
            },
            h,
        ),
{
    reveal_with_fuel(held, 3);
}

/// A value is coerced to the declared return type, if there is one.
pub proof fn results_are_coerced(w: Realm, h: Heap, v: u64, typed: bool)
    ensures
        talk(w, |r: Seq<Reply>| dialog::to_return_type(v, typed, r), h) == gives(
            if typed {
                (w.as_return)(v)
            } else {
                v
            },
            h,
        ),
{
    reveal_with_fuel(held, 3);
}

// The variadic helper.

/// The variadic helper of a kind, on its operand, its number and the spilled operands.
pub open spec fn variadic(kind: u32, a: u64, imm: u32, args: Seq<u64>) -> spec_fn(
    Seq<Reply>,
) -> Step {
    |r: Seq<Reply>| dialog::vcalling(a, imm, args, kind, r)
}

/// What a call on something comes to; `null` and `undefined` throw.
pub open spec fn calls_on(w: Realm, h: Heap, receiver: u64, deed: Deed) -> Option<(Step, Heap)> {
    if is_something(w, receiver) {
        calls(w, h, deed)
    } else {
        throws(h)
    }
}

/// Kind 0 constructs from the class in a slot of the object, with the spilled operands.
pub proof fn slots_construct(w: Realm, h: Heap, a: u64, slot: u32, args: Seq<u64>)
    ensures
        talk(w, variadic(0, a, slot, args), h) == if (w.kind)(a) is Object {
            calls(w, h, Deed::Construct(h.slots[(a, slot)], args))
        } else {
            throws(h)
        },
{
    reveal_with_fuel(held, 5);
}

/// Kind 1 constructs from the operand, with the spilled operands.
pub proof fn classes_construct(w: Realm, h: Heap, a: u64, imm: u32, args: Seq<u64>)
    ensures
        talk(w, variadic(1, a, imm, args), h) == calls(w, h, Deed::Construct(a, args)),
{
    reveal_with_fuel(held, 3);
}

/// Kind 2 constructs from the property of that name, with the spilled operands.
pub proof fn properties_construct(w: Realm, h: Heap, a: u64, k: u32, args: Seq<u64>)
    ensures
        talk(w, variadic(2, a, k, args), h) == calls_on(
            w,
            h,
            a,
            Deed::ConstructProperty(a, (w.named)(k), args),
        ),
{
    reveal_with_fuel(held, 4);
}

/// Kind 3 calls the method of the superclass with that name, on the receiver as one of the
/// superclass and the spilled operands.
pub proof fn superclasses_are_called(w: Realm, h: Heap, a: u64, k: u32, args: Seq<u64>)
    ensures
        talk(w, variadic(3, a, k, args), h) == if (w.kind)((w.as_super)(a)) is Object {
            calls(w, h, Deed::Super((w.as_super)(a), (w.named)(k), args))
        } else {
            throws(h)
        },
{
    reveal_with_fuel(held, 5);
}

/// Kind 4 calls that native on the receiver and the spilled operands.
pub proof fn natives_are_called(w: Realm, h: Heap, a: u64, k: u32, args: Seq<u64>)
    ensures
        talk(w, variadic(4, a, k, args), h) == calls_on(w, h, a, Deed::Native(a, k, args)),
{
    reveal_with_fuel(held, 4);
}

/// Kind 5 applies the type parameters to the object. What is no object throws.
pub proof fn type_parameters_are_applied(w: Realm, h: Heap, a: u64, imm: u32, args: Seq<u64>)
    ensures
        talk(w, variadic(5, a, imm, args), h) == if (w.kind)(a) is Object {
            calls(w, h, Deed::Apply(a, args))
        } else {
            Some((Step::Throw(Fault::NoTypeParameters), h))
        },
{
    reveal_with_fuel(held, 4);
}

/// Kind 6 makes an array of the spilled operands, in their order.
pub proof fn arrays_hold_their_elements(w: Realm, h: Heap, a: u64, imm: u32, args: Seq<u64>)
    ensures
        talk(w, variadic(6, a, imm, args), h) == gives(
            (w.fresh)(h),
            Heap { arrays: h.arrays.insert((w.fresh)(h), args), ..h },
        ),
{
    reveal_with_fuel(held, 3);
}

/// The text of name `k` of a literal's operands, which are names and values in turn.
pub open spec fn name_at(w: Realm, args: Seq<u64>, k: int) -> u64 {
    (w.text)(args[2 * k])
}

pub open spec fn value_at(args: Seq<u64>, k: int) -> u64 {
    args[2 * k + 1]
}

/// Pair `k` is the first one with its name.
pub open spec fn is_first(w: Realm, args: Seq<u64>, k: int) -> bool {
    forall|j: int| 0 <= j < k ==> #[trigger] name_at(w, args, j) != name_at(w, args, k)
}

spec fn filled(w: Realm, args: Seq<u64>, n: nat, properties: Map<u64, u64>) -> Map<u64, u64>
    decreases n,
{
    if n == 0 {
        properties
    } else {
        filled(
            w,
            args,
            (n - 1) as nat,
            properties.insert((w.text)(args[2 * n - 2]), args[2 * n - 1]),
        )
    }
}

proof fn lemma_filled(w: Realm, args: Seq<u64>, n: nat, properties: Map<u64, u64>)
    ensures
        forall|name: u64| #[trigger]
            filled(w, args, n, properties).dom().contains(name) <==> properties.dom().contains(name)
                || exists|k: int| 0 <= k < n && #[trigger] name_at(w, args, k) == name,
        forall|k: int|
            0 <= k < n && is_first(w, args, k) ==> filled(w, args, n, properties)[#[trigger] name_at(
                w,
                args,
                k,
            )] == value_at(args, k),
        forall|name: u64|
            (forall|k: int| 0 <= k < n ==> #[trigger] name_at(w, args, k) != name) ==> #[trigger]
            filled(w, args, n, properties)[name] == properties[name],
    decreases n,
{
    if n > 0 {
        let rest = properties.insert((w.text)(args[2 * n - 2]), args[2 * n - 1]);
        assert(name_at(w, args, n - 1) == (w.text)(args[2 * n - 2]));
        lemma_filled(w, args, (n - 1) as nat, rest);
        let all = filled(w, args, n, properties);
        assert(all == filled(w, args, (n - 1) as nat, rest));
        assert forall|name: u64| #[trigger] all.dom().contains(name) implies
            properties.dom().contains(name) || exists|k: int|
            0 <= k < n && #[trigger] name_at(w, args, k) == name by {
            if rest.dom().contains(name) {
                if name == name_at(w, args, n - 1) {
                    assert(0 <= n - 1 < n);
                }
            } else {
                let k = choose|k: int| 0 <= k < n - 1 && #[trigger] name_at(w, args, k) == name;
                assert(0 <= k < n);
            }
        }
        assert forall|k: int| 0 <= k < n && is_first(w, args, k) implies all[#[trigger] name_at(
            w,
            args,
            k,
        )] == value_at(args, k) by {
            if k == n - 1 {
                assert(rest[name_at(w, args, k)] == value_at(args, k));
            }
        }
        assert forall|name: u64|
            (forall|k: int| 0 <= k < n ==> #[trigger] name_at(w, args, k) != name) implies
            #[trigger] all[name] == properties[name] by {
            assert(name_at(w, args, n - 1) != name);
        }
    }
}

proof fn lemma_pairs_so_far(object: u64, args: Seq<u64>, m: nat, n: nat, r: Seq<Reply>, i: int)
    requires
        n <= m,
        i >= 0,
        r.len() >= i + 2 * (m - n),
        forall|j: int| i <= j < i + 2 * (m - n) ==> #[trigger] r[j] is Word,
    ensures
        dialog::setting_pairs(object, args, m, r, i) == dialog::setting_pairs(
            object,
            args,
            n,
            r,
            i + 2 * (m - n),
        ),
    decreases m - n,
{
    if n < m {
        assert(r[i] is Word && r[i + 1] is Word);
        lemma_pairs_so_far(object, args, (m - 1) as nat, n, r, i + 2);
    }
}

proof fn lemma_pairs(
    w: Realm,
    h: Heap,
    helper: spec_fn(Seq<Reply>) -> Step,
    object: u64,
    args: Seq<u64>,
    m: nat,
    n: nat,
    r: Seq<Reply>,
    fuel: nat,
)
    requires
        forall|r: Seq<Reply>|
            r.len() > 0 && r[0] == Reply::Word(object) ==> #[trigger] helper(r)
                == dialog::setting_pairs(object, args, m, r, 1),
        n <= m,
        r.len() == 1 + 2 * (m - n),
        r[0] == Reply::Word(object),
        forall|j: int| 0 <= j < r.len() ==> #[trigger] r[j] is Word,
        fuel >= 2 * n,
    ensures
        held(w, helper, r, h, fuel) == if n == 0 {
            gives(object, h)
        } else {
            gives(
                object,
                Heap {
                    literals: h.literals.insert(
                        object,
                        filled(w, args, n, h.literals[object]),
                    ),
                    ..h
                },
            )
        },
    decreases n,
{
    lemma_pairs_so_far(object, args, m, n, r, 1);
    if n > 0 {
        let name = (w.text)(args[2 * n - 2]);
        let value = args[2 * n - 1];
        let r1 = r.push(Reply::Word(name));
        assert(helper(r) == Step::Ask(Ask::ToText(args[2 * n - 2])));
        assert(held(w, helper, r, h, fuel) == held(w, helper, r1, h, (fuel - 1) as nat));
        lemma_pairs_so_far(object, args, m, n, r1, 1);
        assert(helper(r1) == Step::Ask(Ask::SetDynamic(object, name, value)));
        let r2 = r1.push(Reply::Word(0));
        let h2 = Heap {
            literals: h.literals.insert(object, h.literals[object].insert(name, value)),
            ..h
        };
        assert(held(w, helper, r1, h, (fuel - 1) as nat) == held(
            w,
            helper,
            r2,
            h2,
            (fuel - 2) as nat,
        ));
        lemma_pairs(w, h2, helper, object, args, m, (n - 1) as nat, r2, (fuel - 2) as nat);
        let all = filled(w, args, n, h.literals[object]);
        assert(h2.literals[object] == h.literals[object].insert(name, value));
        assert(all == filled(w, args, (n - 1) as nat, h2.literals[object]));
        assert(h2.literals.insert(object, all) =~= h.literals.insert(object, all));
        if n == 1 {
            assert(all == h2.literals[object]);
        }
    }
}

/// Kind 7 makes an object of the spilled operands, which are names and values in turn. In the
/// end the object has a property for the text of each name and no other. Each has the value of
/// the first pair with its name. Nothing else has changed.
pub proof fn literals_hold_their_pairs(
    w: Realm,
    h: Heap,
    a: u64,
    imm: u32,
    args: Seq<u64>,
    fuel: nat,
)
    requires
        fuel >= args.len() + 1,
    ensures
        held(w, variadic(7, a, imm, args), Seq::empty(), h, fuel) matches Some((step, end)) && {
            let object = (w.fresh)(h);
            &&& step == Step::Done(object)
            &&& end == (Heap { literals: h.literals.insert(object, end.literals[object]), ..h })
            &&& forall|name: u64| #[trigger]
                end.literals[object].dom().contains(name) <==> exists|k: int|
                    0 <= k < args.len() / 2 && #[trigger] name_at(w, args, k) == name
            &&& forall|k: int|
                0 <= k < args.len() / 2 && is_first(w, args, k)
                    ==> end.literals[object][#[trigger] name_at(w, args, k)] == value_at(args, k)
        },
{
    let helper = variadic(7, a, imm, args);
    let object = (w.fresh)(h);
    let r = Seq::<Reply>::empty().push(Reply::Word(object));
    let h1 = Heap { literals: h.literals.insert(object, Map::empty()), ..h };
    let n = args.len() / 2;
    assert(helper(Seq::empty()) == Step::Ask(Ask::NewObject));
    assert(held(w, helper, Seq::empty(), h, fuel) == held(w, helper, r, h1, (fuel - 1) as nat));
    lemma_pairs(w, h1, helper, object, args, n, n, r, (fuel - 1) as nat);
    lemma_filled(w, args, n, Map::empty());
    let end = (held(w, helper, Seq::empty(), h, fuel)->0).1;
    assert(h1.literals[object] == Map::<u64, u64>::empty());
    assert(end.literals[object] == filled(w, args, n, Map::empty()));
    assert(end.literals =~= h.literals.insert(object, end.literals[object]));
}

/// Kind 8 gives what the superclass keeps under that name for the receiver.
pub proof fn superclasses_are_read(w: Realm, h: Heap, a: u64, k: u32, args: Seq<u64>)
    ensures
        talk(w, variadic(8, a, k, args), h) == if (w.kind)((w.as_super)(a)) is Object {
            gives(h.supers[((w.as_super)(a), (w.named)(k))], h)
        } else {
            throws(h)
        },
{
    reveal_with_fuel(held, 5);
}

/// Kind 9 has the superclass keep the spilled operand under that name for the receiver.
pub proof fn superclasses_are_written(w: Realm, h: Heap, a: u64, k: u32, v: u64)
    ensures
        talk(w, variadic(9, a, k, seq![v]), h) == if (w.kind)((w.as_super)(a)) is Object {
            gives(
                UNDEFINED_BITS,
                Heap { supers: h.supers.insert(((w.as_super)(a), (w.named)(k)), v), ..h },
            )
        } else {
            throws(h)
        },
{
    reveal_with_fuel(held, 5);
}

/// Kind 10 takes the property of that name away.
pub proof fn properties_are_deleted(w: Realm, h: Heap, a: u64, k: u32, args: Seq<u64>)
    ensures
        talk(w, variadic(10, a, k, args), h) == if is_something(w, a) {
            gives(
                fast::bool_word(true),
                Heap { properties: h.properties.remove((a, (w.named)(k))), ..h },
            )
        } else {
            throws(h)
        },
{
    reveal_with_fuel(held, 4);
}

/// Kind 11 gives what the operand, or what it inherits from if it is no object, has at the
/// enumeration index that the spilled operand is. An index below 1 has nothing, whatever the
/// operand.
pub proof fn enumerants_are_read(w: Realm, h: Heap, a: u64, imm: u32, index: u64)
    ensures
        talk(w, variadic(11, a, imm, seq![index]), h) == if (w.int)(index) <= 0 {
            gives(UNDEFINED_BITS, h)
        } else if !is_something(w, a) {
            throws(h)
        } else {
            let source = if (w.kind)(a) is Object {
                a
            } else {
                (w.proto)(a)
            };
            gives((w.enumerant)(source, (w.int)(index) as u32), h)
        },
{
    fast::lemma_int_words((w.int)(index));
    reveal_with_fuel(held, 7);
}

/// Whether the object has the name, and what names were made to find out.
pub open spec fn finds(w: Realm, h: Heap, o: u64, name: u64) -> Option<(Step, Heap)> {
    let public = (w.public)((w.text)(name));
    if !is_something(w, o) {
        throws(h)
    } else if (w.kind)(o) is Object && (w.is_dictionary)(o) && (w.kind)(name) is Object {
        gives(fast::bool_word(h.entries.dom().contains((o, name))), h)
    } else if (w.kind)(o) is Object {
        gives(fast::bool_word((w.has)(o, public)), with_name(h, public))
    } else {
        gives(
            fast::bool_word((w.has_trait)(o, public) || (w.has)((w.proto)(o), public)),
            with_name(h, public),
        )
    }
}

/// Kind 12 tells whether the spilled operand has a property of the name that the operand is: in
/// a dictionary, an entry for an object; of what is no object, a trait, or a property of what it
/// inherits from.
#[verifier::spinoff_prover]
#[verifier::rlimit(40)]
pub proof fn names_are_found(w: Realm, h: Heap, name: u64, imm: u32, o: u64)
    requires
        h.names.len() < 0xffff_ffff,
    ensures
        talk(w, variadic(12, name, imm, seq![o]), h) == finds(w, h, o, name),
{
    lemma_bool_words();
    reveal_with_fuel(held, 9);
}

/// Kind 13 sets the property of that name to the spilled operand.
pub proof fn properties_are_written(w: Realm, h: Heap, a: u64, k: u32, v: u64)
    ensures
        talk(w, variadic(13, a, k, seq![v]), h) == if is_something(w, a) {
            gives(
                UNDEFINED_BITS,
                Heap { properties: h.properties.insert((a, (w.named)(k)), v), ..h },
            )
        } else {
            throws(h)
        },
{
    reveal_with_fuel(held, 4);
}

/// What setting the property that a value names comes to.
pub open spec fn writes(w: Realm, h: Heap, o: u64, name: u64, k: u32, v: u64) -> Option<
    (Step, Heap),
> {
    let called = (w.filled)(k, name);
    let h1 = with_name(h, called);
    if names_element(w, o, name) {
        gives(
            UNDEFINED_BITS,
            Heap { elements: h.elements.insert((o, (w.index)(name)->0), v), ..h },
        )
    } else if names_entry(w, o, name) {
        gives(UNDEFINED_BITS, Heap { entries: h.entries.insert((o, name), v), ..h })
    } else if is_something(w, o) {
        gives(UNDEFINED_BITS, Heap { properties: h.properties.insert((o, called), v), ..h1 })
    } else {
        throws(h1)
    }
}

/// Kind 14 sets what the first spilled operand names to the second one: an element by a number,
/// an entry of a dictionary by an object, and else the property with the filled-in name.
#[verifier::spinoff_prover]
#[verifier::rlimit(40)]
pub proof fn named_properties_are_written(
    w: Realm,
    h: Heap,
    a: u64,
    k: u32,
    name: u64,
    v: u64,
)
    requires
        h.names.len() < 0xffff_ffff,
    ensures
        talk(w, variadic(14, a, k, seq![name, v]), h) == writes(w, h, a, name, k, v),
{
    reveal_with_fuel(held, 9);
}

/// Kind 15 makes the class object of a class of the table. `Object` and `Class` have theirs,
/// which only is initialized. Another class is made with the base that the operand is, which has
/// to be of its superclass, or without one if the class has none.
#[verifier::spinoff_prover]
#[verifier::rlimit(40)]
pub proof fn classes_are_made(w: Realm, h: Heap, a: u64, k: u32, args: Seq<u64>)
    ensures
        talk(w, variadic(15, a, k, args), h) == {
            let base = (w.as_base)(a);
            match ((w.object_class)(k), (w.class_class)(k)) {
                (Some(class), _) => gives(
                    class,
                    Heap { deeds: h.deeds.push(Deed::Initialize(class)), ..h },
                ),
                (None, Some(class)) => gives(
                    class,
                    Heap { deeds: h.deeds.push(Deed::Initialize(class)), ..h },
                ),
                (None, None) => if !((w.kind)(base) is Object) && (w.super_class)(k) is Some {
                    Some((Step::Throw(Fault::Null), h))
                } else if !((w.kind)(base) is Object) {
                    gives((w.made_class)(k, None), h)
                } else if (w.super_class)(k) == Some((w.class_of)(base)) {
                    gives((w.made_class)(k, Some(base)), h)
                } else {
                    Some((Step::Throw(Fault::WrongBase), h))
                },
            }
        },
{
    reveal_with_fuel(held, 9);
}

/// The other kinds give what they are asked for: 16 an activation, 17 the name of the operand's
/// type, 18 a namespace, 19 the operand as a number, 20 its text, and 21 a function.
pub proof fn values_are_made(w: Realm, h: Heap, a: u64, imm: u32, args: Seq<u64>)
    ensures
        talk(w, variadic(16, a, imm, args), h) == gives((w.activation)(imm), h),
        talk(w, variadic(17, a, imm, args), h) == gives((w.kind_text)(a), h),
        talk(w, variadic(18, a, imm, args), h) == gives((w.namespace)(imm), h),
        talk(w, variadic(19, a, imm, args), h) == gives((w.number)(a), h),
        talk(w, variadic(20, a, imm, args), h) == gives((w.text)(a), h),
        talk(w, variadic(21, a, imm, args), h) == gives((w.function)(imm), h),
{
    reveal_with_fuel(held, 3);
}

} // verus!
