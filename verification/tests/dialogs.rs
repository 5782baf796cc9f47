//! What helpers ask of the host, and what they make of its replies.

use avm2_jit::dialog::{
    as_type_late, call_method, call_property, call_value, coerce, coerce_return, coerce_s,
    construct_super, get_property, get_property_fast, get_slot, is_type_late, set_slot,
    set_slot_coerce_i, set_slot_no_coerce, vcall, Action, Ask, Fault, Kind, Name, Reply,
};
use avm2_jit::lower::vc;
use avm2_jit::lower::wasm::{UNDEFINED_BITS, VALUE_BOOL_MARK};

const OBJECT: u64 = 0xFFFD_0000_0000_0040;
const NULL: u64 = 0xFFF9_0000_0000_0000;

fn int_bits(n: i32) -> u64 {
    0xFFFB_0000_0000_0000 | (n as u32 as u64)
}

/// Plays a helper against a host that answers by `answer`, and gives what it ends with and all
/// that it asked.
fn play(
    helper: impl Fn(&[Reply]) -> Action,
    answer: impl Fn(&Ask) -> Reply,
) -> (Action, Vec<Ask>) {
    let mut replies = Vec::new();
    let mut asked = Vec::new();
    loop {
        match helper(&replies) {
            Action::Ask(ask) | Action::AskWith(ask, _) => {
                assert!(asked.len() < 50, "{asked:?}");
                replies.push(answer(&ask));
                asked.push(ask);
            }
            end => return (end, asked),
        }
    }
}

#[test]
fn slots_are_read_and_written_on_objects() {
    let object = |ask: &Ask| match ask {
        Ask::Kind(_) => Reply::Kind(Kind::Object),
        Ask::NullCheck(v, _) | Ask::ObjectCheck(v, _) | Ask::AsObject(v) => Reply::Word(*v),
        Ask::GetSlot(o, 3) => Reply::Word(*o + 1),
        Ask::ToInt(_) => Reply::Word(int_bits(7)),
        _ => Reply::Word(0),
    };
    let (end, asked) = play(|r| get_slot(OBJECT, 3, r), object);
    assert_eq!(end, Action::Done(OBJECT + 1));
    assert_eq!(asked.last(), Some(&Ask::GetSlot(OBJECT, 3)));
    let (_, asked) = play(|r| set_slot(OBJECT, 5, 3, r), object);
    assert_eq!(asked.last(), Some(&Ask::SetSlot(OBJECT, 3, 5)));
    let (_, asked) = play(|r| set_slot_no_coerce(OBJECT, 5, 3, r), object);
    assert_eq!(asked.last(), Some(&Ask::SetSlotRaw(OBJECT, 3, 5)));
    let (_, asked) = play(|r| set_slot_coerce_i(OBJECT, 5, 3, r), object);
    assert_eq!(asked.last(), Some(&Ask::SetSlotRaw(OBJECT, 3, int_bits(7))));
}

#[test]
fn whatever_throws_stops_a_helper() {
    let thrower = |_: &Ask| Reply::Thrown;
    assert_eq!(play(|r| get_slot(NULL, 3, r), thrower).0, Action::Stop);
    assert_eq!(play(|r| get_property(NULL, 0, r), thrower).0, Action::Stop);
    assert_eq!(play(|r| call_method(NULL, 0, &[], r), thrower).0, Action::Stop);
    assert_eq!(play(|r| call_property(NULL, 0, &[], r), thrower).0, Action::Stop);
    assert_eq!(play(|r| construct_super(NULL, &[], r), thrower).0, Action::Stop);
    assert_eq!(play(|r| coerce_return(5, true, r), thrower).0, Action::Stop);
}

#[test]
fn more_replies_do_not_change_a_helper_that_is_done() {
    let replies = [Reply::Thrown, Reply::Word(1), Reply::No];
    assert_eq!(coerce_return(5, false, &replies), coerce_return(5, false, &[]));
    assert_eq!(get_slot(NULL, 3, &replies), get_slot(NULL, 3, &replies[..1]));
}

#[test]
fn properties_go_by_name_or_index() {
    let host = |ask: &Ask| match ask {
        Ask::Kind(w) if *w == OBJECT => Reply::Kind(Kind::Object),
        Ask::Kind(_) => Reply::Kind(Kind::Integer),
        Ask::NullCheck(v, _) | Ask::ObjectCheck(v, _) | Ask::AsObject(v) => Reply::Word(*v),
        Ask::Index(_) => Reply::Word(2),
        Ask::GetIndex(_, 2) => Reply::Word(77),
        Ask::GetProperty(_, Name::Table(4)) => Reply::Word(88),
        _ => Reply::No,
    };
    assert_eq!(play(|r| get_property(OBJECT, 4, r), host).0, Action::Done(88));
    assert_eq!(play(|r| get_property_fast(OBJECT, int_bits(2), 4, r), host).0, Action::Done(77));
}

#[test]
fn calls_run_code_of_the_host() {
    let host = |ask: &Ask| match ask {
        Ask::NullCheck(v, _) | Ask::ObjectCheck(v, _) | Ask::AsObject(v) => Reply::Word(*v),
        Ask::CallMethod(_, 9) => Reply::Word(1),
        Ask::CallProperty(_, Name::Table(4)) => Reply::Word(2),
        Ask::ConstructSuper(_) => Reply::Word(3),
        Ask::Call(_, _) => Reply::Word(4),
        _ => Reply::No,
    };
    assert_eq!(play(|r| call_method(OBJECT, 9, &[], r), host).0, Action::Done(1));
    assert_eq!(play(|r| call_property(OBJECT, 4, &[], r), host).0, Action::Done(2));
    assert!(matches!(play(|r| construct_super(OBJECT, &[], r), host).0, Action::Done(_)));
    assert_eq!(play(|r| call_value(OBJECT, NULL, &[], r), host).0, Action::Done(4));
}

#[test]
fn asks_that_take_operands_come_with_them() {
    let args = [3, 1, 2];
    let ok = [Reply::Word(OBJECT)];
    let with = |ask: Ask| Action::AskWith(ask, vec![3, 1, 2]);
    assert_eq!(call_method(OBJECT, 9, &args, &ok), with(Ask::CallMethod(OBJECT, 9)));
    let named = Name::Table(4);
    assert_eq!(call_property(OBJECT, 4, &args, &ok), with(Ask::CallProperty(OBJECT, named)));
    assert_eq!(construct_super(OBJECT, &args, &ok), with(Ask::ConstructSuper(OBJECT)));
    assert_eq!(call_value(5, OBJECT, &args, &[]), with(Ask::Call(5, OBJECT)));
    let v = |kind: u32, replies: &[Reply]| vcall(OBJECT, 4, &args, kind, replies);
    assert_eq!(v(vc::CONSTRUCT, &[]), with(Ask::Construct(OBJECT)));
    let two = [Reply::Word(OBJECT), Reply::Word(8)];
    assert_eq!(v(vc::CONSTRUCT_SLOT, &two), with(Ask::Construct(8)));
    assert_eq!(v(vc::CONSTRUCT_PROP, &ok), with(Ask::ConstructProp(OBJECT, named)));
    assert_eq!(v(vc::CALL_SUPER, &two), with(Ask::CallSuper(8, named)));
    assert_eq!(v(vc::CALL_NATIVE, &ok), with(Ask::CallNative(OBJECT, 4)));
    assert_eq!(v(vc::APPLY_TYPE, &ok), with(Ask::Apply(OBJECT)));
    assert_eq!(v(vc::NEW_ARRAY, &[]), with(Ask::NewArray));
    // The others take theirs one by one.
    assert_eq!(v(vc::NEW_OBJECT, &[]), Action::Ask(Ask::NewObject));
}

#[test]
fn types_that_are_known_late() {
    let class = OBJECT + 8;
    let host = |ask: &Ask| match ask {
        Ask::Kind(w) if *w == NULL => Reply::Kind(Kind::Null),
        Ask::Kind(w) if *w == UNDEFINED_BITS => Reply::Kind(Kind::Undefined),
        Ask::Kind(_) => Reply::Kind(Kind::Object),
        Ask::AsObject(w) if *w != NULL && *w != UNDEFINED_BITS => Reply::Word(*w),
        Ask::AsClass(w) if *w == class => Reply::Word(*w),
        Ask::IsOfType(w, _) if *w == OBJECT => Reply::Word(1),
        _ => Reply::No,
    };
    // The value itself, or null.
    assert_eq!(play(|r| as_type_late(OBJECT, class, NULL, r), host).0, Action::Done(OBJECT));
    assert_eq!(play(|r| as_type_late(OBJECT + 1, class, NULL, r), host).0, Action::Done(NULL));
    assert_eq!(play(|r| is_type_late(OBJECT, class, r), host).0, Action::Done(VALUE_BOOL_MARK | 1));
    assert_eq!(play(|r| is_type_late(OBJECT + 1, class, r), host).0, Action::Done(VALUE_BOOL_MARK));
    // What is no class, and what is nothing at all.
    for no_class in [OBJECT, NULL, UNDEFINED_BITS] {
        let (end, _) = play(|r| is_type_late(OBJECT, no_class, r), host);
        assert_eq!(end, Action::Throw(Fault::NoClass));
    }
    let late = |class: u64| play(|r| as_type_late(OBJECT, class, NULL, r), host).0;
    assert_eq!(late(OBJECT), Action::Throw(Fault::NoClass));
    assert_eq!(late(NULL), Action::Throw(Fault::Null));
    assert_eq!(late(UNDEFINED_BITS), Action::Throw(Fault::NullOrUndefined(UNDEFINED_BITS)));
}

#[test]
fn coercions_of_nothing() {
    let host = |ask: &Ask| match ask {
        Ask::Kind(w) if *w == NULL => Reply::Kind(Kind::Null),
        Ask::Kind(w) if *w == UNDEFINED_BITS => Reply::Kind(Kind::Undefined),
        Ask::Kind(_) => Reply::Kind(Kind::Integer),
        Ask::ToText(_) => Reply::Word(123),
        Ask::ToType(w, 0) => Reply::Word(*w + 1),
        Ask::ToReturnType(w) => Reply::Word(*w + 2),
        _ => Reply::No,
    };
    assert_eq!(play(|r| coerce_s(NULL, NULL, r), host).0, Action::Done(NULL));
    assert_eq!(play(|r| coerce_s(UNDEFINED_BITS, NULL, r), host).0, Action::Done(NULL));
    assert_eq!(play(|r| coerce_s(5, NULL, r), host).0, Action::Done(123));
    assert_eq!(play(|r| coerce(5, 0, 1, r), host).0, Action::Done(6));
    // A class that the table does not have leaves the value.
    assert_eq!(coerce(5, 1, 1, &[]), Action::Done(5));
    assert_eq!(play(|r| coerce_return(5, true, r), host).0, Action::Done(7));
    assert_eq!(coerce_return(5, false, &[]), Action::Done(5));
}

#[test]
fn the_other_ops_by_kind() {
    let host = |ask: &Ask| match ask {
        Ask::NullCheck(v, _) | Ask::ObjectCheck(v, _) | Ask::AsObject(v) => Reply::Word(*v),
        Ask::TypeOf(_) => Reply::Word(11),
        Ask::Namespace(2) => Reply::Word(12),
        Ask::NewArray => Reply::Word(13),
        Ask::ToNumber(_) => Reply::Word(14),
        Ask::NewFunction(3) => Reply::Word(15),
        _ => Reply::No,
    };
    assert_eq!(play(|r| vcall(5, 0, &[], vc::TYPE_OF, r), host).0, Action::Done(11));
    assert_eq!(play(|r| vcall(0, 2, &[], vc::PUSH_NAMESPACE, r), host).0, Action::Done(12));
    assert_eq!(play(|r| vcall(0, 0, &[1, 2], vc::NEW_ARRAY, r), host).0, Action::Done(13));
    assert_eq!(play(|r| vcall(5, 0, &[], vc::COERCE_D, r), host).0, Action::Done(14));
    assert_eq!(play(|r| vcall(0, 3, &[], vc::NEW_FUNCTION, r), host).0, Action::Done(15));
}

#[test]
fn classes_are_made_from_their_declared_base() {
    let base = OBJECT + 8;
    let host = |declared: Option<u64>, of: Kind| {
        move |ask: &Ask| match ask {
            Ask::ToClass(w) => Reply::Word(*w),
            Ask::Kind(_) => Reply::Kind(of),
            Ask::ClassOf(_) => Reply::Word(500),
            Ask::SuperClass(1) => match declared {
                Some(c) => Reply::Word(c),
                None => Reply::No,
            },
            Ask::MakeClass(1, from) => Reply::Word(if from.is_some() { 21 } else { 22 }),
            _ => Reply::No,
        }
    };
    let make = |declared: Option<u64>, of: Kind| {
        play(|r| vcall(base, 1, &[], vc::NEW_CLASS, r), host(declared, of)).0
    };
    assert_eq!(make(Some(500), Kind::Object), Action::Done(21));
    assert_eq!(make(Some(501), Kind::Object), Action::Throw(Fault::WrongBase));
    assert_eq!(make(None, Kind::Object), Action::Throw(Fault::WrongBase));
    assert_eq!(make(Some(500), Kind::Null), Action::Throw(Fault::Null));
    assert_eq!(make(None, Kind::Null), Action::Done(22));
    // The class object of `Object` exists already.
    let object_itself = |ask: &Ask| match ask {
        Ask::IsObjectClass(1) => Reply::Word(31),
        Ask::RunInitializer(31) => Reply::Word(0),
        _ => Reply::No,
    };
    let (end, asked) = play(|r| vcall(base, 1, &[], vc::NEW_CLASS, r), object_itself);
    assert_eq!(end, Action::Done(31));
    assert_eq!(asked, vec![Ask::IsObjectClass(1), Ask::RunInitializer(31)]);
    // Only objects take type parameters.
    let (end, _) = play(|r| vcall(5, 0, &[], vc::APPLY_TYPE, r), |_| Reply::No);
    assert_eq!(end, Action::Throw(Fault::NoTypeParameters));
}
