//! From a method to its module.

use avm2_jit::inline::ResultMode;
use avm2_jit::lower::wasm::Target;
use avm2_jit::lower::JitOp;
use avm2_jit::method::{
    all_getslots_null_safe, bake, cache_cells, compile_method, inline_pass, is_well_formed,
    locals_typed_seed, method_source, renumber_cache_sites, resolve_inlinable, Bound, Callee,
    CalleeBody, Method,
};
use avm2_jit::translate::{ClassKind, Multiname, Op};

const UNDEF: u64 = 0xFFF8_0000_0000_0000;

fn method(num_locals: u32, params: Vec<Option<ClassKind>>, ops: Vec<Op>) -> Method {
    let m = Method {
        key: 1,
        num_locals,
        ops,
        number_slots: Vec::new(),
        null_safe_getslots: Vec::new(),
        exceptions: Vec::new(),
        resolved: true,
        params,
        return_type: 0,
        script_globals: Vec::new(),
        bound: None,
    };
    assert!(is_well_formed(&m));
    m
}

fn ret() -> Op {
    Op::ReturnValue { return_type: None }
}

fn get(index: u32) -> Op {
    Op::GetLocal { index }
}

fn ops_of(m: &Method) -> Vec<JitOp> {
    method_source(m, &Target::native()).expect("supported").ops
}

/// A method that reads slot 4 of its receiver.
fn getter(key: u64) -> Callee {
    Callee {
        key,
        body: Some(CalleeBody {
            num_locals: 1,
            ops: vec![get(0), Op::GetSlot { index: 4 }, ret()],
            number_slots: Vec::new(),
        }),
    }
}

#[test]
fn parameters_seed_the_locals() {
    let params = [Some(ClassKind::Int), Some(ClassKind::Uint), Some(ClassKind::Number), None];
    let (ints, doubles, numbers) = locals_typed_seed(6, &params);
    assert_eq!(ints, vec![false, true, false, false, false, false]);
    assert_eq!(doubles, vec![false, false, false, true, false, false]);
    assert_eq!(numbers, vec![false, true, true, true, false, false]);
}

#[test]
fn ints_are_compiled_raw_where_they_are_ints() {
    let ops = || vec![get(1), get(2), Op::AddI, ret()];
    let int = Some(ClassKind::Int);
    assert_eq!(
        ops_of(&method(3, vec![int, int], ops())),
        vec![JitOp::GetLocal(1), JitOp::GetLocal(2), JitOp::AddI, JitOp::ReturnValue]
    );
    // A `uint` may be no int, and an untyped parameter anything.
    for other in [Some(ClassKind::Uint), None] {
        let boxed = ops_of(&method(3, vec![int, other], ops()));
        assert_eq!(boxed[0], JitOp::GetLocalValue(1));
        assert_eq!(*boxed.last().unwrap(), JitOp::ReturnValueBoxed);
    }
}

#[test]
fn doubles_are_compiled_raw_where_they_are_doubles() {
    let number = Some(ClassKind::Number);
    let ops = || vec![get(1), get(2), Op::Add, ret()];
    assert_eq!(
        ops_of(&method(3, vec![number, number], ops())),
        vec![
            JitOp::GetLocalDouble(1),
            JitOp::GetLocalDouble(2),
            JitOp::AddD,
            JitOp::ReturnDouble
        ]
    );
    assert_eq!(ops_of(&method(3, vec![number, None], ops()))[0], JitOp::GetLocalValue(1));
}

#[test]
fn what_is_unsupported_is_declined() {
    let m = method(1, Vec::new(), vec![Op::Other { name: "X".to_string() }, ret()]);
    assert!(method_source(&m, &Target::native()).is_none());
    assert!(compile_method(&m, &Target::native()).is_none());
}

#[test]
fn what_the_verifier_refuses_is_not_well_formed() {
    let mut m = method(1, Vec::new(), vec![Op::Jump { offset: 1 }, ret()]);
    m.ops[0] = Op::Jump { offset: 2 };
    assert!(!is_well_formed(&m));
    m.ops.clear();
    assert!(!is_well_formed(&m));
}

#[test]
fn a_compiled_method_has_the_tables_of_its_ops() {
    let mut m = method(
        2,
        vec![None],
        vec![
            Op::GetScriptGlobals { script: 50 },
            Op::Pop,
            get(1),
            Op::Coerce { class: 60 },
            Op::GetPropertyStatic { multiname: Multiname { id: 70, lazy: false } },
            ret(),
        ],
    );
    m.script_globals = vec![0xAA];
    let c = compile_method(&m, &Target::native()).expect("compiles");
    assert_eq!(&c.bytes[0..4], b"\0asm");
    assert_eq!(c.names, vec![70]);
    assert_eq!(c.coerce_classes, vec![60]);
    // The globals are in the code itself.
    assert_eq!(c.ops[0], JitOp::PushBits(0xAA));
    assert!(c.script_globals.is_empty());
    assert!(c.natives.is_empty());
    assert!(c.getslots_null_safe);
    assert!(c.direct_ops.is_none());
}

#[test]
fn small_methods_keep_their_ops_for_a_direct_run() {
    let m = method(1, Vec::new(), vec![get(0), Op::GetSlot { index: 2 }, ret()]);
    let c = compile_method(&m, &Target::native()).expect("compiles");
    assert_eq!(c.direct_ops, Some(c.ops.clone()));
    assert!(!c.getslots_null_safe);
}

#[test]
fn cache_sites_are_numbered_in_order() {
    let mut ops = vec![
        JitOp::GetPropertyIc(3, 9),
        JitOp::CallMethodDirect(1, 0, true, 9),
        JitOp::GetPropertyIc(3, 9),
        JitOp::Nop,
        JitOp::CallMethodDirect(1, 0, true, 9),
    ];
    renumber_cache_sites(&mut ops);
    let once = ops.clone();
    assert_eq!(
        once,
        vec![
            JitOp::GetPropertyIc(3, 0),
            JitOp::CallMethodDirect(1, 0, true, 0),
            JitOp::GetPropertyIc(3, 1),
            JitOp::Nop,
            JitOp::CallMethodDirect(1, 0, true, 1),
        ]
    );
    assert_eq!(cache_cells(&ops), (2, 2));
    // Numbering again changes nothing.
    renumber_cache_sites(&mut ops);
    assert_eq!(ops, once);
}

#[test]
fn what_is_known_goes_into_the_ops() {
    let mut ops = vec![
        JitOp::GetScriptGlobals(1),
        JitOp::GetScriptGlobals(2),
        JitOp::PushString(0),
        JitOp::ReturnValueCoerced,
    ];
    bake(&mut ops, &[5, 6], &[7], 8);
    assert_eq!(
        ops,
        vec![
            JitOp::PushBits(6),
            JitOp::GetScriptGlobals(2),
            JitOp::PushBits(7),
            JitOp::ReturnValueCoerceBaked(8),
        ]
    );
    let mut untyped = vec![JitOp::ReturnValueCoerced];
    bake(&mut untyped, &[], &[], 0);
    assert_eq!(untyped, vec![JitOp::ReturnValueCoerced]);
}

#[test]
fn slot_reads_that_cannot_fail() {
    let ops = [JitOp::GetLocalValue(0), JitOp::GetSlot(1, false), JitOp::GetSlot(2, false)];
    assert!(all_getslots_null_safe(&ops, &[1, 2]));
    assert!(!all_getslots_null_safe(&ops, &[1]));
    assert!(all_getslots_null_safe(&[JitOp::Nop], &[]));
}

#[test]
fn calls_of_known_small_methods_are_replaced() {
    let bound = Bound { is_final: true, super_init: None, methods: vec![None, Some(getter(2))] };
    let ops =
        [JitOp::GetLocalValue(0), JitOp::CallMethod(1, 0, true), JitOp::ReturnValueBoxed];
    let native = Target::native();
    let (code, argc, result, names) =
        resolve_inlinable(&ops, 1, 1, &bound, 3, 0, &native).expect("resolves");
    assert_eq!((argc, result, names.len()), (0, ResultMode::Push, 0));
    assert_eq!(*code.last().unwrap(), JitOp::ReturnValueBoxed);
    // Not the method itself, nor one without code, nor one whose locals do not fit.
    assert!(resolve_inlinable(&ops, 1, 2, &bound, 3, 0, &native).is_none());
    assert!(resolve_inlinable(&ops, 1, 1, &bound, 512, 0, &native).is_none());
    let mut list = ops.to_vec();
    let mut names = vec![9];
    inline_pass(&mut list, &mut names, 1, &bound, 3, &native);
    assert_eq!(
        list,
        vec![
            JitOp::GetLocalValue(0),
            JitOp::SetLocalValue(3),
            JitOp::GetLocalValue(3),
            JitOp::GetSlot(4, false),
            JitOp::ReturnValueBoxed,
        ]
    );
    assert_eq!(names, vec![9]);
}

#[test]
fn calls_that_may_go_elsewhere_stay() {
    // The class has subclasses, which may override the method.
    let open = Bound { is_final: false, super_init: None, methods: vec![Some(getter(2))] };
    let ops = vec![
        JitOp::GetLocalValue(0),
        JitOp::CallMethod(0, 0, true),
        JitOp::ReturnValueBoxed,
    ];
    let mut list = ops.clone();
    let mut names = Vec::new();
    inline_pass(&mut list, &mut names, 1, &open, 3, &Target::native());
    assert_eq!(list, ops);
    // The receiver may be another object.
    let closed = Bound { is_final: true, super_init: None, methods: vec![Some(getter(2))] };
    let other = vec![
        JitOp::GetLocalValue(1),
        JitOp::CallMethod(0, 0, true),
        JitOp::ReturnValueBoxed,
    ];
    let mut list = other.clone();
    inline_pass(&mut list, &mut names, 1, &closed, 3, &Target::native());
    assert_eq!(list, other);
}

#[test]
fn a_trivial_super_constructor_is_replaced() {
    let init = Callee {
        key: 3,
        body: Some(CalleeBody {
            num_locals: 1,
            ops: vec![Op::ReturnVoid { return_type: None, null_bits: 0 }],
            number_slots: Vec::new(),
        }),
    };
    let bound = Bound { is_final: false, super_init: Some(init), methods: Vec::new() };
    let mut ops = vec![
        JitOp::GetLocalValue(0),
        JitOp::ConstructSuper(0),
        JitOp::ReturnVoidBoxed(UNDEF),
    ];
    let mut names = Vec::new();
    inline_pass(&mut ops, &mut names, 1, &bound, 2, &Target::native());
    assert_eq!(
        ops,
        vec![
            JitOp::GetLocalValue(0),
            JitOp::SetLocalValue(2),
            JitOp::ReturnVoidBoxed(UNDEF),
        ]
    );
}
