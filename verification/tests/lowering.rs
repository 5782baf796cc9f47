//! Lowering, run under an interpreter of WebAssembly with stand-ins for the host.

use avm2_jit::lower::manifest::{
    helper_dominated, COERCE_I, DM_LOAD32, DM_LOADF32, DM_LOADF64, DM_STORE_F_KIND, DM_STORE_KIND,
    POP_CAUGHT, TO_BOOLEAN,
};
use avm2_jit::lower::vc;
use avm2_jit::lower::wasm::{
    SlotLayout, Target, CANON_NAN, UNDEFINED_BITS, VALUE_BOOL_MARK, VALUE_INT_MARK,
    VALUE_OBJECT_TAG16,
};
use avm2_jit::lower::{
    compile, compile_for, compile_full, compile_generation, compile_with_switches, layout,
    manifest, ExcRange, GenMember, JitOp, SwitchTable,
};
use wasmi::{
    Caller, Config, Engine, Func, Instance, Memory, MemoryType as WMemoryType, Module, Store,
};

const TRUE_BITS: u64 = VALUE_BOOL_MARK | 1;
const FALSE_BITS: u64 = VALUE_BOOL_MARK;

// What the stand-ins for helpers return.
const FALLBACK_LT: u64 = 0xABCD;
const FALLBACK_BIT: u64 = 0xBEEF;
const FALLBACK_MUL: u64 = 0xCAFE;
const FALLBACK_DIV: u64 = 0xD1DE;
const FALLBACK_COERCE: u64 = 0xF00D;
const LOAD_SENTINEL: i64 = 0x7777;
const SENTINEL: u64 = 0xFEED;

/// Stores by the fallback (value, address, width), and addresses of loads.
type DmLog = (Vec<(i64, i64, i64)>, Vec<i64>);

/// Spilled arguments, and calls (receiver, id, argc, argument).
type CallLog = (Vec<i64>, Vec<(i64, i64, i64, i64)>);

/// Spilled operands, and calls (a, imm, spill, kind, operand).
type VcLog = (Vec<i64>, Vec<(i64, i64, i64, i64, i64)>);

#[test]
fn helper_dominated_declines_only_crossing_heavy() {
    // Mostly getproperty crossings, no inline compute → dominated.
    let heavy = [
        JitOp::GetLocalValue(0),
        JitOp::GetProperty(0),
        JitOp::GetProperty(1),
        JitOp::GetSlot(2, false),
        JitOp::GetProperty(3),
        JitOp::ReturnValueBoxed,
    ];
    assert!(helper_dominated(&heavy)); // 4 crossings, 0 wins

    // The same 4 crossings but with enough inline compute (2 wins) to justify the
    // JIT → NOT dominated (`4 > 2*2` is false).
    let mixed = [
        JitOp::GetLocalValue(0),
        JitOp::GetProperty(0),
        JitOp::GetProperty(1),
        JitOp::GetSlot(2, false),
        JitOp::GetProperty(3),
        JitOp::CmpNum(1),
        JitOp::ArithInt(11),
        JitOp::ReturnValueBoxed,
    ];
    assert!(!helper_dominated(&mixed));

    // Few crossings (< 4) never decline, even with zero inline compute — a small
    // method like `getlocal; getslot; returnvalue` still compiles.
    let small = [JitOp::GetLocalValue(0), JitOp::GetSlot(0, false), JitOp::ReturnValueBoxed];
    assert!(!helper_dominated(&small));

    // A FlasCC-shaped domainMemory hot path (dm ops are inline wins) compiles even
    // with a couple of property crossings.
    let flascc = [
        JitOp::GetLocalValue(0),
        JitOp::DmLoad(4),
        JitOp::DmStore(4),
        JitOp::DmLoad(1),
        JitOp::GetSlot(0, false),
        JitOp::AddIBoxed,
        JitOp::ReturnValueBoxed,
    ];
    assert!(!helper_dominated(&flascc)); // 1 crossing, 4 wins
}

// Boxed `returnvoid` returns `undefined`; boxed `dup` duplicates a `Value`.
// `return dup(local0)` ⇒ two copies pushed, one returned = local0's bits.
#[test]
fn lowers_return_void_and_dup_value() {
    let ret_void = compile(&[JitOp::ReturnVoidBoxed(UNDEFINED_BITS)]).expect("compiles");
    assert_eq!(run(&ret_void, &[]), UNDEFINED_BITS);

    let dup = [JitOp::GetLocalValue(0), JitOp::DupValue, JitOp::ReturnValueBoxed];
    let bytes = compile(&dup).expect("compiles");
    assert_eq!(run(&bytes, &[0xDEAD_BEEF_u64]), 0xDEAD_BEEF);
}

fn int_value_bits(n: i32) -> u64 {
    VALUE_INT_MARK | (n as u32 as u64)
}

fn run(bytes: &[u8], slots: &[u64]) -> u64 {
    let engine = Engine::default();
    let module = Module::new(&engine, bytes).expect("valid wasm");
    let mut store = Store::new(&engine, ());
    let memory = Memory::new(&mut store, WMemoryType::new(1, None).unwrap()).unwrap();
    let mut buf = Vec::new();
    for s in slots {
        buf.extend_from_slice(&s.to_le_bytes());
    }
    memory.write(&mut store, 0, &buf).unwrap();
    let instance = Instance::new(&mut store, &module, &[memory.into()]).expect("instantiates");
    let run = instance
        .get_typed_func::<(i32, i32, i32, i32, i32), i64>(&store, "run")
        .expect("run export");
    run.call(&mut store, (0, 0, 0, 0, 0)).expect("runs") as u64
}

#[test]
fn lowers_local_add() {
    let ops = [
        JitOp::GetLocal(1),
        JitOp::GetLocal(2),
        JitOp::AddI,
        JitOp::ReturnValue,
    ];
    let bytes = compile(&ops).expect("compiles");
    let slots = [int_value_bits(0), int_value_bits(10), int_value_bits(20)];
    assert_eq!(run(&bytes, &slots), int_value_bits(30));
}

// The helper-call ABI end to end: the emitted module imports
// a host function, calls it with a raw `Value`, the host reaches a
// thread-local context (which will carry the `Activation`), and the result
// flows back. `return h0(local0)`.
#[test]
fn lowers_call_helper() {

    let ops = [
        JitOp::GetLocalValue(0),
        JitOp::CallHelper(0),
        JitOp::ReturnValueBoxed,
    ];
    let bytes = compile(&ops).expect("compiles");

    let engine = Engine::default();
    let module = Module::new(&engine, &bytes).expect("valid wasm");
    let mut store = Store::new(&engine, 7i64);
    let memory = Memory::new(&mut store, WMemoryType::new(1, None).unwrap()).unwrap();
    // local 0 = an arbitrary raw `Value` bit pattern.
    memory.write(&mut store, 0, &1000u64.to_le_bytes()).unwrap();

    let h0 = Func::wrap(&mut store, |c: Caller<'_, i64>, arg: i64| -> i64 {
        arg.wrapping_add(*c.data())
    });

    // Imports in declaration order: h0 (function), then memory.
    let instance =
        Instance::new(&mut store, &module, &[h0.into(), memory.into()]).expect("instantiates");
    let run = instance
        .get_typed_func::<(i32, i32, i32, i32, i32), i64>(&store, "run")
        .expect("run export");
    assert_eq!(run.call(&mut store, (0, 0, 0, 0, 0)).expect("runs") as u64, 1007);
}

// Boxed loop with a `CallHelper2` compare condition — the exact shape the new
// compares enable (`while (i < n) i = incr(i); return i`). Pins the
// compare→IfFalseBoxed→Jump control flow. Fake raw-i64 helpers.
#[test]
fn lowers_boxed_compare_loop() {
    let ops = [
        JitOp::GetLocalValue(1), // 0: head — i
        JitOp::GetLocalValue(2), // 1: n
        JitOp::CallHelper2(1),   // 2: cmp_lt(i, n) (HELPERS2[1])
        JitOp::IfFalseBoxed(8),  // 3: if !(i<n) -> exit
        JitOp::GetLocalValue(1), // 4: body
        JitOp::CallHelper(0),    // 5: increment
        JitOp::SetLocalValue(1), // 6: i = i+1
        JitOp::Jump(0),          // 7
        JitOp::GetLocalValue(1), // 8: exit
        JitOp::ReturnValueBoxed, // 9
    ];
    let m = manifest(&ops);
    assert_eq!((m.num_helpers, m.num_helpers2), (6, 2)); // h0..h5 + t0,t1
    let bytes = compile(&ops).expect("compiles");

    let engine = Engine::default();
    let module = Module::new(&engine, &bytes).expect("valid wasm");
    let mut store = Store::new(&engine, ());
    let memory = Memory::new(&mut store, WMemoryType::new(1, None).unwrap()).unwrap();
    memory.write(&mut store, 8, &0u64.to_le_bytes()).unwrap(); // local1 = i = 0
    memory.write(&mut store, 16, &5u64.to_le_bytes()).unwrap(); // local2 = n = 5

    let h0 = Func::wrap(&mut store, |a: i64| -> i64 { a + 1 }); // increment
    let h1 = Func::wrap(&mut store, |a: i64| -> i64 { a });
    let h2 = Func::wrap(&mut store, |a: i64| -> i64 { a });
    let h3 = Func::wrap(&mut store, |a: i64| -> i64 { a });
    let h4 = Func::wrap(&mut store, |a: i64| -> i64 { a });
    let h5 = Func::wrap(&mut store, |a: i64| -> i64 { (a != 0) as i64 }); // to_boolean
    let t0 = Func::wrap(&mut store, |a: i64, _b: i64| -> i64 { a }); // unused
    let t1 = Func::wrap(&mut store, |a: i64, b: i64| -> i64 { (a < b) as i64 }); // cmp_lt

    let instance = Instance::new(
        &mut store,
        &module,
        &[
            h0.into(), h1.into(), h2.into(), h3.into(), h4.into(), h5.into(),
            t0.into(), t1.into(), memory.into(),
        ],
    )
    .expect("instantiates");
    let run = instance
        .get_typed_func::<(i32, i32, i32, i32, i32), i64>(&store, "run")
        .expect("run export");
    // i: 0 → loops while i<5 → 5.
    assert_eq!(run.call(&mut store, (0, 0, 0, 0, 0)).expect("runs") as u64, 5);
}

// `lookupswitch`: a computed multi-way branch lowered to a nested-block
// `br_table` over the BB dispatch. `switch (local0) { case 0: 100; case 1: 200;
// default: 999 }`. h12 (coerce_i) is the identity here, so the selector's low
// 32 bits are the index; each arm returns a boxed int whose low 32 bits we check.
#[test]
fn lowers_lookup_switch() {
    let ops = [
        JitOp::GetLocalValue(0), // 0: push selector
        JitOp::LookupSwitch(0),  // 1: cases=[2,4], default=6
        JitOp::PushIntValue(100), // 2: case 0
        JitOp::ReturnValueBoxed, // 3
        JitOp::PushIntValue(200), // 4: case 1
        JitOp::ReturnValueBoxed, // 5
        JitOp::PushIntValue(999), // 6: default
        JitOp::ReturnValueBoxed, // 7
    ];
    let switches = [SwitchTable {
        default: 6,
        cases: vec![2usize, 4],
    }];
    // `lookupswitch` imports h0..=h12 (coerce_i selector conversion).
    assert_eq!(manifest(&ops).num_helpers, COERCE_I + 1);

    let bytes = compile_with_switches(&ops, &switches).expect("compiles");
    let engine = Engine::default();
    let module = Module::new(&engine, &bytes).expect("valid wasm");
    let mut store = Store::new(&engine, ());
    let memory = Memory::new(&mut store, WMemoryType::new(1, None).unwrap()).unwrap();

    let mut imports: Vec<wasmi::Extern> = Vec::new();
    for _ in 0..=COERCE_I {
        // Every arity-1 helper is the identity; h12 (coerce_i) identity means the
        // selector's low 32 bits are used directly as the switch index.
        let h = Func::wrap(&mut store, |a: i64| -> i64 { a });
        imports.push(h.into());
    }
    imports.push(memory.into());

    let instance = Instance::new(&mut store, &module, &imports).expect("instantiates");
    let run = instance
        .get_typed_func::<(i32, i32, i32, i32, i32), i64>(&store, "run")
        .expect("run export");

    for (selector, expected) in [(0u64, 100u32), (1, 200), (5, 999), (99, 999)] {
        memory.write(&mut store, 0, &selector.to_le_bytes()).unwrap();
        let got = run.call(&mut store, (0, 0, 0, 0, 0)).expect("runs") as u32;
        assert_eq!(got, expected, "selector {selector} → {expected}");
    }
}

// Inline numeric compare (`CmpNum`): the numeric fast path (int/number/mixed,
// incl. NaN) is computed in-module with no helper call; a non-numeric operand
// falls back to the two-stack helper. `return local1 < local2`.
#[test]
fn lowers_inline_numeric_compare() {
    let num = |n: f64| n.to_bits();
    let int = |n: i32| VALUE_INT_MARK | (n as u32 as u64);
    let obj: u64 = 0xFFFD_0000_0000_0001; // TAG_OBJECT box — not numeric

    let ops = [
        JitOp::GetLocalValue(1),
        JitOp::GetLocalValue(2),
        JitOp::CmpNum(1), // lessthan
        JitOp::ReturnValueBoxed,
    ];
    let m = manifest(&ops);
    assert_eq!((m.num_helpers, m.num_helpers2), (0, 2)); // t0,t1 for the fallback
    let bytes = compile(&ops).expect("compiles");

    let cases: &[(u64, u64, u64)] = &[
        (int(3), int(5), TRUE_BITS),        // int < int (fast)
        (int(5), int(5), FALSE_BITS),       // not less
        (num(5.0), num(3.0), FALSE_BITS),   // number < number (fast)
        (int(3), num(5.5), TRUE_BITS),      // mixed int/number (fast)
        (num(-2.0), int(1), TRUE_BITS),     // mixed number/int (fast)
        (num(f64::NAN), num(1.0), FALSE_BITS), // NaN < x → false
        (obj, int(5), FALLBACK_LT),            // non-numeric → helper fallback
    ];
    for &(a, b, want) in cases {
        let engine = Engine::default();
        let module = Module::new(&engine, &bytes).expect("valid wasm");
        let mut store = Store::new(&engine, ());
        let memory = Memory::new(&mut store, WMemoryType::new(1, None).unwrap()).unwrap();
        memory.write(&mut store, 8, &a.to_le_bytes()).unwrap(); // local1
        memory.write(&mut store, 16, &b.to_le_bytes()).unwrap(); // local2
        let t0 = Func::wrap(&mut store, |a: i64, _b: i64| -> i64 { a });
        let t1 = Func::wrap(&mut store, |_a: i64, _b: i64| -> i64 { FALLBACK_LT as i64 });
        let instance =
            Instance::new(&mut store, &module, &[t0.into(), t1.into(), memory.into()])
                .expect("instantiates");
        let run = instance
            .get_typed_func::<(i32, i32, i32, i32, i32), i64>(&store, "run")
            .expect("run export");
        assert_eq!(
            run.call(&mut store, (0, 0, 0, 0, 0)).expect("runs") as u64,
            want,
            "a={a:#018x} b={b:#018x}"
        );
    }
}

// Inline bitwise (`BitOpInt`): both int-boxed → the `i32` op inline; a non-int
// operand → the two-stack helper fallback. `return local1 & local2`.
#[test]
fn lowers_inline_bitop_int() {
    let int = |n: i32| VALUE_INT_MARK | (n as u32 as u64);
    let obj: u64 = 0xFFFD_0000_0000_0001; // TAG_OBJECT — not int

    let ops = [
        JitOp::GetLocalValue(1),
        JitOp::GetLocalValue(2),
        JitOp::BitOpInt(5), // bitand (HELPERS2[5])
        JitOp::ReturnValueBoxed,
    ];
    let m = manifest(&ops);
    assert_eq!((m.num_helpers, m.num_helpers2), (0, 6)); // t0..t5, fallback at t5
    let bytes = compile(&ops).expect("compiles");

    let cases: &[(u64, u64, u64)] = &[
        (int(12), int(10), int(12 & 10)),     // 8, inline
        (int(-1), int(0x0F), int(-1 & 0x0F)), // 15, inline (negative int ok for &)
        (obj, int(5), FALLBACK_BIT),              // non-int → helper
    ];
    for &(a, b, want) in cases {
        let engine = Engine::default();
        let module = Module::new(&engine, &bytes).expect("valid wasm");
        let mut store = Store::new(&engine, ());
        let memory = Memory::new(&mut store, WMemoryType::new(1, None).unwrap()).unwrap();
        memory.write(&mut store, 8, &a.to_le_bytes()).unwrap();
        memory.write(&mut store, 16, &b.to_le_bytes()).unwrap();
        let id = |s: &mut Store<()>| Func::wrap(s, |a: i64, _b: i64| -> i64 { a });
        let (t0, t1, t2, t3, t4) = (
            id(&mut store), id(&mut store), id(&mut store), id(&mut store), id(&mut store),
        );
        let t5 = Func::wrap(&mut store, |_a: i64, _b: i64| -> i64 { FALLBACK_BIT as i64 });
        let instance = Instance::new(
            &mut store,
            &module,
            &[t0.into(), t1.into(), t2.into(), t3.into(), t4.into(), t5.into(), memory.into()],
        )
        .expect("instantiates");
        let run = instance
            .get_typed_func::<(i32, i32, i32, i32, i32), i64>(&store, "run")
            .expect("run export");
        assert_eq!(run.call(&mut store, (0, 0, 0, 0, 0)).unwrap() as u64, want, "a={a:#018x} b={b:#018x}");
    }
}

// Inline generic arithmetic (`ArithInt`): both int-boxed → `i64` op, boxed as
// `int` if it fits else `Number` (matching the helper's checked-int-else-Number);
// a non-int operand → the two-stack helper fallback. `return local1 * local2`.
#[test]
fn lowers_inline_arith_int() {
    let int = |n: i32| VALUE_INT_MARK | (n as u32 as u64);
    let num = |n: f64| n.to_bits();
    let obj: u64 = 0xFFFD_0000_0000_0001;

    let ops = [
        JitOp::GetLocalValue(1),
        JitOp::GetLocalValue(2),
        JitOp::ArithInt(11), // multiply (HELPERS2[11])
        JitOp::ReturnValueBoxed,
    ];
    let m = manifest(&ops);
    assert_eq!((m.num_helpers, m.num_helpers2), (0, 12)); // t0..t11, fallback at t11
    let bytes = compile(&ops).expect("compiles");

    let cases: &[(u64, u64, u64)] = &[
        (int(6), int(7), int(42)),                     // fits → int
        (int(-3), int(4), int(-12)),                   // negative fits → int
        (int(100000), int(100000), num(1e10)),         // overflow → Number(1e10)
        (int(-100000), int(100000), num(-1e10)),       // negative overflow → Number
        (num(3.5), int(2), num(7.0)),                  // numeric middle path → Number
        (int(2), num(3.5), num(7.0)),                  // mixed the other way
        (num(2.0), num(4.0), num(8.0)),                // Number × Number stays Number
        (num(f64::INFINITY), num(0.0), CANON_NAN),     // inf·0 → canonicalized NaN
        (obj, int(2), FALLBACK_MUL),                       // non-numeric → helper
    ];
    for &(a, b, want) in cases {
        let engine = Engine::default();
        let module = Module::new(&engine, &bytes).expect("valid wasm");
        let mut store = Store::new(&engine, ());
        let memory = Memory::new(&mut store, WMemoryType::new(1, None).unwrap()).unwrap();
        memory.write(&mut store, 8, &a.to_le_bytes()).unwrap();
        memory.write(&mut store, 16, &b.to_le_bytes()).unwrap();
        let mut externs: Vec<wasmi::Extern> = Vec::new();
        for i in 0..12u32 {
            let f = if i == 11 {
                Func::wrap(&mut store, |_a: i64, _b: i64| -> i64 { FALLBACK_MUL as i64 })
            } else {
                Func::wrap(&mut store, |a: i64, _b: i64| -> i64 { a })
            };
            externs.push(f.into());
        }
        externs.push(memory.into());
        let instance = Instance::new(&mut store, &module, &externs).expect("instantiates");
        let run = instance
            .get_typed_func::<(i32, i32, i32, i32, i32), i64>(&store, "run")
            .expect("run export");
        assert_eq!(run.call(&mut store, (0, 0, 0, 0, 0)).unwrap() as u64, want, "a={a:#018x} b={b:#018x}");
    }
}

// Inline `divide` (`ArithNum`): numeric operands → the f64 division inline
// (ALWAYS a `Number`, even for exact int quotients — matching the helper);
// non-numeric → the two-stack helper fallback.
#[test]
fn lowers_inline_arith_num_divide() {
    let int = |n: i32| VALUE_INT_MARK | (n as u32 as u64);
    let num = |n: f64| n.to_bits();
    let obj: u64 = 0xFFFD_0000_0000_0001;

    let ops = [
        JitOp::GetLocalValue(1),
        JitOp::GetLocalValue(2),
        JitOp::ArithNum(13), // divide (HELPERS2[13])
        JitOp::ReturnValueBoxed,
    ];
    let m = manifest(&ops);
    assert_eq!((m.num_helpers, m.num_helpers2), (0, 14)); // t0..t13, fallback at t13
    let bytes = compile(&ops).expect("compiles");

    let cases: &[(u64, u64, u64)] = &[
        (int(7), int(2), num(3.5)),           // int/int → Number
        (int(6), int(2), num(3.0)),           // exact quotient STAYS a Number
        (num(1.0), num(0.0), num(f64::INFINITY)), // 1/0 → inf
        (num(0.0), num(0.0), CANON_NAN),      // 0/0 → canonicalized NaN
        (num(-4.5), int(3), num(-1.5)),       // mixed
        (obj, int(2), FALLBACK_DIV),              // non-numeric → helper
    ];
    for &(a, b, want) in cases {
        let engine = Engine::default();
        let module = Module::new(&engine, &bytes).expect("valid wasm");
        let mut store = Store::new(&engine, ());
        let memory = Memory::new(&mut store, WMemoryType::new(1, None).unwrap()).unwrap();
        memory.write(&mut store, 8, &a.to_le_bytes()).unwrap();
        memory.write(&mut store, 16, &b.to_le_bytes()).unwrap();
        let mut externs: Vec<wasmi::Extern> = Vec::new();
        for i in 0..14u32 {
            let f = if i == 13 {
                Func::wrap(&mut store, |_a: i64, _b: i64| -> i64 { FALLBACK_DIV as i64 })
            } else {
                Func::wrap(&mut store, |a: i64, _b: i64| -> i64 { a })
            };
            externs.push(f.into());
        }
        externs.push(memory.into());
        let instance = Instance::new(&mut store, &module, &externs).expect("instantiates");
        let run = instance
            .get_typed_func::<(i32, i32, i32, i32, i32), i64>(&store, "run")
            .expect("run export");
        assert_eq!(run.call(&mut store, (0, 0, 0, 0, 0)).unwrap() as u64, want, "a={a:#018x} b={b:#018x}");
    }
}

// Inline `coerce_i`/`coerce_u` (`CoerceInt`): an int passes through (`coerce_i`
// always; `coerce_u` only when non-negative), else the arity-1 helper fallback.
#[test]
fn lowers_inline_coerce_int() {
    let int = |n: i32| VALUE_INT_MARK | (n as u32 as u64);
    let num = |n: f64| n.to_bits();

    // (signed, fallback_helper_index, cases)
    let variants: &[(bool, u32, &[(u64, u64)])] = &[
        // coerce_i: int passes through; a Number hits the helper (h12).
        (true, 12, &[(int(5), int(5)), (int(-7), int(-7)), (num(3.14), FALLBACK_COERCE)]),
        // coerce_u: non-negative int passes through; a negative int or a Number
        // hits the helper (h11).
        (false, 11, &[(int(5), int(5)), (int(-1), FALLBACK_COERCE), (num(1.0), FALLBACK_COERCE)]),
    ];
    for &(signed, fb_idx, cases) in variants {
        let ops = [JitOp::GetLocalValue(1), JitOp::CoerceInt(signed), JitOp::ReturnValueBoxed];
        let m = manifest(&ops);
        assert_eq!(m.num_helpers, fb_idx + 1); // h0..h{fb_idx}
        let bytes = compile(&ops).expect("compiles");
        for &(a, want) in cases {
            let engine = Engine::default();
            let module = Module::new(&engine, &bytes).expect("valid wasm");
            let mut store = Store::new(&engine, ());
            let memory = Memory::new(&mut store, WMemoryType::new(1, None).unwrap()).unwrap();
            memory.write(&mut store, 8, &a.to_le_bytes()).unwrap();
            let mut externs: Vec<wasmi::Extern> = Vec::new();
            for i in 0..(fb_idx + 1) {
                let f = if i == fb_idx {
                    Func::wrap(&mut store, |_a: i64| -> i64 { FALLBACK_COERCE as i64 })
                } else {
                    Func::wrap(&mut store, |a: i64| -> i64 { a })
                };
                externs.push(f.into());
            }
            externs.push(memory.into());
            let instance = Instance::new(&mut store, &module, &externs).expect("instantiates");
            let run = instance
                .get_typed_func::<(i32, i32, i32, i32, i32), i64>(&store, "run")
                .expect("run export");
            assert_eq!(
                run.call(&mut store, (0, 0, 0, 0, 0)).unwrap() as u64,
                want,
                "signed={signed} a={a:#018x}"
            );
        }
    }
}

// Inline domainMemory: a `si32; li32` round-trip through **memory 1** (the
// fast path — no helper call), plus a reservation MISS (`dm_len` too small)
// that must route both ops through the imported dm-helper FALLBACKS (which in
// production reach the real storage — e.g. an unshared domainMemory). Uses a
// wasmi engine with multi-memory and a controlled memory 1.
#[test]
fn lowers_dm_inline() {
    let box_int = |v: i32| VALUE_INT_MARK | (v as u32 as u64);

    // store local1 (value) at local2 (addr), read it back: → value.
    let ops = [
        JitOp::GetLocalValue(1), // value
        JitOp::GetLocalValue(2), // addr
        JitOp::DmStore(4),
        JitOp::GetLocalValue(2), // addr
        JitOp::DmLoad(4),
        JitOp::ReturnValueBoxed,
    ];
    let m = manifest(&ops);
    assert!(m.has_dm);
    // The miss-branch fallbacks are imported: `h0..=h10` (li32) + the `s3`
    // ternary (si32).
    assert_eq!(m.num_helpers, DM_LOAD32 + 1);
    assert_ne!(m.set3_mask & (1 << DM_STORE_KIND), 0);
    let bytes = compile(&ops).expect("compiles");

    let mut config = Config::default();
    config.wasm_multi_memory(true);
    let engine = Engine::new(&config);
    let module = Module::new(&engine, &bytes).expect("valid multi-memory wasm");
    // Store data: (store-fallback calls `(value, addr, width)`, load-fallback
    // call args).
    let mut store = Store::new(&engine, DmLog::default());
    let frame = Memory::new(&mut store, WMemoryType::new(1, None).unwrap()).unwrap();
    let dm = Memory::new(&mut store, WMemoryType::new(1, None).unwrap()).unwrap();
    // local1 = value = 0x12345678, local2 = addr = 8.
    frame.write(&mut store, 8, &box_int(0x12345678).to_le_bytes()).unwrap();
    frame.write(&mut store, 16, &box_int(8).to_le_bytes()).unwrap();
    // The descriptor cell at memory1[32]: [base=64, cap=64] — the emitted
    // code re-reads it per access (`dm_base` param = the CELL's address).
    dm.write(&mut store, 32, &64u32.to_le_bytes()).unwrap();
    dm.write(&mut store, 36, &64u32.to_le_bytes()).unwrap();

    let mut externs: Vec<wasmi::Extern> = Vec::new();
    for i in 0..=DM_LOAD32 {
        externs.push(if i == DM_LOAD32 {
            // The li32 fallback: record the boxed addr, return a sentinel.
            Func::wrap(&mut store, |mut c: Caller<'_, DmLog>, a: i64| -> i64 {
                c.data_mut().1.push(a);
                LOAD_SENTINEL
            })
            .into()
        } else {
            Func::wrap(&mut store, |_: Caller<'_, DmLog>, a: i64| -> i64 { a }).into()
        });
    }
    // `s3` — the si32 fallback: record `(value, addr, width)`.
    externs.push(
        Func::wrap(
            &mut store,
            |mut c: Caller<'_, DmLog>, v: i64, a: i64, n: i64| -> i64 {
                c.data_mut().0.push((v, a, n));
                0
            },
        )
        .into(),
    );
    externs.push(frame.into());
    externs.push(dm.into());
    let instance = Instance::new(&mut store, &module, &externs).expect("instantiates");
    let run = instance
        .get_typed_func::<(i32, i32, i32, i32, i32), i64>(&store, "run")
        .expect("run export");
    // run(state_ptr=0, dm_base=DESC@32): fast path — store+load at
    // memory1[base=64 + addr=8], no fallback calls.
    assert_eq!(
        run.call(&mut store, (0, 32, 0, 0, 0)).expect("runs") as u64,
        box_int(0x12345678)
    );
    assert_eq!(dm.data(&store)[72..76], 0x12345678u32.to_le_bytes());
    assert!(store.data().0.is_empty() && store.data().1.is_empty());

    // Shrink the cell's cap to 8 → addr 8 (+4) misses → BOTH ops take the
    // helper fallback: the store logs `(value, addr, 4)`, the load logs the
    // addr and its sentinel is the result.
    dm.write(&mut store, 36, &8u32.to_le_bytes()).unwrap();
    assert_eq!(
        run.call(&mut store, (0, 32, 0, 0, 0)).expect("runs"),
        LOAD_SENTINEL
    );
    assert_eq!(
        store.data().0,
        vec![(box_int(0x12345678) as i64, box_int(8) as i64, 4)]
    );
    assert_eq!(store.data().1, vec![box_int(8) as i64]);

    // desc == 0 (domainMemory unavailable) → fallback too.
    assert_eq!(
        run.call(&mut store, (0, 0, 0, 0, 0)).expect("runs"),
        LOAD_SENTINEL
    );
    assert_eq!(store.data().0.len(), 2);
    assert_eq!(store.data().1.len(), 2);
}

// Inline domainMemory *float* store/load (`sf32`/`sf64`/`lf32`/`lf64`): the value
// round-trips through memory 1 as an `f32`/`f64` and comes back a `Number` Value.
#[test]
fn lowers_dm_float_inline() {
    let int_val = |v: i32| VALUE_INT_MARK | (v as u32 as u64);

    // store local1 (Number) at local2 (addr), read it back → the Number.
    let round_trip = |width: u32, value_bits: u64, addr: i32| -> (u64, Vec<u8>) {
        let ops = [
            JitOp::GetLocalValue(1), // value
            JitOp::GetLocalValue(2), // addr
            JitOp::DmStoreF(width),
            JitOp::GetLocalValue(2), // addr
            JitOp::DmLoadF(width),
            JitOp::ReturnValueBoxed,
        ];
        let m = manifest(&ops);
        assert!(m.has_dm);
        // Miss-branch fallbacks imported: `h0..=h{lf32|lf64}` + the `s4` ternary.
        assert_eq!(m.num_helpers, if width == 4 { DM_LOADF32 } else { DM_LOADF64 } + 1);
        assert_ne!(m.set3_mask & (1 << DM_STORE_F_KIND), 0);
        let bytes = compile(&ops).expect("compiles");
        let mut config = Config::default();
        config.wasm_multi_memory(true);
        let engine = Engine::new(&config);
        let module = Module::new(&engine, &bytes).expect("valid multi-memory wasm");
        let mut store = Store::new(&engine, ());
        let frame = Memory::new(&mut store, WMemoryType::new(1, None).unwrap()).unwrap();
        let dm = Memory::new(&mut store, WMemoryType::new(1, None).unwrap()).unwrap();
        frame.write(&mut store, 8, &value_bits.to_le_bytes()).unwrap(); // local1
        frame.write(&mut store, 16, &int_val(addr).to_le_bytes()).unwrap(); // local2
        // Descriptor cell at memory1[32]: [base=64, cap=64].
        dm.write(&mut store, 32, &64u32.to_le_bytes()).unwrap();
        dm.write(&mut store, 36, &64u32.to_le_bytes()).unwrap();
        let mut externs: Vec<wasmi::Extern> = Vec::new();
        for _ in 0..m.num_helpers {
            externs.push(Func::wrap(&mut store, |a: i64| -> i64 { a }).into());
        }
        // `s4` — the sf* fallback (unused here: the accesses stay in bounds).
        externs
            .push(Func::wrap(&mut store, |_: i64, _: i64, _: i64| -> i64 { 0 }).into());
        externs.push(frame.into());
        externs.push(dm.into());
        let instance =
            Instance::new(&mut store, &module, &externs).expect("instantiates");
        let run = instance
            .get_typed_func::<(i32, i32, i32, i32, i32), i64>(&store, "run")
            .expect("run export");
        let got = run.call(&mut store, (0, 32, 0, 0, 0)).expect("runs") as u64;
        let at = 64 + addr as usize; // base=64 + addr
        let mem = dm.data(&store)[at..at + width as usize].to_vec();
        (got, mem)
    };

    // f64: a `Number` Value's bits are the raw `f64`, so it round-trips exactly.
    let (got, mem) = round_trip(8, 3.14f64.to_bits(), 8);
    assert_eq!(got, 3.14f64.to_bits());
    assert_eq!(mem, 3.14f64.to_le_bytes());

    // f32: 1.5 is exact in `f32`, so demote→promote is lossless.
    let (got, mem) = round_trip(4, 1.5f64.to_bits(), 8);
    assert_eq!(got, 1.5f64.to_bits());
    assert_eq!(mem, 1.5f32.to_le_bytes());
}

// `coerceb`: `ToBoolean(v)` (via `to_boolean` = h5) boxed as a `Boolean` Value.
#[test]
fn lowers_coerce_bool() {
    let ops = [JitOp::GetLocalValue(0), JitOp::CoerceBool, JitOp::ReturnValueBoxed];
    assert_eq!(manifest(&ops).num_helpers, TO_BOOLEAN + 1); // h0..h5
    let bytes = compile(&ops).expect("compiles");
    let engine = Engine::default();
    let module = Module::new(&engine, &bytes).expect("valid wasm");
    let mut store = Store::new(&engine, ());
    let memory = Memory::new(&mut store, WMemoryType::new(1, None).unwrap()).unwrap();
    let mut externs: Vec<wasmi::Extern> = Vec::new();
    for i in 0..6u32 {
        let f = if i == 5 {
            Func::wrap(&mut store, |v: i64| -> i64 { (v != 0) as i64 }) // to_boolean
        } else {
            Func::wrap(&mut store, |a: i64| -> i64 { a })
        };
        externs.push(f.into());
    }
    externs.push(memory.into());
    let instance = Instance::new(&mut store, &module, &externs).expect("instantiates");
    let run = instance
        .get_typed_func::<(i32, i32, i32, i32, i32), i64>(&store, "run")
        .expect("run export");
    for (v, expect) in [(0u64, VALUE_BOOL_MARK), (7, VALUE_BOOL_MARK | 1)] {
        memory.write(&mut store, 0, &v.to_le_bytes()).unwrap();
        assert_eq!(run.call(&mut store, (0, 0, 0, 0, 0)).unwrap() as u64, expect, "coerceb {v}");
    }
}

// `coerce <class>` lowering: pushes the class-table index `k`, calls
// `coerce(value, k)`, and (as a throwing op) bails the whole method with
// `undefined` when `perr` reports a pending error. No calls/dm, so the imports
// are just `perr` then `coerce` then memory. Fake hosts stand in for the real
// `coerce_to_type`/error helpers.
#[test]
fn lowers_coerce() {
    // value=local0; `coerce k=0`.
    let ops = [JitOp::GetLocalValue(0), JitOp::Coerce(0), JitOp::ReturnValueBoxed];
    let m = manifest(&ops);
    assert!(m.has_coerce && !m.has_call && !m.dm_throws && m.num_helpers == 0);
    // Layout: perr at 0, coerce at 1, run at 2.
    let lay = layout(&ops);
    assert_eq!((lay.perr_index, lay.coerce_index, lay.run_index), (0, 1, 2));
    let bytes = compile(&ops).expect("compiles");

    let go = |err: i32| -> u64 {
        let engine = Engine::default();
        let module = Module::new(&engine, &bytes).expect("valid wasm");
        let mut store = Store::new(&engine, ());
        let memory = Memory::new(&mut store, WMemoryType::new(1, None).unwrap()).unwrap();
        memory.write(&mut store, 0, &42u64.to_le_bytes()).unwrap(); // value=local0
        // `coerce(value, k)`: encode both so a wrong value/index fails the assert.
        let coerce = Func::wrap(&mut store, |value: i64, k: i64| -> i64 {
            assert_eq!(k, 0);
            value * 2 + k // 42*2 = 84
        });
        let perr = Func::wrap(&mut store, move || -> i32 { err });
        // Imports in declaration order: perr, coerce, memory.
        let instance = Instance::new(
            &mut store,
            &module,
            &[perr.into(), coerce.into(), memory.into()],
        )
        .expect("instantiates");
        let run = instance
            .get_typed_func::<(i32, i32, i32, i32, i32), i64>(&store, "run")
            .expect("run export");
        run.call(&mut store, (0, 0, 0, 0, 0)).expect("runs") as u64
    };

    assert_eq!(go(0), 84); // no error → the coerced value flows through
    assert_eq!(go(1), UNDEFINED_BITS); // pending error → method bails with undefined
}

// `callmethod` lowering: spills two args, calls `cm(receiver, id, argc)`, and
// returns the result — and the emitted post-call error check bails the whole
// method (returning `undefined`) when `perr` reports a pending error. Fake
// wasmi imports stand in for the real spill/call/error helpers.
#[test]
fn lowers_call_method() {

    // receiver=local0, args=(local1, local2); `callmethod id=7 argc=2`.
    let ops = [
        JitOp::GetLocalValue(0),
        JitOp::GetLocalValue(1),
        JitOp::GetLocalValue(2),
        JitOp::CallMethod(7, 2, true),
        JitOp::ReturnValueBoxed,
    ];
    let m = manifest(&ops);
    assert!(m.has_call);
    let bytes = compile(&ops).expect("compiles");

    // Run once with `perr` returning `err`, asserting the result.
    let go = |err: i32| -> u64 {
        let engine = Engine::default();
        let module = Module::new(&engine, &bytes).expect("valid wasm");
        let mut store = Store::new(&engine, Vec::<i64>::new());
        let memory = Memory::new(&mut store, WMemoryType::new(1, None).unwrap()).unwrap();
        memory.write(&mut store, 0, &100u64.to_le_bytes()).unwrap(); // receiver
        memory.write(&mut store, 8, &20u64.to_le_bytes()).unwrap(); // arg0
        memory.write(&mut store, 16, &3u64.to_le_bytes()).unwrap(); // arg1

        // `pca` spills top-first: [arg1, arg0].
        let pca = Func::wrap(&mut store, |mut c: Caller<'_, Vec<i64>>, v: i64| {
            c.data_mut().push(v);
        });
        // `cm(receiver, id, argc)`: un-reverse the spilled args, encode
        // everything so a wrong receiver/id/argc/order fails the assert.
        let cm = Func::wrap(&mut store, |c: Caller<'_, Vec<i64>>, receiver: i64, id: i64, argc: i64| -> i64 {
            let mut raw = c.data().clone();
            raw.reverse(); // → [arg0, arg1]
            assert_eq!((id, argc, raw.len()), (7, 2, 2));
            receiver + id + raw[0] * 10 + raw[1] // 100 + 7 + 200 + 3 = 310
        });
        let perr = Func::wrap(&mut store, move || -> i32 { err });
        // Imports in declaration order: cm, pca, perr, memory.
        let instance = Instance::new(
            &mut store,
            &module,
            &[cm.into(), pca.into(), perr.into(), memory.into()],
        )
        .expect("instantiates");
        let run = instance
            .get_typed_func::<(i32, i32, i32, i32, i32), i64>(&store, "run")
            .expect("run export");
        run.call(&mut store, (0, 0, 0, 0, 0)).expect("runs") as u64
    };

    assert_eq!(go(0), 310); // no error → the call result flows through
    assert_eq!(go(1), UNDEFINED_BITS); // pending error → method bails with undefined
}

// `callproperty` lowering: spills two args, calls `cp(receiver, k, argc)` (the
// `k`-th multiname), returns the result, and bails on a pending error. Mirrors
// `lowers_call_method` but through the `cp` import (import order cp, pca, perr).
#[test]
fn lowers_call_property() {

    // receiver=local0, args=(local1, local2); `callproperty k=5 argc=2`.
    let ops = [
        JitOp::GetLocalValue(0),
        JitOp::GetLocalValue(1),
        JitOp::GetLocalValue(2),
        JitOp::CallProperty(5, 2, true),
        JitOp::ReturnValueBoxed,
    ];
    let m = manifest(&ops);
    assert!(m.has_callprop && !m.has_call);
    let bytes = compile(&ops).expect("compiles");

    let go = |err: i32| -> u64 {
        let engine = Engine::default();
        let module = Module::new(&engine, &bytes).expect("valid wasm");
        let mut store = Store::new(&engine, Vec::<i64>::new());
        let memory = Memory::new(&mut store, WMemoryType::new(1, None).unwrap()).unwrap();
        memory.write(&mut store, 0, &100u64.to_le_bytes()).unwrap(); // receiver
        memory.write(&mut store, 8, &20u64.to_le_bytes()).unwrap(); // arg0
        memory.write(&mut store, 16, &3u64.to_le_bytes()).unwrap(); // arg1

        let pca = Func::wrap(&mut store, |mut c: Caller<'_, Vec<i64>>, v: i64| {
            c.data_mut().push(v);
        });
        // `cp(receiver, k, argc)`: verify the multiname index `k`, un-reverse args.
        let cp = Func::wrap(&mut store, |c: Caller<'_, Vec<i64>>, receiver: i64, k: i64, argc: i64| -> i64 {
            let mut raw = c.data().clone();
            raw.reverse(); // → [arg0, arg1]
            assert_eq!((k, argc, raw.len()), (5, 2, 2));
            receiver + k + raw[0] * 10 + raw[1] // 100 + 5 + 200 + 3 = 308
        });
        let perr = Func::wrap(&mut store, move || -> i32 { err });
        // Imports in declaration order: cp, pca, perr, memory.
        let instance = Instance::new(
            &mut store,
            &module,
            &[cp.into(), pca.into(), perr.into(), memory.into()],
        )
        .expect("instantiates");
        let run = instance
            .get_typed_func::<(i32, i32, i32, i32, i32), i64>(&store, "run")
            .expect("run export");
        run.call(&mut store, (0, 0, 0, 0, 0)).expect("runs") as u64
    };

    assert_eq!(go(0), 308); // no error → the call result flows through
    assert_eq!(go(1), UNDEFINED_BITS); // pending error → method bails with undefined
}

// `getpropertyfast`: `[receiver, name]` → `gpf(receiver, name, k)` (arity-3),
// pushing the result. Net -1.
#[test]
fn lowers_get_property_fast() {
    let ops = [
        JitOp::GetLocalValue(1), // receiver
        JitOp::GetLocalValue(2), // name
        JitOp::GetPropertyFast(5, false),
        JitOp::ReturnValueBoxed,
    ];
    let m = manifest(&ops);
    assert!(m.has_getprop_fast);
    let bytes = compile(&ops).expect("compiles");
    let engine = Engine::default();
    let module = Module::new(&engine, &bytes).expect("valid wasm");
    let mut store = Store::new(&engine, ());
    let memory = Memory::new(&mut store, WMemoryType::new(1, None).unwrap()).unwrap();
    memory.write(&mut store, 8, &100u64.to_le_bytes()).unwrap(); // local1 = receiver
    memory.write(&mut store, 16, &7u64.to_le_bytes()).unwrap(); // local2 = name
    // gpf(receiver, name, k) encodes all three so a wrong order/index fails.
    let gpf = Func::wrap(&mut store, |receiver: i64, name: i64, k: i64| -> i64 {
        receiver * 1000 + name * 10 + k
    });
    // A throwing property read propagates via `PENDING_ERROR`, so the module
    // imports `perr` and checks it after the read (no error here → 0).
    let perr = Func::wrap(&mut store, || -> i32 { 0 });
    // Imports: gpf, perr, memory.
    let instance = Instance::new(&mut store, &module, &[gpf.into(), perr.into(), memory.into()])
        .expect("instantiates");
    let run = instance
        .get_typed_func::<(i32, i32, i32, i32, i32), i64>(&store, "run")
        .expect("run export");
    assert_eq!(run.call(&mut store, (0, 0, 0, 0, 0)).unwrap() as u64, 100 * 1000 + 7 * 10 + 5);
}

// `getscriptglobals`: pushes the `k`-th script's global (pre-resolved bits) by
// calling helper 17 (`get_script_globals`) with the immediate `k`.
#[test]
fn lowers_get_script_globals() {
    let ops = [JitOp::GetScriptGlobals(3), JitOp::ReturnValueBoxed];
    let m = manifest(&ops);
    assert_eq!(m.num_helpers, 18); // h0..h17 (get_script_globals = 17)
    let bytes = compile(&ops).expect("compiles");
    let engine = Engine::default();
    let module = Module::new(&engine, &bytes).expect("valid wasm");
    let mut store = Store::new(&engine, ());
    let memory = Memory::new(&mut store, WMemoryType::new(1, None).unwrap()).unwrap();
    // Bind h0..h17; h17 echoes its arg so the immediate `k` flows through as the result.
    let mut externs: Vec<wasmi::Extern> = Vec::new();
    for i in 0..18u32 {
        let f = if i == 17 {
            Func::wrap(&mut store, |k: i64| -> i64 { k + 0xF00 })
        } else {
            Func::wrap(&mut store, |a: i64| -> i64 { a })
        };
        externs.push(f.into());
    }
    externs.push(memory.into());
    let instance = Instance::new(&mut store, &module, &externs).expect("instantiates");
    let run = instance
        .get_typed_func::<(i32, i32, i32, i32, i32), i64>(&store, "run")
        .expect("run export");
    assert_eq!(run.call(&mut store, (0, 0, 0, 0, 0)).unwrap() as u64, 3 + 0xF00);
}

// Exception dispatch: `throw` inside a handler range routes through `dispatch_exc`
// (h20), which here returns the catch target op index; control jumps to the catch
// block, whose entry pulls the caught value via `pop_caught` (h22). `new_catch`
// (h21) builds the scope. Pins the emitted dispatch control flow end-to-end.
#[test]
fn lowers_exception_dispatch() {
    let thrown = VALUE_INT_MARK | 55;
    let caught_marker = VALUE_INT_MARK | 999;
    let ops = [
        JitOp::PushConst(thrown), // 0: value to throw
        JitOp::Throw,             // 1: throw — in handler [0,2), dispatches
        JitOp::NewCatch(0),       // 2: catch target — caught value already materialized
        JitOp::Pop,               // 3: drop the newcatch scope
        JitOp::ReturnValueBoxed,  // 4: return the caught value
    ];
    let exceptions = [ExcRange { from: 0, to: 2, target: 2 }];
    // Handlers present ⇒ imports h0..=h22 (dispatch/new_catch/pop_caught).
    assert_eq!(manifest(&ops).num_helpers, POP_CAUGHT + 1);

    let bytes = compile_full(&ops, &[], &exceptions).expect("compiles");
    let engine = Engine::default();
    let module = Module::new(&engine, &bytes).expect("valid wasm");
    let mut store = Store::new(&engine, ());
    let memory = Memory::new(&mut store, WMemoryType::new(1, None).unwrap()).unwrap();
    let mut externs: Vec<wasmi::Extern> = Vec::new();
    for i in 0..=POP_CAUGHT {
        let f = match i {
            20 => Func::wrap(&mut store, |_op: i64| -> i64 { 2 }), // dispatch → catch target op 2
            21 => Func::wrap(&mut store, |_idx: i64| -> i64 { 0 }), // new_catch → dummy scope
            22 => Func::wrap(&mut store, move |_: i64| -> i64 { caught_marker as i64 }), // pop_caught
            _ => Func::wrap(&mut store, |a: i64| -> i64 { a }),
        };
        externs.push(f.into());
    }
    externs.push(memory.into());
    let instance = Instance::new(&mut store, &module, &externs).expect("instantiates");
    let run = instance
        .get_typed_func::<(i32, i32, i32, i32, i32), i64>(&store, "run")
        .expect("run export");
    assert_eq!(run.call(&mut store, (0, 0, 0, 0, 0)).unwrap() as u64, caught_marker);
}

// Call-in-try dispatch: a `callmethod` inside a handler range. On no throw
// (`perr`=0) the call result flows through to the normal return; on a throw
// (`perr`=1) the pending error is dispatched to the catch block, whose entry
// pulls the caught value. Exercises the spill/perr/dispatch/reload path.
#[test]
fn lowers_call_in_try_dispatch() {
    let call_result = VALUE_INT_MARK | 310;
    let caught_marker = VALUE_INT_MARK | 777;
    let ops = [
        JitOp::GetLocalValue(0),    // 0: receiver
        JitOp::CallMethod(7, 0, true), // 1: call (in handler [1,2)), may throw
        JitOp::ReturnValueBoxed,    // 2: normal return (no throw) — the call result
        JitOp::NewCatch(0),         // 3: catch target — caught value materialized
        JitOp::Pop,                 // 4: drop the newcatch scope
        JitOp::ReturnValueBoxed,    // 5: return the caught value
    ];
    let exceptions = [ExcRange { from: 1, to: 2, target: 3 }];
    assert_eq!(manifest(&ops).num_helpers, POP_CAUGHT + 1); // h0..=h22

    let bytes = compile_full(&ops, &[], &exceptions).expect("compiles");
    let go = |err: i32| -> u64 {
        let engine = Engine::default();
        let module = Module::new(&engine, &bytes).expect("valid wasm");
        let mut store = Store::new(&engine, ());
        let memory = Memory::new(&mut store, WMemoryType::new(1, None).unwrap()).unwrap();
        let mut externs: Vec<wasmi::Extern> = Vec::new();
        for i in 0..=POP_CAUGHT {
            let f = match i {
                20 => Func::wrap(&mut store, |_op: i64| -> i64 { 3 }), // dispatch → target op 3
                21 => Func::wrap(&mut store, |_idx: i64| -> i64 { 0 }), // new_catch → dummy
                22 => Func::wrap(&mut store, move |_: i64| -> i64 { caught_marker as i64 }),
                _ => Func::wrap(&mut store, |a: i64| -> i64 { a }),
            };
            externs.push(f.into());
        }
        // Then the call imports: cm, pca, perr, memory.
        let cm = Func::wrap(&mut store, move |_r: i64, _id: i64, _argc: i64| -> i64 {
            call_result as i64
        });
        let pca = Func::wrap(&mut store, |_v: i64| {});
        let perr = Func::wrap(&mut store, move || -> i32 { err });
        externs.push(cm.into());
        externs.push(pca.into());
        externs.push(perr.into());
        externs.push(memory.into());
        let instance = Instance::new(&mut store, &module, &externs).expect("instantiates");
        let run = instance
            .get_typed_func::<(i32, i32, i32, i32, i32), i64>(&store, "run")
            .expect("run export");
        run.call(&mut store, (0, 0, 0, 0, 0)).expect("runs") as u64
    };
    assert_eq!(go(0), call_result, "no throw: call result flows to the normal return");
    assert_eq!(go(1), caught_marker, "throw: dispatched to the catch block");
}

// Spill-across-branch: a ternary `local0 ? 111 : 222` leaves the chosen value
// live on the operand stack across the merge block. The two predecessors spill
// it to the pool; the merge block reloads it. Pins the spill/reload plumbing.
#[test]
fn lowers_spill_across_branch() {
    let a = VALUE_INT_MARK | 111;
    let b = VALUE_INT_MARK | 222;
    let ops = [
        JitOp::GetLocalValue(0),  // 0: cond
        JitOp::IfFalseBoxed(4),   // 1: if !cond -> op4 (else branch)
        JitOp::PushConst(a),      // 2: then value (live across merge)
        JitOp::Jump(5),           // 3: -> merge, carrying the value
        JitOp::PushConst(b),      // 4: else value (falls through to merge)
        JitOp::ReturnValueBoxed,  // 5: merge — return the carried value
    ];
    let bytes = compile(&ops).expect("compiles"); // must NOT bail on the live stack
    let engine = Engine::default();
    let module = Module::new(&engine, &bytes).expect("valid wasm");
    let mut store = Store::new(&engine, ());
    let memory = Memory::new(&mut store, WMemoryType::new(1, None).unwrap()).unwrap();
    // h0..h5, h5 = to_boolean (used by IfFalseBoxed).
    let mut externs: Vec<wasmi::Extern> = Vec::new();
    for i in 0..6u32 {
        let f = if i == 5 {
            Func::wrap(&mut store, |v: i64| -> i64 { (v != 0) as i64 })
        } else {
            Func::wrap(&mut store, |a: i64| -> i64 { a })
        };
        externs.push(f.into());
    }
    externs.push(memory.into());
    let instance = Instance::new(&mut store, &module, &externs).expect("instantiates");
    let run = instance
        .get_typed_func::<(i32, i32, i32, i32, i32), i64>(&store, "run")
        .expect("run export");
    for (cond, expected) in [(1u64, a), (0, b), (7, a)] {
        memory.write(&mut store, 0, &cond.to_le_bytes()).unwrap();
        assert_eq!(run.call(&mut store, (0, 0, 0, 0, 0)).unwrap() as u64, expected, "cond={cond}");
    }
}

// `throw`: pops the thrown value, calls helper 19 (`throw_value`, which stashes
// the error), and returns. Here h19 records the thrown bits and returns a marker.
#[test]
fn lowers_throw() {
    let ops = [JitOp::GetLocalValue(0), JitOp::Throw];
    assert_eq!(manifest(&ops).num_helpers, 20); // h0..h19 (throw_value = 19)
    let bytes = compile(&ops).expect("compiles");
    let engine = Engine::default();
    let module = Module::new(&engine, &bytes).expect("valid wasm");
    let mut store = Store::new(&engine, 0i64);
    let memory = Memory::new(&mut store, WMemoryType::new(1, None).unwrap()).unwrap();
    memory.write(&mut store, 0, &0x1234u64.to_le_bytes()).unwrap(); // local0 = thrown value
    let mut externs: Vec<wasmi::Extern> = Vec::new();
    for i in 0..20u32 {
        let f = if i == 19 {
            Func::wrap(&mut store, |mut c: Caller<'_, i64>, v: i64| -> i64 {
                *c.data_mut() = v; // record what was thrown
                0xE770 // stand-in for the returned `undefined` bits
            })
        } else {
            Func::wrap(&mut store, |a: i64| -> i64 { a })
        };
        externs.push(f.into());
    }
    externs.push(memory.into());
    let instance = Instance::new(&mut store, &module, &externs).expect("instantiates");
    let run = instance
        .get_typed_func::<(i32, i32, i32, i32, i32), i64>(&store, "run")
        .expect("run export");
    assert_eq!(run.call(&mut store, (0, 0, 0, 0, 0)).unwrap() as u64, 0xE770);
    assert_eq!(*store.data() as u64, 0x1234, "thrown value reached the helper");
}

// `pushstring`: pushes the `k`-th pre-resolved string `Value` bits by calling
// helper 18 (`get_push_string`) with the immediate `k` (like getscriptglobals).
#[test]
fn lowers_push_string() {
    let ops = [JitOp::PushString(2), JitOp::ReturnValueBoxed];
    let m = manifest(&ops);
    assert_eq!(m.num_helpers, 19); // h0..h18 (get_push_string = 18)
    assert!(m.has_push_strings);
    let bytes = compile(&ops).expect("compiles");
    let engine = Engine::default();
    let module = Module::new(&engine, &bytes).expect("valid wasm");
    let mut store = Store::new(&engine, ());
    let memory = Memory::new(&mut store, WMemoryType::new(1, None).unwrap()).unwrap();
    // Bind h0..h18; h18 echoes `k` (tagged) so the immediate index flows through.
    let mut externs: Vec<wasmi::Extern> = Vec::new();
    for i in 0..19u32 {
        let f = if i == 18 {
            Func::wrap(&mut store, |k: i64| -> i64 { k | 0xABC0 })
        } else {
            Func::wrap(&mut store, |a: i64| -> i64 { a })
        };
        externs.push(f.into());
    }
    externs.push(memory.into());
    let instance = Instance::new(&mut store, &module, &externs).expect("instantiates");
    let run = instance
        .get_typed_func::<(i32, i32, i32, i32, i32), i64>(&store, "run")
        .expect("run export");
    assert_eq!(run.call(&mut store, (0, 0, 0, 0, 0)).unwrap() as u64, 2 | 0xABC0);
}

// Boxed in-place int local inc/dec: `local0 = 5; ++;++;-- → 6`.
#[test]
fn lowers_inc_dec_local_i() {
    let ops = [
        JitOp::IncDecLocalIValue(0, true),
        JitOp::IncDecLocalIValue(0, true),
        JitOp::IncDecLocalIValue(0, false),
        JitOp::GetLocalValue(0),
        JitOp::ReturnValueBoxed,
    ];
    let bytes = compile(&ops).expect("compiles");
    assert_eq!(run(&bytes, &[VALUE_INT_MARK | 5]), VALUE_INT_MARK | 6);
}

// Boxed primitive constant push: `PushConst(bits)` puts exactly `bits` on the
// stack (e.g. a `uint`/`Number`/`null`/`Boolean` `Value`), returned unchanged.
#[test]
fn lowers_push_const() {
    for bits in [
        UNDEFINED_BITS,
        VALUE_BOOL_MARK | 1,
        0x7FF8_0000_0000_0000,           // a Number (NaN-canonical)
        2.5f64.to_bits(),                // a Number
        VALUE_INT_MARK | (42u32 as u64), // an int
    ] {
        let ops = [JitOp::PushConst(bits), JitOp::ReturnValueBoxed];
        let bytes = compile(&ops).expect("compiles");
        assert_eq!(run(&bytes, &[]), bits, "PushConst({bits:#018x})");
    }
}

// `constructsuper` lowering: spills the args, calls `csup(receiver, argc)`, drops
// the void result, and bails on a pending error. It must consume exactly
// receiver+args, leaving a sentinel pushed *below* them untouched.
#[test]
fn lowers_construct_super() {

    // sentinel; receiver=local0; arg0=local1; constructsuper argc=1; return sentinel.
    let ops = [
        JitOp::PushConst(SENTINEL),
        JitOp::GetLocalValue(0),
        JitOp::GetLocalValue(1),
        JitOp::ConstructSuper(1),
        JitOp::ReturnValueBoxed,
    ];
    let m = manifest(&ops);
    assert!(m.has_construct_super);
    let bytes = compile(&ops).expect("compiles");

    let go = |err: i32| -> u64 {
        let engine = Engine::default();
        let module = Module::new(&engine, &bytes).expect("valid wasm");
        let mut store = Store::new(&engine, Vec::<i64>::new());
        let memory = Memory::new(&mut store, WMemoryType::new(1, None).unwrap()).unwrap();
        memory.write(&mut store, 0, &100u64.to_le_bytes()).unwrap(); // receiver
        memory.write(&mut store, 8, &7u64.to_le_bytes()).unwrap(); // arg0
        let pca = Func::wrap(&mut store, |mut c: Caller<'_, Vec<i64>>, v: i64| {
            c.data_mut().push(v);
        });
        let csup = Func::wrap(&mut store, |c: Caller<'_, Vec<i64>>, receiver: i64, argc: i64| -> i64 {
            let raw = c.data().clone();
            assert_eq!((receiver, argc, raw.as_slice()), (100, 1, [7].as_slice()));
            0 // void dummy
        });
        let perr = Func::wrap(&mut store, move || -> i32 { err });
        // Imports in declaration order: csup, pca, perr, memory.
        let instance = Instance::new(
            &mut store,
            &module,
            &[csup.into(), pca.into(), perr.into(), memory.into()],
        )
        .expect("instantiates");
        let run = instance
            .get_typed_func::<(i32, i32, i32, i32, i32), i64>(&store, "run")
            .expect("run export");
        run.call(&mut store, (0, 0, 0, 0, 0)).expect("runs") as u64
    };

    assert_eq!(go(0), SENTINEL); // constructsuper consumed only receiver+arg → sentinel returned
    assert_eq!(go(1), UNDEFINED_BITS); // pending error → method bails
}

// Boxed `swap` reverses the top two `Value`s (bit-exact via reinterpret).
#[test]
fn lowers_boxed_swap() {
    let ops = [
        JitOp::GetLocalValue(1),
        JitOp::GetLocalValue(2),
        JitOp::SwapValue, // [l1, l2] -> [l2, l1]
        JitOp::ReturnValueBoxed, // returns the new top = l1
    ];
    let bytes = compile(&ops).expect("compiles");
    // Arbitrary bit patterns (incl. a NaN-space one) must round-trip exactly.
    assert_eq!(run(&bytes, &[0, 0xAAAA_AAAA_AAAA_AAAA, 0xFFF8_1234_5678_9ABC]), 0xAAAA_AAAA_AAAA_AAAA);
}

// Boxed control flow: a countdown loop through the dispatch-loop lowering with
// a boxed `IfFalseBoxed` condition and a `Jump` back-edge.
// `i = local1; while (to_boolean(i)) { i = decrement(i) } return increment(i)`.
// Helpers are faked as raw-i64 arithmetic (increment/+1, decrement/-1,
// to_boolean/!=0), so this pins the *control flow*, not the boxing: starting
// i=5 loops to 0, then increments to 1.
// Boxed int arithmetic (`storelocal` + unbox/op/re-box): the boxed path reads
// int `Value`s, so `(local1 - local2) * local1`, with `storelocal` keeping the
// difference on the stack, must round-trip through the box.
#[test]
fn lowers_boxed_int_arithmetic() {
    let ops = [
        JitOp::GetLocalValue(1),
        JitOp::GetLocalValue(2),
        JitOp::SubtractIBoxed,   // a - b
        JitOp::StoreLocalValue(3), // local3 = a-b, keep it on the stack
        JitOp::GetLocalValue(1),
        JitOp::MultiplyIBoxed, // (a-b) * a
        JitOp::IncrementIBoxed,
        JitOp::ReturnValueBoxed,
    ];
    let bytes = compile(&ops).expect("compiles");
    // a=10, b=3: (10-3)*10 + 1 = 71.
    let slots = [int_value_bits(0), int_value_bits(10), int_value_bits(3), int_value_bits(0)];
    assert_eq!(run(&bytes, &slots), int_value_bits(71));
    // And local3 got the difference (7), stored mid-expression.
    let neg = [int_value_bits(0), int_value_bits(-2), int_value_bits(5), int_value_bits(0)];
    // (-2 - 5) * -2 + 1 = 15.
    assert_eq!(run(&bytes, &neg), int_value_bits(15));
}

#[test]
fn lowers_boxed_countdown_loop() {
    let ops = [
        JitOp::GetLocalValue(1), // 0: head — load counter
        JitOp::IfFalseBoxed(6),  // 1: if !counter -> exit(6)
        JitOp::GetLocalValue(1), // 2: body
        JitOp::CallHelper(1),    // 3: decrement
        JitOp::SetLocalValue(1), // 4: counter = counter - 1
        JitOp::Jump(0),          // 5: back-edge
        JitOp::GetLocalValue(1), // 6: exit — counter is 0
        JitOp::CallHelper(0),    // 7: increment -> 1
        JitOp::ReturnValueBoxed, // 8
    ];
    // Boxed branches pull in `to_boolean` at h5, so the module imports h0..h5.
    assert_eq!(manifest(&ops).num_helpers, 6);
    let bytes = compile(&ops).expect("compiles");

    let engine = Engine::default();
    let module = Module::new(&engine, &bytes).expect("valid wasm");
    let mut store = Store::new(&engine, ());
    let memory = Memory::new(&mut store, WMemoryType::new(1, None).unwrap()).unwrap();
    // local1 = 5 (raw i64 counter); local0 unused.
    memory
        .write(&mut store, 8, &5u64.to_le_bytes())
        .unwrap();

    // h0=increment(+1), h1=decrement(-1), h2..h4=identity, h5=to_boolean(!=0).
    let h0 = Func::wrap(&mut store, |a: i64| -> i64 { a + 1 });
    let h1 = Func::wrap(&mut store, |a: i64| -> i64 { a - 1 });
    let hid2 = Func::wrap(&mut store, |a: i64| -> i64 { a });
    let hid3 = Func::wrap(&mut store, |a: i64| -> i64 { a });
    let hid4 = Func::wrap(&mut store, |a: i64| -> i64 { a });
    let h5 = Func::wrap(&mut store, |a: i64| -> i64 { (a != 0) as i64 });

    let instance = Instance::new(
        &mut store,
        &module,
        &[
            h0.into(),
            h1.into(),
            hid2.into(),
            hid3.into(),
            hid4.into(),
            h5.into(),
            memory.into(),
        ],
    )
    .expect("instantiates");
    let run = instance
        .get_typed_func::<(i32, i32, i32, i32, i32), i64>(&store, "run")
        .expect("run export");
    // 5 → (loop) → 0 → increment → 1.
    assert_eq!(run.call(&mut store, (0, 0, 0, 0, 0)).expect("runs") as u64, 1);
}

#[test]
fn lowers_starling_scale_setter_shape() {
    // The exact boxed shape of Starling's `DisplayObject.set scale(value)`
    // (`scaleX = value; scaleY = value` via two setter calls):
    //   getlocal1; dup; getlocal0; swap; callmethod 58,1(void);
    //   getlocal0; swap; callmethod 56,1(void); returnvoid
    // Verifies the dup/swap + arg-spill (`pca`) + `cm` machinery passes the
    // right (receiver, disp-id, arg) to each call, in order.
    let ops = [
        JitOp::GetLocalValue(1),        // [v]
        JitOp::DupValue,                // [v, v]
        JitOp::GetLocalValue(0),        // [v, v, this]
        JitOp::SwapValue,               // [v, this, v]
        JitOp::CallMethod(58, 1, false), // scaleX = v → [v]
        JitOp::GetLocalValue(0),        // [v, this]
        JitOp::SwapValue,               // [this, v]
        JitOp::CallMethod(56, 1, false), // scaleY = v → [this] (dropped result)
        JitOp::ReturnVoidBoxed(UNDEFINED_BITS),
    ];
    let m = manifest(&ops);
    assert!(m.has_call);
    let bytes = compile(&ops).expect("compiles");
    let engine = Engine::default();
    let module = Module::new(&engine, &bytes).expect("valid wasm");
    // Store data: the spilled-args stack + the (receiver, id, argc, arg) call log.
    let mut store = Store::new(&engine, CallLog::default());
    let memory = Memory::new(&mut store, WMemoryType::new(1, None).unwrap()).unwrap();
    let this_bits = 0x1111_2222_3333_4444u64;
    let v_bits = 0x5555_6666_7777_8888u64;
    memory.write(&mut store, 0, &this_bits.to_le_bytes()).unwrap(); // local0
    memory.write(&mut store, 8, &v_bits.to_le_bytes()).unwrap(); // local1
    let cm = Func::wrap(
        &mut store,
        |mut c: Caller<'_, CallLog>, recv: i64, id: i64, argc: i64| -> i64 {
            let arg = c.data_mut().0.pop().expect("one spilled arg");
            c.data_mut().1.push((recv, id, argc, arg));
            0
        },
    );
    let pca = Func::wrap(&mut store, |mut c: Caller<'_, CallLog>, v: i64| {
        c.data_mut().0.push(v);
    });
    let perr = Func::wrap(&mut store, |_: Caller<'_, CallLog>| -> i32 { 0 });
    // Imports in declaration order: cm, pca, perr, memory.
    let instance = Instance::new(
        &mut store,
        &module,
        &[cm.into(), pca.into(), perr.into(), memory.into()],
    )
    .expect("instantiates");
    let run = instance
        .get_typed_func::<(i32, i32, i32, i32, i32), i64>(&store, "run")
        .expect("run export");
    assert_eq!(run.call(&mut store, (0, 0, 0, 0, 0)).expect("runs") as u64, UNDEFINED_BITS);
    let calls = &store.data().1;
    assert_eq!(
        calls,
        &vec![
            (this_bits as i64, 58, 1, v_bits as i64),
            (this_bits as i64, 56, 1, v_bits as i64),
        ],
        "cm must receive (this, disp-id, argc) with the value spilled as the arg"
    );
    assert!(store.data().0.is_empty(), "no leaked spilled args");
}

#[test]
fn lowers_vcall_kinds() {
    // Three `VCall` shapes in one method:
    //   `setproperty` (static mn): receiver + one spilled value, result dropped;
    //   `constructslot`: receiver + one spilled ctor arg, result pushed;
    //   `newarray`: NO receiver (dummy 0), one spilled element, result pushed.
    // Verifies spill order, the dummy-receiver push, imm/spill/kind marshaling,
    // and the void form's Drop.
    let ops = [
        JitOp::GetLocalValue(0),                        // [this]
        JitOp::PushIntValue(7),                         // [this, 7]
        JitOp::VCall(vc::SET_PROP_STATIC, 3, 1, false), // this.mn3 = 7 → []
        JitOp::GetLocalValue(0),                        // [this]
        JitOp::PushIntValue(9),                         // [this, 9]
        JitOp::VCall(vc::CONSTRUCT_SLOT, 5, 1, true),   // new this.slot5(9) → [obj]
        JitOp::VCall(vc::NEW_ARRAY, 0, 1, true),        // [obj] → [[obj]]
        JitOp::ReturnValueBoxed,
    ];
    let m = manifest(&ops);
    assert!(m.has_vcall && m.needs_perr());
    let bytes = compile(&ops).expect("compiles");
    let engine = Engine::default();
    let module = Module::new(&engine, &bytes).expect("valid wasm");
    // Store data: the spilled-args stack + the (a, imm, spill, kind, arg) log.
    let mut store = Store::new(&engine, VcLog::default());
    let memory = Memory::new(&mut store, WMemoryType::new(1, None).unwrap()).unwrap();
    let this_bits = 0x1111_2222_3333_4444u64;
    memory.write(&mut store, 0, &this_bits.to_le_bytes()).unwrap(); // local0
    let vc_mock = Func::wrap(
        &mut store,
        |mut c: Caller<'_, VcLog>, a: i64, imm: i64, spill: i64, kind: i64| -> i64 {
            let arg = c.data_mut().0.pop().expect("one spilled operand");
            c.data_mut().1.push((a, imm, spill, kind, arg));
            0x4242 // the pushed result (dropped for the void form)
        },
    );
    let pca = Func::wrap(&mut store, |mut c: Caller<'_, VcLog>, v: i64| {
        c.data_mut().0.push(v);
    });
    let perr = Func::wrap(&mut store, |_: Caller<'_, VcLog>| -> i32 { 0 });
    // Imports in declaration order: pca, perr, vc, memory.
    let instance = Instance::new(
        &mut store,
        &module,
        &[pca.into(), perr.into(), vc_mock.into(), memory.into()],
    )
    .expect("instantiates");
    let run = instance
        .get_typed_func::<(i32, i32, i32, i32, i32), i64>(&store, "run")
        .expect("run export");
    assert_eq!(run.call(&mut store, (0, 0, 0, 0, 0)).expect("runs"), 0x4242);
    let int7 = (VALUE_INT_MARK | 7) as i64;
    let int9 = (VALUE_INT_MARK | 9) as i64;
    let calls = &store.data().1;
    assert_eq!(
        calls,
        &vec![
            (this_bits as i64, 3, 1, vc::SET_PROP_STATIC as i64, int7),
            (this_bits as i64, 5, 1, vc::CONSTRUCT_SLOT as i64, int9),
            (0, 0, 1, vc::NEW_ARRAY as i64, 0x4242), // dummy receiver, constructslot's result spilled
        ],
        "vc must receive (a, imm, spill, kind) with operands spilled via pca"
    );
    assert!(store.data().0.is_empty(), "no leaked spilled operands");
}

#[test]
fn lowers_getslot_inline() {
    // The inline slot read, with a layout of objects given and a mock object in memory 1:
    //   object @64: slots_ptr (u32 @ 64+8) → 128, slots_len (u32 @ 64+12) = 4
    //   slots  @128: slot[2] = 0xABCD (raw Value bits)
    // Local 0 = object-boxed 64 → the fast path loads slot 2 directly (the `gs`
    // mock must NOT run); local 1 = int-boxed → falls back to `gs`.
    let target = Target { web: false, slots: Some(SlotLayout { ptr_off: 8, len_off: 12 }) };
    let ops = [
        JitOp::GetLocalValue(1),
        JitOp::GetSlot(3, false), // int receiver → gs fallback (result dropped)
        JitOp::Pop,
        JitOp::GetLocalValue(0),
        JitOp::GetSlot(2, false), // object receiver → inline fast path
        JitOp::ReturnValueBoxed,
    ];
    let m = manifest(&ops);
    let bytes = compile_for(&target, &ops, &[], &[]).expect("compiles");
    assert!(m.has_getslot);
    let mut config = Config::default();
    config.wasm_multi_memory(true);
    let engine = Engine::new(&config);
    let module = Module::new(&engine, &bytes).expect("valid wasm");
    // Store data: the (receiver, slot_id) pairs the `gs` fallback received.
    let mut store = Store::new(&engine, Vec::<(i64, i64)>::new());
    let memory = Memory::new(&mut store, WMemoryType::new(1, None).unwrap()).unwrap();
    let dm = Memory::new(&mut store, WMemoryType::new(1, None).unwrap()).unwrap();
    // The mock object + slots in memory 1.
    dm.write(&mut store, 64 + 8, &128u32.to_le_bytes()).unwrap(); // slots_ptr
    dm.write(&mut store, 64 + 12, &4u32.to_le_bytes()).unwrap(); // slots_len
    dm.write(&mut store, 128 + 2 * 8, &0xABCDu64.to_le_bytes()).unwrap(); // slot 2
    let obj_bits = VALUE_OBJECT_TAG16 << 48 | 64;
    let int_bits = VALUE_INT_MARK | 7;
    memory.write(&mut store, 0, &obj_bits.to_le_bytes()).unwrap(); // local0
    memory.write(&mut store, 8, &int_bits.to_le_bytes()).unwrap(); // local1
    let gs = Func::wrap(
        &mut store,
        |mut c: Caller<'_, Vec<(i64, i64)>>, recv: i64, slot_id: i64| -> i64 {
            c.data_mut().push((recv, slot_id));
            0x7777
        },
    );
    let perr = Func::wrap(&mut store, |_: Caller<'_, Vec<(i64, i64)>>| -> i32 { 0 });
    // Imports in declaration order: gs, perr, memory, dm.
    let instance = Instance::new(
        &mut store,
        &module,
        &[gs.into(), perr.into(), memory.into(), dm.into()],
    )
    .expect("instantiates");
    let run = instance
        .get_typed_func::<(i32, i32, i32, i32, i32), i64>(&store, "run")
        .expect("run export");
    // The returned value is the object receiver's slot 2, read INLINE.
    assert_eq!(run.call(&mut store, (0, 0, 0, 0, 0)).expect("runs"), 0xABCD);
    assert_eq!(
        store.data().as_slice(),
        &[(int_bits as i64, 3)],
        "only the non-object receiver may reach the gs fallback"
    );
}

#[test]
fn compiles_generation_with_dispatcher() {
    // Two methods with DIFFERENT import needs in one generation module:
    //   #0: `local1 + local2` (int path — no imports)
    //   #1: `helper0(local1)` (arity-1 helper import)
    // Both dispatch through the exported 6-param `run(method_idx, ...)`.
    let m0 = [
        JitOp::GetLocal(1),
        JitOp::GetLocal(2),
        JitOp::AddI,
        JitOp::ReturnValue,
    ];
    let m1 = [JitOp::GetLocalValue(1), JitOp::CallHelper(0), JitOp::ReturnValueBoxed];
    let members = [
        GenMember { ops: &m0, switches: &[], exceptions: &[] },
        GenMember { ops: &m1, switches: &[], exceptions: &[] },
    ];
    let (bytes, union) = compile_generation(&members).expect("generation compiles");
    assert_eq!(union.num_helpers, 1); // the union carries m1's h0

    let mut config = Config::default();
    config.wasm_multi_memory(true);
    let engine = Engine::new(&config);
    let module = Module::new(&engine, &bytes).expect("valid wasm");
    let mut store = Store::new(&engine, ());
    let memory = Memory::new(&mut store, WMemoryType::new(1, None).unwrap()).unwrap();
    // locals: 1 = int 3, 2 = int 4 (int path reads raw low bits; boxed reads bits).
    let int_bits = |v: i32| VALUE_INT_MARK | (v as u32 as u64);
    memory.write(&mut store, 8, &int_bits(3).to_le_bytes()).unwrap();
    memory.write(&mut store, 16, &int_bits(4).to_le_bytes()).unwrap();
    let h0 = Func::wrap(&mut store, |a: i64| -> i64 { a ^ 0xFF });
    let instance = Instance::new(&mut store, &module, &[h0.into(), memory.into()])
        .expect("instantiates");
    let run = instance
        .get_typed_func::<(i32, i32, i32, i32, i32, i32), i64>(&store, "run")
        .expect("dispatcher export");
    // Method 0: 3 + 4 → int-boxed 7.
    assert_eq!(run.call(&mut store, (0, 0, 0, 0, 0, 0)).expect("runs") as u64, int_bits(7));
    // Method 1: h0(local1 bits) = bits ^ 0xFF.
    assert_eq!(
        run.call(&mut store, (1, 0, 0, 0, 0, 0)).expect("runs") as u64,
        int_bits(3) ^ 0xFF
    );
}

#[test]
fn generation_union_covers_every_import() {
    // Members that between them use every family of imports: the union has to declare all
    // that any of them calls, or the module is not valid.
    let m0 = [
        JitOp::GetLocalValue(0),
        JitOp::VCall(vc::TYPE_OF, 0, 0, true), // vc + pca/perr
        JitOp::ReturnValueBoxed,
    ];
    let m1 = [
        JitOp::GetLocalValue(0),
        JitOp::GetSlot(1, false), // gs (+ perr)
        JitOp::GetLocalValue(1),
        JitOp::ArithNum(13), // t0..t13
        JitOp::Coerce(0),    // coerce
        JitOp::ReturnValueCoerced, // h16
    ];
    let m2 = [
        JitOp::GetLocalValue(0),
        JitOp::GetLocalValue(1),
        JitOp::CallMethod(3, 1, true), // cm
        JitOp::GetProperty(0),         // gp
        JitOp::ReturnValueBoxed,
    ];
    let members = [
        GenMember { ops: &m0, switches: &[], exceptions: &[] },
        GenMember { ops: &m1, switches: &[], exceptions: &[] },
        GenMember { ops: &m2, switches: &[], exceptions: &[] },
    ];
    let (bytes, union) = compile_generation(&members).expect("generation compiles");
    assert!(union.has_vcall && union.has_getslot && union.has_call && union.has_coerce);
    assert_eq!(union.num_helpers2, 14);
    // `Module::new` validates: a call of an import that is not declared fails here.
    let mut config = Config::default();
    config.wasm_multi_memory(true);
    let engine = Engine::new(&config);
    Module::new(&engine, &bytes).expect("union layout must yield a valid module");
}

#[test]
fn lowers_counted_loop() {
    // sum(n): s=0; i=0; while (i < n) { s += i; i += 1 } return s
    // locals: 1 = n, 2 = s, 3 = i.
    let ops = [
        JitOp::PushInt(0),
        JitOp::SetLocal(2), // 0,1
        JitOp::PushInt(0),
        JitOp::SetLocal(3), // 2,3
        // 4: loop head
        JitOp::GetLocal(3),
        JitOp::GetLocal(1),
        JitOp::IfGe(16), // 4,5,6: if i>=n exit
        // 7: body
        JitOp::GetLocal(2),
        JitOp::GetLocal(3),
        JitOp::AddI,
        JitOp::SetLocal(2), // 7-10: s+=i
        JitOp::GetLocal(3),
        JitOp::PushInt(1),
        JitOp::AddI,
        JitOp::SetLocal(3), // 11-14: i+=1
        JitOp::Jump(4),     // 15: back-edge
        // 16: exit
        JitOp::GetLocal(2),
        JitOp::ReturnValue, // 16,17
    ];
    let bytes = compile(&ops).expect("compiles");
    // sum(5) = 0+1+2+3+4 = 10
    let slots = [int_value_bits(0), int_value_bits(5), int_value_bits(0), int_value_bits(0)];
    assert_eq!(run(&bytes, &slots), int_value_bits(10));
    // sum(0) = 0 (loop body never runs)
    let slots0 = [int_value_bits(0), int_value_bits(0), int_value_bits(0), int_value_bits(0)];
    assert_eq!(run(&bytes, &slots0), int_value_bits(0));
}
