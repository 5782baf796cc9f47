//! Compiled code against the reference interpreter, on a native engine.

use avm2_jit::lower::{compile, manifest, JitOp, Manifest};
use avm2_jit::reference::reference_run;
use avm2_jit::runner::{host_functions, native_frame, HostFn};
use avm2_jit::translate::{translate, translate_boxed, Op};
use wasmtime::{Config, Engine, Extern, Func, Instance, Memory, MemoryType, Module, Store};

/// More steps than any method here takes.
const FUEL: u64 = 100_000;

fn int_bits(n: i32) -> u64 {
    0xFFFB_0000_0000_0000 | (n as u32 as u64)
}

/// Runs a module, with stand-ins for the host: `ToBoolean` of booleans, and the identity.
fn run(bytes: &[u8], regs: &[u64], m: &Manifest) -> Option<u64> {
    // Small memories: nothing here grows its own.
    let mut config = Config::new();
    config.memory_reservation(1 << 20);
    config.memory_reservation_for_growth(0);
    config.memory_guard_size(0);
    let engine = Engine::new(&config).ok()?;
    let module = Module::new(&engine, bytes).expect("valid");
    let mut store = Store::new(&engine, ());
    let memory = Memory::new(&mut store, MemoryType::new(1, None)).expect("memory");
    let mut externs: Vec<Extern> = Vec::new();
    for f in host_functions(m)? {
        externs.push(match f {
            HostFn::Unary(5) => Func::wrap(&mut store, |a: i64| -> i64 { a & 1 }).into(),
            HostFn::Unary(_) => Func::wrap(&mut store, |a: i64| -> i64 { a }).into(),
            HostFn::Binary(_) | HostFn::GetProperty | HostFn::GetSlot => {
                Func::wrap(&mut store, |a: i64, _b: i64| -> i64 { a }).into()
            }
            HostFn::PendingError => Func::wrap(&mut store, || -> i32 { 0 }).into(),
            _ => return None,
        });
    }
    externs.push(memory.into());
    let instance = Instance::new(&mut store, &module, &externs).expect("instantiates");
    let entry = instance
        .get_typed_func::<(i32, i32, i32, i32, i32), i64>(&mut store, "run")
        .ok()?;
    memory.write(&mut store, 0, &native_frame(regs)?).ok()?;
    entry.call(&mut store, (0, 0, 0, 0, 0)).ok().map(|v| v as u64)
}

/// Runs `ops` both ways and asserts equality.
fn assert_equiv(ops: &[JitOp], regs: &[u64]) {
    let bytes = compile(ops).expect("compiles");
    let jit = run(&bytes, regs, &manifest(ops)).expect("native runner");
    let interp = reference_run(ops, regs, FUEL).expect("within the fuel");
    assert_eq!(jit, interp, "compiled != reference for regs {regs:?}");
}

#[test]
fn straight_line_matches_interpreter() {
    // (l1 + l2) * l3
    let ops = [
        JitOp::GetLocal(1),
        JitOp::GetLocal(2),
        JitOp::AddI,
        JitOp::GetLocal(3),
        JitOp::MultiplyI,
        JitOp::ReturnValue,
    ];
    for &(a, b, c) in &[(3, 4, 5), (-2, 7, 3), (100, -50, -1), (0, 0, 9)] {
        assert_equiv(&ops, &[int_bits(0), int_bits(a), int_bits(b), int_bits(c)]);
    }
}

#[test]
fn counted_loop_matches_interpreter() {
    // sum(n): s=0; i=0; while (i < n) { s += i; i += 1 } return s
    let ops = [
        JitOp::PushInt(0),
        JitOp::SetLocal(2),
        JitOp::PushInt(0),
        JitOp::SetLocal(3),
        JitOp::GetLocal(3),
        JitOp::GetLocal(1),
        JitOp::IfGe(16),
        JitOp::GetLocal(2),
        JitOp::GetLocal(3),
        JitOp::AddI,
        JitOp::SetLocal(2),
        JitOp::GetLocal(3),
        JitOp::PushInt(1),
        JitOp::AddI,
        JitOp::SetLocal(3),
        JitOp::Jump(4),
        JitOp::GetLocal(2),
        JitOp::ReturnValue,
    ];
    for n in [0, 1, 2, 5, 10, 100] {
        let regs = [int_bits(0), int_bits(n), int_bits(0), int_bits(0)];
        assert_equiv(&ops, &regs);
    }
}

#[test]
fn real_shaped_loop_through_translate_matches_interpreter() {
    // Mirrors what the verifier emits for a real `sum(n:int):int`: a
    // `getlocal0/pushscope` prologue, a jump-to-condition `for` loop, an
    // `inclocali` step, and a `lessthan`/`iftrue` back-edge.
    let core_ops = [
        Op::GetLocal { index: 0 }, // 0: this
        Op::PushScope,             // 1
        Op::PushInt { value: 0 },  // 2
        Op::SetLocal { index: 2 }, // 3: s = 0
        Op::PushInt { value: 0 },  // 4
        Op::SetLocal { index: 3 }, // 5: i = 0
        Op::Jump { offset: 12 },   // 6: -> condition
        Op::GetLocal { index: 2 }, // 7: body: s
        Op::GetLocal { index: 3 }, // 8: i
        Op::AddI,                  // 9
        Op::SetLocal { index: 2 }, // 10: s += i
        Op::IncLocalI { index: 3 }, // 11: i++
        Op::GetLocal { index: 3 }, // 12: condition: i
        Op::GetLocal { index: 1 }, // 13: n
        Op::LessThan,              // 14: i < n
        Op::IfTrue { offset: 7 },  // 15: -> body
        Op::GetLocal { index: 2 }, // 16: s
        Op::ReturnValue { return_type: None }, // 17
    ];
    let ops = translate(&core_ops).expect("supported");
    for n in [0, 1, 3, 7, 25, 100] {
        // regs: 0=this (dummy), 1=n, 2=s, 3=i.
        let regs = [int_bits(0), int_bits(n), int_bits(0), int_bits(0)];
        assert_equiv(&ops, &regs);
        // And it computes the actual triangular number.
        let bytes = compile(&ops).unwrap();
        let got = run(&bytes, &regs, &manifest(&ops)).unwrap();
        let expected: i32 = (0..n).sum();
        assert_eq!(got, int_bits(expected), "sum({n})");
    }
}

#[test]
fn boxed_render_shaped_loop_terminates_and_sums() {
    // Mirrors the loop skeleton of Starling's `DynamicBatcher.render` as the
    // verifier emits it, through the **boxed** path (the real method is
    // call-bearing → boxed): the bound arrives boxed and is `coerce_i`'d, the
    // counter steps via `inclocal_i`, entry jumps past the body to the
    // condition, and the back-edge is `lessthan; iftrue`.
    let core_ops = [
        Op::GetLocal { index: 0 },             // 0
        Op::PushScope,                         // 1
        Op::GetLocal { index: 1 },             // 2: n (boxed)
        Op::CoerceI,                           // 3
        Op::SetLocal { index: 4 },             // 4: n = int(n)
        Op::PushInt { value: 0 },              // 5
        Op::SetLocal { index: 5 },             // 6: i = 0
        Op::PushInt { value: 0 },              // 7
        Op::SetLocal { index: 2 },             // 8: s = 0
        Op::Jump { offset: 15 },               // 9: -> condition
        Op::GetLocal { index: 2 },             // 10: body: s
        Op::GetLocal { index: 5 },             // 11: i
        Op::AddI,                              // 12
        Op::SetLocal { index: 2 },             // 13: s += i
        Op::IncLocalI { index: 5 },            // 14: i++
        Op::GetLocal { index: 5 },             // 15: condition: i
        Op::GetLocal { index: 4 },             // 16: n
        Op::LessThan,                          // 17
        Op::IfTrue { offset: 10 },             // 18: -> body
        Op::GetLocal { index: 2 },             // 19
        Op::ReturnValue { return_type: None }, // 20
    ];
    let (ops, switches) = translate_boxed(&core_ops, &[]).expect("boxed supported");
    assert!(switches.is_empty());
    let bytes = compile(&ops).expect("compiles");
    for n in [0, 1, 2, 16, 100] {
        let regs =
            [int_bits(0), int_bits(n), int_bits(0), int_bits(0), int_bits(0), int_bits(0)];
        let got = run(&bytes, &regs, &manifest(&ops)).expect("runs");
        let expected: i32 = (0..n).sum();
        assert_eq!(got, int_bits(expected), "sum({n})");
    }
}

#[test]
fn boxed_countdown_loop_terminates_and_sums() {
    // Mirrors `DisplayObjectContainer.hitTest`'s countdown: `i = n - 1` (with
    // the verifier's `coerce_i; storelocal; pushint 1; subtract_i` prologue),
    // entry jumps past the body AND the `declocal_i` step to the condition,
    // back-edge `greaterequals; iftrue`.
    let core_ops = [
        Op::GetLocal { index: 0 },             // 0
        Op::PushScope,                         // 1
        Op::GetLocal { index: 1 },             // 2: n (boxed)
        Op::CoerceI,                           // 3
        Op::StoreLocal { index: 3 },           // 4: local3 = n (kept on stack)
        Op::PushInt { value: 1 },              // 5
        Op::SubtractI,                         // 6: n - 1
        Op::SetLocal { index: 4 },             // 7: i = n - 1
        Op::PushInt { value: 0 },              // 8
        Op::SetLocal { index: 2 },             // 9: s = 0
        Op::Jump { offset: 16 },               // 10: -> condition (skip the step)
        Op::GetLocal { index: 2 },             // 11: body: s
        Op::GetLocal { index: 4 },             // 12: i
        Op::AddI,                              // 13
        Op::SetLocal { index: 2 },             // 14: s += i
        Op::DecLocalI { index: 4 },            // 15: step: i--
        Op::GetLocal { index: 4 },             // 16: condition: i
        Op::PushInt { value: 0 },              // 17
        Op::GreaterEquals,                     // 18: i >= 0
        Op::IfTrue { offset: 11 },             // 19: -> body
        Op::GetLocal { index: 2 },             // 20
        Op::ReturnValue { return_type: None }, // 21
    ];
    let (ops, switches) = translate_boxed(&core_ops, &[]).expect("boxed supported");
    assert!(switches.is_empty());
    let bytes = compile(&ops).expect("compiles");
    for n in [0, 1, 2, 16, 100] {
        let regs =
            [int_bits(0), int_bits(n), int_bits(0), int_bits(0), int_bits(0), int_bits(0)];
        let got = run(&bytes, &regs, &manifest(&ops)).expect("runs");
        let expected: i32 = (0..n).sum();
        assert_eq!(got, int_bits(expected), "countdown sum({n})");
    }
}

#[test]
fn iftrue_branch_matches_interpreter() {
    // if (l1) return 111 else return 222
    let ops = [
        JitOp::GetLocal(1),
        JitOp::IfTrue(4),
        JitOp::PushInt(222),
        JitOp::ReturnValue,
        JitOp::PushInt(111),
        JitOp::ReturnValue,
    ];
    for v in [0, 1, -5, 42] {
        assert_equiv(&ops, &[int_bits(0), int_bits(v)]);
    }
}
