//! What compiled code gives, on concrete values: against the interpreter, against the helpers,
//! and with and without the passes.

use avm2_jit::analysis::int_sound;
use avm2_jit::helpers::{bit_and, bit_or, bit_xor, load_bytes, lshift, multiply, rshift, urshift};
use avm2_jit::hoist::hoist_pass;
use avm2_jit::inline::{splice, ResultMode};
use avm2_jit::lower::wasm::VALUE_BOOL_MARK;
use avm2_jit::lower::{compile, compile_generation, manifest, GenMember, JitOp, Manifest};
use avm2_jit::reference::reference_run;
use avm2_jit::runner::{host_functions, native_frame, HostFn};
use wasmi::{Caller, Config, Engine, Extern, Func, Instance, Memory, MemoryType, Module, Store};

const OBJECT: u64 = 0xFFFD_0000_0000_0040;

fn int_bits(n: i32) -> u64 {
    0xFFFB_0000_0000_0000 | (n as u32 as u64)
}

/// How often the host was asked for a slot.
type Reads = u32;

/// An instance of a module, with a host whose slots hold 100 more than their number, and a second
/// memory where one is wanted.
fn instance(bytes: &[u8], m: &Manifest, regs: &[u64], dm: &[u8]) -> (Store<Reads>, Instance) {
    let mut config = Config::default();
    config.wasm_multi_memory(true);
    let engine = Engine::new(&config);
    let module = Module::new(&engine, bytes).expect("valid");
    let mut store = Store::new(&engine, 0);
    let page = || MemoryType::new(1, None).expect("a page");
    let memory = Memory::new(&mut store, page()).expect("memory");
    memory.write(&mut store, 0, &native_frame(regs).expect("fits")).expect("fits");
    let mut externs: Vec<Extern> = Vec::new();
    for f in host_functions(m).expect("known") {
        externs.push(match f {
            HostFn::GetSlot => {
                Func::wrap(&mut store, |mut c: Caller<'_, Reads>, _: i64, slot: i64| -> i64 {
                    *c.data_mut() += 1;
                    int_bits(slot as i32 + 100) as i64
                })
                .into()
            }
            HostFn::Unary(_) => Func::wrap(&mut store, |_: i64| -> i64 { 0 }).into(),
            HostFn::PendingError => Func::wrap(&mut store, || -> i32 { 0 }).into(),
            HostFn::Binary(_) => Func::wrap(&mut store, |_: i64, _: i64| -> i64 { 0 }).into(),
            _ => Func::wrap(&mut store, |_: i64, _: i64, _: i64| -> i64 { 0 }).into(),
        });
    }
    externs.push(memory.into());
    if m.has_dm {
        let second = Memory::new(&mut store, page()).expect("memory");
        second.write(&mut store, 0, dm).expect("fits");
        externs.push(second.into());
    }
    let instance = Instance::new(&mut store, &module, &externs).expect("instantiates");
    (store, instance)
}

/// What a method returns, and how often it asked for a slot.
fn run(ops: &[JitOp], regs: &[u64], dm: &[u8], dm_base: i32) -> (u64, Reads) {
    let bytes = compile(ops).expect("compiles");
    let (mut store, instance) = instance(&bytes, &manifest(ops), regs, dm);
    let entry = instance
        .get_typed_func::<(i32, i32, i32, i32, i32), i64>(&store, "run")
        .expect("is there");
    let word = entry.call(&mut store, (0, dm_base, 0, 0, 0)).expect("returns");
    (word as u64, *store.data())
}

fn result(ops: &[JitOp], regs: &[u64]) -> u64 {
    run(ops, regs, &[], 0).0
}

fn binary(op: JitOp, a: i32, b: i32) -> u64 {
    let ops = [JitOp::GetLocalValue(0), JitOp::GetLocalValue(1), op, JitOp::ReturnValueBoxed];
    result(&ops, &[int_bits(a), int_bits(b)])
}

#[test]
fn members_of_a_generation_give_what_the_interpreter_gives() {
    let sum = [JitOp::GetLocal(1), JitOp::GetLocal(2), JitOp::AddI, JitOp::ReturnValue];
    let down = [JitOp::GetLocal(1), JitOp::DecrementI, JitOp::ReturnValue];
    let slot = [JitOp::GetLocalValue(0), JitOp::GetSlot(7, false), JitOp::ReturnValueBoxed];
    let members = [
        GenMember { ops: &sum, switches: &[], exceptions: &[] },
        GenMember { ops: &slot, switches: &[], exceptions: &[] },
        GenMember { ops: &down, switches: &[], exceptions: &[] },
    ];
    let (bytes, m) = compile_generation(&members).expect("compiles");
    let regs = [OBJECT, int_bits(40), int_bits(2)];
    let (mut store, instance) = instance(&bytes, &m, &regs, &[]);
    let entry = instance
        .get_typed_func::<(i32, i32, i32, i32, i32, i32), i64>(&store, "run")
        .expect("is there");
    let mut call = |i: i32| entry.call(&mut store, (i, 0, 0, 0, 0, 0)).expect("returns") as u64;
    assert_eq!(Some(call(0)), reference_run(&sum, &regs, 100));
    assert_eq!(call(0), int_bits(42));
    assert_eq!(call(1), int_bits(107));
    assert_eq!(Some(call(2)), reference_run(&down, &regs, 100));
}

#[test]
fn the_interpreter_stops_where_its_fuel_ends() {
    let forever = [JitOp::Jump(0)];
    assert_eq!(reference_run(&forever, &[], 10_000), None);
    let short = [JitOp::PushInt(5), JitOp::ReturnValue];
    assert_eq!(reference_run(&short, &[], 1), None);
    assert_eq!(reference_run(&short, &[], 2), Some(int_bits(5)));
    assert_eq!(reference_run(&short, &[], 1000), Some(int_bits(5)));
    // No operand, no local, no op.
    assert_eq!(reference_run(&[JitOp::Pop], &[], 10), None);
    assert_eq!(reference_run(&[JitOp::GetLocal(3), JitOp::ReturnValue], &[], 10), None);
    assert_eq!(reference_run(&[JitOp::Nop], &[], 10), None);
}

#[test]
fn what_is_no_int_is_dropped_or_refused() {
    // The object in local 0 is pushed and dropped; only ints are used.
    let fine = [
        JitOp::GetLocal(0),
        JitOp::Pop,
        JitOp::GetLocal(1),
        JitOp::IncrementI,
        JitOp::ReturnValue,
    ];
    assert!(int_sound(&fine, &[false, true]));
    assert_eq!(result(&fine, &[OBJECT, int_bits(1)]), int_bits(2));
    // Returned as an int, it would be garbage.
    let wrong = [JitOp::GetLocal(0), JitOp::ReturnValue];
    assert!(!int_sound(&wrong, &[false, true]));
    assert_ne!(result(&wrong, &[OBJECT, int_bits(1)]), OBJECT);
}

#[test]
fn inline_bit_operations_give_what_the_helpers_give() {
    for a in [0, 1, -1, 77, i32::MIN, i32::MAX] {
        for b in [0, 1, 5, 31, 32, 33, -1] {
            let (x, y) = (Some(a), Some(b));
            let count = Some(b as u32);
            assert_eq!(binary(JitOp::BitOpInt(5), a, b), int_bits(bit_and(x, y)));
            assert_eq!(binary(JitOp::BitOpInt(6), a, b), int_bits(bit_or(x, y)));
            assert_eq!(binary(JitOp::BitOpInt(7), a, b), int_bits(bit_xor(x, y)));
            assert_eq!(binary(JitOp::BitOpInt(8), a, b), int_bits(lshift(x, count)));
            assert_eq!(binary(JitOp::BitOpInt(9), a, b), int_bits(rshift(x, count)));
            let shifted = urshift(Some(a as u32), count);
            let word = if shifted <= i32::MAX as u32 {
                int_bits(shifted as i32)
            } else {
                (shifted as f64).to_bits()
            };
            assert_eq!(binary(JitOp::BitOpInt(10), a, b), word);
        }
    }
}

#[test]
fn inline_arithmetic_gives_what_the_helpers_give() {
    for (a, b) in [(3, 4), (-7, 9), (i32::MAX, 1), (i32::MIN, -1), (46341, 46341)] {
        let word = |exact: i64| match i32::try_from(exact) {
            Ok(n) => int_bits(n),
            Err(_) => (exact as f64).to_bits(),
        };
        assert_eq!(binary(JitOp::ArithInt(11), a, b), word(a as i64 * b as i64));
        assert_eq!(multiply(a, b).is_some(), i32::try_from(a as i64 * b as i64).is_ok());
        assert_eq!(binary(JitOp::ArithInt(12), a, b), word(a as i64 - b as i64));
        assert_eq!(binary(JitOp::ArithInt(18), a, b), word(a as i64 + b as i64));
    }
}

#[test]
fn an_int_is_its_own_image() {
    let coerce = |signed: bool, n: i32| {
        let ops =
            [JitOp::GetLocalValue(0), JitOp::CoerceInt(signed), JitOp::ReturnValueBoxed];
        result(&ops, &[int_bits(n)])
    };
    assert_eq!(coerce(true, -5), int_bits(-5));
    assert_eq!(coerce(false, 5), int_bits(5));
    // The helper, which stands for nothing here, is asked.
    assert_eq!(coerce(false, -5), 0);
}

#[test]
fn truth_is_in_the_word() {
    let truth = |word: u64| {
        let ops = [JitOp::GetLocalValue(0), JitOp::CoerceBool, JitOp::ReturnValueBoxed];
        result(&ops, &[word]) & 1
    };
    assert_eq!(truth(VALUE_BOOL_MARK), 0);
    assert_eq!(truth(VALUE_BOOL_MARK | 1), 1);
    assert_eq!(truth(int_bits(0)), 0);
    assert_eq!(truth(int_bits(-3)), 1);
}

#[test]
fn inline_loads_read_domain_memory() {
    // The pair at 8: domain memory is the 8 bytes from 32 on.
    let mut dm = vec![0u8; 48];
    dm[8..12].copy_from_slice(&32u32.to_le_bytes());
    dm[12..16].copy_from_slice(&8u32.to_le_bytes());
    dm[32..40].copy_from_slice(&[1, 2, 3, 0xff, 5, 6, 7, 8]);
    let load = |width: u32, at: i32| {
        let ops = [JitOp::GetLocalValue(0), JitOp::DmLoad(width), JitOp::ReturnValueBoxed];
        run(&ops, &[int_bits(at)], &dm, 8).0
    };
    assert_eq!(load(1, 3), int_bits(load_bytes(&dm[35..36])));
    assert_eq!(load(2, 2), int_bits(load_bytes(&dm[34..36])));
    assert_eq!(load(4, 4), int_bits(load_bytes(&dm[36..40])));
    // Out of bounds, the helper is asked.
    assert_eq!(load(4, 5), 0);
    assert_eq!(load(1, -1), 0);
}

#[test]
fn hoisting_keeps_the_result() {
    // Adds slot 2 of local 1 to local 4, once for each of local 3.
    let ops = vec![
        JitOp::Jump(7),
        JitOp::GetLocalValue(1),
        JitOp::GetSlot(2, false),
        JitOp::GetLocalValue(4),
        JitOp::AddIBoxed,
        JitOp::SetLocalValue(4),
        JitOp::IncDecLocalIValue(3, false),
        JitOp::GetLocalValue(3),
        JitOp::IfTrueBoxed(1),
        JitOp::GetLocalValue(4),
        JitOp::ReturnValueBoxed,
    ];
    let mut hoisted = ops.clone();
    assert_eq!(hoist_pass(&mut hoisted, &[2], 5, 512), 1);
    for n in [0, 1, 6] {
        let regs = [0, OBJECT, 0, int_bits(n), int_bits(0), 0];
        let (before, reads) = run(&ops, &regs[..5], &[], 0);
        let (after, fewer) = run(&hoisted, &regs, &[], 0);
        assert_eq!(before, int_bits(102 * n));
        assert_eq!(after, before);
        assert_eq!((reads, fewer), (n as u32, 1));
    }
}

#[test]
fn inlining_keeps_the_result() {
    // The callee returns its receiver's slot 3 plus its argument.
    let callee = [
        JitOp::GetLocalValue(0),
        JitOp::GetSlot(3, false),
        JitOp::GetLocalValue(1),
        JitOp::AddIBoxed,
        JitOp::ReturnValueBoxed,
    ];
    let caller = [
        JitOp::GetLocalValue(0),
        JitOp::PushIntValue(5),
        JitOp::CallMethod(9, 1, true),
        JitOp::PushIntValue(1),
        JitOp::AddIBoxed,
        JitOp::ReturnValueBoxed,
    ];
    let out = splice(&caller, 2, &callee, 2, 0, 1, ResultMode::Push).expect("inlinable");
    // What the callee returns by itself on the receiver and the argument, and one more.
    let alone = result(&callee, &[OBJECT, int_bits(5)]);
    assert_eq!(alone, int_bits(108));
    assert_eq!(result(&out, &[OBJECT, 0, 0, 0]), int_bits(109));
}

#[test]
fn operands_are_carried_over_branches_in_order() {
    // Two operands are there at the branch: it is 100 - 7, or 100 + 7 once local 0 is true.
    let ops = [
        JitOp::PushIntValue(100),
        JitOp::PushIntValue(7),
        JitOp::GetLocalValue(0),
        JitOp::IfTrueBoxed(6),
        JitOp::SubtractIBoxed,
        JitOp::ReturnValueBoxed,
        JitOp::AddIBoxed,
        JitOp::ReturnValueBoxed,
    ];
    assert_eq!(result(&ops, &[int_bits(0)]), int_bits(93));
    assert_eq!(result(&ops, &[int_bits(1)]), int_bits(107));
}

#[test]
fn operands_are_carried_round_a_loop() {
    // With 5 on the stack, 3 is added for each of local 0.
    let ops = [
        JitOp::PushIntValue(5),
        JitOp::GetLocalValue(0),
        JitOp::IfFalseBoxed(7),
        JitOp::PushIntValue(3),
        JitOp::AddIBoxed,
        JitOp::IncDecLocalIValue(0, false),
        JitOp::Jump(1),
        JitOp::ReturnValueBoxed,
    ];
    for n in [0, 1, 4] {
        assert_eq!(result(&ops, &[int_bits(n)]), int_bits(5 + 3 * n));
    }
}

#[test]
fn a_branch_with_nothing_after_it_is_refused() {
    let int = |branch: JitOp| compile(&[JitOp::PushInt(1), branch]);
    assert!(int(JitOp::IfTrue(0)).is_none());
    assert!(int(JitOp::IfFalse(0)).is_none());
    let pair = |branch: JitOp| compile(&[JitOp::PushInt(1), JitOp::PushInt(2), branch]);
    assert!(pair(JitOp::IfLt(0)).is_none());
    assert!(pair(JitOp::IfGe(0)).is_none());
    let boxed = |branch: JitOp| compile(&[JitOp::PushIntValue(1), branch]);
    assert!(boxed(JitOp::IfTrueBoxed(0)).is_none());
    assert!(boxed(JitOp::IfFalseBoxed(0)).is_none());
    // With something after it, or nothing to fall through to.
    let ops = [JitOp::PushInt(1), JitOp::IfFalse(0), JitOp::PushInt(5), JitOp::ReturnValue];
    assert!(compile(&ops).is_some());
    assert!(compile(&[JitOp::Jump(0)]).is_some());
}
