//! Frames, instances and generations, and runs without an engine.

use avm2_jit::direct::{effect, eligible, Action, Ask, Run};
use avm2_jit::lower::wasm::UNDEFINED_BITS;
use avm2_jit::lower::{manifest, JitOp};
use avm2_jit::runner::{
    frame_base, host_functions, install_generation, leave, native_frame, run, Entry, HostFn, Pool,
    Web, MEM_BYTES, STRIDE,
};

fn int_bits(n: i32) -> u64 {
    0xFFFB_0000_0000_0000 | (n as u32 as u64)
}

#[test]
fn frames_hold_the_registers() {
    let bytes = native_frame(&[1, 0x0102_0304_0506_0708]).expect("fits");
    assert_eq!(bytes.len(), 16);
    assert_eq!(&bytes[0..8], &[1, 0, 0, 0, 0, 0, 0, 0]);
    assert_eq!(&bytes[8..16], &[8, 7, 6, 5, 4, 3, 2, 1]);
    assert!(native_frame(&vec![0; 8192]).is_some());
    assert!(native_frame(&vec![0; 8193]).is_none());
}

#[test]
fn frames_of_different_depths_do_not_overlap() {
    assert_eq!(frame_base(0, 512), Some(0));
    assert_eq!(frame_base(3, 512), Some(3 * STRIDE as u32));
    // One register more than a frame may have.
    assert_eq!(frame_base(3, 513), None);
    // The last depth, and the first that the memory has no room for.
    let depths = MEM_BYTES / STRIDE;
    assert_eq!(frame_base(depths - 1, 1), Some(((depths - 1) * STRIDE) as u32));
    assert_eq!(frame_base(depths, 1), None);
    assert_eq!(frame_base(depths, 0), Some(MEM_BYTES as u32));
}

#[test]
fn host_functions_come_in_the_order_of_the_imports() {
    let ops = [
        JitOp::GetLocalValue(0),
        JitOp::GetProperty(0),
        JitOp::CallHelper(2),
        JitOp::GetLocalValue(0),
        JitOp::CallHelper2(1),
        JitOp::ReturnValueBoxed,
    ];
    let m = manifest(&ops);
    let names: Vec<String> =
        host_functions(&m).expect("known").into_iter().map(HostFn::name).collect();
    assert_eq!(names, vec!["h0", "h1", "h2", "gp", "t0", "t1", "perr"]);
    // There is no helper of this number.
    let mut wild = manifest(&ops);
    wild.num_helpers = 29;
    assert!(host_functions(&wild).is_none());
}

#[test]
fn a_pool_hands_an_instance_out_once() {
    let mut pool: Pool<&str> = Pool::new();
    assert_eq!(pool.take(1), None);
    pool.give_back(1, "a");
    pool.give_back(1, "b");
    pool.give_back(2, "c");
    // A call from within a call finds another instance.
    assert_eq!(pool.take(1), Some("b"));
    assert_eq!(pool.take(1), Some("a"));
    assert_eq!(pool.take(1), None);
    assert_eq!(pool.take(2), Some("c"));
}

#[test]
fn a_method_is_built_then_entered() {
    let mut web = Web::new(vec![70, 71]);
    assert_eq!(run(&mut web, 5, 4), Entry::Build);
    assert_eq!(web.free_slot(), Some(71));
    web.install_instance(5, true);
    assert_eq!(run(&mut web, 5, 4), Entry::Own { slot: Some(71), state_ptr: 0 });
    // A call from within it has a frame of its own.
    assert_eq!(run(&mut web, 5, 4), Entry::Own { slot: Some(71), state_ptr: STRIDE as u32 });
    assert_eq!(run(&mut web, 5, 600), Entry::Decline);
    leave(&mut web);
    leave(&mut web);
    assert_eq!(run(&mut web, 5, 4), Entry::Own { slot: Some(71), state_ptr: 0 });
}

#[test]
fn without_a_slot_an_instance_is_entered_another_way() {
    let mut web = Web::new(Vec::new());
    assert_eq!(web.free_slot(), None);
    web.install_instance(5, true);
    assert_eq!(run(&mut web, 5, 1), Entry::Own { slot: None, state_ptr: 0 });
    // The slot could not be set: it is used up, and not used.
    let mut web = Web::new(vec![70]);
    web.install_instance(6, false);
    assert_eq!(run(&mut web, 6, 1), Entry::Own { slot: None, state_ptr: 0 });
    assert_eq!(web.free_slot(), None);
}

#[test]
fn a_generation_takes_its_members_over() {
    let mut web = Web::new(vec![70, 71, 72]);
    web.install_instance(5, true); // slot 72
    web.install_instance(6, true); // slot 71
    assert_eq!(install_generation(&mut web, &[5, 9], true), 0); // slot 70
    assert_eq!(
        run(&mut web, 9, 1),
        Entry::Member { generation: 0, member: 1, slot: Some(70), state_ptr: 0 }
    );
    leave(&mut web);
    assert_eq!(
        run(&mut web, 5, 1),
        Entry::Member { generation: 0, member: 0, slot: Some(70), state_ptr: 0 }
    );
    leave(&mut web);
    // The other method keeps its instance, and the slot of the dropped one is free again.
    assert_eq!(run(&mut web, 6, 1), Entry::Own { slot: Some(71), state_ptr: 0 });
    assert_eq!(web.free_slot(), Some(72));
}

#[test]
fn small_methods_run_without_an_engine() {
    let ops = [
        JitOp::GetLocalValue(0),
        JitOp::GetSlot(3, false),
        JitOp::GetLocalValue(1),
        JitOp::AddIBoxed,
        JitOp::ReturnValueBoxed,
    ];
    assert!(eligible(&ops));
    let regs = [0xFFFD_0000_0000_0010, int_bits(4)];
    let mut r = Run::new();
    assert_eq!(r.advance(&ops, &regs), Action::Ask(Ask::GetSlot(regs[0], 3)));
    assert_eq!(r.position(), 1);
    assert_eq!(r.reply(&ops, int_bits(5), false), None);
    // The sum is computed by the binary helper, as compiled code does it inline.
    match r.advance(&ops, &regs) {
        Action::Done(v) => assert_eq!(v, int_bits(9)),
        Action::Ask(Ask::Helper2(_, a, b)) => {
            assert_eq!((a, b), (int_bits(5), int_bits(4)));
            assert_eq!(r.reply(&ops, int_bits(9), false), None);
            assert_eq!(r.advance(&ops, &regs), Action::Done(int_bits(9)));
        }
        other => panic!("{other:?}"),
    }
}

#[test]
fn an_error_ends_such_a_run_with_undefined() {
    let ops = [JitOp::GetLocalValue(0), JitOp::GetProperty(2), JitOp::ReturnValueBoxed];
    let mut r = Run::new();
    assert_eq!(r.advance(&ops, &[8]), Action::Ask(Ask::GetProperty(8, 2)));
    assert_eq!(r.reply(&ops, 1, true), Some(UNDEFINED_BITS));
    // A frame without the local.
    let mut r = Run::new();
    assert_eq!(r.advance(&ops, &[]), Action::Missing);
    // The helper of a returned value heeds it too.
    let ops = [JitOp::GetLocalValue(0), JitOp::ReturnValueCoerced];
    let mut r = Run::new();
    assert!(matches!(r.advance(&ops, &[8]), Action::Ask(_)));
    assert_eq!(r.reply(&ops, 1, true), Some(UNDEFINED_BITS));
    let mut r = Run::new();
    assert!(matches!(r.advance(&ops, &[8]), Action::Ask(_)));
    assert_eq!(r.reply(&ops, 1, false), Some(1));
}

#[test]
fn methods_that_call_are_not_run_without_an_engine() {
    let end = [JitOp::ReturnVoidBoxed(3)];
    let returned = [JitOp::ReturnValueBoxed];
    let receiver = [JitOp::GetLocalValue(0)];
    assert!(eligible(&[&receiver[..], &returned[..]].concat()));
    for call in [JitOp::CallMethod(7, 0, true), JitOp::CallProperty(2, 0, true)] {
        assert!(!eligible(&[&receiver[..], &[call], &returned[..]].concat()));
    }
    for call in [JitOp::CallMethod(7, 0, false), JitOp::CallProperty(2, 0, false)] {
        assert!(!eligible(&[&receiver[..], &[call], &end[..]].concat()));
    }
}

#[test]
fn a_helper_with_three_operands_leaves_nothing() {
    let ops = [
        JitOp::GetLocalValue(0),
        JitOp::PushIntValue(1),
        JitOp::CallHelper3(2, 6),
        JitOp::ReturnVoidBoxed(3),
    ];
    assert!(eligible(&ops));
    let mut r = Run::new();
    assert_eq!(r.advance(&ops, &[8]), Action::Ask(Ask::Helper3(2, 8, int_bits(1), 6)));
    assert_eq!(r.reply(&ops, 55, false), None);
    assert_eq!(r.advance(&ops, &[8]), Action::Done(3));
}

#[test]
fn what_has_no_place_in_such_a_run() {
    // A branch, an op that writes a local, an operand too few, too many ops, no return.
    assert!(!eligible(&[JitOp::Jump(1), JitOp::ReturnVoidBoxed(0)]));
    assert!(!eligible(&[
        JitOp::PushIntValue(1),
        JitOp::SetLocalValue(0),
        JitOp::ReturnVoidBoxed(0)
    ]));
    assert!(!eligible(&[JitOp::Pop, JitOp::ReturnVoidBoxed(0)]));
    assert!(!eligible(&[JitOp::Nop; 11]));
    assert!(!eligible(&[JitOp::Nop]));
    assert!(!eligible(&[]));
}

#[test]
fn what_ops_of_such_a_run_take_and_give() {
    assert_eq!(effect(&JitOp::SwapValue), Some((2, 2)));
    assert_eq!(effect(&JitOp::CallHelper3(0, 1)), Some((2, 0)));
    for i in 0..40 {
        let runs = i <= 4 || (8..=15).contains(&i) || i == 26 || i == 27;
        assert_eq!(effect(&JitOp::CallHelper(i)), runs.then_some((1, 1)));
    }
    assert_eq!(effect(&JitOp::SetLocalValue(0)), None);
    assert_eq!(effect(&JitOp::IfTrueBoxed(0)), None);
    assert_eq!(effect(&JitOp::ReturnValueBoxed), None);
    assert_eq!(effect(&JitOp::CallMethod(1, 0, true)), None);
}
