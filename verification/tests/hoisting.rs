//! Slot reads that are moved out of loops.

use avm2_jit::hoist::hoist_pass;
use avm2_jit::lower::JitOp;

#[test]
fn hoists_invariant_getslot_out_of_canonical_loop() {
    // E: Jump(C); B: local1.slot2 -> local4; i++; C: i < n?; IfTrue(B); ret
    let mut ops = vec![
        JitOp::Jump(6),                // 0: E -> C
        JitOp::GetLocalValue(1),       // 1: B (receiver)
        JitOp::GetSlot(2, false),             // 2:   null-safe
        JitOp::SetLocalValue(4),       // 3
        JitOp::IncDecLocalIValue(3, true), // 4: i++
        JitOp::Nop,                    // 5
        JitOp::GetLocalValue(3),       // 6: C
        JitOp::IfTrueBoxed(1),         // 7: backedge -> B
        JitOp::ReturnVoidBoxed(0),     // 8
    ];
    let used = hoist_pass(&mut ops, &[2], 10, 512);
    assert_eq!(used, 1);
    // Preheader before old E: recv; GetSlot; SetLocal(10).
    assert_eq!(
        &ops[0..3],
        &[JitOp::GetLocalValue(1), JitOp::GetSlot(2, false), JitOp::SetLocalValue(10)]
    );
    assert_eq!(ops[3], JitOp::Jump(9)); // C shifted by 3
    assert_eq!(ops[4], JitOp::GetLocalValue(10)); // in-loop pair rewritten
    assert_eq!(ops[5], JitOp::Nop);
    assert_eq!(ops[10], JitOp::IfTrueBoxed(4)); // backedge -> shifted B
}

#[test]
fn refuses_written_receiver_and_calls() {
    // Receiver reassigned in the loop → no hoist.
    let mut ops = vec![
        JitOp::Jump(5),
        JitOp::GetLocalValue(1),
        JitOp::GetSlot(2, false),
        JitOp::SetLocalValue(1), // clobbers the receiver
        JitOp::Nop,
        JitOp::GetLocalValue(3),
        JitOp::IfTrueBoxed(1),
        JitOp::ReturnVoidBoxed(0),
    ];
    assert_eq!(hoist_pass(&mut ops.clone(), &[2], 10, 512), 0);
    // A call in the body → no hoist (could write any slot).
    ops[3] = JitOp::CallMethod(1, 0, false);
    assert_eq!(hoist_pass(&mut ops, &[2], 10, 512), 0);
}

#[test]
fn refuses_non_null_safe_getslot() {
    let mut ops = vec![
        JitOp::Jump(5),
        JitOp::GetLocalValue(1),
        JitOp::GetSlot(2, false),
        JitOp::Pop,
        JitOp::Nop,
        JitOp::GetLocalValue(3),
        JitOp::IfTrueBoxed(1),
        JitOp::ReturnVoidBoxed(0),
    ];
    // Slot index NOT in the null-safe set → speculative read could throw.
    assert_eq!(hoist_pass(&mut ops, &[], 10, 512), 0);
}

#[test]
fn refuses_a_loop_whose_jump_is_branched_to() {
    // Op 1 branches to the jump into the loop, past whatever is put in front of it.
    let ops = vec![
        JitOp::GetLocalValue(0),
        JitOp::IfFalseBoxed(3),
        JitOp::Nop,
        JitOp::Jump(7),
        JitOp::GetLocalValue(1),
        JitOp::GetSlot(2, false),
        JitOp::Pop,
        JitOp::GetLocalValue(3),
        JitOp::IfTrueBoxed(4),
        JitOp::ReturnVoidBoxed(0),
    ];
    let mut same = ops.clone();
    assert_eq!(hoist_pass(&mut same, &[5], 10, 512), 0);
    assert_eq!(same, ops);
    // A branch to the op in front of the jump comes by the reads.
    let mut free = ops.clone();
    free[1] = JitOp::IfFalseBoxed(2);
    assert_eq!(hoist_pass(&mut free, &[5], 10, 512), 1);
    assert_eq!(free[1], JitOp::IfFalseBoxed(2));
    assert_eq!(free[5], JitOp::SetLocalValue(10));
    assert_eq!(free[6], JitOp::Jump(10));
    assert_eq!(free[7], JitOp::GetLocalValue(10));
}

#[test]
fn refuses_a_read_that_is_branched_into() {
    // Op 4 branches to the slot read, with another receiver on the stack.
    let ops = vec![
        JitOp::Jump(8),
        JitOp::GetLocalValue(4),
        JitOp::GetLocalValue(3),
        JitOp::Nop,
        JitOp::IfTrueBoxed(7),
        JitOp::Pop,
        JitOp::GetLocalValue(1),
        JitOp::GetSlot(2, false),
        JitOp::GetLocalValue(3),
        JitOp::IfTrueBoxed(1),
        JitOp::ReturnVoidBoxed(0),
    ];
    let mut same = ops.clone();
    assert_eq!(hoist_pass(&mut same, &[7], 10, 512), 0);
    assert_eq!(same, ops);
    // Where the branch goes to the receiver, the read is moved.
    let mut free = ops.clone();
    free[4] = JitOp::IfTrueBoxed(6);
    assert_eq!(hoist_pass(&mut free, &[7], 10, 512), 1);
}
