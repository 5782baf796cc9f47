//! What is known of the representations of values.

use avm2_jit::flow::Rank;
use avm2_jit::lower::blocks::basic_block_leaders;
use avm2_jit::lower::JitOp;
use avm2_jit::typed::{infer_local_reprs, simulate_block, Repr};

#[test]
fn number_param_arith_is_numeric() {
    // f(x:Number): return x * x  — with local[1]=x seeded Numeric.
    let ops = vec![
        JitOp::GetLocalValue(1),
        JitOp::GetLocalValue(1),
        JitOp::ArithNum(11), // multiply
        JitOp::ReturnValueBoxed,
    ];
    let entry = vec![Repr::Boxed, Repr::Numeric]; // this, x
    let (_locals, pre) = simulate_block(&ops, entry).unwrap();
    // Before ArithNum, both operands must be Numeric.
    assert_eq!(pre[2], vec![Repr::Numeric, Repr::Numeric]);
}

#[test]
fn boxed_operand_taints_result() {
    // getslot (unknown) * number  → operands not both numeric.
    let ops = vec![
        JitOp::GetLocalValue(0), // this (Boxed)
        JitOp::GetSlot(0, false),       // Boxed
        JitOp::PushDouble(0),    // Numeric
        JitOp::ArithNum(11),
        JitOp::ReturnValueBoxed,
    ];
    let (_l, pre) = simulate_block(&ops, vec![Repr::Boxed]).unwrap();
    assert_eq!(pre[3], vec![Repr::Boxed, Repr::Number]); // getslot Boxed, pushdouble Number
}

#[test]
fn meet_across_branch_demotes() {
    // Two predecessors set local 1 to Numeric and Boxed respectively; the
    // merge must see Boxed.
    let ops = vec![
        JitOp::GetLocalValue(0), // 0
        JitOp::IfFalse(4),       // 1 -> block at 4 or fallthrough
        JitOp::PushDouble(0),    // 2
        JitOp::SetLocalValue(1), // 3: local1 = Numeric ; falls to 4
        JitOp::GetLocalValue(1), // 4 (merge): local1 read
        JitOp::ReturnValueBoxed, // 5
    ];
    // Seed local1 Boxed. Path through fallthrough sets Numeric; the taken
    // edge (2->4 skipped) keeps Boxed → merge is Boxed.
    let entry = infer_local_reprs(&ops, &[Repr::Boxed, Repr::Boxed]).unwrap();
    // The merge block starting at op 4: local 1 must be Boxed (not numeric on
    // the taken path).
    let leaders = basic_block_leaders(&ops).unwrap();
    let merge_bb = leaders.iter().position(|&l| l == 4).unwrap();
    assert_eq!(entry[merge_bb][1], Repr::Boxed);
}

#[test]
fn a_meet_keeps_the_unboxing_safe() {
    all_meet(&[
        (Repr::Number, Repr::Number, Repr::Number),
        (Repr::Number, Repr::Numeric, Repr::Numeric),
        (Repr::Numeric, Repr::Numeric, Repr::Numeric),
        (Repr::NumberBoxed, Repr::Number, Repr::NumberBoxed),
        (Repr::NumberBoxed, Repr::Numeric, Repr::NumberBoxed),
        (Repr::NumberBoxed, Repr::NumberBoxed, Repr::NumberBoxed),
        (Repr::Boxed, Repr::Number, Repr::Boxed),
        (Repr::Boxed, Repr::NumberBoxed, Repr::Boxed),
        (Repr::Boxed, Repr::Numeric, Repr::Boxed),
    ]);
}

fn all_meet(pairs: &[(Repr, Repr, Repr)]) {
    for &(a, b, met) in pairs {
        assert_eq!(a.meet(b), met);
        assert_eq!(b.meet(a), met);
    }
}

#[test]
fn a_load_that_may_be_boxed_on_one_way_is_so_at_the_merge() {
    let ops = vec![
        JitOp::GetLocalValue(0), // 0
        JitOp::IfFalseBoxed(5),  // 1
        JitOp::PushIntValue(8),  // 2
        JitOp::DmLoadF(8),       // 3
        JitOp::SetLocalValue(1), // 4: local 1 may be boxed on the heap
        JitOp::GetLocalValue(1), // 5: the merge
        JitOp::ReturnValueBoxed, // 6
    ];
    let entry = infer_local_reprs(&ops, &[Repr::Boxed, Repr::Numeric]).unwrap();
    let leaders = basic_block_leaders(&ops).unwrap();
    let merge = leaders.iter().position(|&l| l == 5).unwrap();
    assert_eq!(entry[merge][1], Repr::NumberBoxed);
    // A block that takes more than there is.
    assert_eq!(infer_local_reprs(&[JitOp::Pop, JitOp::ReturnVoidBoxed(0)], &[]), None);
}
