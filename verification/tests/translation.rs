//! From verified code to the compiler's ops.

use avm2_jit::lower::vc;
use avm2_jit::lower::JitOp;
use avm2_jit::translate::{
    first_unsupported_boxed, script_table, translate, translate_boxed, Op,
};

#[test]
fn translates_numeric_subset() {
    let ops = [
        Op::GetLocal { index: 1 },
        Op::GetLocal { index: 2 },
        Op::AddI,
        Op::ReturnValue { return_type: None },
    ];
    assert_eq!(
        translate(&ops),
        Some(vec![
            JitOp::GetLocal(1),
            JitOp::GetLocal(2),
            JitOp::AddI,
            JitOp::ReturnValue,
        ])
    );
}

#[test]
fn branch_offsets_pass_through_as_indices() {
    let ops = [
        Op::GetLocal { index: 0 },
        Op::IfFalse { offset: 4 },
        Op::PushInt { value: 1 },
        Op::Jump { offset: 5 },
        Op::PushInt { value: 0 },
        Op::ReturnValue { return_type: None },
    ];
    let out = translate(&ops).expect("supported");
    assert_eq!(out[1], JitOp::IfFalse(4));
    assert_eq!(out[3], JitOp::Jump(5));
}

#[test]
fn bails_on_unsupported_op() {
    // `GetScopeObject` (scope access) is outside the supported subset.
    assert_eq!(translate(&[Op::GetScopeObject { index: 0 }]), None);
}

#[test]
fn decline_reason_names_the_first_unsupported_op() {
    // Supported prefix, then an unsupported op → its variant name.
    // (`CheckFilter` — E4X — isn't in the boxed subset.)
    let ops = [
        Op::GetLocal { index: 0 },
        Op::CheckFilter,
        Op::ReturnValue { return_type: None },
    ];
    assert_eq!(first_unsupported_boxed(&ops).as_deref(), Some("CheckFilter"));
    // Fully-supported boxed method → no reason (a decline would be `<compile>`).
    let ok = [Op::GetLocal { index: 0 }, Op::ReturnValue { return_type: None }];
    assert_eq!(first_unsupported_boxed(&ok), None);
}

#[test]
fn vcall_ops_translate_boxed() {
    // Gc-free vcall kinds map 1:1 (op indices stay aligned for branches).
    let ops = [
        Op::GetLocal { index: 0 },
        Op::PushScope,
        Op::GetLocal { index: 1 },
        Op::GetLocal { index: 2 },
        Op::NewArray { num_args: 2 },
        Op::TypeOf,
        Op::ReturnValue { return_type: None },
    ];
    let (out, switches) = translate_boxed(&ops, &[]).expect("boxed supported");
    assert!(switches.is_empty());
    assert_eq!(out[4], JitOp::VCall(vc::NEW_ARRAY, 0, 2, true));
    assert_eq!(out[5], JitOp::VCall(vc::TYPE_OF, 0, 0, true));
    // `newobject` spills PAIRS (2·argc); `construct` spills argc.
    let ops = [
        Op::NewObject { num_args: 3 },
        Op::Construct { num_args: 1 },
        Op::ReturnValue { return_type: None },
    ];
    let (out, _) = translate_boxed(&ops, &[]).expect("boxed supported");
    assert_eq!(out[0], JitOp::VCall(vc::NEW_OBJECT, 0, 6, true));
    assert_eq!(out[1], JitOp::VCall(vc::CONSTRUCT, 0, 1, true));
}

#[test]
fn translates_compare_and_prologue() {
    let ops = [
        Op::GetLocal { index: 0 },
        Op::PushScope,
        Op::GetLocal { index: 1 },
        Op::GetLocal { index: 2 },
        Op::LessThan,
        Op::IfTrue { offset: 6 },
        Op::ReturnValue { return_type: None },
    ];
    let out = translate(&ops).expect("supported");
    assert_eq!(out[1], JitOp::Pop); // pushscope
    assert_eq!(out[4], JitOp::LessThan);
    assert_eq!(out[5], JitOp::IfTrue(6));
}

#[test]
fn every_use_of_a_script_has_its_entry() {
    let ops = [
        Op::GetScriptGlobals { script: 9 },
        Op::PushInt { value: 4 },
        Op::GetScriptGlobals { script: 3 },
        Op::GetScriptGlobals { script: 9 },
    ];
    assert_eq!(script_table(&ops), vec![9, 3, 9]);
    assert!(script_table(&ops[1..2]).is_empty());
}
