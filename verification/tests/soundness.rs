//! Which methods may run on raw ints.

use avm2_jit::analysis::int_sound;
use avm2_jit::lower::JitOp;

// sum(n:int): pure-int loop reading an int param — sound.
fn sum_ops() -> Vec<JitOp> {
    vec![
        JitOp::GetLocal(0),  // 0: this
        JitOp::Pop,          // 1: pushscope
        JitOp::PushInt(0),   // 2
        JitOp::SetLocal(2),  // 3: s=0
        JitOp::PushInt(0),   // 4
        JitOp::SetLocal(3),  // 5: i=0
        JitOp::Jump(12),     // 6
        JitOp::GetLocal(2),  // 7
        JitOp::GetLocal(3),  // 8
        JitOp::AddI,         // 9
        JitOp::SetLocal(2),  // 10: s+=i
        JitOp::IncLocalI(3), // 11: i++
        JitOp::GetLocal(3),  // 12
        JitOp::GetLocal(1),  // 13: n
        JitOp::LessThan,     // 14
        JitOp::IfTrue(7),    // 15
        JitOp::GetLocal(2),  // 16
        JitOp::ReturnValue,  // 17
    ]
}

#[test]
fn sound_when_param_is_int() {
    // locals: 0=this(false), 1=n(int:true), 2=s, 3=i.
    let seed = [false, true, false, false];
    assert!(int_sound(&sum_ops(), &seed));
}

#[test]
fn unsound_when_param_is_not_int() {
    // n is a Number/Object (false): `getlocal1; lessthan` uses a non-int.
    let seed = [false, false, false, false];
    assert!(!int_sound(&sum_ops(), &seed));
}

#[test]
fn dropping_a_non_int_is_fine() {
    // getlocal0 (this, non-int); pushscope (pop); pushint 1; returnvalue.
    let ops = [JitOp::GetLocal(0), JitOp::Pop, JitOp::PushInt(1), JitOp::ReturnValue];
    assert!(int_sound(&ops, &[false]));
}

#[test]
fn returning_a_non_int_local_is_unsound() {
    let ops = [JitOp::GetLocal(0), JitOp::ReturnValue];
    assert!(!int_sound(&ops, &[false]));
    assert!(int_sound(&ops, &[true]));
}

#[test]
fn ops_of_other_models_are_not_sound_whatever_they_hold() {
    let ops = [JitOp::CallMethod(0, u32::MAX, true), JitOp::ReturnValue];
    assert!(!int_sound(&ops, &[true]));
    assert!(!int_sound(&[JitOp::CallHelper3(9, 0), JitOp::ReturnValue], &[]));
}
