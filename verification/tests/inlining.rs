//! Callees that are put in place of their calls.

use avm2_jit::inline::{callee_inlinable, receiver_is_this, splice, ResultMode, MAX_INLINE_OPS};
use avm2_jit::lower::JitOp;

const UNDEF: u64 = 0xFFF8_0000_0000_0000;

#[test]
fn rejects_non_inlinable() {
    // A branch that targets the trailing return (index 2 = body_len) — rejected
    // (would merge with the result on the stack).
    assert!(callee_inlinable(&[
        JitOp::IfFalseBoxed(2),
        JitOp::Nop,
        JitOp::ReturnVoidBoxed(UNDEF)
    ])
    .is_none());
    // A branch that stays within the body IS allowed.
    assert!(callee_inlinable(&[
        JitOp::IfFalseBoxed(1),
        JitOp::Nop,
        JitOp::ReturnVoidBoxed(UNDEF)
    ])
    .is_some());
    // No trailing return.
    assert!(callee_inlinable(&[JitOp::GetLocalValue(0)]).is_none());
    // A nested call (still excluded).
    assert!(callee_inlinable(&[JitOp::CallMethod(0, 0, true), JitOp::ReturnValueBoxed]).is_none());
    // A multiname *read* IS now allowed (its `k` is remapped by the splice).
    assert!(callee_inlinable(&[JitOp::GetProperty(0), JitOp::ReturnValueBoxed]).is_some());
    // Ops with a caller-keyed per-run table are excluded: the splice does NOT
    // remap their `k`, so a callee-relative index would read the caller's table at
    // the wrong slot. `coerce` (class table) and `pushstring` (string table) —
    // like `getscriptglobals` (globals table).
    assert!(callee_inlinable(&[JitOp::Coerce(0), JitOp::ReturnValueBoxed]).is_none());
    assert!(callee_inlinable(&[JitOp::PushString(0), JitOp::ReturnValueBoxed]).is_none());
    assert!(callee_inlinable(&[JitOp::GetScriptGlobals(0), JitOp::ReturnValueBoxed]).is_none());
    // `coerces`/`coercei` (no side-table — stateless) stay inlinable.
    assert!(callee_inlinable(&[JitOp::CoerceString, JitOp::ReturnValueBoxed]).is_some());
    // Too big.
    let big: Vec<JitOp> = std::iter::repeat(JitOp::Nop)
        .take(MAX_INLINE_OPS + 1)
        .chain([JitOp::ReturnVoidBoxed(UNDEF)])
        .collect();
    assert!(callee_inlinable(&big).is_none());
}

#[test]
fn accepts_simple_callee() {
    // return local1 + local2  (boxed int add), single value return.
    let callee = [
        JitOp::GetLocalValue(1),
        JitOp::GetLocalValue(2),
        JitOp::AddIBoxed,
        JitOp::ReturnValueBoxed,
    ];
    assert_eq!(callee_inlinable(&callee), Some((3, true)));
}

#[test]
fn splice_void_callee_discards_and_shifts_targets() {
    // Caller: [GetLocalValue0, ConstructSuper(0)@1, Jump(4)@2, Nop@3, ReturnVoidBoxed@4]
    // Callee (super ctor): [GetLocalValue0, Pop, ReturnVoidBoxed]  (trivial).
    let caller = [
        JitOp::GetLocalValue(0),   // 0
        JitOp::ConstructSuper(0),  // 1  (the call, argc=0)
        JitOp::Jump(4),            // 2  → target 4 (after the call)
        JitOp::Nop,                // 3
        JitOp::ReturnVoidBoxed(UNDEF), // 4
    ];
    let callee = [JitOp::GetLocalValue(0), JitOp::Pop, JitOp::ReturnVoidBoxed(UNDEF)];
    // argc=0 → 1 SetLocalValue (receiver into base+0), then body (2 ops), no result.
    let out = splice(&caller, 1, &callee, 5, 0, 0, ResultMode::Discard).expect("inlinable");
    // repl = [SetLocalValue(5), GetLocalValue(5), Pop]  (3 ops replacing 1 → delta +2)
    assert_eq!(
        out,
        vec![
            JitOp::GetLocalValue(0),   // 0
            JitOp::SetLocalValue(5),   // 1: receiver → base+0 (=5)
            JitOp::GetLocalValue(5),   // 2: callee getlocal0 remapped
            JitOp::Pop,                // 3: callee pushscope→pop
            JitOp::Jump(6),            // 4: was Jump(4); target 4>1 → 4+2=6
            JitOp::Nop,                // 5
            JitOp::ReturnVoidBoxed(UNDEF), // 6
        ]
    );
}

#[test]
fn splice_remaps_callee_multinames() {
    // Callee: `return this.prop`  → getlocal0; getproperty(0); returnvalue.
    let caller = [JitOp::CallMethod(0, 0, true), JitOp::ReturnValueBoxed];
    let callee = [
        JitOp::GetLocalValue(0),
        JitOp::GetProperty(0),
        JitOp::ReturnValueBoxed,
    ];
    // local_base=5, mn_base=7 → the callee's GetProperty(0) becomes GetProperty(7).
    let out = splice(&caller, 0, &callee, 5, 7, 0, ResultMode::Push).expect("inlinable");
    assert_eq!(
        out,
        vec![
            JitOp::SetLocalValue(5), // receiver → base+0
            JitOp::GetLocalValue(5), // callee getlocal0 remapped
            JitOp::GetProperty(7),   // callee getproperty(0) → mn_base+0 = 7
            JitOp::ReturnValueBoxed, // caller's own return (value kept on stack)
        ]
    );
}

#[test]
fn splice_remaps_callee_branch_targets() {
    // Callee with an internal branch: body = [IfFalseBoxed(2), Nop, PushConst(9)],
    // return @3. The `IfFalseBoxed(2)` targets the callee's `PushConst` (index 2).
    let caller = [JitOp::CallMethod(0, 0, true), JitOp::ReturnValueBoxed];
    let callee = [
        JitOp::IfFalseBoxed(2),
        JitOp::Nop,
        JitOp::PushConst(9),
        JitOp::ReturnValueBoxed,
    ];
    // argc=0 → 1 arg-setup op → body_base = 0 + 1 = 1, so target 2 → 1 + 2 = 3.
    let out = splice(&caller, 0, &callee, 5, 0, 0, ResultMode::Push).expect("inlinable");
    assert_eq!(
        out,
        vec![
            JitOp::SetLocalValue(5),
            JitOp::IfFalseBoxed(3), // callee target 2 → body_base(1)+2 = 3 (the PushConst)
            JitOp::Nop,
            JitOp::PushConst(9),
            JitOp::ReturnValueBoxed, // caller's own return
        ]
    );
}

#[test]
fn receiver_is_this_pattern() {
    // this.m()  → getlocal0; callmethod(argc=0)
    let ops = [JitOp::GetLocalValue(0), JitOp::CallMethod(1, 0, true)];
    assert!(receiver_is_this(&ops, 1, 0));
    // this.m(local1, const)  → getlocal0; getlocal1; pushconst; call(argc=2)
    let ops = [
        JitOp::GetLocalValue(0),
        JitOp::GetLocalValue(1),
        JitOp::PushConst(0),
        JitOp::CallMethod(1, 2, true),
    ];
    assert!(receiver_is_this(&ops, 3, 2));
    // Receiver is NOT this (getlocal1 receiver).
    let ops = [JitOp::GetLocalValue(1), JitOp::CallMethod(1, 0, true)];
    assert!(!receiver_is_this(&ops, 1, 0));
    // A compound arg (AddIBoxed pops 2) → not the simple pattern.
    let ops = [
        JitOp::GetLocalValue(0),
        JitOp::GetLocalValue(1),
        JitOp::GetLocalValue(2),
        JitOp::AddIBoxed,
        JitOp::CallMethod(1, 1, true),
    ];
    assert!(!receiver_is_this(&ops, 4, 1));
}

#[test]
fn splice_value_callee_pushes_result_and_remaps_locals() {
    // Callee: return arg0 + arg1 → locals 1,2. argc=2 → receiver+2 args.
    let caller = [JitOp::CallMethod(0, 2, true), JitOp::ReturnValueBoxed];
    let callee = [
        JitOp::GetLocalValue(1),
        JitOp::GetLocalValue(2),
        JitOp::AddIBoxed,
        JitOp::ReturnValueBoxed,
    ];
    let out = splice(&caller, 0, &callee, 10, 0, 2, ResultMode::Push).expect("inlinable");
    // Arg-setup: SetLocalValue(12), SetLocalValue(11), SetLocalValue(10)
    // (arg1→base+2=12, arg0→base+1=11, receiver→base+0=10), then body remapped +10.
    assert_eq!(
        out,
        vec![
            JitOp::SetLocalValue(12),
            JitOp::SetLocalValue(11),
            JitOp::SetLocalValue(10),
            JitOp::GetLocalValue(11), // local1 remapped
            JitOp::GetLocalValue(12), // local2 remapped
            JitOp::AddIBoxed,
            // value stays on stack (Push), return dropped
            JitOp::ReturnValueBoxed, // caller's own return
        ]
    );
}
