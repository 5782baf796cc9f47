//! The compiler's state: what it compiles, declines, counts and builds generations of.

use avm2_jit::backend::{
    all_params_directable, direct_target, heap_exhausted, Attempt, Ran, WasmJit, GEN_BATCH,
};
use avm2_jit::declines::Declines;
use avm2_jit::lower::wasm::Target;
use avm2_jit::method::{is_well_formed, Method};
use avm2_jit::translate::{ClassKind, Op};
use avm2_jit::verify::{Difference, Verdict};

fn method(key: u64, ops: Vec<Op>) -> Method {
    Method {
        key,
        num_locals: 3,
        ops,
        number_slots: Vec::new(),
        null_safe_getslots: Vec::new(),
        exceptions: Vec::new(),
        resolved: true,
        params: vec![Some(ClassKind::Int), Some(ClassKind::Int)],
        return_type: 0,
        script_globals: Vec::new(),
        bound: None,
    }
}

/// Returns the sum of its two parameters.
fn sum(key: u64) -> Method {
    let ops = vec![
        Op::GetLocal { index: 1 },
        Op::GetLocal { index: 2 },
        Op::AddI,
        Op::ReturnValue { return_type: None },
    ];
    let m = method(key, ops);
    assert!(is_well_formed(&m));
    m
}

#[test]
fn methods_with_an_unknown_signature_are_declined() {
    let mut jit = WasmJit::new();
    let mut m = sum(3);
    m.resolved = false;
    assert_eq!(jit.try_run(&m, &[], 0), Attempt::Decline);
    assert_eq!(jit.decline_histogram(), vec![("<compile>".to_string(), 1)]);
    // The first op without a boxed op is named before that.
    let mut m = unsupported(4, "Odd");
    m.resolved = false;
    assert_eq!(jit.try_run(&m, &[], 0), Attempt::Decline);
    assert_eq!(
        jit.decline_histogram(),
        vec![("<compile>".to_string(), 1), ("Odd".to_string(), 1)]
    );
}

/// Calls a method of its first local.
fn caller(key: u64) -> Method {
    let ops = vec![
        Op::GetLocal { index: 0 },
        Op::CallMethod { index: 5, num_args: 0, push_return_value: true },
        Op::ReturnValue { return_type: None },
    ];
    method(key, ops)
}

fn unsupported(key: u64, name: &str) -> Method {
    let ops = vec![
        Op::Other { name: name.to_string() },
        Op::ReturnVoid { return_type: None, null_bits: 7 },
    ];
    method(key, ops)
}

fn web_target() -> Target {
    Target { web: true, ..Target::native() }
}

#[test]
fn a_method_is_compiled_once() {
    let mut jit = WasmJit::new();
    let first = jit.try_run(&sum(0x10), &[], 0);
    assert!(matches!(first, Attempt::Run { method: 0, direct: false, verify: false }));
    // Another method, then the first one again, which is not compiled anew.
    assert!(matches!(jit.try_run(&sum(0x20), &[], 0), Attempt::Run { method: 1, .. }));
    assert_eq!(jit.try_run(&sum(0x10), &[], 0), first);
    assert_eq!(jit.method(0).bytes, jit.method(1).bytes);
    assert_eq!(jit.method(0).num_locals, 3);
    assert_eq!(jit.method(0).param_count, 2);
}

#[test]
fn keys_that_share_a_cache_place_are_kept_apart() {
    // Both keys have the same bits 4 to 15.
    let (a, b) = (0x10, 0x1_0010);
    let mut jit = WasmJit::new();
    assert_eq!(jit.compiled(&sum(a), &[], 0), Some(0));
    assert_eq!(jit.compiled(&sum(b), &[], 0), Some(1));
    assert_eq!(jit.compiled(&sum(a), &[], 0), Some(0));
    assert_eq!(jit.compiled(&sum(b), &[], 0), Some(1));
}

#[test]
fn declines_are_remembered_and_counted() {
    let mut jit = WasmJit::new();
    for (key, name) in [(1, "Zed"), (2, "Abc"), (3, "Zed"), (4, "Mid")] {
        assert_eq!(jit.try_run(&unsupported(key, name), &[], 0), Attempt::Decline);
    }
    // Met again: nothing is counted twice.
    assert_eq!(jit.try_run(&unsupported(1, "Zed"), &[], 0), Attempt::Decline);
    let histogram = jit.decline_histogram();
    assert_eq!(
        histogram,
        vec![("Zed".to_string(), 2), ("Abc".to_string(), 1), ("Mid".to_string(), 1)]
    );
}

#[test]
fn a_report_is_made_once_for_each_news() {
    let mut jit = WasmJit::new();
    assert_eq!(jit.decline_report(), None);
    jit.compiled(&unsupported(1, "Zed"), &[], 0);
    assert_eq!(jit.decline_report(), Some((1, vec![("Zed".to_string(), 1)])));
    assert_eq!(jit.decline_report(), None);
    // The same reason again is no news.
    jit.compiled(&unsupported(2, "Zed"), &[], 0);
    assert_eq!(jit.decline_report(), None);
    jit.compiled(&unsupported(3, "Abc"), &[], 0);
    assert_eq!(
        jit.decline_report(),
        Some((3, vec![("Zed".to_string(), 2), ("Abc".to_string(), 1)]))
    );
    // Two hundred declined methods are.
    for key in 4..200 {
        jit.compiled(&unsupported(key, "Abc"), &[], 0);
    }
    assert_eq!(jit.decline_report(), None);
    jit.compiled(&unsupported(200, "Abc"), &[], 0);
    assert_eq!(
        jit.decline_report(),
        Some((200, vec![("Abc".to_string(), 198), ("Zed".to_string(), 2)]))
    );
}

#[test]
fn an_uninitialized_script_is_waited_for() {
    let ops = vec![
        Op::GetScriptGlobals { script: 9 },
        Op::ReturnValue { return_type: None },
    ];
    let mut m = method(0x30, ops);
    m.script_globals = vec![0xABC];
    let mut jit = WasmJit::new();
    assert_eq!(jit.compiled(&m, &[false], 0), None);
    assert!(jit.decline_histogram().is_empty());
    // The script has been initialized meanwhile.
    assert_eq!(jit.compiled(&m, &[true], 0), Some(0));
}

#[test]
fn no_memory_no_compiling_in_the_browser() {
    assert!(!heap_exhausted(65536 - 4096 - 1));
    assert!(heap_exhausted(65536 - 4096));
    let full = 65000;
    let mut native = WasmJit::new();
    assert_eq!(native.compiled(&sum(1), &[], full), Some(0));
    let mut web = WasmJit::for_target(web_target());
    assert_eq!(web.compiled(&sum(1), &[], full), None);
    // It is remembered, without a reason.
    assert_eq!(web.compiled(&sum(1), &[], 0), None);
    assert!(web.decline_histogram().is_empty());
    assert_eq!(web.compiled(&sum(2), &[], 0), Some(0));
}

#[test]
fn runs_are_counted_by_what_they_give() {
    let mut jit = WasmJit::new();
    assert_eq!(jit.ran(None, false), Ran::Interpret);
    assert_eq!(jit.hits(), 0);
    assert_eq!(jit.ran(Some(5), true), Ran::Throw);
    assert_eq!(jit.hits(), 1);
    assert_eq!(jit.last_result(), 0);
    assert_eq!(jit.ran(Some(5), false), Ran::Value(5));
    assert_eq!(jit.hits(), 2);
    assert_eq!(jit.last_result(), 5);
    // Every result is kept, checked or not; what is thrown is none.
    assert!(jit.produced(5));
    assert!(!jit.produced(6));
    let mut jit = jit.with_verify(true);
    assert_eq!(jit.ran(Some(6), false), Ran::Value(6));
    assert_eq!(jit.ran(Some(7), true), Ran::Throw);
    assert!(jit.produced(5));
    assert!(jit.produced(6));
    assert!(!jit.produced(7));
}

#[test]
fn every_run_is_checked_up_to_a_limit() {
    let mut jit = WasmJit::new().with_verify(true);
    assert!(matches!(jit.try_run(&sum(1), &[], 0), Attempt::Run { verify: true, .. }));
    assert!(matches!(jit.try_run(&caller(2), &[], 0), Attempt::Run { verify: true, .. }));
    // While the interpreter runs for a check, it runs everything.
    jit.interpreting(true);
    assert_eq!(jit.try_run(&caller(2), &[], 0), Attempt::Decline);
    jit.interpreting(false);
    // A method is checked so often, and no more.
    for _ in 0..20_000 {
        jit.checking(2);
    }
    assert!(matches!(jit.try_run(&caller(2), &[], 0), Attempt::Run { verify: false, .. }));
    assert!(matches!(jit.try_run(&caller(3), &[], 0), Attempt::Run { verify: true, .. }));
}

#[test]
fn faults_are_counted() {
    let mut jit = WasmJit::new().with_verify(true);
    let fine = Verdict { result: false, slot: None, len: None, byte: None };
    assert_eq!(jit.checked(&fine, true), None);
    assert_eq!(jit.mismatches(), 0);
    let bad = Verdict { byte: Some((4, 1, 2)), ..fine };
    assert_eq!(jit.checked(&bad, true), Some(Difference::CallMemory));
    assert_eq!(jit.checked(&bad, false), Some(Difference::LeafMemory));
    assert_eq!(jit.mismatches(), 2);
}

#[test]
fn generations_take_what_was_compiled_since_the_last_one() {
    let mut jit = WasmJit::for_target(web_target());
    for key in 0..GEN_BATCH as u64 - 1 {
        jit.compiled(&sum(key), &[], 0);
    }
    assert!(!jit.generation_due());
    jit.compiled(&caller(1000), &[], 0);
    assert!(jit.generation_due());
    // For want of memory the methods stay for later.
    assert!(jit.build_generation(65000).is_none());
    assert!(jit.generation_due());
    let (bytes, manifest, keys) = jit.build_generation(0).expect("builds");
    assert_eq!(&bytes[0..4], b"\0asm");
    assert!(manifest.has_call);
    assert_eq!(keys.len(), GEN_BATCH);
    assert_eq!(keys[0], 0);
    assert_eq!(keys[GEN_BATCH - 1], 1000);
    assert!(!jit.generation_due());
    // What the members' own modules were made from is let go of, and nothing else.
    let own = jit.method(0).bytes.clone();
    jit.generation_installed(&keys);
    assert!(jit.method(0).ops.is_empty());
    assert_eq!(jit.method(0).bytes, own);
    // No members, no generation.
    assert!(jit.build_generation(0).is_none());
}

#[test]
fn direct_calls_need_a_frame_with_all_parameters() {
    assert!(all_params_directable(false, &[true, true], 4));
    assert!(!all_params_directable(true, &[true], 4));
    assert!(!all_params_directable(false, &[true, false], 4));
    assert!(!all_params_directable(false, &[true, true, true], 2));
    let mut jit = WasmJit::new();
    jit.compiled(&sum(1), &[], 0);
    let c = jit.method(0);
    assert_eq!(direct_target(c, true, 2, Some((7, 3)), 64), Some((7, 64, 3)));
    assert_eq!(direct_target(c, true, 2, None, 64), None);
    assert_eq!(direct_target(c, true, 1, Some((7, 3)), 64), None);
    assert_eq!(direct_target(c, false, 2, Some((7, 3)), 64), None);
    // A local beyond the parameters, which such a call would not set.
    let mut wide = sum(2);
    wide.num_locals = 4;
    assert_eq!(jit.compiled(&wide, &[], 0), Some(1));
    assert_eq!(direct_target(jit.method(1), true, 2, Some((7, 3)), 64), None);
}

#[test]
fn the_histogram_is_worth_a_line_on_news() {
    let mut declines = Declines::new();
    assert!(declines.record_decline("a".to_string()));
    assert!(!declines.record_decline("a".to_string()));
    assert!(declines.record_decline("b".to_string()));
    for _ in 3..199 {
        assert!(!declines.record_decline("a".to_string()));
    }
    assert_eq!(declines.total(), 199);
    // The two hundredth.
    assert!(declines.record_decline("a".to_string()));
    assert_eq!(declines.decline_histogram(), vec![("a".to_string(), 199), ("b".to_string(), 1)]);
}
