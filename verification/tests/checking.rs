//! The check of compiled code against the interpreter.

use avm2_jit::translate::Op;
use avm2_jit::verify::{
    capture, has_call, has_drifted, judge, rollback, Difference, Engine, Left, Phase, Verdict,
    Write,
};
use std::collections::BTreeMap;

fn map(entries: &[(u64, u64)]) -> BTreeMap<u64, u64> {
    let mut m = BTreeMap::new();
    for &(k, v) in entries {
        m.insert(k, v);
    }
    m
}

fn left(bytes: &[(u64, u64)], slots: &[(u64, u64)], len: u64) -> Left {
    Left { bytes: map(bytes), slots: map(slots), len }
}

fn object(address: u64) -> u64 {
    0xFFFD_0000_0000_0000 | address
}

#[test]
fn the_engines_take_turns() {
    let mut phase = Some(Phase::FirstCompiled);
    let mut order = Vec::new();
    while let Some(p) = phase {
        order.push(p.engine());
        phase = p.next();
    }
    assert_eq!(
        order,
        vec![Engine::Compiled, Engine::Interpreter, Engine::Compiled, Engine::Interpreter]
    );
}

#[test]
fn methods_that_make_calls() {
    assert!(has_call(&[Op::Nop, Op::Call { num_args: 0 }]));
    assert!(!has_call(&[Op::Nop, Op::AddI]));
    assert!(!has_call(&[]));
}

#[test]
fn a_capture_keeps_the_first_old_and_the_last_new_byte() {
    let log = [
        Write { addr: 10, old: vec![1, 2] },
        Write { addr: 11, old: vec![9, 3] },
    ];
    // What stands there now, of each write.
    let now = [vec![7, 8], vec![8, 6]];
    let mut pre = map(&[(12, 77)]);
    let fin = capture(&log, &now, &mut pre);
    assert_eq!(fin, map(&[(10, 7), (11, 8), (12, 6)]));
    // Byte 11 was 2 before the first write; byte 12 was known before.
    assert_eq!(pre, map(&[(10, 1), (11, 2), (12, 77)]));
}

#[test]
fn bytes_past_the_end_are_captured_as_zero() {
    let log = [Write { addr: 4, old: vec![1, 2] }];
    let mut pre = map(&[]);
    assert_eq!(capture(&log, &[vec![5]], &mut pre), map(&[(4, 5), (5, 0)]));
}

#[test]
fn a_rollback_restores_the_memory() {
    let before = [1u8, 2, 3, 4];
    let mut memory = before;
    let mut log = Vec::new();
    for (addr, bytes) in [(0usize, [9u8, 9]), (1, [8, 8]), (2, [7, 7])] {
        log.push(Write { addr: addr as u64, old: memory[addr..addr + 2].to_vec() });
        memory[addr..addr + 2].copy_from_slice(&bytes);
    }
    assert_eq!(memory, [9, 8, 7, 7]);
    for (addr, bytes) in rollback(&log) {
        memory[addr as usize..addr as usize + bytes.len()].copy_from_slice(&bytes);
    }
    assert_eq!(memory, before);
}

#[test]
fn what_both_engines_leave_is_no_fault() {
    let l = left(&[(3, 1)], &[(0, 5)], 16);
    let v = judge(&map(&[]), &map(&[]), &l, &l, &l, &l, 42, Some(42));
    assert_eq!(v, Verdict { result: false, slot: None, len: None, byte: None });
    assert_eq!(v.kind(true), None);
}

#[test]
fn what_the_engines_leave_differently_is_one() {
    let c = left(&[(3, 1), (8, 4)], &[(0, 5)], 16);
    let i = left(&[(3, 2)], &[(0, 6)], 32);
    let pre = map(&[(8, 4)]);
    let v = judge(&pre, &map(&[]), &c, &i, &c, &i, 1, Some(2));
    assert_eq!(
        v,
        Verdict { result: true, slot: Some((0, 5, 6)), len: Some((16, 32)), byte: Some((3, 1, 2)) }
    );
    // The gravest counts.
    assert_eq!(v.kind(true), Some(Difference::Result));
    assert_eq!(Verdict { result: false, ..v }.kind(true), Some(Difference::Slot));
    assert_eq!(Verdict { result: false, slot: None, ..v }.kind(true), Some(Difference::Len));
    let bytes = Verdict { result: false, slot: None, len: None, ..v };
    assert_eq!(bytes.kind(true), Some(Difference::CallMemory));
    assert_eq!(bytes.kind(false), Some(Difference::LeafMemory));
}

#[test]
fn what_an_engine_does_not_repeat_is_noise() {
    let c = left(&[(3, 1)], &[(0, 5)], 16);
    let c2 = left(&[(3, 2)], &[(0, 6)], 17);
    let i = left(&[(3, 9)], &[(0, 9)], 18);
    let v = judge(&map(&[]), &map(&[]), &c, &i, &c2, &i, 1, Some(1));
    assert_eq!(v.kind(true), None);
}

#[test]
fn objects_are_not_told_apart() {
    let c = left(&[], &[(0, object(1))], 0);
    let i = left(&[], &[(0, object(2))], 0);
    let v = judge(&map(&[]), &map(&[]), &c, &i, &c, &i, object(1), Some(object(2)));
    assert_eq!(v.kind(true), None);
    // An error where the other engine returns is a fault, whatever it returns.
    let v = judge(&map(&[]), &map(&[]), &c, &i, &c, &i, object(1), None);
    assert_eq!(v.kind(true), Some(Difference::Result));
}

#[test]
fn slots_that_drifted_are_restored() {
    let pre = map(&[(1, 5), (2, 6)]);
    let now = map(&[(1, 5), (2, 7), (3, 8)]);
    assert!(!has_drifted(&pre, &now, 1));
    assert!(has_drifted(&pre, &now, 2));
    assert!(!has_drifted(&pre, &now, 3));
}
