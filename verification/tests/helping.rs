//! The computing parts of the host's helpers.

use avm2_jit::helpers::{
    bit_and, bit_or, bit_xor, compared, compares_swapped, equal, in_bounds, load_bytes, lshift,
    multiply, rshift, store_bytes, subtract, sxi1, sxi16, sxi8, table_word, urshift, CallArgs,
    Difference, Errors,
};
use avm2_jit::lower::wasm::UNDEFINED_BITS;
use avm2_jit::translate::{GE, GT, LE, LT};

#[test]
fn sign_extensions() {
    assert_eq!((sxi1(0), sxi1(1), sxi1(2), sxi1(-1)), (0, -1, 0, -1));
    assert_eq!((sxi8(127), sxi8(128), sxi8(0x1ff), sxi8(-128)), (127, -128, -1, -128));
    assert_eq!((sxi16(32767), sxi16(32768), sxi16(0x1_ffff)), (32767, -32768, -1));
}

#[test]
fn bitwise_operations() {
    assert_eq!(bit_and(Some(0b1100), Some(0b1010)), 0b1000);
    assert_eq!(bit_or(Some(0b1100), Some(0b1010)), 0b1110);
    assert_eq!(bit_xor(Some(0b1100), Some(0b1010)), 0b0110);
    assert_eq!(bit_xor(Some(5), None), 0);
    // Shifts take five bits of the count.
    assert_eq!(lshift(Some(1), Some(33)), 2);
    assert_eq!(rshift(Some(-8), Some(1)), -4);
    assert_eq!(rshift(Some(-8), Some(32)), -8);
    assert_eq!(urshift(Some(0xffff_fff8), Some(1)), 0x7fff_fffc);
    assert_eq!(lshift(None, Some(1)), 0);
}

#[test]
fn arithmetic_leaves_the_ints_where_it_has_to() {
    assert_eq!(multiply(-3, 7), Some(-21));
    assert_eq!(multiply(i32::MAX, 2), None);
    assert_eq!(multiply(i32::MIN, -1), None);
    assert_eq!(subtract(3, 5), Difference::Int(-2));
    assert_eq!(subtract(i32::MIN, 1), Difference::Wide(i32::MIN as i64 - 1));
}

#[test]
fn comparisons_of_what_may_be_no_number() {
    assert!(equal(Some(true)));
    assert!(!equal(Some(false)));
    assert!(!equal(None));
    // `a <= b` asks whether `b < a`; undecided is no.
    assert!(compares_swapped(LE) && compares_swapped(GT));
    assert!(!compares_swapped(LT) && !compares_swapped(GE));
    assert!(compared(LE, Some(false)) && compared(GE, Some(false)));
    assert!(compared(LT, Some(true)) && compared(GT, Some(true)));
    for kind in [LT, LE, GT, GE] {
        assert!(!compared(kind, None));
    }
}

#[test]
fn loads_read_what_stores_wrote() {
    assert!(in_bounds(12, 4, 16));
    assert!(!in_bounds(13, 4, 16));
    assert!(!in_bounds(usize::MAX, 4, 16));
    assert_eq!(store_bytes(0x1234_5678, 4), vec![0x78, 0x56, 0x34, 0x12]);
    assert_eq!(store_bytes(0x1234_5678, 2), vec![0x78, 0x56]);
    assert_eq!(store_bytes(-1, 1), vec![0xff]);
    for v in [0, 1, -1, i32::MIN, i32::MAX] {
        assert_eq!(load_bytes(&store_bytes(v, 4)), v);
    }
    // Narrow loads are unsigned.
    assert_eq!(load_bytes(&[0xff]), 255);
    assert_eq!(load_bytes(&[0xfe, 0xff]), 0xfffe);
}

#[test]
fn tables_answer_undefined_where_they_end() {
    assert_eq!(table_word(&[5, 6], 1), 6);
    assert_eq!(table_word(&[5, 6], 2), UNDEFINED_BITS);
    assert_eq!(table_word(&[5, 6], -1), UNDEFINED_BITS);
}

#[test]
fn calls_take_their_own_arguments() {
    let mut args = CallArgs::new();
    // An outer call has pushed one argument; an inner one pushes two, the last first.
    args.push_call_arg(100);
    args.push_call_arg(3);
    args.push_call_arg(2);
    assert_eq!(args.drain_call_args(2), vec![2, 3]);
    assert_eq!(args.drain_call_args(1), vec![100]);
    assert_eq!(args.drain_call_args(5), Vec::<u64>::new());
}

#[test]
fn errors_are_pending_until_they_are_taken() {
    let mut errors = Errors::new();
    assert_eq!(errors.pending_error(), 0);
    assert_eq!(errors.stash_pending_error(77), UNDEFINED_BITS);
    assert_eq!(errors.pending_error(), 1);
    assert_eq!(errors.take_pending_error(), Some(77));
    assert_eq!(errors.take_pending_error(), None);
    // A handler was found: its op, and the value that it catches.
    assert_eq!(errors.dispatched(Ok((12, 77))), 12);
    assert_eq!(errors.pop_caught(), 77);
    assert_eq!(errors.pending_error(), 0);
    // None was found: the error goes on.
    assert_eq!(errors.dispatched(Err(78)), -1);
    assert_eq!(errors.take_pending_error(), Some(78));
}
