//! The parts of the host's helpers that work on plain values.
//!
//! A helper coerces its operands with the player's own rules, which may run code and throw,
//! and then computes. What it computes stands here; a coercion that threw is `None`.

use crate::lower::wasm::UNDEFINED_BITS;
use crate::translate::{GE, GT, LE, LT};
use vstd::prelude::*;

verus! {

// Integers.

/// The bits of `n` under `mask`, read as a signed number; `half` is the worth of the highest.
pub open spec fn signed_low(n: i32, mask: u32, half: int) -> int {
    let low = (n as u32) & mask;
    if low < half {
        low as int
    } else {
        low - 2 * half
    }
}

/// `sxi1`: bit 0, extended.
pub fn sxi1(n: i32) -> (r: i32)
    ensures
        r == signed_low(n, 1, 1),
        -1 <= r < 1,
        (n - r) % 2 == 0,
{
    let low: u32 = (n as u32) & 1;
    assert((n as u32) & 1 == (n as u32) % 2 && (n < 0 ==> n as u32 == n + 0x1_0000_0000))
        by (bit_vector);
    if low < 1 {
        low as i32
    } else {
        low as i32 - 2
    }
}

/// `sxi8`: the low eight bits, extended.
pub fn sxi8(n: i32) -> (r: i32)
    ensures
        r == signed_low(n, 0xff, 128),
        -128 <= r < 128,
        (n - r) % 256 == 0,
{
    let low: u32 = (n as u32) & 0xff;
    assert((n as u32) & 0xff == (n as u32) % 256 && (n < 0 ==> n as u32 == n + 0x1_0000_0000))
        by (bit_vector);
    if low < 128 {
        low as i32
    } else {
        low as i32 - 256
    }
}

/// `sxi16`: the low sixteen bits, extended.
pub fn sxi16(n: i32) -> (r: i32)
    ensures
        r == signed_low(n, 0xffff, 32768),
        -32768 <= r < 32768,
        (n - r) % 65536 == 0,
{
    let low: u32 = (n as u32) & 0xffff;
    assert((n as u32) & 0xffff == (n as u32) % 65536 && (n < 0 ==> n as u32 == n + 0x1_0000_0000))
        by (bit_vector);
    if low < 32768 {
        low as i32
    } else {
        low as i32 - 65536
    }
}

/// `bitand`; 0 if a coercion threw.
pub fn bit_and(v1: Option<i32>, v2: Option<i32>) -> (r: i32)
    ensures
        r == match (v1, v2) {
            (Some(x), Some(b)) => x & b,
            _ => 0,
        },
{
    match (v1, v2) {
        (Some(x), Some(b)) => x & b,
        _ => 0,
    }
}

/// `bitor`; 0 if a coercion threw.
pub fn bit_or(v1: Option<i32>, v2: Option<i32>) -> (r: i32)
    ensures
        r == match (v1, v2) {
            (Some(x), Some(b)) => x | b,
            _ => 0,
        },
{
    match (v1, v2) {
        (Some(x), Some(b)) => x | b,
        _ => 0,
    }
}

/// `bitxor`; 0 if a coercion threw.
pub fn bit_xor(v1: Option<i32>, v2: Option<i32>) -> (r: i32)
    ensures
        r == match (v1, v2) {
            (Some(x), Some(b)) => x ^ b,
            _ => 0,
        },
{
    match (v1, v2) {
        (Some(x), Some(b)) => x ^ b,
        _ => 0,
    }
}

/// `lshift`, by the low five bits of the second operand; 0 if a coercion threw.
pub fn lshift(v1: Option<i32>, v2: Option<u32>) -> (r: i32)
    ensures
        r == match (v1, v2) {
            (Some(x), Some(b)) => x << (b & 0x1F),
            _ => 0,
        },
{
    match (v1, v2) {
        (Some(x), Some(b)) => {
            assert(b & 0x1F < 32) by (bit_vector);
            x << (b & 0x1F)
        },
        _ => 0,
    }
}

/// `rshift`, by the low five bits of the second operand; 0 if a coercion threw.
pub fn rshift(v1: Option<i32>, v2: Option<u32>) -> (r: i32)
    ensures
        r == match (v1, v2) {
            (Some(x), Some(b)) => x >> (b & 0x1F),
            _ => 0,
        },
{
    match (v1, v2) {
        (Some(x), Some(b)) => {
            assert(b & 0x1F < 32) by (bit_vector);
            x >> (b & 0x1F)
        },
        _ => 0,
    }
}

/// `urshift`, by the low five bits of the second operand; 0 if a coercion threw.
pub fn urshift(v1: Option<u32>, v2: Option<u32>) -> (r: u32)
    ensures
        r == match (v1, v2) {
            (Some(x), Some(b)) => x >> (b & 0x1F),
            _ => 0,
        },
{
    match (v1, v2) {
        (Some(x), Some(b)) => {
            assert(b & 0x1F < 32) by (bit_vector);
            x >> (b & 0x1F)
        },
        _ => 0,
    }
}

/// The product of two ints, if it is an int. Else the operands are multiplied as numbers.
pub fn multiply(n1: i32, n2: i32) -> (r: Option<i32>)
    ensures
        match r {
            Some(p) => p == n1 * n2,
            None => n1 * n2 < i32::MIN || n1 * n2 > i32::MAX,
        },
{
    n1.checked_mul(n2)
}

/// The difference of two ints.
#[derive(Debug, Clone, Copy, PartialEq, Eq, Structural)]
pub enum Difference {
    /// An int.
    Int(i32),
    /// No int; it is converted to a number.
    Wide(i64),
}

/// The difference of two ints: an int if it is one.
pub fn subtract(n1: i32, n2: i32) -> (r: Difference)
    ensures
        match r {
            Difference::Int(d) => d == n1 - n2,
            Difference::Wide(d) => d == n1 - n2 && (d < i32::MIN || d > i32::MAX),
        },
{
    match n1.checked_sub(n2) {
        Some(d) => Difference::Int(d),
        None => Difference::Wide(n1 as i64 - n2 as i64),
    }
}

/// `equals`: false if the comparison threw.
pub fn equal(eq: Option<bool>) -> (r: bool)
    ensures
        r == (eq == Some(true)),
{
    matches!(eq, Some(true))
}

/// The helper compares its second operand with its first.
pub open spec fn is_swapped(kind: u32) -> bool {
    kind == LE || kind == GT
}

/// The result of an ordering helper, by whether one operand is less than the other, which is
/// undecided if one is not a number or the comparison threw. `<=` and `>=` hold if the operands
/// are known not to be less the other way round.
pub open spec fn ordering(kind: u32, less: Option<bool>) -> bool {
    if kind == LE || kind == GE {
        less == Some(false)
    } else {
        less == Some(true)
    }
}

/// Whether the ordering helper `kind` asks if its second operand is less than its first.
pub fn compares_swapped(kind: u32) -> (r: bool)
    requires
        LT <= kind <= GE,
    ensures
        r == is_swapped(kind),
{
    kind == LE || kind == GT
}

/// The result of the ordering helper `kind`.
pub fn compared(kind: u32, less: Option<bool>) -> (r: bool)
    requires
        LT <= kind <= GE,
    ensures
        r == ordering(kind, less),
{
    if kind == LE || kind == GE {
        matches!(less, Some(false))
    } else {
        matches!(less, Some(true))
    }
}

// Domain memory.

/// Whether `n` bytes from `address` on lie in a memory of `len` bytes.
pub fn in_bounds(address: usize, n: usize, len: usize) -> (r: bool)
    ensures
        r == (address + n <= len),
{
    n <= len && address <= len - n
}

/// The bytes that a store of width 1, 2 or 4 writes: the low ones of the value, the lowest
/// first.
pub open spec fn stored(value: i32, width: nat) -> Seq<u8> {
    vstd::bytes::spec_u32_to_le_bytes(value as u32).take(width as int)
}

/// The bytes that a store of `width` bytes writes.
pub fn store_bytes(value: i32, width: usize) -> (r: Vec<u8>)
    requires
        width == 1 || width == 2 || width == 4,
    ensures
        r@ == stored(value, width as nat),
{
    proof {
        vstd::bytes::lemma_auto_spec_u32_to_from_le_bytes();
    }
    let mut r: Vec<u8> = vstd::bytes::u32_to_le_bytes(value as u32);
    r.truncate(width);
    assert(r@ =~= stored(value, width as nat));
    r
}

/// The int that a load reads: unsigned but for four bytes, the lowest first.
pub open spec fn loaded(bytes: Seq<u8>) -> i32 {
    if bytes.len() == 1 {
        bytes[0] as i32
    } else if bytes.len() == 2 {
        vstd::bytes::spec_u16_from_le_bytes(bytes) as i32
    } else {
        vstd::bytes::spec_u32_from_le_bytes(bytes) as i32
    }
}

/// The int that a load of these bytes reads.
pub fn load_bytes(bytes: &[u8]) -> (r: i32)
    requires
        bytes@.len() == 1 || bytes@.len() == 2 || bytes@.len() == 4,
    ensures
        r == loaded(bytes@),
{
    if bytes.len() == 1 {
        bytes[0] as i32
    } else if bytes.len() == 2 {
        vstd::bytes::u16_from_le_bytes(bytes) as i32
    } else {
        vstd::bytes::u32_from_le_bytes(bytes) as i32
    }
}

/// A load of four bytes reads what a store of four bytes wrote.
pub proof fn load_reads_the_store(value: i32)
    ensures
        loaded(stored(value, 4)) == value,
{
    vstd::bytes::lemma_auto_spec_u32_to_from_le_bytes();
    assert(stored(value, 4) =~= vstd::bytes::spec_u32_to_le_bytes(value as u32));
    assert((value as u32) as i32 == value) by (bit_vector);
}

// Tables.

/// The word at `k`, `undefined` if there is none.
pub fn table_word(table: &[u64], k: i64) -> (r: u64)
    ensures
        r == if 0 <= k < table@.len() {
            table@[k as int]
        } else {
            UNDEFINED_BITS
        },
{
    if k >= 0 && (k as u64) < table.len() as u64 {
        table[k as usize]
    } else {
        UNDEFINED_BITS
    }
}

// Arguments of calls.

/// The arguments of calls that are being made, pushed the last one first.
pub struct CallArgs {
    words: Vec<u64>,
}

impl View for CallArgs {
    type V = Seq<u64>;

    closed spec fn view(&self) -> Seq<u64> {
        self.words@
    }
}

/// How many of `len` arguments a call with `argc` takes.
pub open spec fn taken(len: nat, argc: i64) -> nat {
    if 0 <= argc <= len {
        argc as nat
    } else {
        len
    }
}

impl CallArgs {
    /// No arguments.
    pub fn new() -> (r: CallArgs)
        ensures
            r@ == Seq::<u64>::empty(),
    {
        CallArgs { words: Vec::new() }
    }

    /// `pca`: one more argument.
    pub fn push_call_arg(&mut self, word: u64)
        ensures
            final(self)@ == old(self)@.push(word),
    {
        self.words.push(word);
    }

    /// Takes the last `argc` arguments, all of them if there are not as many, and gives them
    /// in the order of the call.
    pub fn drain_call_args(&mut self, argc: i64) -> (r: Vec<u64>)
        ensures
            ({
                let n = taken(old(self)@.len(), argc);
                &&& r@ == old(self)@.skip(old(self)@.len() - n).reverse()
                &&& final(self)@ == old(self)@.take(old(self)@.len() - n)
            }),
    {
        let len: usize = self.words.len();
        let n: usize = if argc >= 0 && argc as u64 <= len as u64 {
            argc as usize
        } else {
            len
        };
        let ghost before = self.words@;
        let mut r: Vec<u64> = Vec::new();
        let mut i: usize = 0;
        while i < n
            invariant
                i <= n <= before.len(),
                self.words@ =~= before.take(before.len() - i),
                r@ =~= Seq::new(i as nat, |k: int| before[before.len() - 1 - k]),
            decreases n - i,
        {
            if let Some(word) = self.words.pop() {
                r.push(word);
            }
            i = i + 1;
        }
        assert(r@ =~= before.skip(before.len() - n).reverse());
        r
    }
}

/// A call takes the arguments that were pushed for it, in order, and leaves those of the calls
/// around it.
pub proof fn calls_take_their_own(around: Seq<u64>, args: Seq<u64>)
    requires
        args.len() <= i64::MAX,
    ensures
        ({
            let all = around + args.reverse();
            let n = taken(all.len(), args.len() as i64);
            &&& all.skip(all.len() - n).reverse() == args
            &&& all.take(all.len() - n) == around
        }),
{
    let all = around + args.reverse();
    assert(all.skip(all.len() - args.len()).reverse() =~= args);
    assert(all.take(all.len() - args.len()) =~= around);
}

// Errors.

/// The error that was thrown and not yet handled, and the value that was caught last.
pub struct Errors {
    pub pending: Option<u64>,
    pub caught: u64,
}

impl Errors {
    /// Nothing thrown.
    pub fn new() -> (r: Errors)
        ensures
            r == (Errors { pending: None, caught: 0 }),
    {
        Errors { pending: None, caught: 0 }
    }

    /// An error was thrown; the helper returns `undefined`.
    pub fn stash_pending_error(&mut self, error: u64) -> (r: u64)
        ensures
            *final(self) == (Errors { pending: Some(error), ..*old(self) }),
            r == UNDEFINED_BITS,
    {
        self.pending = Some(error);
        UNDEFINED_BITS
    }

    /// `perr`: 1 if an error is pending.
    pub fn pending_error(&self) -> (r: i32)
        ensures
            r == if self.pending is Some {
                1i32
            } else {
                0i32
            },
    {
        if self.pending.is_some() {
            1
        } else {
            0
        }
    }

    /// Takes the pending error.
    pub fn take_pending_error(&mut self) -> (r: Option<u64>)
        ensures
            r == old(self).pending,
            *final(self) == (Errors { pending: None, ..*old(self) }),
    {
        let r = self.pending;
        self.pending = None;
        r
    }

    /// The handlers have been searched for the error that was taken: the op of the handler and
    /// the value caught, or the error that goes on. Gives the op to go on at, -1 if there is
    /// none.
    pub fn dispatched(&mut self, found: Result<(u32, u64), u64>) -> (r: i64)
        ensures
            match found {
                Ok((target, caught)) => r == target && *final(self) == (Errors {
                    caught,
                    ..*old(self)
                }),
                Err(error) => r == -1 && *final(self) == (Errors {
                    pending: Some(error),
                    ..*old(self)
                }),
            },
    {
        match found {
            Ok((target, caught)) => {
                self.caught = caught;
                target as i64
            },
            Err(error) => {
                self.pending = Some(error);
                -1
            },
        }
    }

    /// The value that was caught last.
    pub fn pop_caught(&self) -> (r: u64)
        ensures
            r == self.caught,
    {
        self.caught
    }
}

} // verus!
