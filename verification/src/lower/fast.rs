//! On ints, the inline paths of ops give what the host's helpers give.
//!
//! Many ops have a short path for operands whose words show that they are ints, and call a helper
//! for all others. The helper computes what [`crate::helpers`] says. What the inline paths do on
//! doubles is said in [`crate::lower::numeric`].

use crate::helpers;
use crate::lower::doubles;
use crate::lower::linear;
use crate::lower::machine;
use crate::lower::machine::{Machine, Node, Outcome, Val};
use crate::lower::manifest::{Layout, DM_STORE_KIND, TO_BOOLEAN};
use crate::lower::wasm::{
    Align, Binop, BlockTy, Cvtop, Instr, Relop, CANON_NAN, DM_BASE, SCRATCH, SCRATCH2, SCRATCH64,
    SCRATCH64_2, SCRATCH_F64, VALUE_BOOL_MARK, VALUE_INT_MARK, VALUE_TAG_MASK,
};
use vstd::prelude::*;

verus! {

/// The word of an int shows that it is one, and which.
pub proof fn lemma_int_words(v: i32)
    ensures
        linear::int_word(v) & VALUE_TAG_MASK == VALUE_INT_MARK,
        linear::int_word(v) as u32 as i32 == v,
        (v as u32 as u64) | VALUE_INT_MARK == linear::int_word(v),
{
    let mark: u64 = VALUE_INT_MARK;
    let mask: u64 = VALUE_TAG_MASK;
    assert((mark | (v as u32 as u64)) & mask == mark && (mark | (v as u32 as u64)) as u32 as i32
        == v && (v as u32 as u64) | mark == mark | (v as u32 as u64)) by (bit_vector)
        requires
            mark == 0xfffb_0000_0000_0000u64,
            mask == 0xffff_0000_0000_0000u64,
    ;
}

/// Whether the word is that of an int.
pub open spec fn shows_int(word: u64) -> bool {
    word & VALUE_TAG_MASK == VALUE_INT_MARK
}

pub proof fn lemma_test(local: u32, m: Machine, word: u64)
    requires
        local < m.locals.len(),
        m.locals[local as int] == Val::I64(word),
    ensures
        machine::run(machine::plains(linear::is_int(local)), m, 0) == Outcome::Next(
            m.put(0, machine::bit(shows_int(word))),
        ),
{
    reveal(linear::is_int);
    let code = linear::is_int(local);
    reveal_with_fuel(machine::forward, 6);
    let m1 = machine::run_instr(code[0], m)->Next_0;
    assert(m1.stack =~= m.stack.push(Val::I64(word)));
    let m2 = machine::run_instr(code[1], m1)->Next_0;
    assert(m2.stack =~= m.stack.push(Val::I64(word)).push(Val::I64(VALUE_TAG_MASK)));
    let m3 = machine::run_instr(code[2], m2)->Next_0;
    assert(m3.stack =~= m.stack.push(Val::I64(word & VALUE_TAG_MASK)));
    let m4 = machine::run_instr(code[3], m3)->Next_0;
    assert(m4.stack =~= m.stack.push(Val::I64(word & VALUE_TAG_MASK)).push(
        Val::I64(VALUE_INT_MARK),
    ));
    let m5 = machine::run_instr(code[4], m4)->Next_0;
    assert(m5 =~= m.put(0, machine::bit(shows_int(word))));
    assert(machine::forward(code, 0, m) == Some(m5));
    machine::lemma_forward(code, m, 0);
}

pub proof fn lemma_box(m: Machine, v: i32)
    requires
        m.stack.len() > 0,
        m.top(1) == Val::I32(v),
    ensures
        machine::run(machine::plains(linear::box_int()), m, 0) == Outcome::Next(
            m.put(1, Val::I64(linear::int_word(v))),
        ),
{
    reveal(linear::box_int);
    let code = linear::box_int();
    lemma_int_words(v);
    let low = m.stack.drop_last();
    reveal_with_fuel(machine::forward, 4);
    let m1 = machine::run_instr(code[0], m)->Next_0;
    assert(m1.stack =~= low.push(Val::I64(v as u32 as u64)));
    let m2 = machine::run_instr(code[1], m1)->Next_0;
    assert(m2.stack =~= low.push(Val::I64(v as u32 as u64)).push(Val::I64(VALUE_INT_MARK)));
    let m3 = machine::run_instr(code[2], m2)->Next_0;
    assert(m3 =~= m.put(1, Val::I64(linear::int_word(v))));
    assert(machine::forward(code, 0, m) == Some(m3));
    machine::lemma_forward(code, m, 0);
}

pub proof fn lemma_flat_pick(ty: BlockTy, yes: Seq<Node>, no: Seq<Node>)
    ensures
        machine::flat(seq![Node::Pick(ty, yes, no)]) == seq![Instr::If(ty)] + machine::flat(yes)
            + seq![Instr::Else] + machine::flat(no) + seq![Instr::End],
{
    machine::lemma_flat_one(Node::Pick(ty, yes, no));
    reveal_with_fuel(machine::flat_node, 2);
}

/// The arm that is taken leaves its value.
pub proof fn lemma_pick(ty: BlockTy, yes: Seq<Node>, no: Seq<Node>, m: Machine, cond: bool, m2: Machine)
    requires
        m.stack.len() >= 1,
        m.top(1) == machine::bit(cond),
        machine::run(
            if cond {
                yes
            } else {
                no
            },
            m.shed(1),
            0,
        ) == Outcome::Next(m2),
    ensures
        machine::run(seq![Node::Pick(ty, yes, no)], m, 0) == Outcome::Next(m2),
{
    machine::lemma_run_one(Node::Pick(ty, yes, no), m, 0);
    reveal_with_fuel(machine::run_node, 2);
}

/// Straight-line code in two parts.
pub proof fn lemma_parts(a: Seq<Instr>, b: Seq<Instr>, m: Machine)
    ensures
        machine::run(machine::plains(a + b), m, 0) == (match machine::run(
            machine::plains(a),
            m,
            0,
        ) {
            Outcome::Next(m2) => machine::run(machine::plains(b), m2, 0),
            o => o,
        }),
{
    assert(machine::plains(a + b) =~= machine::plains(a) + machine::plains(b));
    machine::lemma_run_concat(machine::plains(a), machine::plains(b), m, 0);
}

/// Two operands, into their scratch locals.
pub open spec fn stashed(m: Machine, below: Seq<Val>, a: u64, b: u64) -> Machine {
    Machine {
        locals: m.locals.update(SCRATCH64 as int, Val::I64(b)).update(
            SCRATCH64_2 as int,
            Val::I64(a),
        ),
        stack: below,
        ..m
    }
}

/// The operands are `a` and `b`, above `below`.
pub open spec fn operands(m: Machine, below: Seq<Val>, a: u64, b: u64) -> bool {
    m.locals.len() == 19 && m.stack == below.push(Val::I64(a)).push(Val::I64(b))
}

spec fn guard() -> Seq<Instr> {
    linear::stash2() + linear::is_int(SCRATCH64_2) + linear::is_int(SCRATCH64) + seq![
        Instr::Bin(Binop::I32And),
    ]
}

/// The test of both operands.
proof fn lemma_guard(m: Machine, below: Seq<Val>, a: u64, b: u64)
    requires
        operands(m, below, a, b),
    ensures
        machine::run(machine::plains(guard()), m, 0) == Outcome::Next(
            stashed(m, below, a, b).put(0, machine::bit(shows_int(a) && shows_int(b))),
        ),
{
    let stash = linear::stash2();
    let one = linear::is_int(SCRATCH64_2);
    let two = linear::is_int(SCRATCH64);
    let last = seq![Instr::Bin(Binop::I32And)];
    lemma_parts(stash + one + two, last, m);
    lemma_parts(stash + one, two, m);
    lemma_parts(stash, one, m);
    reveal_with_fuel(machine::forward, 3);
    let s1 = machine::run_instr(stash[0], m)->Next_0;
    assert(s1.stack =~= below.push(Val::I64(a)));
    let s2 = machine::run_instr(stash[1], s1)->Next_0;
    let base = stashed(m, below, a, b);
    assert(s2 =~= base);
    assert(machine::forward(stash, 0, m) == Some(base));
    machine::lemma_forward(stash, m, 0);
    lemma_test(SCRATCH64_2, base, a);
    let m1 = base.put(0, machine::bit(shows_int(a)));
    lemma_test(SCRATCH64, m1, b);
    let m2 = m1.put(0, machine::bit(shows_int(b)));
    let m3 = machine::run_instr(last[0], m2)->Next_0;
    let x = machine::bit(shows_int(a))->I32_0;
    let y = machine::bit(shows_int(b))->I32_0;
    assert(x & y == if x == 1 && y == 1 {
        1i32
    } else {
        0
    }) by (bit_vector)
        requires
            x == 0 || x == 1,
            y == 0 || y == 1,
    ;
    assert(m3 =~= base.put(0, machine::bit(shows_int(a) && shows_int(b))));
    assert(machine::forward(last, 0, m2) == Some(m3));
    machine::lemma_forward(last, m2, 0);
}

/// Both stashed operands as ints.
spec fn unboxed() -> Seq<Instr> {
    seq![
        Instr::LocalGet(SCRATCH64_2),
        Instr::Cvt(Cvtop::I32WrapI64),
        Instr::LocalGet(SCRATCH64),
        Instr::Cvt(Cvtop::I32WrapI64),
    ]
}

proof fn lemma_unboxed(m: Machine, a: i32, b: i32)
    requires
        m.locals.len() == 19,
        m.locals[SCRATCH64_2 as int] == Val::I64(linear::int_word(a)),
        m.locals[SCRATCH64 as int] == Val::I64(linear::int_word(b)),
    ensures
        machine::run(machine::plains(unboxed()), m, 0) == Outcome::Next(
            Machine { stack: m.stack.push(Val::I32(a)).push(Val::I32(b)), ..m },
        ),
{
    let code = unboxed();
    lemma_int_words(a);
    lemma_int_words(b);
    reveal_with_fuel(machine::forward, 5);
    let m1 = machine::run_instr(code[0], m)->Next_0;
    assert(m1.stack =~= m.stack.push(Val::I64(linear::int_word(a))));
    let m2 = machine::run_instr(code[1], m1)->Next_0;
    assert(m2.stack =~= m.stack.push(Val::I32(a)));
    let m3 = machine::run_instr(code[2], m2)->Next_0;
    assert(m3.stack =~= m.stack.push(Val::I32(a)).push(Val::I64(linear::int_word(b))));
    let m4 = machine::run_instr(code[3], m3)->Next_0;
    assert(m4.stack =~= m.stack.push(Val::I32(a)).push(Val::I32(b)));
    assert(machine::forward(code, 0, m) == Some(m4));
    machine::lemma_forward(code, m, 0);
}

/// What the bitwise helpers compute, but for the unsigned shift.
pub open spec fn bits(index: u32, a: i32, b: i32) -> i32 {
    if index == 5 {
        a & b
    } else if index == 6 {
        a | b
    } else if index == 7 {
        a ^ b
    } else if index == 8 {
        a << ((b as u32) & 0x1F)
    } else {
        a >> ((b as u32) & 0x1F)
    }
}

/// The operation itself, with the mask of a shift in front.
proof fn lemma_bits(index: u32, m: Machine, below: Seq<Val>, a: i32, b: i32)
    requires
        5 <= index <= 10,
        m.stack == below.push(Val::I32(a)).push(Val::I32(b)),
    ensures
        machine::run(
            machine::plains(
                linear::shift_mask(index) + seq![Instr::Bin(linear::bit_operation(index))],
            ),
            m,
            0,
        ) == Outcome::Next(
            Machine {
                stack: below.push(
                    Val::I32(
                        if index == 10 {
                            ((a as u32) >> ((b as u32) & 0x1F)) as i32
                        } else {
                            bits(index, a, b)
                        },
                    ),
                ),
                ..m
            },
        ),
{
    let code = linear::shift_mask(index) + seq![Instr::Bin(linear::bit_operation(index))];
    reveal_with_fuel(machine::forward, 4);
    let c = b & 0x1F;
    assert((c as u32) & 31 == (b as u32) & 0x1F) by (bit_vector)
        requires
            c == b & 0x1F,
    ;
    if index >= 8 {
        let m1 = machine::run_instr(code[0], m)->Next_0;
        assert(m1.stack =~= below.push(Val::I32(a)).push(Val::I32(b)).push(Val::I32(0x1F)));
        let m2 = machine::run_instr(code[1], m1)->Next_0;
        assert(m2.stack =~= below.push(Val::I32(a)).push(Val::I32(c)));
        let m3 = machine::run_instr(code[2], m2)->Next_0;
        assert(m3.stack.len() == below.len() + 1);
        assert(m3.stack =~= below.push(m3.stack.last()));
        assert(machine::forward(code, 0, m) == Some(m3));
    } else {
        let m1 = machine::run_instr(code[0], m)->Next_0;
        assert(m1.stack =~= below.push(Val::I32(bits(index, a, b))));
        assert(machine::forward(code, 0, m) == Some(m1));
    }
    machine::lemma_forward(code, m, 0);
}

/// The code replaces its operands by the value `v` and leaves both memories as they are.
pub open spec fn leaves(code: Seq<Instr>, m: Machine, below: Seq<Val>, v: Val) -> bool {
    exists|nodes: Seq<Node>| #[trigger]
        machine::flat(nodes) == code && (machine::run(nodes, m, 0) matches Outcome::Next(m2)
            && m2.stack == below.push(v) && m2.memory == m.memory && m2.outer == m.outer)
}

/// The guard of both operands, and what is done if they are ints and if not.
proof fn lemma_guarded(
    m: Machine,
    below: Seq<Val>,
    a: i32,
    b: i32,
    yes: Seq<Node>,
    no: Seq<Node>,
    m2: Machine,
) -> (nodes: Seq<Node>)
    requires
        operands(m, below, linear::int_word(a), linear::int_word(b)),
        machine::run(
            yes,
            stashed(m, below, linear::int_word(a), linear::int_word(b)),
            0,
        ) == Outcome::Next(m2),
    ensures
        machine::flat(nodes) == guard() + seq![Instr::If(BlockTy::I64)] + machine::flat(yes)
            + seq![Instr::Else] + machine::flat(no) + seq![Instr::End],
        machine::run(nodes, m, 0) == Outcome::Next(m2),
{
    let pick = seq![Node::Pick(BlockTy::I64, yes, no)];
    let nodes = machine::plains(guard()) + pick;
    let wa = linear::int_word(a);
    let wb = linear::int_word(b);
    lemma_int_words(a);
    lemma_int_words(b);
    lemma_guard(m, below, wa, wb);
    machine::lemma_flat_concat(machine::plains(guard()), pick);
    machine::lemma_flat_plains(guard());
    lemma_flat_pick(BlockTy::I64, yes, no);
    assert(machine::flat(nodes) =~= guard() + seq![Instr::If(BlockTy::I64)] + machine::flat(yes)
        + seq![Instr::Else] + machine::flat(no) + seq![Instr::End]);
    let base = stashed(m, below, wa, wb);
    let tested = base.put(0, machine::bit(true));
    assert(tested.shed(1) =~= base);
    lemma_pick(BlockTy::I64, yes, no, tested, true, m2);
    machine::lemma_run_concat(machine::plains(guard()), pick, m, 0);
    nodes
}

/// The inline bitwise operations on two ints give what the helper gives, as an int. The unsigned
/// shift does so where its result, which is not negative, is an int.
pub proof fn bit_ops_match_the_helper(
    lay: Layout,
    index: u32,
    m: Machine,
    below: Seq<Val>,
    a: i32,
    b: i32,
)
    requires
        5 <= index <= 10,
        operands(m, below, linear::int_word(a), linear::int_word(b)),
    ensures
        index < 10 ==> leaves(
            linear::bit_code(lay, index),
            m,
            below,
            Val::I64(linear::int_word(bits(index, a, b))),
        ),
        index == 10 && (a as u32) >> ((b as u32) & 0x1F) <= 0x7fff_ffff ==> leaves(
            linear::bit_code(lay, index),
            m,
            below,
            Val::I64(linear::int_word(((a as u32) >> ((b as u32) & 0x1F)) as i32)),
        ),
{
    reveal(linear::bit_code);
    let shifted: u32 = (a as u32) >> ((b as u32) & 0x1F);
    let code = linear::bit_code(lay, index);
    let base = stashed(m, below, linear::int_word(a), linear::int_word(b));
    let done = linear::shift_mask(index) + seq![Instr::Bin(linear::bit_operation(index))];
    let result = if index == 10 {
        shifted as i32
    } else {
        bits(index, a, b)
    };
    lemma_unboxed(base, a, b);
    lemma_parts(unboxed(), done, base);
    let ints = Machine { stack: below.push(Val::I32(a)).push(Val::I32(b)), ..base };
    lemma_bits(index, ints, below, a, b);
    let after = Machine { stack: below.push(Val::I32(result)), ..base };
    let no = machine::plains(linear::fallback2(lay, index));
    machine::lemma_flat_plains(linear::fallback2(lay, index));
    if index < 10 {
        let yes = machine::plains(unboxed() + done + linear::box_int());
        lemma_parts(unboxed() + done, linear::box_int(), base);
        lemma_box(after, result);
        let m2 = after.put(1, Val::I64(linear::int_word(result)));
        machine::lemma_flat_plains(unboxed() + done + linear::box_int());
        let nodes = lemma_guarded(m, below, a, b, yes, no, m2);
        assert(m2.stack =~= below.push(Val::I64(linear::int_word(result))));
        assert(machine::flat(nodes) =~= code);
    } else if shifted <= 0x7fff_ffff {
        lemma_unsigned_box(after, below, shifted);
        let boxing = unsigned_box();
        let yes = machine::plains(unboxed() + done) + boxing;
        machine::lemma_run_concat(machine::plains(unboxed() + done), boxing, base, 0);
        machine::lemma_flat_concat(machine::plains(unboxed() + done), boxing);
        machine::lemma_flat_plains(unboxed() + done);
        let m2 = machine::run(boxing, after, 0)->Next_0;
        let nodes = lemma_guarded(m, below, a, b, yes, no, m2);
        assert(machine::flat(nodes) =~= code);
    }
}

/// The result of an unsigned shift, boxed.
spec fn unsigned_box() -> Seq<Node> {
    machine::plains(
        seq![Instr::LocalTee(SCRATCH), Instr::I32Const(0), Instr::Rel(Relop::I32GeS)],
    ) + seq![
        Node::Pick(
            BlockTy::I64,
            machine::plains(seq![Instr::LocalGet(SCRATCH)] + linear::box_int()),
            machine::plains(
                seq![
                    Instr::LocalGet(SCRATCH),
                    Instr::Cvt(Cvtop::F64ConvertI32U),
                    Instr::Cvt(Cvtop::I64ReinterpretF64),
                ],
            ),
        ),
    ]
}

proof fn lemma_unsigned_box(m: Machine, below: Seq<Val>, r: u32)
    requires
        m.locals.len() == 19,
        m.stack == below.push(Val::I32(r as i32)),
        r <= 0x7fff_ffff,
    ensures
        machine::flat(unsigned_box()) == linear::box_bits(10),
        machine::run(unsigned_box(), m, 0) matches Outcome::Next(m2) && m2.stack == below.push(
            Val::I64(linear::int_word(r as i32)),
        ) && m2.memory == m.memory && m2.outer == m.outer,
{
    let v = r as i32;
    let head = seq![Instr::LocalTee(SCRATCH), Instr::I32Const(0), Instr::Rel(Relop::I32GeS)];
    let int_arm = seq![Instr::LocalGet(SCRATCH)] + linear::box_int();
    let wide_arm = seq![
        Instr::LocalGet(SCRATCH),
        Instr::Cvt(Cvtop::F64ConvertI32U),
        Instr::Cvt(Cvtop::I64ReinterpretF64),
    ];
    let yes = machine::plains(int_arm);
    let no = machine::plains(wide_arm);
    let pick = seq![Node::Pick(BlockTy::I64, yes, no)];
    machine::lemma_flat_concat(machine::plains(head), pick);
    machine::lemma_flat_plains(head);
    machine::lemma_flat_plains(int_arm);
    machine::lemma_flat_plains(wide_arm);
    lemma_flat_pick(BlockTy::I64, yes, no);
    assert(machine::flat(unsigned_box()) =~= linear::box_bits(10));
    reveal_with_fuel(machine::forward, 4);
    let m1 = machine::run_instr(head[0], m)->Next_0;
    assert(m1.stack =~= below.push(Val::I32(v)));
    let m2 = machine::run_instr(head[1], m1)->Next_0;
    assert(m2.stack =~= below.push(Val::I32(v)).push(Val::I32(0)));
    let m3 = machine::run_instr(head[2], m2)->Next_0;
    assert(m3.stack =~= below.push(machine::bit(true)));
    assert(machine::forward(head, 0, m) == Some(m3));
    machine::lemma_forward(head, m, 0);
    let m4 = m3.shed(1);
    assert(m4.stack =~= below);
    let get = seq![Instr::LocalGet(SCRATCH)];
    let m5 = machine::run_instr(get[0], m4)->Next_0;
    assert(m5.stack =~= below.push(Val::I32(v)));
    assert(machine::forward(get, 0, m4) == Some(m5));
    machine::lemma_forward(get, m4, 0);
    lemma_parts(get, linear::box_int(), m4);
    lemma_box(m5, v);
    let m6 = m5.put(1, Val::I64(linear::int_word(v)));
    assert(m6.stack =~= below.push(Val::I64(linear::int_word(v))));
    lemma_pick(BlockTy::I64, yes, no, m3, true, m6);
    machine::lemma_run_concat(machine::plains(head), pick, m, 0);
}

/// What the arithmetic helpers compute of two ints.
pub open spec fn exact(index: u32, a: i32, b: i32) -> int {
    if index == 11 {
        a * b
    } else if index == 18 {
        a + b
    } else {
        a - b
    }
}

/// The word of a signed number.
proof fn lemma_signed_word(v: i64)
    ensures
        v as u64 == if v < 0 {
            v + 0x1_0000_0000_0000_0000
        } else {
            v as int
        },
{
    assert(v < 0 ==> v as u64 == v + 0x1_0000_0000_0000_0000) by (bit_vector);
}

/// Arithmetic on signed words is exact where 64 bits are enough.
proof fn lemma_exact(index: u32, a: i32, b: i32)
    ensures
        i64::MIN <= exact(index, a, b) <= i64::MAX,
        machine::computed(
            linear::int_operation(index),
            Val::I64(a as i64 as u64),
            Val::I64(b as i64 as u64),
        ) == Some(Val::I64(exact(index, a, b) as i64 as u64)),
{
    let m: int = 0x1_0000_0000_0000_0000;
    lemma_signed_word(a as i64);
    lemma_signed_word(b as i64);
    let x = a as i64 as u64;
    let y = b as i64 as u64;
    assert(-0x4000_0000_0000_0000 <= a * b <= 0x4000_0000_0000_0000) by (nonlinear_arith)
        requires
            -0x8000_0000 <= a <= 0x7fff_ffff,
            -0x8000_0000 <= b <= 0x7fff_ffff,
    ;
    let r = exact(index, a, b);
    lemma_signed_word(r as i64);
    if index == 11 {
        let (p, q): (int, int) = (a as int, b as int);
        assert((p + m) * q == p * q + m * q) by (nonlinear_arith);
        assert(p * (q + m) == p * q + m * p) by (nonlinear_arith);
        assert((p + m) * (q + m) == p * q + m * (p + q + m)) by (nonlinear_arith);
        let k: int = if a < 0 && b < 0 {
            p + q + m
        } else if a < 0 {
            q
        } else if b < 0 {
            p
        } else {
            0
        };
        assert(x * y == r + m * k);
        vstd::arithmetic::div_mod::lemma_mod_multiples_vanish(k, r, m);
        assert((x * y) % m == r % m);
        assert(r % m == (r as i64 as u64)) by {
            if r < 0 {
                vstd::arithmetic::div_mod::lemma_mod_multiples_vanish(1, r, m);
                vstd::arithmetic::div_mod::lemma_small_mod((r + m) as nat, m as nat);
            } else {
                vstd::arithmetic::div_mod::lemma_small_mod(r as nat, m as nat);
            }
        }
        assert(x.wrapping_mul(y) == r as i64 as u64);
    } else if index == 18 {
        assert(x.wrapping_add(y) == r as i64 as u64);
    } else {
        assert(x.wrapping_sub(y) == r as i64 as u64);
    }
}

/// The exact result, into a scratch local, and whether it is an int.
spec fn computing(index: u32) -> Seq<Instr> {
    seq![
        Instr::LocalGet(SCRATCH64_2),
        Instr::Cvt(Cvtop::I32WrapI64),
        Instr::Cvt(Cvtop::I64ExtendI32S),
        Instr::LocalGet(SCRATCH64),
        Instr::Cvt(Cvtop::I32WrapI64),
        Instr::Cvt(Cvtop::I64ExtendI32S),
        Instr::Bin(linear::int_operation(index)),
        Instr::LocalSet(SCRATCH64_2),
        Instr::LocalGet(SCRATCH64_2),
        Instr::LocalGet(SCRATCH64_2),
        Instr::Cvt(Cvtop::I64Extend32S),
        Instr::Rel(Relop::I64Eq),
    ]
}

#[verifier::rlimit(30)]
proof fn lemma_computing(index: u32, m: Machine, a: i32, b: i32) -> (m2: Machine)
    requires
        m.locals.len() == 19,
        m.locals[SCRATCH64_2 as int] == Val::I64(linear::int_word(a)),
        m.locals[SCRATCH64 as int] == Val::I64(linear::int_word(b)),
    ensures
        machine::run(machine::plains(computing(index)), m, 0) == Outcome::Next(m2),
        m2.stack == m.stack.push(
            machine::bit(i32::MIN <= exact(index, a, b) <= i32::MAX),
        ),
        m2.locals.len() == 19,
        m2.locals[SCRATCH64_2 as int] == Val::I64(exact(index, a, b) as i64 as u64),
        m2.memory == m.memory,
        m2.outer == m.outer,
{
    let code = computing(index);
    let r = exact(index, a, b) as i64;
    let word = r as u64;
    let short = word as u32 as i32 as i64 as u64;
    let fits = i32::MIN <= r <= i32::MAX;
    let low = m.stack;
    lemma_int_words(a);
    lemma_int_words(b);
    lemma_exact(index, a, b);
    assert((word == short) == fits) by (bit_vector)
        requires
            word == r as u64,
            short == word as u32 as i32 as i64 as u64,
            fits == (-0x8000_0000 <= r && r <= 0x7fff_ffff),
    ;
    reveal_with_fuel(machine::forward, 13);
    let m1 = machine::run_instr(code[0], m)->Next_0;
    assert(m1.stack =~= low.push(Val::I64(linear::int_word(a))));
    let m2 = machine::run_instr(code[1], m1)->Next_0;
    assert(m2.stack =~= low.push(Val::I32(a)));
    let m3 = machine::run_instr(code[2], m2)->Next_0;
    let one = low.push(Val::I64(a as i64 as u64));
    assert(m3.stack =~= one);
    let m4 = machine::run_instr(code[3], m3)->Next_0;
    assert(m4.stack =~= one.push(Val::I64(linear::int_word(b))));
    let m5 = machine::run_instr(code[4], m4)->Next_0;
    assert(m5.stack =~= one.push(Val::I32(b)));
    let m6 = machine::run_instr(code[5], m5)->Next_0;
    assert(m6.stack =~= one.push(Val::I64(b as i64 as u64)));
    let m7 = machine::run_instr(code[6], m6)->Next_0;
    assert(m7.stack =~= low.push(Val::I64(word)));
    let m8 = machine::run_instr(code[7], m7)->Next_0;
    assert(m8.stack =~= low);
    let m9 = machine::run_instr(code[8], m8)->Next_0;
    assert(m9.stack =~= low.push(Val::I64(word)));
    let m10 = machine::run_instr(code[9], m9)->Next_0;
    assert(m10.stack =~= low.push(Val::I64(word)).push(Val::I64(word)));
    let m11 = machine::run_instr(code[10], m10)->Next_0;
    assert(m11.stack =~= low.push(Val::I64(word)).push(Val::I64(short)));
    let m12 = machine::run_instr(code[11], m11)->Next_0;
    assert(m12.stack =~= low.push(machine::bit(fits)));
    assert(machine::forward(code, 0, m) == Some(m12));
    machine::lemma_forward(code, m, 0);
    m12
}

/// The arithmetic on doubles is structured code, too.
pub proof fn lemma_double_nodes(lay: Layout, index: u32, op: Binop) -> (nodes: Seq<Node>)
    ensures
        machine::flat(nodes) == linear::double_arith(lay, index, op),
{
    reveal(linear::double_arith);
    reveal(linear::box_double);
    reveal(linear::box_scratch_f64);
    let test = linear::is_numeric(SCRATCH64_2) + linear::is_numeric(SCRATCH64) + seq![
        Instr::Bin(Binop::I32And),
    ];
    let compute = linear::numval(SCRATCH64_2) + linear::numval(SCRATCH64) + seq![
        Instr::Bin(op),
        Instr::LocalSet(SCRATCH_F64),
        Instr::LocalGet(SCRATCH_F64),
        Instr::LocalGet(SCRATCH_F64),
        Instr::Rel(Relop::F64Ne),
    ];
    let nan = seq![Instr::I64Const(CANON_NAN)];
    let number = seq![Instr::LocalGet(SCRATCH_F64), Instr::Cvt(Cvtop::I64ReinterpretF64)];
    let boxed = seq![Node::Pick(BlockTy::I64, machine::plains(nan), machine::plains(number))];
    let yes = machine::plains(compute) + boxed;
    let no = machine::plains(linear::fallback2(lay, index));
    let pick = seq![Node::Pick(BlockTy::I64, yes, no)];
    let nodes = machine::plains(test) + pick;
    machine::lemma_flat_plains(test);
    machine::lemma_flat_plains(compute);
    machine::lemma_flat_plains(nan);
    machine::lemma_flat_plains(number);
    machine::lemma_flat_plains(linear::fallback2(lay, index));
    lemma_flat_pick(BlockTy::I64, machine::plains(nan), machine::plains(number));
    lemma_flat_pick(BlockTy::I64, yes, no);
    machine::lemma_flat_concat(machine::plains(compute), boxed);
    machine::lemma_flat_concat(machine::plains(test), pick);
    assert(machine::flat(nodes) =~= linear::double_arith(lay, index, op));
    nodes
}

/// The test of both operands of an arithmetic op, which tells whether they are ints.
pub proof fn lemma_int_guard(m: Machine, below: Seq<Val>, a: u64, b: u64) -> (out: (
    Seq<Instr>,
    Machine,
))
    requires
        operands(m, below, a, b),
    ensures
        out.0 == linear::stash2() + linear::is_int(SCRATCH64_2) + linear::is_int(SCRATCH64)
            + seq![Instr::Bin(Binop::I32And)],
        machine::run(machine::plains(out.0), m, 0) == Outcome::Next(out.1),
        out.1 == stashed(m, below, a, b).put(0, machine::bit(shows_int(a) && shows_int(b))),
{
    lemma_guard(m, below, a, b);
    (guard(), stashed(m, below, a, b).put(0, machine::bit(shows_int(a) && shows_int(b))))
}

/// The arithmetic on ints is structured code.
pub proof fn lemma_int_nodes(index: u32) -> (nodes: Seq<Node>)
    ensures
        machine::flat(nodes) == linear::int_arith(index),
{
    reveal(linear::int_arith);
    let int_arm = seq![Instr::LocalGet(SCRATCH64_2), Instr::Cvt(Cvtop::I32WrapI64)]
        + linear::box_int();
    let wide_arm = seq![
        Instr::LocalGet(SCRATCH64_2),
        Instr::Cvt(Cvtop::F64ConvertI64S),
        Instr::Cvt(Cvtop::I64ReinterpretF64),
    ];
    let ints = machine::plains(int_arm);
    let wides = machine::plains(wide_arm);
    let pick = seq![Node::Pick(BlockTy::I64, ints, wides)];
    let nodes = machine::plains(computing(index)) + pick;
    machine::lemma_flat_concat(machine::plains(computing(index)), pick);
    machine::lemma_flat_plains(computing(index));
    machine::lemma_flat_plains(int_arm);
    machine::lemma_flat_plains(wide_arm);
    lemma_flat_pick(BlockTy::I64, ints, wides);
    assert(machine::flat(nodes) =~= linear::int_arith(index));
    nodes
}

/// The inline arithmetic on two ints gives what the helper gives, where that is an int.
pub proof fn int_arithmetic_matches_the_helper(
    lay: Layout,
    index: u32,
    m: Machine,
    below: Seq<Val>,
    a: i32,
    b: i32,
)
    requires
        operands(m, below, linear::int_word(a), linear::int_word(b)),
        i32::MIN <= exact(index, a, b) <= i32::MAX,
    ensures
        leaves(
            linear::arith_int_code(lay, index),
            m,
            below,
            Val::I64(linear::int_word(exact(index, a, b) as i32)),
        ),
{
    reveal(linear::arith_int_code);
    reveal(linear::int_arith);
    let r = exact(index, a, b) as i32;
    let word = r as i64 as u64;
    assert((r as i64 as u64) as u32 as i32 == r) by (bit_vector);
    let base = stashed(m, below, linear::int_word(a), linear::int_word(b));
    let tested = lemma_computing(index, base, a, b);
    let get = seq![Instr::LocalGet(SCRATCH64_2), Instr::Cvt(Cvtop::I32WrapI64)];
    let int_arm = get + linear::box_int();
    let wide_arm = seq![
        Instr::LocalGet(SCRATCH64_2),
        Instr::Cvt(Cvtop::F64ConvertI64S),
        Instr::Cvt(Cvtop::I64ReinterpretF64),
    ];
    let ints = machine::plains(int_arm);
    let wides = machine::plains(wide_arm);
    let pick = seq![Node::Pick(BlockTy::I64, ints, wides)];
    let yes = machine::plains(computing(index)) + pick;
    let m0 = tested.shed(1);
    assert(m0.stack =~= below);
    reveal_with_fuel(machine::forward, 3);
    let m1 = machine::run_instr(get[0], m0)->Next_0;
    assert(m1.stack =~= below.push(Val::I64(word)));
    let m2 = machine::run_instr(get[1], m1)->Next_0;
    assert(m2.stack =~= below.push(Val::I32(r)));
    assert(machine::forward(get, 0, m0) == Some(m2));
    machine::lemma_forward(get, m0, 0);
    lemma_parts(get, linear::box_int(), m0);
    lemma_box(m2, r);
    let m3 = m2.put(1, Val::I64(linear::int_word(r)));
    assert(m3.stack =~= below.push(Val::I64(linear::int_word(r))));
    lemma_pick(BlockTy::I64, ints, wides, tested, true, m3);
    machine::lemma_run_concat(machine::plains(computing(index)), pick, base, 0);
    machine::lemma_flat_concat(machine::plains(computing(index)), pick);
    machine::lemma_flat_plains(computing(index));
    machine::lemma_flat_plains(int_arm);
    machine::lemma_flat_plains(wide_arm);
    lemma_flat_pick(BlockTy::I64, ints, wides);
    assert(machine::flat(yes) =~= linear::int_arith(index));
    let no = lemma_double_nodes(lay, index, linear::double_operation(index));
    let nodes = lemma_guarded(m, below, a, b, yes, no, m3);
    assert(machine::flat(nodes) =~= linear::arith_int_code(lay, index));
}

/// Where the exact result is no int, the inline arithmetic on two ints leaves the double that is
/// nearest to it.
#[verifier::spinoff_prover]
#[verifier::rlimit(80)]
pub proof fn wide_results_become_doubles(
    lay: Layout,
    index: u32,
    m: Machine,
    below: Seq<Val>,
    a: i32,
    b: i32,
)
    requires
        operands(m, below, linear::int_word(a), linear::int_word(b)),
        !(i32::MIN <= exact(index, a, b) <= i32::MAX),
    ensures
        exists|r: u64| #[trigger]
            doubles::is_nearest(r, exact(index, a, b) * doubles::unit(), 1) && leaves(
                linear::arith_int_code(lay, index),
                m,
                below,
                Val::I64(r),
            ),
{
    reveal(linear::arith_int_code);
    reveal(linear::int_arith);
    let x = exact(index, a, b);
    lemma_exact(index, a, b);
    let word = x as i64 as u64;
    assert((word as i64) as int == x) by {
        lemma_round_trip(x as i64);
    }
    let r = doubles::double_of(x);
    doubles::lemma_rounds(x * doubles::unit(), 1);
    let base = stashed(m, below, linear::int_word(a), linear::int_word(b));
    let tested = lemma_computing(index, base, a, b);
    let int_arm = seq![Instr::LocalGet(SCRATCH64_2), Instr::Cvt(Cvtop::I32WrapI64)]
        + linear::box_int();
    let wide_arm = seq![
        Instr::LocalGet(SCRATCH64_2),
        Instr::Cvt(Cvtop::F64ConvertI64S),
        Instr::Cvt(Cvtop::I64ReinterpretF64),
    ];
    let ints = machine::plains(int_arm);
    let wides = machine::plains(wide_arm);
    let pick = seq![Node::Pick(BlockTy::I64, ints, wides)];
    let yes = machine::plains(computing(index)) + pick;
    let m0 = tested.shed(1);
    assert(m0.stack =~= below);
    reveal_with_fuel(machine::forward, 4);
    let m1 = machine::run_instr(wide_arm[0], m0)->Next_0;
    assert(m1.stack =~= below.push(Val::I64(word)));
    let m2 = machine::run_instr(wide_arm[1], m1)->Next_0;
    assert(m2.stack =~= below.push(Val::F64(r)));
    let m3 = machine::run_instr(wide_arm[2], m2)->Next_0;
    assert(m3.stack =~= below.push(Val::I64(r)));
    assert(machine::forward(wide_arm, 0, m0) == Some(m3));
    machine::lemma_forward(wide_arm, m0, 0);
    lemma_pick(BlockTy::I64, ints, wides, tested, false, m3);
    machine::lemma_run_concat(machine::plains(computing(index)), pick, base, 0);
    machine::lemma_flat_concat(machine::plains(computing(index)), pick);
    machine::lemma_flat_plains(computing(index));
    machine::lemma_flat_plains(int_arm);
    machine::lemma_flat_plains(wide_arm);
    lemma_flat_pick(BlockTy::I64, ints, wides);
    assert(machine::flat(yes) =~= linear::int_arith(index));
    let no = lemma_double_nodes(lay, index, linear::double_operation(index));
    let nodes = lemma_guarded(m, below, a, b, yes, no, m3);
    assert(machine::flat(nodes) =~= linear::arith_int_code(lay, index));
}

proof fn lemma_round_trip(x: i64)
    ensures
        (x as u64) as i64 == x,
{
    assert((x as u64) as i64 == x) by (bit_vector);
}

/// The test of the sign, which an unsigned coercion adds.
proof fn lemma_sign(signed: bool, m: Machine, v: i32)
    requires
        m.locals.len() == 19,
        m.locals[SCRATCH64 as int] == Val::I64(linear::int_word(v)),
        m.stack.len() > 0,
        m.stack.last() == Val::I32(1),
        signed || v >= 0,
    ensures
        machine::run(machine::plains(linear::sign_check(signed)), m, 0) == Outcome::Next(m),
{
    let sign = linear::sign_check(signed);
    lemma_int_words(v);
    reveal_with_fuel(machine::forward, 6);
    if signed {
        assert(machine::forward(sign, 0, m) == Some(m));
    } else {
        let m1 = machine::run_instr(sign[0], m)->Next_0;
        assert(m1.stack =~= m.stack.push(Val::I64(linear::int_word(v))));
        let m2 = machine::run_instr(sign[1], m1)->Next_0;
        assert(m2.stack =~= m.stack.push(Val::I32(v)));
        let m3 = machine::run_instr(sign[2], m2)->Next_0;
        assert(m3.stack =~= m.stack.push(Val::I32(v)).push(Val::I32(0)));
        let m4 = machine::run_instr(sign[3], m3)->Next_0;
        assert(m4.stack =~= m.stack.push(Val::I32(1)));
        let m5 = machine::run_instr(sign[4], m4)->Next_0;
        assert(1i32 & 1i32 == 1i32) by (bit_vector);
        assert(m5.stack =~= m.stack);
        assert(m5 =~= m);
        assert(machine::forward(sign, 0, m) == Some(m));
    }
    machine::lemma_forward(sign, m, 0);
}

/// The inline `ToInt32` and `ToUint32` leave an int that is its own image: for `ToUint32`, one that
/// is not negative.
pub proof fn coercion_keeps_its_images(signed: bool, m: Machine, below: Seq<Val>, v: i32)
    requires
        m.locals.len() == 19,
        m.stack == below.push(Val::I64(linear::int_word(v))),
        signed || v >= 0,
    ensures
        leaves(linear::coerce_int_code(signed), m, below, Val::I64(linear::int_word(v))),
{
    reveal(linear::coerce_int_code);
    let word = linear::int_word(v);
    lemma_int_words(v);
    let stash = seq![Instr::LocalSet(SCRATCH64)];
    let test = linear::is_int(SCRATCH64);
    let sign = linear::sign_check(signed);
    let get = seq![Instr::LocalGet(SCRATCH64)];
    let other = seq![
        Instr::LocalGet(SCRATCH64),
        Instr::Call(crate::lower::manifest::coerce_helper(signed)),
    ];
    let head = stash + test + sign;
    let yes = machine::plains(get);
    let no = machine::plains(other);
    let pick = seq![Node::Pick(BlockTy::I64, yes, no)];
    let nodes = machine::plains(head) + pick;
    machine::lemma_flat_plains(head);
    machine::lemma_flat_plains(get);
    machine::lemma_flat_plains(other);
    lemma_flat_pick(BlockTy::I64, yes, no);
    machine::lemma_flat_concat(machine::plains(head), pick);
    assert(machine::flat(nodes) =~= linear::coerce_int_code(signed));
    lemma_parts(stash + test, sign, m);
    lemma_parts(stash, test, m);
    reveal_with_fuel(machine::forward, 2);
    let base = machine::run_instr(stash[0], m)->Next_0;
    assert(base.stack =~= below);
    assert(machine::forward(stash, 0, m) == Some(base));
    machine::lemma_forward(stash, m, 0);
    lemma_test(SCRATCH64, base, word);
    let tested = base.put(0, machine::bit(true));
    assert(tested.stack =~= below.push(Val::I32(1)));
    lemma_sign(signed, tested, v);
    let m6 = tested.shed(1);
    assert(m6.stack =~= below);
    let m7 = machine::run_instr(get[0], m6)->Next_0;
    assert(m7.stack =~= below.push(Val::I64(word)));
    assert(machine::forward(get, 0, m6) == Some(m7));
    machine::lemma_forward(get, m6, 0);
    lemma_pick(BlockTy::I64, yes, no, tested, true, m7);
    machine::lemma_run_concat(machine::plains(head), pick, m, 0);
}

/// The word of a boolean.
pub open spec fn bool_word(b: bool) -> u64 {
    if b {
        VALUE_BOOL_MARK | 1
    } else {
        VALUE_BOOL_MARK
    }
}

proof fn lemma_bool_words(b: bool)
    ensures
        bool_word(b) & VALUE_TAG_MASK == VALUE_BOOL_MARK,
        (bool_word(b) as u32 as i32) & 1 == if b {
            1i32
        } else {
            0
        },
{
    let mark: u64 = VALUE_BOOL_MARK;
    let mask: u64 = VALUE_TAG_MASK;
    assert((mark | 1) & mask == mark && mark & mask == mark && ((mark | 1) as u32 as i32) & 1 == 1
        && (mark as u32 as i32) & 1 == 0) by (bit_vector)
        requires
            mark == 0xfffa_0000_0000_0000u64,
            mask == 0xffff_0000_0000_0000u64,
    ;
}

/// Whether the operand is a boolean, with the operand stashed.
spec fn bool_test() -> Seq<Instr> {
    seq![
        Instr::LocalSet(SCRATCH64),
        Instr::LocalGet(SCRATCH64),
        Instr::I64Const(VALUE_TAG_MASK),
        Instr::Bin(Binop::I64And),
        Instr::I64Const(VALUE_BOOL_MARK),
        Instr::Rel(Relop::I64Eq),
    ]
}

proof fn lemma_bool_test(m: Machine, below: Seq<Val>, word: u64) -> (m2: Machine)
    requires
        m.locals.len() == 19,
        m.stack == below.push(Val::I64(word)),
    ensures
        machine::run(machine::plains(bool_test()), m, 0) == Outcome::Next(m2),
        m2 == (Machine {
            locals: m.locals.update(SCRATCH64 as int, Val::I64(word)),
            stack: below.push(machine::bit(word & VALUE_TAG_MASK == VALUE_BOOL_MARK)),
            ..m
        }),
{
    let code = bool_test();
    reveal_with_fuel(machine::forward, 7);
    let m1 = machine::run_instr(code[0], m)->Next_0;
    assert(m1.stack =~= below);
    let m2 = machine::run_instr(code[1], m1)->Next_0;
    assert(m2.stack =~= below.push(Val::I64(word)));
    let m3 = machine::run_instr(code[2], m2)->Next_0;
    assert(m3.stack =~= below.push(Val::I64(word)).push(Val::I64(VALUE_TAG_MASK)));
    let m4 = machine::run_instr(code[3], m3)->Next_0;
    let tag = word & VALUE_TAG_MASK;
    assert(m4.stack =~= below.push(Val::I64(tag)));
    let m5 = machine::run_instr(code[4], m4)->Next_0;
    assert(m5.stack =~= below.push(Val::I64(tag)).push(Val::I64(VALUE_BOOL_MARK)));
    let m6 = machine::run_instr(code[5], m5)->Next_0;
    assert(m6.stack =~= below.push(machine::bit(tag == VALUE_BOOL_MARK)));
    assert(machine::forward(code, 0, m) == Some(m6));
    machine::lemma_forward(code, m, 0);
    m6
}

/// The stashed word's low half, taken with an int.
proof fn lemma_low_half(last: Instr, with: i32, m: Machine, word: u64, v: Val)
    requires
        m.locals.len() == 19,
        m.locals[SCRATCH64 as int] == Val::I64(word),
        machine::run_instr(
            last,
            Machine {
                stack: m.stack.push(Val::I32(word as u32 as i32)).push(Val::I32(with)),
                ..m
            },
        ) == Outcome::Next(Machine { stack: m.stack.push(v), ..m }),
    ensures
        machine::run(
            machine::plains(
                seq![
                    Instr::LocalGet(SCRATCH64),
                    Instr::Cvt(Cvtop::I32WrapI64),
                    Instr::I32Const(with),
                    last,
                ],
            ),
            m,
            0,
        ) == Outcome::Next(Machine { stack: m.stack.push(v), ..m }),
{
    let code = seq![
        Instr::LocalGet(SCRATCH64),
        Instr::Cvt(Cvtop::I32WrapI64),
        Instr::I32Const(with),
        last,
    ];
    reveal_with_fuel(machine::forward, 5);
    let m1 = machine::run_instr(code[0], m)->Next_0;
    assert(m1.stack =~= m.stack.push(Val::I64(word)));
    let m2 = machine::run_instr(code[1], m1)->Next_0;
    assert(m2.stack =~= m.stack.push(Val::I32(word as u32 as i32)));
    let m3 = machine::run_instr(code[2], m2)->Next_0;
    assert(m3.stack =~= m.stack.push(Val::I32(word as u32 as i32)).push(Val::I32(with)));
    let m4 = Machine { stack: m.stack.push(v), ..m };
    assert(machine::forward(code, 0, m) == Some(m4));
    machine::lemma_forward(code, m, 0);
}

/// The truth of a boolean is itself, and an int is true if it is not zero.
pub proof fn truth_is_read_off_the_word(m: Machine, below: Seq<Val>, b: bool, v: i32)
    requires
        m.locals.len() == 19,
    ensures
        m.stack == below.push(Val::I64(bool_word(b))) ==> leaves(
            linear::to_boolean_i32(),
            m,
            below,
            machine::bit(b),
        ),
        m.stack == below.push(Val::I64(linear::int_word(v))) ==> leaves(
            linear::to_boolean_i32(),
            m,
            below,
            machine::bit(v != 0),
        ),
{
    reveal(linear::to_boolean_i32);
    let bools = seq![
        Instr::LocalGet(SCRATCH64),
        Instr::Cvt(Cvtop::I32WrapI64),
        Instr::I32Const(1),
        Instr::Bin(Binop::I32And),
    ];
    let ints = seq![
        Instr::LocalGet(SCRATCH64),
        Instr::Cvt(Cvtop::I32WrapI64),
        Instr::I32Const(0),
        Instr::Rel(Relop::I32Ne),
    ];
    let others = seq![
        Instr::LocalGet(SCRATCH64),
        Instr::Call(TO_BOOLEAN),
        Instr::Cvt(Cvtop::I32WrapI64),
    ];
    let test = linear::is_int(SCRATCH64);
    let inner = seq![
        Node::Pick(BlockTy::I32, machine::plains(ints), machine::plains(others)),
    ];
    let no = machine::plains(test) + inner;
    let outer = seq![Node::Pick(BlockTy::I32, machine::plains(bools), no)];
    let nodes = machine::plains(bool_test()) + outer;
    machine::lemma_flat_plains(bools);
    machine::lemma_flat_plains(ints);
    machine::lemma_flat_plains(others);
    machine::lemma_flat_plains(test);
    machine::lemma_flat_plains(bool_test());
    lemma_flat_pick(BlockTy::I32, machine::plains(ints), machine::plains(others));
    machine::lemma_flat_concat(machine::plains(test), inner);
    lemma_flat_pick(BlockTy::I32, machine::plains(bools), no);
    machine::lemma_flat_concat(machine::plains(bool_test()), outer);
    assert(machine::flat(nodes) =~= linear::to_boolean_i32());
    machine::lemma_run_concat(machine::plains(bool_test()), outer, m, 0);
    if m.stack == below.push(Val::I64(bool_word(b))) {
        let word = bool_word(b);
        lemma_bool_words(b);
        let tested = lemma_bool_test(m, below, word);
        let base = tested.shed(1);
        assert(base.stack =~= below);
        let operands = Machine {
            stack: below.push(Val::I32(word as u32 as i32)).push(Val::I32(1)),
            ..base
        };
        let after = Machine { stack: below.push(machine::bit(b)), ..base };
        assert(operands.stack.take(operands.stack.len() - 2) =~= below);
        assert(machine::run_instr(bools[3], operands) == Outcome::Next(after));
        lemma_low_half(bools[3], 1, base, word, machine::bit(b));
        lemma_pick(BlockTy::I32, machine::plains(bools), no, tested, true, after);
    }
    if m.stack == below.push(Val::I64(linear::int_word(v))) {
        let word = linear::int_word(v);
        lemma_int_words(v);
        let tested = lemma_bool_test(m, below, word);
        let base = tested.shed(1);
        assert(base.stack =~= below);
        lemma_test(SCRATCH64, base, word);
        let again = base.put(0, machine::bit(true));
        assert(again.stack =~= below.push(machine::bit(true)));
        let there = again.shed(1);
        assert(there.stack =~= below);
        let operands = Machine {
            stack: below.push(Val::I32(v)).push(Val::I32(0)),
            ..there
        };
        let after = Machine { stack: below.push(machine::bit(v != 0)), ..there };
        assert(operands.stack.take(operands.stack.len() - 2) =~= below);
        assert(machine::run_instr(ints[3], operands) == Outcome::Next(after));
        lemma_low_half(ints[3], 0, there, word, machine::bit(v != 0));
        lemma_pick(
            BlockTy::I32,
            machine::plains(ints),
            machine::plains(others),
            again,
            true,
            after,
        );
        machine::lemma_run_concat(machine::plains(test), inner, base, 0);
        lemma_pick(BlockTy::I32, machine::plains(bools), no, tested, false, after);
    }
}

/// Domain memory is there: `cap` bytes of the second memory from `base` on. A parameter points to
/// these two numbers.
pub open spec fn has_domain(m: Machine, base: u32, cap: u32) -> bool {
    &&& m.locals.len() == 19
    &&& m.locals[DM_BASE as int] matches Val::I32(d) && d != 0 && ({
        let at = d as u32 as int;
        &&& at + 8 <= m.outer.len()
        &&& machine::number(m.outer.subrange(at, at + 4)) == base
        &&& machine::number(m.outer.subrange(at + 4, at + 8)) == cap
    })
    &&& base + cap <= m.outer.len()
    &&& base + cap <= u32::MAX
}

/// The bytes of domain memory.
pub open spec fn domain(m: Machine, base: u32, cap: u32) -> Seq<u8> {
    m.outer.subrange(base as int, base + cap)
}

/// One, two or four bytes.
pub open spec fn is_width(width: u32) -> bool {
    width == 1 || width == 2 || width == 4
}

proof fn lemma_casts(x: u32, y: u32)
    requires
        x + y <= u32::MAX,
    ensures
        (x as i32) as u32 == x,
        (x as i32).wrapping_add(y as i32) as u32 == x + y,
{
    let a = x as i32;
    let b = y as i32;
    let c = a.wrapping_add(b);
    assert((x as i32) as u32 == x) by (bit_vector);
    assert(x as i32 == if x > 0x7fff_ffff {
        x - 0x1_0000_0000
    } else {
        x as int
    }) by (bit_vector);
    assert(y as i32 == if y > 0x7fff_ffff {
        y - 0x1_0000_0000
    } else {
        y as int
    }) by (bit_vector);
    assert(c as u32 == if c < 0 {
        c + 0x1_0000_0000
    } else {
        c as int
    }) by (bit_vector);
}

/// The address of the pair that tells where domain memory is.
spec fn pair_of(m: Machine) -> i32 {
    m.locals[DM_BASE as int]->I32_0
}

/// The test of an access that is inside domain memory holds.
#[verifier::rlimit(40)]
pub proof fn lemma_dm_check(width: u32, m: Machine, base: u32, cap: u32, address: i32)
    requires
        has_domain(m, base, cap),
        is_width(width) || width == 8,
        m.locals[SCRATCH as int] == Val::I32(address),
        (address as u32) + width <= cap,
    ensures
        machine::run(machine::plains(linear::dm_check(width)), m, 0) == Outcome::Next(
            m.put(0, machine::bit(true)),
        ),
{
    reveal(linear::dm_check);
    let code = linear::dm_check(width);
    let low = m.stack;
    let d = pair_of(m);
    let at = d as u32 as int;
    let one = low.push(machine::bit(true));
    let sum: u64 = (address as u32 as u64).wrapping_add(width as u64);
    assert(sum == (address as u32) + width);
    lemma_casts(cap, 0);
    let got = machine::number(m.outer.subrange(at + 4, at + 8));
    reveal_with_fuel(machine::forward, 13);
    let m1 = machine::run_instr(code[0], m)->Next_0;
    assert(m1.stack =~= low.push(Val::I32(d)));
    let m2 = machine::run_instr(code[1], m1)->Next_0;
    assert(m2.stack =~= low.push(Val::I32(d)).push(Val::I32(0)));
    let m3 = machine::run_instr(code[2], m2)->Next_0;
    assert(m3.stack =~= one);
    let m4 = machine::run_instr(code[3], m3)->Next_0;
    assert(m4.stack =~= one.push(Val::I32(address)));
    let m5 = machine::run_instr(code[4], m4)->Next_0;
    assert(m5.stack =~= one.push(Val::I64(address as u32 as u64)));
    let m6 = machine::run_instr(code[5], m5)->Next_0;
    assert(m6.stack =~= one.push(Val::I64(address as u32 as u64)).push(Val::I64(width as u64)));
    let m7 = machine::run_instr(code[6], m6)->Next_0;
    let two = one.push(Val::I64(sum));
    assert(m7.stack =~= two);
    let m8 = machine::run_instr(code[7], m7)->Next_0;
    assert(m8.stack =~= two.push(Val::I32(d)));
    let m9 = machine::run_instr(code[8], m8)->Next_0;
    assert(m9.stack =~= two.push(Val::I32(got as i32)));
    let m10 = machine::run_instr(code[9], m9)->Next_0;
    assert(m10.stack =~= two.push(Val::I64(cap as u64)));
    let m11 = machine::run_instr(code[10], m10)->Next_0;
    assert(m11.stack =~= one.push(machine::bit(true)));
    let m12 = machine::run_instr(code[11], m11)->Next_0;
    assert(1i32 & 1i32 == 1i32) by (bit_vector);
    assert(m12.stack =~= one);
    assert(m12 =~= m.put(0, machine::bit(true)));
    assert(machine::forward(code, 0, m) == Some(m12));
    machine::lemma_forward(code, m, 0);
}

pub proof fn lemma_dm_address(m: Machine, base: u32, cap: u32, address: i32)
    requires
        has_domain(m, base, cap),
        m.locals[SCRATCH as int] == Val::I32(address),
        (address as u32) <= cap,
    ensures
        machine::run(machine::plains(linear::dm_address()), m, 0) == Outcome::Next(
            m.put(0, Val::I32((base as i32).wrapping_add(address))),
        ),
        (base as i32).wrapping_add(address) as u32 == base + (address as u32),
{
    reveal(linear::dm_address);
    let code = linear::dm_address();
    let low = m.stack;
    let d = pair_of(m);
    let at = d as u32 as int;
    lemma_casts(base, address as u32);
    assert((address as u32) as i32 == address) by (bit_vector);
    let got = machine::number(m.outer.subrange(at, at + 4));
    reveal_with_fuel(machine::forward, 5);
    let m1 = machine::run_instr(code[0], m)->Next_0;
    assert(m1.stack =~= low.push(Val::I32(d)));
    let m2 = machine::run_instr(code[1], m1)->Next_0;
    assert(m2.stack =~= low.push(Val::I32(got as i32)));
    let m3 = machine::run_instr(code[2], m2)->Next_0;
    assert(m3.stack =~= low.push(Val::I32(base as i32)).push(Val::I32(address)));
    let m4 = machine::run_instr(code[3], m3)->Next_0;
    assert(m4 =~= m.put(0, Val::I32((base as i32).wrapping_add(address))));
    assert(machine::forward(code, 0, m) == Some(m4));
    machine::lemma_forward(code, m, 0);
}

/// The inline load from domain memory, where all its bytes are inside, reads what the helper
/// reads of these bytes.
pub proof fn domain_loads_match_the_helper(
    width: u32,
    m: Machine,
    below: Seq<Val>,
    base: u32,
    cap: u32,
    address: i32,
)
    requires
        has_domain(m, base, cap),
        is_width(width),
        m.stack == below.push(Val::I64(linear::int_word(address))),
        (address as u32) + width <= cap,
    ensures
        leaves(
            linear::dm_load_code(width),
            m,
            below,
            Val::I64(
                linear::int_word(
                    helpers::loaded(
                        domain(m, base, cap).subrange(
                            address as u32 as int,
                            (address as u32) + width,
                        ),
                    ),
                ),
            ),
        ),
{
    reveal(linear::dm_load_code);
    lemma_int_words(address);
    let first = address as u32 as int;
    let bytes = domain(m, base, cap).subrange(first, first + width);
    let v = helpers::loaded(bytes);
    let stash = seq![Instr::Cvt(Cvtop::I32WrapI64), Instr::LocalSet(SCRATCH)];
    let check = linear::dm_check(width);
    let load = seq![Instr::Access(linear::load_of(width), linear::field(0, Align::One))];
    let arm = linear::dm_address() + load + linear::box_int();
    let other = seq![Instr::LocalGet(SCRATCH)] + linear::box_int() + seq![
        Instr::Call(crate::lower::manifest::dm_load_helper(width)),
    ];
    let yes = machine::plains(arm);
    let no = machine::plains(other);
    let pick = seq![Node::Pick(BlockTy::I64, yes, no)];
    let nodes = machine::plains(stash + check) + pick;
    machine::lemma_flat_plains(stash + check);
    machine::lemma_flat_plains(arm);
    machine::lemma_flat_plains(other);
    lemma_flat_pick(BlockTy::I64, yes, no);
    machine::lemma_flat_concat(machine::plains(stash + check), pick);
    assert(machine::flat(nodes) =~= linear::dm_load_code(width));
    reveal_with_fuel(machine::forward, 3);
    let s1 = machine::run_instr(stash[0], m)->Next_0;
    assert(s1.stack =~= below.push(Val::I32(address)));
    let s2 = machine::run_instr(stash[1], s1)->Next_0;
    assert(s2.stack =~= below);
    assert(machine::forward(stash, 0, m) == Some(s2));
    machine::lemma_forward(stash, m, 0);
    lemma_parts(stash, check, m);
    lemma_dm_check(width, s2, base, cap, address);
    let tested = s2.put(0, machine::bit(true));
    let m0 = tested.shed(1);
    assert(m0 =~= s2);
    lemma_dm_address(s2, base, cap, address);
    let to = (base as i32).wrapping_add(address);
    let m1 = s2.put(0, Val::I32(to));
    assert(m1.stack =~= below.push(Val::I32(to)));
    assert(m.outer.subrange(base + first, base + first + width) =~= bytes);
    let m2 = machine::run_instr(load[0], m1)->Next_0;
    assert(machine::number(bytes) as i32 == v) by {
        let x = machine::number(bytes);
        assert(x as i32 == if x > 0x7fff_ffff {
            x - 0x1_0000_0000
        } else {
            x as int
        }) by (bit_vector);
    }
    assert(m2.stack =~= below.push(Val::I32(v)));
    assert(machine::forward(load, 0, m1) == Some(m2));
    machine::lemma_forward(load, m1, 0);
    lemma_box(m2, v);
    let m3 = m2.put(1, Val::I64(linear::int_word(v)));
    assert(m3.stack =~= below.push(Val::I64(linear::int_word(v))));
    lemma_parts(linear::dm_address() + load, linear::box_int(), s2);
    lemma_parts(linear::dm_address(), load, s2);
    lemma_pick(BlockTy::I64, yes, no, tested, true, m3);
    machine::lemma_run_concat(machine::plains(stash + check), pick, m, 0);
}

/// The value and the address of a store, as ints into their scratch locals.
proof fn lemma_store_operands(m: Machine, below: Seq<Val>, value: i32, address: i32) -> (m2: Machine)
    requires
        m.locals.len() == 19,
        m.stack == below.push(Val::I64(linear::int_word(value))).push(
            Val::I64(linear::int_word(address)),
        ),
    ensures
        machine::run(
            machine::plains(
                seq![
                    Instr::Cvt(Cvtop::I32WrapI64),
                    Instr::LocalSet(SCRATCH),
                    Instr::Cvt(Cvtop::I32WrapI64),
                    Instr::LocalSet(SCRATCH2),
                ],
            ),
            m,
            0,
        ) == Outcome::Next(m2),
        m2 == (Machine {
            locals: m.locals.update(SCRATCH as int, Val::I32(address)).update(
                SCRATCH2 as int,
                Val::I32(value),
            ),
            stack: below,
            ..m
        }),
{
    let code = seq![
        Instr::Cvt(Cvtop::I32WrapI64),
        Instr::LocalSet(SCRATCH),
        Instr::Cvt(Cvtop::I32WrapI64),
        Instr::LocalSet(SCRATCH2),
    ];
    lemma_int_words(value);
    lemma_int_words(address);
    let one = below.push(Val::I64(linear::int_word(value)));
    reveal_with_fuel(machine::forward, 5);
    let m1 = machine::run_instr(code[0], m)->Next_0;
    assert(m1.stack =~= one.push(Val::I32(address)));
    let m2 = machine::run_instr(code[1], m1)->Next_0;
    assert(m2.stack =~= one);
    let m3 = machine::run_instr(code[2], m2)->Next_0;
    assert(m3.stack =~= below.push(Val::I32(value)));
    let m4 = machine::run_instr(code[3], m3)->Next_0;
    assert(m4.stack =~= below);
    assert(machine::forward(code, 0, m) == Some(m4));
    machine::lemma_forward(code, m, 0);
    m4
}

/// The inline store to domain memory, where all its bytes are inside, writes there the bytes that
/// the helper writes, and nothing else.
pub proof fn domain_stores_match_the_helper(
    lay: Layout,
    width: u32,
    m: Machine,
    below: Seq<Val>,
    base: u32,
    cap: u32,
    value: i32,
    address: i32,
)
    requires
        has_domain(m, base, cap),
        is_width(width),
        m.stack == below.push(Val::I64(linear::int_word(value))).push(
            Val::I64(linear::int_word(address)),
        ),
        (address as u32) + width <= cap,
    ensures
        exists|nodes: Seq<Node>| #[trigger]
            machine::flat(nodes) == linear::dm_store_code(lay, width) && (machine::run(
                nodes,
                m,
                0,
            ) matches Outcome::Next(m2) && m2.stack == below && m2.memory == m.memory && ({
                let to = base + (address as u32);
                m2.outer == m.outer.take(to) + helpers::stored(value, width as nat) + m.outer.skip(
                    to + width,
                )
            })),
{
    reveal(linear::dm_store_code);
    let stash = seq![
        Instr::Cvt(Cvtop::I32WrapI64),
        Instr::LocalSet(SCRATCH),
        Instr::Cvt(Cvtop::I32WrapI64),
        Instr::LocalSet(SCRATCH2),
    ];
    let check = linear::dm_check(width);
    let store = seq![
        Instr::LocalGet(SCRATCH2),
        Instr::Access(linear::store_of(width), linear::field(0, Align::One)),
    ];
    let arm = linear::dm_address() + store;
    let other = seq![Instr::LocalGet(SCRATCH2)] + linear::box_int() + seq![
        Instr::LocalGet(SCRATCH),
    ] + linear::box_int() + seq![
        Instr::I64Const(width as u64),
        Instr::Call(lay.set3_index@[DM_STORE_KIND as int]),
        Instr::Drop,
    ];
    let yes = machine::plains(arm);
    let no = machine::plains(other);
    let pick = seq![Node::Pick(BlockTy::Empty, yes, no)];
    let nodes = machine::plains(stash + check) + pick;
    machine::lemma_flat_plains(stash + check);
    machine::lemma_flat_plains(arm);
    machine::lemma_flat_plains(other);
    lemma_flat_pick(BlockTy::Empty, yes, no);
    machine::lemma_flat_concat(machine::plains(stash + check), pick);
    assert(machine::flat(nodes) =~= linear::dm_store_code(lay, width));
    let s2 = lemma_store_operands(m, below, value, address);
    lemma_parts(stash, check, m);
    lemma_dm_check(width, s2, base, cap, address);
    let tested = s2.put(0, machine::bit(true));
    assert(tested.shed(1) =~= s2);
    lemma_dm_address(s2, base, cap, address);
    let at = (base as i32).wrapping_add(address);
    let m1 = s2.put(0, Val::I32(at));
    assert(m1.stack =~= below.push(Val::I32(at)));
    reveal_with_fuel(machine::forward, 3);
    let m2 = machine::run_instr(store[0], m1)->Next_0;
    assert(m2.stack =~= below.push(Val::I32(at)).push(Val::I32(value)));
    let m3 = machine::run_instr(store[1], m2)->Next_0;
    assert(m3.stack =~= below);
    assert(machine::forward(store, 0, m1) == Some(m3));
    machine::lemma_forward(store, m1, 0);
    lemma_parts(linear::dm_address(), store, s2);
    lemma_pick(BlockTy::Empty, yes, no, tested, true, m3);
    machine::lemma_run_concat(machine::plains(stash + check), pick, m, 0);
}

} // verus!
