//! The int and the double model do what ops mean.
//!
//! The int model keeps operands as raw ints, where [`crate::faithful`] speaks of their words; the
//! double model keeps them as doubles.

use crate::faithful;
use crate::faithful::{Move, Words};
use crate::lower::agree;
use crate::lower::doubles;
use crate::lower::fast;
use crate::lower::linear;
use crate::lower::machine;
use crate::lower::machine::{Machine, Node, Outcome, Val};
use crate::lower::manifest::Layout;
use crate::lower::numeric;
use crate::lower::op::JitOp;
use crate::lower::wasm::{Binop, Instr, Target};
use crate::model::{State, Turn};
use crate::reference;
use crate::sense;
use crate::sense::{Served, Service, World};
use crate::translate;
use crate::translate::Op;
use vstd::arithmetic::power2;
use vstd::prelude::*;

verus! {

// Ints.

/// There are so many operands, and they are ints.
pub open spec fn are_ints(args: Seq<u64>, n: nat) -> bool {
    args.len() == n && forall|k: int| 0 <= k < n ==> faithful::is_int(#[trigger] args[k])
}

/// The world knows ints: how they compare, that an int as an int is that int, also where the
/// method is declared to return one, and what is true. A scope can be pushed.
pub open spec fn knows_ints<H>(w: World<H>) -> bool {
    &&& forall|args: Seq<u64>, h: H|
        are_ints(args, 2) ==> #[trigger] (w.serve)(Service::Less, args, h) == Served::Word(
            sense::bool_word(reference::int_of(args[0]) < reference::int_of(args[1])),
            h,
        )
    &&& forall|args: Seq<u64>, h: H|
        are_ints(args, 2) ==> #[trigger] (w.serve)(Service::LessOrEqual, args, h) == Served::Word(
            sense::bool_word(reference::int_of(args[0]) <= reference::int_of(args[1])),
            h,
        )
    &&& forall|args: Seq<u64>, h: H|
        are_ints(args, 2) ==> #[trigger] (w.serve)(Service::Greater, args, h) == Served::Word(
            sense::bool_word(reference::int_of(args[0]) > reference::int_of(args[1])),
            h,
        )
    &&& forall|args: Seq<u64>, h: H|
        are_ints(args, 2) ==> #[trigger] (w.serve)(Service::GreaterOrEqual, args, h) == Served::Word(
            sense::bool_word(reference::int_of(args[0]) >= reference::int_of(args[1])),
            h,
        )
    &&& forall|args: Seq<u64>, h: H|
        are_ints(args, 2) ==> #[trigger] (w.serve)(Service::Equal, args, h) == Served::Word(
            sense::bool_word(reference::int_of(args[0]) == reference::int_of(args[1])),
            h,
        )
    &&& forall|args: Seq<u64>, h: H|
        are_ints(args, 1) ==> #[trigger] (w.serve)(Service::ToInt, args, h) == Served::Word(
            args[0],
            h,
        )
    &&& forall|args: Seq<u64>, h: H|
        are_ints(args, 1) ==> #[trigger] (w.serve)(Service::ToReturnType, args, h) == Served::Word(
            args[0],
            h,
        )
    &&& forall|a: i32| #[trigger] (w.truth)(linear::int_word(a)) == (a != 0)
    &&& forall|b: bool| #[trigger] (w.truth)(sense::bool_word(b)) == b
    &&& forall|args: Seq<u64>, h: H| #[trigger] (w.serve)(Service::PushScope, args, h) is Word
}

/// The word of the int model stands for that word: it is the same, or the int 1 or 0 for a
/// boolean.
pub open spec fn stands_for(raw: u64, word: u64) -> bool {
    ||| raw == word
    ||| raw == linear::int_word(1) && word == sense::bool_word(true)
    ||| raw == linear::int_word(0) && word == sense::bool_word(false)
}

pub open spec fn all_stand_for(raw: Seq<u64>, words: Seq<u64>) -> bool {
    &&& raw.len() == words.len()
    &&& forall|k: int| 0 <= k < raw.len() ==> stands_for(#[trigger] raw[k], words[k])
}

pub open spec fn alike<H>(f: Words, s: State<H>) -> bool {
    &&& f.pc == s.pc
    &&& all_stand_for(f.locals, s.locals)
    &&& all_stand_for(f.stack, s.stack)
}

/// What the op uses as ints are ints. A branch may use a boolean.
pub open spec fn uses_ints<H>(op: Op, o: JitOp, s: State<H>) -> bool {
    &&& op is CoerceI ==> s.stack.len() >= 1 && faithful::is_int(s.stack.last())
    &&& !(o is IfTrue || o is IfFalse) ==> forall|k: int|
        s.stack.len() - faithful::int_operands(o) <= k < s.stack.len() ==> faithful::is_int(
            #[trigger] s.stack[k],
        )
    &&& o matches JitOp::IncLocalI(i) ==> faithful::is_int(s.locals[i as int])
    &&& o matches JitOp::DecLocalI(i) ==> faithful::is_int(s.locals[i as int])
}

#[verifier::rlimit(40)]
proof fn lemma_words_differ()
    ensures
        forall|b: bool, v: i32| #[trigger] sense::bool_word(b) != #[trigger] linear::int_word(v),
        forall|v: i32| reference::int_of(#[trigger] linear::int_word(v)) == v,
{
    assert forall|b: bool, v: i32| #[trigger] sense::bool_word(b) != #[trigger] linear::int_word(
        v,
    ) by {
        let low = v as u32 as u64;
        assert(0xFFFA_0000_0000_0000u64 | 1 != 0xFFFB_0000_0000_0000u64 | low
            && 0xFFFA_0000_0000_0000u64 != 0xFFFB_0000_0000_0000u64 | low) by (bit_vector)
            requires
                low <= 0xffff_ffff,
        ;
    }
    assert forall|v: i32| reference::int_of(#[trigger] linear::int_word(v)) == v by {
        fast::lemma_int_words(v);
    }
}

/// An op of the int model does what its op means, for operands that are ints where the op uses
/// them as ints.
#[verifier::spinoff_prover]
#[verifier::rlimit(80)]
pub proof fn int_ops_mean_what_their_ops_mean<H>(
    w: World<H>,
    op: Op,
    ops: Seq<JitOp>,
    f: Words,
    s: State<H>,
)
    requires
        knows_ints(w),
        0 <= f.pc < ops.len(),
        translate::int_op(op) == Some(ops[f.pc]),
        alike(f, s),
        uses_ints(op, ops[f.pc], s),
        !(faithful::word_step(ops, f) is Stuck),
    ensures
        sense::op_sense(op) matches Some(sense) && match sense::turn(w, sense, s) {
            Turn::Next(t) => faithful::word_step(ops, f) matches Move::Next(g) && alike(g, t),
            Turn::Returned(v, _) => faithful::word_step(ops, f) matches Move::Returned(u)
                && stands_for(u, v),
            _ => false,
        },
{
    lemma_words_differ();
    let o = ops[f.pc];
    let n = s.stack.len() as int;
    let a = reference::int_of(s.stack[n - 2]);
    let b = reference::int_of(s.stack[n - 1]);
    sense::lemma_wrapping(a, b);
    sense::lemma_wrapping(b, 1);
    if n >= 1 {
        assert(s.stack.skip(n - 1) =~= seq![s.stack[n - 1]]);
        assert(stands_for(f.stack[n - 1], s.stack[n - 1]));
        assert(s.stack.take(n) =~= s.stack);
    }
    if n >= 2 {
        assert(s.stack.skip(n - 2) =~= seq![s.stack[n - 2], s.stack[n - 1]]);
        assert(stands_for(f.stack[n - 2], s.stack[n - 2]));
    }
    if let JitOp::IncLocalI(i) = o {
        assert(stands_for(f.locals[i as int], s.locals[i as int]));
        sense::lemma_wrapping(reference::int_of(s.locals[i as int]), 1);
    }
    if let JitOp::DecLocalI(i) = o {
        assert(stands_for(f.locals[i as int], s.locals[i as int]));
        sense::lemma_wrapping(reference::int_of(s.locals[i as int]), 1);
    }
    if let JitOp::PushInt(v) = o {
        sense::lemma_wrapping(v, 0);
    }
    let turned = sense::turn(w, sense::op_sense(op)->0, s);
    if let Turn::Next(t) = turned {
        assert(faithful::word_step(ops, f) is Next);
        let g = faithful::word_step(ops, f)->Next_0;
        assert(all_stand_for(g.locals, t.locals));
        assert(all_stand_for(g.stack, t.stack));
    }
}

// Doubles.

/// The code of the op in the double model.
pub open spec fn double_code(op: Op, lay: Layout, target: Target) -> Option<Seq<Instr>> {
    match translate::double_op(op) {
        Some(o) => linear::op_code(o, lay, target),
        None => None,
    }
}

/// Running the code leaves the double on top of those operands, and changes nothing else.
pub open spec fn leaves_double(code: Seq<Instr>, m: Machine, below: Seq<Val>, r: u64) -> bool {
    machine::run(machine::plains(code), m, 0) == Outcome::Next(
        Machine { stack: below.push(Val::F64(r)), ..m },
    )
}

/// The result of the op on two numbers, in units, as a fraction.
pub open spec fn exact_result(op: Op, x: int, y: int) -> (int, int) {
    match op {
        Op::Add => (x + y, 1),
        Op::Subtract => (x - y, 1),
        Op::Multiply => (x * y, doubles::unit()),
        _ => if y > 0 {
            (x * doubles::unit(), y)
        } else {
            (-x * doubles::unit(), -y)
        },
    }
}

#[verifier::rlimit(40)]
proof fn lemma_single(i: Instr, m: Machine)
    requires
        machine::plain(i, m) is Some,
        !(i is Br || i is BrTable || i is Return),
    ensures
        machine::run(machine::plains(seq![i]), m, 0) == Outcome::Next(machine::plain(i, m)->0),
{
    reveal_with_fuel(machine::forward, 2);
    let m1 = machine::plain(i, m)->0;
    assert(machine::run_instr(i, m) == Outcome::Next(m1));
    assert(machine::forward(seq![i], 0, m) == Some(m1));
    machine::lemma_forward(seq![i], m, 0);
}

/// `+`, `-`, `*` and `/` of the double model leave the double that is nearest to the exact result,
/// for finite operands and results.
#[verifier::rlimit(40)]
pub proof fn double_arithmetic_is_exact_but_for_rounding(
    op: Op,
    lay: Layout,
    target: Target,
    m: Machine,
    below: Seq<Val>,
    a: u64,
    b: u64,
)
    requires
        op is Add || op is Subtract || op is Multiply || op is Divide,
        m.stack == below.push(Val::F64(a)).push(Val::F64(b)),
        doubles::is_finite(a),
        doubles::is_finite(b),
        op is Divide ==> doubles::value(b) != 0,
        ({
            let (n, d) = exact_result(op, doubles::value(a), doubles::value(b));
            doubles::is_within(n, d)
        }),
    ensures
        ({
            let (n, d) = exact_result(op, doubles::value(a), doubles::value(b));
            double_code(op, lay, target) matches Some(code) && exists|r: u64| #[trigger]
                doubles::is_nearest(r, n, d) && leaves_double(code, m, below, r)
        }),
{
    let (n, d) = exact_result(op, doubles::value(a), doubles::value(b));
    let r = doubles::rounded(n, d);
    doubles::lemma_rounds(n, d);
    let code = double_code(op, lay, target)->0;
    let i = code[0];
    assert(code =~= seq![i]);
    assert(machine::computed(i->Bin_0, m.top(2), m.top(1)) == Some(Val::F64(r)));
    assert(m.put(2, Val::F64(r)).stack =~= below.push(Val::F64(r)));
    lemma_single(i, m);
    assert(leaves_double(code, m, below, r));
}

#[verifier::rlimit(40)]
proof fn lemma_one()
    ensures
        doubles::is_finite(linear::ONE_BITS),
        doubles::value(linear::ONE_BITS) == doubles::unit(),
{
    power2::lemma2_to64();
    power2::lemma2_to64_rest();
    power2::lemma_pow2_adds(52, 1022);
    let bits: u64 = linear::ONE_BITS;
    assert(doubles::exponent_of(bits) == 0x3ff);
    assert(doubles::fraction_of(bits) == 0);
}

/// One more or less.
pub open spec fn stepped(op: Op, x: int) -> int {
    if op is Increment {
        x + doubles::unit()
    } else {
        x - doubles::unit()
    }
}

/// Increment and decrement of the double model leave the double that is nearest to one more or
/// less.
#[verifier::rlimit(40)]
pub proof fn double_steps_are_exact_but_for_rounding(
    op: Op,
    lay: Layout,
    target: Target,
    m: Machine,
    below: Seq<Val>,
    a: u64,
)
    requires
        op is Increment || op is Decrement,
        m.stack == below.push(Val::F64(a)),
        doubles::is_finite(a),
        doubles::is_within(stepped(op, doubles::value(a)), 1),
    ensures
        double_code(op, lay, target) matches Some(code) && exists|r: u64| #[trigger]
            doubles::is_nearest(r, stepped(op, doubles::value(a)), 1) && leaves_double(
                code,
                m,
                below,
                r,
            ),
{
    lemma_one();
    let n = stepped(op, doubles::value(a));
    let r = doubles::rounded(n, 1);
    doubles::lemma_rounds(n, 1);
    let code = double_code(op, lay, target)->0;
    let one = Instr::F64Const(linear::ONE_BITS);
    let add = Instr::Bin(
        if op is Increment {
            Binop::F64Add
        } else {
            Binop::F64Sub
        },
    );
    assert(code =~= seq![one] + seq![add]);
    let m1 = m.put(0, Val::F64(linear::ONE_BITS));
    lemma_single(one, m);
    assert(m1.top(2) == Val::F64(a));
    assert(m1.top(1) == Val::F64(linear::ONE_BITS));
    assert(machine::computed(add->Bin_0, m1.top(2), m1.top(1)) == Some(Val::F64(r)));
    lemma_single(add, m1);
    assert(m1.put(2, Val::F64(r)).stack =~= below.push(Val::F64(r)));
    fast::lemma_parts(seq![one], seq![add], m);
    assert(leaves_double(code, m, below, r));
}

/// Negation of the double model turns the sign.
#[verifier::rlimit(40)]
pub proof fn double_negation_turns_the_sign(
    lay: Layout,
    target: Target,
    m: Machine,
    below: Seq<Val>,
    a: u64,
)
    requires
        m.stack == below.push(Val::F64(a)),
    ensures
        double_code(Op::Negate, lay, target) matches Some(code) && exists|r: u64|
            doubles::value(r) == -doubles::value(a) && doubles::is_nan(r) == doubles::is_nan(a)
                && #[trigger] leaves_double(code, m, below, r),
{
    let code = double_code(Op::Negate, lay, target)->0;
    let r = a ^ 0x8000_0000_0000_0000;
    assert((a >= 0x8000_0000_0000_0000 ==> a ^ 0x8000_0000_0000_0000 == a - 0x8000_0000_0000_0000)
        && (a < 0x8000_0000_0000_0000 ==> a ^ 0x8000_0000_0000_0000 == a + 0x8000_0000_0000_0000))
        by (bit_vector);
    lemma_sign(a, r);
    assert(code =~= seq![code[0]]);
    assert(m.put(1, Val::F64(r)).stack =~= below.push(Val::F64(r)));
    lemma_single(code[0], m);
    assert(leaves_double(code, m, below, r));
}

#[verifier::rlimit(40)]
proof fn lemma_sign(a: u64, r: u64)
    requires
        a >= 0x8000_0000_0000_0000 ==> r == a - 0x8000_0000_0000_0000,
        a < 0x8000_0000_0000_0000 ==> r == a + 0x8000_0000_0000_0000,
    ensures
        doubles::exponent_of(r) == doubles::exponent_of(a),
        doubles::fraction_of(r) == doubles::fraction_of(a),
        (r >= 0x8000_0000_0000_0000) != (a >= 0x8000_0000_0000_0000),
{
    let low = if a >= 0x8000_0000_0000_0000 {
        r as int
    } else {
        a as int
    };
    let high = low + 0x8000_0000_0000_0000;
    assert(high == low + 0x800 * 0x10_0000_0000_0000);
    assert(high % 0x10_0000_0000_0000 == low % 0x10_0000_0000_0000);
    assert(high / 0x10_0000_0000_0000 == low / 0x10_0000_0000_0000 + 0x800);
}

/// A constant of the double model is that double.
#[verifier::rlimit(40)]
pub proof fn double_constants_are_pushed(
    bits: u64,
    double: u64,
    lay: Layout,
    target: Target,
    m: Machine,
)
    ensures
        double_code(Op::PushDouble { bits, double }, lay, target) matches Some(code)
            && leaves_double(code, m, m.stack, double),
{
    let code = double_code(Op::PushDouble { bits, double }, lay, target)->0;
    assert(code =~= seq![code[0]]);
    assert(m.put(0, Val::F64(double)).stack =~= m.stack.push(Val::F64(double)));
    lemma_single(code[0], m);
}

/// The word of a double is returned, where it is no NaN.
#[verifier::rlimit(40)]
pub proof fn doubles_are_returned(m: Machine, below: Seq<Val>, r: u64) -> (nodes: Seq<Node>)
    requires
        m.locals.len() == 19,
        m.stack == below.push(Val::F64(r)),
        !doubles::is_nan(r),
    ensures
        machine::flat(nodes) == linear::box_double() + seq![Instr::Return],
        machine::run(nodes, m, 0) == Outcome::Returned(r),
{
    let m2 = numeric::lemma_boxing(m, below, r);
    let last = machine::plains(seq![Instr::Return]);
    let nodes = numeric::boxing() + last;
    machine::lemma_flat_concat(numeric::boxing(), last);
    machine::lemma_flat_plains(seq![Instr::Return]);
    machine::lemma_run_concat(numeric::boxing(), last, m, 0);
    assert(last =~= seq![Node::Plain(Instr::Return)]);
    machine::lemma_run_one(Node::Plain(Instr::Return), m2, 0);
    nodes
}

/// A local of the double model is the double in that register.
#[verifier::rlimit(40)]
pub proof fn double_locals_are_read(
    i: u32,
    lay: Layout,
    target: Target,
    m: Machine,
    base: i32,
    regs: Seq<u64>,
)
    requires
        m.locals.len() == 19,
        m.locals[0] == Val::I32(base),
        agree::holds(m.memory, base as u32 as int, regs),
        i < regs.len(),
    ensures
        double_code(Op::GetLocal { index: i }, lay, target) matches Some(code) && leaves_double(
            code,
            m,
            m.stack,
            regs[i as int],
        ),
{
    let code = double_code(Op::GetLocal { index: i }, lay, target)->0;
    reveal_with_fuel(machine::forward, 4);
    let at = base as u32 as int + 8 * (i as int);
    assert(machine::load(m.memory, at) == regs[i as int]);
    assert(machine::address(base, linear::slot_of(i), m.memory.len()) == Some(at));
    let m1 = machine::run_instr(code[0], m)->Next_0;
    assert(m1.stack =~= m.stack.push(Val::I32(base)));
    let m2 = machine::run_instr(code[1], m1)->Next_0;
    assert(m2.stack =~= m.stack.push(Val::I64(regs[i as int])));
    let m3 = machine::run_instr(code[2], m2)->Next_0;
    assert(m3.stack =~= m.stack.push(Val::F64(regs[i as int])));
    assert(machine::forward(code, 0, m) == Some(m3));
    machine::lemma_forward(code, m, 0);
    assert(m3 == Machine { stack: m.stack.push(Val::F64(regs[i as int])), ..m });
}

/// A store of the double model leaves the double in that register, where it is no NaN.
#[verifier::rlimit(40)]
pub proof fn double_locals_are_written(
    i: u32,
    lay: Layout,
    target: Target,
    m: Machine,
    below: Seq<Val>,
    r: u64,
    base: i32,
    regs: Seq<u64>,
) -> (nodes: Seq<Node>)
    requires
        m.locals.len() == 19,
        m.locals[0] == Val::I32(base),
        agree::holds(m.memory, base as u32 as int, regs),
        i < regs.len(),
        m.stack == below.push(Val::F64(r)),
        !doubles::is_nan(r),
    ensures
        double_code(Op::SetLocal { index: i }, lay, target) == Some(machine::flat(nodes)),
        machine::run(nodes, m, 0) matches Outcome::Next(m2) && m2.stack == below && agree::holds(
            m2.memory,
            base as u32 as int,
            regs.update(i as int, r),
        ),
{
    let code = linear::set_word(i);
    let m1 = numeric::lemma_boxing(m, below, r);
    let nodes = numeric::boxing() + machine::plains(code);
    machine::lemma_flat_concat(numeric::boxing(), machine::plains(code));
    machine::lemma_flat_plains(code);
    machine::lemma_run_concat(numeric::boxing(), machine::plains(code), m, 0);
    reveal_with_fuel(machine::forward, 5);
    let at = base as u32 as int + 8 * (i as int);
    assert(machine::address(base, linear::slot_of(i), m.memory.len()) == Some(at));
    let n1 = machine::run_instr(code[0], m1)->Next_0;
    assert(n1.stack =~= below);
    let n2 = machine::run_instr(code[1], n1)->Next_0;
    assert(n2.stack =~= below.push(Val::I32(base)));
    let n3 = machine::run_instr(code[2], n2)->Next_0;
    assert(n3.stack =~= below.push(Val::I32(base)).push(Val::I64(r)));
    let n4 = machine::run_instr(code[3], n3)->Next_0;
    assert(n4.stack =~= below);
    assert(machine::forward(code, 0, m1) == Some(n4));
    machine::lemma_forward(code, m1, 0);
    agree::lemma_store_holds(m.memory, base as u32 as int, regs, i as int, r);
    nodes
}

} // verus!
