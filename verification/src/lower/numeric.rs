//! On numbers, ints or doubles, the inline paths of ops compare and compute their values.
//!
//! [`crate::lower::fast`] says so of ints alone. Here the operands are any words of numbers. What
//! doubles are is said in [`crate::lower::doubles`].

use crate::lower::doubles;
use crate::lower::fast;
use crate::lower::linear;
use crate::lower::machine;
use crate::lower::machine::{Machine, Node, Outcome, Val};
use crate::lower::manifest::Layout;
use crate::lower::wasm::{
    Binop, BlockTy, Cvtop, Instr, Relop, BOX_MARK, CANON_NAN, SCRATCH64, SCRATCH64_2, SCRATCH_F64,
    VALUE_BOOL_MARK, VALUE_INT_MARK,
};
use vstd::prelude::*;

verus! {

/// The word is that of a double.
pub open spec fn shows_double(word: u64) -> bool {
    word & BOX_MARK != BOX_MARK
}

/// The word is that of a number.
pub open spec fn is_number(word: u64) -> bool {
    shows_double(word) || fast::shows_int(word)
}

/// The number is a NaN.
pub open spec fn is_nan(word: u64) -> bool {
    shows_double(word) && doubles::is_nan(word)
}

/// The number is an int, or a finite double.
pub open spec fn is_finite(word: u64) -> bool {
    is_number(word) && (shows_double(word) ==> doubles::is_finite(word))
}

/// How much the number is, in units.
pub open spec fn amount(word: u64) -> int {
    if shows_double(word) {
        doubles::value(word)
    } else {
        crate::reference::int_of(word) * doubles::unit()
    }
}

/// The number as a double.
pub open spec fn as_bits(word: u64) -> u64 {
    if shows_double(word) {
        word
    } else {
        doubles::double_of(crate::reference::int_of(word) as int)
    }
}

proof fn lemma_as_bits(word: u64)
    requires
        is_number(word),
    ensures
        doubles::value(as_bits(word)) == amount(word),
        doubles::is_nan(as_bits(word)) == is_nan(word),
        doubles::is_finite(as_bits(word)) == is_finite(word),
{
    if !shows_double(word) {
        doubles::lemma_double_of(crate::reference::int_of(word) as int);
    }
}

/// The word of an int is that of a number, and not that of a double.
pub proof fn lemma_int_is_number(v: i32)
    ensures
        fast::shows_int(linear::int_word(v)),
        !shows_double(linear::int_word(v)),
        crate::reference::int_of(linear::int_word(v)) == v,
        amount(linear::int_word(v)) == v * doubles::unit(),
{
    fast::lemma_int_words(v);
    let mark: u64 = VALUE_INT_MARK;
    let boxed: u64 = BOX_MARK;
    assert((mark | (v as u32 as u64)) & boxed == boxed) by (bit_vector)
        requires
            mark == 0xfffb_0000_0000_0000u64,
            boxed == 0xfff8_0000_0000_0000u64,
    ;
}

proof fn lemma_double_test(local: u32, m: Machine, word: u64)
    requires
        local < m.locals.len(),
        m.locals[local as int] == Val::I64(word),
    ensures
        machine::run(machine::plains(linear::is_f64(local)), m, 0) == Outcome::Next(
            m.put(0, machine::bit(shows_double(word))),
        ),
{
    reveal(linear::is_f64);
    let code = linear::is_f64(local);
    reveal_with_fuel(machine::forward, 6);
    let m1 = machine::run_instr(code[0], m)->Next_0;
    assert(m1.stack =~= m.stack.push(Val::I64(word)));
    let m2 = machine::run_instr(code[1], m1)->Next_0;
    assert(m2.stack =~= m.stack.push(Val::I64(word)).push(Val::I64(BOX_MARK)));
    let m3 = machine::run_instr(code[2], m2)->Next_0;
    assert(m3.stack =~= m.stack.push(Val::I64(word & BOX_MARK)));
    let m4 = machine::run_instr(code[3], m3)->Next_0;
    assert(m4.stack =~= m.stack.push(Val::I64(word & BOX_MARK)).push(Val::I64(BOX_MARK)));
    let m5 = machine::run_instr(code[4], m4)->Next_0;
    assert(m5 =~= m.put(0, machine::bit(shows_double(word))));
    assert(machine::forward(code, 0, m) == Some(m5));
    machine::lemma_forward(code, m, 0);
}

proof fn lemma_number_test(local: u32, m: Machine, word: u64)
    requires
        local < m.locals.len(),
        m.locals[local as int] == Val::I64(word),
    ensures
        machine::run(machine::plains(linear::is_numeric(local)), m, 0) == Outcome::Next(
            m.put(0, machine::bit(is_number(word))),
        ),
{
    reveal(linear::is_numeric);
    let one = linear::is_f64(local);
    let two = linear::is_int(local);
    let last = seq![Instr::Bin(Binop::I32Or)];
    fast::lemma_parts(one + two, last, m);
    fast::lemma_parts(one, two, m);
    lemma_double_test(local, m, word);
    let m1 = m.put(0, machine::bit(shows_double(word)));
    fast::lemma_test(local, m1, word);
    let m2 = m1.put(0, machine::bit(fast::shows_int(word)));
    let x = machine::bit(shows_double(word))->I32_0;
    let y = machine::bit(fast::shows_int(word))->I32_0;
    assert(x | y == if x == 1 || y == 1 {
        1i32
    } else {
        0
    }) by (bit_vector)
        requires
            x == 0 || x == 1,
            y == 0 || y == 1,
    ;
    let m3 = machine::run_instr(last[0], m2)->Next_0;
    assert(m3 =~= m.put(0, machine::bit(is_number(word))));
    reveal_with_fuel(machine::forward, 2);
    assert(machine::forward(last, 0, m2) == Some(m3));
    machine::lemma_forward(last, m2, 0);
}

/// The machine has both operands in their scratch locals.
spec fn holds_both(m: Machine, a: u64, b: u64) -> bool {
    &&& m.locals.len() == 19
    &&& m.locals[SCRATCH64_2 as int] == Val::I64(a)
    &&& m.locals[SCRATCH64 as int] == Val::I64(b)
}

spec fn both_tests() -> Seq<Instr> {
    linear::is_numeric(SCRATCH64_2) + linear::is_numeric(SCRATCH64) + seq![
        Instr::Bin(Binop::I32And),
    ]
}

proof fn lemma_both_tests(m: Machine, a: u64, b: u64)
    requires
        holds_both(m, a, b),
    ensures
        machine::run(machine::plains(both_tests()), m, 0) == Outcome::Next(
            m.put(0, machine::bit(is_number(a) && is_number(b))),
        ),
{
    let one = linear::is_numeric(SCRATCH64_2);
    let two = linear::is_numeric(SCRATCH64);
    let last = seq![Instr::Bin(Binop::I32And)];
    fast::lemma_parts(one + two, last, m);
    fast::lemma_parts(one, two, m);
    lemma_number_test(SCRATCH64_2, m, a);
    let m1 = m.put(0, machine::bit(is_number(a)));
    lemma_number_test(SCRATCH64, m1, b);
    let m2 = m1.put(0, machine::bit(is_number(b)));
    let x = machine::bit(is_number(a))->I32_0;
    let y = machine::bit(is_number(b))->I32_0;
    assert(x & y == if x == 1 && y == 1 {
        1i32
    } else {
        0
    }) by (bit_vector)
        requires
            x == 0 || x == 1,
            y == 0 || y == 1,
    ;
    let m3 = machine::run_instr(last[0], m2)->Next_0;
    assert(m3 =~= m.put(0, machine::bit(is_number(a) && is_number(b))));
    reveal_with_fuel(machine::forward, 2);
    assert(machine::forward(last, 0, m2) == Some(m3));
    machine::lemma_forward(last, m2, 0);
}

/// The number of a word, as a double.
pub proof fn lemma_numval(local: u32, m: Machine, word: u64)
    requires
        local < m.locals.len(),
        m.locals[local as int] == Val::I64(word),
    ensures
        machine::run(machine::plains(linear::numval(local)), m, 0) == Outcome::Next(
            m.put(0, Val::F64(as_bits(word))),
        ),
{
    reveal(linear::numval);
    let head = seq![
        Instr::LocalGet(local),
        Instr::Cvt(Cvtop::F64ReinterpretI64),
        Instr::LocalGet(local),
        Instr::Cvt(Cvtop::I32WrapI64),
        Instr::Cvt(Cvtop::F64ConvertI32S),
    ];
    let test = linear::is_f64(local);
    let last = seq![Instr::Select];
    let low = word as u32 as i32;
    let s = m.stack;
    fast::lemma_parts(head + test, last, m);
    fast::lemma_parts(head, test, m);
    reveal_with_fuel(machine::forward, 6);
    let m1 = machine::run_instr(head[0], m)->Next_0;
    assert(m1.stack =~= s.push(Val::I64(word)));
    let m2 = machine::run_instr(head[1], m1)->Next_0;
    assert(m2.stack =~= s.push(Val::F64(word)));
    let m3 = machine::run_instr(head[2], m2)->Next_0;
    assert(m3.stack =~= s.push(Val::F64(word)).push(Val::I64(word)));
    let m4 = machine::run_instr(head[3], m3)->Next_0;
    assert(m4.stack =~= s.push(Val::F64(word)).push(Val::I32(low)));
    let m5 = machine::run_instr(head[4], m4)->Next_0;
    let double = Val::F64(doubles::double_of(low as int));
    assert(m5.stack =~= s.push(Val::F64(word)).push(double));
    assert(machine::forward(head, 0, m) == Some(m5));
    machine::lemma_forward(head, m, 0);
    lemma_double_test(local, m5, word);
    let m6 = m5.put(0, machine::bit(shows_double(word)));
    assert(m6.stack =~= s.push(Val::F64(word)).push(double).push(
        machine::bit(shows_double(word)),
    ));
    let m7 = machine::run_instr(last[0], m6)->Next_0;
    assert(m7 =~= m.put(0, Val::F64(as_bits(word))));
    assert(machine::forward(last, 0, m6) == Some(m7));
    machine::lemma_forward(last, m6, 0);
}

spec fn both_values() -> Seq<Instr> {
    linear::numval(SCRATCH64_2) + linear::numval(SCRATCH64)
}

proof fn lemma_both_values(m: Machine, a: u64, b: u64)
    requires
        holds_both(m, a, b),
    ensures
        machine::run(machine::plains(both_values()), m, 0) == Outcome::Next(
            Machine {
                stack: m.stack.push(Val::F64(as_bits(a))).push(Val::F64(as_bits(b))),
                ..m
            },
        ),
{
    fast::lemma_parts(linear::numval(SCRATCH64_2), linear::numval(SCRATCH64), m);
    lemma_numval(SCRATCH64_2, m, a);
    let m1 = m.put(0, Val::F64(as_bits(a)));
    assert(m1.stack =~= m.stack.push(Val::F64(as_bits(a))));
    lemma_numval(SCRATCH64, m1, b);
    let m2 = m1.put(0, Val::F64(as_bits(b)));
    assert(m2.stack =~= m.stack.push(Val::F64(as_bits(a))).push(Val::F64(as_bits(b))));
}

/// Two operands into their scratch locals.
proof fn lemma_stash(m: Machine, below: Seq<Val>, a: u64, b: u64)
    requires
        fast::operands(m, below, a, b),
    ensures
        machine::run(machine::plains(linear::stash2()), m, 0) == Outcome::Next(
            fast::stashed(m, below, a, b),
        ),
        holds_both(fast::stashed(m, below, a, b), a, b),
{
    let stash = linear::stash2();
    reveal_with_fuel(machine::forward, 3);
    let s1 = machine::run_instr(stash[0], m)->Next_0;
    assert(s1.stack =~= below.push(Val::I64(a)));
    let s2 = machine::run_instr(stash[1], s1)->Next_0;
    assert(s2 =~= fast::stashed(m, below, a, b));
    assert(machine::forward(stash, 0, m) == Some(s2));
    machine::lemma_forward(stash, m, 0);
}

/// The comparison that a binary helper makes: 0 tells whether two numbers are equal, 1 whether the
/// first is less than the second, 2 whether it is at most the second, 3 whether it is more, 4
/// whether it is at least the second. Nothing of that holds of a NaN.
pub open spec fn relates(index: u32, a: u64, b: u64) -> bool {
    let (x, y) = (amount(a), amount(b));
    !is_nan(a) && !is_nan(b) && if index == 0 {
        x == y
    } else if index == 1 {
        x < y
    } else if index == 2 {
        x <= y
    } else if index == 3 {
        y < x
    } else {
        y <= x
    }
}

/// What is less, as the host tells its helpers: nothing is told of a NaN.
pub open spec fn less(a: u64, b: u64) -> Option<bool> {
    if is_nan(a) || is_nan(b) {
        None
    } else {
        Some(amount(a) < amount(b))
    }
}

/// The inline comparison of two numbers gives the boolean of the comparison that its index names:
/// of two ints, of two doubles, and of one of each. The helper of that index gives the same.
pub proof fn comparisons_compare_the_numbers(
    lay: Layout,
    index: u32,
    m: Machine,
    below: Seq<Val>,
    a: u64,
    b: u64,
)
    requires
        index <= 4,
        fast::operands(m, below, a, b),
        is_number(a),
        is_number(b),
    ensures
        fast::leaves(
            linear::compare_code(lay, index),
            m,
            below,
            Val::I64(fast::bool_word(relates(index, a, b))),
        ),
        index >= 1 ==> relates(index, a, b) == crate::helpers::ordering(
            index,
            if crate::helpers::is_swapped(index) {
                less(b, a)
            } else {
                less(a, b)
            },
        ),
{
    reveal(linear::compare_code);
    let code = linear::compare_code(lay, index);
    let base = fast::stashed(m, below, a, b);
    lemma_stash(m, below, a, b);
    lemma_both_tests(base, a, b);
    let head = linear::stash2() + both_tests();
    fast::lemma_parts(linear::stash2(), both_tests(), m);
    let tested = base.put(0, machine::bit(true));
    assert(tested.shed(1) =~= base);
    let tail = seq![
        Instr::Rel(linear::relation(index)),
        Instr::Cvt(Cvtop::I64ExtendI32U),
        Instr::I64Const(VALUE_BOOL_MARK),
        Instr::Bin(Binop::I64Or),
    ];
    let yes = machine::plains(both_values() + tail);
    let other = linear::fallback2(lay, index);
    let no = machine::plains(other);
    lemma_both_values(base, a, b);
    fast::lemma_parts(both_values(), tail, base);
    lemma_as_bits(a);
    lemma_as_bits(b);
    let (p, q) = (as_bits(a), as_bits(b));
    let holds = relates(index, a, b);
    let m0 = Machine { stack: below.push(Val::F64(p)).push(Val::F64(q)), ..base };
    assert(machine::compared_doubles(linear::relation(index), p, q) == Some(holds));
    reveal_with_fuel(machine::forward, 5);
    let m1 = machine::run_instr(tail[0], m0)->Next_0;
    assert(m1.stack =~= below.push(machine::bit(holds)));
    let x: i32 = if holds {
        1
    } else {
        0
    };
    let m2 = machine::run_instr(tail[1], m1)->Next_0;
    assert(m2.stack =~= below.push(Val::I64(x as u32 as u64)));
    let m3 = machine::run_instr(tail[2], m2)->Next_0;
    assert(m3.stack =~= below.push(Val::I64(x as u32 as u64)).push(Val::I64(VALUE_BOOL_MARK)));
    let m4 = machine::run_instr(tail[3], m3)->Next_0;
    let mark: u64 = VALUE_BOOL_MARK;
    assert((1i32 as u32 as u64) | mark == mark | 1 && (0i32 as u32 as u64) | mark == mark)
        by (bit_vector);
    assert(m4.stack =~= below.push(Val::I64(fast::bool_word(holds))));
    assert(machine::forward(tail, 0, m0) == Some(m4));
    machine::lemma_forward(tail, m0, 0);
    let pick = seq![Node::Pick(BlockTy::I64, yes, no)];
    let nodes = machine::plains(head) + pick;
    fast::lemma_pick(BlockTy::I64, yes, no, tested, true, m4);
    machine::lemma_run_concat(machine::plains(head), pick, m, 0);
    machine::lemma_flat_concat(machine::plains(head), pick);
    machine::lemma_flat_plains(head);
    machine::lemma_flat_plains(both_values() + tail);
    machine::lemma_flat_plains(other);
    fast::lemma_flat_pick(BlockTy::I64, yes, no);
    assert(machine::flat(nodes) =~= code);
}

/// The comparison of two ints.
pub proof fn comparisons_compare_ints(
    lay: Layout,
    index: u32,
    m: Machine,
    below: Seq<Val>,
    a: i32,
    b: i32,
)
    requires
        index <= 4,
        fast::operands(m, below, linear::int_word(a), linear::int_word(b)),
    ensures
        ({
            let gives = |holds: bool|
                fast::leaves(
                    linear::compare_code(lay, index),
                    m,
                    below,
                    Val::I64(fast::bool_word(holds)),
                );
            &&& index == 0 ==> gives(a == b)
            &&& index == 1 ==> gives(a < b)
            &&& index == 2 ==> gives(a <= b)
            &&& index == 3 ==> gives(a > b)
            &&& index == 4 ==> gives(a >= b)
        }),
{
    lemma_int_is_number(a);
    lemma_int_is_number(b);
    doubles::lemma_values_compare(a as int, b as int);
    doubles::lemma_values_compare(b as int, a as int);
    comparisons_compare_the_numbers(
        lay,
        index,
        m,
        below,
        linear::int_word(a),
        linear::int_word(b),
    );
}

/// The boxing of a result that is no NaN.
/// The code that does it, by its structure.
pub open spec fn boxing() -> Seq<Node> {
    machine::plains(
        seq![
            Instr::LocalSet(SCRATCH_F64),
            Instr::LocalGet(SCRATCH_F64),
            Instr::LocalGet(SCRATCH_F64),
            Instr::Rel(Relop::F64Ne),
        ],
    ) + seq![
        Node::Pick(
            BlockTy::I64,
            machine::plains(seq![Instr::I64Const(CANON_NAN)]),
            machine::plains(
                seq![Instr::LocalGet(SCRATCH_F64), Instr::Cvt(Cvtop::I64ReinterpretF64)],
            ),
        ),
    ]
}

/// A double that is no NaN becomes its word.
pub proof fn lemma_boxing(m: Machine, below: Seq<Val>, r: u64) -> (m2: Machine)
    requires
        m.locals.len() == 19,
        m.stack == below.push(Val::F64(r)),
        !doubles::is_nan(r),
    ensures
        machine::flat(boxing()) == linear::box_double(),
        machine::run(boxing(), m, 0) == Outcome::Next(m2),
        m2.stack == below.push(Val::I64(r)),
        m2.memory == m.memory,
        m2.outer == m.outer,
        m2.locals == m.locals.update(SCRATCH_F64 as int, Val::F64(r)),
{
    reveal(linear::box_double);
    reveal(linear::box_scratch_f64);
    let head = seq![
        Instr::LocalSet(SCRATCH_F64),
        Instr::LocalGet(SCRATCH_F64),
        Instr::LocalGet(SCRATCH_F64),
        Instr::Rel(Relop::F64Ne),
    ];
    let nan = seq![Instr::I64Const(CANON_NAN)];
    let number = seq![Instr::LocalGet(SCRATCH_F64), Instr::Cvt(Cvtop::I64ReinterpretF64)];
    let yes = machine::plains(nan);
    let no = machine::plains(number);
    let pick = seq![Node::Pick(BlockTy::I64, yes, no)];
    machine::lemma_flat_concat(machine::plains(head), pick);
    machine::lemma_flat_plains(head);
    machine::lemma_flat_plains(nan);
    machine::lemma_flat_plains(number);
    fast::lemma_flat_pick(BlockTy::I64, yes, no);
    assert(machine::flat(boxing()) =~= linear::box_double());
    reveal_with_fuel(machine::forward, 5);
    let m1 = machine::run_instr(head[0], m)->Next_0;
    assert(m1.stack =~= below);
    let m2 = machine::run_instr(head[1], m1)->Next_0;
    assert(m2.stack =~= below.push(Val::F64(r)));
    let m3 = machine::run_instr(head[2], m2)->Next_0;
    assert(m3.stack =~= below.push(Val::F64(r)).push(Val::F64(r)));
    let m4 = machine::run_instr(head[3], m3)->Next_0;
    assert(m4.stack =~= below.push(machine::bit(false)));
    assert(machine::forward(head, 0, m) == Some(m4));
    machine::lemma_forward(head, m, 0);
    let m5 = m4.shed(1);
    assert(m5.stack =~= below);
    let m6 = machine::run_instr(number[0], m5)->Next_0;
    assert(m6.stack =~= below.push(Val::F64(r)));
    let m7 = machine::run_instr(number[1], m6)->Next_0;
    assert(m7.stack =~= below.push(Val::I64(r)));
    assert(machine::forward(number, 0, m5) == Some(m7));
    machine::lemma_forward(number, m5, 0);
    fast::lemma_pick(BlockTy::I64, yes, no, m4, false, m7);
    machine::lemma_run_concat(machine::plains(head), pick, m, 0);
    m7
}

/// Two numbers by an operation on doubles.
proof fn lemma_double_arith(
    lay: Layout,
    index: u32,
    op: Binop,
    m: Machine,
    a: u64,
    b: u64,
    r: u64,
) -> (out: (Seq<Node>, Machine))
    requires
        holds_both(m, a, b),
        is_number(a),
        is_number(b),
        machine::computed(op, Val::F64(as_bits(a)), Val::F64(as_bits(b))) == Some(Val::F64(r)),
        !doubles::is_nan(r),
    ensures
        machine::flat(out.0) == linear::double_arith(lay, index, op),
        machine::run(out.0, m, 0) == Outcome::Next(out.1),
        out.1.stack == m.stack.push(Val::I64(r)),
        out.1.memory == m.memory,
        out.1.outer == m.outer,
{
    reveal(linear::double_arith);
    let below = m.stack;
    let step = seq![Instr::Bin(op)];
    let yes = machine::plains(both_values() + step) + boxing();
    let other = linear::fallback2(lay, index);
    let no = machine::plains(other);
    let pick = seq![Node::Pick(BlockTy::I64, yes, no)];
    let nodes = machine::plains(both_tests()) + pick;
    lemma_both_tests(m, a, b);
    let tested = m.put(0, machine::bit(true));
    assert(tested.shed(1) =~= m);
    lemma_both_values(m, a, b);
    fast::lemma_parts(both_values(), step, m);
    let m0 = Machine {
        stack: below.push(Val::F64(as_bits(a))).push(Val::F64(as_bits(b))),
        ..m
    };
    reveal_with_fuel(machine::forward, 2);
    let m1 = machine::run_instr(step[0], m0)->Next_0;
    assert(m1.stack =~= below.push(Val::F64(r)));
    assert(machine::forward(step, 0, m0) == Some(m1));
    machine::lemma_forward(step, m0, 0);
    let m2 = lemma_boxing(m1, below, r);
    machine::lemma_run_concat(machine::plains(both_values() + step), boxing(), m, 0);
    machine::lemma_flat_concat(machine::plains(both_values() + step), boxing());
    machine::lemma_flat_plains(both_values() + step);
    machine::lemma_flat_plains(other);
    machine::lemma_flat_plains(both_tests());
    fast::lemma_flat_pick(BlockTy::I64, yes, no);
    machine::lemma_flat_concat(machine::plains(both_tests()), pick);
    fast::lemma_pick(BlockTy::I64, yes, no, tested, true, m2);
    machine::lemma_run_concat(machine::plains(both_tests()), pick, m, 0);
    assert(machine::flat(nodes) =~= linear::double_arith(lay, index, op));
    (nodes, m2)
}

/// What a binary helper makes of two numbers, in units: 11 their product, 12 their difference, 18
/// their sum, 13 their quotient. The second component divides the first.
pub open spec fn exact(index: u32, a: u64, b: u64) -> (int, int) {
    let (x, y) = (amount(a), amount(b));
    if index == 11 {
        (x * y, doubles::unit())
    } else if index == 12 {
        (x - y, 1)
    } else if index == 18 {
        (x + y, 1)
    } else if y < 0 {
        (-x * doubles::unit(), -y)
    } else {
        (x * doubles::unit(), y)
    }
}

/// The code leaves the word of a double, and no double is nearer to the exact result.
pub open spec fn leaves_nearest(
    code: Seq<Instr>,
    m: Machine,
    below: Seq<Val>,
    result: (int, int),
) -> bool {
    exists|r: u64| #[trigger]
        doubles::is_nearest(r, result.0, result.1) && fast::leaves(code, m, below, Val::I64(r))
}

proof fn lemma_finite_is_no_nan(bits: u64)
    requires
        doubles::is_finite(bits),
    ensures
        !doubles::is_nan(bits),
{
}

/// The inline arithmetic on two finite numbers, at least one of them a double, gives the double
/// nearest to their product, their difference or their sum.
pub proof fn arithmetic_computes_the_numbers(
    lay: Layout,
    index: u32,
    m: Machine,
    below: Seq<Val>,
    a: u64,
    b: u64,
)
    requires
        index == 11 || index == 12 || index == 18,
        fast::operands(m, below, a, b),
        is_finite(a),
        is_finite(b),
        !(fast::shows_int(a) && fast::shows_int(b)),
        doubles::is_within(exact(index, a, b).0, exact(index, a, b).1),
    ensures
        leaves_nearest(linear::arith_int_code(lay, index), m, below, exact(index, a, b)),
{
    reveal(linear::arith_int_code);
    let base = fast::stashed(m, below, a, b);
    lemma_stash(m, below, a, b);
    lemma_as_bits(a);
    lemma_as_bits(b);
    let (n, d) = exact(index, a, b);
    let r = doubles::rounded(n, d);
    doubles::lemma_rounds(n, d);
    lemma_finite_is_no_nan(r);
    let op = linear::double_operation(index);
    let (inner, m2) = lemma_double_arith(lay, index, op, base, a, b, r);
    let (head, tested) = fast::lemma_int_guard(m, below, a, b);
    assert(tested.shed(1) =~= base);
    let yes = fast::lemma_int_nodes(index);
    let pick = seq![Node::Pick(BlockTy::I64, yes, inner)];
    let nodes = machine::plains(head) + pick;
    fast::lemma_pick(BlockTy::I64, yes, inner, tested, false, m2);
    machine::lemma_run_concat(machine::plains(head), pick, m, 0);
    machine::lemma_flat_concat(machine::plains(head), pick);
    machine::lemma_flat_plains(head);
    fast::lemma_flat_pick(BlockTy::I64, yes, inner);
    assert(machine::flat(nodes) =~= linear::arith_int_code(lay, index));
    assert(fast::leaves(linear::arith_int_code(lay, index), m, below, Val::I64(r)));
}

/// The inline division of two finite numbers gives the double nearest to their quotient.
pub proof fn division_divides_the_numbers(
    lay: Layout,
    m: Machine,
    below: Seq<Val>,
    a: u64,
    b: u64,
)
    requires
        fast::operands(m, below, a, b),
        is_finite(a),
        is_finite(b),
        amount(b) != 0,
        doubles::is_within(exact(13, a, b).0, exact(13, a, b).1),
    ensures
        leaves_nearest(linear::divide_code(lay, 13), m, below, exact(13, a, b)),
{
    reveal(linear::divide_code);
    let base = fast::stashed(m, below, a, b);
    lemma_stash(m, below, a, b);
    lemma_as_bits(a);
    lemma_as_bits(b);
    let (n, d) = exact(13, a, b);
    let r = doubles::rounded(n, d);
    doubles::lemma_rounds(n, d);
    lemma_finite_is_no_nan(r);
    let (inner, m2) = lemma_double_arith(lay, 13, Binop::F64Div, base, a, b, r);
    let head = linear::stash2();
    let nodes = machine::plains(head) + inner;
    machine::lemma_run_concat(machine::plains(head), inner, m, 0);
    machine::lemma_flat_concat(machine::plains(head), inner);
    machine::lemma_flat_plains(head);
    assert(machine::flat(nodes) =~= linear::divide_code(lay, 13));
    assert(fast::leaves(linear::divide_code(lay, 13), m, below, Val::I64(r)));
}

/// The test in front of an inline path on numbers leaves whether both operands are some, with both
/// in their scratch locals.
pub proof fn lemma_number_guard(m: Machine, below: Seq<Val>, a: u64, b: u64)
    requires
        fast::operands(m, below, a, b),
    ensures
        machine::run(
            machine::plains(
                linear::stash2() + linear::is_numeric(SCRATCH64_2) + linear::is_numeric(SCRATCH64)
                    + seq![Instr::Bin(Binop::I32And)],
            ),
            m,
            0,
        ) == Outcome::Next(
            fast::stashed(m, below, a, b).put(
                0,
                machine::bit(is_number(a) && is_number(b)),
            ),
        ),
{
    lemma_stash(m, below, a, b);
    lemma_both_tests(fast::stashed(m, below, a, b), a, b);
    fast::lemma_parts(linear::stash2(), both_tests(), m);
    assert(linear::stash2() + both_tests() =~= linear::stash2() + linear::is_numeric(SCRATCH64_2)
        + linear::is_numeric(SCRATCH64) + seq![Instr::Bin(Binop::I32And)]);
}

/// The test of two stashed operands.
pub proof fn lemma_both_numbers(m: Machine, a: u64, b: u64)
    requires
        m.locals.len() == 19,
        m.locals[SCRATCH64_2 as int] == Val::I64(a),
        m.locals[SCRATCH64 as int] == Val::I64(b),
    ensures
        machine::run(
            machine::plains(
                linear::is_numeric(SCRATCH64_2) + linear::is_numeric(SCRATCH64) + seq![
                    Instr::Bin(Binop::I32And),
                ],
            ),
            m,
            0,
        ) == Outcome::Next(m.put(0, machine::bit(is_number(a) && is_number(b)))),
{
    lemma_both_tests(m, a, b);
}

pub proof fn lemma_flat_boxing()
    ensures
        machine::flat(boxing()) == linear::box_double(),
{
    reveal(linear::box_double);
    reveal(linear::box_scratch_f64);
    let head = seq![
        Instr::LocalSet(SCRATCH_F64),
        Instr::LocalGet(SCRATCH_F64),
        Instr::LocalGet(SCRATCH_F64),
        Instr::Rel(Relop::F64Ne),
    ];
    let nan = seq![Instr::I64Const(CANON_NAN)];
    let number = seq![Instr::LocalGet(SCRATCH_F64), Instr::Cvt(Cvtop::I64ReinterpretF64)];
    let yes = machine::plains(nan);
    let no = machine::plains(number);
    machine::lemma_flat_concat(
        machine::plains(head),
        seq![Node::Pick(BlockTy::I64, yes, no)],
    );
    machine::lemma_flat_plains(head);
    machine::lemma_flat_plains(nan);
    machine::lemma_flat_plains(number);
    fast::lemma_flat_pick(BlockTy::I64, yes, no);
    assert(machine::flat(boxing()) =~= linear::box_double());
}

} // verus!
