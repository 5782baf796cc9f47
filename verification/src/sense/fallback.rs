//! Where an inline path does not apply, the code of the op asks the host for what the op means.
//!
//! [`crate::lower::fast`] and [`crate::lower::numeric`] say what the inline paths do on numbers.

use crate::lower::fast;
use crate::lower::follow;
use crate::lower::follow::{Engine, Going, Out};
use crate::lower::linear;
use crate::lower::machine;
use crate::lower::machine::{Machine, Node, Outcome, Val};
use crate::lower::manifest::Layout;
use crate::lower::numeric;
use crate::lower::wasm::{
    Binop, BlockTy, Cvtop, Instr, Relop, SCRATCH, SCRATCH64, SCRATCH64_2, VALUE_BOOL_MARK,
};
use crate::sense;
use crate::sense::called;
use crate::sense::called::{Import, Linked};
use crate::sense::compiled;
use crate::sense::{Service, Tables, World};
use vstd::prelude::*;

verus! {

/// An instruction that computes on its operands alone.
pub open spec fn is_computing(i: Instr) -> bool {
    i is Cvt || i is Bin || i is Rel
}

pub open spec fn taken(i: Instr) -> nat {
    if i is Cvt || i == Instr::Rel(Relop::I32Eqz) {
        1
    } else {
        2
    }
}

/// A machine with those operands and nothing else.
pub open spec fn bare(args: Seq<Val>) -> Machine {
    Machine { locals: Seq::empty(), stack: args, memory: Seq::empty(), outer: Seq::empty() }
}

/// The engine computes as the machine does.
pub open spec fn computes<X>(e: Engine<X>) -> bool {
    &&& forall|i: Instr| is_computing(i) ==> #[trigger] (e.takes)(i) == taken(i)
    &&& forall|i: Instr, args: Seq<Val>, x: X|
        is_computing(i) && args.len() == taken(i) ==> #[trigger] (e.does)(i, args, x) == (
        match machine::plain(i, bare(args)) {
            Some(m) => Some((m.stack, x)),
            None => None,
        })
}

/// An instruction that computes or moves locals and constants.
pub open spec fn is_basic(i: Instr) -> bool {
    is_computing(i) || i is LocalGet || i is LocalSet || i is LocalTee || i is I32Const
        || i is I64Const
}

/// The function under way, as a machine.
pub open spec fn as_machine<X>(m: Going<X>) -> Machine {
    Machine { locals: m.locals, stack: m.stack, memory: Seq::empty(), outer: Seq::empty() }
}

#[verifier::spinoff_prover]
#[verifier::rlimit(60)]
proof fn lemma_same_instr<X>(e: Engine<X>, i: Instr, m: Going<X>)
    requires
        computes(e),
        is_basic(i),
        machine::plain(i, as_machine(m)) is Some,
    ensures
        ({
            let after = machine::plain(i, as_machine(m))->0;
            &&& follow::act(e, i, m) == Out::Next(
                Going { locals: after.locals, stack: after.stack, ..m },
            )
            &&& after.memory.len() == 0 && after.outer.len() == 0
        }),
{
    let after = machine::plain(i, as_machine(m))->0;
    let n = m.stack.len() as int;
    if is_computing(i) {
        let k = taken(i) as int;
        assert(n >= k);
        let args = m.stack.skip(n - k);
        let given = machine::plain(i, bare(args));
        assert(bare(args).top(1) == as_machine(m).top(1));
        if k == 2 {
            assert(bare(args).top(2) == as_machine(m).top(2));
        }
        assert(given is Some);
        assert(args.take(0) =~= Seq::empty());
        let stack = (given->0).stack;
        assert(stack =~= seq![after.stack.last()]);
        assert(after.stack =~= m.stack.take(n - k) + stack);
        assert((e.does)(i, args, m.state) == Some((stack, m.state)));
        assert((e.takes)(i) == k);
        if i == Instr::Rel(Relop::I64Eq) || i == Instr::Rel(Relop::I64GeS) {
            assert(m.popped().popped().stack =~= m.stack.take(n - 2));
        }
        assert(after.locals == m.locals);
        let going = Going { locals: after.locals, stack: after.stack, ..m };
        assert(follow::act(e, i, m) == Out::Next(going)) by {
            if let Out::Next(r) = follow::act(e, i, m) {
                assert(r =~= going);
            }
        }
    } else {
        let going = Going { locals: after.locals, stack: after.stack, ..m };
        if let Out::Next(r) = follow::act(e, i, m) {
            assert(r.stack =~= after.stack);
            assert(r =~= going);
        }
    }
}

/// Plain code does on the engine what it does on the machine.
#[verifier::rlimit(40)]
proof fn lemma_same_code<X>(e: Engine<X>, code: Seq<Instr>, m: Going<X>)
    requires
        computes(e),
        forall|k: int| 0 <= k < code.len() ==> is_basic(#[trigger] code[k]),
        machine::run(machine::plains(code), as_machine(m), 0) is Next,
    ensures
        ({
            let after = machine::run(machine::plains(code), as_machine(m), 0)->Next_0;
            &&& follow::go(e, machine::plains(code), m) == Out::Next(
                Going { locals: after.locals, stack: after.stack, ..m },
            )
            &&& after.memory.len() == 0 && after.outer.len() == 0
        }),
    decreases code.len(),
{
    let nodes = machine::plains(code);
    if code.len() == 0 {
        assert(nodes =~= Seq::empty());
    } else {
        let front = code.drop_last();
        assert(nodes.drop_last() =~= machine::plains(front));
        assert(nodes.last() == Node::Plain(code.last()));
        assert(is_basic(code[code.len() - 1]));
        assert forall|k: int| 0 <= k < front.len() implies is_basic(#[trigger] front[k]) by {
            assert(front[k] == code[k]);
        }
        let before = machine::run(machine::plains(front), as_machine(m), 0);
        assert(before is Next);
        lemma_same_code(e, front, m);
        let b = before->Next_0;
        let m1 = Going { locals: b.locals, stack: b.stack, ..m };
        assert(as_machine(m1) =~= b);
        let last = Node::Plain(code.last());
        assert(machine::run(nodes, as_machine(m), 0) == machine::run_node(last, b, 0));
        reveal_with_fuel(machine::run_node, 2);
        reveal_with_fuel(follow::go_node, 2);
        assert(machine::run_node(last, b, 0) == machine::run_instr(code.last(), b));
        assert(follow::go(e, nodes, m) == follow::go_node(e, last, m1));
        assert(follow::go_node(e, last, m1) == follow::act(e, code.last(), m1));
        lemma_same_instr(e, code.last(), m1);
    }
}

/// Behind a test that fails, the other branch of a pick is run.
#[verifier::rlimit(40)]
proof fn lemma_other_branch<X>(
    e: Engine<X>,
    head: Seq<Instr>,
    yes: Seq<Node>,
    no: Seq<Node>,
    m: Going<X>,
    base: Going<X>,
    after: Going<X>,
)
    requires
        computes(e),
        forall|k: int| 0 <= k < head.len() ==> is_basic(#[trigger] head[k]),
        machine::run(machine::plains(head), as_machine(m), 0) matches Outcome::Next(n) && n.stack
            == base.stack.push(Val::I32(0)) && n.locals == base.locals,
        base.state == m.state,
        follow::go(e, no, base) == Out::Next(after),
    ensures
        follow::go(
            e,
            machine::plains(head) + seq![Node::Pick(BlockTy::I64, yes, no)],
            m,
        ) == Out::Next(after),
{
    lemma_same_code(e, head, m);
    let pick = Node::Pick(BlockTy::I64, yes, no);
    let n = Going { stack: base.stack.push(Val::I32(0)), ..base };
    follow::lemma_go_concat(e, machine::plains(head), seq![pick], m);
    follow::lemma_go_one(e, pick, n);
    assert(n.popped() =~= base);
    reveal_with_fuel(follow::go_node, 2);
}

/// Both stashed operands by their helper.
#[verifier::rlimit(40)]
proof fn lemma_by_helper<H>(
    e: Engine<Linked<H>>,
    w: World<H>,
    t: Tables,
    lay: Layout,
    index: u32,
    base: Going<Linked<H>>,
    a: u64,
    b: u64,
)
    requires
        called::provides(e, w, t, lay, Import::Binary(index)),
        sense::binary_service(index) is Some,
        base.locals.len() == 19,
        base.locals[SCRATCH64_2 as int] == Val::I64(a),
        base.locals[SCRATCH64 as int] == Val::I64(b),
    ensures
        ({
            let service = sense::binary_service(index)->0;
            let (results, x) = called::given(
                (w.serve)(service, seq![a, b], base.state.host),
                base.state,
            );
            follow::go(e, machine::plains(linear::fallback2(lay, index)), base) == Out::Next(
                Going { stack: base.stack.push(results[0]), state: x, ..base },
            )
        }),
{
    let code = linear::fallback2(lay, index);
    compiled::lemma_through(e, code, 0, base);
    assert(code.skip(0) =~= code);
    reveal_with_fuel(compiled::through, 4);
    let m1 = base.pushed(Val::I64(a));
    let m2 = m1.pushed(Val::I64(b));
    let args = seq![Val::I64(a), Val::I64(b)];
    assert(m2.stack =~= base.stack + args);
    called::lemma_call(e, w, t, lay, Import::Binary(index), m2, base.stack, args);
    let words = Seq::new(args.len(), |k: int| called::word_of(args[k]));
    assert(words =~= seq![a, b]);
    let service = sense::binary_service(index)->0;
    let (results, x) = called::given((w.serve)(service, seq![a, b], base.state.host), base.state);
    assert(results =~= seq![results[0]]);
    assert(base.stack + results =~= base.stack.push(results[0]));
    assert(compiled::through(e, code, 2, m2) == follow::act(e, code[2], m2));
    assert(compiled::through(e, code, 1, m1) == compiled::through(e, code, 2, m2));
}

/// Two operands in the scratch locals.
pub open spec fn stashed<X>(m: Going<X>, below: Seq<Val>, a: u64, b: u64) -> Going<X> {
    Going {
        locals: m.locals.update(SCRATCH64 as int, Val::I64(b)).update(
            SCRATCH64_2 as int,
            Val::I64(a),
        ),
        stack: below,
        ..m
    }
}

/// Running the code asks for the helper's service on the two operands, in their order, and leaves
/// what the host gives.
pub open spec fn asks_for_both<H>(
    e: Engine<Linked<H>>,
    w: World<H>,
    code: Seq<Instr>,
    index: u32,
    m: Going<Linked<H>>,
    below: Seq<Val>,
    a: u64,
    b: u64,
) -> bool {
    let service = sense::binary_service(index)->0;
    let (results, x) = called::given((w.serve)(service, seq![a, b], m.state.host), m.state);
    exists|nodes: Seq<Node>| #[trigger]
        machine::flat(nodes) == code && (follow::go(e, nodes, m) matches Out::Next(m2) && m2.stack
            == below.push(results[0]) && m2.state == x)
}

/// A comparison of what is not two numbers asks the helper.
#[verifier::rlimit(40)]
pub proof fn other_comparisons_ask_the_host<H>(
    e: Engine<Linked<H>>,
    w: World<H>,
    t: Tables,
    lay: Layout,
    index: u32,
    m: Going<Linked<H>>,
    below: Seq<Val>,
    a: u64,
    b: u64,
)
    requires
        computes(e),
        called::provides(e, w, t, lay, Import::Binary(index)),
        sense::binary_service(index) is Some,
        m.locals.len() == 19,
        m.stack == below.push(Val::I64(a)).push(Val::I64(b)),
        !(numeric::is_number(a) && numeric::is_number(b)),
    ensures
        asks_for_both(e, w, linear::compare_code(lay, index), index, m, below, a, b),
{
    reveal(linear::compare_code);
    reveal(linear::is_numeric);
    reveal(linear::is_int);
    reveal(linear::is_f64);
    reveal(linear::numval);
    let head = linear::stash2() + linear::is_numeric(SCRATCH64_2) + linear::is_numeric(SCRATCH64)
        + seq![Instr::Bin(Binop::I32And)];
    let inline = linear::numval(SCRATCH64_2) + linear::numval(SCRATCH64) + seq![
        Instr::Rel(linear::relation(index)),
        Instr::Cvt(Cvtop::I64ExtendI32U),
        Instr::I64Const(VALUE_BOOL_MARK),
        Instr::Bin(Binop::I64Or),
    ];
    let yes = machine::plains(inline);
    let other = linear::fallback2(lay, index);
    let no = machine::plains(other);
    let base = stashed(m, below, a, b);
    numeric::lemma_number_guard(as_machine(m), below, a, b);
    assert(fast::stashed(as_machine(m), below, a, b).put(0, Val::I32(0)).stack =~= below.push(
        Val::I32(0),
    ));
    lemma_by_helper(e, w, t, lay, index, base, a, b);
    let after = follow::go(e, no, base)->Next_0;
    lemma_other_branch(e, head, yes, no, m, base, after);
    let pick = seq![Node::Pick(BlockTy::I64, yes, no)];
    let nodes = machine::plains(head) + pick;
    machine::lemma_flat_concat(machine::plains(head), pick);
    machine::lemma_flat_plains(head);
    machine::lemma_flat_plains(inline);
    machine::lemma_flat_plains(other);
    fast::lemma_flat_pick(BlockTy::I64, yes, no);
    assert(machine::flat(nodes) =~= linear::compare_code(lay, index));
}

/// Stashed operands that are not two numbers go to the helper.
#[verifier::rlimit(40)]
proof fn lemma_double_fallback<H>(
    e: Engine<Linked<H>>,
    w: World<H>,
    t: Tables,
    lay: Layout,
    index: u32,
    op: Binop,
    base: Going<Linked<H>>,
    a: u64,
    b: u64,
) -> (nodes: Seq<Node>)
    requires
        computes(e),
        called::provides(e, w, t, lay, Import::Binary(index)),
        sense::binary_service(index) is Some,
        base.locals.len() == 19,
        base.locals[SCRATCH64_2 as int] == Val::I64(a),
        base.locals[SCRATCH64 as int] == Val::I64(b),
        !(numeric::is_number(a) && numeric::is_number(b)),
    ensures
        machine::flat(nodes) == linear::double_arith(lay, index, op),
        ({
            let service = sense::binary_service(index)->0;
            let (results, x) = called::given(
                (w.serve)(service, seq![a, b], base.state.host),
                base.state,
            );
            follow::go(e, nodes, base) == Out::Next(
                Going { stack: base.stack.push(results[0]), state: x, ..base },
            )
        }),
{
    reveal(linear::double_arith);
    reveal(linear::is_numeric);
    reveal(linear::is_int);
    reveal(linear::is_f64);
    let head = linear::is_numeric(SCRATCH64_2) + linear::is_numeric(SCRATCH64) + seq![
        Instr::Bin(Binop::I32And),
    ];
    let inline = linear::numval(SCRATCH64_2) + linear::numval(SCRATCH64) + seq![Instr::Bin(op)];
    let yes = machine::plains(inline) + numeric::boxing();
    let other = linear::fallback2(lay, index);
    let no = machine::plains(other);
    numeric::lemma_both_numbers(as_machine(base), a, b);
    assert(as_machine(base).put(0, Val::I32(0)).stack =~= base.stack.push(Val::I32(0)));
    lemma_by_helper(e, w, t, lay, index, base, a, b);
    let after = follow::go(e, no, base)->Next_0;
    lemma_other_branch(e, head, yes, no, base, base, after);
    let pick = seq![Node::Pick(BlockTy::I64, yes, no)];
    let nodes = machine::plains(head) + pick;
    machine::lemma_flat_concat(machine::plains(head), pick);
    machine::lemma_flat_concat(machine::plains(inline), numeric::boxing());
    numeric::lemma_flat_boxing();
    machine::lemma_flat_plains(head);
    machine::lemma_flat_plains(inline);
    machine::lemma_flat_plains(other);
    fast::lemma_flat_pick(BlockTy::I64, yes, no);
    assert(machine::flat(nodes) =~= linear::double_arith(lay, index, op));
    nodes
}

/// The stash itself.
#[verifier::rlimit(40)]
proof fn lemma_stashed<X>(e: Engine<X>, m: Going<X>, below: Seq<Val>, a: u64, b: u64)
    requires
        m.locals.len() == 19,
        m.stack == below.push(Val::I64(a)).push(Val::I64(b)),
    ensures
        follow::go(e, machine::plains(linear::stash2()), m) == Out::Next(stashed(m, below, a, b)),
{
    let code = linear::stash2();
    compiled::lemma_through(e, code, 0, m);
    assert(code.skip(0) =~= code);
    reveal_with_fuel(compiled::through, 3);
    let m1 = m.popped().with_local(SCRATCH64, Val::I64(b));
    assert(m1.stack =~= below.push(Val::I64(a)));
    let m2 = m1.popped().with_local(SCRATCH64_2, Val::I64(a));
    assert(m2.stack =~= below);
    assert(m2 =~= stashed(m, below, a, b));
    assert(compiled::through(e, code, 1, m1) == Out::Next(m2));
}

/// A division of what is not two numbers asks the helper.
#[verifier::rlimit(40)]
pub proof fn other_divisions_ask_the_host<H>(
    e: Engine<Linked<H>>,
    w: World<H>,
    t: Tables,
    lay: Layout,
    index: u32,
    m: Going<Linked<H>>,
    below: Seq<Val>,
    a: u64,
    b: u64,
)
    requires
        computes(e),
        called::provides(e, w, t, lay, Import::Binary(index)),
        sense::binary_service(index) is Some,
        m.locals.len() == 19,
        m.stack == below.push(Val::I64(a)).push(Val::I64(b)),
        !(numeric::is_number(a) && numeric::is_number(b)),
    ensures
        asks_for_both(e, w, linear::divide_code(lay, index), index, m, below, a, b),
{
    reveal(linear::divide_code);
    let base = stashed(m, below, a, b);
    let rest = lemma_double_fallback(e, w, t, lay, index, Binop::F64Div, base, a, b);
    let stash = machine::plains(linear::stash2());
    lemma_stashed(e, m, below, a, b);
    follow::lemma_go_concat(e, stash, rest, m);
    machine::lemma_flat_concat(stash, rest);
    machine::lemma_flat_plains(linear::stash2());
    assert(machine::flat(stash + rest) == linear::divide_code(lay, index));
}

/// A sum, difference or product of what is not two numbers asks the helper.
#[verifier::rlimit(40)]
pub proof fn other_arithmetic_asks_the_host<H>(
    e: Engine<Linked<H>>,
    w: World<H>,
    t: Tables,
    lay: Layout,
    index: u32,
    m: Going<Linked<H>>,
    below: Seq<Val>,
    a: u64,
    b: u64,
)
    requires
        computes(e),
        called::provides(e, w, t, lay, Import::Binary(index)),
        sense::binary_service(index) is Some,
        m.locals.len() == 19,
        m.stack == below.push(Val::I64(a)).push(Val::I64(b)),
        !(numeric::is_number(a) && numeric::is_number(b)),
    ensures
        asks_for_both(e, w, linear::arith_int_code(lay, index), index, m, below, a, b),
{
    reveal(linear::arith_int_code);
    reveal(linear::is_int);
    let base = stashed(m, below, a, b);
    let op = linear::double_operation(index);
    let no = lemma_double_fallback(e, w, t, lay, index, op, base, a, b);
    let yes = fast::lemma_int_nodes(index);
    let head = linear::stash2() + linear::is_int(SCRATCH64_2) + linear::is_int(SCRATCH64) + seq![
        Instr::Bin(Binop::I32And),
    ];
    let guarded = fast::lemma_int_guard(as_machine(m), below, a, b);
    assert(guarded.0 == head);
    assert(fast::stashed(as_machine(m), below, a, b).put(0, Val::I32(0)).stack =~= below.push(
        Val::I32(0),
    ));
    let after = follow::go(e, no, base)->Next_0;
    lemma_other_branch(e, head, yes, no, m, base, after);
    let pick = seq![Node::Pick(BlockTy::I64, yes, no)];
    let nodes = machine::plains(head) + pick;
    machine::lemma_flat_concat(machine::plains(head), pick);
    machine::lemma_flat_plains(head);
    fast::lemma_flat_pick(BlockTy::I64, yes, no);
    assert(machine::flat(nodes) =~= linear::arith_int_code(lay, index));
}

/// The inline path of the bit operations is structured code.
#[verifier::rlimit(40)]
proof fn lemma_bit_nodes(index: u32) -> (nodes: Seq<Node>)
    ensures
        machine::flat(nodes) == seq![
            Instr::LocalGet(SCRATCH64_2),
            Instr::Cvt(Cvtop::I32WrapI64),
            Instr::LocalGet(SCRATCH64),
            Instr::Cvt(Cvtop::I32WrapI64),
        ] + linear::shift_mask(index) + seq![Instr::Bin(linear::bit_operation(index))]
            + linear::box_bits(index),
{
    let head = seq![
        Instr::LocalGet(SCRATCH64_2),
        Instr::Cvt(Cvtop::I32WrapI64),
        Instr::LocalGet(SCRATCH64),
        Instr::Cvt(Cvtop::I32WrapI64),
    ] + linear::shift_mask(index) + seq![Instr::Bin(linear::bit_operation(index))];
    let all = head + linear::box_bits(index);
    if index == 10 {
        let test = head + seq![
            Instr::LocalTee(SCRATCH),
            Instr::I32Const(0),
            Instr::Rel(Relop::I32GeS),
        ];
        let narrow = seq![Instr::LocalGet(SCRATCH)] + linear::box_int();
        let wide = seq![
            Instr::LocalGet(SCRATCH),
            Instr::Cvt(Cvtop::F64ConvertI32U),
            Instr::Cvt(Cvtop::I64ReinterpretF64),
        ];
        let yes = machine::plains(narrow);
        let no = machine::plains(wide);
        let pick = seq![Node::Pick(BlockTy::I64, yes, no)];
        let nodes = machine::plains(test) + pick;
        machine::lemma_flat_concat(machine::plains(test), pick);
        machine::lemma_flat_plains(test);
        machine::lemma_flat_plains(narrow);
        machine::lemma_flat_plains(wide);
        fast::lemma_flat_pick(BlockTy::I64, yes, no);
        assert(machine::flat(nodes) =~= all);
        nodes
    } else {
        machine::lemma_flat_plains(all);
        machine::plains(all)
    }
}

/// A bit operation on what is not two ints asks the helper.
#[verifier::rlimit(40)]
pub proof fn other_bit_operations_ask_the_host<H>(
    e: Engine<Linked<H>>,
    w: World<H>,
    t: Tables,
    lay: Layout,
    index: u32,
    m: Going<Linked<H>>,
    below: Seq<Val>,
    a: u64,
    b: u64,
)
    requires
        computes(e),
        called::provides(e, w, t, lay, Import::Binary(index)),
        sense::binary_service(index) is Some,
        m.locals.len() == 19,
        m.stack == below.push(Val::I64(a)).push(Val::I64(b)),
        !(fast::shows_int(a) && fast::shows_int(b)),
    ensures
        asks_for_both(e, w, linear::bit_code(lay, index), index, m, below, a, b),
{
    reveal(linear::bit_code);
    reveal(linear::is_int);
    let base = stashed(m, below, a, b);
    let yes = lemma_bit_nodes(index);
    let other = linear::fallback2(lay, index);
    let no = machine::plains(other);
    let head = linear::stash2() + linear::is_int(SCRATCH64_2) + linear::is_int(SCRATCH64) + seq![
        Instr::Bin(Binop::I32And),
    ];
    let guarded = fast::lemma_int_guard(as_machine(m), below, a, b);
    assert(guarded.0 == head);
    assert(fast::stashed(as_machine(m), below, a, b).put(0, Val::I32(0)).stack =~= below.push(
        Val::I32(0),
    ));
    lemma_by_helper(e, w, t, lay, index, base, a, b);
    let after = follow::go(e, no, base)->Next_0;
    lemma_other_branch(e, head, yes, no, m, base, after);
    let pick = seq![Node::Pick(BlockTy::I64, yes, no)];
    let nodes = machine::plains(head) + pick;
    machine::lemma_flat_concat(machine::plains(head), pick);
    machine::lemma_flat_plains(head);
    machine::lemma_flat_plains(other);
    fast::lemma_flat_pick(BlockTy::I64, yes, no);
    assert(machine::flat(nodes) =~= linear::bit_code(lay, index));
}

/// `ToInt32` of what is no int asks the helper for it.
#[verifier::rlimit(40)]
pub proof fn other_coercions_ask_the_host<H>(
    e: Engine<Linked<H>>,
    w: World<H>,
    t: Tables,
    lay: Layout,
    m: Going<Linked<H>>,
    below: Seq<Val>,
    a: u64,
)
    requires
        computes(e),
        called::provides(e, w, t, lay, Import::Unary(12)),
        m.locals.len() == 19,
        m.stack == below.push(Val::I64(a)),
        !fast::shows_int(a),
    ensures
        ({
            let (results, x) = called::given(
                (w.serve)(Service::ToInt, seq![a], m.state.host),
                m.state,
            );
            exists|nodes: Seq<Node>| #[trigger]
                machine::flat(nodes) == linear::coerce_int_code(true) && (follow::go(
                    e,
                    nodes,
                    m,
                ) matches Out::Next(m2) && m2.stack == below.push(results[0]) && m2.state == x)
        }),
{
    reveal(linear::coerce_int_code);
    reveal(linear::is_int);
    let stash = seq![Instr::LocalSet(SCRATCH64)];
    let head = stash + linear::is_int(SCRATCH64);
    let keep = seq![Instr::LocalGet(SCRATCH64)];
    let ask = seq![Instr::LocalGet(SCRATCH64), Instr::Call(12)];
    let yes = machine::plains(keep);
    let no = machine::plains(ask);
    let base = m.popped().with_local(SCRATCH64, Val::I64(a));
    assert(base.stack =~= below);
    // The test.
    let from = as_machine(m);
    let stashed = as_machine(base);
    fast::lemma_parts(stash, linear::is_int(SCRATCH64), from);
    reveal_with_fuel(machine::forward, 2);
    let s1 = machine::run_instr(stash[0], from)->Next_0;
    assert(s1.stack =~= below);
    assert(s1 =~= stashed);
    assert(machine::forward(stash, 0, from) == Some(s1));
    machine::lemma_forward(stash, from, 0);
    fast::lemma_test(SCRATCH64, stashed, a);
    assert(stashed.put(0, Val::I32(0)).stack =~= base.stack.push(Val::I32(0)));
    // The helper.
    compiled::lemma_through(e, ask, 0, base);
    assert(ask.skip(0) =~= ask);
    reveal_with_fuel(compiled::through, 3);
    let m1 = base.pushed(Val::I64(a));
    let args = seq![Val::I64(a)];
    assert(m1.stack =~= base.stack + args);
    called::lemma_call(e, w, t, lay, Import::Unary(12), m1, base.stack, args);
    let words = Seq::new(args.len(), |k: int| called::word_of(args[k]));
    assert(words =~= seq![a]);
    let (results, x) = called::given((w.serve)(Service::ToInt, seq![a], m.state.host), m.state);
    assert(results =~= seq![results[0]]);
    assert(base.stack + results =~= base.stack.push(results[0]));
    assert(compiled::through(e, ask, 1, m1) == follow::act(e, ask[1], m1));
    let after = Going { stack: below.push(results[0]), state: x, ..base };
    assert(follow::go(e, no, base) == Out::Next(after));
    lemma_other_branch(e, head, yes, no, m, base, after);
    let pick = seq![Node::Pick(BlockTy::I64, yes, no)];
    let nodes = machine::plains(head) + pick;
    machine::lemma_flat_concat(machine::plains(head), pick);
    machine::lemma_flat_plains(head);
    machine::lemma_flat_plains(keep);
    machine::lemma_flat_plains(ask);
    fast::lemma_flat_pick(BlockTy::I64, yes, no);
    assert(machine::flat(nodes) =~= linear::coerce_int_code(true));
}

} // verus!
