//! The code of an op that the host does asks the host for what the op means.
//!
//! The host stands behind the imports. Each of them is said here to do a service on its operands.
//! The code of an op then has to call the right import, with the right operands in the right order,
//! after the operands that are spilled, and to return if the host has thrown.

use crate::helpers;
use crate::lower::body;
use crate::lower::body::Ctx;
use crate::lower::encode;
use crate::lower::encode::{Body, Entity, Export, Part, Segment};
use crate::lower::follow;
use crate::lower::follow::{Engine, Going, Out};
use crate::lower::linear;
use crate::lower::machine;
use crate::lower::machine::{Node, Val};
use crate::lower::manifest;
use crate::lower::manifest::{Layout, Manifest};
use crate::lower::module;
use crate::lower::module::GenMember;
use crate::lower::op::{ExcRange, JitOp, SwitchTable};
use crate::lower::pieces;
use crate::lower::wasm;
use crate::lower::wasm::{Align, BlockTy, Instr, Target, ValTy, UNDEFINED_BITS};
use crate::model::{State, Turn};
use crate::sense;
use crate::sense::compiled;
use crate::sense::{Sense, Served, Service, Tables, World};
use vstd::arithmetic::power2;
use vstd::prelude::*;

verus! {

/// What the host keeps for compiled code: the operands that were spilled, and whether an error is
/// pending.
#[verifier::ext_equal]
#[verifier::reject_recursive_types(H)]
pub struct Linked<H> {
    pub spilled: Seq<u64>,
    pub pending: bool,
    pub host: H,
}

/// The imports.
pub enum Import {
    /// `h0` and so on.
    Unary(u32),
    /// `t0` and so on.
    Binary(u32),
    /// `s0` and so on.
    Ternary(u32),
    /// `gp`.
    GetProperty,
    /// `gpf`.
    GetPropertyBy,
    /// `gs`.
    GetSlot,
    /// `coerce`.
    Coerce,
    /// `cm`.
    CallMethod,
    /// `cp`.
    CallProperty,
    /// `csup`.
    ConstructSuper,
    /// `callv`.
    CallValue,
    /// `vc`.
    Variadic,
    /// `pca`.
    Spill,
    /// `perr`.
    Pending,
}

/// How many operands an import takes.
pub open spec fn takes(import: Import) -> nat {
    match import {
        Import::Unary(_) => 1,
        Import::Binary(_) => 2,
        Import::Ternary(_) => 3,
        Import::GetProperty => 2,
        Import::GetPropertyBy => 3,
        Import::GetSlot => 2,
        Import::Coerce => 2,
        Import::CallMethod => 3,
        Import::CallProperty => 3,
        Import::ConstructSuper => 2,
        Import::CallValue => 3,
        Import::Variadic => 4,
        Import::Spill => 1,
        Import::Pending => 0,
    }
}

/// At which function index an import stands.
pub open spec fn index_of(lay: Layout, import: Import) -> u32 {
    match import {
        Import::Unary(i) => i,
        Import::Binary(i) => (lay.t_base + i) as u32,
        Import::Ternary(k) => lay.set3_index@[k as int],
        Import::GetProperty => lay.gp_index,
        Import::GetPropertyBy => lay.gpf_index,
        Import::GetSlot => lay.gs_index,
        Import::Coerce => lay.coerce_index,
        Import::CallMethod => lay.call_index,
        Import::CallProperty => lay.callprop_index,
        Import::ConstructSuper => lay.csup_index,
        Import::CallValue => lay.callv_index,
        Import::Variadic => lay.vc_index,
        Import::Spill => lay.pca_index,
        Import::Pending => lay.perr_index,
    }
}

pub open spec fn word_of(v: Val) -> u64 {
    match v {
        Val::I64(word) => word,
        _ => 0,
    }
}

/// A unary helper on a word. A few of them take no value: 17, 18, 7, 24 and 21 take a number, and
/// 23 takes nothing.
pub open spec fn unary_request(i: u32, a: u64, t: Tables) -> Option<(Service, Seq<u64>)> {
    match i {
        6u32 => Some((Service::PushScope, seq![a])),
        7u32 => Some((Service::Scope(a as u32), Seq::empty())),
        17u32 => Some((Service::Globals(t.scripts[a as int]), Seq::empty())),
        21u32 => Some((Service::NewCatch(a as u32), Seq::empty())),
        23u32 => Some((Service::PopScope, Seq::empty())),
        24u32 => Some((Service::OuterScope(a as u32), Seq::empty())),
        _ => match sense::unary_service(i) {
            Some(service) => Some((service, seq![a])),
            None => None,
        },
    }
}

/// The operands that a call with `argc` spilled operands finds, in their order.
pub open spec fn drained(spilled: Seq<u64>, argc: u64) -> Seq<u64> {
    spilled.skip(spilled.len() - helpers::taken(spilled.len(), argc as i64)).reverse()
}

/// What is left.
pub open spec fn kept(spilled: Seq<u64>, argc: u64) -> Seq<u64> {
    spilled.take(spilled.len() - helpers::taken(spilled.len(), argc as i64))
}

/// What the host gives back: a word, or `undefined` with an error pending.
pub open spec fn given<H>(served: Served<H>, x: Linked<H>) -> (Seq<Val>, Linked<H>) {
    match served {
        Served::Word(word, host) => (seq![Val::I64(word)], Linked { host, ..x }),
        Served::Threw(host) => (
            seq![Val::I64(UNDEFINED_BITS)],
            Linked { host, pending: true, ..x },
        ),
    }
}

/// What an import does that works on the operands it is called with.
pub open spec fn served<H>(
    w: World<H>,
    t: Tables,
    import: Import,
    a: Seq<u64>,
    x: Linked<H>,
) -> Option<(Seq<Val>, Linked<H>)> {
    let asked = |service: Service, args: Seq<u64>| Some(given((w.serve)(service, args, x.host), x));
    match import {
        Import::Unary(i) => if i == 18 {
            Some((seq![Val::I64(t.strings[a[0] as int])], x))
        } else {
            match unary_request(i, a[0], t) {
                Some((service, args)) => asked(service, args),
                None => None,
            }
        },
        Import::Binary(i) => match sense::binary_service(i) {
            Some(service) => asked(service, seq![a[0], a[1]]),
            None => None,
        },
        Import::Ternary(k) => match sense::ternary_service(k, a[2] as u32) {
            Some(service) => asked(service, seq![a[0], a[1]]),
            None => None,
        },
        Import::GetProperty => asked(Service::GetProperty(t.names[a[1] as int]), seq![a[0]]),
        Import::GetPropertyBy => asked(
            Service::GetPropertyBy(t.names[a[2] as int]),
            seq![a[0], a[1]],
        ),
        Import::GetSlot => asked(Service::GetSlot(a[1] as u32), seq![a[0]]),
        Import::Coerce => asked(Service::ToClass(t.classes[a[1] as int]), seq![a[0]]),
        _ => None,
    }
}

/// What an import does that takes spilled operands, besides those it is called with.
pub open spec fn invoked<H>(
    w: World<H>,
    t: Tables,
    import: Import,
    a: Seq<u64>,
    x: Linked<H>,
) -> Option<(Seq<Val>, Linked<H>)> {
    let asked = |service: Service, head: Seq<u64>, argc: u64|
        Some(
            given(
                (w.serve)(service, head + drained(x.spilled, argc), x.host),
                Linked { spilled: kept(x.spilled, argc), ..x },
            ),
        );
    match import {
        Import::CallMethod => asked(Service::CallMethod(a[1] as u32), seq![a[0]], a[2]),
        Import::CallProperty => asked(
            Service::CallProperty(t.names[a[1] as int]),
            seq![a[0]],
            a[2],
        ),
        Import::ConstructSuper => asked(Service::ConstructSuper, seq![a[0]], a[1]),
        Import::CallValue => asked(Service::Call, seq![a[0], a[1]], a[2]),
        Import::Variadic => match sense::kind_service(a[3] as u32, a[1] as u32, t) {
            Some((service, more)) => asked(
                service,
                if more == 1 {
                    seq![a[0]]
                } else {
                    Seq::empty()
                },
                a[2],
            ),
            None => None,
        },
        _ => None,
    }
}

/// What an import does.
pub open spec fn called<H>(
    w: World<H>,
    t: Tables,
    import: Import,
    args: Seq<Val>,
    x: Linked<H>,
) -> Option<(Seq<Val>, Linked<H>)> {
    let a = Seq::new(args.len(), |k: int| word_of(args[k]));
    match import {
        Import::Spill => Some((Seq::empty(), Linked { spilled: x.spilled.push(a[0]), ..x })),
        Import::Pending => Some((seq![machine::bit(x.pending)], x)),
        Import::CallMethod => invoked(w, t, import, a, x),
        Import::CallProperty => invoked(w, t, import, a, x),
        Import::ConstructSuper => invoked(w, t, import, a, x),
        Import::CallValue => invoked(w, t, import, a, x),
        Import::Variadic => invoked(w, t, import, a, x),
        _ => served(w, t, import, a, x),
    }
}

/// The engine has the host behind that import.
pub open spec fn provides<H>(
    e: Engine<Linked<H>>,
    w: World<H>,
    t: Tables,
    lay: Layout,
    import: Import,
) -> bool {
    let call = Instr::Call(index_of(lay, import));
    &&& (e.takes)(call) == takes(import)
    &&& forall|args: Seq<Val>, x: Linked<H>|
        args.len() == takes(import) ==> #[trigger] (e.does)(call, args, x) == called(
            w,
            t,
            import,
            args,
            x,
        )
}

/// A call of an import with those operands on top.
#[verifier::rlimit(40)]
pub proof fn lemma_call<H>(
    e: Engine<Linked<H>>,
    w: World<H>,
    t: Tables,
    lay: Layout,
    import: Import,
    m: Going<Linked<H>>,
    below: Seq<Val>,
    args: Seq<Val>,
)
    requires
        provides(e, w, t, lay, import),
        m.stack == below + args,
        args.len() == takes(import),
    ensures
        follow::act(e, Instr::Call(index_of(lay, import)), m) == (match called(
            w,
            t,
            import,
            args,
            m.state,
        ) {
            Some((results, state)) => Out::Next(Going { stack: below + results, state, ..m }),
            None => Out::Trap,
        }),
{
    let n = m.stack.len() as int;
    let k = takes(import) as int;
    assert(m.stack.skip(n - k) =~= args);
    assert(m.stack.take(n - k) =~= below);
}

// The return behind a call.

/// The code with the return behind it has one structure.
#[verifier::rlimit(40)]
proof fn lemma_bail_structure(nodes: Seq<Node>, a: Seq<Instr>, p: u32)
    requires
        pieces::is_proper(nodes),
        machine::flat(nodes) == a + linear::perr_bail(p),
        forall|k: int| 0 <= k < a.len() ==> !pieces::is_bracket(#[trigger] a[k]),
    ensures
        nodes == machine::plains(a.push(Instr::Call(p))) + seq![
            Node::When(machine::plains(seq![Instr::I64Const(UNDEFINED_BITS), Instr::Return])),
        ],
{
    reveal(linear::perr_bail);
    reveal_with_fuel(pieces::is_proper, 2);
    reveal_with_fuel(pieces::is_proper_node, 2);
    let code = machine::flat(nodes);
    let n = a.len() as int;
    let inner = seq![Instr::I64Const(UNDEFINED_BITS), Instr::Return];
    assert(code.len() == n + 5);
    let front = nodes.drop_last();
    let last = nodes.last();
    assert(nodes.len() > 0);
    let x = machine::flat(front);
    let y = machine::flat_node(last);
    assert(code == x + y);
    assert(y.len() > 0);
    assert(y.last() == code.last());
    assert(code.last() == Instr::End);
    assert(!(last is Plain));
    assert(pieces::is_bracket(y[0]) && !(y[0] is End) && !(y[0] is Else));
    assert(code[x.len() as int] == y[0]);
    assert(code[n] == Instr::Call(p));
    assert(code[n + 1] == Instr::If(BlockTy::Empty));
    assert(code[n + 2] == Instr::I64Const(UNDEFINED_BITS));
    assert(code[n + 3] == Instr::Return);
    assert(x.len() == n + 1) by {
        if x.len() < n {
            assert(code[x.len() as int] == a[x.len() as int]);
        }
    }
    let head = a.push(Instr::Call(p));
    assert(x =~= head) by {
        assert forall|k: int| 0 <= k < x.len() implies x[k] == head[k] by {
            assert(code[k] == x[k]);
        }
    }
    compiled::lemma_plain_structure(front);
    let whole = seq![Instr::If(BlockTy::Empty)] + inner + seq![Instr::End];
    assert(y =~= whole) by {
        assert forall|k: int| 0 <= k < 4 implies y[k] == whole[k] by {
            assert(code[n + 1 + k] == y[k]);
        }
    }
    assert(!(last is Block));
    match last {
        Node::If(yes, no) => {
            assert(y[machine::flat(yes).len() as int + 1] == Instr::Else);
        },
        Node::Pick(_, yes, no) => {
            assert(y[machine::flat(yes).len() as int + 1] == Instr::Else);
        },
        Node::When(yes) => {
            assert(machine::flat(yes) =~= inner) by {
                assert(y.len() == machine::flat(yes).len() + 2);
                assert forall|k: int| 0 <= k < 2 implies machine::flat(yes)[k] == inner[k] by {
                    assert(y[k + 1] == machine::flat(yes)[k]);
                }
            }
            compiled::lemma_plain_structure(yes);
        },
        _ => {},
    }
    assert(nodes =~= front + seq![last]);
}

#[verifier::rlimit(40)]
proof fn lemma_through_both<X>(e: Engine<X>, a: Seq<Instr>, b: Seq<Instr>, m: Going<X>)
    ensures
        compiled::through(e, a + b, 0, m) == (match compiled::through(e, a, 0, m) {
            Out::Next(m1) => compiled::through(e, b, 0, m1),
            o => o,
        }),
{
    compiled::lemma_through(e, a + b, 0, m);
    compiled::lemma_through(e, a, 0, m);
    assert((a + b).skip(0) =~= a + b);
    assert(a.skip(0) =~= a);
    assert(b.skip(0) =~= b);
    assert(machine::plains(a + b) =~= machine::plains(a) + machine::plains(b));
    follow::lemma_go_concat(e, machine::plains(a), machine::plains(b), m);
    if let Out::Next(m1) = compiled::through(e, a, 0, m) {
        compiled::lemma_through(e, b, 0, m1);
    }
}

#[verifier::rlimit(40)]
proof fn lemma_through_one<X>(e: Engine<X>, i: Instr, m: Going<X>)
    ensures
        compiled::through(e, seq![i], 0, m) == follow::act(e, i, m),
{
    reveal_with_fuel(compiled::through, 2);
}

/// Spilling takes the operands off, the last one first.
#[verifier::rlimit(40)]
proof fn lemma_spills<H>(
    e: Engine<Linked<H>>,
    w: World<H>,
    t: Tables,
    lay: Layout,
    m: Going<Linked<H>>,
    below: Seq<Val>,
    args: Seq<u64>,
)
    requires
        args.len() > 0 ==> provides(e, w, t, lay, Import::Spill),
        m.stack == below + compiled::words(args),
    ensures
        compiled::through(
            e,
            wasm::repeated(args.len(), Instr::Call(lay.pca_index)),
            0,
            m,
        ) == Out::Next(
            Going {
                stack: below,
                state: Linked { spilled: m.state.spilled + args.reverse(), ..m.state },
                ..m
            },
        ),
    decreases args.len(),
{
    let code = wasm::repeated(args.len(), Instr::Call(lay.pca_index));
    if args.len() == 0 {
        assert(below + compiled::words(args) =~= below);
        assert(m.state.spilled + args.reverse() =~= m.state.spilled);
    } else {
        let rest = args.drop_last();
        let last = args.last();
        let one = seq![Instr::Call(lay.pca_index)];
        assert(code =~= one + wasm::repeated(rest.len(), Instr::Call(lay.pca_index)));
        lemma_through_both(e, one, wasm::repeated(rest.len(), Instr::Call(lay.pca_index)), m);
        lemma_through_one(e, one[0], m);
        let under = below + compiled::words(rest);
        assert(m.stack =~= under + seq![Val::I64(last)]);
        lemma_call(e, w, t, lay, Import::Spill, m, under, seq![Val::I64(last)]);
        let x1 = Linked { spilled: m.state.spilled.push(last), ..m.state };
        let m1 = Going { stack: under + Seq::empty(), state: x1, ..m };
        assert(m1.stack =~= under);
        lemma_spills(e, w, t, lay, m1, below, rest);
        assert(m.state.spilled + args.reverse() =~= x1.spilled + rest.reverse());
    }
}

pub open spec fn constants(consts: Seq<u64>) -> Seq<Instr> {
    Seq::new(consts.len(), |k: int| Instr::I64Const(consts[k]))
}

#[verifier::rlimit(40)]
proof fn lemma_constants<X>(e: Engine<X>, consts: Seq<u64>, m: Going<X>)
    ensures
        compiled::through(e, constants(consts), 0, m) == Out::Next(
            Going { stack: m.stack + compiled::words(consts), ..m },
        ),
    decreases consts.len(),
{
    if consts.len() == 0 {
        assert(m.stack + compiled::words(consts) =~= m.stack);
    } else {
        let rest = consts.drop_last();
        let one = seq![Instr::I64Const(consts.last())];
        assert(constants(consts) =~= constants(rest) + one);
        lemma_constants(e, rest, m);
        lemma_through_both(e, constants(rest), one, m);
        let m1 = Going { stack: m.stack + compiled::words(rest), ..m };
        lemma_through_one(e, one[0], m1);
        assert(m1.pushed(Val::I64(consts.last())).stack =~= m.stack + compiled::words(consts));
    }
}

/// The code of a call of an import: spills, immediates, the call, and a drop of what is not kept.
pub open spec fn request_code(
    lay: Layout,
    argc: nat,
    consts: Seq<u64>,
    import: Import,
    keep: bool,
) -> Seq<Instr> {
    wasm::repeated(argc, Instr::Call(lay.pca_index)) + constants(consts) + seq![
        Instr::Call(index_of(lay, import)),
    ] + linear::drop_unless(keep)
}

#[verifier::spinoff_prover]
#[verifier::rlimit(60)]
proof fn lemma_request<H>(
    e: Engine<Linked<H>>,
    w: World<H>,
    t: Tables,
    lay: Layout,
    import: Import,
    m: Going<Linked<H>>,
    below: Seq<Val>,
    head: Seq<u64>,
    args: Seq<u64>,
    consts: Seq<u64>,
    keep: bool,
    result: Val,
    x: Linked<H>,
)
    requires
        provides(e, w, t, lay, import),
        args.len() > 0 ==> provides(e, w, t, lay, Import::Spill),
        m.stack == below + compiled::words(head + args),
        head.len() + consts.len() == takes(import),
        called(
            w,
            t,
            import,
            compiled::words(head + consts),
            Linked { spilled: m.state.spilled + args.reverse(), ..m.state },
        ) == Some((seq![result], x)),
    ensures
        compiled::through(e, request_code(lay, args.len(), consts, import, keep), 0, m)
            == Out::Next(
            Going {
                stack: if keep {
                    below.push(result)
                } else {
                    below
                },
                state: x,
                ..m
            },
        ),
{
    let spills = wasm::repeated(args.len(), Instr::Call(lay.pca_index));
    let call = seq![Instr::Call(index_of(lay, import))];
    let last = linear::drop_unless(keep);
    let under = below + compiled::words(head);
    assert(m.stack =~= under + compiled::words(args));
    lemma_spills(e, w, t, lay, m, under, args);
    let x1 = Linked { spilled: m.state.spilled + args.reverse(), ..m.state };
    let m1 = Going { stack: under, state: x1, ..m };
    lemma_constants(e, consts, m1);
    let m2 = Going { stack: under + compiled::words(consts), ..m1 };
    assert(m2.stack =~= below + compiled::words(head + consts));
    lemma_call(e, w, t, lay, import, m2, below, compiled::words(head + consts));
    lemma_through_one(e, call[0], m2);
    let m3 = Going { stack: below + seq![result], state: x, ..m2 };
    assert(m3.stack =~= below.push(result));
    lemma_through_both(e, spills, constants(consts), m);
    lemma_through_both(e, spills + constants(consts), call, m);
    lemma_through_both(e, spills + constants(consts) + call, last, m);
    if keep {
        assert(last =~= Seq::empty());
        assert(compiled::through(e, last, 0, m3) == Out::Next(m3));
    } else {
        lemma_through_one(e, Instr::Drop, m3);
        assert(m3.popped().stack =~= below);
    }
}

/// The code, and then the return if an error is pending.
#[verifier::rlimit(40)]
proof fn lemma_bails<H>(
    e: Engine<Linked<H>>,
    w: World<H>,
    t: Tables,
    lay: Layout,
    nodes: Seq<Node>,
    a: Seq<Instr>,
    m: Going<Linked<H>>,
    m1: Going<Linked<H>>,
)
    requires
        provides(e, w, t, lay, Import::Pending),
        pieces::is_proper(nodes),
        machine::flat(nodes) == a + linear::perr_bail(lay.perr_index),
        forall|k: int| 0 <= k < a.len() ==> !pieces::is_bracket(#[trigger] a[k]),
        compiled::through(e, a, 0, m) == Out::Next(m1),
    ensures
        follow::go(e, nodes, m) == if m1.state.pending {
            Out::Returned(Val::I64(UNDEFINED_BITS), m1.state)
        } else {
            Out::Next(m1)
        },
{
    let inner = seq![Instr::I64Const(UNDEFINED_BITS), Instr::Return];
    let ask = seq![Instr::Call(lay.perr_index)];
    let when = Node::When(machine::plains(inner));
    lemma_bail_structure(nodes, a, lay.perr_index);
    let head = a.push(Instr::Call(lay.perr_index));
    assert(head =~= a + ask);
    lemma_through_both(e, a, ask, m);
    lemma_through_one(e, ask[0], m1);
    assert(m1.stack =~= m1.stack + Seq::<Val>::empty());
    lemma_call(e, w, t, lay, Import::Pending, m1, m1.stack, Seq::empty());
    let m2 = m1.pushed(machine::bit(m1.state.pending));
    assert(m1.stack + seq![machine::bit(m1.state.pending)] =~= m2.stack);
    compiled::lemma_through(e, head, 0, m);
    assert(head.skip(0) =~= head);
    follow::lemma_go_concat(e, machine::plains(head), seq![when], m);
    follow::lemma_go_one(e, when, m2);
    assert(m2.popped() =~= m1);
    reveal_with_fuel(follow::go_node, 2);
    if m1.state.pending {
        compiled::lemma_through(e, inner, 0, m1);
        assert(inner.skip(0) =~= inner);
        reveal_with_fuel(compiled::through, 3);
        let m3 = m1.pushed(Val::I64(UNDEFINED_BITS));
        assert(compiled::through(e, inner, 1, m3) == Out::<Linked<H>>::Returned(
            Val::I64(UNDEFINED_BITS),
            m1.state,
        ));
        assert(follow::go(e, machine::plains(inner), m1) == Out::<Linked<H>>::Returned(
            Val::I64(UNDEFINED_BITS),
            m1.state,
        ));
    }
}

// Ops.

/// How the code of an op calls its import: how many operands stay on the stack for it, how many
/// are spilled, the immediates behind them, and whether its result is kept.
pub struct Request {
    pub import: Import,
    pub head: nat,
    pub argc: nat,
    pub consts: Seq<u64>,
    pub keep: bool,
}

pub open spec fn plainly(import: Import, head: nat, keep: bool) -> Option<Request> {
    Some(Request { import, head, argc: 0, consts: Seq::empty(), keep })
}

pub open spec fn by_number(import: Import, head: nat, k: u32) -> Option<Request> {
    Some(Request { import, head, argc: 0, consts: seq![k as u64], keep: true })
}

/// The request of an op that is one call of an import.
pub open spec fn direct_request(o: JitOp) -> Option<Request> {
    match o {
        JitOp::CallHelper(i) => plainly(Import::Unary(i), 1, true),
        JitOp::CallHelper2(i) => plainly(Import::Binary(i), 2, true),
        JitOp::CallHelper3(k, imm) => if k < 5 {
            Some(
                Request {
                    import: Import::Ternary(k),
                    head: 2,
                    argc: 0,
                    consts: seq![imm as u64],
                    keep: false,
                },
            )
        } else {
            None
        },
        JitOp::PushScopeReal => plainly(Import::Unary(6), 1, false),
        JitOp::PopScopeReal => Some(
            Request {
                import: Import::Unary(23),
                head: 0,
                argc: 0,
                consts: seq![0u64],
                keep: false,
            },
        ),
        JitOp::GetScopeObject(i) => by_number(Import::Unary(7), 0, i),
        JitOp::GetOuterScope(i) => by_number(Import::Unary(24), 0, i),
        JitOp::GetScriptGlobals(k) => by_number(Import::Unary(17), 0, k),
        JitOp::PushString(k) => by_number(Import::Unary(18), 0, k),
        JitOp::NewCatch(i) => by_number(Import::Unary(21), 0, i),
        JitOp::CoerceString => plainly(Import::Unary(25), 1, true),
        JitOp::Coerce(k) => by_number(Import::Coerce, 1, k),
        JitOp::GetProperty(k) => by_number(Import::GetProperty, 1, k),
        JitOp::GetPropertyIc(k, _) => by_number(Import::GetProperty, 1, k),
        JitOp::GetPropertyFast(k, _) => by_number(Import::GetPropertyBy, 2, k),
        JitOp::GetSlot(id, _) => by_number(Import::GetSlot, 1, id),
        _ => None,
    }
}

/// The request of an op that spills operands.
pub open spec fn spilling_request(o: JitOp) -> Option<Request> {
    match o {
        JitOp::CallMethod(id, argc, keep) => Some(
            Request {
                import: Import::CallMethod,
                head: 1,
                argc: argc as nat,
                consts: seq![id as u64, argc as u64],
                keep,
            },
        ),
        JitOp::CallMethodDirect(id, argc, keep, _) => Some(
            Request {
                import: Import::CallMethod,
                head: 1,
                argc: argc as nat,
                consts: seq![id as u64, argc as u64],
                keep,
            },
        ),
        JitOp::CallProperty(k, argc, keep) => Some(
            Request {
                import: Import::CallProperty,
                head: 1,
                argc: argc as nat,
                consts: seq![k as u64, argc as u64],
                keep,
            },
        ),
        JitOp::ConstructSuper(argc) => Some(
            Request {
                import: Import::ConstructSuper,
                head: 1,
                argc: argc as nat,
                consts: seq![argc as u64],
                keep: false,
            },
        ),
        JitOp::CallValue(argc) => Some(
            Request {
                import: Import::CallValue,
                head: 2,
                argc: argc as nat,
                consts: seq![argc as u64],
                keep: true,
            },
        ),
        JitOp::VCall(kind, imm, spill, keep) => {
            let rest = seq![imm as u64, spill as u64, kind as u64];
            let alone = kind == 6 || kind == 7 || kind == 16 || kind == 18 || kind == 21;
            Some(
                Request {
                    import: Import::Variadic,
                    head: if alone {
                        0
                    } else {
                        1
                    },
                    argc: spill as nat,
                    consts: if alone {
                        seq![0u64] + rest
                    } else {
                        rest
                    },
                    keep,
                },
            )
        },
        _ => None,
    }
}

pub open spec fn request_of(o: JitOp) -> Option<Request> {
    if direct_request(o) is Some {
        direct_request(o)
    } else {
        spilling_request(o)
    }
}

/// The operands are the words of the state, the host is the same, and no error is pending.
pub open spec fn stands<H>(m: Going<Linked<H>>, s: State<H>) -> bool {
    &&& m.stack == compiled::words(s.stack)
    &&& m.state.host == s.host
    &&& !m.state.pending
}

/// The code of a method without handlers, in which a slot is read by its import.
pub open spec fn is_plain_method(c: Ctx) -> bool {
    c.exceptions.len() == 0 && c.lay.inline_perr && c.target.slots is None
}

#[verifier::rlimit(40)]
proof fn lemma_request_code(c: Ctx, i: int)
    requires
        is_plain_method(c),
        0 <= i < c.ops.len(),
        request_of(c.ops[i]) is Some,
    ensures
        ({
            let q = request_of(c.ops[i])->0;
            pieces::whole_code(c, i) == request_code(c.lay, q.argc, q.consts, q.import, q.keep) + (
            if manifest::can_throw(c.ops[i]) {
                linear::perr_bail(c.lay.perr_index)
            } else {
                Seq::empty()
            })
        }),
{
    reveal(linear::call_code);
    let o = c.ops[i];
    let q = request_of(o)->0;
    let code = request_code(c.lay, q.argc, q.consts, q.import, q.keep);
    let bail = if manifest::can_throw(o) {
        linear::perr_bail(c.lay.perr_index)
    } else {
        Seq::empty()
    };
    assert(pieces::whole_code(c, i) =~= code + bail);
}

/// What the op asks for.
pub open spec fn asked_by<H>(w: World<H>, t: Tables, o: JitOp, s: State<H>) -> Option<Served<H>> {
    if let JitOp::PushString(k) = o {
        Some(Served::Word(t.strings[k as int], s.host))
    } else {
        match sense::boxed_sense(o, t) {
            Some(Sense::Ask(service, takes, _)) => Some(
                (w.serve)(service, s.stack.skip(s.stack.len() - takes), s.host),
            ),
            _ => None,
        }
    }
}

/// The op takes and keeps what its request does.
#[verifier::rlimit(40)]
proof fn lemma_request_sense(o: JitOp, t: Tables)
    requires
        request_of(o) is Some,
        sense::boxed_sense(o, t) is Some,
        !(o is PushString),
    ensures
        sense::boxed_sense(o, t) matches Some(Sense::Ask(_, takes, keeps)) && takes == (
        request_of(o)->0).head + (request_of(o)->0).argc && keeps == (request_of(o)->0).keep,
{
}

#[verifier::spinoff_prover]
#[verifier::rlimit(60)]
proof fn lemma_direct_served<H>(
    w: World<H>,
    t: Tables,
    o: JitOp,
    s: State<H>,
    x: Linked<H>,
)
    requires
        direct_request(o) is Some,
        sense::boxed_sense(o, t) is Some,
        s.stack.len() >= (direct_request(o)->0).head,
        x.host == s.host,
    ensures
        ({
            let q = direct_request(o)->0;
            let head = s.stack.skip(s.stack.len() - q.head);
            called(w, t, q.import, compiled::words(head + q.consts), x) == Some(
                given(asked_by(w, t, o, s)->0, x),
            )
        }),
{
    let q = direct_request(o)->0;
    let n = s.stack.len() as int;
    let head = s.stack.skip(n - q.head);
    let args = compiled::words(head + q.consts);
    let a = Seq::new(args.len(), |k: int| word_of(args[k]));
    assert(a =~= head + q.consts);
    if q.head == 0 {
        assert(head =~= Seq::empty());
    } else if q.head == 1 {
        assert(head =~= seq![a[0]]);
    } else {
        assert(head =~= seq![a[0], a[1]]);
    }
}

#[verifier::spinoff_prover]
#[verifier::rlimit(60)]
proof fn lemma_spilled_served<H>(
    w: World<H>,
    t: Tables,
    o: JitOp,
    s: State<H>,
    x: Linked<H>,
)
    requires
        spilling_request(o) is Some,
        sense::boxed_sense(o, t) is Some,
        s.stack.len() >= (spilling_request(o)->0).head + (spilling_request(o)->0).argc,
        x.host == s.host,
    ensures
        ({
            let q = spilling_request(o)->0;
            let operands = s.stack.skip(s.stack.len() - q.head - q.argc);
            let head = operands.take(q.head as int);
            let args = operands.skip(q.head as int);
            called(
                w,
                t,
                q.import,
                compiled::words(head + q.consts),
                Linked { spilled: x.spilled + args.reverse(), ..x },
            ) == Some(given(asked_by(w, t, o, s)->0, x))
        }),
{
    let q = spilling_request(o)->0;
    let n = s.stack.len() as int;
    let operands = s.stack.skip(n - q.head - q.argc);
    let head = operands.take(q.head as int);
    let args = operands.skip(q.head as int);
    let words = compiled::words(head + q.consts);
    let a = Seq::new(words.len(), |k: int| word_of(words[k]));
    assert(a =~= head + q.consts);
    assert(args.len() == q.argc);
    helpers::calls_take_their_own(x.spilled, args);
    let all = x.spilled + args.reverse();
    let argc = q.argc as u64;
    assert(argc as i64 == args.len());
    assert(drained(all, argc) == args);
    assert(kept(all, argc) == x.spilled);
    assert(head + args =~= operands);
    if q.head == 0 {
        assert(head =~= Seq::empty());
        assert(Seq::<u64>::empty() + args =~= operands);
    } else if q.head == 1 {
        assert(head =~= seq![a[0]]);
    } else {
        assert(head =~= seq![a[0], a[1]]);
    }
    assert(Linked { spilled: kept(all, argc), ..Linked { spilled: all, ..x } } =~= x);
}

#[verifier::rlimit(40)]
proof fn lemma_flat_request(lay: Layout, q: Request)
    ensures
        forall|k: int|
            0 <= k < request_code(lay, q.argc, q.consts, q.import, q.keep).len()
                ==> !pieces::is_bracket(
                #[trigger] request_code(lay, q.argc, q.consts, q.import, q.keep)[k],
            ),
{
}

#[verifier::rlimit(40)]
proof fn lemma_request_runs<H>(
    e: Engine<Linked<H>>,
    w: World<H>,
    t: Tables,
    lay: Layout,
    o: JitOp,
    m: Going<Linked<H>>,
    s: State<H>,
)
    requires
        request_of(o) matches Some(q) && provides(e, w, t, lay, q.import) && (q.argc > 0
            ==> provides(e, w, t, lay, Import::Spill)) && s.stack.len() >= q.head + q.argc
            && q.head + q.consts.len() == takes(q.import),
        sense::boxed_sense(o, t) is Some,
        stands(m, s),
    ensures
        ({
            let q = request_of(o)->0;
            let below = compiled::words(s.stack.take(s.stack.len() - q.head - q.argc));
            let (results, x) = given(asked_by(w, t, o, s)->0, m.state);
            compiled::through(
                e,
                request_code(lay, q.argc, q.consts, q.import, q.keep),
                0,
                m,
            ) == Out::Next(
                Going {
                    stack: if q.keep {
                        below.push(results[0])
                    } else {
                        below
                    },
                    state: x,
                    ..m
                },
            )
        }),
{
    let q = request_of(o)->0;
    let n = s.stack.len() as int;
    let operands = s.stack.skip(n - q.head - q.argc);
    let head = operands.take(q.head as int);
    let args = operands.skip(q.head as int);
    let below = compiled::words(s.stack.take(n - q.head - q.argc));
    assert(m.stack =~= below + compiled::words(head + args));
    let (results, x) = given(asked_by(w, t, o, s)->0, m.state);
    let spilled = Linked { spilled: m.state.spilled + args.reverse(), ..m.state };
    if direct_request(o) is Some {
        lemma_direct_served(w, t, o, s, m.state);
        assert(head =~= s.stack.skip(n - q.head));
        assert(spilled =~= m.state);
    } else {
        lemma_spilled_served(w, t, o, s, m.state);
    }
    assert(results =~= seq![results[0]]);
    lemma_request(
        e,
        w,
        t,
        lay,
        q.import,
        m,
        below,
        head,
        args,
        q.consts,
        q.keep,
        results[0],
        x,
    );
}

/// The code of an op that is a call of an import asks the host for what the op means, on the
/// operands of the op in their order, and goes on with what the host gives. Where the host has
/// thrown, and the op is one that may throw, it returns `undefined` with the error pending.
#[verifier::rlimit(40)]
pub proof fn code_asks_for_what_the_op_means<H>(
    e: Engine<Linked<H>>,
    w: World<H>,
    t: Tables,
    c: Ctx,
    m: Going<Linked<H>>,
    s: State<H>,
)
    requires
        is_plain_method(c),
        0 <= s.pc < c.ops.len(),
        request_of(c.ops[s.pc]) matches Some(q) && provides(e, w, t, c.lay, q.import) && (q.argc
            > 0 ==> provides(e, w, t, c.lay, Import::Spill)),
        manifest::can_throw(c.ops[s.pc]) ==> provides(e, w, t, c.lay, Import::Pending),
        sense::boxed_sense(c.ops[s.pc], t) is Some,
        stands(m, s),
    ensures
        ({
            let o = c.ops[s.pc];
            let ran = follow::go(e, pieces::parts_of(c)[s.pc], m);
            match sense::turn(w, sense::boxed_sense(o, t)->0, s) {
                Turn::Next(n) => ran matches Out::Next(m2) && stands(m2, n) && m2.state.spilled
                    == m.state.spilled && m2.locals == m.locals && n.pc == s.pc + 1,
                Turn::Threw(host) => manifest::can_throw(o) ==> ran == Out::Returned(
                    Val::I64(UNDEFINED_BITS),
                    Linked { host, pending: true, ..m.state },
                ),
                Turn::Returned(_, _) => false,
                Turn::Stuck => true,
            }
        }),
{
    let i = s.pc;
    let o = c.ops[i];
    let q = request_of(o)->0;
    let code = request_code(c.lay, q.argc, q.consts, q.import, q.keep);
    pieces::the_code_of_an_op_stands_alone(c, i);
    lemma_request_code(c, i);
    lemma_flat_request(c.lay, q);
    let nodes = pieces::parts_of(c)[i];
    if !(o is PushString) {
        lemma_request_sense(o, t);
    }
    let turned = sense::turn(w, sense::boxed_sense(o, t)->0, s);
    let n = s.stack.len() as int;
    if !(turned is Stuck) {
        assert(n >= q.head + q.argc);
        lemma_request_runs(e, w, t, c.lay, o, m, s);
        let m1 = compiled::through(e, code, 0, m)->Next_0;
        if manifest::can_throw(o) {
            lemma_bails(e, w, t, c.lay, nodes, code, m, m1);
        } else {
            assert(pieces::whole_code(c, i) =~= code);
            compiled::lemma_plain_structure(nodes);
            compiled::lemma_through(e, code, 0, m);
            assert(code.skip(0) =~= code);
        }
        if let Turn::Next(next) = turned {
            assert(m1.stack =~= compiled::words(next.stack));
        }
    }
}

// Signatures.

/// The manifest has the import.
pub open spec fn has_import(m: Manifest, import: Import) -> bool {
    match import {
        Import::Unary(i) => i < m.num_helpers,
        Import::Binary(i) => i < m.num_helpers2,
        Import::Ternary(k) => k < 5 && manifest::has_kind(m.set3_mask, k),
        Import::GetProperty => m.has_getprop,
        Import::GetPropertyBy => m.has_getprop_fast,
        Import::GetSlot => m.has_getslot,
        Import::Coerce => m.has_coerce,
        Import::CallMethod => m.has_call,
        Import::CallProperty => m.has_callprop,
        Import::ConstructSuper => m.has_construct_super,
        Import::CallValue => m.has_call_value,
        Import::Variadic => m.has_vcall,
        Import::Spill => manifest::wants_pca(m),
        Import::Pending => manifest::wants_perr(m),
    }
}

/// An import is a function that takes its operands as words, and gives a word. Only spilling gives
/// nothing, and whether an error is pending is told by an int.
pub open spec fn has_signature(entity: Entity, import: Import) -> bool {
    entity matches Entity::Func(ty) && ty < module::all_types().len() && {
        let signature = module::all_types()[ty as int];
        &&& signature.params == Seq::new(takes(import), |k: int| ValTy::I64)
        &&& signature.results == match import {
            Import::Spill => Seq::<ValTy>::empty(),
            Import::Pending => seq![ValTy::I32],
            _ => seq![ValTy::I64],
        }
    }
}

/// The type of such a function, by its number among the types.
pub open spec fn type_of(import: Import) -> u32 {
    match import {
        Import::Spill => 4,
        Import::Pending => 5,
        Import::Variadic => 7,
        _ => takes(import) as u32,
    }
}

#[verifier::rlimit(40)]
proof fn lemma_signature(import: Import)
    ensures
        has_signature(Entity::Func(type_of(import)), import),
{
    let ty = type_of(import) as int;
    let types = module::all_types();
    let n = takes(import);
    let signature = types[ty];
    assert(types.len() == 8);
    if import is Spill {
        assert(signature == module::func_ty(ValTy::I64, 1, ValTy::I64, 0));
        assert(signature.results =~= Seq::<ValTy>::empty());
    } else if import is Pending {
        assert(signature == module::func_ty(ValTy::I64, 0, ValTy::I32, 1));
        assert(signature.results =~= seq![ValTy::I32]);
    } else {
        assert(signature == module::func_ty(ValTy::I64, n, ValTy::I64, 1));
        assert(signature.results =~= seq![ValTy::I64]);
    }
    assert(signature.params =~= Seq::new(n, |k: int| ValTy::I64));
}

/// At the index of an import stands a function with the signature that its calls need.
#[verifier::rlimit(40)]
pub proof fn imports_have_the_signatures_of_their_calls(m: Manifest, lay: Layout, import: Import)
    requires
        manifest::places(lay, m),
        has_import(m, import),
    ensures
        has_signature(module::func_imports(m)[index_of(lay, import) as int].entity, import),
{
    module::layout_matches_imports(m, lay);
    lemma_signature(import);
    let all = module::func_imports(m);
    match import {
        Import::Unary(i) => {
            assert(all[i as int].entity == Entity::Func(1));
        },
        Import::Binary(i) => {
            let j = i as int;
            let name = module::numbered('t', j as nat);
            assert(lay.t_base + m.num_helpers2 <= lay.call_index);
            assert(all[lay.t_base + j] == module::func(name, 2));
        },
        Import::Ternary(k) => {
            assert(all[lay.set3_index@[k as int] as int].entity == Entity::Func(3));
        },
        _ => {},
    }
}

/// The dispatcher of a generation calls the member that its first argument names, with the other
/// five in their order, and gives its result.
#[verifier::rlimit(40)]
pub proof fn the_dispatcher_hands_its_arguments_on<X>(
    e: Engine<X>,
    state: X,
    member: Val,
    args: Seq<Val>,
)
    requires
        args.len() == 5,
    ensures
        ({
            let locals = seq![member] + args;
            let code = module::dispatcher().code;
            &&& module::dispatcher().locals.len() == 0
            &&& code.last() is End
            &&& follow::go(
                e,
                machine::plains(code.drop_last()),
                Going { locals, stack: Seq::empty(), state },
            ) == follow::act(
                e,
                Instr::CallIndirect(0, 0),
                Going { locals, stack: args.push(member), state },
            )
        }),
{
    let locals = seq![member] + args;
    let code = module::dispatcher().code.drop_last();
    let m0 = Going { locals, stack: Seq::empty(), state };
    compiled::lemma_through(e, code, 0, m0);
    assert(code.skip(0) =~= code);
    reveal_with_fuel(compiled::through, 8);
    let m1 = m0.pushed(args[0]);
    let m2 = m1.pushed(args[1]);
    let m3 = m2.pushed(args[2]);
    let m4 = m3.pushed(args[3]);
    let m5 = m4.pushed(args[4]);
    let m6 = m5.pushed(member);
    assert(m6.stack =~= args.push(member));
    assert(compiled::through(e, code, 6, m6) == follow::act(e, code[6], m6));
    assert(compiled::through(e, code, 5, m5) == compiled::through(e, code, 6, m6));
    assert(compiled::through(e, code, 4, m4) == compiled::through(e, code, 5, m5));
    assert(compiled::through(e, code, 3, m3) == compiled::through(e, code, 4, m4));
    assert(compiled::through(e, code, 2, m2) == compiled::through(e, code, 3, m3));
    assert(compiled::through(e, code, 1, m1) == compiled::through(e, code, 2, m2));
}

// Manifests.

/// The code of the op may call the import.
pub open spec fn may_call(o: JitOp, import: Import) -> bool {
    ||| request_of(o) matches Some(q) && (import == q.import || (q.argc > 0 && import is Spill))
    ||| manifest::can_throw(o) && import is Pending
    ||| match o {
        JitOp::CmpNum(i) => import == Import::Binary(i),
        JitOp::BitOpInt(i) => import == Import::Binary(i),
        JitOp::ArithInt(i) => import == Import::Binary(i),
        JitOp::ArithNum(i) => import == Import::Binary(i),
        JitOp::CoerceInt(true) => import == Import::Unary(12),
        JitOp::CoerceInt(false) => import == Import::Unary(11),
        JitOp::CoerceBool => import == Import::Unary(5),
        JitOp::IfTrueBoxed(_) => import == Import::Unary(5),
        JitOp::IfFalseBoxed(_) => import == Import::Unary(5),
        JitOp::LookupSwitch(_) => import == Import::Unary(12),
        JitOp::ReturnValueCoerced => import == Import::Unary(16),
        JitOp::ReturnValueCoerceBaked(_) => import == Import::Unary(16),
        JitOp::Throw => import == Import::Unary(19),
        JitOp::IncDecLocalNum(_, true) => import == Import::Unary(0),
        JitOp::IncDecLocalNum(_, false) => import == Import::Unary(1),
        JitOp::DmLoad(1) => import == Import::Unary(8),
        JitOp::DmLoad(2) => import == Import::Unary(9),
        JitOp::DmLoad(4) => import == Import::Unary(10),
        JitOp::DmLoadF(4) => import == Import::Unary(26),
        JitOp::DmLoadF(8) => import == Import::Unary(27),
        JitOp::DmStore(_) => import == Import::Ternary(3),
        JitOp::DmStoreF(_) => import == Import::Ternary(4),
        _ => false,
    }
}

#[verifier::rlimit(40)]
proof fn lemma_mask_holds(ops: Seq<JitOp>, i: int, k: u32)
    requires
        0 <= i < ops.len(),
        manifest::set3_kind(ops[i]) == Some(k),
        k < 5,
        manifest::all_in_range(ops),
    ensures
        manifest::has_kind(manifest::mask_of(ops), k),
    decreases ops.len(),
{
    let rest = manifest::mask_of(ops.drop_last());
    let more = match manifest::set3_kind(ops.last()) {
        Some(j) => 1u32 << j,
        None => 0u32,
    };
    assert(((rest | (1u32 << k)) >> k) & 1 == 1 && ((rest >> k) & 1 == 1 ==> ((rest | more) >> k)
        & 1 == 1)) by (bit_vector)
        requires
            k < 5,
    ;
    if i < ops.len() - 1 {
        assert(ops.drop_last()[i] == ops[i]);
        assert(manifest::all_in_range(ops.drop_last())) by {
            assert forall|j: int| 0 <= j < ops.len() - 1 implies manifest::in_range(
                #[trigger] ops.drop_last()[j],
            ) by {
                assert(manifest::in_range(ops[j]));
            }
        }
        lemma_mask_holds(ops.drop_last(), i, k);
    }
}

/// A module imports whatever the code of one of its ops may call.
#[verifier::rlimit(40)]
pub proof fn modules_import_what_their_ops_call(ops: Seq<JitOp>, i: int, import: Import)
    requires
        manifest::all_in_range(ops),
        0 <= i < ops.len(),
        may_call(ops[i], import),
    ensures
        has_import(manifest::manifest_of(ops), import),
{
    let o = ops[i];
    let m = manifest::manifest_of(ops);
    assert forall|j: int| 0 <= j < ops.len() implies manifest::counts_helpers(
        #[trigger] ops[j],
    ) by {
        assert(manifest::in_range(ops[j]));
    }
    assert(manifest::in_range(o));
    assert(manifest::covers(m, m));
    manifest::helpers_stay_within(ops, m, i);
    manifest::perr_iff_an_op_throws(ops);
    if let Import::Ternary(k) = import {
        assert(manifest::set3_kind(o) == Some(k));
        lemma_mask_holds(ops, i, k);
    }
    if import is Pending {
        assert(manifest::can_throw(ops[i]));
    }
}

// Modules.

#[verifier::rlimit(40)]
proof fn lemma_import_count(m: Manifest)
    ensures
        module::func_imports(m).len() == manifest::import_count(m),
{
    reveal(module::optional);
    reveal_with_fuel(module::ternary, 6);
    reveal_with_fuel(manifest::set3_before, 6);
    let mask = m.set3_mask;
    assert(module::ternary(mask, 5).len() == manifest::set3_before(mask, 5));
}

/// A module exports its one function as `run`, behind those that it imports. The function has the
/// type of methods, and its code is that of the ops.
#[verifier::rlimit(40)]
pub proof fn modules_export_their_method(
    ops: Seq<JitOp>,
    switches: Seq<SwitchTable>,
    exceptions: Seq<ExcRange>,
    target: Target,
)
    ensures
        module::module_parts(ops, switches, exceptions, target) matches Some(parts) ==> {
            let m = manifest::manifest_of(ops);
            let lay = manifest::layout_for(m, exceptions.len() > 0);
            let code = body::body_code(Ctx { ops, switches, exceptions, lay, target });
            &&& parts.contains(Part::Types(module::all_types()))
            &&& parts.contains(Part::Imports(module::all_imports(m, target)))
            &&& parts.contains(Part::Functions(seq![0u32]))
            &&& parts.contains(
                Part::Exports(
                    seq![Export { name: "run"@, index: module::func_imports(m).len() as u32 }],
                ),
            )
            &&& code is Some
            &&& parts.contains(
                Part::Code(seq![Body { locals: module::method_locals(), code: code->0 }]),
            )
        },
{
    lemma_import_count(manifest::manifest_of(ops));
    if let Some(parts) = module::module_parts(ops, switches, exceptions, target) {
        assert(parts.len() == 5);
        let p0 = parts[0];
        let p1 = parts[1];
        let p2 = parts[2];
        let p3 = parts[3];
        let p4 = parts[4];
        assert(parts.contains(p0) && parts.contains(p1) && parts.contains(p2) && parts.contains(p3)
            && parts.contains(p4));
    }
}

/// The module of a generation has a function for each member, in their order behind the imported
/// ones, and then the dispatcher, which it exports as `run`. The table that the dispatcher calls
/// through holds the members in their order.
#[verifier::rlimit(40)]
pub proof fn generations_export_their_dispatcher(members: Seq<GenMember>, target: Target, k: int)
    requires
        0 <= k < members.len(),
    ensures
        module::generation_parts(members, target) matches Some((parts, m)) ==> {
            let first = module::func_imports(m).len();
            let n = members.len();
            &&& exists|types: Seq<u32>, bodies: Seq<Body>, table: Segment|
                {
                    &&& #[trigger] parts.contains(Part::Functions(types))
                    &&& #[trigger] parts.contains(Part::Code(bodies))
                    &&& #[trigger] parts.contains(Part::Elements(seq![table]))
                    &&& types.len() == n + 1 && types[k] == 0 && types[n as int] == 6
                    &&& bodies.last() == module::dispatcher()
                    &&& table.from == 0 && table.functions.len() == n && table.functions[k]
                        == (first + k) as u32
                }
            &&& parts.contains(
                Part::Exports(seq![Export { name: "run"@, index: (first + n) as u32 }]),
            )
        },
{
    if let Some((parts, m)) = module::generation_parts(members, target) {
        lemma_import_count(m);
        let n = members.len();
        let first = module::func_imports(m).len();
        let types = Seq::new(n, |k: int| 0u32).push(6);
        let bodies = (module::member_bodies(members, n, m, target)->0).push(module::dispatcher());
        let table = module::member_segment(first, n);
        assert(parts.len() == 7);
        let p2 = parts[2];
        let p4 = parts[4];
        let p5 = parts[5];
        let p6 = parts[6];
        assert(p2 == Part::Functions(types));
        assert(p5 == Part::Elements(seq![table]));
        assert(p6 == Part::Code(bodies));
        assert(parts.contains(p2) && parts.contains(p4) && parts.contains(p5) && parts.contains(
            p6,
        ));
    }
}

/// A second memory is imported just if the function copies its registers from there, or some op
/// reaches domain memory or an object by itself.
#[verifier::rlimit(40)]
pub proof fn the_second_memory_is_imported_where_it_is_reached(ops: Seq<JitOp>, target: Target)
    ensures
        module::wants_dm(manifest::manifest_of(ops), target) <==> target.web || exists|i: int|
            0 <= i < ops.len() && match #[trigger] ops[i] {
                JitOp::DmLoad(_) => true,
                JitOp::DmStore(_) => true,
                JitOp::DmLoadF(_) => true,
                JitOp::DmStoreF(_) => true,
                JitOp::GetSlot(_, _) => target.slots is Some,
                _ => false,
            },
{
}

/// An alignment is written as the exponent of its power of two.
#[verifier::rlimit(40)]
pub proof fn alignments_are_powers_of_two(a: Align)
    ensures
        power2::pow2(encode::exponent(a) as nat) == match a {
            Align::One => 1nat,
            Align::Two => 2,
            Align::Four => 4,
            Align::Eight => 8,
        },
{
    power2::lemma2_to64();
}

} // verus!
