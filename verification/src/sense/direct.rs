//! Direct runs do what ops mean.

use crate::direct;
use crate::direct::{Ask, Event, Progress};
use crate::lower::op::JitOp;
use crate::lower::wasm::{UNDEFINED_BITS, VALUE_BOOL_MARK};
use crate::model::{End, State, Turn};
use crate::sense;
use crate::sense::translated;
use crate::sense::{Served, Service, Tables, World};
use vstd::prelude::*;

verus! {

/// What the world answers to what a direct run asks for; `None` if there is no such helper. A few
/// unary helpers are no services on values: number 5 tells whether a word is true, as 0 or 1, and
/// numbers 17 and 18 read the tables.
pub open spec fn answer<H>(w: World<H>, t: Tables, ask: Ask, h: H) -> Option<Served<H>> {
    match ask {
        Ask::Helper(i, a) => if i == 5 {
            Some(
                Served::Word(
                    if (w.truth)(a) {
                        1
                    } else {
                        0
                    },
                    h,
                ),
            )
        } else if i == 17 {
            Some((w.serve)(Service::Globals(t.scripts[a as int]), Seq::empty(), h))
        } else if i == 18 {
            Some(Served::Word(t.strings[a as int], h))
        } else {
            match sense::unary_service(i) {
                Some(service) => Some((w.serve)(service, seq![a], h)),
                None => None,
            }
        },
        Ask::Helper2(i, a, b) => match sense::binary_service(i) {
            Some(service) => Some((w.serve)(service, seq![a, b], h)),
            None => None,
        },
        Ask::Helper3(kind, a, b, imm) => match sense::ternary_service(kind, imm) {
            Some(service) => Some((w.serve)(service, seq![a, b], h)),
            None => None,
        },
        Ask::Coerce(a, k) => Some((w.serve)(Service::ToClass(t.classes[k as int]), seq![a], h)),
        Ask::GetProperty(a, k) => Some(
            (w.serve)(Service::GetProperty(t.names[k as int]), seq![a], h),
        ),
        Ask::GetPropertyFast(a, b, k) => Some(
            (w.serve)(Service::GetPropertyBy(t.names[k as int]), seq![a, b], h),
        ),
        Ask::GetSlot(a, id) => Some((w.serve)(Service::GetSlot(id), seq![a], h)),
    }
}

/// How a direct run ends whose host is the world: it asks, the world answers, and it goes on. After
/// an error it has to end with `undefined` at once, and the host raises the error.
pub open spec fn played<H>(
    w: World<H>,
    t: Tables,
    ops: Seq<JitOp>,
    regs: Seq<u64>,
    p: Progress,
    h: H,
    fuel: nat,
) -> Option<End<H>>
    decreases fuel,
{
    if fuel == 0 {
        None
    } else {
        match direct::run_on(ops, regs, p) {
            Event::Done(v) => Some(End::Returned(v, h)),
            Event::Ask(ask, q) => match answer(w, t, ask, h) {
                Some(Served::Word(word, h2)) => match direct::replied(ops[q.pc], q, word, false) {
                    Event::Next(r) => played(w, t, ops, regs, r, h2, (fuel - 1) as nat),
                    Event::Done(v) => Some(End::Returned(v, h2)),
                    _ => None,
                },
                Some(Served::Threw(h2)) => match direct::replied(ops[q.pc], q, 0, true) {
                    Event::Done(v) => if v == UNDEFINED_BITS {
                        Some(End::Threw(h2))
                    } else {
                        None
                    },
                    _ => None,
                },
                None => None,
            },
            _ => None,
        }
    }
}

/// The method where the run stands.
pub open spec fn standing<H>(regs: Seq<u64>, p: Progress, h: H) -> State<H> {
    State { pc: p.pc, locals: regs, stack: p.stack, host: h }
}

/// What an op that asks leads to, once the world has answered.
spec fn answered<H>(
    w: World<H>,
    t: Tables,
    o: JitOp,
    regs: Seq<u64>,
    ask: Ask,
    q: Progress,
    h: H,
) -> Turn<H> {
    match answer(w, t, ask, h) {
        Some(Served::Word(word, h2)) => match direct::replied(o, q, word, false) {
            Event::Next(r) => Turn::Next(standing(regs, r, h2)),
            Event::Done(v) => Turn::Returned(v, h2),
            _ => Turn::Stuck,
        },
        Some(Served::Threw(h2)) => Turn::Threw(h2),
        None => Turn::Stuck,
    }
}

proof fn lemma_truth_word(b: bool)
    ensures
        VALUE_BOOL_MARK | ((if b {
            1u64
        } else {
            0u64
        }) & 1) == sense::bool_word(b),
{
    let mark: u64 = VALUE_BOOL_MARK;
    assert(mark | (1u64 & 1) == mark | 1 && mark | (0u64 & 1) == mark) by (bit_vector);
}

/// Ops that need no host.
#[verifier::spinoff_prover]
#[verifier::rlimit(100)]
proof fn lemma_silent_op<H>(
    w: World<H>,
    t: Tables,
    ops: Seq<JitOp>,
    regs: Seq<u64>,
    p: Progress,
    h: H,
)
    requires
        direct::in_step(ops, p),
    ensures
        ({
            let s = standing(regs, p, h);
            match direct::op_event(ops[p.pc], regs, p) {
                Event::Next(q) => translated::boxed_turn(w, ops, t, s) == Turn::Next(
                    standing(regs, q, h),
                ) && q.pc == p.pc + 1,
                Event::Done(v) => translated::boxed_turn(w, ops, t, s) == Turn::Returned(v, h),
                Event::Missing => translated::boxed_turn(w, ops, t, s) is Stuck,
                Event::Ask(_, q) => q.pc == p.pc,
            }
        }),
{
    direct::lemma_op_in_step(ops, p);
    let s = standing(regs, p, h);
    let n = p.stack.len() as int;
    let a = sense::int_in(p.top(2));
    let b = sense::int_in(p.top(1));
    sense::lemma_wrapping(a, b);
    sense::lemma_wrapping(b, 1);
    let o = ops[p.pc];
    if let JitOp::PushIntValue(v) = o {
        sense::lemma_wrapping(v, 0);
    }
    if let Event::Next(q) = direct::op_event(o, regs, p) {
        let turned = translated::boxed_turn(w, ops, t, s);
        assert(turned is Next);
        let r = turned->Next_0;
        assert(r.stack =~= q.stack);
        assert(r =~= standing(regs, q, h));
    }
}

#[verifier::spinoff_prover]
#[verifier::rlimit(60)]
proof fn lemma_asking_constant<H>(
    w: World<H>,
    t: Tables,
    ops: Seq<JitOp>,
    regs: Seq<u64>,
    p: Progress,
    h: H,
)
    requires
        direct::in_step(ops, p),
        direct::op_event(ops[p.pc], regs, p) is Ask,
        ({
            let o = ops[p.pc];
            o is PushString || o is GetScriptGlobals || o is CoerceBool
        }),
    ensures
        direct::op_event(ops[p.pc], regs, p) matches Event::Ask(ask, q) && answered(
            w,
            t,
            ops[p.pc],
            regs,
            ask,
            q,
            h,
        ) == translated::boxed_turn(w, ops, t, standing(regs, p, h)),
{
    direct::lemma_op_in_step(ops, p);
    let s = standing(regs, p, h);
    let n = p.stack.len() as int;
    let o = ops[p.pc];
    let ask = direct::op_event(o, regs, p)->Ask_0;
    let q = direct::op_event(o, regs, p)->Ask_1;
    assert(p.stack.skip(n) =~= Seq::empty());
    assert(p.stack.take(n) =~= p.stack);
    if n >= 1 {
        assert(p.stack.skip(n - 1) =~= seq![p.top(1)]);
        lemma_truth_word((w.truth)(p.top(1)));
    }
    if n >= 2 {
        assert(p.stack.skip(n - 2) =~= seq![p.top(2), p.top(1)]);
    }
    let left = answered(w, t, o, regs, ask, q, h);
    let right = translated::boxed_turn(w, ops, t, s);
    if let Turn::Next(l) = left {
        assert(right is Next);
        let r = right->Next_0;
        assert(r.stack =~= l.stack);
        assert(r =~= l);
    }
}

#[verifier::spinoff_prover]
#[verifier::rlimit(60)]
proof fn lemma_asking_helper<H>(
    w: World<H>,
    t: Tables,
    ops: Seq<JitOp>,
    regs: Seq<u64>,
    p: Progress,
    h: H,
)
    requires
        direct::in_step(ops, p),
        direct::op_event(ops[p.pc], regs, p) is Ask,
        ({
            let o = ops[p.pc];
            o is CallHelper || o is CoerceInt
        }),
    ensures
        direct::op_event(ops[p.pc], regs, p) matches Event::Ask(ask, q) && answered(
            w,
            t,
            ops[p.pc],
            regs,
            ask,
            q,
            h,
        ) == translated::boxed_turn(w, ops, t, standing(regs, p, h)),
{
    direct::lemma_op_in_step(ops, p);
    let s = standing(regs, p, h);
    let n = p.stack.len() as int;
    let o = ops[p.pc];
    let ask = direct::op_event(o, regs, p)->Ask_0;
    let q = direct::op_event(o, regs, p)->Ask_1;
    assert(p.stack.skip(n) =~= Seq::empty());
    assert(p.stack.take(n) =~= p.stack);
    if n >= 1 {
        assert(p.stack.skip(n - 1) =~= seq![p.top(1)]);
        lemma_truth_word((w.truth)(p.top(1)));
    }
    if n >= 2 {
        assert(p.stack.skip(n - 2) =~= seq![p.top(2), p.top(1)]);
    }
    let left = answered(w, t, o, regs, ask, q, h);
    let right = translated::boxed_turn(w, ops, t, s);
    if let Turn::Next(l) = left {
        assert(right is Next);
        let r = right->Next_0;
        assert(r.stack =~= l.stack);
        assert(r =~= l);
    }
}

#[verifier::spinoff_prover]
#[verifier::rlimit(60)]
proof fn lemma_asking_text<H>(
    w: World<H>,
    t: Tables,
    ops: Seq<JitOp>,
    regs: Seq<u64>,
    p: Progress,
    h: H,
)
    requires
        direct::in_step(ops, p),
        direct::op_event(ops[p.pc], regs, p) is Ask,
        ({
            let o = ops[p.pc];
            o is CoerceString || o is ReturnValueCoerced || o is Coerce
        }),
    ensures
        direct::op_event(ops[p.pc], regs, p) matches Event::Ask(ask, q) && answered(
            w,
            t,
            ops[p.pc],
            regs,
            ask,
            q,
            h,
        ) == translated::boxed_turn(w, ops, t, standing(regs, p, h)),
{
    direct::lemma_op_in_step(ops, p);
    let s = standing(regs, p, h);
    let n = p.stack.len() as int;
    let o = ops[p.pc];
    let ask = direct::op_event(o, regs, p)->Ask_0;
    let q = direct::op_event(o, regs, p)->Ask_1;
    assert(p.stack.skip(n) =~= Seq::empty());
    assert(p.stack.take(n) =~= p.stack);
    if n >= 1 {
        assert(p.stack.skip(n - 1) =~= seq![p.top(1)]);
        lemma_truth_word((w.truth)(p.top(1)));
    }
    if n >= 2 {
        assert(p.stack.skip(n - 2) =~= seq![p.top(2), p.top(1)]);
    }
    let left = answered(w, t, o, regs, ask, q, h);
    let right = translated::boxed_turn(w, ops, t, s);
    if let Turn::Next(l) = left {
        assert(right is Next);
        let r = right->Next_0;
        assert(r.stack =~= l.stack);
        assert(r =~= l);
    }
}

#[verifier::spinoff_prover]
#[verifier::rlimit(60)]
proof fn lemma_asking_read<H>(
    w: World<H>,
    t: Tables,
    ops: Seq<JitOp>,
    regs: Seq<u64>,
    p: Progress,
    h: H,
)
    requires
        direct::in_step(ops, p),
        direct::op_event(ops[p.pc], regs, p) is Ask,
        ({
            let o = ops[p.pc];
            o is GetProperty || o is GetSlot || o is GetPropertyFast
        }),
    ensures
        direct::op_event(ops[p.pc], regs, p) matches Event::Ask(ask, q) && answered(
            w,
            t,
            ops[p.pc],
            regs,
            ask,
            q,
            h,
        ) == translated::boxed_turn(w, ops, t, standing(regs, p, h)),
{
    direct::lemma_op_in_step(ops, p);
    let s = standing(regs, p, h);
    let n = p.stack.len() as int;
    let o = ops[p.pc];
    let ask = direct::op_event(o, regs, p)->Ask_0;
    let q = direct::op_event(o, regs, p)->Ask_1;
    assert(p.stack.skip(n) =~= Seq::empty());
    assert(p.stack.take(n) =~= p.stack);
    if n >= 1 {
        assert(p.stack.skip(n - 1) =~= seq![p.top(1)]);
        lemma_truth_word((w.truth)(p.top(1)));
    }
    if n >= 2 {
        assert(p.stack.skip(n - 2) =~= seq![p.top(2), p.top(1)]);
    }
    let left = answered(w, t, o, regs, ask, q, h);
    let right = translated::boxed_turn(w, ops, t, s);
    if let Turn::Next(l) = left {
        assert(right is Next);
        let r = right->Next_0;
        assert(r.stack =~= l.stack);
        assert(r =~= l);
    }
}

#[verifier::spinoff_prover]
#[verifier::rlimit(60)]
proof fn lemma_asking_binary<H>(
    w: World<H>,
    t: Tables,
    ops: Seq<JitOp>,
    regs: Seq<u64>,
    p: Progress,
    h: H,
)
    requires
        direct::in_step(ops, p),
        direct::op_event(ops[p.pc], regs, p) is Ask,
        ({
            let o = ops[p.pc];
            o is CallHelper2 || o is CmpNum || o is BitOpInt
        }),
    ensures
        direct::op_event(ops[p.pc], regs, p) matches Event::Ask(ask, q) && answered(
            w,
            t,
            ops[p.pc],
            regs,
            ask,
            q,
            h,
        ) == translated::boxed_turn(w, ops, t, standing(regs, p, h)),
{
    direct::lemma_op_in_step(ops, p);
    let s = standing(regs, p, h);
    let n = p.stack.len() as int;
    let o = ops[p.pc];
    let ask = direct::op_event(o, regs, p)->Ask_0;
    let q = direct::op_event(o, regs, p)->Ask_1;
    assert(p.stack.skip(n) =~= Seq::empty());
    assert(p.stack.take(n) =~= p.stack);
    if n >= 1 {
        assert(p.stack.skip(n - 1) =~= seq![p.top(1)]);
        lemma_truth_word((w.truth)(p.top(1)));
    }
    if n >= 2 {
        assert(p.stack.skip(n - 2) =~= seq![p.top(2), p.top(1)]);
    }
    let left = answered(w, t, o, regs, ask, q, h);
    let right = translated::boxed_turn(w, ops, t, s);
    if let Turn::Next(l) = left {
        assert(right is Next);
        let r = right->Next_0;
        assert(r.stack =~= l.stack);
        assert(r =~= l);
    }
}

#[verifier::spinoff_prover]
#[verifier::rlimit(60)]
proof fn lemma_asking_number<H>(
    w: World<H>,
    t: Tables,
    ops: Seq<JitOp>,
    regs: Seq<u64>,
    p: Progress,
    h: H,
)
    requires
        direct::in_step(ops, p),
        direct::op_event(ops[p.pc], regs, p) is Ask,
        ({
            let o = ops[p.pc];
            o is ArithInt || o is ArithNum || o is CallHelper3
        }),
    ensures
        direct::op_event(ops[p.pc], regs, p) matches Event::Ask(ask, q) && answered(
            w,
            t,
            ops[p.pc],
            regs,
            ask,
            q,
            h,
        ) == translated::boxed_turn(w, ops, t, standing(regs, p, h)),
{
    direct::lemma_op_in_step(ops, p);
    let s = standing(regs, p, h);
    let n = p.stack.len() as int;
    let o = ops[p.pc];
    let ask = direct::op_event(o, regs, p)->Ask_0;
    let q = direct::op_event(o, regs, p)->Ask_1;
    assert(p.stack.skip(n) =~= Seq::empty());
    assert(p.stack.take(n) =~= p.stack);
    if n >= 1 {
        assert(p.stack.skip(n - 1) =~= seq![p.top(1)]);
        lemma_truth_word((w.truth)(p.top(1)));
    }
    if n >= 2 {
        assert(p.stack.skip(n - 2) =~= seq![p.top(2), p.top(1)]);
    }
    let left = answered(w, t, o, regs, ask, q, h);
    let right = translated::boxed_turn(w, ops, t, s);
    if let Turn::Next(l) = left {
        assert(right is Next);
        let r = right->Next_0;
        assert(r.stack =~= l.stack);
        assert(r =~= l);
    }
}

/// Ops that ask.
proof fn lemma_asking_op<H>(
    w: World<H>,
    t: Tables,
    ops: Seq<JitOp>,
    regs: Seq<u64>,
    p: Progress,
    h: H,
)
    requires
        direct::in_step(ops, p),
        direct::op_event(ops[p.pc], regs, p) is Ask,
    ensures
        direct::op_event(ops[p.pc], regs, p) matches Event::Ask(ask, q) && answered(
            w,
            t,
            ops[p.pc],
            regs,
            ask,
            q,
            h,
        ) == translated::boxed_turn(w, ops, t, standing(regs, p, h)),
{
    direct::lemma_op_in_step(ops, p);
    let o = ops[p.pc];
    match o {
        JitOp::PushString { .. } => lemma_asking_constant(w, t, ops, regs, p, h),
        JitOp::GetScriptGlobals { .. } => lemma_asking_constant(w, t, ops, regs, p, h),
        JitOp::CoerceBool { .. } => lemma_asking_constant(w, t, ops, regs, p, h),
        JitOp::CallHelper { .. } => lemma_asking_helper(w, t, ops, regs, p, h),
        JitOp::CoerceInt { .. } => lemma_asking_helper(w, t, ops, regs, p, h),
        JitOp::CoerceString { .. } => lemma_asking_text(w, t, ops, regs, p, h),
        JitOp::ReturnValueCoerced { .. } => lemma_asking_text(w, t, ops, regs, p, h),
        JitOp::Coerce { .. } => lemma_asking_text(w, t, ops, regs, p, h),
        JitOp::GetProperty { .. } => lemma_asking_read(w, t, ops, regs, p, h),
        JitOp::GetSlot { .. } => lemma_asking_read(w, t, ops, regs, p, h),
        JitOp::GetPropertyFast { .. } => lemma_asking_read(w, t, ops, regs, p, h),
        JitOp::CallHelper2 { .. } => lemma_asking_binary(w, t, ops, regs, p, h),
        JitOp::CmpNum { .. } => lemma_asking_binary(w, t, ops, regs, p, h),
        JitOp::BitOpInt { .. } => lemma_asking_binary(w, t, ops, regs, p, h),
        JitOp::ArithInt { .. } => lemma_asking_number(w, t, ops, regs, p, h),
        JitOp::ArithNum { .. } => lemma_asking_number(w, t, ops, regs, p, h),
        JitOp::CallHelper3 { .. } => lemma_asking_number(w, t, ops, regs, p, h),
        _ => {},
    }
}

/// A direct run ends as the ops mean, on every world. `fuel` and `more` are enough for the rest of
/// the method.
pub proof fn direct_runs_do_what_the_ops_mean<H>(
    w: World<H>,
    t: Tables,
    ops: Seq<JitOp>,
    regs: Seq<u64>,
    p: Progress,
    h: H,
    fuel: nat,
    more: nat,
)
    requires
        direct::in_step(ops, p),
        fuel >= ops.len() - p.pc,
        more >= ops.len() - p.pc,
    ensures
        played(w, t, ops, regs, p, h, fuel) == translated::boxed_end(
            w,
            ops,
            t,
            standing(regs, p, h),
            more,
        ),
    decreases ops.len() - p.pc,
{
    let s = standing(regs, p, h);
    lemma_silent_op(w, t, ops, regs, p, h);
    direct::eligible_methods_run_to_their_return(ops, regs, p);
    direct::lemma_op_in_step(ops, p);
    match direct::op_event(ops[p.pc], regs, p) {
        Event::Next(q) => {
            assert(direct::in_step(ops, q));
            direct_runs_do_what_the_ops_mean(w, t, ops, regs, q, h, fuel, (more - 1) as nat);
        },
        Event::Ask(ask, q) => {
            lemma_asking_op(w, t, ops, regs, p, h);
            assert(direct::waiting(ops, q));
            if let Some(Served::Word(word, h2)) = answer(w, t, ask, h) {
                direct::replies_keep_step(ops, q, word, false);
                if let Event::Next(r) = direct::replied(ops[p.pc], q, word, false) {
                    direct_runs_do_what_the_ops_mean(
                        w,
                        t,
                        ops,
                        regs,
                        r,
                        h2,
                        (fuel - 1) as nat,
                        (more - 1) as nat,
                    );
                }
            }
        },
        _ => {},
    }
}

} // verus!
