//! What a method does, whatever its ops do: an interpreter over a host.
//!
//! Control, the operand stack and the locals are the interpreter's own. What an op makes of its
//! operands and of the locals that it names, and whether a branch is taken, is left to a host,
//! with a state of its own: the heap, the scope chain and all the rest. Passes that move ops
//! about are right if they keep what a method does on every host that meets what they rely on.
//!
//! A method of this model has no exception handlers and no switches.

pub mod hoisted;
pub mod inlined;
pub mod known;

use crate::lower::op;
use crate::lower::op::JitOp;
use crate::typed;
use vstd::prelude::*;

verus! {

/// What an op does with its operands and its locals.
pub enum Effect<H> {
    /// It leaves these operands and these values in its locals.
    Done(Seq<u64>, Seq<u64>, H),
    /// The method returns.
    Returned(u64, H),
    /// The method ends with an error.
    Threw(H),
}

/// What ops do. They are given without the indices of their locals and without their targets.
#[verifier::reject_recursive_types(H)]
pub struct Host<H> {
    pub act: spec_fn(JitOp, Seq<u64>, Seq<u64>, H) -> Effect<H>,
    pub takes: spec_fn(JitOp, Seq<u64>, H) -> bool,
}

/// A method under way.
#[verifier::ext_equal]
pub struct State<H> {
    pub pc: int,
    pub locals: Seq<u64>,
    pub stack: Seq<u64>,
    pub host: H,
}

/// What one op leads to.
pub enum Turn<H> {
    Next(State<H>),
    Returned(u64, H),
    Threw(H),
    /// There is no such op, local or operand, or an op that is no return returned.
    Stuck,
}

/// How a method ends.
pub enum End<H> {
    Returned(u64, H),
    Threw(H),
}

/// The op as every place of it is: its locals are all local 0, and it branches to op 0.
pub open spec fn bare(o: JitOp) -> JitOp {
    match o {
        JitOp::GetLocalValue(_) => JitOp::GetLocalValue(0),
        JitOp::SetLocalValue(_) => JitOp::SetLocalValue(0),
        JitOp::StoreLocalValue(_) => JitOp::StoreLocalValue(0),
        JitOp::GetLocal(_) => JitOp::GetLocal(0),
        JitOp::SetLocal(_) => JitOp::SetLocal(0),
        JitOp::IncLocalI(_) => JitOp::IncLocalI(0),
        JitOp::DecLocalI(_) => JitOp::DecLocalI(0),
        JitOp::GetLocalDouble(_) => JitOp::GetLocalDouble(0),
        JitOp::SetLocalDouble(_) => JitOp::SetLocalDouble(0),
        JitOp::StoreLocalDouble(_) => JitOp::StoreLocalDouble(0),
        JitOp::IncDecLocalIValue(_, up) => JitOp::IncDecLocalIValue(0, up),
        JitOp::IncDecLocalNum(_, up) => JitOp::IncDecLocalNum(0, up),
        JitOp::HasNext2(_, _) => JitOp::HasNext2(0, 0),
        _ => op::with_target(o, 0),
    }
}

/// The locals that the op names are there.
pub open spec fn finds_locals(o: JitOp, locals: Seq<u64>) -> bool {
    forall|k: int|
        0 <= k < crate::inline::locals_of(o).len() ==> #[trigger] crate::inline::locals_of(o)[k]
            < locals.len()
}

/// The values of the locals that the op names.
pub open spec fn own_locals(o: JitOp, locals: Seq<u64>) -> Seq<u64> {
    crate::inline::locals_of(o).map_values(|i: u32| locals[i as int])
}

/// The locals after the op has left `values` in those that it names, two at most.
pub open spec fn with_own(o: JitOp, locals: Seq<u64>, values: Seq<u64>) -> Seq<u64> {
    let named = crate::inline::locals_of(o);
    Seq::new(
        locals.len(),
        |i: int|
            if named.len() > 0 && i == named[0] {
                values[0]
            } else if named.len() > 1 && i == named[1] {
                values[1]
            } else {
                locals[i]
            },
    )
}

impl<H> State<H> {
    /// The operands below the top `n`.
    pub open spec fn below(self, n: nat) -> Seq<u64> {
        self.stack.take(self.stack.len() - n)
    }

    /// The top `n` operands.
    pub open spec fn top(self, n: nat) -> Seq<u64> {
        self.stack.skip(self.stack.len() - n)
    }

    /// On to the next op, with this stack.
    pub open spec fn on(self, stack: Seq<u64>) -> Turn<H> {
        Turn::Next(State { pc: self.pc + 1, stack, ..self })
    }
}

/// An op that the host does.
pub open spec fn acted<H>(host: Host<H>, o: JitOp, s: State<H>) -> Turn<H> {
    let n = typed::arity(o).0;
    match (host.act)(bare(o), s.top(n), own_locals(o, s.locals), s.host) {
        Effect::Done(results, values, h) => Turn::Next(
            State {
                pc: s.pc + 1,
                locals: with_own(o, s.locals, values),
                stack: s.below(n) + results,
                host: h,
            },
        ),
        Effect::Returned(v, h) => if op::is_return(o) {
            Turn::Returned(v, h)
        } else {
            Turn::Stuck
        },
        Effect::Threw(h) => Turn::Threw(h),
    }
}

/// The op does what it does wherever it stands.
pub open spec fn op_turn<H>(host: Host<H>, o: JitOp, s: State<H>) -> Turn<H> {
    let n = typed::arity(o).0;
    if s.stack.len() < n || !finds_locals(o, s.locals) {
        Turn::Stuck
    } else {
        match o {
            JitOp::Nop => s.on(s.stack),
            JitOp::Pop => s.on(s.below(1)),
            JitOp::PushConst(bits) => s.on(s.stack.push(bits)),
            JitOp::GetLocalValue(i) => s.on(s.stack.push(s.locals[i as int])),
            JitOp::SetLocalValue(i) => Turn::Next(
                State {
                    pc: s.pc + 1,
                    locals: s.locals.update(i as int, s.stack.last()),
                    stack: s.below(1),
                    host: s.host,
                },
            ),
            JitOp::Jump(t) => Turn::Next(State { pc: t as int, ..s }),
            JitOp::ReturnValueBoxed => Turn::Returned(s.stack.last(), s.host),
            JitOp::ReturnVoidBoxed(bits) => Turn::Returned(bits, s.host),
            JitOp::LookupSwitch(_) => Turn::Stuck,
            _ => match op::branch_target(o) {
                Some(t) => Turn::Next(
                    State {
                        pc: if (host.takes)(bare(o), s.top(n), s.host) {
                            t as int
                        } else {
                            s.pc + 1
                        },
                        stack: s.below(n),
                        ..s
                    },
                ),
                None => acted(host, o, s),
            },
        }
    }
}

/// One op of a method.
pub open spec fn turn<H>(host: Host<H>, ops: Seq<JitOp>, s: State<H>) -> Turn<H> {
    if 0 <= s.pc < ops.len() {
        op_turn(host, ops[s.pc], s)
    } else {
        Turn::Stuck
    }
}

/// How the method ends within `fuel` ops; `None` if it has not ended by then, or gets stuck.
pub open spec fn end_of<H>(host: Host<H>, ops: Seq<JitOp>, s: State<H>, fuel: nat) -> Option<
    End<H>,
>
    decreases fuel,
{
    if fuel == 0 {
        None
    } else {
        match turn(host, ops, s) {
            Turn::Next(t) => end_of(host, ops, t, (fuel - 1) as nat),
            Turn::Returned(v, h) => Some(End::Returned(v, h)),
            Turn::Threw(h) => Some(End::Threw(h)),
            Turn::Stuck => None,
        }
    }
}

/// The state after `n` ops, if the method has not ended before.
pub open spec fn state_after<H>(host: Host<H>, ops: Seq<JitOp>, s: State<H>, n: nat) -> Option<
    State<H>,
>
    decreases n,
{
    if n == 0 {
        Some(s)
    } else {
        match turn(host, ops, s) {
            Turn::Next(t) => state_after(host, ops, t, (n - 1) as nat),
            _ => None,
        }
    }
}

/// A method that goes on after `n` ops ends as it ends from there.
pub proof fn lemma_skips<H>(host: Host<H>, ops: Seq<JitOp>, s: State<H>, n: nat, fuel: nat)
    requires
        state_after(host, ops, s, n) is Some,
    ensures
        end_of(host, ops, s, n + fuel) == end_of(
            host,
            ops,
            state_after(host, ops, s, n)->0,
            fuel,
        ),
    decreases n,
{
    if n > 0 {
        let t = turn(host, ops, s)->Next_0;
        lemma_skips(host, ops, t, (n - 1) as nat, fuel);
    }
}

/// Some ops, then some more.
pub proof fn lemma_goes_on<H>(host: Host<H>, ops: Seq<JitOp>, s: State<H>, n: nat, more: nat)
    requires
        state_after(host, ops, s, n) is Some,
    ensures
        state_after(host, ops, s, n + more) == state_after(
            host,
            ops,
            state_after(host, ops, s, n)->0,
            more,
        ),
    decreases n,
{
    if n > 0 {
        let t = turn(host, ops, s)->Next_0;
        lemma_goes_on(host, ops, t, (n - 1) as nat, more);
    }
}

/// The locals of the one run, and more behind them.
pub open spec fn extends(more: Seq<u64>, locals: Seq<u64>) -> bool {
    &&& locals.len() <= more.len()
    &&& forall|i: int| 0 <= i < locals.len() ==> #[trigger] more[i] == locals[i]
}

/// One op of both runs: the same op but for its target.
pub open spec fn in_step<H>(o: JitOp, o2: JitOp, s: State<H>, t: Turn<H>, s2: State<H>, t2: Turn<H>) -> bool {
    match (t, t2) {
        (Turn::Next(n), Turn::Next(n2)) => {
            &&& n2.stack == n.stack
            &&& n2.host == n.host
            &&& n.locals.len() == s.locals.len()
            &&& n2.locals.len() == s2.locals.len()
            &&& extends(n2.locals, n.locals)
            &&& forall|i: int| s.locals.len() <= i < s2.locals.len() ==> #[trigger] n2.locals[i] == s2.locals[i]
            &&& (n.pc == s.pc + 1 && n2.pc == s2.pc + 1 && !(o is Jump)) || (op::branch_target(o) is Some
                && n.pc == op::branch_target(o)->0 && op::branch_target(o2) is Some && n2.pc
                == op::branch_target(o2)->0)
        },
        (Turn::Returned(v, h), Turn::Returned(v2, h2)) => v == v2 && h == h2,
        (Turn::Threw(h), Turn::Threw(h2)) => h == h2,
        (Turn::Stuck, _) => true,
        _ => false,
    }
}

/// The same op does the same in both runs.
pub proof fn lemma_in_step<H>(host: Host<H>, o: JitOp, o2: JitOp, s: State<H>, s2: State<H>)
    requires
        o2 == o || (op::branch_target(o) is Some && exists|t: usize| o2 == op::with_target(o, t)),
        s2.stack == s.stack,
        s2.host == s.host,
        extends(s2.locals, s.locals),
    ensures
        in_step(o, o2, s, op_turn(host, o, s), s2, op_turn(host, o2, s2)),
{
    let named = crate::inline::locals_of(o);
    if s.stack.len() >= typed::arity(o).0 && finds_locals(o, s.locals) {
        assert forall|k: int| 0 <= k < named.len() implies #[trigger] named[k] < s2.locals.len() by {
            assert(named[k] < s.locals.len());
        }
        assert(own_locals(o, s.locals) =~= own_locals(o, s2.locals)) by {
            assert forall|k: int| 0 <= k < named.len() implies s.locals[#[trigger] named[k] as int]
                == s2.locals[named[k] as int] by {
                assert(named[k] < s.locals.len());
            }
        }
        match o {
            JitOp::GetLocalValue(i) => {
                assert(named[0] == i);
            },
            JitOp::SetLocalValue(i) => {
                assert(named[0] == i);
            },
            _ => {
                assert(named.len() > 0 ==> named[0] < s.locals.len());
                assert(named.len() > 1 ==> named[1] < s.locals.len());
            },
        }
    }
}

/// Locals that a method does not name make no difference to it.
pub proof fn lemma_more_locals<H>(
    host: Host<H>,
    ops: Seq<JitOp>,
    s: State<H>,
    s2: State<H>,
    fuel: nat,
)
    requires
        s2.pc == s.pc,
        s2.stack == s.stack,
        s2.host == s.host,
        extends(s2.locals, s.locals),
        end_of(host, ops, s, fuel) is Some,
    ensures
        end_of(host, ops, s2, fuel) == end_of(host, ops, s, fuel),
    decreases fuel,
{
    let o = ops[s.pc];
    lemma_in_step(host, o, o, s, s2);
    if let Turn::Next(n) = turn(host, ops, s) {
        let n2 = turn(host, ops, s2)->Next_0;
        lemma_more_locals(host, ops, n, n2, (fuel - 1) as nat);
    }
}

} // verus!
