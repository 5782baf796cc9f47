//! Putting a callee's body in place of a call keeps what a method does.

use crate::inline::ResultMode;
use crate::lower::op;
use crate::lower::op::JitOp;
use crate::model;
use crate::model::{Effect, End, Host, State, Turn};
use crate::typed;
use vstd::prelude::*;

verus! {

/// The call at `at` and what takes its place. The callee's frame has `size` locals.
pub struct Inlining {
    pub caller: Seq<JitOp>,
    pub at: int,
    pub callee: Seq<JitOp>,
    pub base: int,
    pub names: int,
    pub argc: nat,
    pub result: ResultMode,
    pub size: nat,
}

impl Inlining {
    pub open spec fn put(self) -> Seq<JitOp> {
        crate::inline::inlined(
            self.callee,
            self.at,
            self.base,
            self.names,
            self.argc,
            self.result,
        )
    }

    /// The caller with the call replaced.
    pub open spec fn outcome(self) -> Seq<JitOp> {
        crate::inline::spliced(self.caller, self.at, self.put())
    }

    /// Where the callee's body starts.
    pub open spec fn start(self) -> int {
        self.at + self.argc + 1
    }

    /// How many ops the callee has in front of its return.
    pub open spec fn len(self) -> int {
        self.callee.len() - 1
    }

    /// Where the ops behind the call have gone.
    pub open spec fn place(self, pc: int) -> int {
        if pc <= self.at {
            pc
        } else {
            pc + self.put().len() - 1
        }
    }

    /// A call takes its receiver and `argc` arguments, and the callee can be put in its place.
    pub open spec fn is_valid(self) -> bool {
        &&& 0 <= self.at < self.caller.len()
        &&& self.caller[self.at] is CallMethod || self.caller[self.at] is CallMethodDirect
            || self.caller[self.at] is CallProperty || self.caller[self.at] is ConstructSuper
        &&& typed::arity(self.caller[self.at]).0 == self.argc + 1
        &&& crate::inline::inlinable(self.callee) is Some
        &&& 0 <= self.base
        &&& 0 <= self.names
        &&& crate::inline::can_splice(
            self.caller,
            self.at,
            self.callee,
            self.base,
            self.names,
            self.argc,
        )
        &&& self.argc < self.size
        &&& self.base + self.size <= u32::MAX
    }

    /// The callee as it is entered: receiver and arguments, then its other locals.
    pub open spec fn entered<H>(self, args: Seq<u64>, rest: Seq<u64>, h: H) -> State<H> {
        State { pc: 0, locals: args + rest, stack: Seq::empty(), host: h }
    }

    /// What the caller gets from the operands that the callee has at its return; `None` if the
    /// callee has not just its result there.
    pub open spec fn results(self, stack: Seq<u64>) -> Option<Seq<u64>> {
        match (self.callee.last(), self.result) {
            (JitOp::ReturnVoidBoxed(bits), ResultMode::Push) => if stack.len() == 0 {
                Some(seq![bits])
            } else {
                None
            },
            (JitOp::ReturnVoidBoxed(_), ResultMode::Discard) => if stack.len() == 0 {
                Some(Seq::empty())
            } else {
                None
            },
            (_, ResultMode::Push) => if stack.len() == 1 {
                Some(stack)
            } else {
                None
            },
            (_, ResultMode::Discard) => if stack.len() == 1 {
                Some(Seq::empty())
            } else {
                None
            },
        }
    }

    /// After `n` ops the callee is at its return, with these results for the caller.
    pub open spec fn returns_after<H>(
        self,
        inner: Host<H>,
        from: State<H>,
        n: nat,
        results: Seq<u64>,
        h: H,
    ) -> bool {
        model::state_after(inner, self.callee, from, n) matches Some(c) && c.pc == self.len()
            && c.host == h && self.results(c.stack) == Some(results)
    }

    /// After `n` ops the callee throws.
    pub open spec fn throws_after<H>(self, inner: Host<H>, from: State<H>, n: nat, h: H) -> bool {
        model::state_after(inner, self.callee, from, n) matches Some(c) && model::turn(
            inner,
            self.callee,
            c,
        ) == Turn::Threw(h)
    }

    /// What the call does is what the callee does on the host `inner`.
    pub open spec fn does_call<H>(
        self,
        inner: Host<H>,
        effect: Effect<H>,
        args: Seq<u64>,
        rest: Seq<u64>,
        h: H,
    ) -> bool {
        let from = self.entered(args, rest, h);
        match effect {
            Effect::Done(results, _, h2) => exists|n: nat| #[trigger]
                self.returns_after(inner, from, n, results, h2),
            Effect::Threw(h2) => exists|n: nat| #[trigger] self.throws_after(inner, from, n, h2),
            Effect::Returned(_, _) => true,
        }
    }

    /// A call runs the callee on the host `inner`, whatever the callee's other locals hold.
    pub open spec fn calls<H>(self, host: Host<H>, inner: Host<H>) -> bool {
        let o = model::bare(self.caller[self.at]);
        forall|args: Seq<u64>, rest: Seq<u64>, h: H|
            args.len() == self.argc + 1 && rest.len() == self.size - self.argc - 1
                ==> #[trigger] self.does_call(
                inner,
                (host.act)(o, args, Seq::empty(), h),
                args,
                rest,
                h,
            )
    }

    /// The callee's ops do on the caller's host, with their multinames moved, what they do on
    /// the callee's.
    pub open spec fn lines_up<H>(self, host: Host<H>, inner: Host<H>) -> bool {
        forall|j: int, args: Seq<u64>, values: Seq<u64>, h: H|
            #![trigger self.same_op(host, inner, j, args, values, h)]
            0 <= j < self.len() ==> self.same_op(host, inner, j, args, values, h)
    }

    pub open spec fn same_op<H>(
        self,
        host: Host<H>,
        inner: Host<H>,
        j: int,
        args: Seq<u64>,
        values: Seq<u64>,
        h: H,
    ) -> bool {
        let o = model::bare(self.callee[j]);
        let moved = model::bare(self.moved(j));
        &&& (host.act)(moved, args, values, h) == (inner.act)(o, args, values, h)
        &&& (host.takes)(moved, args, h) == (inner.takes)(o, args, h)
    }

    /// Op `j` of the callee as it stands in the caller.
    pub open spec fn moved(self, j: int) -> JitOp {
        crate::inline::remapped(self.callee[j], self.base, self.names, self.start())
    }
}

/// The callee under way, and the caller with it inside: the callee's locals and operands are the
/// caller's from `base` on and above `below`.
spec fn nests<H>(p: Inlining, below: Seq<u64>, locals: Seq<u64>, c: State<H>, s: State<H>) -> bool {
    &&& s.pc == p.start() + c.pc
    &&& 0 <= c.pc <= p.len()
    &&& s.stack == below + c.stack
    &&& s.host == c.host
    &&& c.locals.len() == p.size
    &&& p.base + p.size <= s.locals.len()
    &&& s.locals.len() == locals.len()
    &&& forall|i: int| 0 <= i < p.size ==> s.locals[p.base + i] == #[trigger] c.locals[i]
    &&& forall|i: int| 0 <= i < p.base ==> #[trigger] s.locals[i] == locals[i]
}

/// A moved op names the same locals, from `base` on.
proof fn lemma_moved_op(p: Inlining, j: int)
    requires
        p.is_valid(),
        0 <= j < p.len(),
    ensures
        p.outcome()[p.start() + j] == p.moved(j),
        p.start() + j < p.outcome().len(),
        typed::arity(p.moved(j)) == typed::arity(p.callee[j]),
        crate::inline::locals_of(p.moved(j)).len() == crate::inline::locals_of(p.callee[j]).len(),
        forall|k: int|
            0 <= k < crate::inline::locals_of(p.callee[j]).len() ==> #[trigger] crate::inline::locals_of(
                p.moved(j),
            )[k] == crate::inline::locals_of(p.callee[j])[k] + p.base,
        crate::inline::may_inline(p.callee[j]),
        op::branch_target(p.callee[j]) matches Some(t) ==> t < p.len() && op::branch_target(
            p.moved(j),
        ) == Some((p.start() + t) as usize) && p.start() + t <= usize::MAX,
        op::branch_target(p.callee[j]) is None ==> op::branch_target(p.moved(j)) is None,
{
    let o = p.callee[j];
    assert(crate::inline::fits_body(p.callee, p.len() as nat, j));
    assert(crate::inline::can_move(o, p.base, p.names, p.start()));
    assert(p.callee.drop_last()[j] == o);
    let l = crate::inline::locals_of(o);
    if l.len() > 0 {
        assert(l[0] + p.base <= u32::MAX);
    }
    if l.len() > 1 {
        assert(l[1] + p.base <= u32::MAX);
    }
    assert(p.put()[p.argc + 1 + j] == p.moved(j));
}

/// One op of the callee, on its own and inside the caller.
proof fn lemma_nested_turn<H>(
    p: Inlining,
    host: Host<H>,
    inner: Host<H>,
    below: Seq<u64>,
    locals: Seq<u64>,
    c: State<H>,
    s: State<H>,
)
    requires
        p.is_valid(),
        p.lines_up(host, inner),
        nests(p, below, locals, c, s),
        c.pc < p.len(),
    ensures
        match model::turn(inner, p.callee, c) {
            Turn::Next(c2) => model::turn(host, p.outcome(), s) matches Turn::Next(s2) && nests(
                p,
                below,
                locals,
                c2,
                s2,
            ),
            Turn::Threw(h) => model::turn(host, p.outcome(), s) == Turn::Threw(h),
            Turn::Returned(_, _) => false,
            Turn::Stuck => true,
        },
{
    let j = c.pc;
    let o = p.callee[j];
    let o2 = p.moved(j);
    lemma_moved_op(p, j);
    let named = crate::inline::locals_of(o);
    let named2 = crate::inline::locals_of(o2);
    let n = typed::arity(o).0;
    if c.stack.len() >= n && model::finds_locals(o, c.locals) {
        assert forall|k: int| 0 <= k < named2.len() implies #[trigger] named2[k] < s.locals.len() by {
            assert(named[k] < c.locals.len());
        }
        assert(model::own_locals(o2, s.locals) =~= model::own_locals(o, c.locals)) by {
            assert forall|k: int| 0 <= k < named.len() implies s.locals[#[trigger] named2[k] as int]
                == c.locals[named[k] as int] by {
                assert(named[k] < c.locals.len());
            }
        }
        assert(s.top(n) =~= c.top(n));
        assert(s.below(n) =~= below + c.below(n));
        assert(p.same_op(
            host,
            inner,
            j,
            c.top(n),
            model::own_locals(o, c.locals),
            c.host,
        ));
        assert(named.len() > 0 ==> named[0] < c.locals.len() && named2[0] == named[0] + p.base);
        assert(named.len() > 1 ==> named[1] < c.locals.len() && named2[1] == named[1] + p.base);
        match o {
            JitOp::GetLocalValue(i) => {
                assert(named[0] == i);
                assert(s.stack.push(c.locals[i as int]) =~= below + c.stack.push(
                    c.locals[i as int],
                ));
            },
            JitOp::SetLocalValue(i) => {
                assert(named[0] == i);
            },
            JitOp::PushConst(bits) => {
                assert(s.stack.push(bits) =~= below + c.stack.push(bits));
            },
            _ => {},
        }
        if let Effect::Done(results, values, h) = (inner.act)(
            model::bare(o),
            c.top(n),
            model::own_locals(o, c.locals),
            c.host,
        ) {
            assert(s.below(n) + results =~= below + (c.below(n) + results));
        }
    }
}

/// The callee's run goes on inside the caller.
proof fn lemma_nested_run<H>(
    p: Inlining,
    host: Host<H>,
    inner: Host<H>,
    below: Seq<u64>,
    locals: Seq<u64>,
    c: State<H>,
    s: State<H>,
    n: nat,
) -> (s2: State<H>)
    requires
        p.is_valid(),
        p.lines_up(host, inner),
        nests(p, below, locals, c, s),
        model::state_after(inner, p.callee, c, n) is Some,
    ensures
        model::state_after(host, p.outcome(), s, n) == Some(s2),
        nests(p, below, locals, model::state_after(inner, p.callee, c, n)->0, s2),
    decreases n,
{
    if n == 0 {
        s
    } else {
        if c.pc == p.len() {
            assert(p.callee.last() == p.callee[c.pc]);
            assert(!(model::turn(inner, p.callee, c) is Next));
        }
        lemma_nested_turn(p, host, inner, below, locals, c, s);
        let c2 = model::turn(inner, p.callee, c)->Next_0;
        let s2 = model::turn(host, p.outcome(), s)->Next_0;
        lemma_nested_run(p, host, inner, below, locals, c2, s2, (n - 1) as nat)
    }
}

/// The locals with the last `m` of `args` in place.
spec fn placed(p: Inlining, locals: Seq<u64>, args: Seq<u64>, m: nat) -> Seq<u64> {
    Seq::new(
        locals.len(),
        |i: int|
            if p.base + p.argc + 1 - m <= i <= p.base + p.argc {
                args[i - p.base]
            } else {
                locals[i]
            },
    )
}

/// The receiver and the arguments go into the callee's locals, the last first.
proof fn lemma_pops<H>(
    p: Inlining,
    host: Host<H>,
    below: Seq<u64>,
    args: Seq<u64>,
    s: State<H>,
    m: nat,
)
    requires
        p.is_valid(),
        s.pc == p.at,
        s.stack == below + args,
        args.len() == p.argc + 1,
        p.base + p.size <= s.locals.len(),
        m <= p.argc + 1,
    ensures
        model::state_after(host, p.outcome(), s, m) == Some(
            State {
                pc: p.at + m,
                locals: placed(p, s.locals, args, m),
                stack: below + args.take(p.argc + 1 - m),
                host: s.host,
            },
        ),
    decreases m,
{
    if m == 0 {
        assert(placed(p, s.locals, args, 0) =~= s.locals);
        assert(args.take(args.len() as int) =~= args);
    } else {
        let n = (m - 1) as nat;
        lemma_pops(p, host, below, args, s, n);
        let before = model::state_after(host, p.outcome(), s, n)->0;
        let i = (p.base + p.argc - n) as u32;
        let o = JitOp::SetLocalValue(i);
        assert(p.put()[n as int] == o);
        assert(p.outcome()[p.at + n] == o);
        assert(crate::inline::locals_of(o) =~= seq![i]);
        let after = State {
            pc: p.at + m,
            locals: placed(p, s.locals, args, m),
            stack: below + args.take(p.argc + 1 - m),
            host: s.host,
        };
        assert(before.stack.last() == args[p.argc - n]);
        assert(before.locals.update(i as int, args[p.argc - n]) =~= after.locals);
        assert(before.below(1) =~= after.stack);
        assert(model::turn(host, p.outcome(), before) == Turn::Next(after));
        reveal_with_fuel(model::state_after, 2);
        assert(model::state_after(host, p.outcome(), before, 1) == Some(after));
        model::lemma_goes_on(host, p.outcome(), s, n, 1);
    }
}

/// Behind the body the caller finds what it expects.
proof fn lemma_glue<H>(
    p: Inlining,
    host: Host<H>,
    below: Seq<u64>,
    locals: Seq<u64>,
    c: State<H>,
    s: State<H>,
)
    requires
        p.is_valid(),
        nests(p, below, locals, c, s),
        c.pc == p.len(),
        p.results(c.stack) is Some,
    ensures
        model::state_after(
            host,
            p.outcome(),
            s,
            (p.put().len() - p.argc - 1 - p.len()) as nat,
        ) == Some(
            State {
                pc: p.at + p.put().len(),
                stack: below + p.results(c.stack)->0,
                ..s
            },
        ),
{
    let glue = crate::inline::result_glue(p.callee.last(), p.result);
    let ops = p.outcome();
    reveal_with_fuel(model::state_after, 2);
    assert(p.put().len() == p.argc + 1 + p.len() + glue.len());
    let after = State { pc: p.at + p.put().len(), stack: below + p.results(c.stack)->0, ..s };
    if glue.len() > 0 {
        assert(p.put()[p.argc + 1 + p.len()] == glue[0]);
        assert(ops[s.pc] == glue[0]);
        match glue[0] {
            JitOp::Pop => {
                assert(s.below(1) =~= after.stack);
            },
            JitOp::PushConst(bits) => {
                assert(s.stack.push(bits) =~= after.stack);
            },
            _ => {},
        }
        assert(model::turn(host, ops, s) == Turn::Next(after));
    } else {
        assert(s.stack =~= after.stack);
        assert(s =~= after);
    }
}

/// Where the call would run the callee to its return, or to an error, the ops in its place do.
pub proof fn inlined_ops_do_the_call<H>(
    p: Inlining,
    host: Host<H>,
    inner: Host<H>,
    below: Seq<u64>,
    args: Seq<u64>,
    s: State<H>,
    n: nat,
)
    requires
        p.is_valid(),
        p.lines_up(host, inner),
        s.pc == p.at,
        s.stack == below + args,
        args.len() == p.argc + 1,
        p.base + p.size <= s.locals.len(),
    ensures
        ({
            let rest = s.locals.subrange(p.base + p.argc + 1, p.base + p.size);
            let from = p.entered(args, rest, s.host);
            &&& forall|results: Seq<u64>, h: H| #[trigger]
                p.returns_after(inner, from, n, results, h) ==> {
                    let whole = (n + p.put().len() - p.len()) as nat;
                    &&& model::state_after(host, p.outcome(), s, whole) matches Some(t)
                    &&& t.pc == p.at + p.put().len()
                    &&& t.stack == below + results
                    &&& t.host == h
                    &&& t.locals.len() == s.locals.len()
                    &&& forall|i: int| 0 <= i < p.base ==> #[trigger] t.locals[i] == s.locals[i]
                }
            &&& forall|h: H| #[trigger]
                p.throws_after(inner, from, n, h) ==> model::end_of(
                    host,
                    p.outcome(),
                    s,
                    n + p.argc + 2,
                ) == Some(End::Threw(h))
        }),
{
    let ops = p.outcome();
    let rest = s.locals.subrange(p.base + p.argc + 1, p.base + p.size);
    let from = p.entered(args, rest, s.host);
    let pops = (p.argc + 1) as nat;
    lemma_pops(p, host, below, args, s, pops);
    let s1 = model::state_after(host, ops, s, pops)->0;
    assert(s1.stack =~= below + from.stack);
    assert(nests(p, below, s.locals, from, s1));
    if model::state_after(inner, p.callee, from, n) is Some {
        let c = model::state_after(inner, p.callee, from, n)->0;
        let s2 = lemma_nested_run(p, host, inner, below, s.locals, from, s1, n);
        model::lemma_goes_on(host, ops, s, pops, n);
        assert forall|results: Seq<u64>, h: H| #[trigger]
            p.returns_after(inner, from, n, results, h) implies {
            let whole = (n + p.put().len() - p.len()) as nat;
            &&& model::state_after(host, ops, s, whole) matches Some(t)
            &&& t.pc == p.at + p.put().len()
            &&& t.stack == below + results
            &&& t.host == h
            &&& t.locals.len() == s.locals.len()
            &&& forall|i: int| 0 <= i < p.base ==> #[trigger] t.locals[i] == s.locals[i]
        } by {
            let glue = (p.put().len() - p.argc - 1 - p.len()) as nat;
            lemma_glue(p, host, below, s.locals, c, s2);
            model::lemma_goes_on(host, ops, s, pops + n, glue);
        }
        assert forall|h: H| #[trigger] p.throws_after(inner, from, n, h) implies model::end_of(
            host,
            ops,
            s,
            n + p.argc + 2,
        ) == Some(End::Threw(h)) by {
            if c.pc == p.len() {
                assert(p.callee.last() == p.callee[c.pc]);
                assert(!(model::turn(inner, p.callee, c) is Threw));
            }
            lemma_nested_turn(p, host, inner, below, s.locals, c, s2);
            model::lemma_skips(host, ops, s, pops + n, 1);
            reveal_with_fuel(model::end_of, 2);
        }
    }
}

/// The caller with its call, and with what takes its place, are at the same place with the same
/// values.
spec fn mirrors<H>(p: Inlining, s: State<H>, s2: State<H>) -> bool {
    &&& s2.pc == p.place(s.pc)
    &&& s2.stack == s.stack
    &&& s2.host == s.host
    &&& s.locals.len() <= p.base
    &&& p.base + p.size <= s2.locals.len()
    &&& model::extends(s2.locals, s.locals)
}

/// The caller's other ops stay, but for their targets.
proof fn lemma_kept_op(p: Inlining, pc: int)
    requires
        p.is_valid(),
        0 <= pc < p.caller.len(),
        pc != p.at,
    ensures
        0 <= p.place(pc) < p.outcome().len(),
        ({
            let o = p.caller[pc];
            let o2 = p.outcome()[p.place(pc)];
            &&& o2 == o || (op::branch_target(o) is Some && exists|t: usize|
                o2 == op::with_target(o, t))
            &&& op::branch_target(o) matches Some(t) ==> op::branch_target(o2) == Some(
                p.place(t as int) as usize,
            ) && p.place(t as int) <= usize::MAX
        }),
{
    let o = p.caller[pc];
    let more = p.put().len() - 1;
    let o2 = crate::inline::past(o, p.at, more);
    assert(p.put().len() <= p.argc + 2 + p.len());
    assert(p.outcome()[p.place(pc)] == o2) by {
        if pc < p.at {
            assert(p.caller.take(p.at)[pc] == o);
        } else {
            assert(p.caller.skip(p.at + 1)[pc - p.at - 1] == o);
        }
    }
    if let Some(t) = op::branch_target(o) {
        let to = (t + more) as usize;
        if t > p.at {
            assert(o2 == op::with_target(o, to));
        }
    }
}

proof fn lemma_ends_alike<H>(
    p: Inlining,
    host: Host<H>,
    inner: Host<H>,
    s: State<H>,
    s2: State<H>,
    fuel: nat,
) -> (more: nat)
    requires
        p.is_valid(),
        p.lines_up(host, inner),
        p.calls(host, inner),
        mirrors(p, s, s2),
        model::end_of(host, p.caller, s, fuel) is Some,
    ensures
        model::end_of(host, p.outcome(), s2, more) == model::end_of(host, p.caller, s, fuel),
    decreases fuel,
{
    let ops = p.outcome();
    let o = p.caller[s.pc];
    assert(0 <= s.pc < p.caller.len());
    let less = (fuel - 1) as nat;
    if s.pc == p.at {
        let args = s.top((p.argc + 1) as nat);
        let below = s.below((p.argc + 1) as nat);
        let rest = s2.locals.subrange(p.base + p.argc + 1, p.base + p.size);
        let from = p.entered(args, rest, s.host);
        let effect = (host.act)(model::bare(o), args, Seq::empty(), s.host);
        assert(s2.stack =~= below + args);
        assert(model::own_locals(o, s.locals) =~= Seq::empty());
        assert(p.does_call(inner, effect, args, rest, s.host));
        match effect {
            Effect::Done(results, values, h) => {
                let n = choose|n: nat| #[trigger] p.returns_after(inner, from, n, results, h);
                inlined_ops_do_the_call(p, host, inner, below, args, s2, n);
                let whole = (n + p.put().len() - p.len()) as nat;
                let t = model::state_after(host, ops, s2, whole)->0;
                assert(model::with_own(o, s.locals, values) =~= s.locals);
                let next = State { pc: s.pc + 1, locals: s.locals, stack: below + results, host: h };
                assert(model::turn(host, p.caller, s) == Turn::Next(next));
                assert forall|i: int| 0 <= i < s.locals.len() implies #[trigger] t.locals[i]
                    == s.locals[i] by {
                    assert(s2.locals[i] == s.locals[i]);
                }
                assert(mirrors(p, next, t));
                let after = lemma_ends_alike(p, host, inner, next, t, less);
                model::lemma_skips(host, ops, s2, whole, after);
                whole + after
            },
            Effect::Threw(h) => {
                let n = choose|n: nat| #[trigger] p.throws_after(inner, from, n, h);
                inlined_ops_do_the_call(p, host, inner, below, args, s2, n);
                n + p.argc + 2
            },
            Effect::Returned(v, h) => {
                assert(model::turn(host, p.caller, s) is Stuck);
                0
            },
        }
    } else {
        lemma_kept_op(p, s.pc);
        let o2 = ops[s2.pc];
        model::lemma_in_step(host, o, o2, s, s2);
        match model::turn(host, p.caller, s) {
            Turn::Next(n) => {
                let n2 = model::turn(host, ops, s2)->Next_0;
                assert(mirrors(p, n, n2));
                let after = lemma_ends_alike(p, host, inner, n, n2, less);
                after + 1
            },
            _ => 1,
        }
    }
}

/// Where a callee's body has taken the place of a call, a method ends as it did before, on every
/// host on which the call runs the callee, whatever its locals beyond the arguments hold, and the
/// callee has just its result among its operands when it returns.
pub proof fn inlining_keeps_the_method<H>(
    p: Inlining,
    host: Host<H>,
    inner: Host<H>,
    s: State<H>,
    locals: Seq<u64>,
    fuel: nat,
) -> (more: nat)
    requires
        p.is_valid(),
        p.lines_up(host, inner),
        p.calls(host, inner),
        s.pc == 0,
        s.locals.len() <= p.base,
        p.base + p.size <= locals.len(),
        model::extends(locals, s.locals),
        model::end_of(host, p.caller, s, fuel) is Some,
    ensures
        model::end_of(host, p.outcome(), State { locals, ..s }, more) == model::end_of(
            host,
            p.caller,
            s,
            fuel,
        ),
{
    lemma_ends_alike(p, host, inner, s, State { locals, ..s }, fuel)
}

} // verus!
