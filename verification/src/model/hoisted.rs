//! Moving slot reads out of a loop keeps what a method does.

use crate::hoist;
use crate::lower::op;
use crate::lower::op::JitOp;
use crate::model;
use crate::model::{Effect, Host, State, Turn};
use crate::typed;
use vstd::prelude::*;

verus! {

/// The reads `reads` of the loop `body ..= end`, moved into the locals from `scratch` on.
pub struct Hoist {
    pub ops: Seq<JitOp>,
    pub body: int,
    pub end: int,
    pub reads: Seq<(JitOp, JitOp)>,
    pub scratch: int,
}

/// The op reads the heap: the receiver of a slot read, or the slot.
pub open spec fn is_read(o: JitOp) -> bool {
    o is GetSlot || o is GetScriptGlobals
}

/// What the host reads; `None` if that throws.
pub open spec fn seen<H>(host: Host<H>, o: JitOp, args: Seq<u64>, h: H) -> Option<u64> {
    match (host.act)(o, args, Seq::empty(), h) {
        Effect::Done(results, _, _) => Some(results[0]),
        _ => None,
    }
}

/// Both states of the host read alike.
pub open spec fn same_reads<H>(host: Host<H>, h: H, h2: H) -> bool {
    forall|o: JitOp, args: Seq<u64>|
        is_read(o) ==> #[trigger] seen(host, o, args, h2) == seen(host, o, args, h)
}

/// Reads give one value and change nothing, and the ops that are taken to leave slots alone
/// leave them alone.
pub open spec fn slots_stay<H>(host: Host<H>) -> bool {
    &&& forall|o: JitOp, args: Seq<u64>, h: H|
        is_read(o) ==> (#[trigger] (host.act)(o, args, Seq::empty(), h) matches Effect::Done(
            results,
            _,
            h2,
        ) ==> results.len() == 1 && h2 == h)
    &&& forall|o: JitOp, args: Seq<u64>, values: Seq<u64>, h: H|
        hoist::keeps_slots(o) ==> (#[trigger] (host.act)(o, args, values, h) matches Effect::Done(
            _,
            _,
            h2,
        ) ==> same_reads(host, h, h2))
}

/// The receiver of a read.
pub open spec fn receiver<H>(host: Host<H>, o: JitOp, locals: Seq<u64>, h: H) -> Option<u64> {
    match o {
        JitOp::GetLocalValue(r) => if r < locals.len() {
            Some(locals[r as int])
        } else {
            None
        },
        _ => seen(host, o, Seq::empty(), h),
    }
}

/// What a slot read gives; `None` if it throws.
pub open spec fn read_value<H>(
    host: Host<H>,
    read: (JitOp, JitOp),
    locals: Seq<u64>,
    h: H,
) -> Option<u64> {
    match receiver(host, read.0, locals, h) {
        Some(v) => seen(host, read.1, seq![v], h),
        None => None,
    }
}

impl Hoist {
    /// The jump into the loop.
    pub open spec fn entry(self) -> int {
        self.body - 1
    }

    /// How many ops go in front of it.
    pub open spec fn added(self) -> int {
        3 * self.reads.len() as int
    }

    pub open spec fn inside(self, pc: int) -> bool {
        self.body <= pc <= self.end
    }

    /// A read that is replaced starts at `j`.
    pub open spec fn replaced(self, j: int) -> bool {
        hoist::replaced(self.ops, self.body, self.end, self.reads, j)
    }

    /// The receiver of the read is the same in every round.
    pub open spec fn steady(self, read: (JitOp, JitOp)) -> bool {
        &&& read.1 is GetSlot
        &&& read.0 is GetScriptGlobals || (read.0 matches JitOp::GetLocalValue(r)
            && !hoist::written_in(self.ops, self.body, self.end, r))
    }

    /// The loop can be entered by its jump alone and leaves slots alone, and the reads are steady and
    /// undisturbed.
    pub open spec fn is_valid(self) -> bool {
        &&& 0 <= self.end < self.ops.len()
        &&& hoist::loop_ends_at(self.ops, self.end)
        &&& hoist::boxed_branch(self.ops[self.end]) matches Some(t) && t == self.body
        &&& 0 < self.body <= self.end
        &&& forall|j: int|
            self.body <= j <= self.end ==> hoist::keeps_slots(#[trigger] self.ops[j])
        &&& forall|k: int| 0 <= k < self.reads.len() ==> self.steady(#[trigger] self.reads[k])
        &&& hoist::is_undisturbed(self.ops, self.body, self.end, self.reads)
        &&& hoist::targets_leave(self.ops, self.added())
        &&& 0 <= self.scratch
        &&& self.scratch + self.reads.len() <= u32::MAX
    }

    /// The method with the reads moved.
    pub open spec fn result(self) -> Seq<JitOp> {
        hoist::hoisted(self.ops, self.body, self.end, self.reads, self.scratch)
    }

    /// None of the reads throws.
    pub open spec fn can_read<H>(self, host: Host<H>, s: State<H>) -> bool {
        forall|k: int|
            0 <= k < self.reads.len() ==> read_value(
                host,
                #[trigger] self.reads[k],
                s.locals,
                s.host,
            ) is Some
    }

    /// In this state, if it is right before the loop, none of the reads throws.
    pub open spec fn ready<H>(self, host: Host<H>, s: Option<State<H>>) -> bool {
        match s {
            Some(t) => t.pc == self.entry() ==> self.can_read(host, t),
            None => true,
        }
    }

    /// Whenever the method comes to the loop, none of the reads throws.
    pub open spec fn reads_on_entry<H>(self, host: Host<H>, s: State<H>) -> bool {
        forall|n: nat| self.ready(host, #[trigger] model::state_after(host, self.ops, s, n))
    }

    /// The scratch locals hold what the reads give.
    pub open spec fn has_read<H>(self, host: Host<H>, s: State<H>, locals: Seq<u64>) -> bool {
        forall|k: int|
            0 <= k < self.reads.len() ==> read_value(
                host,
                #[trigger] self.reads[k],
                s.locals,
                s.host,
            ) == Some(locals[self.scratch + k])
    }

    /// Where the ops before the loop, and those of the loop and behind, have gone.
    pub open spec fn place(self, pc: int) -> int {
        if pc <= self.entry() {
            pc
        } else {
            pc + self.added()
        }
    }
}

/// The two runs are at the same place with the same values.
spec fn mirrors<H>(p: Hoist, host: Host<H>, s: State<H>, s2: State<H>) -> bool {
    &&& s2.pc == p.place(s.pc)
    &&& s2.stack == s.stack
    &&& s2.host == s.host
    &&& s.locals.len() <= p.scratch
    &&& p.scratch + p.reads.len() <= s2.locals.len()
    &&& model::extends(s2.locals, s.locals)
    &&& p.inside(s.pc) ==> p.has_read(host, s, s2.locals)
    &&& !p.replaced(s.pc - 1)
}

/// The two ops of a read leave what it gives.
proof fn lemma_read<H>(host: Host<H>, ops: Seq<JitOp>, read: (JitOp, JitOp), s: State<H>)
    requires
        slots_stay(host),
        0 <= s.pc < ops.len() - 1,
        ops[s.pc] == read.0,
        ops[s.pc + 1] == read.1,
        read.0 is GetLocalValue || read.0 is GetScriptGlobals,
        read.1 is GetSlot,
        read_value(host, read, s.locals, s.host) is Some,
    ensures
        model::state_after(host, ops, s, 2) == Some(
            State {
                pc: s.pc + 2,
                stack: s.stack.push(read_value(host, read, s.locals, s.host)->0),
                ..s
            },
        ),
{
    reveal_with_fuel(model::state_after, 3);
    let v = receiver(host, read.0, s.locals, s.host)->0;
    let w = read_value(host, read, s.locals, s.host)->0;
    let one = State { pc: s.pc + 1, stack: s.stack.push(v), ..s };
    let named = crate::inline::locals_of(read.0);
    match read.0 {
        JitOp::GetLocalValue(r) => {
            assert(model::turn(host, ops, s) == Turn::Next(one));
        },
        _ => {
            assert(named =~= Seq::empty());
            assert(s.top(0) =~= Seq::empty());
            assert(model::own_locals(read.0, s.locals) =~= Seq::empty());
            assert(model::bare(read.0) == read.0);
            let done = (host.act)(read.0, Seq::empty(), Seq::empty(), s.host);
            assert(done is Done);
            assert(model::with_own(read.0, s.locals, done->Done_1) =~= s.locals);
            assert(s.below(0) + done->Done_0 =~= s.stack.push(v));
            assert(model::turn(host, ops, s) == Turn::Next(one));
        },
    }
    let two = State { pc: s.pc + 2, stack: s.stack.push(w), ..s };
    assert(crate::inline::locals_of(read.1) =~= Seq::empty());
    assert(one.top(1) =~= seq![v]);
    assert(model::own_locals(read.1, s.locals) =~= Seq::empty());
    assert(model::bare(read.1) == read.1);
    let done = (host.act)(read.1, seq![v], Seq::empty(), s.host);
    assert(done is Done);
    assert(model::with_own(read.1, s.locals, done->Done_1) =~= s.locals);
    assert(one.below(1) + done->Done_0 =~= s.stack.push(w));
    assert(model::turn(host, ops, one) == Turn::Next(two));
}

/// In front of the loop the first `m` reads go into their locals.
proof fn lemma_preheader<H>(p: Hoist, host: Host<H>, s: State<H>, s2: State<H>, m: nat) -> (t: State<
    H,
>)
    requires
        p.is_valid(),
        slots_stay(host),
        mirrors(p, host, s, s2),
        s.pc == p.entry(),
        p.can_read(host, s),
        m <= p.reads.len(),
    ensures
        model::state_after(host, p.result(), s2, 3 * m) == Some(t),
        t.pc == p.entry() + 3 * m,
        t.stack == s.stack,
        t.host == s.host,
        t.locals.len() == s2.locals.len(),
        model::extends(t.locals, s.locals),
        forall|k: int|
            0 <= k < m ==> read_value(host, #[trigger] p.reads[k], s.locals, s.host) == Some(
                t.locals[p.scratch + k],
            ),
    decreases m,
{
    if m == 0 {
        s2
    } else {
        let n = (m - 1) as nat;
        let before = lemma_preheader(p, host, s, s2, n);
        let ops = p.result();
        let read = p.reads[n as int];
        let at = p.entry() + 3 * n;
        assert(p.steady(read));
        assert((3 * n) % 3 == 0 && (3 * n) / 3 == n) by (nonlinear_arith);
        assert((3 * n + 1) % 3 == 1 && (3 * n + 1) / 3 == n) by (nonlinear_arith);
        assert((3 * n + 2) % 3 == 2 && (3 * n + 2) / 3 == n) by (nonlinear_arith);
        assert(ops[at] == read.0);
        assert(ops[at + 1] == read.1);
        assert(ops[at + 2] == JitOp::SetLocalValue((p.scratch + n) as u32));
        let word = read_value(host, read, s.locals, s.host)->0;
        assert(receiver(host, read.0, before.locals, s.host) == receiver(
            host,
            read.0,
            s.locals,
            s.host,
        ));
        lemma_read(host, ops, read, before);
        let mid = State { pc: at + 2, stack: s.stack.push(word), ..before };
        let after = State {
            pc: at + 3,
            locals: before.locals.update(p.scratch + n, word),
            stack: s.stack,
            host: s.host,
        };
        let last = ops[at + 2];
        assert(crate::inline::locals_of(last) =~= seq![(p.scratch + n) as u32]);
        assert(mid.below(1) =~= s.stack);
        assert(model::turn(host, ops, mid) == Turn::Next(after));
        model::lemma_goes_on(host, ops, before, 2, 1);
        reveal_with_fuel(model::state_after, 2);
        assert(model::state_after(host, ops, mid, 1) == Some(after));
        model::lemma_goes_on(host, ops, s2, 3 * n, 3);
        assert(3 * n + 3 == 3 * m);
        after
    }
}

/// No op of the loop changes what a steady read gives.
proof fn lemma_steady<H>(p: Hoist, host: Host<H>, s: State<H>, n: State<H>, read: (JitOp, JitOp))
    requires
        p.is_valid(),
        slots_stay(host),
        p.inside(s.pc),
        p.steady(read),
        model::turn(host, p.ops, s) == Turn::Next(n),
    ensures
        read_value(host, read, n.locals, n.host) == read_value(host, read, s.locals, s.host),
{
    let o = p.ops[s.pc];
    assert(hoist::keeps_slots(o));
    let named = crate::inline::locals_of(o);
    assert(same_reads(host, s.host, n.host)) by {
        if n.host != s.host {
            let done = (host.act)(
                model::bare(o),
                s.top(typed::arity(o).0),
                model::own_locals(o, s.locals),
                s.host,
            );
            assert(hoist::keeps_slots(model::bare(o)));
            assert(done is Done);
        }
    }
    model::lemma_in_step(host, o, o, s, s);
    if let JitOp::GetLocalValue(r) = read.0 {
        assert(hoist::writes_local(o) != Some(r));
        if r < s.locals.len() {
            assert(n.locals[r as int] == s.locals[r as int]) by {
                match o {
                    JitOp::SetLocalValue(i) => {
                        assert(named[0] == i);
                    },
                    JitOp::StoreLocalValue(i) => {
                        assert(named[0] == i);
                    },
                    JitOp::IncDecLocalIValue(i, up) => {
                        assert(named[0] == i);
                    },
                    JitOp::GetLocalValue(i) => {},
                    _ => {
                        assert(named.len() == 0);
                    },
                }
            }
        }
    }
    assert(receiver(host, read.0, n.locals, n.host) == receiver(host, read.0, s.locals, s.host)) by {
        if !(read.0 is GetLocalValue) {
            assert(seen(host, read.0, Seq::empty(), n.host) == seen(
                host,
                read.0,
                Seq::empty(),
                s.host,
            ));
        }
    }
    if let Some(v) = receiver(host, read.0, s.locals, s.host) {
        assert(seen(host, read.1, seq![v], n.host) == seen(host, read.1, seq![v], s.host));
    }
}

/// The op that stands for op `pc`, where no read is replaced.
proof fn lemma_kept_op(p: Hoist, pc: int)
    requires
        p.is_valid(),
        0 <= pc < p.ops.len(),
        pc != p.entry(),
        !p.replaced(pc),
        !p.replaced(pc - 1),
    ensures
        p.place(pc) < p.result().len(),
        p.result()[p.place(pc)] == hoist::moved(p.ops[pc], p.entry(), p.added()),
        ({
            let o = p.ops[pc];
            let o2 = p.result()[p.place(pc)];
            &&& o2 == o || (op::branch_target(o) is Some && exists|t: usize|
                o2 == op::with_target(o, t))
            &&& op::branch_target(o) matches Some(t) ==> op::branch_target(o2) == Some(
                p.place(t as int) as usize,
            ) && p.place(t as int) <= usize::MAX
        }),
{
    let o = p.ops[pc];
    if let Some(t) = op::branch_target(o) {
        assert(!hoist::disturbs(p.ops, p.body, p.end, p.reads, t as int));
        let to = (t + p.added()) as usize;
        if t >= p.entry() {
            assert(hoist::moved(o, p.entry(), p.added()) == op::with_target(o, to));
        }
    }
}

/// What holds of every state to come holds of those to come later.
proof fn lemma_later<H>(p: Hoist, host: Host<H>, s: State<H>, n: State<H>, k: nat)
    requires
        model::state_after(host, p.ops, s, k) == Some(n),
        p.reads_on_entry(host, s),
    ensures
        p.reads_on_entry(host, n),
{
    assert forall|m: nat|
        p.ready(host, #[trigger] model::state_after(host, p.ops, n, m)) by {
        model::lemma_goes_on(host, p.ops, s, k, m);
        assert(p.ready(host, model::state_after(host, p.ops, s, k + m)));
    }
}

/// Behind an op that was kept, the runs are still at the same place.
proof fn lemma_next_place<H>(
    p: Hoist,
    host: Host<H>,
    s: State<H>,
    n: State<H>,
    s2: State<H>,
    n2: State<H>,
)
    requires
        p.is_valid(),
        slots_stay(host),
        mirrors(p, host, s, s2),
        0 <= s.pc < p.ops.len(),
        s.pc != p.entry(),
        !p.replaced(s.pc),
        model::turn(host, p.ops, s) == Turn::Next(n),
        model::turn(host, p.result(), s2) == Turn::Next(n2),
        model::in_step(p.ops[s.pc], p.result()[s2.pc], s, Turn::Next(n), s2, Turn::Next(n2)),
    ensures
        mirrors(p, host, n, n2),
{
    let o = p.ops[s.pc];
    lemma_kept_op(p, s.pc);
    if n.pc == s.pc + 1 && n2.pc == s2.pc + 1 && !(o is Jump) {
        assert(n2.pc == p.place(n.pc));
        assert(!p.replaced(n.pc - 1));
        if p.inside(n.pc) {
            assert(p.inside(s.pc));
        }
    } else {
        let t = op::branch_target(o)->0;
        assert(n2.pc == p.place(n.pc));
        assert(!hoist::disturbs(p.ops, p.body, p.end, p.reads, t as int));
        if p.inside(n.pc) && !p.inside(s.pc) {
            assert(hoist::branches_into(p.ops, s.pc, p.body, p.end));
        }
    }
    if p.inside(n.pc) {
        assert(p.inside(s.pc));
        assert forall|k: int| 0 <= k < p.reads.len() implies read_value(
            host,
            #[trigger] p.reads[k],
            n.locals,
            n.host,
        ) == Some(n2.locals[p.scratch + k]) by {
            assert(p.steady(p.reads[k]));
            lemma_steady(p, host, s, n, p.reads[k]);
        }
    }
}

/// From any place on, the two runs end alike.
proof fn lemma_ends_alike<H>(p: Hoist, host: Host<H>, s: State<H>, s2: State<H>, fuel: nat) -> (more:
    nat)
    requires
        p.is_valid(),
        slots_stay(host),
        mirrors(p, host, s, s2),
        model::end_of(host, p.ops, s, fuel) is Some,
        p.reads_on_entry(host, s),
    ensures
        model::end_of(host, p.result(), s2, more) == model::end_of(host, p.ops, s, fuel),
    decreases fuel,
{
    let ops = p.ops;
    let new = p.result();
    let o = ops[s.pc];
    reveal_with_fuel(model::state_after, 2);
    assert(0 <= s.pc < ops.len());
    if s.pc == p.entry() {
        assert(p.ready(host, model::state_after(host, ops, s, 0)));
        let t = lemma_preheader(p, host, s, s2, p.reads.len());
        assert(o is Jump);
        let cond = o->Jump_0;
        let at = p.entry() + p.added();
        assert(new[at] == hoist::moved(o, p.entry(), p.added()));
        let n = State { pc: cond as int, ..s };
        let n2 = State { pc: cond + p.added(), ..t };
        assert(model::turn(host, ops, s) == Turn::Next(n));
        assert(model::turn(host, new, t) == Turn::Next(n2));
        assert(mirrors(p, host, n, n2));
        lemma_later(p, host, s, n, 1);
        let rest = lemma_ends_alike(p, host, n, n2, (fuel - 1) as nat);
        model::lemma_skips(host, new, s2, p.added() as nat, rest + 1);
        assert(model::end_of(host, new, t, rest + 1) == model::end_of(host, new, n2, rest));
        p.added() as nat + (rest + 1)
    } else if p.replaced(s.pc) {
        let read = hoist::read_at(ops, s.pc)->0;
        let k = p.reads.index_of(read);
        assert(p.reads[k] == read);
        assert(p.has_read(host, s, s2.locals));
        lemma_read(host, ops, read, s);
        let word = read_value(host, read, s.locals, s.host)->0;
        let n = State { pc: s.pc + 2, stack: s.stack.push(word), ..s };
        assert(p.replaced(s.pc));
        assert(new[s2.pc] == JitOp::GetLocalValue((p.scratch + k) as u32));
        assert(new[s2.pc + 1] == JitOp::Nop);
        let mid = State { pc: s2.pc + 1, stack: s.stack.push(word), ..s2 };
        let n2 = State { pc: s2.pc + 2, stack: s.stack.push(word), ..s2 };
        assert(crate::inline::locals_of(new[s2.pc]) =~= seq![(p.scratch + k) as u32]);
        assert(model::turn(host, new, s2) == Turn::Next(mid));
        assert(model::turn(host, new, mid) == Turn::Next(n2));
        reveal_with_fuel(model::end_of, 3);
        if fuel < 2 {
            reveal_with_fuel(model::state_after, 3);
            assert(model::end_of(host, ops, s, fuel) is None);
        }
        model::lemma_skips(host, ops, s, 2, (fuel - 2) as nat);
        assert(!p.replaced(n.pc - 1)) by {
            assert(ops[n.pc - 1] is GetSlot);
        }
        assert(mirrors(p, host, n, n2));
        lemma_later(p, host, s, n, 2);
        let rest = lemma_ends_alike(p, host, n, n2, (fuel - 2) as nat);
        assert(model::end_of(host, new, s2, rest + 2) == model::end_of(host, new, n2, rest));
        rest + 2
    } else {
        lemma_kept_op(p, s.pc);
        let o2 = new[s2.pc];
        model::lemma_in_step(host, o, o2, s, s2);
        match model::turn(host, ops, s) {
            Turn::Next(n) => {
                let n2 = model::turn(host, new, s2)->Next_0;
                lemma_next_place(p, host, s, n, s2, n2);
                lemma_later(p, host, s, n, 1);
                let rest = lemma_ends_alike(p, host, n, n2, (fuel - 1) as nat);
                rest + 1
            },
            _ => 1,
        }
    }
}

proof fn lemma_hoisting<H>(
    p: Hoist,
    host: Host<H>,
    s: State<H>,
    locals: Seq<u64>,
    fuel: nat,
) -> (more: nat)
    requires
        p.is_valid(),
        slots_stay(host),
        s.pc == 0,
        s.locals.len() <= p.scratch,
        p.scratch + p.reads.len() <= locals.len(),
        model::extends(locals, s.locals),
        p.reads_on_entry(host, s),
        model::end_of(host, p.ops, s, fuel) is Some,
    ensures
        model::end_of(host, p.result(), State { locals, ..s }, more) == model::end_of(
            host,
            p.ops,
            s,
            fuel,
        ),
{
    lemma_ends_alike(p, host, s, State { locals, ..s }, fuel)
}

/// Every read that the pass picks in a loop is steady.
proof fn lemma_picked_reads(p: Hoist, null_safe: Seq<u32>, j: int, k: int)
    requires
        j <= p.end,
        0 <= k < hoist::reads_before(p.ops, p.body, p.end, null_safe, j).len(),
    ensures
        p.steady(hoist::reads_before(p.ops, p.body, p.end, null_safe, j)[k]),
    decreases j - p.body,
{
    if j > p.body {
        let rest = hoist::reads_before(p.ops, p.body, p.end, null_safe, j - 1);
        if k < rest.len() {
            lemma_picked_reads(p, null_safe, j - 1, k);
        }
    }
}

/// What the pass moves at the first loop from `from` on, if there is one.
pub open spec fn next_hoist(
    ops: Seq<JitOp>,
    null_safe: Seq<u32>,
    first: int,
    max: int,
    used: nat,
    from: int,
) -> Option<Hoist> {
    if used >= hoist::MAX_HOISTS_PER_METHOD || first + used >= max || from < 0 {
        None
    } else {
        match hoist::first_loop(ops, from) {
            None => None,
            Some(i) => if i < from || i >= ops.len() {
                None
            } else {
                let body = hoist::boxed_branch(ops[i])->0 as int;
                let budget = hoist::min(
                    hoist::MAX_HOISTS_PER_METHOD - used,
                    max - first - used,
                );
                let reads = hoist::picked(ops, body, i, null_safe, budget);
                Some(Hoist { ops, body, end: i, reads, scratch: first + used })
            },
        }
    }
}

/// The pass goes from loop to loop.
proof fn lemma_pass_step(
    ops: Seq<JitOp>,
    null_safe: Seq<u32>,
    first: int,
    max: int,
    used: nat,
    from: int,
)
    ensures
        match next_hoist(ops, null_safe, first, max, used, from) {
            None => hoist::hoist_from(ops, null_safe, first, max, used, from) == (ops, used),
            Some(p) => {
                &&& from <= p.end < ops.len()
                &&& p.ops == ops
                &&& p.scratch == first + used
                &&& hoist::hoist_from(ops, null_safe, first, max, used, from) == if p.reads.len()
                    == 0 {
                    hoist::hoist_from(ops, null_safe, first, max, used, p.end + 1)
                } else {
                    hoist::hoist_from(
                        p.result(),
                        hoist::shifted(null_safe, p.entry(), p.added()),
                        first,
                        max,
                        used + p.reads.len(),
                        p.end + 1 + p.added(),
                    )
                }
            },
        },
{
}

proof fn lemma_first_loop(ops: Seq<JitOp>, from: int)
    requires
        0 <= from,
    ensures
        hoist::first_loop(ops, from) matches Some(i) ==> from <= i < ops.len() && hoist::loop_ends_at(
            ops,
            i,
        ),
    decreases ops.len() - from,
{
    if from < ops.len() && !hoist::loop_ends_at(ops, from) {
        lemma_first_loop(ops, from + 1);
    }
}

/// What the pass moves is as it should be.
proof fn lemma_next_is_valid(
    ops: Seq<JitOp>,
    null_safe: Seq<u32>,
    first: int,
    max: int,
    used: nat,
    from: int,
)
    requires
        0 <= first,
        first + hoist::MAX_HOISTS_PER_METHOD <= u32::MAX,
        next_hoist(ops, null_safe, first, max, used, from) matches Some(p) && p.reads.len() > 0,
        hoist::targets_leave(ops, 3 * (hoist::MAX_HOISTS_PER_METHOD - used)),
    ensures
        (next_hoist(ops, null_safe, first, max, used, from)->0).is_valid(),
        used + (next_hoist(ops, null_safe, first, max, used, from)->0).reads.len()
            <= hoist::MAX_HOISTS_PER_METHOD,
{
    let p = next_hoist(ops, null_safe, first, max, used, from)->0;
    lemma_first_loop(ops, from);
    let all = hoist::reads_before(ops, p.body, p.end, null_safe, p.end);
    assert forall|k: int| 0 <= k < p.reads.len() implies p.steady(#[trigger] p.reads[k]) by {
        lemma_picked_reads(p, null_safe, p.end, k);
        assert(p.reads[k] == all[k]);
    }
}

/// Where reads have been moved out of a loop, a method ends as it did before, on every host on
/// which the ops of the loop leave slots alone and none of the reads throws when the method comes
/// to the loop.
pub proof fn hoisting_keeps_the_method<H>(
    ops: Seq<JitOp>,
    null_safe: Seq<u32>,
    first: int,
    max: int,
    used: nat,
    from: int,
    host: Host<H>,
    s: State<H>,
    locals: Seq<u64>,
    fuel: nat,
) -> (more: nat)
    requires
        next_hoist(ops, null_safe, first, max, used, from) matches Some(p) && p.reads.len() > 0,
        0 <= first,
        first + hoist::MAX_HOISTS_PER_METHOD <= u32::MAX,
        hoist::targets_leave(ops, 3 * (hoist::MAX_HOISTS_PER_METHOD - used)),
        slots_stay(host),
        s.pc == 0,
        s.locals.len() <= first + used,
        first + used + (next_hoist(ops, null_safe, first, max, used, from)->0).reads.len()
            <= locals.len(),
        model::extends(locals, s.locals),
        (next_hoist(ops, null_safe, first, max, used, from)->0).reads_on_entry(host, s),
        model::end_of(host, ops, s, fuel) is Some,
    ensures
        model::end_of(
            host,
            (next_hoist(ops, null_safe, first, max, used, from)->0).result(),
            State { locals, ..s },
            more,
        ) == model::end_of(host, ops, s, fuel),
{
    lemma_next_is_valid(ops, null_safe, first, max, used, from);
    lemma_hoisting(next_hoist(ops, null_safe, first, max, used, from)->0, host, s, locals, fuel)
}

/// At every loop from which the pass moves reads, none of them throws when the method, as the pass
/// has left it so far, comes to the loop.
pub open spec fn can_hoist<H>(
    host: Host<H>,
    s: State<H>,
    frame: Seq<u64>,
    ops: Seq<JitOp>,
    null_safe: Seq<u32>,
    first: int,
    max: int,
    used: nat,
    from: int,
) -> bool
    decreases ops.len() - from,
{
    match next_hoist(ops, null_safe, first, max, used, from) {
        None => true,
        Some(p) => if p.end < from || p.end >= ops.len() || p.ops != ops {
            true
        } else if p.reads.len() == 0 {
            can_hoist(host, s, frame, ops, null_safe, first, max, used, p.end + 1)
        } else {
            &&& p.reads_on_entry(host, s)
            &&& can_hoist(
                host,
                State { locals: frame.take(first + used + p.reads.len()), ..s },
                frame,
                p.result(),
                hoist::shifted(null_safe, p.entry(), p.added()),
                first,
                max,
                used + p.reads.len(),
                p.end + 1 + p.added(),
            )
        },
    }
}

proof fn lemma_uses_more(
    ops: Seq<JitOp>,
    null_safe: Seq<u32>,
    first: int,
    max: int,
    used: nat,
    from: int,
)
    ensures
        hoist::hoist_from(ops, null_safe, first, max, used, from).1 >= used,
    decreases ops.len() - from,
{
    lemma_pass_step(ops, null_safe, first, max, used, from);
    if let Some(p) = next_hoist(ops, null_safe, first, max, used, from) {
        if p.reads.len() == 0 {
            lemma_uses_more(ops, null_safe, first, max, used, p.end + 1);
        } else {
            lemma_uses_more(
                p.result(),
                hoist::shifted(null_safe, p.entry(), p.added()),
                first,
                max,
                used + p.reads.len(),
                p.end + 1 + p.added(),
            );
        }
    }
}

/// The whole pass keeps what a method does. `frame` is the frame of the method that it leaves: the
/// locals at the start, then those that the pass uses.
pub proof fn hoist_pass_keeps_the_method<H>(
    host: Host<H>,
    s: State<H>,
    frame: Seq<u64>,
    ops: Seq<JitOp>,
    null_safe: Seq<u32>,
    first: int,
    max: int,
    used: nat,
    from: int,
    fuel: nat,
) -> (more: nat)
    requires
        slots_stay(host),
        s.pc == 0,
        0 <= first,
        first + hoist::MAX_HOISTS_PER_METHOD <= u32::MAX,
        s.locals.len() <= first + used,
        model::extends(frame, s.locals),
        first + hoist::hoist_from(ops, null_safe, first, max, used, from).1 <= frame.len(),
        hoist::targets_leave(ops, 3 * (hoist::MAX_HOISTS_PER_METHOD - used)),
        can_hoist(host, s, frame, ops, null_safe, first, max, used, from),
        model::end_of(host, ops, s, fuel) is Some,
    ensures
        model::end_of(
            host,
            hoist::hoist_from(ops, null_safe, first, max, used, from).0,
            State { locals: frame, ..s },
            more,
        ) == model::end_of(host, ops, s, fuel),
    decreases ops.len() - from,
{
    lemma_pass_step(ops, null_safe, first, max, used, from);
    match next_hoist(ops, null_safe, first, max, used, from) {
        None => {
            model::lemma_more_locals(host, ops, s, State { locals: frame, ..s }, fuel);
            fuel
        },
        Some(p) => if p.reads.len() == 0 {
            hoist_pass_keeps_the_method(
                host,
                s,
                frame,
                ops,
                null_safe,
                first,
                max,
                used,
                p.end + 1,
                fuel,
            )
        } else {
            lemma_next_is_valid(ops, null_safe, first, max, used, from);
            let safe = hoist::shifted(null_safe, p.entry(), p.added());
            let next = p.end + 1 + p.added();
            lemma_uses_more(p.result(), safe, first, max, used + p.reads.len(), next);
            let locals = frame.take(first + used + p.reads.len());
            let after = lemma_hoisting(p, host, s, locals, fuel);
            assert forall|k: int| 0 <= k < p.reads.len() implies op::branch_target(
                (#[trigger] p.reads[k]).0,
            ) is None && op::branch_target(p.reads[k].1) is None by {
                assert(p.steady(p.reads[k]));
            }
            hoist::lemma_hoisted_targets(
                ops,
                p.body,
                p.end,
                p.reads,
                p.scratch,
                3 * (hoist::MAX_HOISTS_PER_METHOD - used - p.reads.len()),
            );
            hoist_pass_keeps_the_method(
                host,
                State { locals, ..s },
                frame,
                p.result(),
                safe,
                first,
                max,
                used + p.reads.len(),
                next,
                after,
            )
        },
    }
}

} // verus!
