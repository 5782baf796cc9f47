//! Basic blocks.

use crate::lower::op;
use crate::lower::op::{ExcRange, JitOp, SwitchTable};
use vstd::prelude::*;

verus! {

/// `i` is the default or a case of `sw`.
pub open spec fn is_case(sw: SwitchTable, i: usize) -> bool {
    sw.default == i || sw.cases@.contains(i)
}

/// Op `j` may jump to `i`.
pub open spec fn jumps_to(ops: Seq<JitOp>, switches: Seq<SwitchTable>, j: int, i: usize) -> bool {
    op::branch_target(ops[j]) == Some(i) || (ops[j] matches JitOp::LookupSwitch(idx) && idx
        < switches.len() && is_case(switches[idx as int], i))
}

/// Some handler continues at `i`.
pub open spec fn is_catch(exceptions: Seq<ExcRange>, i: usize) -> bool {
    exists|e: int| 0 <= e < exceptions.len() && (#[trigger] exceptions[e]).target == i
}

/// A basic block starts at `i`: at the first op, at every jump target and handler, and
/// behind every op that ends a block.
pub open spec fn is_leader(
    ops: Seq<JitOp>,
    switches: Seq<SwitchTable>,
    exceptions: Seq<ExcRange>,
    i: usize,
) -> bool {
    ||| i == 0
    ||| exists|j: int| 0 <= j < ops.len() && #[trigger] jumps_to(ops, switches, j, i)
    ||| 0 < i < ops.len() && op::ends_block(ops[i - 1])
    ||| is_catch(exceptions, i)
}

/// Every jump target lies inside `n` ops, and op `j` finds its switch table.
pub open spec fn target_ok(op: JitOp, switches: Seq<SwitchTable>, n: nat) -> bool {
    &&& op::branch_target(op) matches Some(t) ==> t < n
    &&& op matches JitOp::LookupSwitch(idx) ==> idx < switches.len() && switches[idx as int].default
        < n && forall|k: int|
        0 <= k < switches[idx as int].cases@.len() ==> #[trigger] switches[idx as int].cases@[k] < n
}

/// Every jump target and every handler is an op.
pub open spec fn targets_ok(
    ops: Seq<JitOp>,
    switches: Seq<SwitchTable>,
    exceptions: Seq<ExcRange>,
) -> bool {
    &&& forall|j: int| 0 <= j < ops.len() ==> target_ok(#[trigger] ops[j], switches, ops.len())
    &&& forall|e: int|
        0 <= e < exceptions.len() ==> (#[trigger] exceptions[e]).target < ops.len()
}

/// The leaders below `n`, in order.
pub open spec fn leaders_below(
    ops: Seq<JitOp>,
    switches: Seq<SwitchTable>,
    exceptions: Seq<ExcRange>,
    n: nat,
) -> Seq<usize>
    decreases n,
{
    if n == 0 {
        Seq::empty()
    } else {
        let rest = leaders_below(ops, switches, exceptions, (n - 1) as nat);
        if is_leader(ops, switches, exceptions, (n - 1) as usize) {
            rest.push((n - 1) as usize)
        } else {
            rest
        }
    }
}

/// The number of places where a block may start: the ops, or one if there are none.
pub open spec fn places(ops: Seq<JitOp>) -> nat {
    if ops.len() == 0 {
        1
    } else {
        ops.len()
    }
}

/// All leaders, in order.
pub open spec fn leaders_of(
    ops: Seq<JitOp>,
    switches: Seq<SwitchTable>,
    exceptions: Seq<ExcRange>,
) -> Seq<usize> {
    leaders_below(ops, switches, exceptions, places(ops))
}

/// Strictly increasing.
pub open spec fn increasing(s: Seq<usize>) -> bool {
    forall|a: int, b: int| 0 <= a < b < s.len() ==> s[a] < s[b]
}

proof fn lemma_leaders_below(
    ops: Seq<JitOp>,
    switches: Seq<SwitchTable>,
    exceptions: Seq<ExcRange>,
    n: nat,
)
    requires
        n <= usize::MAX,
    ensures
        increasing(leaders_below(ops, switches, exceptions, n)),
        forall|k: int|
            0 <= k < leaders_below(ops, switches, exceptions, n).len() ==> {
                let l = #[trigger] leaders_below(ops, switches, exceptions, n)[k];
                l < n && is_leader(ops, switches, exceptions, l)
            },
        forall|i: usize|
            i < n && is_leader(ops, switches, exceptions, i) ==> #[trigger] leaders_below(
                ops,
                switches,
                exceptions,
                n,
            ).contains(i),
        leaders_below(ops, switches, exceptions, n).len() <= n,
        n > 0 ==> leaders_below(ops, switches, exceptions, n).len() > 0 && leaders_below(
            ops,
            switches,
            exceptions,
            n,
        )[0] == 0,
    decreases n,
{
    if n > 0 {
        let m = (n - 1) as nat;
        lemma_leaders_below(ops, switches, exceptions, m);
        let rest = leaders_below(ops, switches, exceptions, m);
        let all = leaders_below(ops, switches, exceptions, n);
        assert forall|i: usize| i < n && is_leader(ops, switches, exceptions, i) implies #[trigger] all.contains(
            i,
        ) by {
            if i < m {
                assert(rest.contains(i));
                let k = choose|k: int| 0 <= k < rest.len() && rest[k] == i;
                assert(all[k] == i);
            } else {
                assert(all[all.len() - 1] == i);
            }
        }
    }
}

/// The leaders are strictly increasing op indices that start with `0`, and they are exactly
/// the places where a basic block starts.
pub proof fn leaders_are_the_block_starts(
    ops: Seq<JitOp>,
    switches: Seq<SwitchTable>,
    exceptions: Seq<ExcRange>,
)
    requires
        ops.len() <= usize::MAX,
    ensures
        increasing(leaders_of(ops, switches, exceptions)),
        leaders_of(ops, switches, exceptions).len() > 0,
        leaders_of(ops, switches, exceptions)[0] == 0,
        leaders_of(ops, switches, exceptions).len() <= places(ops),
        forall|k: int|
            0 <= k < leaders_of(ops, switches, exceptions).len() ==> #[trigger] leaders_of(
                ops,
                switches,
                exceptions,
            )[k] < places(ops),
        forall|i: usize|
            i < places(ops) ==> (is_leader(ops, switches, exceptions, i) <==> #[trigger] leaders_of(
                ops,
                switches,
                exceptions,
            ).contains(i)),
{
    lemma_leaders_below(ops, switches, exceptions, places(ops));
}

/// The block that starts at op `i`.
pub open spec fn block_of(leaders: Seq<usize>, i: usize) -> Option<int> {
    if leaders.contains(i) {
        Some(leaders.index_of(i))
    } else {
        None
    }
}

/// The number of the block that starts at op `i`, if one does.
pub fn find_block(leaders: &[usize], i: usize) -> (r: Option<usize>)
    requires
        increasing(leaders@),
    ensures
        match block_of(leaders@, i) {
            Some(b) => r == Some(b as usize) && 0 <= b < leaders@.len() && leaders@[b] == i,
            None => r is None,
        },
{
    let mut b: usize = 0;
    while b < leaders.len()
        invariant
            b <= leaders@.len(),
            increasing(leaders@),
            forall|k: int| 0 <= k < b ==> leaders@[k] != i,
        decreases leaders@.len() - b,
    {
        if leaders[b] == i {
            assert(leaders@.contains(i));
            let ghost k = leaders@.index_of(i);
            assert(leaders@[k] == i);
            assert(k == b);
            return Some(b);
        }
        b = b + 1;
    }
    assert(!leaders@.contains(i));
    None
}

/// One past the last op of block `b`.
pub open spec fn block_end(leaders: Seq<usize>, n: nat, b: int) -> int {
    if b < leaders.len() - 1 {
        leaders[b + 1] as int
    } else {
        n as int
    }
}

/// One past the last op of block `b`, among `n` ops.
pub fn end_of_block(leaders: &[usize], n: usize, b: usize) -> (r: usize)
    requires
        b < leaders@.len(),
    ensures
        r == block_end(leaders@, n as nat, b as int),
{
    if b < leaders.len() - 1 {
        leaders[b + 1]
    } else {
        n
    }
}

/// Marks `i`.
fn mark(marks: &mut Vec<bool>, i: usize)
    requires
        i < old(marks)@.len(),
    ensures
        final(marks)@ == old(marks)@.update(i as int, true),
{
    marks.set(i, true);
}

/// The marks hold exactly the leaders that the first `n` ops give rise to.
spec fn marked(ops: Seq<JitOp>, switches: Seq<SwitchTable>, n: int, marks: Seq<bool>) -> bool {
    forall|i: int|
        0 <= i < marks.len() ==> (#[trigger] marks[i] <==> (i == 0 || (exists|j: int|
            0 <= j < n && #[trigger] jumps_to(ops, switches, j, i as usize)) || (0 < i <= n
            && op::ends_block(ops[i - 1]))))
}

/// Marks the targets of a switch. `false` if one of them is no op.
fn mark_cases(marks: &mut Vec<bool>, sw: &SwitchTable, n: usize) -> (r: bool)
    requires
        n <= old(marks)@.len(),
    ensures
        final(marks)@.len() == old(marks)@.len(),
        r == (sw.default < n && forall|k: int|
            0 <= k < sw.cases@.len() ==> #[trigger] sw.cases@[k] < n),
        r ==> forall|i: int|
            0 <= i < final(marks)@.len() ==> (#[trigger] final(marks)@[i] <==> (old(marks)@[i]
                || is_case(*sw, i as usize))),
{
    if sw.default >= n {
        return false;
    }
    mark(marks, sw.default);
    let mut k: usize = 0;
    while k < sw.cases.len()
        invariant
            k <= sw.cases@.len(),
            n <= marks@.len(),
            marks@.len() == old(marks)@.len(),
            sw.default < n,
            forall|j: int| 0 <= j < k ==> #[trigger] sw.cases@[j] < n,
            forall|i: int|
                0 <= i < marks@.len() ==> (#[trigger] marks@[i] <==> (old(marks)@[i] || sw.default
                    == i || exists|j: int| 0 <= j < k && #[trigger] sw.cases@[j] == i)),
        decreases sw.cases@.len() - k,
    {
        if sw.cases[k] >= n {
            return false;
        }
        mark(marks, sw.cases[k]);
        k = k + 1;
    }
    let size: usize = marks.len();
    proof {
        assert forall|i: int| 0 <= i < size implies (#[trigger] marks@[i] <==> (old(
            marks,
        )@[i] || is_case(*sw, i as usize))) by {
            if sw.cases@.contains(i as usize) {
                let j = choose|j: int| 0 <= j < sw.cases@.len() && sw.cases@[j] == i as usize;
                assert(sw.cases@[j] == i);
            }
        }
    }
    true
}

/// Marks the leaders of `ops`; `None` if a jump leaves the method or a switch table is
/// missing.
fn mark_leaders(ops: &[JitOp], switches: &[SwitchTable]) -> (r: Option<Vec<bool>>)
    ensures
        r is Some <==> targets_ok(ops@, switches@, Seq::empty()),
        r matches Some(m) ==> m@.len() == places(ops@) && forall|i: int|
            0 <= i < m@.len() ==> (#[trigger] m@[i] <==> is_leader(
                ops@,
                switches@,
                Seq::empty(),
                i as usize,
            )),
{
    let n: usize = ops.len();
    let mut marks: Vec<bool> = Vec::new();
    let size: usize = if n == 0 {
        1
    } else {
        n
    };
    while marks.len() < size
        invariant
            marks@.len() <= size,
            forall|i: int| 0 <= i < marks@.len() ==> (#[trigger] marks@[i] <==> i == 0),
        decreases size - marks@.len(),
    {
        let first = marks.len() == 0;
        marks.push(first);
    }
    let mut j: usize = 0;
    while j < n
        invariant
            n == ops@.len(),
            j <= n,
            marks@.len() == places(ops@),
            marked(ops@, switches@, j as int, marks@),
            forall|k: int| 0 <= k < j ==> target_ok(#[trigger] ops@[k], switches@, n as nat),
        decreases n - j,
    {
        let ghost before = marks@;
        let op = ops[j];
        if let Some(t) = op.target() {
            if t >= n {
                assert(!target_ok(ops@[j as int], switches@, n as nat));
                return None;
            }
            mark(&mut marks, t);
        }
        if let JitOp::LookupSwitch(idx) = op {
            if idx as usize >= switches.len() {
                assert(!target_ok(ops@[j as int], switches@, n as nat));
                return None;
            }
            if !mark_cases(&mut marks, &switches[idx as usize], n) {
                assert(!target_ok(ops@[j as int], switches@, n as nat));
                return None;
            }
        }
        assert(target_ok(ops@[j as int], switches@, n as nat));
        assert(forall|i: int|
            0 <= i < marks@.len() ==> (#[trigger] marks@[i] <==> (before[i] || jumps_to(
                ops@,
                switches@,
                j as int,
                i as usize,
            ))));
        let ghost middle = marks@;
        if op.is_terminator() && j + 1 < n {
            mark(&mut marks, j + 1);
        }
        proof {
            assert forall|i: int| 0 <= i < marks@.len() implies (#[trigger] marks@[i] <==> (i == 0
                || (exists|k: int|
                0 <= k < j + 1 && #[trigger] jumps_to(ops@, switches@, k, i as usize)) || (0 < i
                <= j + 1 && op::ends_block(ops@[i - 1])))) by {
                assert(marks@[i] <==> (middle[i] || (i == j + 1 && op::ends_block(
                    ops@[j as int],
                ))));
                assert(middle[i] <==> (before[i] || jumps_to(
                    ops@,
                    switches@,
                    j as int,
                    i as usize,
                )));
            }
        }
        j = j + 1;
    }
    proof {
        assert forall|i: int| 0 <= i < marks@.len() implies (#[trigger] marks@[i] <==> is_leader(
            ops@,
            switches@,
            Seq::empty(),
            i as usize,
        )) by {}
    }
    Some(marks)
}

/// The marked places, in order.
fn collect_marks(
    marks: &Vec<bool>,
    Ghost(ops): Ghost<Seq<JitOp>>,
    Ghost(switches): Ghost<Seq<SwitchTable>>,
    Ghost(exceptions): Ghost<Seq<ExcRange>>,
) -> (r: Vec<usize>)
    requires
        marks@.len() == places(ops),
        forall|i: int|
            0 <= i < marks@.len() ==> (#[trigger] marks@[i] <==> is_leader(
                ops,
                switches,
                exceptions,
                i as usize,
            )),
    ensures
        r@ == leaders_of(ops, switches, exceptions),
{
    let mut out: Vec<usize> = Vec::new();
    let mut i: usize = 0;
    while i < marks.len()
        invariant
            i <= marks@.len(),
            out@ == leaders_below(ops, switches, exceptions, i as nat),
            forall|k: int|
                0 <= k < marks@.len() ==> (#[trigger] marks@[k] <==> is_leader(
                    ops,
                    switches,
                    exceptions,
                    k as usize,
                )),
        decreases marks@.len() - i,
    {
        if marks[i] {
            out.push(i);
        }
        i = i + 1;
    }
    out
}

/// The leaders of `ops`; `None` if a jump leaves the method.
pub fn basic_block_leaders(ops: &[JitOp]) -> (r: Option<Vec<usize>>)
    ensures
        r is Some <==> targets_ok(ops@, Seq::empty(), Seq::empty()),
        r matches Some(l) ==> l@ == leaders_of(ops@, Seq::empty(), Seq::empty()),
{
    let none: [SwitchTable; 0] = [];
    assert(none@ =~= Seq::<SwitchTable>::empty());
    basic_block_leaders_sw(ops, &none)
}

/// The leaders of `ops`, whose switches take their targets from `switches`; `None` if a jump
/// leaves the method or a switch table is missing.
pub fn basic_block_leaders_sw(ops: &[JitOp], switches: &[SwitchTable]) -> (r: Option<Vec<usize>>)
    ensures
        r is Some <==> targets_ok(ops@, switches@, Seq::empty()),
        r matches Some(l) ==> l@ == leaders_of(ops@, switches@, Seq::empty()),
{
    match mark_leaders(ops, switches) {
        Some(marks) => Some(
            collect_marks(&marks, Ghost(ops@), Ghost(switches@), Ghost(Seq::empty())),
        ),
        None => None,
    }
}

/// The leaders of `ops` with the handlers of `exceptions` among them.
pub fn block_leaders(
    ops: &[JitOp],
    switches: &[SwitchTable],
    exceptions: &[ExcRange],
) -> (r: Option<Vec<usize>>)
    ensures
        r is Some <==> targets_ok(ops@, switches@, exceptions@),
        r matches Some(l) ==> l@ == leaders_of(ops@, switches@, exceptions@),
{
    let mut marks = match mark_leaders(ops, switches) {
        Some(marks) => marks,
        None => {
            return None;
        },
    };
    let ghost before = marks@;
    let mut e: usize = 0;
    while e < exceptions.len()
        invariant
            e <= exceptions@.len(),
            marks@.len() == before.len(),
            before.len() == places(ops@),
            targets_ok(ops@, switches@, Seq::empty()),
            forall|k: int| 0 <= k < e ==> (#[trigger] exceptions@[k]).target < ops@.len(),
            forall|i: int|
                0 <= i < marks@.len() ==> (#[trigger] marks@[i] <==> (before[i] || exists|k: int|
                    0 <= k < e && (#[trigger] exceptions@[k]).target == i)),
        decreases exceptions@.len() - e,
    {
        let t: usize = exceptions[e].target;
        if t >= ops.len() {
            return None;
        }
        mark(&mut marks, t);
        e = e + 1;
    }
    let size: usize = marks.len();
    proof {
        assert forall|i: int| 0 <= i < size implies (#[trigger] marks@[i] <==> is_leader(
            ops@,
            switches@,
            exceptions@,
            i as usize,
        )) by {
            assert(before[i] <==> is_leader(ops@, switches@, Seq::empty(), i as usize));
        }
    }
    Some(collect_marks(&marks, Ghost(ops@), Ghost(switches@), Ghost(exceptions@)))
}

} // verus!
