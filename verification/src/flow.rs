//! Facts about locals, propagated over the basic blocks of a method until nothing changes.
//!
//! A fact is a point of a chain. Where two ways meet in a block, the weaker fact counts, so
//! what is known at the start of a block holds on every way there.

use crate::lower::blocks;
use crate::lower::op::JitOp;
use vstd::prelude::*;

verus! {

/// A point of a chain.
pub trait Rank: Copy {
    /// Place in the chain; the higher, the more is known.
    spec fn rank(self) -> nat;

    /// The highest place.
    spec fn height() -> nat;

    proof fn rank_fits(self)
        ensures
            self.rank() <= Self::height(),
    ;

    proof fn rank_tells(self, other: Self)
        requires
            self.rank() == other.rank(),
        ensures
            self == other,
    ;

    /// The weaker of two facts.
    fn meet(self, other: Self) -> (r: Self)
        ensures
            r == if self.rank() <= other.rank() {
                self
            } else {
                other
            },
    ;

    fn same(self, other: Self) -> (r: bool)
        ensures
            r == (self == other),
    ;
}

/// `more` knows at least what `less` knows.
pub open spec fn below<F: Rank>(less: Seq<F>, more: Seq<F>) -> bool {
    &&& less.len() == more.len()
    &&& forall|i: int| 0 <= i < less.len() ==> (#[trigger] less[i]).rank() <= more[i].rank()
}

/// What may be known of a local.
pub trait Fact: Rank {
    /// What is known of the locals after a block, from what is known before it; `None` if the
    /// block cannot be run on that.
    spec fn run(block: Seq<JitOp>, locals: Seq<Self>) -> Option<Seq<Self>>;

    /// The ops that [`Fact::simulate`] can count the operands of.
    spec fn counts(op: JitOp) -> bool;

    fn simulate(block: &[JitOp], locals: &Vec<Self>) -> (r: Option<Vec<Self>>)
        requires
            forall|k: int| 0 <= k < block@.len() ==> Self::counts(#[trigger] block@[k]),
        ensures
            match Self::run(block@, locals@) {
                Some(out) => r matches Some(v) && v@ == out,
                None => r is None,
            },
    ;

    proof fn run_keeps_len(block: Seq<JitOp>, locals: Seq<Self>)
        ensures
            Self::run(block, locals) matches Some(out) ==> out.len() == locals.len(),
    ;
}

/// A fact of which knowing more never hurts.
pub trait Monotone: Fact {
    proof fn run_is_monotone(block: Seq<JitOp>, less: Seq<Self>, more: Seq<Self>)
        requires
            below(less, more),
            Self::run(block, less) is Some,
        ensures
            Self::run(block, more) is Some,
            below(Self::run(block, less)->0, Self::run(block, more)->0),
    ;
}

/// The ops of block `b`.
pub open spec fn block_ops(ops: Seq<JitOp>, leaders: Seq<usize>, b: int) -> Seq<JitOp> {
    ops.subrange(leaders[b] as int, blocks::block_end(leaders, ops.len(), b))
}

pub open spec fn target_block(leaders: Seq<usize>, t: usize) -> Seq<int> {
    match blocks::block_of(leaders, t) {
        Some(b) => seq![b],
        None => Seq::empty(),
    }
}

pub open spec fn next_block(leaders: Seq<usize>, b: int) -> Seq<int> {
    if b + 1 < leaders.len() {
        seq![b + 1]
    } else {
        Seq::empty()
    }
}

/// The blocks that control reaches from block `b`. A throw and a switch have none here.
pub open spec fn succs(ops: Seq<JitOp>, leaders: Seq<usize>, b: int) -> Seq<int> {
    match ops[blocks::block_end(leaders, ops.len(), b) - 1] {
        JitOp::ReturnValue => Seq::empty(),
        JitOp::ReturnValueBoxed => Seq::empty(),
        JitOp::ReturnValueCoerced => Seq::empty(),
        JitOp::ReturnValueCoerceBaked(_) => Seq::empty(),
        JitOp::ReturnDouble => Seq::empty(),
        JitOp::ReturnVoidBoxed(_) => Seq::empty(),
        JitOp::Throw => Seq::empty(),
        JitOp::LookupSwitch(_) => Seq::empty(),
        JitOp::Jump(t) => target_block(leaders, t),
        JitOp::IfTrue(t) => target_block(leaders, t) + next_block(leaders, b),
        JitOp::IfFalse(t) => target_block(leaders, t) + next_block(leaders, b),
        JitOp::IfLt(t) => target_block(leaders, t) + next_block(leaders, b),
        JitOp::IfGe(t) => target_block(leaders, t) + next_block(leaders, b),
        JitOp::IfTrueBoxed(t) => target_block(leaders, t) + next_block(leaders, b),
        JitOp::IfFalseBoxed(t) => target_block(leaders, t) + next_block(leaders, b),
        _ => next_block(leaders, b),
    }
}

/// What is known at the start of each block; `None` for a block not reached.
pub open spec fn known<F: Fact>(v: Seq<Option<Vec<F>>>) -> Seq<Option<Seq<F>>> {
    v.map_values(
        |o: Option<Vec<F>>|
            match o {
                Some(l) => Some(l@),
                None => None,
            },
    )
}

/// Block `b` runs on what is known at its start, and no block after it knows more than that
/// gives.
pub open spec fn flows<F: Fact>(
    ops: Seq<JitOp>,
    leaders: Seq<usize>,
    e: Seq<Option<Seq<F>>>,
    b: int,
) -> bool {
    &&& F::run(block_ops(ops, leaders, b), e[b]->0) is Some
    &&& feeds(F::run(block_ops(ops, leaders, b), e[b]->0)->0, succs(ops, leaders, b), e)
}

/// No block of `next` is unreached or knows more than `out`.
pub open spec fn feeds<F: Fact>(out: Seq<F>, next: Seq<int>, e: Seq<Option<Seq<F>>>) -> bool {
    forall|k: int|
        0 <= k < next.len() ==> e[#[trigger] next[k]] is Some && below(e[next[k]]->0, out)
}

/// `e` holds on every way through the method: at its start `seed` is known, and what is known
/// flows from block to block.
pub open spec fn closed<F: Fact>(
    ops: Seq<JitOp>,
    leaders: Seq<usize>,
    seed: Seq<F>,
    e: Seq<Option<Seq<F>>>,
) -> bool {
    &&& e.len() == leaders.len()
    &&& e[0] is Some
    &&& below(e[0]->0, seed)
    &&& forall|b: int| 0 <= b < e.len() && (#[trigger] e[b]) is Some ==> flows(ops, leaders, e, b)
}

/// `e` knows at least what `other` knows, and reaches no further.
pub open spec fn above<F: Fact>(e: Seq<Option<Seq<F>>>, other: Seq<Option<Seq<F>>>) -> bool {
    forall|b: int|
        0 <= b < e.len() && (#[trigger] e[b]) is Some ==> other[b] is Some && below(
            other[b]->0,
            e[b]->0,
        )
}

/// Something holds on every way through the method.
pub open spec fn solvable<F: Fact>(ops: Seq<JitOp>, leaders: Seq<usize>, seed: Seq<F>) -> bool {
    exists|e: Seq<Option<Seq<F>>>| closed(ops, leaders, seed, e)
}

/// `e` is the most that holds on every way through the method.
pub open spec fn best<F: Fact>(
    ops: Seq<JitOp>,
    leaders: Seq<usize>,
    seed: Seq<F>,
    e: Seq<Option<Seq<F>>>,
) -> bool {
    &&& closed(ops, leaders, seed, e)
    &&& forall|other: Seq<Option<Seq<F>>>|
        #[trigger] closed(ops, leaders, seed, other) ==> above(e, other)
}

/// A way through the method.
pub open spec fn is_path(ops: Seq<JitOp>, leaders: Seq<usize>, path: Seq<int>) -> bool {
    &&& path.len() > 0
    &&& path[0] == 0
    &&& forall|k: int|
        0 <= k < path.len() - 1 ==> succs(ops, leaders, #[trigger] path[k]).contains(path[k + 1])
    &&& forall|k: int| 0 <= k < path.len() ==> 0 <= #[trigger] path[k] < leaders.len()
}

/// What is known after running the blocks of `path` in turn; `None` if one cannot be run.
pub open spec fn along<F: Fact>(
    ops: Seq<JitOp>,
    leaders: Seq<usize>,
    seed: Seq<F>,
    path: Seq<int>,
) -> Option<Seq<F>>
    decreases path.len(),
{
    if path.len() == 0 {
        Some(seed)
    } else {
        match along(ops, leaders, seed, path.drop_last()) {
            Some(l) => F::run(block_ops(ops, leaders, path.last()), l),
            None => None,
        }
    }
}

/// What flows from block to block holds on every way through the method: each of its blocks
/// can be run on what the way brings to it, which is at least what is known there.
pub proof fn holds_on_every_path<F: Monotone>(
    ops: Seq<JitOp>,
    leaders: Seq<usize>,
    seed: Seq<F>,
    e: Seq<Option<Seq<F>>>,
    path: Seq<int>,
)
    requires
        closed(ops, leaders, seed, e),
        is_path(ops, leaders, path),
    ensures
        along(ops, leaders, seed, path) is Some,
        e[path.last()] is Some,
        along(ops, leaders, seed, path.drop_last()) is Some,
        below(e[path.last()]->0, along(ops, leaders, seed, path.drop_last())->0),
    decreases path.len(),
{
    let last = path.last();
    let front = path.drop_last();
    if path.len() == 1 {
        assert(front =~= Seq::empty());
    } else {
        let before = front.last();
        assert forall|k: int| 0 <= k < front.len() - 1 implies succs(
            ops,
            leaders,
            #[trigger] front[k],
        ).contains(front[k + 1]) by {
            assert(front[k] == path[k]);
        }
        assert forall|k: int| 0 <= k < front.len() implies 0 <= #[trigger] front[k]
            < leaders.len() by {
            assert(front[k] == path[k]);
        }
        holds_on_every_path(ops, leaders, seed, e, front);
        let block = block_ops(ops, leaders, before);
        let here = along(ops, leaders, seed, front.drop_last())->0;
        assert(flows(ops, leaders, e, before));
        F::run_is_monotone(block, e[before]->0, here);
        let n = path.len() - 2;
        assert(path[n] == before);
        assert(succs(ops, leaders, path[n]).contains(path[n + 1]));
        let next = succs(ops, leaders, before);
        let k = choose|k: int| 0 <= k < next.len() && next[k] == last;
        let out = F::run(block, e[before]->0)->0;
        assert(e[next[k]] is Some && below(e[next[k]]->0, out));
        let more = F::run(block, here)->0;
        assert forall|i: int| 0 <= i < (e[last]->0).len() implies (#[trigger] (e[last]->0)[i]).rank()
            <= more[i].rank() by {
            assert(out[i].rank() <= more[i].rank());
        }
    }
    let l = along(ops, leaders, seed, front)->0;
    assert(flows(ops, leaders, e, last));
    F::run_is_monotone(block_ops(ops, leaders, last), e[last]->0, l);
}

fn target_and_next(leaders: &[usize], t: usize, b: usize, falls: bool) -> (r: Vec<usize>)
    requires
        blocks::increasing(leaders@),
        b < leaders@.len(),
    ensures
        r@.map_values(|x: usize| x as int) == target_block(leaders@, t) + if falls {
            next_block(leaders@, b as int)
        } else {
            Seq::empty()
        },
        forall|k: int| 0 <= k < r@.len() ==> #[trigger] r@[k] < leaders@.len(),
{
    let n: usize = leaders.len();
    let mut r: Vec<usize> = Vec::new();
    if let Some(tb) = blocks::find_block(leaders, t) {
        r.push(tb);
    }
    let ghost one = r@;
    if falls && b < n - 1 {
        r.push(b + 1);
    }
    proof {
        let to_int = |x: usize| x as int;
        assert(one.map_values(to_int) =~= target_block(leaders@, t));
        assert(r@.map_values(to_int) =~= target_block(leaders@, t) + if falls {
            next_block(leaders@, b as int)
        } else {
            Seq::empty()
        });
    }
    r
}

/// The blocks that control can reach from block `b`.
pub fn successors(ops: &[JitOp], leaders: &[usize], b: usize) -> (r: Vec<usize>)
    requires
        blocks::increasing(leaders@),
        b < leaders@.len(),
        0 < blocks::block_end(leaders@, ops@.len(), b as int) <= ops@.len(),
    ensures
        r@.map_values(|x: usize| x as int) == succs(ops@, leaders@, b as int),
        forall|k: int| 0 <= k < r@.len() ==> #[trigger] r@[k] < leaders@.len(),
{
    let end: usize = blocks::end_of_block(leaders, ops.len(), b);
    match ops[end - 1] {
        JitOp::ReturnValue | JitOp::ReturnValueBoxed | JitOp::ReturnValueCoerced
        | JitOp::ReturnValueCoerceBaked(_) | JitOp::ReturnDouble | JitOp::ReturnVoidBoxed(_)
        | JitOp::Throw | JitOp::LookupSwitch(_) => Vec::new(),
        JitOp::Jump(t) => target_and_next(leaders, t, b, false),
        JitOp::IfTrue(t) | JitOp::IfFalse(t) | JitOp::IfLt(t) | JitOp::IfGe(t)
        | JitOp::IfTrueBoxed(t) | JitOp::IfFalseBoxed(t) => target_and_next(leaders, t, b, true),
        _ => {
            let mut r: Vec<usize> = Vec::new();
            if b < leaders.len() - 1 {
                r.push(b + 1);
            }
            r
        },
    }
}

// The search.

/// Where a search stands: what is known so far, and the blocks that still have to be run, the
/// next one last.
#[verifier::ext_equal]
pub struct Search<F> {
    pub known: Seq<Option<Seq<F>>>,
    pub work: Seq<int>,
}

/// The weaker of two lists of facts, point by point.
pub open spec fn met<F: Rank>(a: Seq<F>, b: Seq<F>) -> Seq<F> {
    Seq::new(
        a.len(),
        |i: int|
            if a[i].rank() <= b[i].rank() {
                a[i]
            } else {
                b[i]
            },
    )
}

/// The outcome `out` of a block is brought to block `to`: what was known there is weakened, and if
/// that changes it, the block has to be run.
pub open spec fn brought<F: Rank>(s: Search<F>, out: Seq<F>, to: int) -> Search<F> {
    let merged = match s.known[to] {
        Some(l) => met(l, out),
        None => out,
    };
    if s.known[to] == Some(merged) {
        s
    } else {
        Search { known: s.known.update(to, Some(merged)), work: s.work.push(to) }
    }
}

/// The outcome is brought to the blocks of `next`, in order.
pub open spec fn brought_to<F: Rank>(s: Search<F>, out: Seq<F>, next: Seq<int>) -> Search<F>
    decreases next.len(),
{
    if next.len() == 0 {
        s
    } else {
        brought(brought_to(s, out, next.drop_last()), out, next.last())
    }
}

/// One block is run, and its outcome brought to those after it. `None` if it cannot be run.
pub open spec fn advanced<F: Fact>(ops: Seq<JitOp>, leaders: Seq<usize>, s: Search<F>) -> Option<
    Search<F>,
> {
    let from = s.work.last();
    match F::run(block_ops(ops, leaders, from), s.known[from]->0) {
        Some(out) => Some(
            brought_to(
                Search { known: s.known, work: s.work.drop_last() },
                out,
                succs(ops, leaders, from),
            ),
        ),
        None => None,
    }
}

/// At first `seed` is known at the method's start.
pub open spec fn start<F>(leaders: Seq<usize>, seed: Seq<F>) -> Search<F> {
    Search {
        known: Seq::new(
            leaders.len(),
            |b: int|
                if b == 0 {
                    Some(seed)
                } else {
                    None
                },
        ),
        work: seq![0],
    }
}

/// The search after `n` blocks have been run, or all that have to be. `None` if one could not be
/// run.
pub open spec fn searched<F: Fact>(
    ops: Seq<JitOp>,
    leaders: Seq<usize>,
    seed: Seq<F>,
    n: nat,
) -> Option<Search<F>>
    decreases n,
{
    if n == 0 {
        Some(start(leaders, seed))
    } else {
        match searched(ops, leaders, seed, (n - 1) as nat) {
            Some(s) => if s.work.len() == 0 {
                Some(s)
            } else {
                advanced(ops, leaders, s)
            },
            None => None,
        }
    }
}

/// The search has come to its end with `e` after `n` blocks.
pub open spec fn ends_after<F: Fact>(
    ops: Seq<JitOp>,
    leaders: Seq<usize>,
    seed: Seq<F>,
    e: Seq<Option<Seq<F>>>,
    n: nat,
) -> bool {
    searched(ops, leaders, seed, n) matches Some(s) && s.work.len() == 0 && s.known == e
}

/// The search ends with `e`.
pub open spec fn ends_with<F: Fact>(
    ops: Seq<JitOp>,
    leaders: Seq<usize>,
    seed: Seq<F>,
    e: Seq<Option<Seq<F>>>,
) -> bool {
    exists|n: nat| ends_after(ops, leaders, seed, e, n)
}

/// The search comes to a block that cannot be run.
pub open spec fn fails<F: Fact>(ops: Seq<JitOp>, leaders: Seq<usize>, seed: Seq<F>) -> bool {
    exists|n: nat| (#[trigger] searched(ops, leaders, seed, n)) is None
}

proof fn lemma_end_stays<F: Fact>(
    ops: Seq<JitOp>,
    leaders: Seq<usize>,
    seed: Seq<F>,
    e: Seq<Option<Seq<F>>>,
    n: nat,
    m: nat,
)
    requires
        ends_after(ops, leaders, seed, e, n),
        n <= m,
    ensures
        ends_after(ops, leaders, seed, e, m),
    decreases m,
{
    if n < m {
        lemma_end_stays(ops, leaders, seed, e, n, (m - 1) as nat);
    }
}

proof fn lemma_failure_stays<F: Fact>(
    ops: Seq<JitOp>,
    leaders: Seq<usize>,
    seed: Seq<F>,
    n: nat,
    m: nat,
)
    requires
        searched(ops, leaders, seed, n) is None,
        n <= m,
    ensures
        searched(ops, leaders, seed, m) is None,
    decreases m,
{
    if n < m {
        lemma_failure_stays(ops, leaders, seed, n, (m - 1) as nat);
    }
}

/// A search has one end: it does not end with anything else, nor fail.
pub proof fn a_search_has_one_end<F: Fact>(
    ops: Seq<JitOp>,
    leaders: Seq<usize>,
    seed: Seq<F>,
    e: Seq<Option<Seq<F>>>,
    other: Seq<Option<Seq<F>>>,
)
    requires
        ends_with(ops, leaders, seed, e),
    ensures
        ends_with(ops, leaders, seed, other) ==> other == e,
        !fails(ops, leaders, seed),
{
    let n = choose|n: nat| ends_after(ops, leaders, seed, e, n);
    if ends_with(ops, leaders, seed, other) {
        let m = choose|m: nat| ends_after(ops, leaders, seed, other, m);
        if n <= m {
            lemma_end_stays(ops, leaders, seed, e, n, m);
        } else {
            lemma_end_stays(ops, leaders, seed, other, m, n);
        }
    }
    if fails(ops, leaders, seed) {
        let m = choose|m: nat| (#[trigger] searched(ops, leaders, seed, m)) is None;
        if n <= m {
            lemma_end_stays(ops, leaders, seed, e, n, m);
        } else {
            lemma_failure_stays(ops, leaders, seed, m, n);
        }
    }
}

// What a search keeps.

proof fn lemma_succs_inside(ops: Seq<JitOp>, leaders: Seq<usize>, b: int)
    requires
        0 <= b < leaders.len(),
    ensures
        forall|k: int|
            0 <= k < succs(ops, leaders, b).len() ==> 0 <= #[trigger] succs(ops, leaders, b)[k]
                < leaders.len(),
{
    assert forall|t: usize, k: int| 0 <= k < target_block(leaders, t).len() implies 0
        <= #[trigger] target_block(leaders, t)[k] < leaders.len() by {
        let at = choose|at: int| 0 <= at < leaders.len() && leaders[at] == t;
        assert(leaders[leaders.index_of(t)] == t);
    }
}

proof fn lemma_met_below<F: Rank>(a: Seq<F>, b: Seq<F>)
    requires
        a.len() == b.len(),
    ensures
        below(met(a, b), a),
        below(met(a, b), b),
        forall|l: Seq<F>| #[trigger] below(l, a) && below(l, b) ==> below(l, met(a, b)),
{
    assert forall|l: Seq<F>| #[trigger] below(l, a) && below(l, b) implies below(l, met(a, b)) by {
        assert forall|k: int| 0 <= k < l.len() implies (#[trigger] l[k]).rank()
            <= met(a, b)[k].rank() by {
            assert(l[k].rank() <= a[k].rank() && l[k].rank() <= b[k].rank());
        }
    }
}

proof fn lemma_below_transitive<F: Rank>(a: Seq<F>, b: Seq<F>, c: Seq<F>)
    requires
        below(a, b),
        below(b, c),
    ensures
        below(a, c),
{
    assert forall|i: int| 0 <= i < a.len() implies (#[trigger] a[i]).rank() <= c[i].rank() by {
        assert(a[i].rank() <= b[i].rank());
        assert(b[i].rank() <= c[i].rank());
    }
}

/// What is known fits the method, and the blocks to be run have been reached.
spec fn is_search<F: Fact>(leaders: Seq<usize>, seed: Seq<F>, s: Search<F>) -> bool {
    &&& s.known.len() == leaders.len()
    &&& s.known.len() > 0
    &&& s.known[0] is Some
    &&& below(s.known[0]->0, seed)
    &&& forall|b: int|
        0 <= b < s.known.len() && (#[trigger] s.known[b]) is Some ==> s.known[b]->0.len()
            == seed.len()
    &&& forall|k: int|
        0 <= k < s.work.len() ==> 0 <= #[trigger] s.work[k] < s.known.len()
            && s.known[s.work[k]] is Some
}

/// Every block but those still to be run, and `but`, has been run on what is known now.
spec fn settled<F: Fact>(ops: Seq<JitOp>, leaders: Seq<usize>, s: Search<F>, but: int) -> bool {
    forall|b: int|
        0 <= b < s.known.len() && (#[trigger] s.known[b]) is Some && !s.work.contains(b) && b
            != but ==> flows(ops, leaders, s.known, b)
}

/// From `s` to `t` nothing more is known, and no block that is to be run is forgotten.
spec fn weakened<F: Fact>(s: Search<F>, t: Search<F>) -> bool {
    &&& t.known.len() == s.known.len()
    &&& forall|b: int|
        0 <= b < s.known.len() && (#[trigger] s.known[b]) is Some ==> t.known[b] is Some && below(
            t.known[b]->0,
            s.known[b]->0,
        )
    &&& forall|b: int|
        0 <= b < s.known.len() ==> (#[trigger] t.known[b]) == s.known[b] || t.work.contains(b)
    &&& forall|b: int| #[trigger] s.work.contains(b) ==> t.work.contains(b)
}

proof fn lemma_brought<F: Fact>(
    ops: Seq<JitOp>,
    leaders: Seq<usize>,
    seed: Seq<F>,
    s: Search<F>,
    out: Seq<F>,
    to: int,
    but: int,
)
    requires
        is_search(leaders, seed, s),
        settled(ops, leaders, s, but),
        0 <= to < s.known.len(),
        out.len() == seed.len(),
    ensures
        is_search(leaders, seed, brought(s, out, to)),
        settled(ops, leaders, brought(s, out, to), but),
        weakened(s, brought(s, out, to)),
        brought(s, out, to).known[to] is Some,
        below(brought(s, out, to).known[to]->0, out),
{
    let t = brought(s, out, to);
    if s.known[to] is Some {
        lemma_met_below(s.known[to]->0, out);
    }
    assert(below(t.known[to]->0, out));
    if t != s {
        assert(t.work[s.work.len() as int] == to);
        assert forall|b: int| #[trigger] s.work.contains(b) implies t.work.contains(b) by {
            let k = choose|k: int| 0 <= k < s.work.len() && s.work[k] == b;
            assert(t.work[k] == b);
        }
        assert forall|k: int| 0 <= k < t.work.len() implies 0 <= #[trigger] t.work[k]
            < t.known.len() && t.known[t.work[k]] is Some by {
            if k < s.work.len() {
                assert(t.work[k] == s.work[k]);
            }
        }
        if to == 0 {
            lemma_below_transitive(t.known[0]->0, s.known[0]->0, seed);
        }
        assert forall|b: int|
            0 <= b < t.known.len() && (#[trigger] t.known[b]) is Some && !t.work.contains(b) && b
                != but implies flows(ops, leaders, t.known, b) by {
            assert(b != to);
            assert(flows(ops, leaders, s.known, b));
            let next = succs(ops, leaders, b);
            let mine = F::run(block_ops(ops, leaders, b), s.known[b]->0)->0;
            lemma_succs_inside(ops, leaders, b);
            assert forall|k: int| 0 <= k < next.len() implies t.known[#[trigger] next[k]] is Some
                && below(t.known[next[k]]->0, mine) by {
                assert(s.known[next[k]] is Some && below(s.known[next[k]]->0, mine));
                if next[k] == to {
                    lemma_below_transitive(t.known[to]->0, s.known[to]->0, mine);
                }
            }
        }
    }
}

proof fn lemma_brought_to<F: Fact>(
    ops: Seq<JitOp>,
    leaders: Seq<usize>,
    seed: Seq<F>,
    s: Search<F>,
    out: Seq<F>,
    next: Seq<int>,
    but: int,
)
    requires
        is_search(leaders, seed, s),
        settled(ops, leaders, s, but),
        forall|k: int| 0 <= k < next.len() ==> 0 <= #[trigger] next[k] < s.known.len(),
        out.len() == seed.len(),
    ensures
        is_search(leaders, seed, brought_to(s, out, next)),
        settled(ops, leaders, brought_to(s, out, next), but),
        weakened(s, brought_to(s, out, next)),
        feeds(out, next, brought_to(s, out, next).known),
    decreases next.len(),
{
    if next.len() == 0 {
        assert forall|i: int, l: Seq<F>| 0 <= i < l.len() implies (#[trigger] l[i]).rank()
            <= l[i].rank() by {}
    } else {
        let front = next.drop_last();
        assert forall|k: int| 0 <= k < front.len() implies 0 <= #[trigger] front[k]
            < s.known.len() by {
            assert(front[k] == next[k]);
        }
        lemma_brought_to(ops, leaders, seed, s, out, front, but);
        let mid = brought_to(s, out, front);
        let t = brought(mid, out, next.last());
        assert(next.last() == next[next.len() - 1]);
        lemma_brought(ops, leaders, seed, mid, out, next.last(), but);
        assert forall|b: int| 0 <= b < s.known.len() && (#[trigger] s.known[b]) is Some implies
            t.known[b] is Some && below(t.known[b]->0, s.known[b]->0) by {
            assert(mid.known[b] is Some);
            lemma_below_transitive(t.known[b]->0, mid.known[b]->0, s.known[b]->0);
        }
        assert forall|b: int| 0 <= b < s.known.len() implies (#[trigger] t.known[b]) == s.known[b]
            || t.work.contains(b) by {
            assert(mid.known[b] == s.known[b] || mid.work.contains(b));
        }
        assert forall|k: int| 0 <= k < next.len() implies t.known[#[trigger] next[k]] is Some
            && below(t.known[next[k]]->0, out) by {
            if k < front.len() {
                let b = front[k];
                assert(next[k] == b);
                assert(mid.known[b] is Some && below(mid.known[b]->0, out));
                lemma_below_transitive(t.known[b]->0, mid.known[b]->0, out);
            }
        }
    }
}

proof fn lemma_advanced<F: Fact>(
    ops: Seq<JitOp>,
    leaders: Seq<usize>,
    seed: Seq<F>,
    s: Search<F>,
)
    requires
        is_search(leaders, seed, s),
        settled(ops, leaders, s, -1),
        s.work.len() > 0,
        advanced(ops, leaders, s) is Some,
    ensures
        is_search(leaders, seed, advanced(ops, leaders, s)->0),
        settled(ops, leaders, advanced(ops, leaders, s)->0, -1),
{
    let from = s.work.last();
    let popped = Search { known: s.known, work: s.work.drop_last() };
    let out = F::run(block_ops(ops, leaders, from), s.known[from]->0)->0;
    let next = succs(ops, leaders, from);
    assert(from == s.work[s.work.len() - 1]);
    F::run_keeps_len(block_ops(ops, leaders, from), s.known[from]->0);
    lemma_succs_inside(ops, leaders, from);
    lemma_popped(ops, leaders, seed, s);
    lemma_brought_to(ops, leaders, seed, popped, out, next, from);
    let t = brought_to(popped, out, next);
    if !t.work.contains(from) {
        assert(t.known[from] == s.known[from]);
        assert(flows(ops, leaders, t.known, from));
    }
}

proof fn lemma_popped<F: Fact>(
    ops: Seq<JitOp>,
    leaders: Seq<usize>,
    seed: Seq<F>,
    s: Search<F>,
)
    requires
        is_search(leaders, seed, s),
        settled(ops, leaders, s, -1),
        s.work.len() > 0,
    ensures
        is_search(leaders, seed, Search { known: s.known, work: s.work.drop_last() }),
        settled(
            ops,
            leaders,
            Search { known: s.known, work: s.work.drop_last() },
            s.work.last(),
        ),
{
    let popped = Search { known: s.known, work: s.work.drop_last() };
    assert forall|k: int| 0 <= k < popped.work.len() implies 0 <= #[trigger] popped.work[k]
        < popped.known.len() && popped.known[popped.work[k]] is Some by {
        assert(popped.work[k] == s.work[k]);
    }
    assert forall|b: int|
        0 <= b < popped.known.len() && (#[trigger] popped.known[b]) is Some
            && !popped.work.contains(b) && b != s.work.last() implies flows(
        ops,
        leaders,
        popped.known,
        b,
    ) by {
        if s.work.contains(b) {
            let k = choose|k: int| 0 <= k < s.work.len() && s.work[k] == b;
            assert(popped.work[k] == b);
        }
        assert(s.known[b] is Some);
    }
}

proof fn lemma_start<F: Fact>(ops: Seq<JitOp>, leaders: Seq<usize>, seed: Seq<F>)
    requires
        leaders.len() > 0,
    ensures
        is_search(leaders, seed, start(leaders, seed)),
        settled(ops, leaders, start(leaders, seed), -1),
{
    let s = start(leaders, seed);
    assert(s.work[0] == 0);
}

proof fn lemma_searched<F: Fact>(ops: Seq<JitOp>, leaders: Seq<usize>, seed: Seq<F>, n: nat)
    requires
        leaders.len() > 0,
        searched(ops, leaders, seed, n) is Some,
    ensures
        is_search(leaders, seed, searched(ops, leaders, seed, n)->0),
        settled(ops, leaders, searched(ops, leaders, seed, n)->0, -1),
    decreases n,
{
    if n == 0 {
        lemma_start(ops, leaders, seed);
    } else {
        lemma_searched(ops, leaders, seed, (n - 1) as nat);
        let before = searched(ops, leaders, seed, (n - 1) as nat)->0;
        if before.work.len() > 0 {
            lemma_advanced(ops, leaders, seed, before);
        }
    }
}

/// What a search ends with flows from block to block.
pub proof fn a_search_ends_closed<F: Fact>(
    ops: Seq<JitOp>,
    leaders: Seq<usize>,
    seed: Seq<F>,
    e: Seq<Option<Seq<F>>>,
)
    requires
        leaders.len() > 0,
        ends_with(ops, leaders, seed, e),
    ensures
        closed(ops, leaders, seed, e),
{
    let n = choose|n: nat| ends_after(ops, leaders, seed, e, n);
    lemma_searched(ops, leaders, seed, n);
}

// Against anything else that flows.

proof fn lemma_brought_above<F: Fact>(
    s: Search<F>,
    out: Seq<F>,
    next: Seq<int>,
    other: Seq<Option<Seq<F>>>,
)
    requires
        above(s.known, other),
        forall|k: int| 0 <= k < next.len() ==> 0 <= #[trigger] next[k] < s.known.len(),
        feeds(out, next, other),
        forall|b: int|
            0 <= b < s.known.len() && (#[trigger] s.known[b]) is Some ==> s.known[b]->0.len()
                == out.len(),
    ensures
        above(brought_to(s, out, next).known, other),
        brought_to(s, out, next).known.len() == s.known.len(),
        forall|b: int|
            0 <= b < s.known.len() && (#[trigger] brought_to(s, out, next).known[b]) is Some
                ==> brought_to(s, out, next).known[b]->0.len() == out.len(),
    decreases next.len(),
{
    if next.len() > 0 {
        let front = next.drop_last();
        assert forall|k: int| 0 <= k < front.len() implies 0 <= #[trigger] front[k]
            < s.known.len() by {
            assert(front[k] == next[k]);
        }
        assert(feeds(out, front, other)) by {
            assert forall|k: int| 0 <= k < front.len() implies other[#[trigger] front[k]] is Some
                && below(other[front[k]]->0, out) by {
                assert(front[k] == next[k]);
            }
        }
        lemma_brought_above(s, out, front, other);
        let mid = brought_to(s, out, front);
        let to = next.last();
        assert(to == next[next.len() - 1]);
        assert(other[to] is Some && below(other[to]->0, out));
        if mid.known[to] is Some {
            lemma_met_below(mid.known[to]->0, out);
            assert(below(other[to]->0, mid.known[to]->0));
        }
        let t = brought(mid, out, to);
        assert forall|b: int| 0 <= b < t.known.len() && (#[trigger] t.known[b]) is Some implies
            other[b] is Some && below(other[b]->0, t.known[b]->0) by {
            if b != to {
                assert(mid.known[b] is Some);
            }
        }
    }
}

/// Whatever flows from block to block, no search fails on it or comes to know less.
proof fn lemma_searched_above<F: Monotone>(
    ops: Seq<JitOp>,
    leaders: Seq<usize>,
    seed: Seq<F>,
    other: Seq<Option<Seq<F>>>,
    n: nat,
)
    requires
        leaders.len() > 0,
        closed(ops, leaders, seed, other),
    ensures
        searched(ops, leaders, seed, n) is Some,
        above((searched(ops, leaders, seed, n)->0).known, other),
    decreases n,
{
    if n > 0 {
        lemma_searched_above(ops, leaders, seed, other, (n - 1) as nat);
        lemma_searched(ops, leaders, seed, (n - 1) as nat);
        let s = searched(ops, leaders, seed, (n - 1) as nat)->0;
        if s.work.len() > 0 {
            let from = s.work.last();
            let block = block_ops(ops, leaders, from);
            let next = succs(ops, leaders, from);
            assert(from == s.work[s.work.len() - 1]);
            assert(s.known[from] is Some);
            assert(other[from] is Some && below(other[from]->0, s.known[from]->0));
            assert(flows(ops, leaders, other, from));
            F::run_is_monotone(block, other[from]->0, s.known[from]->0);
            F::run_keeps_len(block, s.known[from]->0);
            let out = F::run(block, s.known[from]->0)->0;
            let less = F::run(block, other[from]->0)->0;
            assert forall|k: int| 0 <= k < next.len() implies other[#[trigger] next[k]] is Some
                && below(other[next[k]]->0, out) by {
                assert(below(other[next[k]]->0, less));
                lemma_below_transitive(other[next[k]]->0, less, out);
            }
            lemma_succs_inside(ops, leaders, from);
            lemma_brought_above(
                Search { known: s.known, work: s.work.drop_last() },
                out,
                next,
                other,
            );
        }
    }
}

/// Of facts of which knowing more never hurts, a search ends with the most that holds on every way
/// through the method, and fails only if nothing does.
pub proof fn a_search_finds_the_best<F: Monotone>(
    ops: Seq<JitOp>,
    leaders: Seq<usize>,
    seed: Seq<F>,
)
    requires
        leaders.len() > 0,
    ensures
        forall|e: Seq<Option<Seq<F>>>| #[trigger]
            ends_with(ops, leaders, seed, e) ==> best(ops, leaders, seed, e),
        fails(ops, leaders, seed) ==> !solvable(ops, leaders, seed),
{
    assert forall|e: Seq<Option<Seq<F>>>| #[trigger] ends_with(ops, leaders, seed, e) implies best(
        ops,
        leaders,
        seed,
        e,
    ) by {
        a_search_ends_closed(ops, leaders, seed, e);
        let n = choose|n: nat| ends_after(ops, leaders, seed, e, n);
        assert forall|other: Seq<Option<Seq<F>>>| #[trigger] closed(
            ops,
            leaders,
            seed,
            other,
        ) implies above(e, other) by {
            lemma_searched_above(ops, leaders, seed, other, n);
        }
    }
    if fails(ops, leaders, seed) && solvable(ops, leaders, seed) {
        let n = choose|n: nat| (#[trigger] searched(ops, leaders, seed, n)) is None;
        let other = choose|other: Seq<Option<Seq<F>>>| closed(ops, leaders, seed, other);
        lemma_searched_above(ops, leaders, seed, other, n);
    }
}

/// What `other` knows reaches as far as `e`, with as many locals.
spec fn reaches<F: Fact>(e: Seq<Option<Seq<F>>>, other: Seq<Option<Seq<F>>>, size: nat) -> bool {
    forall|b: int|
        0 <= b < e.len() && (#[trigger] e[b]) is Some ==> other[b] is Some && other[b]->0.len()
            == size
}

proof fn lemma_brought_reaches<F: Fact>(
    s: Search<F>,
    out: Seq<F>,
    next: Seq<int>,
    other: Seq<Option<Seq<F>>>,
    less: Seq<F>,
)
    requires
        reaches(s.known, other, less.len()),
        forall|k: int| 0 <= k < next.len() ==> 0 <= #[trigger] next[k] < s.known.len(),
        feeds(less, next, other),
    ensures
        reaches(brought_to(s, out, next).known, other, less.len()),
        brought_to(s, out, next).known.len() == s.known.len(),
    decreases next.len(),
{
    if next.len() > 0 {
        let front = next.drop_last();
        assert forall|k: int| 0 <= k < front.len() implies 0 <= #[trigger] front[k]
            < s.known.len() && other[front[k]] is Some && below(other[front[k]]->0, less) by {
            assert(front[k] == next[k]);
        }
        lemma_brought_reaches(s, out, front, other, less);
        let mid = brought_to(s, out, front);
        let to = next.last();
        assert(to == next[next.len() - 1]);
        assert(other[to] is Some && below(other[to]->0, less));
        let t = brought(mid, out, to);
        assert forall|b: int| 0 <= b < t.known.len() && (#[trigger] t.known[b]) is Some implies
            other[b] is Some && other[b]->0.len() == less.len() by {
            if b != to {
                assert(mid.known[b] is Some);
            }
        }
    }
}

/// Whether a block can be run does not depend on what is known.
pub open spec fn is_plain<F: Fact>() -> bool {
    forall|block: Seq<JitOp>, a: Seq<F>, b: Seq<F>|
        a.len() == b.len() ==> (#[trigger] F::run(block, a)) is Some ==> (#[trigger] F::run(
            block,
            b,
        )) is Some
}

proof fn lemma_searched_reaches<F: Fact>(
    ops: Seq<JitOp>,
    leaders: Seq<usize>,
    seed: Seq<F>,
    other: Seq<Option<Seq<F>>>,
    n: nat,
)
    requires
        leaders.len() > 0,
        is_plain::<F>(),
        closed(ops, leaders, seed, other),
    ensures
        searched(ops, leaders, seed, n) is Some,
        reaches((searched(ops, leaders, seed, n)->0).known, other, seed.len()),
    decreases n,
{
    if n > 0 {
        lemma_searched_reaches(ops, leaders, seed, other, (n - 1) as nat);
        lemma_searched(ops, leaders, seed, (n - 1) as nat);
        let s = searched(ops, leaders, seed, (n - 1) as nat)->0;
        if s.work.len() > 0 {
            let from = s.work.last();
            let block = block_ops(ops, leaders, from);
            let next = succs(ops, leaders, from);
            assert(from == s.work[s.work.len() - 1]);
            assert(s.known[from] is Some);
            assert(other[from] is Some);
            assert(flows(ops, leaders, other, from));
            let less = F::run(block, other[from]->0)->0;
            F::run_keeps_len(block, other[from]->0);
            assert(F::run(block, s.known[from]->0) is Some);
            lemma_succs_inside(ops, leaders, from);
            lemma_brought_reaches(
                Search { known: s.known, work: s.work.drop_last() },
                F::run(block, s.known[from]->0)->0,
                next,
                other,
                less,
            );
        }
    }
}

/// Where it does not depend on what is known whether a block can be run, a search fails only if
/// nothing holds on every way through the method.
pub proof fn a_plain_search_fails_on_blocks_alone<F: Fact>(
    ops: Seq<JitOp>,
    leaders: Seq<usize>,
    seed: Seq<F>,
)
    requires
        leaders.len() > 0,
        is_plain::<F>(),
    ensures
        fails(ops, leaders, seed) ==> !solvable(ops, leaders, seed),
{
    if fails(ops, leaders, seed) && solvable(ops, leaders, seed) {
        let n = choose|n: nat| (#[trigger] searched(ops, leaders, seed, n)) is None;
        let other = choose|other: Seq<Option<Seq<F>>>| closed(ops, leaders, seed, other);
        lemma_searched_reaches(ops, leaders, seed, other, n);
    }
}

// Every change lowers a fact or reaches a block, so the weights sink.

spec fn ranks<F: Rank>(l: Seq<F>) -> nat
    decreases l.len(),
{
    if l.len() == 0 {
        0
    } else {
        ranks(l.drop_last()) + l.last().rank()
    }
}

spec fn weight<F: Rank>(o: Option<Seq<F>>, size: nat) -> nat {
    match o {
        Some(l) => ranks(l),
        None => size * F::height() + 1,
    }
}

spec fn weights<F: Rank>(e: Seq<Option<Seq<F>>>, size: nat) -> nat
    decreases e.len(),
{
    if e.len() == 0 {
        0
    } else {
        weights(e.drop_last(), size) + weight(e.last(), size)
    }
}

proof fn lemma_ranks_bounded<F: Rank>(l: Seq<F>)
    ensures
        ranks(l) <= l.len() * F::height(),
    decreases l.len(),
{
    if l.len() > 0 {
        lemma_ranks_bounded(l.drop_last());
        l.last().rank_fits();
        assert((l.len() - 1) * F::height() + F::height() == l.len() * F::height())
            by (nonlinear_arith)
            requires
                l.len() > 0,
        ;
    }
}

proof fn lemma_ranks_below<F: Rank>(less: Seq<F>, more: Seq<F>)
    requires
        below(less, more),
    ensures
        ranks(less) <= ranks(more),
        less != more ==> ranks(less) < ranks(more),
    decreases less.len(),
{
    if less.len() > 0 {
        let a = less.drop_last();
        let b = more.drop_last();
        assert forall|i: int| 0 <= i < a.len() implies (#[trigger] a[i]).rank() <= b[i].rank() by {
            assert(less[i].rank() <= more[i].rank());
        }
        lemma_ranks_below(a, b);
        let n = less.len() - 1;
        assert(less[n].rank() <= more[n].rank());
        if less != more {
            if a == b {
                if less[n].rank() == more[n].rank() {
                    less[n].rank_tells(more[n]);
                    assert forall|i: int| 0 <= i < less.len() implies less[i] == more[i] by {
                        if i < n {
                            assert(a[i] == b[i]);
                        }
                    }
                    assert(less =~= more);
                }
            }
        }
    } else {
        assert(less =~= more);
    }
}

proof fn lemma_weights_update<F: Rank>(
    e: Seq<Option<Seq<F>>>,
    b: int,
    o: Option<Seq<F>>,
    size: nat,
)
    requires
        0 <= b < e.len(),
    ensures
        weights(e.update(b, o), size) == weights(e, size) - weight(e[b], size) + weight(o, size),
    decreases e.len(),
{
    if b < e.len() - 1 {
        assert(e.update(b, o).drop_last() =~= e.drop_last().update(b, o));
        lemma_weights_update(e.drop_last(), b, o, size);
    } else {
        assert(e.update(b, o).drop_last() =~= e.drop_last());
    }
}

fn copy_facts<F: Rank>(l: &Vec<F>) -> (r: Vec<F>)
    ensures
        r@ == l@,
{
    let mut r: Vec<F> = Vec::new();
    let mut i: usize = 0;
    while i < l.len()
        invariant
            i <= l@.len(),
            r@ == l@.take(i as int),
        decreases l@.len() - i,
    {
        r.push(l[i]);
        i = i + 1;
    }
    assert(l@.take(i as int) =~= l@);
    r
}

proof fn lemma_brought_weight<F: Fact>(
    leaders: Seq<usize>,
    seed: Seq<F>,
    s: Search<F>,
    out: Seq<F>,
    to: int,
)
    requires
        is_search(leaders, seed, s),
        0 <= to < s.known.len(),
        out.len() == seed.len(),
    ensures
        brought(s, out, to) == s || weights(brought(s, out, to).known, seed.len()) < weights(
            s.known,
            seed.len(),
        ),
{
    let t = brought(s, out, to);
    if t != s {
        lemma_weights_update(s.known, to, t.known[to], seed.len());
        match s.known[to] {
            Some(l) => {
                lemma_met_below(l, out);
                lemma_ranks_below(met(l, out), l);
            },
            None => {
                lemma_ranks_bounded(out);
            },
        }
    }
}

/// The weaker of two lists of facts, point by point.
fn meet_facts<F: Rank>(a: &Vec<F>, b: &Vec<F>) -> (r: Vec<F>)
    requires
        a@.len() == b@.len(),
    ensures
        r@ == met(a@, b@),
{
    let mut r: Vec<F> = Vec::new();
    let mut i: usize = 0;
    while i < a.len()
        invariant
            i <= a@.len(),
            a@.len() == b@.len(),
            r@ =~= met(a@, b@).take(i as int),
        decreases a@.len() - i,
    {
        r.push(a[i].meet(b[i]));
        i = i + 1;
    }
    assert(met(a@, b@).take(i as int) =~= met(a@, b@));
    r
}

fn same_facts<F: Rank>(a: &Vec<F>, b: &Vec<F>) -> (r: bool)
    ensures
        r == (a@ == b@),
{
    if a.len() != b.len() {
        return false;
    }
    let mut i: usize = 0;
    while i < a.len()
        invariant
            i <= a@.len(),
            a@.len() == b@.len(),
            forall|k: int| 0 <= k < i ==> a@[k] == b@[k],
        decreases a@.len() - i,
    {
        if !a[i].same(b[i]) {
            return false;
        }
        i = i + 1;
    }
    assert(a@ =~= b@);
    true
}

/// The state of a search.
spec fn state<F: Fact>(entry: Seq<Option<Vec<F>>>, work: Seq<usize>) -> Search<F> {
    Search { known: known(entry), work: work.map_values(|b: usize| b as int) }
}

/// Brings `out` to block `to`.
fn bring<F: Fact>(
    entry: &mut Vec<Option<Vec<F>>>,
    work: &mut Vec<usize>,
    out: &Vec<F>,
    to: usize,
)
    requires
        to < old(entry)@.len(),
        old(entry)@[to as int] matches Some(l) ==> l@.len() == out@.len(),
    ensures
        final(entry)@.len() == old(entry)@.len(),
        state(final(entry)@, final(work)@) == brought(
            state(old(entry)@, old(work)@),
            out@,
            to as int,
        ),
{
    let ghost before = state(entry@, work@);
    let merged: Vec<F> = match &entry[to] {
        Some(existing) => {
            let merged = meet_facts(existing, out);
            if same_facts(&merged, existing) {
                return;
            }
            merged
        },
        None => copy_facts(out),
    };
    let ghost m = merged@;
    entry.set(to, Some(merged));
    work.push(to);
    proof {
        let after = state(entry@, work@);
        assert(after.known =~= before.known.update(to as int, Some(m)));
        assert(after.work =~= before.work.push(to as int));
    }
}

/// The search for what holds on every way through the method from `seed`; `None` if it comes to a
/// block that cannot be run.
pub fn solve<F: Fact>(ops: &[JitOp], leaders: &[usize], seed: &[F]) -> (r: Option<
    Vec<Option<Vec<F>>>,
>)
    requires
        forall|i: int| 0 <= i < ops@.len() ==> F::counts(#[trigger] ops@[i]),
        ops@.len() > 0,
        blocks::targets_ok(ops@, Seq::empty(), Seq::empty()),
        leaders@ == blocks::leaders_of(ops@, Seq::empty(), Seq::empty()),
    ensures
        match r {
            Some(e) => ends_with(ops@, leaders@, seed@, known(e@)),
            None => fails(ops@, leaders@, seed@),
        },
{
    let size: usize = ops.len();
    proof {
        assert(ops@.len() == size);
        blocks::leaders_are_the_block_starts(ops@, Seq::empty(), Seq::empty());
    }
    let n: usize = leaders.len();
    let mut first: Vec<F> = Vec::new();
    let mut i: usize = 0;
    while i < seed.len()
        invariant
            i <= seed@.len(),
            first@ == seed@.take(i as int),
        decreases seed@.len() - i,
    {
        first.push(seed[i]);
        i = i + 1;
    }
    assert(seed@.take(i as int) =~= seed@);
    let mut entry: Vec<Option<Vec<F>>> = Vec::new();
    entry.push(Some(first));
    let mut b: usize = 1;
    while b < n
        invariant
            1 <= b <= n,
            entry@.len() == b,
            entry@[0] == Some(first),
            forall|k: int| 1 <= k < b ==> (#[trigger] entry@[k]) is None,
        decreases n - b,
    {
        entry.push(None);
        b = b + 1;
    }
    let mut work: Vec<usize> = Vec::new();
    work.push(0);
    let ghost mut ran: nat = 0;
    proof {
        assert(state(entry@, work@).known =~= start(leaders@, seed@).known);
        assert(state(entry@, work@).work =~= start(leaders@, seed@).work);
        lemma_start(ops@, leaders@, seed@);
    }
    while work.len() > 0
        invariant
            forall|i: int| 0 <= i < ops@.len() ==> F::counts(#[trigger] ops@[i]),
            ops@.len() > 0,
            n == leaders@.len(),
            entry@.len() == n,
            blocks::increasing(leaders@),
            leaders@[0] == 0,
            forall|k: int| 0 <= k < leaders@.len() ==> #[trigger] leaders@[k] < ops@.len(),
            searched(ops@, leaders@, seed@, ran) == Some(state(entry@, work@)),
            is_search(leaders@, seed@, state(entry@, work@)),
            settled(ops@, leaders@, state(entry@, work@), -1),
        decreases weights(known(entry@), seed@.len()), work@.len(),
    {
        let ghost s = state(entry@, work@);
        let from: usize = work.pop().unwrap();
        assert(s.work[s.work.len() - 1] == from);
        assert(s.known[from as int] is Some);
        let at_from: Vec<F> = match &entry[from] {
            Some(l) => copy_facts(l),
            None => Vec::new(),
        };
        assert(s.known[from as int] == Some(at_from@));
        let begin: usize = leaders[from];
        let end: usize = blocks::end_of_block(leaders, ops.len(), from);
        assert(begin < end <= ops@.len()) by {
            if from < n - 1 {
                assert(leaders@[from as int] < leaders@[from + 1]);
            }
        }
        let block = vstd::slice::slice_subrange(ops, begin, end);
        assert(block@ == block_ops(ops@, leaders@, from as int));
        let out = match F::simulate(block, &at_from) {
            Some(out) => out,
            None => {
                assert(searched(ops@, leaders@, seed@, ran + 1) is None);
                return None;
            },
        };
        let nexts = successors(ops, leaders, from);
        let ghost next = succs(ops@, leaders@, from as int);
        let ghost popped = state(entry@, work@);
        proof {
            F::run_keeps_len(block@, at_from@);
            assert(popped.work =~= s.work.drop_last());
            lemma_popped(ops@, leaders@, seed@, s);
            assert(next.take(0) =~= Seq::empty());
        }
        let mut k: usize = 0;
        while k < nexts.len()
            invariant
                k <= nexts@.len(),
                nexts@.map_values(|x: usize| x as int) == next,
                n == leaders@.len(),
                entry@.len() == n,
                forall|j: int| 0 <= j < nexts@.len() ==> #[trigger] nexts@[j] < n,
                is_search(leaders@, seed@, popped),
                settled(ops@, leaders@, popped, from as int),
                out@.len() == seed@.len(),
                state(entry@, work@) == brought_to(popped, out@, next.take(k as int)),
                state(entry@, work@) == popped || weights(known(entry@), seed@.len()) < weights(
                    popped.known,
                    seed@.len(),
                ),
            decreases nexts@.len() - k,
        {
            let ghost mid = state(entry@, work@);
            let ghost front = next.take(k as int);
            assert(next[k as int] == nexts@[k as int]);
            proof {
                assert forall|j: int| 0 <= j < front.len() implies 0 <= #[trigger] front[j] < n by {
                    assert(front[j] == nexts@[j]);
                }
                lemma_brought_to(ops@, leaders@, seed@, popped, out@, front, from as int);
                lemma_brought_weight(leaders@, seed@, mid, out@, next[k as int]);
                assert(mid.known[nexts@[k as int] as int] is Some ==> mid.known[nexts@[k as int]
                    as int]->0.len() == seed@.len());
                assert(next.take(k + 1).drop_last() =~= front);
            }
            bring(&mut entry, &mut work, &out, nexts[k]);
            k = k + 1;
        }
        proof {
            assert(next.take(next.len() as int) =~= next);
            assert(advanced(ops@, leaders@, s) == Some(state(entry@, work@)));
            lemma_advanced(ops@, leaders@, seed@, s);
            assert(searched(ops@, leaders@, seed@, ran + 1) == Some(state(entry@, work@)));
            ran = ran + 1;
        }
    }
    assert(ends_after(ops@, leaders@, seed@, known(entry@), ran));
    Some(entry)
}

} // verus!
