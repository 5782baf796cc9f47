//! Where the int analysis accepts a method, raw ints do for it.
//!
//! Beside the interpreter on raw ints stands one on value words, which gets stuck when an op
//! uses a word that is no int. On a method that the analysis accepts it never does, and the two
//! return the same.

use crate::analysis;
use crate::analysis::Marks;
use crate::flow;
use crate::flow::Rank;
use crate::lower::agree;
use crate::lower::blocks;
use crate::lower::encode::Part;
use crate::lower::linear;
use crate::lower::machine::Val;
use crate::lower::module;
use crate::lower::op;
use crate::lower::op::JitOp;
use crate::lower::wasm::{Target, VALUE_INT_MARK};
use crate::reference;
use crate::reference::{Frame, Step};
use vstd::prelude::*;

verus! {

/// A method under way, with value words as operands.
#[verifier::ext_equal]
pub struct Words {
    pub pc: int,
    pub locals: Seq<u64>,
    pub stack: Seq<u64>,
}

/// What one op on words leads to.
pub enum Move {
    Next(Words),
    Returned(u64),
    Stuck,
}

/// The word holds an int.
pub open spec fn is_int(word: u64) -> bool {
    word == linear::int_word(reference::int_of(word))
}

/// How many operands an op uses as ints.
pub open spec fn int_operands(o: JitOp) -> nat {
    match o {
        JitOp::AddI => 2,
        JitOp::SubtractI => 2,
        JitOp::MultiplyI => 2,
        JitOp::LessThan => 2,
        JitOp::LessEquals => 2,
        JitOp::GreaterThan => 2,
        JitOp::GreaterEquals => 2,
        JitOp::Equals => 2,
        JitOp::IfLt(_) => 2,
        JitOp::IfGe(_) => 2,
        JitOp::IncrementI => 1,
        JitOp::DecrementI => 1,
        JitOp::IfTrue(_) => 1,
        JitOp::IfFalse(_) => 1,
        JitOp::ReturnValue => 1,
        _ => 0,
    }
}

/// The op uses nothing as an int that is none.
pub open spec fn uses_ints(o: JitOp, f: Words) -> bool {
    &&& f.stack.len() >= int_operands(o)
    &&& forall|k: int|
        f.stack.len() - int_operands(o) <= k < f.stack.len() ==> is_int(#[trigger] f.stack[k])
    &&& o matches JitOp::IncLocalI(i) ==> i < f.locals.len() && is_int(f.locals[i as int])
    &&& o matches JitOp::DecLocalI(i) ==> i < f.locals.len() && is_int(f.locals[i as int])
}

impl Words {
    pub open spec fn on(self, stack: Seq<u64>) -> Move {
        Move::Next(Words { pc: self.pc + 1, stack, ..self })
    }

    pub open spec fn with_local(self, i: u32, word: u64, stack: Seq<u64>) -> Move {
        Move::Next(
            Words { pc: self.pc + 1, locals: self.locals.update(i as int, word), stack },
        )
    }

    pub open spec fn branch(self, taken: bool, t: usize, stack: Seq<u64>) -> Move {
        Move::Next(
            Words {
                pc: if taken {
                    t as int
                } else {
                    self.pc + 1
                },
                stack,
                ..self
            },
        )
    }

    /// The int of the `k`th operand from the top.
    pub open spec fn top(self, k: int) -> i32 {
        reference::int_of(self.stack[self.stack.len() - k])
    }
}

/// One op on words. A comparison gives the int 1 or 0.
pub open spec fn word_step(ops: Seq<JitOp>, f: Words) -> Move {
    let n = f.stack.len();
    if !(0 <= f.pc < ops.len()) || !uses_ints(ops[f.pc], f) {
        Move::Stuck
    } else {
        match ops[f.pc] {
            JitOp::GetLocal(i) => if i < f.locals.len() {
                f.on(f.stack.push(f.locals[i as int]))
            } else {
                Move::Stuck
            },
            JitOp::SetLocal(i) => if n >= 1 && i < f.locals.len() {
                f.with_local(i, f.stack.last(), f.stack.drop_last())
            } else {
                Move::Stuck
            },
            JitOp::PushInt(v) => f.on(f.stack.push(linear::int_word(v))),
            JitOp::IncLocalI(i) => f.with_local(
                i,
                linear::int_word(reference::int_of(f.locals[i as int]).wrapping_add(1)),
                f.stack,
            ),
            JitOp::DecLocalI(i) => f.with_local(
                i,
                linear::int_word(reference::int_of(f.locals[i as int]).wrapping_sub(1)),
                f.stack,
            ),
            JitOp::Pop => if n >= 1 {
                f.on(f.stack.drop_last())
            } else {
                Move::Stuck
            },
            JitOp::Dup => if n >= 1 {
                f.on(f.stack.push(f.stack.last()))
            } else {
                Move::Stuck
            },
            JitOp::Nop => f.on(f.stack),
            JitOp::Jump(t) => f.branch(true, t, f.stack),
            JitOp::ReturnValue => Move::Returned(f.stack.last()),
            o => if reference::unary(o, f.top(1)) is Some {
                f.on(f.stack.drop_last().push(linear::int_word(reference::unary(o, f.top(1))->0)))
            } else if reference::takes_one(o, f.top(1)) is Some {
                let (taken, t) = reference::takes_one(o, f.top(1))->0;
                f.branch(taken, t, f.stack.drop_last())
            } else if reference::binary(o, f.top(2), f.top(1)) is Some {
                f.on(
                    f.stack.take(n - 2).push(
                        linear::int_word(reference::binary(o, f.top(2), f.top(1))->0),
                    ),
                )
            } else if reference::takes_two(o, f.top(2), f.top(1)) is Some {
                let (taken, t) = reference::takes_two(o, f.top(2), f.top(1))->0;
                f.branch(taken, t, f.stack.take(n - 2))
            } else {
                Move::Stuck
            },
        }
    }
}

/// What the method returns within `fuel` ops; `None` if it is not done by then, or gets stuck.
pub open spec fn word_result(ops: Seq<JitOp>, f: Words, fuel: nat) -> Option<u64>
    decreases fuel,
{
    if fuel == 0 {
        None
    } else {
        match word_step(ops, f) {
            Move::Returned(v) => Some(v),
            Move::Next(g) => word_result(ops, g, (fuel - 1) as nat),
            Move::Stuck => None,
        }
    }
}

/// The start of a method.
pub open spec fn word_start(regs: Seq<u64>) -> Words {
    Words { pc: 0, locals: regs, stack: Seq::empty() }
}

/// Boxing an int keeps it.
proof fn lemma_int_word(v: i32)
    ensures
        reference::int_of(linear::int_word(v)) == v,
        is_int(linear::int_word(v)),
{
    let mark: u64 = VALUE_INT_MARK;
    assert((mark | (v as u32 as u64)) as u32 as i32 == v) by (bit_vector)
        requires
            mark == 0xfffb_0000_0000_0000u64,
    ;
}

/// The two runs are at the same place, with the same ints. The top operands and the locals that
/// are marked hold ints.
spec fn alike(f: Frame, w: Words, s: Marks) -> bool {
    &&& f.pc == w.pc
    &&& f.locals.len() == w.locals.len()
    &&& f.stack.len() == w.stack.len()
    &&& s.locals.len() <= w.locals.len()
    &&& s.stack.len() <= w.stack.len()
    &&& forall|i: int|
        0 <= i < w.locals.len() ==> reference::int_of(f.locals[i]) == reference::int_of(
            #[trigger] w.locals[i],
        )
    &&& forall|k: int|
        0 <= k < w.stack.len() ==> f.stack[k] == reference::int_of(#[trigger] w.stack[k])
    &&& forall|i: int| 0 <= i < s.locals.len() && #[trigger] s.locals[i] ==> is_int(w.locals[i])
    &&& forall|k: int|
        0 <= k < s.stack.len() && #[trigger] s.stack[k] ==> is_int(
            w.stack[w.stack.len() - s.stack.len() + k],
        )
}

/// An op that the analysis accepts does the same on raw ints as on words.
#[verifier::rlimit(40)]
proof fn lemma_step_alike(ops: Seq<JitOp>, f: Frame, w: Words, s: Marks)
    requires
        0 <= f.pc < ops.len(),
        alike(f, w, s),
        analysis::int_step(ops[f.pc], s) is Some,
    ensures
        match (reference::step(ops, f), word_step(ops, w)) {
            (Step::Returned(a), Move::Returned(b)) => a == b && ops[f.pc] is ReturnValue,
            (Step::Next(f2), Move::Next(w2)) => alike(
                f2,
                w2,
                analysis::int_step(ops[f.pc], s)->0,
            ) && (f2.pc == f.pc + 1 || op::branch_target(ops[f.pc]) == Some(f2.pc as usize) && 0
                <= f2.pc <= usize::MAX) && (ops[f.pc] is Jump ==> op::branch_target(ops[f.pc])
                == Some(f2.pc as usize) && 0 <= f2.pc <= usize::MAX) && !(ops[f.pc] is ReturnValue),
            _ => false,
        },
{
    let o = ops[f.pc];
    let s2 = analysis::int_step(o, s)->0;
    let n = w.stack.len();
    let d = n - s.stack.len();
    assert(uses_ints(o, w)) by {
        assert forall|k: int| n - int_operands(o) <= k < n implies is_int(#[trigger] w.stack[k]) by {
            assert(s.takes(int_operands(o)));
            assert(s.stack[k - d]);
            assert(is_int(w.stack[d + (k - d)]));
        }
    }
    assert(int_operands(o) >= 1 ==> f.stack[n - 1] == w.top(1));
    assert(int_operands(o) >= 2 ==> f.stack[n - 2] == w.top(2));
    match (reference::step(ops, f), word_step(ops, w)) {
        (Step::Returned(a), Move::Returned(b)) => {
            assert(is_int(w.stack[n - 1]));
        },
        (Step::Next(f2), Move::Next(w2)) => {
            match o {
                JitOp::PushInt(v) => {
                    lemma_int_word(v);
                },
                JitOp::SetLocal(i) => {
                    lemma_int_word(f.stack[n - 1]);
                    if s.stack.last() {
                        assert(is_int(w.stack[d + (s.stack.len() - 1)]));
                    }
                },
                JitOp::GetLocal(i) => {
                    if s.locals[i as int] {
                        assert(is_int(w.locals[i as int]));
                    }
                },
                JitOp::Dup => {
                    if s.stack.last() {
                        assert(is_int(w.stack[d + (s.stack.len() - 1)]));
                    }
                },
                JitOp::IncLocalI(i) => {
                    assert(reference::int_of(f.locals[i as int]) == reference::int_of(
                        w.locals[i as int],
                    ));
                    lemma_int_word(reference::int_of(w.locals[i as int]).wrapping_add(1));
                },
                JitOp::DecLocalI(i) => {
                    assert(reference::int_of(f.locals[i as int]) == reference::int_of(
                        w.locals[i as int],
                    ));
                    lemma_int_word(reference::int_of(w.locals[i as int]).wrapping_sub(1));
                },
                _ => {
                    if int_operands(o) == 1 && reference::unary(o, w.top(1)) is Some {
                        lemma_int_word(reference::unary(o, w.top(1))->0);
                    }
                    if int_operands(o) == 2 && reference::binary(o, w.top(2), w.top(1)) is Some {
                        lemma_int_word(reference::binary(o, w.top(2), w.top(1))->0);
                    }
                },
            }
            assert forall|k: int| 0 <= k < w2.stack.len() implies f2.stack[k] == reference::int_of(
                #[trigger] w2.stack[k],
            ) by {
                if k < n {
                    assert(f.stack[k] == reference::int_of(w.stack[k]));
                }
            }
            assert forall|k: int| 0 <= k < s2.stack.len() && #[trigger] s2.stack[k] implies is_int(
                w2.stack[w2.stack.len() - s2.stack.len() + k],
            ) by {
                if k < s.stack.len() && s.stack[k] {
                    assert(is_int(w.stack[d + k]));
                }
            }
            assert forall|i: int| 0 <= i < w2.locals.len() implies reference::int_of(f2.locals[i])
                == reference::int_of(#[trigger] w2.locals[i]) by {
                assert(reference::int_of(f.locals[i]) == reference::int_of(w.locals[i]));
            }
            assert forall|i: int| 0 <= i < s2.locals.len() && #[trigger] s2.locals[i] implies is_int(
                w2.locals[i],
            ) by {
                if s.locals[i] {
                    assert(is_int(w.locals[i]));
                }
            }
        },
        _ => {},
    }
}

/// A run that can be gone through can be gone through to any place in it.
proof fn lemma_run_so_far(block: Seq<JitOp>, k: int, s: Marks)
    requires
        0 <= k < block.len(),
        analysis::int_run(block, s) is Some,
    ensures
        analysis::int_run(block.take(k), s) is Some,
        analysis::int_run(block.take(k + 1), s) == analysis::int_step(
            block[k],
            analysis::int_run(block.take(k), s)->0,
        ),
        analysis::int_run(block.take(k + 1), s) is Some,
    decreases block.len(),
{
    assert(block.take(k + 1).drop_last() =~= block.take(k));
    if k + 1 == block.len() {
        assert(block.take(k + 1) =~= block);
    } else {
        let front = block.drop_last();
        lemma_run_so_far(front, k, s);
        assert(front.take(k) =~= block.take(k));
        assert(front.take(k + 1) =~= block.take(k + 1));
    }
}

/// What is known of the operands and locals at op `i` of block `b`.
spec fn marks_at(
    ops: Seq<JitOp>,
    leaders: Seq<usize>,
    e: Seq<Option<Seq<bool>>>,
    b: int,
    i: int,
) -> Option<Marks> {
    analysis::int_run(
        flow::block_ops(ops, leaders, b).take(i - leaders[b]),
        Marks { locals: e[b]->0, stack: Seq::empty() },
    )
}

/// Op `f.pc`, which is in block `b`, is come to with what is known there.
spec fn comes_by(
    ops: Seq<JitOp>,
    leaders: Seq<usize>,
    e: Seq<Option<Seq<bool>>>,
    b: int,
    f: Frame,
    w: Words,
) -> bool {
    &&& 0 <= b < leaders.len()
    &&& e[b] is Some
    &&& leaders[b] <= f.pc < blocks::block_end(leaders, ops.len(), b)
    &&& marks_at(ops, leaders, e, b, f.pc) matches Some(s) && alike(f, w, s)
}

/// Where a block is entered that knows no more than `out`, the runs are alike there.
proof fn lemma_enters(
    ops: Seq<JitOp>,
    leaders: Seq<usize>,
    e: Seq<Option<Seq<bool>>>,
    b: int,
    out: Seq<bool>,
    f: Frame,
    w: Words,
    s: Marks,
)
    requires
        alike(f, w, s),
        s.locals == out,
        0 <= b < leaders.len(),
        e[b] is Some,
        flow::below(e[b]->0, out),
        f.pc == leaders[b],
        f.pc < blocks::block_end(leaders, ops.len(), b),
    ensures
        comes_by(ops, leaders, e, b, f, w),
{
    let here = Marks { locals: e[b]->0, stack: Seq::empty() };
    let none = flow::block_ops(ops, leaders, b).take(0);
    assert(none =~= Seq::empty());
    assert(marks_at(ops, leaders, e, b, f.pc) == Some(here));
    assert forall|i: int| 0 <= i < here.locals.len() && #[trigger] here.locals[i] implies is_int(
        w.locals[i],
    ) by {
        assert(here.locals[i].rank() <= out[i].rank());
        assert(s.locals[i]);
    }
}

/// Inside a block no op starts another.
proof fn lemma_no_leader_inside(leaders: Seq<usize>, n: nat, b: int, i: int)
    requires
        blocks::increasing(leaders),
        0 <= b < leaders.len(),
        leaders[b] < i < blocks::block_end(leaders, n, b),
        i < n <= usize::MAX,
    ensures
        !leaders.contains(i as usize),
{
    if leaders.contains(i as usize) {
        let k = choose|k: int| 0 <= k < leaders.len() && leaders[k] == i as usize;
        if k <= b {
            assert(k == b || leaders[k] < leaders[b]);
        } else if k > b + 1 {
            assert(leaders[b + 1] < leaders[k]);
        }
    }
}

/// Behind the last op of a block another one is entered.
#[verifier::rlimit(60)]
proof fn lemma_next_block(
    ops: Seq<JitOp>,
    seed: Seq<bool>,
    e: Seq<Option<Seq<bool>>>,
    b: int,
    i: int,
    f2: Frame,
    w2: Words,
    s2: Marks,
) -> (next: int)
    requires
        ops.len() <= usize::MAX,
        blocks::targets_ok(ops, Seq::empty(), Seq::empty()),
        flow::closed(ops, blocks::leaders_of(ops, Seq::empty(), Seq::empty()), seed, e),
        0 <= b < blocks::leaders_of(ops, Seq::empty(), Seq::empty()).len(),
        e[b] is Some,
        blocks::leaders_of(ops, Seq::empty(), Seq::empty())[b] <= i < blocks::block_end(
            blocks::leaders_of(ops, Seq::empty(), Seq::empty()),
            ops.len(),
            b,
        ),
        marks_at(
            ops,
            blocks::leaders_of(ops, Seq::empty(), Seq::empty()),
            e,
            b,
            i + 1,
        ) == Some(s2),
        alike(f2, w2, s2),
        0 <= f2.pc < ops.len(),
        f2.pc == i + 1 && f2.pc == blocks::block_end(
            blocks::leaders_of(ops, Seq::empty(), Seq::empty()),
            ops.len(),
            b,
        ) && !op::is_return(ops[i]) && !(ops[i] is Throw) && !(ops[i] is LookupSwitch) && !(
        ops[i] is Jump) || op::branch_target(ops[i]) == Some(f2.pc as usize),
    ensures
        comes_by(
            ops,
            blocks::leaders_of(ops, Seq::empty(), Seq::empty()),
            e,
            next,
            f2,
            w2,
        ),
{
    let leaders = blocks::leaders_of(ops, Seq::empty(), Seq::empty());
    blocks::leaders_are_the_block_starts(ops, Seq::empty(), Seq::empty());
    let end = blocks::block_end(leaders, ops.len(), b);
    if b + 1 < leaders.len() {
        assert(leaders[b + 1] < blocks::places(ops));
    }
    assert(end <= ops.len());
    let t = f2.pc as usize;
    if op::branch_target(ops[i]) == Some(t) {
        assert(blocks::jumps_to(ops, Seq::empty(), i, t));
        assert(blocks::is_leader(ops, Seq::empty(), Seq::empty(), t));
        assert(leaders.contains(t));
        if i + 1 < end {
            assert(op::ends_block(ops[i]));
            assert(blocks::is_leader(ops, Seq::empty(), Seq::empty(), (i + 1) as usize));
            lemma_no_leader_inside(leaders, ops.len(), b, i + 1);
        }
    }
    assert(i + 1 == end);
    let block = flow::block_ops(ops, leaders, b);
    assert(block.take(i + 1 - leaders[b]) =~= block);
    assert(flow::flows(ops, leaders, e, b));
    let out = s2.locals;
    let succs = flow::succs(ops, leaders, b);
    let next = if op::branch_target(ops[i]) == Some(t) {
        leaders.index_of(t)
    } else {
        b + 1
    };
    if op::branch_target(ops[i]) == Some(t) {
        assert(succs[0] == next);
        assert(e[succs[0]] is Some && flow::below(e[succs[0]]->0, out));
    } else {
        assert(succs.last() == b + 1);
        assert(e[succs[succs.len() - 1]] is Some && flow::below(e[succs[succs.len() - 1]]->0, out));
    }
    if next + 1 < leaders.len() {
        assert(leaders[next] < leaders[next + 1]);
    }
    lemma_enters(ops, leaders, e, next, out, f2, w2, s2);
    next
}

/// From any op on, the two runs return the same.
proof fn lemma_runs_agree(
    ops: Seq<JitOp>,
    seed: Seq<bool>,
    e: Seq<Option<Seq<bool>>>,
    b: int,
    f: Frame,
    w: Words,
    fuel: nat,
)
    requires
        ops.len() <= usize::MAX,
        blocks::targets_ok(ops, Seq::empty(), Seq::empty()),
        flow::closed(ops, blocks::leaders_of(ops, Seq::empty(), Seq::empty()), seed, e),
        comes_by(ops, blocks::leaders_of(ops, Seq::empty(), Seq::empty()), e, b, f, w),
    ensures
        reference::result(ops, f, fuel) == word_result(ops, w, fuel),
    decreases fuel,
{
    if fuel > 0 {
        let leaders = blocks::leaders_of(ops, Seq::empty(), Seq::empty());
        blocks::leaders_are_the_block_starts(ops, Seq::empty(), Seq::empty());
        let i = f.pc;
        let end = blocks::block_end(leaders, ops.len(), b);
        let block = flow::block_ops(ops, leaders, b);
        let begin = Marks { locals: e[b]->0, stack: Seq::empty() };
        let less = (fuel - 1) as nat;
        assert(flow::flows(ops, leaders, e, b));
        if b + 1 < leaders.len() {
            assert(leaders[b] < leaders[b + 1]);
            assert(leaders[b + 1] < blocks::places(ops));
        }
        assert(end <= ops.len());
        lemma_run_so_far(block, i - leaders[b], begin);
        assert(block[i - leaders[b]] == ops[i]);
        let s = marks_at(ops, leaders, e, b, i)->0;
        let s2 = analysis::int_step(ops[i], s)->0;
        lemma_step_alike(ops, f, w, s);
        if let (Step::Next(f2), Move::Next(w2)) = (reference::step(ops, f), word_step(ops, w)) {
            assert(marks_at(ops, leaders, e, b, i + 1) == Some(s2));
            if f2.pc == i + 1 && i + 1 < end {
                lemma_runs_agree(ops, seed, e, b, f2, w2, less);
            } else if f2.pc == ops.len() {
                assert(reference::result(ops, f2, less) == word_result(ops, w2, less)) by {
                    if less > 0 {
                        assert(reference::step(ops, f2) is Stuck);
                        assert(word_step(ops, w2) is Stuck);
                    }
                }
            } else {
                let next = lemma_next_block(ops, seed, e, b, i, f2, w2, s2);
                lemma_runs_agree(ops, seed, e, next, f2, w2, less);
            }
        }
    }
}

/// On a method that the analysis accepts, for locals of which those that it was told to be ints
/// are ints, raw ints return just what words return, which would get stuck at the first use of a
/// word that is no int.
pub proof fn raw_ints_are_faithful(ops: Seq<JitOp>, entry: Seq<bool>, regs: Seq<u64>, fuel: nat)
    requires
        ops.len() <= usize::MAX,
        analysis::ints_hold(ops, entry),
        entry.len() <= regs.len(),
        forall|i: int| 0 <= i < entry.len() && #[trigger] entry[i] ==> is_int(regs[i]),
    ensures
        reference::result(ops, reference::start(regs), fuel) == word_result(
            ops,
            word_start(regs),
            fuel,
        ),
{
    let leaders = blocks::leaders_of(ops, Seq::empty(), Seq::empty());
    blocks::leaders_are_the_block_starts(ops, Seq::empty(), Seq::empty());
    let e = choose|e: Seq<Option<Seq<bool>>>| flow::closed(ops, leaders, entry, e);
    let f = reference::start(regs);
    let w = word_start(regs);
    if ops.len() == 0 {
        if fuel > 0 {
            assert(reference::step(ops, f) is Stuck);
            assert(word_step(ops, w) is Stuck);
        }
    } else {
        let s = Marks { locals: entry, stack: Seq::empty() };
        assert(alike(f, w, s));
        if leaders.len() > 1 {
            assert(leaders[0] < leaders[1]);
        }
        lemma_enters(ops, leaders, e, 0, entry, f, w, s);
        lemma_runs_agree(ops, entry, e, 0, f, w, fuel);
    }
}

/// The module that such a method compiles to returns what the method returns on words, on either
/// kind of host.
pub proof fn compiled_ints_are_faithful(
    ops: Seq<JitOp>,
    entry: Seq<bool>,
    target: Target,
    regs: Seq<u64>,
    fuel: nat,
    params: Seq<Val>,
    memory: Seq<u8>,
    outer: Seq<u8>,
)
    requires
        analysis::ints_hold(ops, entry),
        entry.len() <= regs.len(),
        forall|i: int| 0 <= i < entry.len() && #[trigger] entry[i] ==> is_int(regs[i]),
        forall|i: int| 0 <= i < ops.len() ==> agree::is_int_op(#[trigger] ops[i]),
        module::module_parts(ops, Seq::empty(), Seq::empty(), target) is Some,
        word_result(ops, word_start(regs), fuel) is Some,
        agree::called_on(target, params, memory, outer, regs),
    ensures
        ({
            let parts = module::module_parts(ops, Seq::empty(), Seq::empty(), target)->0;
            &&& parts[4] matches Part::Code(bodies) && bodies.len() == 1 && agree::answers(
                bodies[0],
                params,
                memory,
                outer,
                fuel,
                word_result(ops, word_start(regs), fuel)->0,
            )
        }),
{
    raw_ints_are_faithful(ops, entry, regs, fuel);
    agree::compiled_module_agrees(ops, target, regs, fuel, params, memory, outer);
}

} // verus!
