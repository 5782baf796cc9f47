//! Whether the lowerings on raw numbers are faithful to a method.
//!
//! The int model loads every local as a 32-bit int and boxes results as ints. That is right
//! only where each value that is used as an int is one. One bit per local, "is an int", is
//! propagated over the method; values that are loaded and dropped ask for nothing. The double
//! model is the same for `Number`s, on straight-line code.

use crate::flow;
use crate::flow::{solve, Fact, Monotone, Rank};
use crate::lower::blocks;
use crate::lower::op::JitOp;
use vstd::prelude::*;

verus! {

impl Rank for bool {
    open spec fn rank(self) -> nat {
        if self {
            1
        } else {
            0
        }
    }

    open spec fn height() -> nat {
        1
    }

    proof fn rank_fits(self) {
    }

    proof fn rank_tells(self, other: Self) {
    }

    fn meet(self, other: bool) -> (r: bool) {
        self && other
    }

    fn same(self, other: bool) -> (r: bool) {
        self == other
    }
}

/// Which locals and operands are ints.
#[verifier::ext_equal]
pub struct Marks {
    pub locals: Seq<bool>,
    pub stack: Seq<bool>,
}

impl Marks {
    /// `n` operands off, all of them ints.
    pub open spec fn takes(self, n: nat) -> bool {
        self.stack.len() >= n && forall|k: int|
            self.stack.len() - n <= k < self.stack.len() ==> #[trigger] self.stack[k]
    }

    /// `n` operands replaced by one more if `push`, which is an int.
    pub open spec fn gives(self, n: nat, push: bool) -> Marks {
        let rest = self.stack.take(self.stack.len() - n);
        Marks {
            stack: if push {
                rest.push(true)
            } else {
                rest
            },
            ..self
        }
    }

    pub open spec fn uses(self, n: nat, push: bool) -> Option<Marks> {
        if self.takes(n) {
            Some(self.gives(n, push))
        } else {
            None
        }
    }
}

/// One op of the int model; `None` if it uses a value that is not known to be an int, finds
/// too few operands, or is not of the model.
pub open spec fn int_step(op: JitOp, s: Marks) -> Option<Marks> {
    match op {
        JitOp::GetLocal(i) => if i < s.locals.len() {
            Some(Marks { stack: s.stack.push(s.locals[i as int]), ..s })
        } else {
            None
        },
        JitOp::SetLocal(i) => if s.stack.len() > 0 && i < s.locals.len() {
            Some(
                Marks {
                    locals: s.locals.update(i as int, s.stack.last()),
                    stack: s.stack.drop_last(),
                },
            )
        } else {
            None
        },
        JitOp::PushInt(_) => s.uses(0, true),
        JitOp::AddI => s.uses(2, true),
        JitOp::SubtractI => s.uses(2, true),
        JitOp::MultiplyI => s.uses(2, true),
        JitOp::LessThan => s.uses(2, true),
        JitOp::LessEquals => s.uses(2, true),
        JitOp::GreaterThan => s.uses(2, true),
        JitOp::GreaterEquals => s.uses(2, true),
        JitOp::Equals => s.uses(2, true),
        JitOp::IncrementI => s.uses(1, true),
        JitOp::DecrementI => s.uses(1, true),
        JitOp::IncLocalI(i) => if i < s.locals.len() && s.locals[i as int] {
            Some(s)
        } else {
            None
        },
        JitOp::DecLocalI(i) => if i < s.locals.len() && s.locals[i as int] {
            Some(s)
        } else {
            None
        },
        JitOp::Pop => if s.stack.len() > 0 {
            Some(Marks { stack: s.stack.drop_last(), ..s })
        } else {
            None
        },
        JitOp::Dup => if s.stack.len() > 0 {
            Some(Marks { stack: s.stack.push(s.stack.last()), ..s })
        } else {
            None
        },
        JitOp::Nop => Some(s),
        JitOp::Jump(_) => Some(s),
        JitOp::IfTrue(_) => s.uses(1, false),
        JitOp::IfFalse(_) => s.uses(1, false),
        JitOp::IfLt(_) => s.uses(2, false),
        JitOp::IfGe(_) => s.uses(2, false),
        JitOp::ReturnValue => s.uses(1, false),
        _ => None,
    }
}

/// A run of ops of the int model.
pub open spec fn int_run(block: Seq<JitOp>, s: Marks) -> Option<Marks>
    decreases block.len(),
{
    if block.len() == 0 {
        Some(s)
    } else {
        match int_run(block.drop_last(), s) {
            Some(s) => int_step(block.last(), s),
            None => None,
        }
    }
}

/// A block of the int model, from an empty operand stack.
pub open spec fn int_block(block: Seq<JitOp>, locals: Seq<bool>) -> Option<Seq<bool>> {
    match int_run(block, Marks { locals, stack: Seq::empty() }) {
        Some(s) => Some(s.locals),
        None => None,
    }
}

/// Takes `n` operands, all of them marked, and gives a marked one if `push`.
fn use_marked(stack: &mut Vec<bool>, n: usize, push: bool, Ghost(locals): Ghost<Seq<bool>>) -> (r: bool)
    ensures
        match (Marks { locals, stack: old(stack)@ }).uses(n as nat, push) {
            Some(s) => r && final(stack)@ == s.stack && s.locals == locals,
            None => !r,
        },
{
    if stack.len() < n {
        return false;
    }
    let mut k: usize = 0;
    while k < n
        invariant
            k <= n <= old(stack)@.len(),
            stack@ == old(stack)@.take(old(stack)@.len() - k),
            forall|j: int|
                old(stack)@.len() - k <= j < old(stack)@.len() ==> #[trigger] old(stack)@[j],
        decreases n - k,
    {
        match stack.pop() {
            Some(v) => {
                assert(v == old(stack)@[old(stack)@.len() - k - 1]);
                if !v {
                    return false;
                }
            },
            None => {
                return false;
            },
        }
        k = k + 1;
    }
    if push {
        stack.push(true);
    }
    true
}

fn int_op(op: JitOp, locals: &mut Vec<bool>, stack: &mut Vec<bool>) -> (r: bool)
    ensures
        match int_step(op, Marks { locals: old(locals)@, stack: old(stack)@ }) {
            Some(s) => r && s == (Marks { locals: final(locals)@, stack: final(stack)@ }),
            None => !r,
        },
{
    match op {
        JitOp::GetLocal(i) => {
            if i as usize >= locals.len() {
                return false;
            }
            stack.push(locals[i as usize]);
            true
        },
        JitOp::SetLocal(i) => {
            if i as usize >= locals.len() {
                return false;
            }
            match stack.pop() {
                Some(v) => {
                    locals.set(i as usize, v);
                    true
                },
                None => false,
            }
        },
        JitOp::PushInt(_) => use_marked(stack, 0, true, Ghost(locals@)),
        JitOp::AddI | JitOp::SubtractI | JitOp::MultiplyI | JitOp::LessThan | JitOp::LessEquals
        | JitOp::GreaterThan | JitOp::GreaterEquals | JitOp::Equals => use_marked(
            stack,
            2,
            true,
            Ghost(locals@),
        ),
        JitOp::IncrementI | JitOp::DecrementI => use_marked(stack, 1, true, Ghost(locals@)),
        JitOp::IncLocalI(i) | JitOp::DecLocalI(i) => (i as usize) < locals.len()
            && locals[i as usize],
        JitOp::Pop => match stack.pop() {
            Some(_) => true,
            None => false,
        },
        JitOp::Dup => {
            if stack.len() == 0 {
                return false;
            }
            let top = stack[stack.len() - 1];
            stack.push(top);
            true
        },
        JitOp::Nop | JitOp::Jump(_) => true,
        JitOp::IfTrue(_) | JitOp::IfFalse(_) | JitOp::ReturnValue => use_marked(
            stack,
            1,
            false,
            Ghost(locals@),
        ),
        JitOp::IfLt(_) | JitOp::IfGe(_) => use_marked(stack, 2, false, Ghost(locals@)),
        _ => false,
    }
}

proof fn lemma_int_run_refuses(block: Seq<JitOp>, k: int, s: Marks)
    requires
        0 <= k <= block.len(),
        int_run(block.take(k), s) is None,
    ensures
        int_run(block, s) is None,
    decreases block.len(),
{
    if k < block.len() {
        assert(block.drop_last().take(k) =~= block.take(k));
        lemma_int_run_refuses(block.drop_last(), k, s);
    } else {
        assert(block.take(k) =~= block);
    }
}

/// Runs one basic block of the int model from an empty operand stack: which locals are ints
/// after it, or `None` if the block is not sound.
pub fn simulate_block(block: &[JitOp], locals: Vec<bool>) -> (r: Option<Vec<bool>>)
    ensures
        match int_block(block@, locals@) {
            Some(out) => r matches Some(v) && v@ == out,
            None => r is None,
        },
{
    let ghost start = Marks { locals: locals@, stack: Seq::empty() };
    let mut now = locals;
    let mut stack: Vec<bool> = Vec::new();
    let mut k: usize = 0;
    assert(block@.take(0) =~= Seq::empty());
    while k < block.len()
        invariant
            k <= block@.len(),
            start == (Marks { locals: locals@, stack: Seq::empty() }),
            int_run(block@.take(k as int), start) == Some(Marks { locals: now@, stack: stack@ }),
        decreases block@.len() - k,
    {
        assert(block@.take(k + 1).drop_last() =~= block@.take(k as int));
        if !int_op(block[k], &mut now, &mut stack) {
            proof {
                lemma_int_run_refuses(block@, k + 1, start);
            }
            return None;
        }
        k = k + 1;
    }
    assert(block@.take(k as int) =~= block@);
    Some(now)
}

spec fn marks_below(less: Marks, more: Marks) -> bool {
    flow::below(less.locals, more.locals) && flow::below(less.stack, more.stack)
}

proof fn lemma_step_monotone(op: JitOp, less: Marks, more: Marks)
    requires
        marks_below(less, more),
        int_step(op, less) is Some,
    ensures
        int_step(op, more) is Some,
        marks_below(int_step(op, less)->0, int_step(op, more)->0),
        (int_step(op, less)->0).locals.len() == less.locals.len(),
{
    assert forall|i: int| 0 <= i < less.stack.len() && less.stack[i] implies #[trigger] more.stack[i] by {
        assert(less.stack[i].rank() <= more.stack[i].rank());
    }
    assert forall|i: int|
        0 <= i < less.locals.len() && less.locals[i] implies #[trigger] more.locals[i] by {
        assert(less.locals[i].rank() <= more.locals[i].rank());
    }
    assert forall|n: nat| #[trigger] less.takes(n) implies more.takes(n) by {}
    assert(int_step(op, more) is Some);
    let a = int_step(op, less)->0;
    let b = int_step(op, more)->0;
    assert forall|i: int| 0 <= i < a.stack.len() implies (#[trigger] a.stack[i]).rank()
        <= b.stack[i].rank() by {
        if i < less.stack.len() {
            assert(less.stack[i].rank() <= more.stack[i].rank());
        }
    }
    assert forall|i: int| 0 <= i < a.locals.len() implies (#[trigger] a.locals[i]).rank()
        <= b.locals[i].rank() by {
        assert(less.locals[i].rank() <= more.locals[i].rank());
    }
}

proof fn lemma_run_monotone(block: Seq<JitOp>, less: Marks, more: Marks)
    requires
        marks_below(less, more),
        int_run(block, less) is Some,
    ensures
        int_run(block, more) is Some,
        marks_below(int_run(block, less)->0, int_run(block, more)->0),
        (int_run(block, less)->0).locals.len() == less.locals.len(),
    decreases block.len(),
{
    if block.len() > 0 {
        let front = block.drop_last();
        lemma_run_monotone(front, less, more);
        lemma_step_monotone(block.last(), int_run(front, less)->0, int_run(front, more)->0);
    }
}

impl Fact for bool {
    open spec fn run(block: Seq<JitOp>, locals: Seq<bool>) -> Option<Seq<bool>> {
        int_block(block, locals)
    }

    open spec fn counts(op: JitOp) -> bool {
        true
    }

    fn simulate(block: &[JitOp], locals: &Vec<bool>) -> (r: Option<Vec<bool>>) {
        let mut copy: Vec<bool> = Vec::new();
        let mut i: usize = 0;
        while i < locals.len()
            invariant
                i <= locals@.len(),
                copy@ == locals@.take(i as int),
            decreases locals@.len() - i,
        {
            copy.push(locals[i]);
            i = i + 1;
        }
        assert(locals@.take(i as int) =~= locals@);
        simulate_block(block, copy)
    }

    proof fn run_keeps_len(block: Seq<JitOp>, locals: Seq<bool>) {
        let s = Marks { locals, stack: Seq::empty() };
        if int_run(block, s) is Some {
            lemma_run_monotone(block, s, s);
        }
    }
}

impl Monotone for bool {
    proof fn run_is_monotone(block: Seq<JitOp>, less: Seq<bool>, more: Seq<bool>) {
        lemma_run_monotone(
            block,
            Marks { locals: less, stack: Seq::empty() },
            Marks { locals: more, stack: Seq::empty() },
        );
    }
}

/// The int model is sound: the branches go to ops, and some choice of ints among the locals
/// at each block, no more than the given ones at the start, makes every use of an int one.
pub open spec fn ints_hold(ops: Seq<JitOp>, entry: Seq<bool>) -> bool {
    &&& blocks::targets_ok(ops, Seq::empty(), Seq::empty())
    &&& flow::solvable(ops, blocks::leaders_of(ops, Seq::empty(), Seq::empty()), entry)
}

/// Whether the lowering of `ops` on raw ints is faithful, given which locals are ints at
/// entry.
pub fn int_sound(ops: &[JitOp], entry_locals_int: &[bool]) -> (r: bool)
    requires
        ops@.len() > 0,
    ensures
        r == ints_hold(ops@, entry_locals_int@),
{
    let leaders = match blocks::basic_block_leaders(ops) {
        Some(leaders) => leaders,
        None => {
            return false;
        },
    };
    let size: usize = ops.len();
    proof {
        assert(ops@.len() == size);
        blocks::leaders_are_the_block_starts(ops@, Seq::empty(), Seq::empty());
        flow::a_search_finds_the_best(ops@, leaders@, entry_locals_int@);
    }
    match solve(ops, &leaders, entry_locals_int) {
        Some(e) => {
            assert(flow::closed(ops@, leaders@, entry_locals_int@, flow::known(e@)));
            true
        },
        None => false,
    }
}

/// One op of the double model, on which locals and operands are `Number`s; `None` if it uses
/// a value that is not known to be one, finds too few operands, or is not of the model.
pub open spec fn double_step(op: JitOp, s: Marks) -> Option<Marks> {
    match op {
        JitOp::GetLocalDouble(i) => if i < s.locals.len() {
            Some(Marks { stack: s.stack.push(s.locals[i as int]), ..s })
        } else {
            None
        },
        JitOp::PushDouble(_) => s.uses(0, true),
        JitOp::SetLocalDouble(i) => if s.takes(1) && i < s.locals.len() {
            Some(
                Marks {
                    locals: s.locals.update(i as int, true),
                    stack: s.stack.drop_last(),
                },
            )
        } else {
            None
        },
        JitOp::StoreLocalDouble(i) => if s.takes(1) && i < s.locals.len() {
            Some(Marks { locals: s.locals.update(i as int, true), ..s })
        } else {
            None
        },
        JitOp::AddD => s.uses(2, true),
        JitOp::SubtractD => s.uses(2, true),
        JitOp::MultiplyD => s.uses(2, true),
        JitOp::DivideD => s.uses(2, true),
        JitOp::IncrementD => s.uses(1, true),
        JitOp::DecrementD => s.uses(1, true),
        JitOp::NegateD => s.uses(1, true),
        JitOp::Pop => if s.stack.len() > 0 {
            Some(Marks { stack: s.stack.drop_last(), ..s })
        } else {
            None
        },
        JitOp::Nop => Some(s),
        JitOp::ReturnDouble => s.uses(1, false),
        _ => None,
    }
}

/// A run of ops of the double model.
pub open spec fn double_run(ops: Seq<JitOp>, s: Marks) -> Option<Marks>
    decreases ops.len(),
{
    if ops.len() == 0 {
        Some(s)
    } else {
        match double_run(ops.drop_last(), s) {
            Some(s) => double_step(ops.last(), s),
            None => None,
        }
    }
}

fn double_op(op: JitOp, locals: &mut Vec<bool>, stack: &mut Vec<bool>) -> (r: bool)
    ensures
        match double_step(op, Marks { locals: old(locals)@, stack: old(stack)@ }) {
            Some(s) => r && s == (Marks { locals: final(locals)@, stack: final(stack)@ }),
            None => !r,
        },
{
    match op {
        JitOp::GetLocalDouble(i) => {
            if i as usize >= locals.len() {
                return false;
            }
            stack.push(locals[i as usize]);
            true
        },
        JitOp::PushDouble(_) => use_marked(stack, 0, true, Ghost(locals@)),
        JitOp::SetLocalDouble(i) => {
            if i as usize >= locals.len() || !use_marked(stack, 1, false, Ghost(locals@)) {
                return false;
            }
            locals.set(i as usize, true);
            true
        },
        JitOp::StoreLocalDouble(i) => {
            if i as usize >= locals.len() || stack.len() == 0 || !stack[stack.len() - 1] {
                return false;
            }
            locals.set(i as usize, true);
            true
        },
        JitOp::AddD | JitOp::SubtractD | JitOp::MultiplyD | JitOp::DivideD => use_marked(
            stack,
            2,
            true,
            Ghost(locals@),
        ),
        JitOp::IncrementD | JitOp::DecrementD | JitOp::NegateD => use_marked(
            stack,
            1,
            true,
            Ghost(locals@),
        ),
        JitOp::Pop => match stack.pop() {
            Some(_) => true,
            None => false,
        },
        JitOp::Nop => true,
        JitOp::ReturnDouble => use_marked(stack, 1, false, Ghost(locals@)),
        _ => false,
    }
}

proof fn lemma_double_run_refuses(ops: Seq<JitOp>, k: int, s: Marks)
    requires
        0 <= k <= ops.len(),
        double_run(ops.take(k), s) is None,
    ensures
        double_run(ops, s) is None,
    decreases ops.len(),
{
    if k < ops.len() {
        assert(ops.drop_last().take(k) =~= ops.take(k));
        lemma_double_run_refuses(ops.drop_last(), k, s);
    } else {
        assert(ops.take(k) =~= ops);
    }
}

/// Whether the lowering of `ops` on raw doubles is faithful, given which locals are `Number`s
/// at entry. Only straight-line methods have one.
pub fn double_sound(ops: &[JitOp], entry_locals_double: &[bool]) -> (r: bool)
    ensures
        r == (double_run(
            ops@,
            Marks { locals: entry_locals_double@, stack: Seq::empty() },
        ) is Some),
{
    let ghost start = Marks { locals: entry_locals_double@, stack: Seq::empty() };
    let mut locals: Vec<bool> = Vec::new();
    let mut i: usize = 0;
    while i < entry_locals_double.len()
        invariant
            i <= entry_locals_double@.len(),
            locals@ == entry_locals_double@.take(i as int),
        decreases entry_locals_double@.len() - i,
    {
        locals.push(entry_locals_double[i]);
        i = i + 1;
    }
    assert(entry_locals_double@.take(i as int) =~= entry_locals_double@);
    let mut stack: Vec<bool> = Vec::new();
    let mut k: usize = 0;
    assert(ops@.take(0) =~= Seq::empty());
    while k < ops.len()
        invariant
            k <= ops@.len(),
            start == (Marks { locals: entry_locals_double@, stack: Seq::empty() }),
            double_run(ops@.take(k as int), start) == Some(
                Marks { locals: locals@, stack: stack@ },
            ),
        decreases ops@.len() - k,
    {
        assert(ops@.take(k + 1).drop_last() =~= ops@.take(k as int));
        if !double_op(ops[k], &mut locals, &mut stack) {
            proof {
                lemma_double_run_refuses(ops@, k + 1, start);
            }
            return false;
        }
        k = k + 1;
    }
    assert(ops@.take(k as int) =~= ops@);
    true
}

} // verus!
