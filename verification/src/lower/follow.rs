//! The code of a method does what the codes of its ops do, one after the other.
//!
//! Lowering gives each op its code, and puts the codes into blocks behind a dispatch loop, with
//! operands carried from block to block in locals. None of that shows: on every engine, the
//! method's code does what one gets by running the code of one op after the other, from op to op
//! as the branches lead.
//!
//! Nothing is asked of the engine but that an instruction works on its operands and on a state of
//! the engine's own: the memories, the host, whatever calls of imports change. What the codes of
//! the ops do is said elsewhere: see [`crate::lower::linear`] and [`crate::lower::fast`]. That they
//! stand alone, so that they can be run one by one, is shown in [`crate::lower::pieces`], where the
//! law itself stands.

use crate::lower::blocks;
use crate::lower::body;
use crate::lower::body::{Ctx, St};
use crate::lower::linear;
use crate::lower::machine;
use crate::lower::machine::{Node, Val};
use crate::lower::manifest;
use crate::lower::manifest::{COERCE_I, COERCE_RETURN, DISPATCH_EXC, POP_CAUGHT, THROW};
use crate::lower::op;
use crate::lower::op::{JitOp, SwitchTable};
use crate::lower::wasm;
use crate::lower::wasm::{
    BlockTy, Cvtop, Instr, Relop, BLOCK, SCRATCH, SCRATCH64, SPILL_BASE, SPILL_POOL, UNDEFINED_BITS,
};
use crate::typed;
use vstd::prelude::*;

verus! {

// Engines.

/// An engine with states `X`: how many operands an instruction takes, and what it makes of them
/// and of the state. `None` if it traps. Of those instructions that the code around the ops is
/// made of, constants, locals, branches and a few others, it is said here what they do.
#[verifier::reject_recursive_types(X)]
pub struct Engine<X> {
    pub takes: spec_fn(Instr) -> nat,
    pub does: spec_fn(Instr, Seq<Val>, X) -> Option<(Seq<Val>, X)>,
}

/// A function under way.
#[verifier::ext_equal]
#[verifier::reject_recursive_types(X)]
pub struct Going<X> {
    pub locals: Seq<Val>,
    pub stack: Seq<Val>,
    pub state: X,
}

/// What running code comes to.
#[verifier::reject_recursive_types(X)]
pub enum Out<X> {
    Next(Going<X>),
    /// A branch to the given label, counted from the inside.
    Branch(nat, Going<X>),
    Returned(Val, X),
    Trap,
    /// The loop has run too often.
    Spent,
}

impl<X> Going<X> {
    pub open spec fn top(self) -> Val {
        self.stack.last()
    }

    /// The operand below the top.
    pub open spec fn below(self) -> Val {
        self.stack[self.stack.len() - 2]
    }

    pub open spec fn popped(self) -> Going<X> {
        Going { stack: self.stack.drop_last(), ..self }
    }

    pub open spec fn pushed(self, v: Val) -> Going<X> {
        Going { stack: self.stack.push(v), ..self }
    }

    pub open spec fn with_local(self, x: u32, v: Val) -> Going<X> {
        Going { locals: self.locals.update(x as int, v), ..self }
    }
}

/// An instruction that works on its operands.
pub open spec fn executed<X>(e: Engine<X>, i: Instr, m: Going<X>) -> Out<X> {
    let k = (e.takes)(i) as int;
    let n = m.stack.len() as int;
    if n < k {
        Out::Trap
    } else {
        match (e.does)(i, m.stack.skip(n - k), m.state) {
            Some((given, state)) => Out::Next(
                Going { stack: m.stack.take(n - k) + given, state, ..m },
            ),
            None => Out::Trap,
        }
    }
}

/// One instruction.
pub open spec fn act<X>(e: Engine<X>, i: Instr, m: Going<X>) -> Out<X> {
    let n = m.stack.len();
    match i {
        Instr::LocalGet(x) => if x < m.locals.len() {
            Out::Next(m.pushed(m.locals[x as int]))
        } else {
            Out::Trap
        },
        Instr::LocalSet(x) => if n >= 1 && x < m.locals.len() {
            Out::Next(m.popped().with_local(x, m.top()))
        } else {
            Out::Trap
        },
        Instr::LocalTee(x) => if n >= 1 && x < m.locals.len() {
            Out::Next(m.with_local(x, m.top()))
        } else {
            Out::Trap
        },
        Instr::I32Const(v) => Out::Next(m.pushed(Val::I32(v))),
        Instr::I64Const(bits) => Out::Next(m.pushed(Val::I64(bits))),
        Instr::Drop => if n >= 1 {
            Out::Next(m.popped())
        } else {
            Out::Trap
        },
        Instr::Rel(Relop::I64Eq) => match (m.below(), m.top()) {
            (Val::I64(a), Val::I64(b)) if n >= 2 => Out::Next(
                m.popped().popped().pushed(machine::bit(a == b)),
            ),
            _ => Out::Trap,
        },
        Instr::Rel(Relop::I64GeS) => match (m.below(), m.top()) {
            (Val::I64(a), Val::I64(b)) if n >= 2 => Out::Next(
                m.popped().popped().pushed(machine::bit(a as i64 >= b as i64)),
            ),
            _ => Out::Trap,
        },
        Instr::Br(l) => Out::Branch(l as nat, m),
        Instr::BrTable(count, default) => match m.top() {
            Val::I32(x) if n >= 1 => if (x as u32) < count {
                Out::Branch((x as u32) as nat, m.popped())
            } else {
                Out::Branch(default as nat, m.popped())
            },
            _ => Out::Trap,
        },
        Instr::Return => if n >= 1 {
            Out::Returned(m.top(), m.state)
        } else {
            Out::Trap
        },
        Instr::Block(_) => Out::Trap,
        Instr::Loop(_) => Out::Trap,
        Instr::If(_) => Out::Trap,
        Instr::Else => Out::Trap,
        Instr::End => Out::Trap,
        _ => executed(e, i, m),
    }
}

/// The end of a block that was entered with the operands `stack`.
pub open spec fn leave<X>(o: Out<X>, stack: Seq<Val>) -> Out<X> {
    match o {
        Out::Branch(l, m) => if l == 0 {
            Out::Next(Going { stack, ..m })
        } else {
            Out::Branch((l - 1) as nat, m)
        },
        _ => o,
    }
}

/// The end of a block of the given type that was entered with the operands `stack`.
pub open spec fn leave_with<X>(ty: BlockTy, o: Out<X>, stack: Seq<Val>) -> Out<X> {
    match o {
        Out::Branch(l, m) => if l == 0 && !(ty is Empty) {
            Out::Next(Going { stack: stack.push(m.top()), ..m })
        } else {
            leave(o, stack)
        },
        _ => o,
    }
}

/// Structured code without loops.
pub open spec fn go<X>(e: Engine<X>, nodes: Seq<Node>, m: Going<X>) -> Out<X>
    decreases nodes,
{
    if nodes.len() == 0 {
        Out::Next(m)
    } else {
        match go(e, nodes.drop_last(), m) {
            Out::Next(m2) => go_node(e, nodes.last(), m2),
            o => o,
        }
    }
}

/// One piece of structured code.
pub open spec fn go_node<X>(e: Engine<X>, node: Node, m: Going<X>) -> Out<X>
    decreases node,
{
    match node {
        Node::Plain(i) => act(e, i, m),
        Node::Block(inner) => leave(go(e, inner, m), m.stack),
        Node::Loop(_) => Out::Trap,
        Node::If(yes, no) => match m.top() {
            Val::I32(x) if m.stack.len() >= 1 => if x != 0 {
                leave(go(e, yes, m.popped()), m.popped().stack)
            } else {
                leave(go(e, no, m.popped()), m.popped().stack)
            },
            _ => Out::Trap,
        },
        Node::Pick(ty, yes, no) => match m.top() {
            Val::I32(x) if m.stack.len() >= 1 => if x != 0 {
                leave_with(ty, go(e, yes, m.popped()), m.popped().stack)
            } else {
                leave_with(ty, go(e, no, m.popped()), m.popped().stack)
            },
            _ => Out::Trap,
        },
        Node::When(yes) => match m.top() {
            Val::I32(x) if m.stack.len() >= 1 => if x != 0 {
                leave(go(e, yes, m.popped()), m.popped().stack)
            } else {
                Out::Next(m.popped())
            },
            _ => Out::Trap,
        },
    }
}

/// A loop over structured code, run `fuel` times at most.
pub open spec fn go_round<X>(e: Engine<X>, inner: Seq<Node>, m: Going<X>, fuel: nat) -> Out<X>
    decreases fuel,
{
    if fuel == 0 {
        Out::Spent
    } else {
        match go(e, inner, m) {
            Out::Branch(l, m2) => if l == 0 {
                go_round(e, inner, Going { stack: m.stack, ..m2 }, (fuel - 1) as nat)
            } else {
                Out::Branch((l - 1) as nat, m2)
            },
            o => o,
        }
    }
}

pub proof fn lemma_go_concat<X>(e: Engine<X>, a: Seq<Node>, b: Seq<Node>, m: Going<X>)
    ensures
        go(e, a + b, m) == (match go(e, a, m) {
            Out::Next(m2) => go(e, b, m2),
            o => o,
        }),
    decreases b.len(),
{
    if b.len() == 0 {
        assert(a + b =~= a);
    } else {
        assert((a + b).drop_last() =~= a + b.drop_last());
        lemma_go_concat(e, a, b.drop_last(), m);
    }
}

pub proof fn lemma_go_one<X>(e: Engine<X>, node: Node, m: Going<X>)
    ensures
        go(e, seq![node], m) == go_node(e, node, m),
{
    assert(seq![node].drop_last() =~= Seq::empty());
    reveal_with_fuel(go, 2);
}

proof fn lemma_go_plain<X>(e: Engine<X>, i: Instr, m: Going<X>)
    ensures
        go_node(e, Node::Plain(i), m) == act(e, i, m),
{
}

/// Plain code, its first instruction first.
pub proof fn lemma_go_first<X>(e: Engine<X>, i: Instr, rest: Seq<Instr>, m: Going<X>)
    ensures
        go(e, machine::plains(seq![i] + rest), m) == (match act(e, i, m) {
            Out::Next(m2) => go(e, machine::plains(rest), m2),
            o => o,
        }),
{
    assert(machine::plains(seq![i] + rest) =~= seq![Node::Plain(i)] + machine::plains(rest));
    lemma_go_concat(e, seq![Node::Plain(i)], machine::plains(rest), m);
    lemma_go_one(e, Node::Plain(i), m);
    lemma_go_plain(e, i, m);
}

// Locals that the ops do not see.

/// How many locals a function has: its five parameters, and those of
/// [`crate::lower::module::method_locals`].
pub const LOCALS: usize = 19;

/// The local holds the number of the next block, or an operand that is carried there.
pub open spec fn is_hidden(x: u32) -> bool {
    x == BLOCK || SPILL_BASE <= x < SPILL_BASE + SPILL_POOL
}

/// The instruction reads or writes such a local.
pub open spec fn touches(i: Instr) -> bool {
    match i {
        Instr::LocalGet(x) => is_hidden(x),
        Instr::LocalSet(x) => is_hidden(x),
        Instr::LocalTee(x) => is_hidden(x),
        _ => false,
    }
}

/// No instruction of the code reads or writes such a local.
pub open spec fn is_apart(code: Seq<Instr>) -> bool {
    forall|k: int| 0 <= k < code.len() ==> !touches(#[trigger] code[k])
}

/// The same but for those locals.
pub open spec fn alike<X>(m: Going<X>, n: Going<X>) -> bool {
    &&& m.stack == n.stack
    &&& m.state == n.state
    &&& m.locals.len() == n.locals.len()
    &&& forall|x: int|
        0 <= x < m.locals.len() && !is_hidden(x as u32) ==> #[trigger] m.locals[x] == n.locals[x]
}

spec fn alike_out<X>(o: Out<X>, p: Out<X>) -> bool {
    match (o, p) {
        (Out::Next(m), Out::Next(n)) => alike(m, n),
        (Out::Branch(l, m), Out::Branch(k, n)) => l == k && alike(m, n),
        (Out::Returned(v, x), Out::Returned(w, y)) => v == w && x == y,
        (Out::Trap, Out::Trap) => true,
        (Out::Spent, Out::Spent) => true,
        _ => false,
    }
}

/// There are as many locals as before.
spec fn keeps_locals<X>(o: Out<X>, m: Going<X>) -> bool {
    match o {
        Out::Next(n) => n.locals.len() == m.locals.len(),
        Out::Branch(_, n) => n.locals.len() == m.locals.len(),
        _ => true,
    }
}

proof fn lemma_act_alike<X>(e: Engine<X>, i: Instr, m: Going<X>, n: Going<X>)
    requires
        !touches(i),
        alike(m, n),
        m.locals.len() <= u32::MAX,
    ensures
        alike_out(act(e, i, m), act(e, i, n)),
        keeps_locals(act(e, i, m), m),
{
    match i {
        Instr::LocalGet(x) => {
            if x < m.locals.len() {
                assert(m.locals[x as int] == n.locals[x as int]);
            }
        },
        _ => {},
    }
}

proof fn lemma_apart_parts(a: Seq<Instr>, b: Seq<Instr>)
    requires
        is_apart(a + b),
    ensures
        is_apart(a),
        is_apart(b),
{
    assert forall|k: int| 0 <= k < a.len() implies !touches(#[trigger] a[k]) by {
        assert((a + b)[k] == a[k]);
    }
    assert forall|k: int| 0 <= k < b.len() implies !touches(#[trigger] b[k]) by {
        assert((a + b)[a.len() + k] == b[k]);
    }
}

/// Code that does not touch those locals does the same, whatever they hold.
proof fn lemma_go_alike<X>(e: Engine<X>, nodes: Seq<Node>, m: Going<X>, n: Going<X>)
    requires
        is_apart(machine::flat(nodes)),
        alike(m, n),
        m.locals.len() <= u32::MAX,
    ensures
        alike_out(go(e, nodes, m), go(e, nodes, n)),
        keeps_locals(go(e, nodes, m), m),
    decreases nodes,
{
    if nodes.len() > 0 {
        lemma_apart_parts(machine::flat(nodes.drop_last()), machine::flat_node(nodes.last()));
        lemma_go_alike(e, nodes.drop_last(), m, n);
        match (go(e, nodes.drop_last(), m), go(e, nodes.drop_last(), n)) {
            (Out::Next(m2), Out::Next(n2)) => {
                lemma_go_node_alike(e, nodes.last(), m2, n2);
            },
            _ => {},
        }
    }
}

proof fn lemma_go_node_alike<X>(e: Engine<X>, node: Node, m: Going<X>, n: Going<X>)
    requires
        is_apart(machine::flat_node(node)),
        alike(m, n),
        m.locals.len() <= u32::MAX,
    ensures
        alike_out(go_node(e, node, m), go_node(e, node, n)),
        keeps_locals(go_node(e, node, m), m),
    decreases node,
{
    match node {
        Node::Plain(i) => {
            assert(machine::flat_node(node)[0] == i);
            lemma_act_alike(e, i, m, n);
        },
        Node::Block(inner) => {
            let open = seq![Instr::Block(BlockTy::Empty)];
            lemma_apart_parts(open + machine::flat(inner), seq![Instr::End]);
            lemma_apart_parts(open, machine::flat(inner));
            lemma_go_alike(e, inner, m, n);
        },
        Node::Loop(_) => {},
        Node::If(yes, no) => {
            lemma_apart_branches(BlockTy::Empty, yes, no);
            lemma_go_alike(e, yes, m.popped(), n.popped());
            lemma_go_alike(e, no, m.popped(), n.popped());
        },
        Node::Pick(ty, yes, no) => {
            lemma_apart_branches(ty, yes, no);
            lemma_go_alike(e, yes, m.popped(), n.popped());
            lemma_go_alike(e, no, m.popped(), n.popped());
        },
        Node::When(yes) => {
            let open = seq![Instr::If(BlockTy::Empty)];
            lemma_apart_parts(open + machine::flat(yes), seq![Instr::End]);
            lemma_apart_parts(open, machine::flat(yes));
            lemma_go_alike(e, yes, m.popped(), n.popped());
        },
    }
}

proof fn lemma_apart_branches(ty: BlockTy, yes: Seq<Node>, no: Seq<Node>)
    requires
        is_apart(
            seq![Instr::If(ty)] + machine::flat(yes) + seq![Instr::Else] + machine::flat(no) + seq![
                Instr::End,
            ],
        ),
    ensures
        is_apart(machine::flat(yes)),
        is_apart(machine::flat(no)),
{
    let open = seq![Instr::If(ty)];
    let a = machine::flat(yes);
    let b = machine::flat(no);
    lemma_apart_parts(open + a + seq![Instr::Else] + b, seq![Instr::End]);
    lemma_apart_parts(open + a + seq![Instr::Else], b);
    lemma_apart_parts(open + a, seq![Instr::Else]);
    lemma_apart_parts(open, a);
}

// Carried operands.

/// The operands `stack` lie in the locals that carry them.
spec fn carries<X>(m: Going<X>, stack: Seq<Val>) -> bool {
    &&& stack.len() <= SPILL_POOL
    &&& m.locals.len() == LOCALS
    &&& forall|j: int| 0 <= j < stack.len() ==> #[trigger] m.locals[SPILL_BASE + j] == stack[j]
}

/// `m` with its operands in the locals that carry them.
spec fn put_away<X>(m: Going<X>, n: Going<X>) -> bool {
    &&& n.stack.len() == 0
    &&& n.state == m.state
    &&& n.locals.len() == m.locals.len()
    &&& carries(n, m.stack)
    &&& forall|x: int|
        0 <= x < m.locals.len() && !(SPILL_BASE <= x < SPILL_BASE + m.stack.len())
            ==> #[trigger] n.locals[x] == m.locals[x]
}

proof fn lemma_spill<X>(e: Engine<X>, m: Going<X>) -> (n: Going<X>)
    requires
        m.locals.len() == LOCALS,
        m.stack.len() <= SPILL_POOL,
    ensures
        go(e, machine::plains(body::spill(m.stack.len())), m) == Out::Next(n),
        put_away(m, n),
    decreases m.stack.len(),
{
    let d = m.stack.len();
    if d == 0 {
        assert(machine::plains(body::spill(0)) =~= Seq::empty());
        m
    } else {
        let set = Instr::LocalSet((SPILL_BASE + (d - 1)) as u32);
        assert(body::spill(d) =~= seq![set] + body::spill((d - 1) as nat));
        lemma_go_first(e, set, body::spill((d - 1) as nat), m);
        let m2 = m.popped().with_local((SPILL_BASE + (d - 1)) as u32, m.top());
        let n = lemma_spill(e, m2);
        assert forall|j: int| 0 <= j < d implies #[trigger] n.locals[SPILL_BASE + j]
            == m.stack[j] by {
            if j == d - 1 {
                assert(n.locals[SPILL_BASE + j] == m2.locals[SPILL_BASE + j]);
            } else {
                assert(m2.stack[j] == m.stack[j]);
            }
        }
        assert forall|x: int|
            0 <= x < m.locals.len() && !(SPILL_BASE <= x < SPILL_BASE + d) implies #[trigger] n.locals[x]
            == m.locals[x] by {
            assert(n.locals[x] == m2.locals[x]);
        }
        n
    }
}

proof fn lemma_reload<X>(e: Engine<X>, m: Going<X>, stack: Seq<Val>)
    requires
        carries(m, stack),
        m.stack.len() == 0,
    ensures
        go(e, machine::plains(body::reload(stack.len())), m) == Out::Next(Going { stack, ..m }),
    decreases stack.len(),
{
    let d = stack.len();
    if d == 0 {
        assert(machine::plains(body::reload(0)) =~= Seq::empty());
        assert(m =~= Going { stack, ..m });
    } else {
        let before = stack.drop_last();
        let get = Instr::LocalGet((SPILL_BASE + (d - 1)) as u32);
        assert(forall|j: int| 0 <= j < before.len() ==> before[j] == stack[j]);
        lemma_reload(e, m, before);
        assert(machine::plains(body::reload(d)) =~= machine::plains(body::reload((d - 1) as nat))
            + seq![Node::Plain(get)]);
        lemma_go_concat(
            e,
            machine::plains(body::reload((d - 1) as nat)),
            seq![Node::Plain(get)],
            m,
        );
        let m2 = Going { stack: before, ..m };
        lemma_go_one(e, Node::Plain(get), m2);
        lemma_go_plain(e, get, m2);
        assert(m2.locals[SPILL_BASE + (d - 1)] == stack[d - 1]);
        assert(before.push(stack[d - 1]) =~= stack);
    }
}

spec fn set_block(b: int) -> Seq<Instr> {
    seq![Instr::I32Const(b as i32), Instr::LocalSet(BLOCK)]
}

proof fn lemma_set_block<X>(e: Engine<X>, b: int, m: Going<X>)
    requires
        m.locals.len() == LOCALS,
    ensures
        go(e, machine::plains(set_block(b)), m) == Out::Next(
            m.with_local(BLOCK, Val::I32(b as i32)),
        ),
{
    let set = seq![Instr::LocalSet(BLOCK)];
    assert(set_block(b) =~= seq![Instr::I32Const(b as i32)] + set);
    lemma_go_first(e, Instr::I32Const(b as i32), set, m);
    let m2 = m.pushed(Val::I32(b as i32));
    assert(set =~= set + Seq::<Instr>::empty());
    lemma_go_first(e, Instr::LocalSet(BLOCK), Seq::empty(), m2);
    assert(machine::plains(Seq::empty()) =~= Seq::<Node>::empty());
    assert(m2.popped().with_local(BLOCK, m2.top()) =~= m.with_local(BLOCK, Val::I32(b as i32)));
}

/// To another block, with the operands put away.
proof fn lemma_goto<X>(e: Engine<X>, b: int, label: u32, m: Going<X>) -> (n: Going<X>)
    requires
        m.locals.len() == LOCALS,
        m.stack.len() <= SPILL_POOL,
    ensures
        go(e, machine::plains(body::spill(m.stack.len()) + body::goto(b, label)), m) == Out::Branch(
            label as nat,
            n.with_local(BLOCK, Val::I32(b as i32)),
        ),
        put_away(m, n),
{
    let n = lemma_spill(e, m);
    let away = machine::plains(body::spill(m.stack.len()));
    let set = machine::plains(set_block(b));
    let br = seq![Node::Plain(Instr::Br(label))];
    let whole = machine::plains(body::spill(m.stack.len()) + body::goto(b, label));
    assert(whole =~= away + (set + br));
    lemma_go_concat(e, away, set + br, m);
    lemma_go_concat(e, set, br, n);
    lemma_set_block(e, b, n);
    lemma_go_one(e, Node::Plain(Instr::Br(label)), n.with_local(BLOCK, Val::I32(b as i32)));
    n
}

// From op to op.

/// The code of op `i` itself. Of a branch, the test, and of a switch, what finds the case; a jump
/// has none.
pub open spec fn own_code(c: Ctx, i: int) -> Seq<Instr> {
    match c.ops[i] {
        JitOp::Jump(_) => Seq::empty(),
        JitOp::IfTrueBoxed(_) => body::boxed_test(false),
        JitOp::IfFalseBoxed(_) => body::boxed_test(true),
        JitOp::IfLt(_) => body::int_test(c.ops[i]).1,
        JitOp::IfGe(_) => body::int_test(c.ops[i]).1,
        JitOp::IfTrue(_) => body::int_test(c.ops[i]).1,
        JitOp::IfFalse(_) => body::int_test(c.ops[i]).1,
        JitOp::LookupSwitch(_) => seq![Instr::Call(COERCE_I), Instr::Cvt(Cvtop::I32WrapI64)],
        JitOp::ReturnValue => linear::box_int() + seq![Instr::Return],
        JitOp::ReturnValueBoxed => seq![Instr::Return],
        JitOp::ReturnValueCoerced => seq![Instr::Call(COERCE_RETURN), Instr::Return],
        JitOp::ReturnValueCoerceBaked(_) => seq![Instr::Call(COERCE_RETURN), Instr::Return],
        JitOp::ReturnVoidBoxed(bits) => seq![Instr::I64Const(bits), Instr::Return],
        JitOp::ReturnDouble => linear::box_double() + seq![Instr::Return],
        JitOp::Throw => if c.exceptions.len() > 0 {
            seq![Instr::Call(THROW)]
        } else {
            seq![Instr::Call(THROW), Instr::Return]
        },
        o => match linear::op_code(o, c.lay, c.target) {
            Some(code) => code,
            None => Seq::empty(),
        },
    }
}

/// A branch on raw ints.
pub open spec fn is_raw_branch(o: JitOp) -> bool {
    o is IfLt || o is IfGe || o is IfTrue || o is IfFalse
}

/// A branch on a test.
pub open spec fn is_branch(o: JitOp) -> bool {
    is_raw_branch(o) || o is IfTrueBoxed || o is IfFalseBoxed
}

/// How many operands there are behind a branch, if there were `d`.
pub open spec fn left_by_branch(o: JitOp, d: nat) -> int {
    if o is IfLt || o is IfGe {
        d - 2
    } else {
        d - 1
    }
}

/// A handler covers op `i`, which may leave a pending error.
pub open spec fn is_guarded(c: Ctx, i: int) -> bool {
    manifest::can_throw(c.ops[i]) && c.exceptions.len() > 0 && body::covered(c.exceptions, i)
}

/// The return behind an op that may have left a pending error, where no handler covers it and its
/// own code does not see to it.
pub open spec fn bail_code(c: Ctx, i: int) -> Seq<Instr> {
    let own = c.exceptions.len() == 0 && manifest::bails_itself(c.ops[i]);
    if manifest::can_throw(c.ops[i]) && !own && !is_guarded(c, i) {
        linear::perr_bail(c.lay.perr_index)
    } else {
        Seq::empty()
    }
}

/// `parts` holds, for each op, its code by its structure.
pub open spec fn reads(c: Ctx, parts: Seq<Seq<Node>>) -> bool {
    &&& parts.len() == c.ops.len()
    &&& forall|i: int|
        0 <= i < parts.len() ==> machine::flat(#[trigger] parts[i]) == own_code(c, i) + bail_code(
            c,
            i,
        )
}

/// An op is next, with the operands on the stack.
#[verifier::ext_equal]
#[verifier::reject_recursive_types(X)]
pub struct At<X> {
    pub pc: int,
    pub going: Going<X>,
}

/// What an op comes to.
#[verifier::reject_recursive_types(X)]
pub enum Move<X> {
    To(At<X>),
    Done(Val, X),
    /// It traps, or there is no op.
    Stuck,
}

/// How many operands there are behind op `i`, if there were `d`.
pub open spec fn height_after(c: Ctx, i: int, d: nat) -> int {
    d - typed::arity(c.ops[i]).0 + typed::arity(c.ops[i]).1
}

/// Where a switch leads.
pub open spec fn selected(sw: SwitchTable, x: i32) -> int {
    if (x as u32) < sw.cases@.len() {
        sw.cases@[(x as u32) as int] as int
    } else {
        sw.default as int
    }
}

/// Asks the host for a handler of the pending error that op `i` has left: goes on there without
/// operands, or returns `undefined` if there is none.
pub open spec fn handled<X>(e: Engine<X>, c: Ctx, i: int, m: Going<X>) -> Move<X> {
    let ask = seq![Instr::I64Const(i as u64), Instr::Call(DISPATCH_EXC)];
    match go(e, machine::plains(ask), m) {
        Out::Next(n) => match n.top() {
            Val::I64(w) if n.stack.len() == 1 => if w as i64 >= 0 {
                if w < c.ops.len() && blocks::is_catch(c.exceptions, w as usize) {
                    Move::To(At { pc: w as int, going: n.popped().with_local(SCRATCH64, n.top()) })
                } else {
                    Move::Stuck
                }
            } else {
                Move::Done(Val::I64(UNDEFINED_BITS), n.state)
            },
            _ => Move::Stuck,
        },
        _ => Move::Stuck,
    }
}

/// Asks the host whether an error is pending, and for a handler if one is.
pub open spec fn guarded<X>(e: Engine<X>, c: Ctx, i: int, m: Going<X>) -> Move<X> {
    let ask = seq![Instr::Call(c.lay.perr_index)];
    match go(e, machine::plains(ask), Going { stack: Seq::empty(), ..m }) {
        Out::Next(n) => match n.top() {
            Val::I32(x) if n.stack.len() == 1 => if x != 0 {
                handled(e, c, i, n.popped())
            } else {
                Move::To(At { pc: i + 1, going: Going { stack: m.stack, ..n } })
            },
            _ => Move::Stuck,
        },
        _ => Move::Stuck,
    }
}

/// Runs the code of the next op. It leaves as many operands as the op is to leave.
pub open spec fn op_move<X>(e: Engine<X>, c: Ctx, parts: Seq<Seq<Node>>, s: At<X>) -> Move<X> {
    let o = c.ops[s.pc];
    let d = s.going.stack.len();
    match go(e, parts[s.pc], s.going) {
        Out::Returned(v, x) => Move::Done(v, x),
        Out::Next(m) => if o is Jump {
            Move::To(At { pc: o->Jump_0 as int, going: s.going })
        } else if is_branch(o) {
            match m.top() {
                Val::I32(x) if m.stack.len() == left_by_branch(o, d) + 1 >= 1 => Move::To(
                    At {
                        pc: if x != 0 {
                            op::branch_target(o)->0 as int
                        } else {
                            s.pc + 1
                        },
                        going: m.popped(),
                    },
                ),
                _ => Move::Stuck,
            }
        } else if o is LookupSwitch {
            match m.top() {
                Val::I32(x) if m.stack.len() == 1 => Move::To(
                    At {
                        pc: selected(c.switches[o->LookupSwitch_0 as int], x),
                        going: m.popped().with_local(SCRATCH, m.top()),
                    },
                ),
                _ => Move::Stuck,
            }
        } else if o is Throw {
            if m.stack.len() == d {
                handled(e, c, s.pc, Going { stack: Seq::empty(), ..m })
            } else {
                Move::Stuck
            }
        } else if m.stack.len() != height_after(c, s.pc, d) {
            Move::Stuck
        } else if is_guarded(c, s.pc) {
            guarded(e, c, s.pc, m)
        } else {
            Move::To(At { pc: s.pc + 1, going: m })
        },
        _ => Move::Stuck,
    }
}

/// What a handler finds: the value that was caught, on top of the operands.
pub open spec fn catch_code() -> Seq<Instr> {
    seq![Instr::I64Const(0), Instr::Call(POP_CAUGHT)]
}

/// Comes to the next op. `None` if there is none, or the handler that starts there does not find
/// its value.
pub open spec fn landed<X>(e: Engine<X>, c: Ctx, s: At<X>) -> Option<Going<X>> {
    if !(0 <= s.pc < c.ops.len()) {
        None
    } else if blocks::is_catch(c.exceptions, s.pc as usize) {
        match go(e, machine::plains(catch_code()), s.going) {
            Out::Next(m) => if m.stack.len() == s.going.stack.len() + 1 {
                Some(m)
            } else {
                None
            },
            _ => None,
        }
    } else {
        Some(s.going)
    }
}

/// Comes to the next op, and runs its code.
pub open spec fn follow<X>(e: Engine<X>, c: Ctx, parts: Seq<Seq<Node>>, s: At<X>) -> Move<X> {
    match landed(e, c, s) {
        Some(m) => op_move(e, c, parts, At { pc: s.pc, going: m }),
        None => Move::Stuck,
    }
}

/// What one gets by running the codes of the ops, one after the other as the branches lead.
pub open spec fn followed<X>(
    e: Engine<X>,
    c: Ctx,
    parts: Seq<Seq<Node>>,
    s: At<X>,
    fuel: nat,
) -> Option<(Val, X)>
    decreases fuel,
{
    if fuel == 0 {
        None
    } else {
        match follow(e, c, parts, s) {
            Move::To(t) => followed(e, c, parts, t, (fuel - 1) as nat),
            Move::Done(v, x) => Some((v, x)),
            Move::Stuck => None,
        }
    }
}

// The structure of a method's code.

/// The branches lead to ops, and the sizes are those that the code has room for.
pub open spec fn is_method(c: Ctx) -> bool {
    &&& 0 < c.ops.len() < 0x4000_0000
    &&& blocks::targets_ok(c.ops, c.switches, c.exceptions)
    &&& forall|k: int|
        0 <= k < c.switches.len() ==> (#[trigger] c.switches[k]).cases@.len() < 0x4000_0000
}

spec fn target_of(c: Ctx, t: usize) -> int {
    blocks::block_of(c.leaders(), t)->0
}

spec fn choice(taken: int, other: int) -> Node {
    Node::If(machine::plains(set_block(taken)), machine::plains(set_block(other)))
}

/// What follows the dispatch of a switch with cases `cases` in block `b`: the ways to the first
/// `k`.
spec fn case_tail(c: Ctx, b: int, cases: Seq<usize>, k: nat) -> Seq<Instr>
    decreases k,
{
    if k == 0 {
        Seq::empty()
    } else {
        case_tail(c, b, cases, (k - 1) as nat) + (seq![Instr::End] + body::goto(
            target_of(c, cases[k - 1]),
            (c.loop_depth(b) + (cases.len() - (k - 1))) as u32,
        ))
    }
}

/// The dispatch of a switch over its first `k` cases.
spec fn case_tree(c: Ctx, b: int, cases: Seq<usize>, k: nat) -> Seq<Node>
    decreases k,
{
    if k == 0 {
        let n = cases.len() as u32;
        machine::plains(seq![Instr::LocalGet(SCRATCH), Instr::BrTable(n, n)])
    } else {
        seq![Node::Block(case_tree(c, b, cases, (k - 1) as nat))] + machine::plains(
            body::goto(
                target_of(c, cases[k - 1]),
                (c.loop_depth(b) + (cases.len() - (k - 1))) as u32,
            ),
        )
    }
}

/// What follows the code of a switch in block `b`.
spec fn switch_nodes(c: Ctx, b: int, sw: SwitchTable) -> Seq<Node> {
    machine::plains(seq![Instr::LocalSet(SCRATCH)]) + (seq![
        Node::Block(case_tree(c, b, sw.cases@, sw.cases@.len())),
    ] + machine::plains(body::goto(target_of(c, sw.default), c.loop_depth(b))))
}

/// Sets the block of the handler, if it is one of `catches`.
spec fn chain_nodes(catches: Seq<(u64, i32)>) -> Seq<Node>
    decreases catches.len(),
{
    if catches.len() == 0 {
        Seq::empty()
    } else {
        chain_nodes(catches.drop_last()) + (machine::plains(
            seq![
                Instr::LocalGet(SCRATCH64),
                Instr::I64Const(catches.last().0),
                Instr::Rel(Relop::I64Eq),
            ],
        ) + seq![Node::When(machine::plains(set_block(catches.last().1 as int)))])
    }
}

/// The code that asks for a handler.
spec fn ask_code(i: int) -> Seq<Instr> {
    seq![Instr::I64Const(i as u64), Instr::Call(DISPATCH_EXC)]
}

/// The test whether there is one.
spec fn any_code() -> Seq<Instr> {
    seq![
        Instr::LocalSet(SCRATCH64),
        Instr::LocalGet(SCRATCH64),
        Instr::I64Const(0),
        Instr::Rel(Relop::I64GeS),
    ]
}

/// The way to a handler of the error that op `i` has left.
spec fn dispatch_nodes(c: Ctx, i: int, label: u32) -> Seq<Node> {
    machine::plains(ask_code(i)) + (machine::plains(any_code()) + seq![
        Node::If(
            chain_nodes(c.catches()) + machine::plains(seq![Instr::Br(label)]),
            machine::plains(seq![Instr::I64Const(UNDEFINED_BITS), Instr::Return]),
        ),
    ])
}

/// What follows an op that a handler covers, with `d` operands.
spec fn guard_nodes(c: Ctx, b: int, i: int, d: nat) -> Seq<Node> {
    machine::plains(body::spill(d)) + (machine::plains(seq![Instr::Call(c.lay.perr_index)]) + (seq![
        Node::When(dispatch_nodes(c, i, (c.loop_depth(b) + 2) as u32)),
    ] + machine::plains(body::reload(d))))
}

/// The code of op `i`, in block `b`, with `d` operands in front of it.
spec fn op_nodes(c: Ctx, parts: Seq<Seq<Node>>, b: int, i: int, d: nat) -> Seq<Node> {
    let o = c.ops[i];
    if let JitOp::Jump(t) = o {
        machine::plains(body::spill(d) + body::goto(target_of(c, t), c.loop_depth(b)))
    } else if is_branch(o) {
        parts[i] + (seq![choice(target_of(c, op::branch_target(o)->0), b + 1)] + machine::plains(
            body::spill(left_by_branch(o, d) as nat) + seq![Instr::Br(c.loop_depth(b))],
        ))
    } else if let JitOp::LookupSwitch(k) = o {
        parts[i] + switch_nodes(c, b, c.switches[k as int])
    } else if o is Throw && c.exceptions.len() > 0 {
        parts[i] + (machine::plains(wasm::repeated(d, Instr::Drop)) + dispatch_nodes(
            c,
            i,
            (c.loop_depth(b) + 1) as u32,
        ))
    } else if is_guarded(c, i) {
        parts[i] + guard_nodes(c, b, i, height_after(c, i, d) as nat)
    } else {
        parts[i]
    }
}

/// What has been noted of a block stays.
spec fn keeps(before: Seq<Option<usize>>, after: Seq<Option<usize>>) -> bool {
    &&& before.len() == after.len()
    &&& forall|b: int|
        0 <= b < before.len() && (#[trigger] before[b]) is Some ==> after[b] == before[b]
}

/// What lowering of op `i` has noted: how many operands the blocks that it leads to find.
spec fn notes(c: Ctx, b: int, i: int, d: nat, entry: Seq<Option<usize>>) -> bool {
    let o = c.ops[i];
    &&& o matches JitOp::Jump(t) ==> d <= SPILL_POOL && entry[target_of(c, t)] == Some(d as usize)
    &&& is_raw_branch(o) ==> left_by_branch(o, d) == 0
    &&& is_branch(o) && !is_raw_branch(o) ==> 1 <= d <= SPILL_POOL + 1 && b + 1 < c.block_count()
        && entry[target_of(c, op::branch_target(o)->0)] == Some((d - 1) as usize) && entry[b + 1]
        == Some((d - 1) as usize)
    &&& o matches JitOp::LookupSwitch(k) ==> d == 1 && notes_cases(
        c,
        c.switches[k as int].cases@,
        c.switches[k as int].cases@.len(),
        entry,
    ) && entry[target_of(c, c.switches[k as int].default)] == Some(0usize)
    &&& is_guarded(c, i) ==> height_after(c, i, d) <= SPILL_POOL
}

/// The first `k` cases find no operands.
spec fn notes_cases(c: Ctx, cases: Seq<usize>, k: nat, entry: Seq<Option<usize>>) -> bool {
    forall|j: int|
        0 <= j < k ==> entry[target_of(c, #[trigger] cases[j])] == Some(0usize)
}

proof fn lemma_flat_choice(taken: int, other: int)
    ensures
        machine::flat_node(choice(taken, other)) == body::choose_block(taken, other),
{
    machine::lemma_flat_plains(set_block(taken));
    machine::lemma_flat_plains(set_block(other));
    reveal_with_fuel(machine::flat_node, 2);
    assert(machine::flat_node(choice(taken, other)) =~= body::choose_block(taken, other));
}

/// Where an op or a handler leads, a block starts.
proof fn lemma_target_block(c: Ctx, i: int, t: usize)
    requires
        is_method(c),
        0 <= i < c.ops.len(),
        t < c.ops.len(),
        blocks::jumps_to(c.ops, c.switches, i, t) || blocks::is_catch(c.exceptions, t),
    ensures
        0 <= target_of(c, t) < c.block_count(),
        c.leaders()[target_of(c, t)] == t,
        blocks::block_of(c.leaders(), t) == Some(target_of(c, t)),
{
    blocks::leaders_are_the_block_starts(c.ops, c.switches, c.exceptions);
    assert(blocks::is_leader(c.ops, c.switches, c.exceptions, t));
    assert(c.leaders().contains(t));
    let k = choose|k: int| 0 <= k < c.leaders().len() && c.leaders()[k] == t;
    assert(c.leaders()[c.leaders().index_of(t)] == t);
}

/// Where a branch leads, a block starts.
proof fn lemma_branch_block(c: Ctx, i: int)
    requires
        is_method(c),
        0 <= i < c.ops.len(),
        op::branch_target(c.ops[i]) is Some,
    ensures
        ({
            let t = op::branch_target(c.ops[i])->0;
            &&& 0 <= target_of(c, t) < c.block_count()
            &&& c.leaders()[target_of(c, t)] == t
            &&& blocks::block_of(c.leaders(), t) == Some(target_of(c, t))
        }),
{
    let t = op::branch_target(c.ops[i])->0;
    assert(blocks::target_ok(c.ops[i], c.switches, c.ops.len()));
    assert(blocks::jumps_to(c.ops, c.switches, i, t));
    lemma_target_block(c, i, t);
}

/// Where a switch leads, blocks start.
proof fn lemma_case_blocks(c: Ctx, i: int)
    requires
        is_method(c),
        0 <= i < c.ops.len(),
        c.ops[i] is LookupSwitch,
    ensures
        ({
            let k = c.ops[i]->LookupSwitch_0;
            let sw = c.switches[k as int];
            &&& k < c.switches.len()
            &&& 0 <= target_of(c, sw.default) < c.block_count()
            &&& c.leaders()[target_of(c, sw.default)] == sw.default
            &&& blocks::block_of(c.leaders(), sw.default) == Some(target_of(c, sw.default))
            &&& forall|j: int|
                0 <= j < sw.cases@.len() ==> {
                    let t = #[trigger] sw.cases@[j];
                    &&& 0 <= target_of(c, t) < c.block_count()
                    &&& c.leaders()[target_of(c, t)] == t
                    &&& blocks::block_of(c.leaders(), t) == Some(target_of(c, t))
                }
        }),
{
    let k = c.ops[i]->LookupSwitch_0;
    let sw = c.switches[k as int];
    assert(blocks::target_ok(c.ops[i], c.switches, c.ops.len()));
    assert(blocks::is_case(sw, sw.default));
    assert(blocks::jumps_to(c.ops, c.switches, i, sw.default));
    lemma_target_block(c, i, sw.default);
    assert forall|j: int| 0 <= j < sw.cases@.len() implies ({
        let t = #[trigger] sw.cases@[j];
        &&& 0 <= target_of(c, t) < c.block_count()
        &&& c.leaders()[target_of(c, t)] == t
        &&& blocks::block_of(c.leaders(), t) == Some(target_of(c, t))
    }) by {
        let t = sw.cases@[j];
        assert(blocks::is_case(sw, t));
        assert(blocks::jumps_to(c.ops, c.switches, i, t));
        lemma_target_block(c, i, t);
    }
}

proof fn lemma_flat_block(inner: Seq<Node>)
    ensures
        machine::flat_node(Node::Block(inner)) == seq![Instr::Block(BlockTy::Empty)]
            + machine::flat(inner) + seq![Instr::End],
        machine::flat_node(Node::Loop(inner)) == seq![Instr::Loop(BlockTy::Empty)] + machine::flat(
            inner,
        ) + seq![Instr::End],
        machine::flat_node(Node::When(inner)) == seq![Instr::If(BlockTy::Empty)] + machine::flat(
            inner,
        ) + seq![Instr::End],
{
    reveal_with_fuel(machine::flat_node, 2);
}

proof fn lemma_case_flat(c: Ctx, b: int, cases: Seq<usize>, k: nat)
    ensures
        machine::flat(case_tree(c, b, cases, k)) == wasm::repeated(
            k,
            Instr::Block(BlockTy::Empty),
        ) + seq![
            Instr::LocalGet(SCRATCH),
            Instr::BrTable(cases.len() as u32, cases.len() as u32),
        ] + case_tail(c, b, cases, k),
    decreases k,
{
    let open = Instr::Block(BlockTy::Empty);
    let n = cases.len() as u32;
    let head = seq![Instr::LocalGet(SCRATCH), Instr::BrTable(n, n)];
    if k == 0 {
        machine::lemma_flat_plains(head);
        assert(wasm::repeated(0, open) + head + case_tail(c, b, cases, 0) =~= head);
    } else {
        let inner = case_tree(c, b, cases, (k - 1) as nat);
        let way = body::goto(
            target_of(c, cases[k - 1]),
            (c.loop_depth(b) + (cases.len() - (k - 1))) as u32,
        );
        lemma_case_flat(c, b, cases, (k - 1) as nat);
        machine::lemma_flat_concat(seq![Node::Block(inner)], machine::plains(way));
        machine::lemma_flat_one(Node::Block(inner));
        lemma_flat_block(inner);
        machine::lemma_flat_plains(way);
        assert(machine::flat(case_tree(c, b, cases, k)) =~= wasm::repeated(k, open) + head
            + case_tail(c, b, cases, k));
    }
}

/// The landings of a switch.
proof fn lemma_landings(c: Ctx, b: int, cases: Seq<usize>, k: nat, st: St)
    requires
        k <= cases.len(),
        st.entry.len() == c.block_count(),
        forall|j: int|
            0 <= j < cases.len() ==> 0 <= target_of(c, #[trigger] cases[j]) < c.block_count()
                && blocks::block_of(c.leaders(), cases[j]) == Some(target_of(c, cases[j])),
        body::landings(c, b, cases, k, st) is Some,
    ensures
        ({
            let s = body::landings(c, b, cases, k, st)->0;
            &&& s.code == st.code + case_tail(c, b, cases, k)
            &&& s.depth == st.depth
            &&& keeps(st.entry, s.entry)
            &&& notes_cases(c, cases, k, s.entry)
        }),
    decreases k,
{
    if k == 0 {
        assert(st.code + case_tail(c, b, cases, 0) =~= st.code);
    } else {
        lemma_landings(c, b, cases, (k - 1) as nat, st);
        let before = body::landings(c, b, cases, (k - 1) as nat, st)->0;
        let after = body::landings(c, b, cases, k, st)->0;
        let tb = target_of(c, cases[k - 1]);
        assert(keeps(before.entry, after.entry));
        assert(after.code =~= st.code + case_tail(c, b, cases, k));
        assert forall|j: int| 0 <= j < k implies after.entry[target_of(
            c,
            #[trigger] cases[j],
        )] == Some(0usize) by {
            if j < k - 1 {
                assert(before.entry[target_of(c, cases[j])] == Some(0usize));
            }
        }
    }
}

#[verifier::rlimit(30)]
proof fn lemma_switch_code(c: Ctx, parts: Seq<Seq<Node>>, b: int, i: int, st: St)
    requires
        is_method(c),
        reads(c, parts),
        0 <= i < c.ops.len(),
        c.ops[i] is LookupSwitch,
        0 <= b < c.block_count(),
        st.entry.len() == c.block_count(),
        body::lower_op(c, b, i, st) is Some,
    ensures
        ({
            let s = body::lower_op(c, b, i, st)->0;
            &&& s.code == st.code + machine::flat(op_nodes(c, parts, b, i, st.depth))
            &&& keeps(st.entry, s.entry)
            &&& notes(c, b, i, st.depth, s.entry)
        }),
{
    lemma_case_blocks(c, i);
    let sw = c.switches[c.ops[i]->LookupSwitch_0 as int];
    let cases = sw.cases@;
    let n = cases.len();
    let st1 = st.adding(body::select_case(n), st.depth);
    let st2 = body::landings(c, b, cases, n, st1)->0;
    let s = body::lower_op(c, b, i, st)->0;
    lemma_landings(c, b, cases, n, st1);
    assert(keeps(st2.entry, s.entry));
    assert forall|j: int| 0 <= j < n implies s.entry[target_of(c, #[trigger] cases[j])] == Some(
        0usize,
    ) by {
        assert(st2.entry[target_of(c, cases[j])] == Some(0usize));
    }
    assert(notes(c, b, i, st.depth, s.entry));
    let put = machine::plains(seq![Instr::LocalSet(SCRATCH)]);
    let inner = case_tree(c, b, cases, n);
    let way = body::goto(target_of(c, sw.default), c.loop_depth(b));
    let rest = seq![Node::Block(inner)] + machine::plains(way);
    machine::lemma_flat_concat(parts[i], switch_nodes(c, b, sw));
    machine::lemma_flat_concat(put, rest);
    machine::lemma_flat_concat(seq![Node::Block(inner)], machine::plains(way));
    machine::lemma_flat_plains(seq![Instr::LocalSet(SCRATCH)]);
    machine::lemma_flat_plains(way);
    machine::lemma_flat_one(Node::Block(inner));
    lemma_flat_block(inner);
    lemma_case_flat(c, b, cases, n);
    assert(bail_code(c, i) =~= Seq::empty());
    let open = Instr::Block(BlockTy::Empty);
    assert(wasm::repeated(n + 1, open) =~= seq![open] + wasm::repeated(n, open));
    assert(s.code =~= st.code + machine::flat(op_nodes(c, parts, b, i, st.depth)));
}

proof fn lemma_chain_flat(catches: Seq<(u64, i32)>)
    ensures
        machine::flat(chain_nodes(catches)) == body::catch_chain(catches),
    decreases catches.len(),
{
    if catches.len() > 0 {
        lemma_chain_flat(catches.drop_last());
        let test = seq![
            Instr::LocalGet(SCRATCH64),
            Instr::I64Const(catches.last().0),
            Instr::Rel(Relop::I64Eq),
        ];
        let set = machine::plains(set_block(catches.last().1 as int));
        let one = machine::plains(test) + seq![Node::When(set)];
        machine::lemma_flat_concat(chain_nodes(catches.drop_last()), one);
        machine::lemma_flat_concat(machine::plains(test), seq![Node::When(set)]);
        machine::lemma_flat_plains(test);
        machine::lemma_flat_one(Node::When(set));
        lemma_flat_block(set);
        machine::lemma_flat_plains(set_block(catches.last().1 as int));
        assert(machine::flat(chain_nodes(catches)) =~= body::catch_chain(catches));
    }
}

proof fn lemma_dispatch_flat(c: Ctx, i: int, label: u32)
    ensures
        machine::flat(dispatch_nodes(c, i, label)) == body::dispatch(i, c.catches(), label),
{
    let chain = chain_nodes(c.catches());
    let br = machine::plains(seq![Instr::Br(label)]);
    let bail = seq![Instr::I64Const(UNDEFINED_BITS), Instr::Return];
    let pick = Node::If(chain + br, machine::plains(bail));
    machine::lemma_flat_concat(
        machine::plains(ask_code(i)),
        machine::plains(any_code()) + seq![pick],
    );
    machine::lemma_flat_concat(machine::plains(any_code()), seq![pick]);
    machine::lemma_flat_plains(ask_code(i));
    machine::lemma_flat_plains(any_code());
    machine::lemma_flat_one(pick);
    machine::lemma_flat_concat(chain, br);
    machine::lemma_flat_plains(seq![Instr::Br(label)]);
    machine::lemma_flat_plains(bail);
    lemma_chain_flat(c.catches());
    reveal_with_fuel(machine::flat_node, 2);
    assert(machine::flat(dispatch_nodes(c, i, label)) =~= body::dispatch(i, c.catches(), label));
}

proof fn lemma_guard_flat(c: Ctx, b: int, i: int, d: nat)
    ensures
        machine::flat(guard_nodes(c, b, i, d)) == body::spill(d) + seq![
            Instr::Call(c.lay.perr_index),
            Instr::If(BlockTy::Empty),
        ] + body::dispatch(i, c.catches(), (c.loop_depth(b) + 2) as u32) + seq![Instr::End]
            + body::reload(d),
{
    let label = (c.loop_depth(b) + 2) as u32;
    let ask = seq![Instr::Call(c.lay.perr_index)];
    let when = Node::When(dispatch_nodes(c, i, label));
    let back = machine::plains(body::reload(d));
    machine::lemma_flat_concat(
        machine::plains(body::spill(d)),
        machine::plains(ask) + (seq![when] + back),
    );
    machine::lemma_flat_concat(machine::plains(ask), seq![when] + back);
    machine::lemma_flat_concat(seq![when], back);
    machine::lemma_flat_plains(body::spill(d));
    machine::lemma_flat_plains(ask);
    machine::lemma_flat_plains(body::reload(d));
    machine::lemma_flat_one(when);
    lemma_flat_block(dispatch_nodes(c, i, label));
    lemma_dispatch_flat(c, i, label);
    assert(machine::flat(guard_nodes(c, b, i, d)) =~= body::spill(d) + seq![
        Instr::Call(c.lay.perr_index),
        Instr::If(BlockTy::Empty),
    ] + body::dispatch(i, c.catches(), label) + seq![Instr::End] + body::reload(d));
}

proof fn lemma_throw_code(c: Ctx, parts: Seq<Seq<Node>>, b: int, i: int, st: St)
    requires
        reads(c, parts),
        0 <= i < c.ops.len(),
        c.ops[i] is Throw,
        c.exceptions.len() > 0,
        body::lower_op(c, b, i, st) is Some,
    ensures
        ({
            let s = body::lower_op(c, b, i, st)->0;
            &&& s.code == st.code + machine::flat(op_nodes(c, parts, b, i, st.depth))
            &&& s.entry == st.entry
        }),
{
    let d = st.depth;
    let label = (c.loop_depth(b) + 1) as u32;
    let drops = machine::plains(wasm::repeated(d, Instr::Drop));
    let way = dispatch_nodes(c, i, label);
    let s = body::lower_op(c, b, i, st)->0;
    machine::lemma_flat_concat(parts[i], drops + way);
    machine::lemma_flat_concat(drops, way);
    machine::lemma_flat_plains(wasm::repeated(d, Instr::Drop));
    lemma_dispatch_flat(c, i, label);
    assert(bail_code(c, i) =~= Seq::empty());
    assert(s.code =~= st.code + machine::flat(op_nodes(c, parts, b, i, d)));
}

proof fn lemma_branch_code(c: Ctx, parts: Seq<Seq<Node>>, b: int, i: int, st: St)
    requires
        is_method(c),
        reads(c, parts),
        0 <= i < c.ops.len(),
        is_branch(c.ops[i]),
        0 <= b < c.block_count(),
        st.entry.len() == c.block_count(),
        body::step(c, b, i, st) is Some,
    ensures
        ({
            let s = body::step(c, b, i, st)->0;
            &&& s.code == st.code + machine::flat(op_nodes(c, parts, b, i, st.depth))
            &&& keeps(st.entry, s.entry)
            &&& notes(c, b, i, st.depth, s.entry)
        }),
{
    let o = c.ops[i];
    let d = st.depth;
    let t = body::step(c, b, i, st)->0;
    assert(machine::flat(parts[i]) == own_code(c, i) + bail_code(c, i));
    let to = op::branch_target(o)->0;
    let less = left_by_branch(o, d) as nat;
    lemma_branch_block(c, i);
    let tb = target_of(c, to);
    assert(body::spill(0) =~= Seq::empty());
    let pick = seq![choice(tb, b + 1)];
    let last = body::spill(less) + seq![Instr::Br(c.loop_depth(b))];
    machine::lemma_flat_concat(parts[i], pick + machine::plains(last));
    machine::lemma_flat_concat(pick, machine::plains(last));
    machine::lemma_flat_one(choice(tb, b + 1));
    lemma_flat_choice(tb, b + 1);
    machine::lemma_flat_plains(last);
    assert(bail_code(c, i) =~= Seq::empty());
    assert(t.code =~= st.code + machine::flat(op_nodes(c, parts, b, i, d)));
}

#[verifier::rlimit(30)]
proof fn lemma_op_code(c: Ctx, parts: Seq<Seq<Node>>, b: int, i: int, st: St)
    requires
        is_method(c),
        reads(c, parts),
        0 <= i < c.ops.len(),
        0 <= b < c.block_count(),
        st.entry.len() == c.block_count(),
        body::step(c, b, i, st) is Some,
    ensures
        ({
            let s = body::step(c, b, i, st)->0;
            &&& s.code == st.code + machine::flat(op_nodes(c, parts, b, i, st.depth))
            &&& keeps(st.entry, s.entry)
            &&& notes(c, b, i, st.depth, s.entry)
            &&& !op::ends_block(c.ops[i]) ==> s.depth == height_after(c, i, st.depth)
        }),
{
    let o = c.ops[i];
    let d = st.depth;
    let s = body::lower_op(c, b, i, st)->0;
    let t = body::step(c, b, i, st)->0;
    assert(machine::flat(parts[i]) == own_code(c, i) + bail_code(c, i));
    if let JitOp::Jump(to) = o {
        lemma_branch_block(c, i);
        let code = body::spill(d) + body::goto(target_of(c, to), c.loop_depth(b));
        machine::lemma_flat_plains(code);
        assert(t.code =~= st.code + code);
    } else if is_branch(o) {
        lemma_branch_code(c, parts, b, i, st);
    } else if o is LookupSwitch {
        lemma_switch_code(c, parts, b, i, st);
    } else if o is Throw && c.exceptions.len() > 0 {
        lemma_throw_code(c, parts, b, i, st);
    } else if is_guarded(c, i) {
        assert(!op::ends_block(o));
        assert(s.code =~= st.code + own_code(c, i));
        machine::lemma_flat_concat(parts[i], guard_nodes(c, b, i, s.depth));
        lemma_guard_flat(c, b, i, s.depth);
        assert(bail_code(c, i) =~= Seq::empty());
        assert(t.code =~= st.code + machine::flat(op_nodes(c, parts, b, i, d)));
    } else {
        assert(s.code =~= st.code + own_code(c, i));
        assert(t.code =~= st.code + machine::flat(parts[i]));
    }
}

/// How many operands there are in front of op `i`, in a block that was opened with `st` at op
/// `from`.
spec fn height_at(c: Ctx, b: int, from: int, i: int, st: St) -> nat {
    (body::steps(c, b, from, i, st)->0).depth
}

spec fn ops_nodes(c: Ctx, parts: Seq<Seq<Node>>, b: int, from: int, to: int, st: St) -> Seq<Node>
    decreases to - from,
{
    if to <= from {
        Seq::empty()
    } else {
        ops_nodes(c, parts, b, from, to - 1, st) + op_nodes(
            c,
            parts,
            b,
            to - 1,
            height_at(c, b, from, to - 1, st),
        )
    }
}

proof fn lemma_steps_prefix(c: Ctx, b: int, from: int, i: int, to: int, st: St)
    requires
        from <= i <= to,
        body::steps(c, b, from, to, st) is Some,
    ensures
        body::steps(c, b, from, i, st) is Some,
    decreases to - i,
{
    if i < to {
        lemma_steps_prefix(c, b, from, i, to - 1, st);
    }
}

proof fn lemma_steps_code(c: Ctx, parts: Seq<Seq<Node>>, b: int, from: int, to: int, st: St)
    requires
        is_method(c),
        reads(c, parts),
        0 <= from <= to <= c.ops.len(),
        0 <= b < c.block_count(),
        st.entry.len() == c.block_count(),
        body::steps(c, b, from, to, st) is Some,
    ensures
        ({
            let s = body::steps(c, b, from, to, st)->0;
            &&& s.code == st.code + machine::flat(ops_nodes(c, parts, b, from, to, st))
            &&& keeps(st.entry, s.entry)
        }),
    decreases to - from,
{
    if from < to {
        lemma_steps_code(c, parts, b, from, to - 1, st);
        let before = body::steps(c, b, from, to - 1, st)->0;
        lemma_op_code(c, parts, b, to - 1, before);
        let one = op_nodes(c, parts, b, to - 1, before.depth);
        machine::lemma_flat_concat(ops_nodes(c, parts, b, from, to - 1, st), one);
        assert(body::steps(c, b, from, to, st)->0.code =~= st.code + machine::flat(
            ops_nodes(c, parts, b, from, to, st),
        ));
    } else {
        assert(st.code + machine::flat(Seq::empty()) =~= st.code);
    }
}

/// What lowering has noted by the end of some ops holds of each of them.
proof fn lemma_steps_keep(c: Ctx, parts: Seq<Seq<Node>>, b: int, from: int, i: int, to: int, st: St)
    requires
        is_method(c),
        reads(c, parts),
        0 <= from <= i <= to <= c.ops.len(),
        0 <= b < c.block_count(),
        st.entry.len() == c.block_count(),
        body::steps(c, b, from, to, st) is Some,
    ensures
        body::steps(c, b, from, i, st) is Some,
        keeps((body::steps(c, b, from, i, st)->0).entry, (body::steps(c, b, from, to, st)->0).entry),
    decreases to - i,
{
    if i < to {
        lemma_steps_keep(c, parts, b, from, i, to - 1, st);
        let before = body::steps(c, b, from, to - 1, st)->0;
        lemma_steps_code(c, parts, b, from, to - 1, st);
        lemma_op_code(c, parts, b, to - 1, before);
    }
}

/// The state in which block `b` is opened.
spec fn before_block(c: Ctx, b: int) -> St {
    body::lower_blocks(c, b as nat, body::start(c))->0
}

spec fn opened(c: Ctx, b: int) -> St {
    body::open_block(c, b, before_block(c, b))->0
}

/// How many operands block `b` finds.
spec fn found(c: Ctx, b: int) -> nat {
    match before_block(c, b).entry[b] {
        Some(d) => d as nat,
        None => 0,
    }
}

spec fn at_end(c: Ctx, b: int) -> St {
    body::steps(c, b, c.leaders()[b] as int, c.end(b), opened(c, b))->0
}

/// The way on to the next block.
spec fn close_nodes(c: Ctx, b: int) -> Seq<Node> {
    let end = c.end(b);
    if end != c.ops.len() && op::ends_block(c.ops[end - 1]) {
        Seq::empty()
    } else if b + 1 < c.block_count() {
        machine::plains(body::spill(at_end(c, b).depth) + body::goto(b + 1, c.loop_depth(b)))
    } else {
        Seq::empty()
    }
}

/// The code of block `b` from op `i` on.
spec fn rest_nodes(c: Ctx, parts: Seq<Seq<Node>>, b: int, i: int) -> Seq<Node> {
    rest_ops(c, parts, b, i, c.end(b)) + close_nodes(c, b)
}

/// The code of the ops of block `b` from `i` up to `to`.
spec fn rest_ops(c: Ctx, parts: Seq<Seq<Node>>, b: int, i: int, to: int) -> Seq<Node>
    decreases to - i,
{
    if to <= i {
        Seq::empty()
    } else {
        rest_ops(c, parts, b, i, to - 1) + op_nodes(
            c,
            parts,
            b,
            to - 1,
            height_at(c, b, c.leaders()[b] as int, to - 1, opened(c, b)),
        )
    }
}

/// Block `b` is a handler's.
spec fn is_handler(c: Ctx, b: int) -> bool {
    blocks::is_catch(c.exceptions, c.leaders()[b])
}

/// At the start of a handler, what it finds.
spec fn catch_nodes(c: Ctx, b: int) -> Seq<Node> {
    if is_handler(c, b) {
        machine::plains(catch_code())
    } else {
        Seq::empty()
    }
}

spec fn block_nodes(c: Ctx, parts: Seq<Seq<Node>>, b: int) -> Seq<Node> {
    machine::plains(body::reload(found(c, b))) + (catch_nodes(c, b) + rest_nodes(
        c,
        parts,
        b,
        c.leaders()[b] as int,
    ))
}

proof fn lemma_block_range(c: Ctx, b: int)
    requires
        is_method(c),
        0 <= b < c.block_count(),
    ensures
        0 <= c.leaders()[b] < c.end(b) <= c.ops.len(),
        b + 1 < c.block_count() ==> c.end(b) == c.leaders()[b + 1] && c.end(b) < c.ops.len(),
        b + 1 == c.block_count() ==> c.end(b) == c.ops.len(),
        c.block_count() < 0x4000_0000,
{
    blocks::leaders_are_the_block_starts(c.ops, c.switches, c.exceptions);
    let l = c.leaders();
    if b + 1 < l.len() {
        assert(l[b] < l[b + 1]);
    }
}

proof fn lemma_rest_is_ops(c: Ctx, parts: Seq<Seq<Node>>, b: int, to: int)
    ensures
        rest_ops(c, parts, b, c.leaders()[b] as int, to) == ops_nodes(
            c,
            parts,
            b,
            c.leaders()[b] as int,
            to,
            opened(c, b),
        ),
    decreases to - c.leaders()[b],
{
    if to > c.leaders()[b] {
        lemma_rest_is_ops(c, parts, b, to - 1);
    }
}

proof fn lemma_rest_front(c: Ctx, parts: Seq<Seq<Node>>, b: int, i: int, to: int)
    requires
        i < to,
    ensures
        rest_ops(c, parts, b, i, to) == op_nodes(
            c,
            parts,
            b,
            i,
            height_at(c, b, c.leaders()[b] as int, i, opened(c, b)),
        ) + rest_ops(c, parts, b, i + 1, to),
    decreases to - i,
{
    let first = op_nodes(
        c,
        parts,
        b,
        i,
        height_at(c, b, c.leaders()[b] as int, i, opened(c, b)),
    );
    if i + 1 < to {
        let last = op_nodes(
            c,
            parts,
            b,
            to - 1,
            height_at(c, b, c.leaders()[b] as int, to - 1, opened(c, b)),
        );
        lemma_rest_front(c, parts, b, i, to - 1);
        assert(first + rest_ops(c, parts, b, i + 1, to - 1) + last =~= first + (rest_ops(
            c,
            parts,
            b,
            i + 1,
            to - 1,
        ) + last));
    } else {
        assert(rest_ops(c, parts, b, i, to - 1) =~= Seq::empty());
        assert(rest_ops(c, parts, b, i + 1, to) =~= Seq::empty());
        assert(Seq::<Node>::empty() + first =~= first + Seq::<Node>::empty());
    }
}

/// Block `b` has been lowered.
spec fn was_lowered(c: Ctx, b: int) -> bool {
    &&& body::lower_blocks(c, b as nat, body::start(c)) is Some
    &&& body::lower_block(c, b, before_block(c, b)) is Some
    &&& before_block(c, b).entry.len() == c.block_count()
}

/// The start of a block.
proof fn lemma_open_code(c: Ctx, b: int)
    requires
        was_lowered(c, b),
    ensures
        ({
            let st = before_block(c, b);
            let back = body::reload(found(c, b));
            &&& body::open_block(c, b, st) is Some
            &&& found(c, b) <= SPILL_POOL
            &&& opened(c, b).code == st.code + seq![Instr::End] + (back + machine::flat(
                catch_nodes(c, b),
            ))
            &&& opened(c, b).entry == st.entry
            &&& opened(c, b).depth == found(c, b) + if is_handler(c, b) {
                1int
            } else {
                0int
            }
        }),
{
    machine::lemma_flat_plains(catch_code());
    assert(machine::flat(Seq::empty()) =~= Seq::<Instr>::empty());
    let st = before_block(c, b);
    let back = body::reload(found(c, b));
    assert(opened(c, b).code =~= st.code + seq![Instr::End] + (back + machine::flat(
        catch_nodes(c, b),
    )));
}

/// The end of a block.
proof fn lemma_close_code(c: Ctx, b: int)
    requires
        is_method(c),
        0 <= b < c.block_count(),
        at_end(c, b).entry.len() == c.block_count(),
        body::close_block(c, b, at_end(c, b)) is Some,
    ensures
        ({
            let stepped = at_end(c, b);
            let s = body::close_block(c, b, stepped)->0;
            &&& s.code == stepped.code + machine::flat(close_nodes(c, b))
            &&& keeps(stepped.entry, s.entry)
            &&& !op::ends_block(c.ops[c.end(b) - 1]) && b + 1 < c.block_count() ==> stepped.depth
                <= SPILL_POOL && s.entry[b + 1] == Some(stepped.depth as usize)
        }),
{
    lemma_block_range(c, b);
    let stepped = at_end(c, b);
    let way = body::spill(stepped.depth) + body::goto(b + 1, c.loop_depth(b));
    machine::lemma_flat_plains(way);
    assert(machine::flat(Seq::empty()) =~= Seq::<Instr>::empty());
    let s = body::close_block(c, b, stepped)->0;
    assert(s.code =~= stepped.code + machine::flat(close_nodes(c, b)));
}

proof fn lemma_block_code(c: Ctx, parts: Seq<Seq<Node>>, b: int)
    requires
        is_method(c),
        reads(c, parts),
        0 <= b < c.block_count(),
        was_lowered(c, b),
    ensures
        ({
            let st = before_block(c, b);
            let s = body::lower_block(c, b, st)->0;
            &&& s.code == st.code + seq![Instr::End] + machine::flat(block_nodes(c, parts, b))
            &&& keeps(st.entry, s.entry)
            &&& keeps(at_end(c, b).entry, s.entry)
            &&& found(c, b) <= SPILL_POOL
            &&& opened(c, b).depth == found(c, b) + if is_handler(c, b) {
                1int
            } else {
                0int
            }
            &&& opened(c, b).entry == st.entry
            &&& body::steps(c, b, c.leaders()[b] as int, c.end(b), opened(c, b)) is Some
            &&& !op::ends_block(c.ops[c.end(b) - 1]) && b + 1 < c.block_count() ==> at_end(
                c,
                b,
            ).depth <= SPILL_POOL && s.entry[b + 1] == Some(at_end(c, b).depth as usize)
        }),
{
    lemma_block_range(c, b);
    let st = before_block(c, b);
    let from = c.leaders()[b] as int;
    let end = c.end(b);
    lemma_open_code(c, b);
    let open = opened(c, b);
    lemma_steps_code(c, parts, b, from, end, open);
    lemma_rest_is_ops(c, parts, b, end);
    lemma_close_code(c, b);
    let s = body::lower_block(c, b, st)->0;
    let back = machine::plains(body::reload(found(c, b)));
    let ops = rest_ops(c, parts, b, from, end);
    let rest = rest_nodes(c, parts, b, from);
    machine::lemma_flat_concat(ops, close_nodes(c, b));
    machine::lemma_flat_concat(back, catch_nodes(c, b) + rest);
    machine::lemma_flat_concat(catch_nodes(c, b), rest);
    machine::lemma_flat_plains(body::reload(found(c, b)));
    lemma_regroup(
        st.code,
        seq![Instr::End],
        body::reload(found(c, b)),
        machine::flat(catch_nodes(c, b)),
        machine::flat(ops),
        machine::flat(close_nodes(c, b)),
    );
}

proof fn lemma_regroup(
    a: Seq<Instr>,
    b: Seq<Instr>,
    c: Seq<Instr>,
    d: Seq<Instr>,
    e: Seq<Instr>,
    f: Seq<Instr>,
)
    ensures
        a + b + (c + d) + e + f == a + b + (c + (d + (e + f))),
{
    assert(a + b + (c + d) + e + f =~= a + b + (c + (d + (e + f))));
}

/// The dispatch over the blocks below `k`, with their code.
spec fn tree(c: Ctx, parts: Seq<Seq<Node>>, k: nat) -> Seq<Node>
    decreases k,
{
    if k == 0 {
        machine::plains(seq![Instr::LocalGet(BLOCK), Instr::BrTable(c.block_count() as u32, 0)])
    } else {
        seq![Node::Block(tree(c, parts, (k - 1) as nat))] + block_nodes(c, parts, k - 1)
    }
}

/// What follows the dispatch: for each block below `k`, an end and its code.
spec fn tail(c: Ctx, parts: Seq<Seq<Node>>, k: nat) -> Seq<Instr>
    decreases k,
{
    if k == 0 {
        Seq::empty()
    } else {
        tail(c, parts, (k - 1) as nat) + seq![Instr::End] + machine::flat(
            block_nodes(c, parts, k - 1),
        )
    }
}

proof fn lemma_tree_flat(c: Ctx, parts: Seq<Seq<Node>>, k: nat)
    ensures
        machine::flat(tree(c, parts, k)) == wasm::repeated(k, Instr::Block(BlockTy::Empty)) + seq![
            Instr::LocalGet(BLOCK),
            Instr::BrTable(c.block_count() as u32, 0),
        ] + tail(c, parts, k),
    decreases k,
{
    let head = seq![Instr::LocalGet(BLOCK), Instr::BrTable(c.block_count() as u32, 0)];
    let open = Instr::Block(BlockTy::Empty);
    if k == 0 {
        machine::lemma_flat_plains(head);
        assert(wasm::repeated(0, open) + head + tail(c, parts, 0) =~= head);
    } else {
        let inner = tree(c, parts, (k - 1) as nat);
        lemma_tree_flat(c, parts, (k - 1) as nat);
        machine::lemma_flat_concat(seq![Node::Block(inner)], block_nodes(c, parts, k - 1));
        machine::lemma_flat_one(Node::Block(inner));
        lemma_flat_block(inner);
        assert(machine::flat(tree(c, parts, k)) =~= wasm::repeated(k, open) + head + tail(
            c,
            parts,
            k,
        ));
    }
}

proof fn lemma_prefix_lowered(c: Ctx, k: nat, n: nat)
    requires
        k <= n,
        body::lower_blocks(c, n, body::start(c)) is Some,
    ensures
        body::lower_blocks(c, k, body::start(c)) is Some,
    decreases n,
{
    if k < n {
        lemma_prefix_lowered(c, k, (n - 1) as nat);
    }
}

#[verifier::rlimit(40)]
proof fn lemma_blocks_code(c: Ctx, parts: Seq<Seq<Node>>, k: nat)
    requires
        is_method(c),
        reads(c, parts),
        k <= c.block_count(),
        body::lower_blocks(c, k, body::start(c)) is Some,
    ensures
        before_block(c, k as int).code == body::start(c).code + tail(c, parts, k),
        before_block(c, k as int).entry.len() == c.block_count(),
        keeps(body::start(c).entry, before_block(c, k as int).entry),
    decreases k,
{
    if k == 0 {
        assert(body::start(c).code + tail(c, parts, 0) =~= body::start(c).code);
    } else {
        lemma_blocks_code(c, parts, (k - 1) as nat);
        let before = before_block(c, k - 1);
        let after = before_block(c, k as int);
        assert(was_lowered(c, k - 1));
        assert(after == body::lower_block(c, k - 1, before)->0);
        lemma_block_code(c, parts, k - 1);
        let more = seq![Instr::End] + machine::flat(block_nodes(c, parts, k - 1));
        assert(after.code =~= before.code + more);
        assert(tail(c, parts, k) =~= tail(c, parts, (k - 1) as nat) + more);
        assert(after.code =~= body::start(c).code + tail(c, parts, k));
    }
}

/// What has been noted by the start of block `k` is noted at the end.
proof fn lemma_blocks_keep(c: Ctx, parts: Seq<Seq<Node>>, k: nat, n: nat)
    requires
        is_method(c),
        reads(c, parts),
        k <= n <= c.block_count(),
        body::lower_blocks(c, n, body::start(c)) is Some,
    ensures
        keeps(before_block(c, k as int).entry, before_block(c, n as int).entry),
    decreases n,
{
    lemma_blocks_code(c, parts, n);
    if k < n {
        lemma_prefix_lowered(c, (n - 1) as nat, n);
        lemma_blocks_keep(c, parts, k, (n - 1) as nat);
        lemma_blocks_code(c, parts, (n - 1) as nat);
        lemma_block_code(c, parts, n - 1);
    }
}

/// The structure of a method's whole code, with the loop over `inner` in it.
pub open spec fn method_nodes(c: Ctx, inner: Seq<Node>) -> Seq<Node> {
    machine::plains(body::prologue(c.target)) + seq![
        Node::Loop(inner),
        Node::Plain(Instr::Unreachable),
    ]
}

proof fn lemma_whole(
    before: Seq<Instr>,
    open: Seq<Instr>,
    blocks: Seq<Instr>,
    head: Seq<Instr>,
    tail: Seq<Instr>,
)
    ensures
        before + (open + blocks + head) + tail + seq![Instr::End, Instr::Unreachable, Instr::End]
            == before + (open + (blocks + head + tail) + seq![Instr::End] + seq![Instr::Unreachable])
            + seq![Instr::End],
{
    assert(before + (open + blocks + head) + tail + seq![
        Instr::End,
        Instr::Unreachable,
        Instr::End,
    ] =~= before + (open + (blocks + head + tail) + seq![Instr::End] + seq![Instr::Unreachable])
        + seq![Instr::End]);
}

/// The method's nodes written out.
proof fn lemma_method_flat(c: Ctx, inner: Seq<Node>)
    ensures
        machine::flat(method_nodes(c, inner)) == body::prologue(c.target) + (seq![
            Instr::Loop(BlockTy::Empty),
        ] + machine::flat(inner) + seq![Instr::End] + seq![Instr::Unreachable]),
{
    let round = seq![Node::Loop(inner)];
    let stop = seq![Node::Plain(Instr::Unreachable)];
    let rest = seq![Node::Loop(inner), Node::Plain(Instr::Unreachable)];
    assert(rest =~= round + stop);
    machine::lemma_flat_concat(machine::plains(body::prologue(c.target)), rest);
    machine::lemma_flat_plains(body::prologue(c.target));
    machine::lemma_flat_concat(round, stop);
    machine::lemma_flat_one(Node::Loop(inner));
    machine::lemma_flat_one(Node::Plain(Instr::Unreachable));
    lemma_flat_block(inner);
    machine::lemma_flat_plain(Instr::Unreachable);
}

proof fn lemma_method_code(c: Ctx, parts: Seq<Seq<Node>>)
    requires
        is_method(c),
        reads(c, parts),
        body::body_code(c) is Some,
    ensures
        body::body_code(c) == Some(
            machine::flat(method_nodes(c, tree(c, parts, c.block_count()))) + seq![Instr::End],
        ),
{
    let n = c.block_count();
    lemma_blocks_code(c, parts, n);
    lemma_tree_flat(c, parts, n);
    lemma_method_flat(c, tree(c, parts, n));
    lemma_whole(
        body::prologue(c.target),
        seq![Instr::Loop(BlockTy::Empty)],
        wasm::repeated(n, Instr::Block(BlockTy::Empty)),
        seq![Instr::LocalGet(BLOCK), Instr::BrTable(n as u32, 0)],
        tail(c, parts, n),
    );
}

// The run.

/// No branch brings operands to a block whose code stands in front of the branch, unless another
/// branch in front of that code brings as many; and none brings operands to a handler.
pub open spec fn is_settled(c: Ctx) -> bool {
    let last = (body::lower_blocks(c, c.block_count(), body::start(c))->0).entry;
    forall|b: int|
        0 <= b < c.block_count() && ((#[trigger] (body::lower_blocks(
            c,
            b as nat,
            body::start(c),
        )->0).entry[b]) is None || blocks::is_catch(c.exceptions, c.leaders()[b])) ==> (
        last[b] matches Some(d) ==> d == 0)
}

/// Op `i` may be followed by op `t`.
pub open spec fn leads_to(c: Ctx, i: int, t: usize) -> bool {
    blocks::jumps_to(c.ops, c.switches, i, t) || (i + 1 == t && (is_branch(c.ops[i])
        || !op::ends_block(c.ops[i])))
}

/// What a branch leads back to can be come to from above as well, and handlers only by an error.
pub open spec fn is_laid_out(c: Ctx) -> bool {
    forall|i: int, t: usize|
        0 <= i < c.ops.len() && t < c.ops.len() && #[trigger] leads_to(c, i, t)
            ==> !blocks::is_catch(c.exceptions, t) && (0 < t <= i ==> exists|j: int|
            0 <= j < t && leads_to(c, j, t))
}

/// What one gets by running the code of the next op and what follows.
spec fn continued<X>(
    e: Engine<X>,
    c: Ctx,
    parts: Seq<Seq<Node>>,
    s: At<X>,
    fuel: nat,
) -> Option<(Val, X)> {
    if fuel == 0 {
        None
    } else {
        match op_move(e, c, parts, s) {
            Move::To(t) => followed(e, c, parts, t, (fuel - 1) as nat),
            Move::Done(v, x) => Some((v, x)),
            Move::Stuck => None,
        }
    }
}

/// The machine is at the start of block `b`, where `s` stands, with the operands put away.
spec fn enters<X>(c: Ctx, b: int, s: At<X>, m: Going<X>) -> bool {
    &&& 0 <= b < c.block_count()
    &&& s.pc == c.leaders()[b]
    &&& s.going.stack.len() == found(c, b)
    &&& s.going.locals.len() == LOCALS
    &&& m.stack.len() == 0
    &&& carries(m, s.going.stack)
    &&& m.locals[BLOCK as int] == Val::I32(b as i32)
    &&& alike(Going { stack: s.going.stack, ..m }, s.going)
}

/// Where the code of a block has come to.
#[verifier::reject_recursive_types(X)]
struct Onward<X> {
    block: int,
    at: At<X>,
    machine: Going<X>,
    fuel: nat,
}

/// The code of block `b` comes to what `r` says: it returns `v`, or goes on to another block.
spec fn comes_to<X>(
    e: Engine<X>,
    c: Ctx,
    parts: Seq<Seq<Node>>,
    b: int,
    o: Out<X>,
    r: Option<Onward<X>>,
    v: (Val, X),
    left: nat,
) -> bool {
    match r {
        None => o == Out::Returned(v.0, v.1),
        Some(to) => {
            &&& o == Out::Branch(c.loop_depth(b) as nat, to.machine)
            &&& enters(c, to.block, to.at, to.machine)
            &&& followed(e, c, parts, to.at, to.fuel) == Some(v)
            &&& to.fuel <= left
        },
    }
}

/// Lowering has come to the end.
spec fn is_lowered(c: Ctx, parts: Seq<Seq<Node>>) -> bool {
    &&& is_method(c)
    &&& reads(c, parts)
    &&& is_settled(c)
    &&& body::lower_blocks(c, c.block_count(), body::start(c)) is Some
    &&& forall|i: int| 0 <= i < parts.len() ==> is_apart(machine::flat(#[trigger] parts[i]))
}

proof fn lemma_was_lowered(c: Ctx, parts: Seq<Seq<Node>>, b: int)
    requires
        is_lowered(c, parts),
        0 <= b < c.block_count(),
    ensures
        was_lowered(c, b),
{
    lemma_prefix_lowered(c, (b + 1) as nat, c.block_count());
    lemma_prefix_lowered(c, b as nat, c.block_count());
    lemma_blocks_code(c, parts, b as nat);
}

/// A block finds as many operands as lowering has noted in any block.
proof fn lemma_found(c: Ctx, parts: Seq<Seq<Node>>, b: int, to: int, d: nat)
    requires
        is_lowered(c, parts),
        0 <= b < c.block_count(),
        0 <= to < c.block_count(),
        d <= SPILL_POOL,
        before_block(c, b + 1).entry[to] == Some(d as usize),
    ensures
        found(c, to) == d,
{
    let n = c.block_count();
    lemma_blocks_keep(c, parts, (b + 1) as nat, n);
    lemma_prefix_lowered(c, (b + 1) as nat, n);
    lemma_blocks_code(c, parts, (b + 1) as nat);
    lemma_blocks_keep(c, parts, to as nat, n);
    lemma_prefix_lowered(c, to as nat, n);
    lemma_blocks_code(c, parts, to as nat);
    assert(before_block(c, n as int).entry[to] == Some(d as usize));
    if before_block(c, to).entry[to] is None {
        assert((body::lower_blocks(c, to as nat, body::start(c))->0).entry[to] is None);
    }
}

/// No block is noted to find operands.
spec fn is_quiet(entry: Seq<Option<usize>>) -> bool {
    forall|b: int| 0 <= b < entry.len() ==> ((#[trigger] entry[b]) matches Some(d) ==> d == 0)
}

proof fn lemma_block_number(c: Ctx, t: usize)
    requires
        blocks::block_of(c.leaders(), t) is Some,
    ensures
        0 <= blocks::block_of(c.leaders(), t)->0 < c.block_count(),
{
    let k = choose|k: int| 0 <= k < c.leaders().len() && c.leaders()[k] == t;
    assert(c.leaders()[c.leaders().index_of(t)] == t);
}

proof fn lemma_landings_quiet(c: Ctx, b: int, cases: Seq<usize>, k: nat, st: St)
    requires
        is_quiet(st.entry),
        st.entry.len() == c.block_count(),
        body::landings(c, b, cases, k, st) is Some,
    ensures
        is_quiet((body::landings(c, b, cases, k, st)->0).entry),
        (body::landings(c, b, cases, k, st)->0).entry.len() == st.entry.len(),
    decreases k,
{
    if k > 0 {
        lemma_landings_quiet(c, b, cases, (k - 1) as nat, st);
        let before = body::landings(c, b, cases, (k - 1) as nat, st)->0;
        lemma_block_number(c, cases[k - 1]);
        lemma_record_quiet(before, blocks::block_of(c.leaders(), cases[k - 1])->0, 0);
    }
}

proof fn lemma_record_quiet(st: St, b: int, d: nat)
    requires
        is_quiet(st.entry),
        0 <= b < st.entry.len(),
        d == 0,
        body::record(st, b, d) is Some,
    ensures
        is_quiet((body::record(st, b, d)->0).entry),
        (body::record(st, b, d)->0).entry.len() == st.entry.len(),
{
    if st.entry[b] is None {
        let after = st.entry.update(b, Some(d as usize));
        assert forall|k: int| 0 <= k < after.len() implies ((#[trigger] after[k]) matches Some(x)
            ==> x == 0) by {
            assert(k == b || after[k] == st.entry[k]);
        }
    }
}

proof fn lemma_step_quiet(c: Ctx, b: int, i: int, st: St)
    requires
        body::int_model(c.ops),
        0 <= b < c.block_count(),
        is_quiet(st.entry),
        st.entry.len() == c.block_count(),
        body::step(c, b, i, st) is Some,
    ensures
        is_quiet((body::step(c, b, i, st)->0).entry),
        (body::step(c, b, i, st)->0).entry.len() == st.entry.len(),
{
    let o = c.ops[i];
    if let JitOp::Jump(t) = o {
        lemma_block_number(c, t);
        lemma_record_quiet(st, blocks::block_of(c.leaders(), t)->0, st.depth);
    } else if o is IfTrueBoxed || o is IfFalseBoxed {
        let tb = blocks::block_of(c.leaders(), op::branch_target(o)->0)->0;
        let d = (st.depth - 1) as nat;
        lemma_block_number(c, op::branch_target(o)->0);
        lemma_record_quiet(st, tb, d);
        lemma_record_quiet(body::record(st, tb, d)->0, b + 1, d);
    } else if let JitOp::LookupSwitch(k) = o {
        let sw = c.switches[k as int];
        let n = sw.cases@.len();
        let s1 = st.adding(body::select_case(n), st.depth);
        lemma_landings_quiet(c, b, sw.cases@, n, s1);
        let s2 = body::landings(c, b, sw.cases@, n, s1)->0;
        lemma_block_number(c, sw.default);
        lemma_record_quiet(s2, blocks::block_of(c.leaders(), sw.default)->0, 0);
    }
}

proof fn lemma_steps_quiet(c: Ctx, b: int, from: int, to: int, st: St)
    requires
        body::int_model(c.ops),
        0 <= b < c.block_count(),
        is_quiet(st.entry),
        st.entry.len() == c.block_count(),
        body::steps(c, b, from, to, st) is Some,
    ensures
        is_quiet((body::steps(c, b, from, to, st)->0).entry),
        (body::steps(c, b, from, to, st)->0).entry.len() == st.entry.len(),
    decreases to - from,
{
    if from < to {
        lemma_steps_quiet(c, b, from, to - 1, st);
        lemma_step_quiet(c, b, to - 1, body::steps(c, b, from, to - 1, st)->0);
    }
}

proof fn lemma_blocks_quiet(c: Ctx, n: nat)
    requires
        body::int_model(c.ops),
        n <= c.block_count(),
        body::lower_blocks(c, n, body::start(c)) is Some,
    ensures
        is_quiet(before_block(c, n as int).entry),
        before_block(c, n as int).entry.len() == c.block_count(),
    decreases n,
{
    if n > 0 {
        let b = n - 1;
        lemma_blocks_quiet(c, b as nat);
        lemma_steps_quiet(c, b, c.leaders()[b] as int, c.end(b), opened(c, b));
        let st = at_end(c, b);
        let noted = body::record(st, b + 1, st.depth);
        if b + 1 < c.block_count() && c.carries(st.depth) && noted is Some {
            lemma_record_quiet(st, b + 1, st.depth);
        }
    }
}

/// In the int model no block finds operands.
proof fn lemma_raw_found(c: Ctx, b: int)
    requires
        body::int_model(c.ops),
        0 <= b < c.block_count(),
        body::lower_blocks(c, c.block_count(), body::start(c)) is Some,
    ensures
        found(c, b) == 0,
{
    lemma_prefix_lowered(c, b as nat, c.block_count());
    lemma_blocks_quiet(c, b as nat);
}

/// A handler finds no operands.
proof fn lemma_handler_found(c: Ctx, parts: Seq<Seq<Node>>, b: int)
    requires
        is_lowered(c, parts),
        0 <= b < c.block_count(),
        is_handler(c, b),
    ensures
        found(c, b) == 0,
{
    let n = c.block_count();
    lemma_blocks_keep(c, parts, b as nat, n);
    lemma_prefix_lowered(c, b as nat, n);
    lemma_blocks_code(c, parts, b as nat);
    let noted = (body::lower_blocks(c, b as nat, body::start(c))->0).entry[b];
}

/// Within a block, no handler starts.
proof fn lemma_no_handler_inside(c: Ctx, b: int, i: int)
    requires
        is_method(c),
        0 <= b < c.block_count(),
        c.leaders()[b] < i < c.end(b),
    ensures
        !blocks::is_catch(c.exceptions, i as usize),
{
    lemma_block_range(c, b);
    if blocks::is_catch(c.exceptions, i as usize) {
        lemma_target_block(c, 0, i as usize);
        let k = target_of(c, i as usize);
        let l = c.leaders();
        blocks::leaders_are_the_block_starts(c.ops, c.switches, c.exceptions);
        if k <= b {
            assert(k == b || l[k] < l[b]);
        } else if k > b + 1 {
            assert(l[b + 1] < l[k]);
        }
    }
}

/// With the operands put away and the number of the block set, the block is entered.
proof fn lemma_enters<X>(c: Ctx, to: int, s: At<X>, m: Going<X>, n: Going<X>)
    requires
        0 <= to < c.block_count(),
        s.pc == c.leaders()[to],
        s.going.stack.len() == found(c, to),
        s.going.locals.len() == LOCALS,
        alike(m, s.going),
        put_away(m, n),
    ensures
        enters(c, to, s, n.with_local(BLOCK, Val::I32(to as i32))),
{
    let k = n.with_local(BLOCK, Val::I32(to as i32));
    assert forall|j: int| 0 <= j < s.going.stack.len() implies #[trigger] k.locals[SPILL_BASE + j]
        == s.going.stack[j] by {
        assert(n.locals[SPILL_BASE + j] == m.stack[j]);
    }
    assert forall|x: int|
        0 <= x < k.locals.len() && !is_hidden(x as u32) implies #[trigger] k.locals[x]
        == s.going.locals[x] by {
        assert(n.locals[x] == m.locals[x]);
    }
}

/// The machine is in block `b` at op `i`, where `s` stands.
spec fn is_at<X>(c: Ctx, b: int, i: int, s: At<X>, m: Going<X>) -> bool {
    &&& 0 <= b < c.block_count()
    &&& c.leaders()[b] <= i <= c.end(b)
    &&& i == c.end(b) ==> !op::ends_block(c.ops[i - 1])
    &&& s.pc == i
    &&& s.going.stack.len() == height_at(c, b, c.leaders()[b] as int, i, opened(c, b))
    &&& m.locals.len() == LOCALS
    &&& alike(m, s.going)
}

/// At the end of a block that runs on into the next.
proof fn lemma_close_agrees<X>(
    e: Engine<X>,
    c: Ctx,
    parts: Seq<Seq<Node>>,
    b: int,
    s: At<X>,
    m: Going<X>,
    left: nat,
    v: (Val, X),
) -> (r: Option<Onward<X>>)
    requires
        is_lowered(c, parts),
        is_at(c, b, c.end(b), s, m),
        followed(e, c, parts, s, left) == Some(v),
    ensures
        comes_to(e, c, parts, b, go(e, rest_nodes(c, parts, b, c.end(b)), m), r, v, left),
{
    let end = c.end(b);
    lemma_block_range(c, b);
    lemma_was_lowered(c, parts, b);
    lemma_block_code(c, parts, b);
    assert(follow(e, c, parts, s) !is Stuck);
    assert(landed(e, c, s) is Some);
    assert(end < c.ops.len());
    assert(rest_ops(c, parts, b, end, end) =~= Seq::empty());
    assert(rest_nodes(c, parts, b, end) =~= close_nodes(c, b));
    let d = m.stack.len();
    lemma_found(c, parts, b, b + 1, d);
    let n = lemma_goto(e, b + 1, c.loop_depth(b), m);
    lemma_enters(c, b + 1, s, m, n);
    Some(
        Onward {
            block: b + 1,
            at: s,
            machine: n.with_local(BLOCK, Val::I32((b + 1) as i32)),
            fuel: left,
        },
    )
}

/// What is known of op `i` of block `b`.
#[verifier::rlimit(30)]
proof fn lemma_at_op<X>(
    e: Engine<X>,
    c: Ctx,
    parts: Seq<Seq<Node>>,
    b: int,
    i: int,
    s: At<X>,
    m: Going<X>,
)
    requires
        is_lowered(c, parts),
        is_at(c, b, i, s, m),
        i < c.end(b),
    ensures
        ({
            let d = s.going.stack.len();
            let from = c.leaders()[b] as int;
            &&& 0 <= i < c.ops.len()
            &&& go(e, rest_nodes(c, parts, b, i), m) == (match go(
                e,
                op_nodes(c, parts, b, i, d),
                m,
            ) {
                Out::Next(m2) => go(e, rest_nodes(c, parts, b, i + 1), m2),
                o => o,
            })
            &&& notes(c, b, i, d, before_block(c, b + 1).entry)
            &&& !op::ends_block(c.ops[i]) ==> height_at(c, b, from, i + 1, opened(c, b))
                == height_after(c, i, d)
            &&& op::ends_block(c.ops[i]) ==> c.end(b) == i + 1
        }),
{
    lemma_block_range(c, b);
    lemma_was_lowered(c, parts, b);
    lemma_block_code(c, parts, b);
    let from = c.leaders()[b] as int;
    let end = c.end(b);
    let open = opened(c, b);
    lemma_steps_prefix(c, b, from, i, end, open);
    lemma_steps_prefix(c, b, from, i + 1, end, open);
    lemma_steps_code(c, parts, b, from, i, open);
    let st = body::steps(c, b, from, i, open)->0;
    lemma_op_code(c, parts, b, i, st);
    lemma_steps_code(c, parts, b, from, i + 1, open);
    lemma_steps_keep(c, parts, b, from, i + 1, end, open);
    if op::ends_block(c.ops[i]) {
        lemma_ender_is_last(c, b, i);
    }
    lemma_rest_front(c, parts, b, i, end);
    let d = s.going.stack.len();
    let later = rest_nodes(c, parts, b, i + 1);
    assert(rest_nodes(c, parts, b, i) =~= op_nodes(c, parts, b, i, d) + later);
    lemma_go_concat(e, op_nodes(c, parts, b, i, d), later, m);
    let after = body::steps(c, b, from, i + 1, open)->0;
    lemma_notes_keep(c, b, i, d, after.entry, before_block(c, b + 1).entry);
}

proof fn lemma_notes_keep(
    c: Ctx,
    b: int,
    i: int,
    d: nat,
    before: Seq<Option<usize>>,
    after: Seq<Option<usize>>,
)
    requires
        is_method(c),
        0 <= i < c.ops.len(),
        0 <= b < c.block_count(),
        before.len() == c.block_count(),
        notes(c, b, i, d, before),
        keeps(before, after),
    ensures
        notes(c, b, i, d, after),
{
    if op::branch_target(c.ops[i]) is Some {
        lemma_branch_block(c, i);
    }
    if c.ops[i] is LookupSwitch {
        lemma_case_blocks(c, i);
        let cases = c.switches[c.ops[i]->LookupSwitch_0 as int].cases@;
        assert forall|j: int| 0 <= j < cases.len() implies after[target_of(
            c,
            #[trigger] cases[j],
        )] == Some(0usize) by {
            assert(before[target_of(c, cases[j])] == Some(0usize));
        }
    }
}

/// An op that ends its block is its last.
proof fn lemma_ender_is_last(c: Ctx, b: int, i: int)
    requires
        is_method(c),
        0 <= b < c.block_count(),
        c.leaders()[b] <= i < c.end(b),
        op::ends_block(c.ops[i]),
    ensures
        c.end(b) == i + 1,
{
    lemma_block_range(c, b);
    if i + 1 < c.ops.len() {
        blocks::leaders_are_the_block_starts(c.ops, c.switches, c.exceptions);
        let l = c.leaders();
        let next = (i + 1) as usize;
        assert(blocks::is_leader(c.ops, c.switches, c.exceptions, next));
        assert(l.contains(next));
        let q = choose|q: int| 0 <= q < l.len() && l[q] == next;
        if q <= b {
            assert(q == b || l[q] < l[b]);
        }
        assert(b + 1 <= q);
        assert(b + 1 == q || l[b + 1] < l[q]);
    }
}

proof fn lemma_jump_agrees<X>(
    e: Engine<X>,
    c: Ctx,
    parts: Seq<Seq<Node>>,
    b: int,
    i: int,
    s: At<X>,
    m: Going<X>,
    left: nat,
    v: (Val, X),
) -> (r: Option<Onward<X>>)
    requires
        is_lowered(c, parts),
        is_at(c, b, i, s, m),
        i < c.end(b),
        c.ops[i] is Jump,
        go(e, parts[i], s.going) is Next,
        continued(e, c, parts, s, left) == Some(v),
    ensures
        comes_to(
            e,
            c,
            parts,
            b,
            go(e, rest_nodes(c, parts, b, i), m),
            r,
            v,
            (left - 1) as nat,
        ),
{
    lemma_at_op(e, c, parts, b, i, s, m);
    let t = c.ops[i]->Jump_0;
    lemma_branch_block(c, i);
    let tb = target_of(c, t);
    lemma_was_lowered(c, parts, b);
    lemma_found(c, parts, b, tb, m.stack.len());
    assert(op_move(e, c, parts, s) == Move::To(At { pc: t as int, going: s.going }));
    let n = lemma_goto(e, tb, c.loop_depth(b), m);
    let s2 = At { pc: t as int, going: s.going };
    lemma_enters(c, tb, s2, m, n);
    Some(
        Onward {
            block: tb,
            at: s2,
            machine: n.with_local(BLOCK, Val::I32(tb as i32)),
            fuel: (left - 1) as nat,
        },
    )
}

/// The choice between two blocks, and the operands put away.
proof fn lemma_choose<X>(e: Engine<X>, taken: int, other: int, label: u32, x: i32, m: Going<X>) -> (n:
    Going<X>)
    requires
        m.locals.len() == LOCALS,
        m.stack.len() >= 1,
        m.top() == Val::I32(x),
        m.popped().stack.len() <= SPILL_POOL,
    ensures
        ({
            let next = if x != 0 {
                taken
            } else {
                other
            };
            go(
                e,
                seq![choice(taken, other)] + machine::plains(
                    body::spill((m.stack.len() - 1) as nat) + seq![Instr::Br(label)],
                ),
                m,
            ) == Out::Branch(label as nat, n.with_local(BLOCK, Val::I32(next as i32)))
        }),
        put_away(m.popped(), n),
{
    let next = if x != 0 {
        taken
    } else {
        other
    };
    let pick = choice(taken, other);
    let d = (m.stack.len() - 1) as nat;
    let away = machine::plains(body::spill(d));
    let br = seq![Node::Plain(Instr::Br(label))];
    let last = machine::plains(body::spill(d) + seq![Instr::Br(label)]);
    assert(last =~= away + br);
    lemma_go_concat(e, seq![pick], last, m);
    lemma_go_one(e, pick, m);
    let p = m.popped();
    lemma_set_block(e, taken, p);
    lemma_set_block(e, other, p);
    lemma_go_if(e, machine::plains(set_block(taken)), machine::plains(set_block(other)), x, m);
    let q = p.with_local(BLOCK, Val::I32(next as i32));
    assert(go_node(e, pick, m) == Out::Next(q));
    lemma_go_concat(e, away, br, q);
    let n = lemma_spill(e, q);
    lemma_go_one(e, Node::Plain(Instr::Br(label)), n);
    let r = Going { locals: n.locals.update(BLOCK as int, p.locals[BLOCK as int]), ..n };
    assert(n.locals[BLOCK as int] == q.locals[BLOCK as int]);
    assert(r.with_local(BLOCK, Val::I32(next as i32)) =~= n);
    assert forall|j: int| 0 <= j < p.stack.len() implies #[trigger] r.locals[SPILL_BASE + j]
        == p.stack[j] by {
        assert(n.locals[SPILL_BASE + j] == q.stack[j]);
    }
    assert forall|y: int|
        0 <= y < p.locals.len() && !(SPILL_BASE <= y < SPILL_BASE + p.stack.len()) implies #[trigger] r.locals[y]
        == p.locals[y] by {
        assert(n.locals[y] == q.locals[y]);
    }
    r
}

proof fn lemma_go_if<X>(e: Engine<X>, yes: Seq<Node>, no: Seq<Node>, x: i32, m: Going<X>)
    requires
        m.stack.len() >= 1,
        m.top() == Val::I32(x),
    ensures
        go_node(e, Node::If(yes, no), m) == if x != 0 {
            leave(go(e, yes, m.popped()), m.popped().stack)
        } else {
            leave(go(e, no, m.popped()), m.popped().stack)
        },
{
    reveal_with_fuel(go_node, 2);
}

#[verifier::rlimit(30)]
proof fn lemma_branch_agrees<X>(
    e: Engine<X>,
    c: Ctx,
    parts: Seq<Seq<Node>>,
    b: int,
    i: int,
    s: At<X>,
    m: Going<X>,
    left: nat,
    v: (Val, X),
) -> (r: Option<Onward<X>>)
    requires
        is_lowered(c, parts),
        is_at(c, b, i, s, m),
        i < c.end(b),
        is_branch(c.ops[i]),
        go(e, parts[i], s.going) is Next,
        continued(e, c, parts, s, left) == Some(v),
    ensures
        comes_to(
            e,
            c,
            parts,
            b,
            go(e, rest_nodes(c, parts, b, i), m),
            r,
            v,
            (left - 1) as nat,
        ),
{
    lemma_at_op(e, c, parts, b, i, s, m);
    lemma_block_range(c, b);
    let t = op::branch_target(c.ops[i])->0;
    lemma_branch_block(c, i);
    let tb = target_of(c, t);
    let d = s.going.stack.len();
    let label = c.loop_depth(b);
    lemma_was_lowered(c, parts, b);
    lemma_go_alike(e, parts[i], m, s.going);
    let s1 = go(e, parts[i], s.going)->Next_0;
    let m1 = go(e, parts[i], m)->Next_0;
    let x = s1.top()->I32_0;
    let rest = left_by_branch(c.ops[i], d) as nat;
    let last = seq![choice(tb, b + 1)] + machine::plains(
        body::spill(rest) + seq![Instr::Br(label)],
    );
    lemma_go_concat(e, parts[i], last, m);
    let n = lemma_choose(e, tb, b + 1, label, x, m1);
    let next = if x != 0 {
        tb
    } else {
        b + 1
    };
    if is_raw_branch(c.ops[i]) {
        assert(body::is_int_model(c.ops[i]));
        if next == c.block_count() {
            let past = At { pc: c.ops.len() as int, going: s1.popped() };
            assert(op_move(e, c, parts, s) == Move::To(past));
            assert(landed(e, c, past) is None);
        }
        lemma_raw_found(c, next);
    } else {
        lemma_found(c, parts, b, next, rest);
    }
    let s2 = At { pc: c.leaders()[next] as int, going: s1.popped() };
    assert(op_move(e, c, parts, s) == Move::To(s2));
    lemma_enters(c, next, s2, m1.popped(), n);
    Some(
        Onward {
            block: next,
            at: s2,
            machine: n.with_local(BLOCK, Val::I32(next as i32)),
            fuel: (left - 1) as nat,
        },
    )
}

// Handlers.

/// The block that a chain of tests sets, if the op index is `w`; else `old`.
spec fn set_by_chain(catches: Seq<(u64, i32)>, w: u64, old: Val) -> Val
    decreases catches.len(),
{
    if catches.len() == 0 {
        old
    } else if catches.last().0 == w {
        Val::I32(catches.last().1)
    } else {
        set_by_chain(catches.drop_last(), w, old)
    }
}

proof fn lemma_chain<X>(e: Engine<X>, catches: Seq<(u64, i32)>, w: u64, m: Going<X>)
    requires
        m.locals.len() == LOCALS,
        m.locals[SCRATCH64 as int] == Val::I64(w),
    ensures
        go(e, chain_nodes(catches), m) == Out::Next(
            m.with_local(BLOCK, set_by_chain(catches, w, m.locals[BLOCK as int])),
        ),
    decreases catches.len(),
{
    if catches.len() == 0 {
        assert(m.with_local(BLOCK, m.locals[BLOCK as int]) =~= m);
    } else {
        let (at, to) = catches.last();
        lemma_chain(e, catches.drop_last(), w, m);
        let k = m.with_local(
            BLOCK,
            set_by_chain(catches.drop_last(), w, m.locals[BLOCK as int]),
        );
        let get = Instr::LocalGet(SCRATCH64);
        let put = Instr::I64Const(at);
        let eq = Instr::Rel(Relop::I64Eq);
        let test = seq![get, put, eq];
        let when = Node::When(machine::plains(set_block(to as int)));
        lemma_go_concat(
            e,
            chain_nodes(catches.drop_last()),
            machine::plains(test) + seq![when],
            m,
        );
        lemma_go_concat(e, machine::plains(test), seq![when], k);
        assert(test =~= seq![get] + seq![put, eq]);
        lemma_go_first(e, get, seq![put, eq], k);
        let k1 = k.pushed(Val::I64(w));
        assert(seq![put, eq] =~= seq![put] + seq![eq]);
        lemma_go_first(e, put, seq![eq], k1);
        let k2 = k1.pushed(Val::I64(at));
        assert(seq![eq] =~= seq![eq] + Seq::<Instr>::empty());
        lemma_go_first(e, eq, Seq::empty(), k2);
        assert(machine::plains(Seq::empty()) =~= Seq::<Node>::empty());
        let k3 = k.pushed(machine::bit(w == at));
        assert(k2.popped().popped() =~= k);
        assert(go(e, machine::plains(test), k) == Out::Next(k3));
        lemma_go_one(e, when, k3);
        assert(k3.popped() =~= k);
        lemma_set_block(e, to as int, k);
        assert(k.with_local(BLOCK, Val::I32(to)) =~= m.with_local(BLOCK, Val::I32(to)));
        reveal_with_fuel(go_node, 2);
    }
}

/// The chain sets the block of the handler that starts at op `w`.
proof fn lemma_chain_finds(c: Ctx, w: usize, n: nat, old: Val)
    requires
        is_method(c),
        w < c.ops.len(),
        blocks::is_catch(c.exceptions, w),
        target_of(c, w) < n <= c.block_count(),
    ensures
        set_by_chain(body::catch_list(c.leaders(), c.exceptions, n), w as u64, old) == Val::I32(
            target_of(c, w) as i32,
        ),
    decreases n,
{
    lemma_target_block(c, 0, w);
    let k = target_of(c, w);
    let l = c.leaders();
    blocks::leaders_are_the_block_starts(c.ops, c.switches, c.exceptions);
    let list = body::catch_list(l, c.exceptions, n);
    let rest = body::catch_list(l, c.exceptions, (n - 1) as nat);
    if k == n - 1 {
        assert(list.last() == (l[k] as u64, k as i32));
    } else {
        lemma_chain_finds(c, w, (n - 1) as nat, old);
        assert(l[k] < l[n - 1]);
        if blocks::is_catch(c.exceptions, l[n - 1]) {
            assert(list.drop_last() =~= rest);
        }
    }
}

/// What the way to a handler comes to, out of `label` blocks.
spec fn reaches<X>(
    e: Engine<X>,
    c: Ctx,
    parts: Seq<Seq<Node>>,
    o: Out<X>,
    label: nat,
    r: Option<Onward<X>>,
    v: (Val, X),
    left: nat,
) -> bool {
    match r {
        None => o == Out::Returned(v.0, v.1),
        Some(to) => {
            &&& o == Out::Branch(label, to.machine)
            &&& enters(c, to.block, to.at, to.machine)
            &&& followed(e, c, parts, to.at, to.fuel) == Some(v)
            &&& to.fuel <= left
        },
    }
}

/// What becomes of the move `to`.
spec fn comes_of<X>(
    e: Engine<X>,
    c: Ctx,
    parts: Seq<Seq<Node>>,
    to: Move<X>,
    left: nat,
) -> Option<(Val, X)> {
    match to {
        Move::To(t) => followed(e, c, parts, t, left),
        Move::Done(v, x) => Some((v, x)),
        Move::Stuck => None,
    }
}

proof fn lemma_any<X>(e: Engine<X>, w: u64, m: Going<X>)
    requires
        m.locals.len() == LOCALS,
        m.stack == seq![Val::I64(w)],
    ensures
        go(e, machine::plains(any_code()), m) == Out::Next(
            m.popped().with_local(SCRATCH64, Val::I64(w)).pushed(machine::bit(w as i64 >= 0)),
        ),
{
    let set = Instr::LocalSet(SCRATCH64);
    let get = Instr::LocalGet(SCRATCH64);
    let zero = Instr::I64Const(0);
    let ge = Instr::Rel(Relop::I64GeS);
    let k = m.popped().with_local(SCRATCH64, Val::I64(w));
    assert(any_code() =~= seq![set] + seq![get, zero, ge]);
    lemma_go_first(e, set, seq![get, zero, ge], m);
    assert(seq![get, zero, ge] =~= seq![get] + seq![zero, ge]);
    lemma_go_first(e, get, seq![zero, ge], k);
    let k1 = k.pushed(Val::I64(w));
    assert(seq![zero, ge] =~= seq![zero] + seq![ge]);
    lemma_go_first(e, zero, seq![ge], k1);
    let k2 = k1.pushed(Val::I64(0));
    assert(seq![ge] =~= seq![ge] + Seq::<Instr>::empty());
    lemma_go_first(e, ge, Seq::empty(), k2);
    assert(machine::plains(Seq::empty()) =~= Seq::<Node>::empty());
    assert(k2.popped().popped() =~= k);
    assert(0u64 as i64 == 0i64);
}

/// The way to a handler does what is said of it.
proof fn lemma_handled<X>(
    e: Engine<X>,
    c: Ctx,
    parts: Seq<Seq<Node>>,
    i: int,
    label: u32,
    s: Going<X>,
    m: Going<X>,
    left: nat,
    v: (Val, X),
) -> (r: Option<Onward<X>>)
    requires
        is_lowered(c, parts),
        alike(m, s),
        m.locals.len() == LOCALS,
        m.stack.len() == 0,
        label >= 1,
        comes_of(e, c, parts, handled(e, c, i, s), left) == Some(v),
    ensures
        reaches(
            e,
            c,
            parts,
            go(e, dispatch_nodes(c, i, label), m),
            (label - 1) as nat,
            r,
            v,
            left,
        ),
{
    let ask = machine::plains(ask_code(i));
    let any = machine::plains(any_code());
    let chain = chain_nodes(c.catches());
    let br = machine::plains(seq![Instr::Br(label)]);
    let bail = seq![Instr::I64Const(UNDEFINED_BITS), Instr::Return];
    let pick = Node::If(chain + br, machine::plains(bail));
    machine::lemma_flat_plains(ask_code(i));
    lemma_go_alike(e, ask, m, s);
    lemma_go_concat(e, ask, any + seq![pick], m);
    let ns = go(e, ask, s)->Next_0;
    let nm = go(e, ask, m)->Next_0;
    let w = ns.top()->I64_0;
    assert(nm.stack =~= seq![Val::I64(w)]);
    lemma_any(e, w, nm);
    lemma_go_concat(e, any, seq![pick], nm);
    let k = nm.popped().with_local(SCRATCH64, Val::I64(w));
    let k1 = k.pushed(machine::bit(w as i64 >= 0));
    lemma_go_one(e, pick, k1);
    assert(k1.popped() =~= k);
    let x: i32 = if w as i64 >= 0 {
        1
    } else {
        0
    };
    lemma_go_if(e, chain + br, machine::plains(bail), x, k1);
    if w as i64 >= 0 {
        lemma_chain(e, c.catches(), w, k);
        lemma_go_concat(e, chain, br, k);
        let hb = target_of(c, w as usize);
        lemma_target_block(c, 0, w as usize);
        lemma_chain_finds(c, w as usize, c.block_count(), k.locals[BLOCK as int]);
        let done = k.with_local(BLOCK, Val::I32(hb as i32));
        assert(br =~= seq![Node::Plain(Instr::Br(label))]);
        lemma_go_one(e, Node::Plain(Instr::Br(label)), done);
        lemma_go_plain(e, Instr::Br(label), done);
        lemma_handler_found(c, parts, hb);
        let at = At { pc: w as int, going: ns.popped().with_local(SCRATCH64, ns.top()) };
        assert(done.stack.len() == 0);
        assert(at.going.stack =~= Seq::empty());
        assert(Going { stack: at.going.stack, ..done } =~= done);
        assert forall|y: int|
            0 <= y < done.locals.len() && !is_hidden(y as u32) implies #[trigger] done.locals[y]
            == at.going.locals[y] by {
            assert(nm.locals[y] == ns.locals[y]);
        }
        Some(Onward { block: hb, at, machine: done, fuel: left })
    } else {
        let ret = Instr::Return;
        let undef = Instr::I64Const(UNDEFINED_BITS);
        assert(bail =~= seq![undef] + seq![ret]);
        lemma_go_first(e, undef, seq![ret], k);
        let k2 = k.pushed(Val::I64(UNDEFINED_BITS));
        assert(seq![ret] =~= seq![ret] + Seq::<Instr>::empty());
        lemma_go_first(e, ret, Seq::empty(), k2);
        None
    }
}

proof fn lemma_drops<X>(e: Engine<X>, m: Going<X>)
    ensures
        go(e, machine::plains(wasm::repeated(m.stack.len(), Instr::Drop)), m) == Out::Next(
            Going { stack: Seq::empty(), ..m },
        ),
    decreases m.stack.len(),
{
    let d = m.stack.len();
    if d == 0 {
        assert(machine::plains(wasm::repeated(0, Instr::Drop)) =~= Seq::empty());
        assert(m =~= Going { stack: Seq::empty(), ..m });
    } else {
        let rest = wasm::repeated((d - 1) as nat, Instr::Drop);
        assert(wasm::repeated(d, Instr::Drop) =~= seq![Instr::Drop] + rest);
        lemma_go_first(e, Instr::Drop, rest, m);
        lemma_drops(e, m.popped());
    }
}

proof fn lemma_throw_agrees<X>(
    e: Engine<X>,
    c: Ctx,
    parts: Seq<Seq<Node>>,
    b: int,
    i: int,
    s: At<X>,
    m: Going<X>,
    left: nat,
    v: (Val, X),
) -> (r: Option<Onward<X>>)
    requires
        is_lowered(c, parts),
        is_at(c, b, i, s, m),
        i < c.end(b),
        c.ops[i] is Throw,
        c.exceptions.len() > 0,
        go(e, parts[i], s.going) is Next,
        continued(e, c, parts, s, left) == Some(v),
    ensures
        comes_to(
            e,
            c,
            parts,
            b,
            go(e, rest_nodes(c, parts, b, i), m),
            r,
            v,
            (left - 1) as nat,
        ),
{
    lemma_at_op(e, c, parts, b, i, s, m);
    lemma_block_range(c, b);
    let d = s.going.stack.len();
    let label = (c.loop_depth(b) + 1) as u32;
    lemma_go_alike(e, parts[i], m, s.going);
    let s1 = go(e, parts[i], s.going)->Next_0;
    let m1 = go(e, parts[i], m)->Next_0;
    let drops = machine::plains(wasm::repeated(d, Instr::Drop));
    let way = dispatch_nodes(c, i, label);
    lemma_go_concat(e, parts[i], drops + way, m);
    lemma_go_concat(e, drops, way, m1);
    assert(m1.stack.len() == d);
    lemma_drops(e, m1);
    let s2 = Going { stack: Seq::empty(), ..s1 };
    let m2 = Going { stack: Seq::empty(), ..m1 };
    assert(alike(m2, s2));
    lemma_handled(e, c, parts, i, label, s2, m2, (left - 1) as nat, v)
}

/// Behind an op that a handler covers.
proof fn lemma_guard_agrees<X>(
    e: Engine<X>,
    c: Ctx,
    parts: Seq<Seq<Node>>,
    b: int,
    i: int,
    s: Going<X>,
    m: Going<X>,
    left: nat,
    v: (Val, X),
) -> (r: (Option<Onward<X>>, Option<Going<X>>))
    requires
        is_lowered(c, parts),
        0 <= b < c.block_count(),
        alike(m, s),
        m.locals.len() == LOCALS,
        m.stack.len() <= SPILL_POOL,
        comes_of(e, c, parts, guarded(e, c, i, s), left) == Some(v),
    ensures
        match r.1 {
            Some(n) => {
                let o = guarded(e, c, i, s);
                &&& o is To
                &&& o->To_0.pc == i + 1
                &&& o->To_0.going.stack == s.stack
                &&& go(e, guard_nodes(c, b, i, m.stack.len()), m) == Out::Next(n)
                &&& alike(n, o->To_0.going)
                &&& n.locals.len() == LOCALS
            },
            None => reaches(
                e,
                c,
                parts,
                go(e, guard_nodes(c, b, i, m.stack.len()), m),
                c.loop_depth(b) as nat,
                r.0,
                v,
                left,
            ),
        },
{
    lemma_block_range(c, b);
    let d = m.stack.len();
    let label = (c.loop_depth(b) + 2) as u32;
    let away = machine::plains(body::spill(d));
    let ask = machine::plains(seq![Instr::Call(c.lay.perr_index)]);
    let way = dispatch_nodes(c, i, label);
    let when = Node::When(way);
    let back = machine::plains(body::reload(d));
    lemma_go_concat(e, away, ask + (seq![when] + back), m);
    let n = lemma_spill(e, m);
    lemma_go_concat(e, ask, seq![when] + back, n);
    let s0 = Going { stack: Seq::empty(), ..s };
    assert(n.stack =~= s0.stack);
    assert forall|y: int|
        0 <= y < n.locals.len() && !is_hidden(y as u32) implies #[trigger] n.locals[y]
        == s0.locals[y] by {
        assert(n.locals[y] == m.locals[y]);
    }
    machine::lemma_flat_plains(seq![Instr::Call(c.lay.perr_index)]);
    lemma_go_alike(e, ask, n, s0);
    assert(ask =~= seq![Node::Plain(Instr::Call(c.lay.perr_index))]);
    lemma_go_one(e, Node::Plain(Instr::Call(c.lay.perr_index)), n);
    lemma_go_plain(e, Instr::Call(c.lay.perr_index), n);
    let s1 = go(e, ask, s0)->Next_0;
    let n1 = go(e, ask, n)->Next_0;
    assert(n1.locals == n.locals);
    let x = s1.top()->I32_0;
    lemma_go_concat(e, seq![when], back, n1);
    lemma_go_one(e, when, n1);
    lemma_go_when(e, way, x, n1);
    if x != 0 {
        assert(alike(n1.popped(), s1.popped()));
        let r = lemma_handled(e, c, parts, i, label, s1.popped(), n1.popped(), left, v);
        (r, None)
    } else {
        let n2 = n1.popped();
        assert(carries(n2, m.stack));
        lemma_reload(e, n2, m.stack);
        let n3 = Going { stack: m.stack, ..n2 };
        let s3 = Going { stack: s.stack, ..s1 };
        assert(alike(n3, s3));
        (None, Some(n3))
    }
}

proof fn lemma_go_when<X>(e: Engine<X>, yes: Seq<Node>, x: i32, m: Going<X>)
    requires
        m.stack.len() >= 1,
        m.top() == Val::I32(x),
    ensures
        go_node(e, Node::When(yes), m) == if x != 0 {
            leave(go(e, yes, m.popped()), m.popped().stack)
        } else {
            Out::Next(m.popped())
        },
{
    reveal_with_fuel(go_node, 2);
}

// Switches.

proof fn lemma_go_block<X>(e: Engine<X>, inner: Seq<Node>, m: Going<X>)
    ensures
        go_node(e, Node::Block(inner), m) == leave(go(e, inner, m), m.stack),
{
    reveal_with_fuel(go_node, 2);
}

/// The way to a block, without operands.
proof fn lemma_way<X>(e: Engine<X>, b: int, label: u32, m: Going<X>)
    requires
        m.locals.len() == LOCALS,
        m.stack.len() == 0,
    ensures
        go(e, machine::plains(body::goto(b, label)), m) == Out::Branch(
            label as nat,
            m.with_local(BLOCK, Val::I32(b as i32)),
        ),
{
    let n = lemma_goto(e, b, label, m);
    assert(body::spill(0) + body::goto(b, label) =~= body::goto(b, label));
    assert(n =~= m);
}

/// The dispatch of a switch brings the machine to the way of case `j`; past the last case, it
/// comes out of the dispatch.
proof fn lemma_cases<X>(
    e: Engine<X>,
    c: Ctx,
    b: int,
    cases: Seq<usize>,
    k: nat,
    j: nat,
    x: i32,
    m: Going<X>,
)
    requires
        is_method(c),
        0 <= b < c.block_count(),
        cases.len() < 0x4000_0000,
        k <= cases.len(),
        m.locals.len() == LOCALS,
        m.stack.len() == 0,
        m.locals[SCRATCH as int] == Val::I32(x),
        j == if (x as u32) < cases.len() {
            (x as u32) as nat
        } else {
            cases.len()
        },
    ensures
        j >= k ==> go(e, case_tree(c, b, cases, k), m) == Out::Branch((j - k) as nat, m),
        j < k ==> go(e, case_tree(c, b, cases, k), m) == Out::Branch(
            (c.loop_depth(b) + (cases.len() - j) - (k - 1 - j)) as nat,
            m.with_local(BLOCK, Val::I32(target_of(c, cases[j as int]) as i32)),
        ),
    decreases k,
{
    let n = cases.len() as u32;
    lemma_block_range(c, b);
    if k == 0 {
        let get = Instr::LocalGet(SCRATCH);
        let table = Instr::BrTable(n, n);
        assert(seq![get, table] =~= seq![get] + seq![table]);
        lemma_go_first(e, get, seq![table], m);
        let m1 = m.pushed(Val::I32(x));
        assert(seq![table] =~= seq![table] + Seq::<Instr>::empty());
        lemma_go_first(e, table, Seq::empty(), m1);
        assert(m1.popped() =~= m);
    } else {
        let inner = case_tree(c, b, cases, (k - 1) as nat);
        let label = (c.loop_depth(b) + (cases.len() - (k - 1))) as u32;
        let tb = target_of(c, cases[k - 1]);
        lemma_cases(e, c, b, cases, (k - 1) as nat, j, x, m);
        lemma_go_concat(e, seq![Node::Block(inner)], machine::plains(body::goto(tb, label)), m);
        lemma_go_one(e, Node::Block(inner), m);
        lemma_go_block(e, inner, m);
        if j == k - 1 {
            assert(Going { stack: m.stack, ..m } =~= m);
            lemma_way(e, tb, label, m);
        }
    }
}

proof fn lemma_switch_agrees<X>(
    e: Engine<X>,
    c: Ctx,
    parts: Seq<Seq<Node>>,
    b: int,
    i: int,
    s: At<X>,
    m: Going<X>,
    left: nat,
    v: (Val, X),
) -> (r: Option<Onward<X>>)
    requires
        is_lowered(c, parts),
        is_at(c, b, i, s, m),
        i < c.end(b),
        c.ops[i] is LookupSwitch,
        go(e, parts[i], s.going) is Next,
        continued(e, c, parts, s, left) == Some(v),
    ensures
        comes_to(
            e,
            c,
            parts,
            b,
            go(e, rest_nodes(c, parts, b, i), m),
            r,
            v,
            (left - 1) as nat,
        ),
{
    lemma_at_op(e, c, parts, b, i, s, m);
    lemma_block_range(c, b);
    lemma_case_blocks(c, i);
    lemma_was_lowered(c, parts, b);
    let sw = c.switches[c.ops[i]->LookupSwitch_0 as int];
    let cases = sw.cases@;
    let n = cases.len();
    lemma_go_alike(e, parts[i], m, s.going);
    let s1 = go(e, parts[i], s.going)->Next_0;
    let m1 = go(e, parts[i], m)->Next_0;
    let x = s1.top()->I32_0;
    let put = machine::plains(seq![Instr::LocalSet(SCRATCH)]);
    let inner = case_tree(c, b, cases, n);
    let db = target_of(c, sw.default);
    let way = machine::plains(body::goto(db, c.loop_depth(b)));
    lemma_go_concat(e, parts[i], switch_nodes(c, b, sw), m);
    lemma_go_concat(e, put, seq![Node::Block(inner)] + way, m1);
    assert(put =~= seq![Node::Plain(Instr::LocalSet(SCRATCH))]);
    lemma_go_one(e, Node::Plain(Instr::LocalSet(SCRATCH)), m1);
    lemma_go_plain(e, Instr::LocalSet(SCRATCH), m1);
    let m2 = m1.popped().with_local(SCRATCH, m1.top());
    let s2 = s1.popped().with_local(SCRATCH, s1.top());
    assert(go(e, put, m1) == Out::Next(m2));
    lemma_go_concat(e, seq![Node::Block(inner)], way, m2);
    lemma_go_one(e, Node::Block(inner), m2);
    lemma_go_block(e, inner, m2);
    let j: nat = if (x as u32) < n {
        (x as u32) as nat
    } else {
        n
    };
    lemma_cases(e, c, b, cases, n, j, x, m2);
    lemma_way(e, db, c.loop_depth(b), m2);
    assert(Going { stack: m2.stack, ..m2 } =~= m2);
    let to = if j < n {
        target_of(c, cases[j as int])
    } else {
        db
    };
    lemma_found(c, parts, b, to, 0);
    let at = At { pc: selected(sw, x), going: s2 };
    assert(op_move(e, c, parts, s) == Move::To(at));
    assert(put_away(m2, m2));
    assert(alike(m2, s2));
    lemma_enters(c, to, at, m2, m2);
    Some(
        Onward {
            block: to,
            at,
            machine: m2.with_local(BLOCK, Val::I32(to as i32)),
            fuel: (left - 1) as nat,
        },
    )
}

/// Code that ends with a return does not run on behind it.
proof fn lemma_return_is_last<X>(e: Engine<X>, nodes: Seq<Node>, m: Going<X>)
    requires
        machine::flat(nodes).len() > 0,
        machine::flat(nodes).last() is Return,
    ensures
        go(e, nodes, m) !is Next,
{
    let last = machine::flat_node(nodes.last());
    assert(last.len() > 0);
    assert(machine::flat(nodes).last() == last.last());
    assert(nodes.last() == Node::Plain(Instr::Return));
    if let Out::Next(m2) = go(e, nodes.drop_last(), m) {
        lemma_go_plain(e, Instr::Return, m2);
    }
}

/// The code of a return or a throw does not run on behind it.
proof fn lemma_returns_return<X>(
    e: Engine<X>,
    c: Ctx,
    parts: Seq<Seq<Node>>,
    i: int,
    m: Going<X>,
)
    requires
        is_method(c),
        reads(c, parts),
        0 <= i < c.ops.len(),
        go(e, parts[i], m) is Next,
        op::branch_target(c.ops[i]) is None,
        !(c.ops[i] is LookupSwitch),
        c.ops[i] is Throw ==> c.exceptions.len() == 0,
    ensures
        !op::ends_block(c.ops[i]),
{
    if op::ends_block(c.ops[i]) {
        let code = own_code(c, i);
        assert(code.len() > 0 && code.last() is Return);
        assert(bail_code(c, i) =~= Seq::empty());
        assert(code + bail_code(c, i) =~= code);
        lemma_return_is_last(e, parts[i], m);
    }
}

/// What is left of a run at op `i` of block `b`.
spec fn goes<X>(
    e: Engine<X>,
    c: Ctx,
    parts: Seq<Seq<Node>>,
    b: int,
    i: int,
    s: At<X>,
    left: nat,
) -> Option<(Val, X)> {
    if i < c.end(b) {
        continued(e, c, parts, s, left)
    } else {
        followed(e, c, parts, s, left)
    }
}

/// Within a block, the next op is come to as it is.
proof fn lemma_goes_on<X>(
    e: Engine<X>,
    c: Ctx,
    parts: Seq<Seq<Node>>,
    b: int,
    i: int,
    s: At<X>,
    left: nat,
)
    requires
        is_method(c),
        0 <= b < c.block_count(),
        c.leaders()[b] < i <= c.end(b),
        s.pc == i,
    ensures
        goes(e, c, parts, b, i, s, left) == followed(e, c, parts, s, left),
{
    lemma_block_range(c, b);
    if i < c.end(b) {
        lemma_no_handler_inside(c, b, i);
        assert(landed(e, c, s) == Some(s.going));
        assert(At { pc: s.pc, going: s.going } == s);
    }
}

/// Code that is nothing does nothing.
proof fn lemma_flat_empty(nodes: Seq<Node>)
    requires
        machine::flat(nodes).len() == 0,
    ensures
        nodes.len() == 0,
{
    if nodes.len() > 0 {
        assert(machine::flat_node(nodes.last()).len() > 0);
    }
}

/// The code of block `b` from op `i` on does what the codes of the ops do from there: it returns
/// what they return, or enters the block that they come to.
#[verifier::rlimit(30)]
proof fn lemma_rest_agrees<X>(
    e: Engine<X>,
    c: Ctx,
    parts: Seq<Seq<Node>>,
    b: int,
    i: int,
    s: At<X>,
    m: Going<X>,
    left: nat,
    v: (Val, X),
) -> (r: Option<Onward<X>>)
    requires
        is_lowered(c, parts),
        is_at(c, b, i, s, m),
        goes(e, c, parts, b, i, s, left) == Some(v),
    ensures
        comes_to(
            e,
            c,
            parts,
            b,
            go(e, rest_nodes(c, parts, b, i), m),
            r,
            v,
            if i < c.end(b) {
                (left - 1) as nat
            } else {
                left
            },
        ),
    decreases c.end(b) - i,
{
    if i == c.end(b) {
        lemma_close_agrees(e, c, parts, b, s, m, left, v)
    } else {
        let o = c.ops[i];
        lemma_at_op(e, c, parts, b, i, s, m);
        lemma_go_alike(e, parts[i], m, s.going);
        assert(machine::flat(parts[i]) == own_code(c, i) + bail_code(c, i));
        if o is Jump {
            lemma_flat_empty(parts[i]);
            lemma_jump_agrees(e, c, parts, b, i, s, m, left, v)
        } else if go(e, parts[i], s.going) is Returned {
            lemma_returned(e, c, parts, b, i, s.going.stack.len(), m);
            None
        } else if is_branch(o) {
            lemma_branch_agrees(e, c, parts, b, i, s, m, left, v)
        } else if o is LookupSwitch {
            lemma_switch_agrees(e, c, parts, b, i, s, m, left, v)
        } else {
            let s1 = go(e, parts[i], s.going)->Next_0;
            let m1 = go(e, parts[i], m)->Next_0;
            if o is Throw && c.exceptions.len() > 0 {
                lemma_throw_agrees(e, c, parts, b, i, s, m, left, v)
            } else {
                lemma_returns_return(e, c, parts, i, s.going);
                if is_guarded(c, i) {
                    let d = m1.stack.len();
                    lemma_go_concat(e, parts[i], guard_nodes(c, b, i, d), m);
                    let less = (left - 1) as nat;
                    let (r, n) = lemma_guard_agrees(e, c, parts, b, i, s1, m1, less, v);
                    match n {
                        Some(m2) => {
                            let s2 = guarded(e, c, i, s1)->To_0;
                            lemma_goes_on(e, c, parts, b, i + 1, s2, less);
                            lemma_rest_agrees(e, c, parts, b, i + 1, s2, m2, less, v)
                        },
                        None => r,
                    }
                } else {
                    let s2 = At { pc: i + 1, going: s1 };
                    assert(op_move(e, c, parts, s) == Move::To(s2));
                    lemma_goes_on(e, c, parts, b, i + 1, s2, (left - 1) as nat);
                    lemma_rest_agrees(e, c, parts, b, i + 1, s2, m1, (left - 1) as nat, v)
                }
            }
        }
    }
}

/// Where the code of an op returns, nothing follows.
proof fn lemma_returned<X>(
    e: Engine<X>,
    c: Ctx,
    parts: Seq<Seq<Node>>,
    b: int,
    i: int,
    d: nat,
    m: Going<X>,
)
    requires
        !(c.ops[i] is Jump),
        go(e, parts[i], m) is Returned,
    ensures
        go(e, op_nodes(c, parts, b, i, d), m) == go(e, parts[i], m),
{
    let o = c.ops[i];
    if is_branch(o) {
        let more = seq![choice(target_of(c, op::branch_target(o)->0), b + 1)] + machine::plains(
            body::spill(left_by_branch(o, d) as nat) + seq![Instr::Br(c.loop_depth(b))],
        );
        lemma_go_concat(e, parts[i], more, m);
    } else if let JitOp::LookupSwitch(k) = o {
        lemma_go_concat(e, parts[i], switch_nodes(c, b, c.switches[k as int]), m);
    } else if o is Throw && c.exceptions.len() > 0 {
        let more = machine::plains(wasm::repeated(d, Instr::Drop)) + dispatch_nodes(
            c,
            i,
            (c.loop_depth(b) + 1) as u32,
        );
        lemma_go_concat(e, parts[i], more, m);
    } else if is_guarded(c, i) {
        lemma_go_concat(e, parts[i], guard_nodes(c, b, i, height_after(c, i, d) as nat), m);
    }
}

/// The dispatch brings the machine to the code of the block that it is to enter, and a branch
/// out of that code comes out of the dispatch.
proof fn lemma_dispatch<X>(
    e: Engine<X>,
    c: Ctx,
    parts: Seq<Seq<Node>>,
    k: nat,
    b: int,
    m: Going<X>,
)
    requires
        0 <= b < c.block_count() < 0x4000_0000,
        k <= c.block_count(),
        m.locals.len() == LOCALS,
        m.stack.len() == 0,
        m.locals[BLOCK as int] == Val::I32(b as i32),
    ensures
        b >= k ==> go(e, tree(c, parts, k), m) == Out::Branch((b - k) as nat, m),
        b < k ==> (match go(e, block_nodes(c, parts, b), m) {
            Out::Returned(v, x) => go(e, tree(c, parts, k), m) == Out::Returned(v, x),
            Out::Branch(l, m2) => l >= k - 1 - b ==> go(e, tree(c, parts, k), m) == Out::Branch(
                (l - (k - 1 - b)) as nat,
                m2,
            ),
            _ => true,
        }),
    decreases k,
{
    if k == 0 {
        let table = Instr::BrTable(c.block_count() as u32, 0);
        let head = seq![Instr::LocalGet(BLOCK), table];
        assert(head =~= seq![Instr::LocalGet(BLOCK)] + seq![table]);
        lemma_go_first(e, Instr::LocalGet(BLOCK), seq![table], m);
        let m1 = m.pushed(Val::I32(b as i32));
        assert(seq![table] =~= seq![table] + Seq::<Instr>::empty());
        lemma_go_first(e, table, Seq::empty(), m1);
        assert(m1.popped() =~= m);
        assert((b as i32) as u32 == b);
    } else {
        let inner = tree(c, parts, (k - 1) as nat);
        lemma_dispatch(e, c, parts, (k - 1) as nat, b, m);
        lemma_go_concat(e, seq![Node::Block(inner)], block_nodes(c, parts, k - 1), m);
        lemma_go_one(e, Node::Block(inner), m);
        lemma_go_block(e, inner, m);
        if b == k - 1 {
            assert(Going { stack: m.stack, ..m } =~= m);
        }
    }
}

/// The code of a block that is entered does what the codes of the ops do from there.
#[verifier::rlimit(30)]
proof fn lemma_block_agrees<X>(
    e: Engine<X>,
    c: Ctx,
    parts: Seq<Seq<Node>>,
    b: int,
    s: At<X>,
    m: Going<X>,
    left: nat,
    v: (Val, X),
) -> (r: Option<Onward<X>>)
    requires
        is_lowered(c, parts),
        enters(c, b, s, m),
        followed(e, c, parts, s, left) == Some(v),
    ensures
        comes_to(e, c, parts, b, go(e, block_nodes(c, parts, b), m), r, v, (left - 1) as nat),
{
    let from = c.leaders()[b] as int;
    lemma_block_range(c, b);
    lemma_was_lowered(c, parts, b);
    lemma_block_code(c, parts, b);
    let back = machine::plains(body::reload(found(c, b)));
    let rest = rest_nodes(c, parts, b, from);
    lemma_go_concat(e, back, catch_nodes(c, b) + rest, m);
    lemma_reload(e, m, s.going.stack);
    let m1 = Going { stack: s.going.stack, ..m };
    lemma_go_concat(e, catch_nodes(c, b), rest, m1);
    let s2 = At { pc: s.pc, going: landed(e, c, s)->0 };
    machine::lemma_flat_plains(catch_code());
    lemma_go_alike(e, machine::plains(catch_code()), m1, s.going);
    let m2 = if is_handler(c, b) {
        go(e, machine::plains(catch_code()), m1)->Next_0
    } else {
        m1
    };
    assert(go(e, catch_nodes(c, b), m1) == Out::Next(m2));
    assert(continued(e, c, parts, s2, left) == Some(v));
    lemma_rest_agrees(e, c, parts, b, from, s2, m2, left, v)
}

/// From the start of a block, the dispatch loop returns what the codes of the ops return.
proof fn lemma_round_agrees<X>(
    e: Engine<X>,
    c: Ctx,
    parts: Seq<Seq<Node>>,
    b: int,
    s: At<X>,
    m: Going<X>,
    left: nat,
    v: (Val, X),
    fuel: nat,
)
    requires
        is_lowered(c, parts),
        enters(c, b, s, m),
        followed(e, c, parts, s, left) == Some(v),
        fuel >= left,
    ensures
        go_round(e, tree(c, parts, c.block_count()), m, fuel) == Out::Returned(v.0, v.1),
    decreases left,
{
    lemma_block_range(c, b);
    lemma_dispatch(e, c, parts, c.block_count(), b, m);
    if let Some(next) = lemma_block_agrees(e, c, parts, b, s, m, left, v) {
        assert(next.machine.stack =~= m.stack);
        assert(Going { stack: m.stack, ..next.machine } =~= next.machine);
        lemma_round_agrees(
            e,
            c,
            parts,
            next.block,
            next.at,
            next.machine,
            next.fuel,
            v,
            (fuel - 1) as nat,
        );
    }
}

// Layouts that settle.

proof fn lemma_landings_noted(c: Ctx, cases: Seq<usize>, b: int, k: nat, st: St, to: int)
    requires
        k <= cases.len(),
        0 <= to < c.block_count(),
        st.entry.len() == c.block_count(),
        st.entry[to] is None,
        body::landings(c, b, cases, k, st) is Some,
        (body::landings(c, b, cases, k, st)->0).entry[to] is Some,
    ensures
        exists|j: int| 0 <= j < k && #[trigger] cases[j] == c.leaders()[to],
    decreases k,
{
    if k > 0 {
        let before = body::landings(c, b, cases, (k - 1) as nat, st)->0;
        lemma_landings_len(c, cases, b, (k - 1) as nat, st);
        if before.entry[to] is Some {
            lemma_landings_noted(c, cases, b, (k - 1) as nat, st, to);
        } else {
            lemma_block_number(c, cases[k - 1]);
            lemma_start_of(c, cases[k - 1]);
            assert(cases[k - 1] == c.leaders()[to]);
        }
    }
}

proof fn lemma_landings_len(c: Ctx, cases: Seq<usize>, b: int, k: nat, st: St)
    requires
        st.entry.len() == c.block_count(),
        body::landings(c, b, cases, k, st) is Some,
    ensures
        (body::landings(c, b, cases, k, st)->0).entry.len() == st.entry.len(),
    decreases k,
{
    if k > 0 {
        lemma_landings_len(c, cases, b, (k - 1) as nat, st);
        lemma_block_number(c, cases[k - 1]);
    }
}

proof fn lemma_start_of(c: Ctx, t: usize)
    requires
        blocks::block_of(c.leaders(), t) is Some,
    ensures
        c.leaders()[blocks::block_of(c.leaders(), t)->0] == t,
{
    let k = choose|k: int| 0 <= k < c.leaders().len() && c.leaders()[k] == t;
    assert(c.leaders()[c.leaders().index_of(t)] == t);
}

/// What an op has noted of a block, it may lead to.
proof fn lemma_step_noted(c: Ctx, b: int, i: int, st: St, to: int)
    requires
        is_method(c),
        0 <= b < c.block_count(),
        c.leaders()[b] <= i < c.end(b),
        0 <= to < c.block_count(),
        st.entry.len() == c.block_count(),
        st.entry[to] is None,
        body::step(c, b, i, st) is Some,
        (body::step(c, b, i, st)->0).entry[to] is Some,
    ensures
        leads_to(c, i, c.leaders()[to]),
{
    let o = c.ops[i];
    lemma_block_range(c, b);
    if let JitOp::Jump(t) = o {
        lemma_block_number(c, t);
        lemma_start_of(c, t);
    } else if o is IfTrueBoxed || o is IfFalseBoxed {
        let t = op::branch_target(o)->0;
        lemma_block_number(c, t);
        lemma_start_of(c, t);
        lemma_ender_is_last(c, b, i);
    } else if let JitOp::LookupSwitch(k) = o {
        let sw = c.switches[k as int];
        let n = sw.cases@.len();
        let s1 = st.adding(body::select_case(n), st.depth);
        let s2 = body::landings(c, b, sw.cases@, n, s1)->0;
        lemma_landings_len(c, sw.cases@, b, n, s1);
        if s2.entry[to] is Some {
            lemma_landings_noted(c, sw.cases@, b, n, s1, to);
            assert(blocks::is_case(sw, c.leaders()[to]));
        } else {
            lemma_block_number(c, sw.default);
            lemma_start_of(c, sw.default);
            assert(blocks::is_case(sw, c.leaders()[to]));
        }
    }
}

proof fn lemma_steps_noted(c: Ctx, parts: Seq<Seq<Node>>, b: int, upto: int, st: St, to: int)
    requires
        is_method(c),
        reads(c, parts),
        0 <= b < c.block_count(),
        c.leaders()[b] <= upto <= c.end(b),
        0 <= to < c.block_count(),
        st.entry.len() == c.block_count(),
        st.entry[to] is None,
        body::steps(c, b, c.leaders()[b] as int, upto, st) is Some,
        (body::steps(c, b, c.leaders()[b] as int, upto, st)->0).entry[to] is Some,
    ensures
        exists|i: int| 0 <= i < c.ops.len() && leads_to(c, i, c.leaders()[to]),
    decreases upto,
{
    lemma_block_range(c, b);
    let from = c.leaders()[b] as int;
    if from < upto {
        let before = body::steps(c, b, from, upto - 1, st)->0;
        lemma_steps_code(c, parts, b, from, upto - 1, st);
        if before.entry[to] is Some {
            lemma_steps_noted(c, parts, b, upto - 1, st, to);
        } else {
            lemma_step_noted(c, b, upto - 1, before, to);
        }
    }
}

/// Some op may lead to a block that has been noted, unless it is the first.
proof fn lemma_blocks_noted(c: Ctx, parts: Seq<Seq<Node>>, k: nat, to: int)
    requires
        is_method(c),
        reads(c, parts),
        k <= c.block_count(),
        0 < to < c.block_count(),
        body::lower_blocks(c, k, body::start(c)) is Some,
        before_block(c, k as int).entry[to] is Some,
    ensures
        exists|i: int| 0 <= i < c.ops.len() && leads_to(c, i, c.leaders()[to]),
    decreases k,
{
    if k > 0 {
        let b = k - 1;
        lemma_blocks_code(c, parts, b as nat);
        assert(was_lowered(c, b));
        lemma_block_code(c, parts, b);
        lemma_block_range(c, b);
        if before_block(c, b).entry[to] is Some {
            lemma_blocks_noted(c, parts, b as nat, to);
        } else if at_end(c, b).entry[to] is Some {
            lemma_steps_noted(c, parts, b, c.end(b), opened(c, b), to);
        } else {
            lemma_steps_code(c, parts, b, c.leaders()[b] as int, c.end(b), opened(c, b));
            assert(to == b + 1);
            assert(leads_to(c, c.end(b) - 1, c.leaders()[to]));
        }
    }
}

/// The block of an op.
proof fn lemma_block_with(c: Ctx, i: int, n: nat) -> (b: int)
    requires
        is_method(c),
        0 < n <= c.block_count(),
        0 <= i < c.end(n - 1),
    ensures
        0 <= b < n,
        c.leaders()[b] <= i < c.end(b),
    decreases n,
{
    blocks::leaders_are_the_block_starts(c.ops, c.switches, c.exceptions);
    lemma_block_range(c, n - 1);
    if c.leaders()[n - 1] <= i {
        n - 1
    } else {
        lemma_block_range(c, n - 2);
        lemma_block_with(c, i, (n - 1) as nat)
    }
}

/// The block of an op above block `to`.
proof fn lemma_block_above(c: Ctx, i: int, to: int) -> (b: int)
    requires
        is_method(c),
        0 <= to < c.block_count(),
        0 <= i < c.leaders()[to],
    ensures
        0 <= b < to,
        c.leaders()[b] <= i < c.end(b),
        i + 1 == c.leaders()[to] ==> b + 1 == to && i + 1 == c.end(b),
{
    blocks::leaders_are_the_block_starts(c.ops, c.switches, c.exceptions);
    lemma_block_range(c, to);
    let b = lemma_block_with(c, i, (to + 1) as nat);
    lemma_block_range(c, b);
    if b + 1 < to {
        assert(c.leaders()[b + 1] < c.leaders()[to]);
    }
    b
}

/// Where a block goes on to the next, that is noted.
proof fn lemma_next_noted(c: Ctx, parts: Seq<Seq<Node>>, b: int)
    requires
        is_method(c),
        reads(c, parts),
        0 <= b,
        b + 1 < c.block_count(),
        was_lowered(c, b),
        !is_raw_branch(c.ops[c.end(b) - 1]),
        is_branch(c.ops[c.end(b) - 1]) || !op::ends_block(c.ops[c.end(b) - 1]),
    ensures
        before_block(c, b + 1).entry[b + 1] is Some,
{
    lemma_block_range(c, b);
    let i = c.end(b) - 1;
    if is_branch(c.ops[i]) {
        lemma_op_notes(c, parts, b, i);
    } else {
        lemma_block_code(c, parts, b);
    }
}

/// Where an op above a block leads to it, that has been noted when the block is opened.
proof fn lemma_led_to(c: Ctx, parts: Seq<Seq<Node>>, i: int, to: int)
    requires
        is_method(c),
        reads(c, parts),
        body::lower_blocks(c, c.block_count(), body::start(c)) is Some,
        !body::int_model(c.ops),
        0 <= to < c.block_count(),
        0 <= i < c.leaders()[to],
        leads_to(c, i, c.leaders()[to]),
    ensures
        before_block(c, to).entry[to] is Some,
{
    let n = c.block_count();
    let b = lemma_block_above(c, i, to);
    lemma_block_range(c, b);
    lemma_prefix_lowered(c, b as nat, n);
    lemma_prefix_lowered(c, (b + 1) as nat, n);
    lemma_prefix_lowered(c, to as nat, n);
    lemma_blocks_code(c, parts, b as nat);
    lemma_blocks_code(c, parts, (b + 1) as nat);
    lemma_blocks_keep(c, parts, (b + 1) as nat, to as nat);
    assert(is_raw_branch(c.ops[i]) ==> body::is_int_model(c.ops[i]));
    assert(was_lowered(c, b));
    if blocks::jumps_to(c.ops, c.switches, i, c.leaders()[to]) {
        lemma_op_notes(c, parts, b, i);
        lemma_jump_noted(c, b, i, to, before_block(c, b + 1).entry);
    } else {
        lemma_next_noted(c, parts, b);
    }
    assert(before_block(c, b + 1).entry[to] is Some);
}

/// What is noted of op `i` of block `b`.
proof fn lemma_op_notes(c: Ctx, parts: Seq<Seq<Node>>, b: int, i: int)
    requires
        is_method(c),
        reads(c, parts),
        0 <= b < c.block_count(),
        was_lowered(c, b),
        c.leaders()[b] <= i < c.end(b),
    ensures
        notes(
            c,
            b,
            i,
            height_at(c, b, c.leaders()[b] as int, i, opened(c, b)),
            before_block(c, b + 1).entry,
        ),
{
    lemma_block_range(c, b);
    lemma_block_code(c, parts, b);
    let from = c.leaders()[b] as int;
    let end = c.end(b);
    let open = opened(c, b);
    lemma_steps_prefix(c, b, from, i, end, open);
    lemma_steps_prefix(c, b, from, i + 1, end, open);
    lemma_steps_code(c, parts, b, from, i, open);
    let st = body::steps(c, b, from, i, open)->0;
    lemma_op_code(c, parts, b, i, st);
    lemma_steps_code(c, parts, b, from, i + 1, open);
    lemma_steps_keep(c, parts, b, from, i + 1, end, open);
    let after = body::steps(c, b, from, i + 1, open)->0;
    lemma_notes_keep(c, b, i, st.depth, after.entry, before_block(c, b + 1).entry);
}

proof fn lemma_jump_noted(c: Ctx, b: int, i: int, to: int, entry: Seq<Option<usize>>)
    requires
        is_method(c),
        0 <= i < c.ops.len(),
        0 <= to < c.block_count(),
        blocks::jumps_to(c.ops, c.switches, i, c.leaders()[to]),
        !is_raw_branch(c.ops[i]),
        exists|d: nat| notes(c, b, i, d, entry),
    ensures
        entry[to] is Some,
{
    let t = c.leaders()[to];
    let d = choose|d: nat| notes(c, b, i, d, entry);
    blocks::leaders_are_the_block_starts(c.ops, c.switches, c.exceptions);
    lemma_block_range(c, to);
    lemma_target_block(c, i, t);
    let k = target_of(c, t);
    if k < to {
        assert(c.leaders()[k] < c.leaders()[to]);
    } else if to < k {
        assert(c.leaders()[to] < c.leaders()[k]);
    }
    if let JitOp::LookupSwitch(x) = c.ops[i] {
        let sw = c.switches[x as int];
        if sw.default != t {
            let j = choose|j: int| 0 <= j < sw.cases@.len() && sw.cases@[j] == t;
            assert(entry[target_of(c, sw.cases@[j])] == Some(0usize));
        }
    }
}

pub proof fn lemma_settled(c: Ctx, parts: Seq<Seq<Node>>)
    requires
        is_method(c),
        reads(c, parts),
        body::body_code(c) is Some,
        is_laid_out(c),
    ensures
        is_settled(c),
{
    let n = c.block_count();
    let last = before_block(c, n as int).entry;
    blocks::leaders_are_the_block_starts(c.ops, c.switches, c.exceptions);
    lemma_blocks_code(c, parts, n);
    assert forall|b: int|
        0 <= b < n && ((#[trigger] (body::lower_blocks(c, b as nat, body::start(c))->0).entry[b])
            is None || blocks::is_catch(c.exceptions, c.leaders()[b])) implies (
    last[b] matches Some(d) ==> d == 0) by {
        lemma_prefix_lowered(c, b as nat, n);
        lemma_blocks_code(c, parts, b as nat);
        lemma_block_range(c, b);
        if body::int_model(c.ops) {
            lemma_blocks_quiet(c, n);
        } else if b == 0 {
            assert(body::start(c).entry[0] == Some(0usize));
        } else if last[b] is Some {
            let t = c.leaders()[b];
            lemma_blocks_noted(c, parts, n, b);
            let i = choose|i: int| 0 <= i < c.ops.len() && leads_to(c, i, t);
            assert(!blocks::is_catch(c.exceptions, t));
            if i < t {
                lemma_led_to(c, parts, i, b);
            } else {
                let j = choose|j: int| 0 <= j < t && leads_to(c, j, t);
                lemma_led_to(c, parts, j, b);
            }
        }
    }
}

pub proof fn lemma_code_follows<X>(
    e: Engine<X>,
    c: Ctx,
    parts: Seq<Seq<Node>>,
    m: Going<X>,
    fuel: nat,
) -> (inner: Seq<Node>)
    requires
        is_method(c),
        body::body_code(c) is Some,
        is_settled(c),
        reads(c, parts),
        forall|i: int| 0 <= i < parts.len() ==> is_apart(machine::flat(#[trigger] parts[i])),
        m.locals.len() == LOCALS,
        m.locals[BLOCK as int] == Val::I32(0),
        m.stack.len() == 0,
        followed(e, c, parts, At { pc: 0, going: m }, fuel) is Some,
    ensures
        body::body_code(c) == Some(machine::flat(method_nodes(c, inner)) + seq![Instr::End]),
        ({
            let (v, x) = followed(e, c, parts, At { pc: 0, going: m }, fuel)->0;
            go_round(e, inner, m, fuel) == Out::Returned(v, x)
        }),
{
    let s = At { pc: 0, going: m };
    let v = followed(e, c, parts, s, fuel)->0;
    lemma_method_code(c, parts);
    blocks::leaders_are_the_block_starts(c.ops, c.switches, c.exceptions);
    assert(before_block(c, 0).entry[0] == Some(0usize));
    assert(Going { stack: s.going.stack, ..m } =~= m);
    lemma_round_agrees(e, c, parts, 0, s, m, fuel, v, fuel);
    tree(c, parts, c.block_count())
}

} // verus!
