//! What WebAssembly code does, as far as code of the int model and the inline paths of other ops
//! on numbers use it: integer constants, arithmetic and comparisons, doubles as far as they are
//! finite, locals, words in the first memory, copies into it from the second, ints in the second,
//! and structured control.
//!
//! Code is given by its structure; [`flat`] writes it out as the sequence of instructions that
//! a function body holds.

use crate::lower::doubles;
use crate::lower::wasm::{Binop, BlockTy, Cvtop, Instr, Mem, Memop, Relop};
use vstd::prelude::*;

verus! {

/// A value. Words and doubles are given by their bits.
#[derive(Debug, Clone, Copy, PartialEq, Eq, Structural)]
pub enum Val {
    I32(i32),
    I64(u64),
    F64(u64),
    F32(u32),
}

/// A function under way.
#[verifier::ext_equal]
pub struct Machine {
    pub locals: Seq<Val>,
    pub stack: Seq<Val>,
    /// The first memory.
    pub memory: Seq<u8>,
    /// The second memory.
    pub outer: Seq<u8>,
}

/// Structured code.
pub enum Node {
    Plain(Instr),
    Block(Seq<Node>),
    Loop(Seq<Node>),
    If(Seq<Node>, Seq<Node>),
    /// An `if` of the given type.
    Pick(BlockTy, Seq<Node>, Seq<Node>),
    /// An `if` without an `else`.
    When(Seq<Node>),
}

/// The instructions of structured code.
pub open spec fn flat(nodes: Seq<Node>) -> Seq<Instr>
    decreases nodes,
{
    if nodes.len() == 0 {
        Seq::empty()
    } else {
        flat(nodes.drop_last()) + flat_node(nodes.last())
    }
}

pub open spec fn flat_node(node: Node) -> Seq<Instr>
    decreases node,
{
    match node {
        Node::Plain(i) => seq![i],
        Node::Block(body) => seq![Instr::Block(BlockTy::Empty)] + flat(body) + seq![Instr::End],
        Node::Loop(body) => seq![Instr::Loop(BlockTy::Empty)] + flat(body) + seq![Instr::End],
        Node::If(yes, no) => seq![Instr::If(BlockTy::Empty)] + flat(yes) + seq![Instr::Else] + flat(
            no,
        ) + seq![Instr::End],
        Node::Pick(ty, yes, no) => seq![Instr::If(ty)] + flat(yes) + seq![Instr::Else] + flat(no)
            + seq![Instr::End],
        Node::When(yes) => seq![Instr::If(BlockTy::Empty)] + flat(yes) + seq![Instr::End],
    }
}

/// The word at an address.
pub open spec fn load(memory: Seq<u8>, at: int) -> u64 {
    vstd::bytes::spec_u64_from_le_bytes(memory.subrange(at, at + 8))
}

/// Memory with a word written.
pub open spec fn store(memory: Seq<u8>, at: int, word: u64) -> Seq<u8> {
    memory.take(at) + vstd::bytes::spec_u64_to_le_bytes(word) + memory.skip(at + 8)
}

/// Memory with `n` bytes at `to` replaced by those of `from` at `at`.
pub open spec fn copied(memory: Seq<u8>, to: int, from: Seq<u8>, at: int, n: int) -> Seq<u8> {
    memory.take(to) + from.subrange(at, at + n) + memory.skip(to + n)
}

/// Where an access to the first memory goes; `None` if it traps.
pub open spec fn address(base: i32, m: Mem, size: nat) -> Option<int> {
    let at = (base as u32) + m.offset;
    if m.memory == 0 && at + 8 <= size {
        Some(at)
    } else {
        None
    }
}

/// Where an access of `n` bytes to the second memory goes; `None` if it traps.
pub open spec fn outer_address(base: i32, m: Mem, n: nat, size: nat) -> Option<int> {
    let at = (base as u32) + m.offset;
    if m.memory == 1 && at + n <= size {
        Some(at)
    } else {
        None
    }
}

/// How many bytes an access to an int takes.
pub open spec fn width_of(op: Memop) -> Option<nat> {
    match op {
        Memop::I32Load8U => Some(1),
        Memop::I32Store8 => Some(1),
        Memop::I32Load16U => Some(2),
        Memop::I32Store16 => Some(2),
        Memop::I32Load => Some(4),
        Memop::I32Store => Some(4),
        _ => None,
    }
}

/// One, two or four bytes as an unsigned number, the lowest first.
pub open spec fn number(bytes: Seq<u8>) -> u32 {
    if bytes.len() == 1 {
        bytes[0] as u32
    } else if bytes.len() == 2 {
        vstd::bytes::spec_u16_from_le_bytes(bytes) as u32
    } else {
        vstd::bytes::spec_u32_from_le_bytes(bytes)
    }
}

pub open spec fn compared(op: Relop, a: i32, b: i32) -> Option<bool> {
    match op {
        Relop::I32Eq => Some(a == b),
        Relop::I32Ne => Some(a != b),
        Relop::I32LtS => Some(a < b),
        Relop::I32GtS => Some(a > b),
        Relop::I32LeS => Some(a <= b),
        Relop::I32GeS => Some(a >= b),
        Relop::I32GtU => Some((a as u32) > (b as u32)),
        _ => None,
    }
}

pub open spec fn compared_words(op: Relop, a: u64, b: u64) -> Option<bool> {
    match op {
        Relop::I64Eq => Some(a == b),
        Relop::I64Ne => Some(a != b),
        Relop::I64LeU => Some(a <= b),
        _ => None,
    }
}

/// A comparison of doubles. A NaN is neither equal to anything nor less nor more.
pub open spec fn compared_doubles(op: Relop, a: u64, b: u64) -> Option<bool> {
    let ordered = !doubles::is_nan(a) && !doubles::is_nan(b);
    let (x, y) = (doubles::value(a), doubles::value(b));
    match op {
        Relop::F64Eq => Some(ordered && x == y),
        Relop::F64Ne => Some(!(ordered && x == y)),
        Relop::F64Lt => Some(ordered && x < y),
        Relop::F64Gt => Some(ordered && x > y),
        Relop::F64Le => Some(ordered && x <= y),
        Relop::F64Ge => Some(ordered && x >= y),
        _ => None,
    }
}

/// `n / d` units as a double, if that is not too large.
pub open spec fn as_double(n: int, d: int) -> Option<Val> {
    if doubles::is_within(n, d) {
        Some(Val::F64(doubles::rounded(n, d)))
    } else {
        None
    }
}

/// Arithmetic on finite doubles; `None` if the result is not finite.
pub open spec fn computed_doubles(op: Binop, a: u64, b: u64) -> Option<Val> {
    let (x, y) = (doubles::value(a), doubles::value(b));
    if !doubles::is_finite(a) || !doubles::is_finite(b) {
        None
    } else {
        match op {
            Binop::F64Add => as_double(x + y, 1),
            Binop::F64Sub => as_double(x - y, 1),
            Binop::F64Mul => as_double(x * y, doubles::unit()),
            Binop::F64Div => if y > 0 {
                as_double(x * doubles::unit(), y)
            } else if y < 0 {
                as_double(-x * doubles::unit(), -y)
            } else {
                None
            },
            _ => None,
        }
    }
}

pub open spec fn computed(op: Binop, a: Val, b: Val) -> Option<Val> {
    match (op, a, b) {
        (Binop::I32Add, Val::I32(x), Val::I32(y)) => Some(Val::I32(x.wrapping_add(y))),
        (Binop::I32Sub, Val::I32(x), Val::I32(y)) => Some(Val::I32(x.wrapping_sub(y))),
        (Binop::I32Mul, Val::I32(x), Val::I32(y)) => Some(Val::I32(x.wrapping_mul(y))),
        (Binop::I32And, Val::I32(x), Val::I32(y)) => Some(Val::I32(x & y)),
        (Binop::I32Or, Val::I32(x), Val::I32(y)) => Some(Val::I32(x | y)),
        (Binop::I32Xor, Val::I32(x), Val::I32(y)) => Some(Val::I32(x ^ y)),
        (Binop::I32Shl, Val::I32(x), Val::I32(y)) => Some(Val::I32(x << ((y as u32) & 31))),
        (Binop::I32ShrS, Val::I32(x), Val::I32(y)) => Some(Val::I32(x >> ((y as u32) & 31))),
        (Binop::I32ShrU, Val::I32(x), Val::I32(y)) => Some(
            Val::I32(((x as u32) >> ((y as u32) & 31)) as i32),
        ),
        (Binop::I64Add, Val::I64(x), Val::I64(y)) => Some(Val::I64(x.wrapping_add(y))),
        (Binop::I64Sub, Val::I64(x), Val::I64(y)) => Some(Val::I64(x.wrapping_sub(y))),
        (Binop::I64Mul, Val::I64(x), Val::I64(y)) => Some(Val::I64(x.wrapping_mul(y))),
        (Binop::I64And, Val::I64(x), Val::I64(y)) => Some(Val::I64(x & y)),
        (Binop::I64Or, Val::I64(x), Val::I64(y)) => Some(Val::I64(x | y)),
        (Binop::I64ShrU, Val::I64(x), Val::I64(y)) => Some(Val::I64(x >> (y & 63))),
        (_, Val::F64(x), Val::F64(y)) => computed_doubles(op, x, y),
        _ => None,
    }
}

pub open spec fn converted(op: Cvtop, a: Val) -> Option<Val> {
    match (op, a) {
        (Cvtop::I32WrapI64, Val::I64(x)) => Some(Val::I32(x as u32 as i32)),
        (Cvtop::I64ExtendI32U, Val::I32(x)) => Some(Val::I64(x as u32 as u64)),
        (Cvtop::I64ExtendI32S, Val::I32(x)) => Some(Val::I64(x as i64 as u64)),
        (Cvtop::I64Extend32S, Val::I64(x)) => Some(Val::I64(x as u32 as i32 as i64 as u64)),
        (Cvtop::F64ConvertI32S, Val::I32(x)) => Some(Val::F64(doubles::double_of(x as int))),
        (Cvtop::F64ConvertI32U, Val::I32(x)) => Some(Val::F64(doubles::double_of(x as u32 as int))),
        (Cvtop::F64ConvertI64S, Val::I64(x)) => Some(Val::F64(doubles::double_of(x as i64 as int))),
        (Cvtop::F64ReinterpretI64, Val::I64(x)) => Some(Val::F64(x)),
        (Cvtop::I64ReinterpretF64, Val::F64(x)) => Some(Val::I64(x)),
        (Cvtop::F64PromoteF32, Val::F32(x)) => if doubles::is_finite_single(x) {
            as_double(doubles::single_value(x), 1)
        } else {
            None
        },
        (Cvtop::F32DemoteF64, Val::F64(x)) => if doubles::fits_single(x) {
            Some(Val::F32(doubles::as_single(x)))
        } else {
            None
        },
        (Cvtop::F64Neg, Val::F64(x)) => Some(Val::F64(x ^ 0x8000_0000_0000_0000)),
        _ => None,
    }
}

pub open spec fn bit(b: bool) -> Val {
    if b {
        Val::I32(1)
    } else {
        Val::I32(0)
    }
}

impl Machine {
    /// The `k`th operand from the top.
    pub open spec fn top(self, k: int) -> Val {
        self.stack[self.stack.len() - k]
    }

    /// `n` operands replaced by one.
    pub open spec fn put(self, n: int, v: Val) -> Machine {
        Machine { stack: self.stack.take(self.stack.len() - n).push(v), ..self }
    }

    /// Bytes written to the second memory.
    pub open spec fn with_outer(self, to: int, bytes: Seq<u8>) -> Machine {
        Machine {
            outer: self.outer.take(to) + bytes + self.outer.skip(to + bytes.len()),
            ..self
        }
    }

    /// `n` operands gone.
    pub open spec fn shed(self, n: int) -> Machine {
        Machine { stack: self.stack.take(self.stack.len() - n), ..self }
    }
}

/// A load of an int from the second memory, with zeros above the bytes that it takes.
pub open spec fn loaded(op: Memop, at: Mem, m: Machine) -> Option<Machine> {
    let n = width_of(op)->0;
    match m.top(1) {
        Val::I32(base) if m.stack.len() >= 1 && outer_address(
            base,
            at,
            n,
            m.outer.len(),
        ) is Some => {
            let from = outer_address(base, at, n, m.outer.len())->0;
            Some(m.put(1, Val::I32(number(m.outer.subrange(from, from + n)) as i32)))
        },
        _ => None,
    }
}

/// A store of the low bytes of an int to the second memory.
pub open spec fn stored(op: Memop, at: Mem, m: Machine) -> Option<Machine> {
    let n = width_of(op)->0;
    match (m.top(2), m.top(1)) {
        (Val::I32(base), Val::I32(v)) if m.stack.len() >= 2 && outer_address(
            base,
            at,
            n,
            m.outer.len(),
        ) is Some => {
            let to = outer_address(base, at, n, m.outer.len())->0;
            let bytes = vstd::bytes::spec_u32_to_le_bytes(v as u32).take(n as int);
            Some(
                Machine {
                    outer: m.outer.take(to) + bytes + m.outer.skip(to + n),
                    ..m.shed(2)
                },
            )
        },
        _ => None,
    }
}

/// An instruction that neither branches nor returns; `None` if it traps or is not modelled.
pub open spec fn plain(i: Instr, m: Machine) -> Option<Machine> {
    let n = m.stack.len();
    match i {
        Instr::LocalGet(x) => if x < m.locals.len() {
            Some(m.put(0, m.locals[x as int]))
        } else {
            None
        },
        Instr::LocalSet(x) => if n >= 1 && x < m.locals.len() {
            Some(Machine { locals: m.locals.update(x as int, m.top(1)), ..m.shed(1) })
        } else {
            None
        },
        Instr::LocalTee(x) => if n >= 1 && x < m.locals.len() {
            Some(Machine { locals: m.locals.update(x as int, m.top(1)), ..m })
        } else {
            None
        },
        Instr::I32Const(v) => Some(m.put(0, Val::I32(v))),
        Instr::I64Const(bits) => Some(m.put(0, Val::I64(bits))),
        Instr::F64Const(bits) => Some(m.put(0, Val::F64(bits))),
        Instr::Select => match m.top(1) {
            Val::I32(c) if n >= 3 => Some(
                m.put(
                    3,
                    if c != 0 {
                        m.top(3)
                    } else {
                        m.top(2)
                    },
                ),
            ),
            _ => None,
        },
        Instr::Drop => if n >= 1 {
            Some(m.shed(1))
        } else {
            None
        },
        Instr::Cvt(op) => if n >= 1 && converted(op, m.top(1)) is Some {
            Some(m.put(1, converted(op, m.top(1))->0))
        } else {
            None
        },
        Instr::Bin(op) => if n >= 2 && computed(op, m.top(2), m.top(1)) is Some {
            Some(m.put(2, computed(op, m.top(2), m.top(1))->0))
        } else {
            None
        },
        Instr::Rel(Relop::I32Eqz) => match m.top(1) {
            Val::I32(a) if n >= 1 => Some(m.put(1, bit(a == 0))),
            _ => None,
        },
        Instr::Rel(op) => match (m.top(2), m.top(1)) {
            (Val::I32(a), Val::I32(b)) if n >= 2 && compared(op, a, b) is Some => Some(
                m.put(2, bit(compared(op, a, b)->0)),
            ),
            (Val::I64(a), Val::I64(b)) if n >= 2 && compared_words(op, a, b) is Some => Some(
                m.put(2, bit(compared_words(op, a, b)->0)),
            ),
            (Val::F64(a), Val::F64(b)) if n >= 2 && compared_doubles(op, a, b) is Some => Some(
                m.put(2, bit(compared_doubles(op, a, b)->0)),
            ),
            _ => None,
        },
        Instr::Access(Memop::I64Load, at) => match m.top(1) {
            Val::I32(base) if n >= 1 && address(base, at, m.memory.len()) is Some => Some(
                m.put(1, Val::I64(load(m.memory, address(base, at, m.memory.len())->0))),
            ),
            Val::I32(base) if n >= 1 && outer_address(base, at, 8, m.outer.len()) is Some => Some(
                m.put(1, Val::I64(load(m.outer, outer_address(base, at, 8, m.outer.len())->0))),
            ),
            _ => None,
        },
        Instr::Access(Memop::I64Store, at) => match (m.top(2), m.top(1)) {
            (Val::I32(base), Val::I64(word)) if n >= 2 && address(
                base,
                at,
                m.memory.len(),
            ) is Some => Some(
                Machine {
                    memory: store(m.memory, address(base, at, m.memory.len())->0, word),
                    ..m.shed(2)
                },
            ),
            _ => None,
        },
        Instr::Access(Memop::F32Load, at) => match m.top(1) {
            Val::I32(base) if n >= 1 && outer_address(base, at, 4, m.outer.len()) is Some => {
                let from = outer_address(base, at, 4, m.outer.len())->0;
                Some(m.put(1, Val::F32(number(m.outer.subrange(from, from + 4)))))
            },
            _ => None,
        },
        Instr::Access(Memop::F64Load, at) => match m.top(1) {
            Val::I32(base) if n >= 1 && outer_address(base, at, 8, m.outer.len()) is Some => Some(
                m.put(1, Val::F64(load(m.outer, outer_address(base, at, 8, m.outer.len())->0))),
            ),
            _ => None,
        },
        Instr::Access(Memop::F32Store, at) => match (m.top(2), m.top(1)) {
            (Val::I32(base), Val::F32(x)) if n >= 2 && outer_address(
                base,
                at,
                4,
                m.outer.len(),
            ) is Some => Some(
                m.shed(2).with_outer(
                    outer_address(base, at, 4, m.outer.len())->0,
                    vstd::bytes::spec_u32_to_le_bytes(x),
                ),
            ),
            _ => None,
        },
        Instr::Access(Memop::F64Store, at) => match (m.top(2), m.top(1)) {
            (Val::I32(base), Val::F64(x)) if n >= 2 && outer_address(
                base,
                at,
                8,
                m.outer.len(),
            ) is Some => Some(
                m.shed(2).with_outer(
                    outer_address(base, at, 8, m.outer.len())->0,
                    vstd::bytes::spec_u64_to_le_bytes(x),
                ),
            ),
            _ => None,
        },
        Instr::Access(Memop::I32Load8U, at) => loaded(Memop::I32Load8U, at, m),
        Instr::Access(Memop::I32Load16U, at) => loaded(Memop::I32Load16U, at, m),
        Instr::Access(Memop::I32Load, at) => loaded(Memop::I32Load, at, m),
        Instr::Access(Memop::I32Store8, at) => stored(Memop::I32Store8, at, m),
        Instr::Access(Memop::I32Store16, at) => stored(Memop::I32Store16, at, m),
        Instr::Access(Memop::I32Store, at) => stored(Memop::I32Store, at, m),
        Instr::MemoryCopy(src, dst) => match (m.top(3), m.top(2), m.top(1)) {
            (Val::I32(to), Val::I32(at), Val::I32(size)) if n >= 3 && src == 1 && dst == 0 && (
            at as u32) + (size as u32) <= m.outer.len() && (to as u32) + (size as u32)
                <= m.memory.len() => Some(
                Machine {
                    memory: copied(
                        m.memory,
                        to as u32 as int,
                        m.outer,
                        at as u32 as int,
                        size as u32 as int,
                    ),
                    ..m.shed(3)
                },
            ),
            _ => None,
        },
        _ => None,
    }
}

/// What running code comes to.
pub enum Outcome {
    Next(Machine),
    /// A branch to the given label, counted from the inside.
    Branch(nat, Machine),
    Returned(u64),
    /// A trap, or an instruction that is not modelled.
    Trap,
    /// Some loop has run too often.
    Spent,
}

/// One instruction.
pub open spec fn run_instr(i: Instr, m: Machine) -> Outcome {
    match i {
        Instr::Br(l) => Outcome::Branch(l as nat, m),
        Instr::BrTable(count, default) => match m.top(1) {
            Val::I32(x) if m.stack.len() >= 1 => if (x as u32) < count {
                Outcome::Branch((x as u32) as nat, m.shed(1))
            } else {
                Outcome::Branch(default as nat, m.shed(1))
            },
            _ => Outcome::Trap,
        },
        Instr::Return => match m.top(1) {
            Val::I64(word) if m.stack.len() >= 1 => Outcome::Returned(word),
            _ => Outcome::Trap,
        },
        _ => match plain(i, m) {
            Some(m2) => Outcome::Next(m2),
            None => Outcome::Trap,
        },
    }
}

/// The end of a block that was entered with the operands of `entry`.
pub open spec fn leave(o: Outcome, entry: Machine) -> Outcome {
    match o {
        Outcome::Branch(l, m) => if l == 0 {
            Outcome::Next(Machine { stack: entry.stack, ..m })
        } else {
            Outcome::Branch((l - 1) as nat, m)
        },
        _ => o,
    }
}

/// The end of a block of the given type that was entered with the operands of `entry`.
pub open spec fn leave_with(ty: BlockTy, o: Outcome, entry: Machine) -> Outcome {
    match o {
        Outcome::Branch(l, m) => if l == 0 && !(ty is Empty) {
            Outcome::Next(Machine { stack: entry.stack.push(m.top(1)), ..m })
        } else {
            leave(o, entry)
        },
        _ => o,
    }
}

/// Code, with every loop in it run `fuel` times at most.
pub open spec fn run(nodes: Seq<Node>, m: Machine, fuel: nat) -> Outcome
    decreases fuel, nodes,
{
    if nodes.len() == 0 {
        Outcome::Next(m)
    } else {
        match run(nodes.drop_last(), m, fuel) {
            Outcome::Next(m2) => run_node(nodes.last(), m2, fuel),
            o => o,
        }
    }
}

/// One piece of structured code.
pub open spec fn run_node(node: Node, m: Machine, fuel: nat) -> Outcome
    decreases fuel, node,
{
    match node {
        Node::Plain(i) => run_instr(i, m),
        Node::Block(body) => leave(run(body, m, fuel), m),
        Node::Loop(body) => if fuel == 0 {
            Outcome::Spent
        } else {
            match run(body, m, (fuel - 1) as nat) {
                Outcome::Branch(l, m2) => if l == 0 {
                    run_node(node, Machine { stack: m.stack, ..m2 }, (fuel - 1) as nat)
                } else {
                    Outcome::Branch((l - 1) as nat, m2)
                },
                o => o,
            }
        },
        Node::If(yes, no) => match m.top(1) {
            Val::I32(c) if m.stack.len() >= 1 => if c != 0 {
                leave(run(yes, m.shed(1), fuel), m.shed(1))
            } else {
                leave(run(no, m.shed(1), fuel), m.shed(1))
            },
            _ => Outcome::Trap,
        },
        Node::Pick(ty, yes, no) => match m.top(1) {
            Val::I32(c) if m.stack.len() >= 1 => if c != 0 {
                leave_with(ty, run(yes, m.shed(1), fuel), m.shed(1))
            } else {
                leave_with(ty, run(no, m.shed(1), fuel), m.shed(1))
            },
            _ => Outcome::Trap,
        },
        Node::When(yes) => match m.top(1) {
            Val::I32(c) if m.stack.len() >= 1 => if c != 0 {
                leave(run(yes, m.shed(1), fuel), m.shed(1))
            } else {
                Outcome::Next(m.shed(1))
            },
            _ => Outcome::Trap,
        },
    }
}

// Structured code put together.

pub proof fn lemma_flat_concat(a: Seq<Node>, b: Seq<Node>)
    ensures
        flat(a + b) == flat(a) + flat(b),
    decreases b.len(),
{
    if b.len() == 0 {
        assert(a + b =~= a);
    } else {
        assert((a + b).drop_last() =~= a + b.drop_last());
        lemma_flat_concat(a, b.drop_last());
    }
}

pub proof fn lemma_run_concat(a: Seq<Node>, b: Seq<Node>, m: Machine, fuel: nat)
    ensures
        run(a + b, m, fuel) == (match run(a, m, fuel) {
            Outcome::Next(m2) => run(b, m2, fuel),
            o => o,
        }),
    decreases b.len(),
{
    if b.len() == 0 {
        assert(a + b =~= a);
    } else {
        assert((a + b).drop_last() =~= a + b.drop_last());
        lemma_run_concat(a, b.drop_last(), m, fuel);
    }
}

/// Instructions without structure.
pub open spec fn plains(code: Seq<Instr>) -> Seq<Node> {
    code.map_values(|i: Instr| Node::Plain(i))
}

pub proof fn lemma_flat_plain(i: Instr)
    ensures
        flat_node(Node::Plain(i)) == seq![i],
{
    reveal_with_fuel(flat_node, 2);
}

pub proof fn lemma_run_plain(i: Instr, m: Machine, fuel: nat)
    ensures
        run_node(Node::Plain(i), m, fuel) == run_instr(i, m),
{
    reveal_with_fuel(run_node, 2);
}

pub proof fn lemma_flat_plains(code: Seq<Instr>)
    ensures
        flat(plains(code)) == code,
    decreases code.len(),
{
    if code.len() > 0 {
        assert(plains(code).drop_last() =~= plains(code.drop_last()));
        lemma_flat_plains(code.drop_last());
        lemma_flat_plain(code.last());
        assert(flat(plains(code)) =~= code);
    }
}

/// Straight-line code from instruction `k` on.
pub open spec fn forward(code: Seq<Instr>, k: int, m: Machine) -> Option<Machine>
    decreases code.len() - k,
{
    if k < 0 || k >= code.len() {
        Some(m)
    } else {
        match run_instr(code[k], m) {
            Outcome::Next(m2) => forward(code, k + 1, m2),
            _ => None,
        }
    }
}

pub proof fn lemma_forward_from(code: Seq<Instr>, k: int, m: Machine, at: Machine, fuel: nat)
    requires
        0 <= k <= code.len(),
        run(plains(code.take(k)), m, fuel) == Outcome::Next(at),
        forward(code, k, at) is Some,
    ensures
        run(plains(code), m, fuel) == Outcome::Next(forward(code, k, at)->0),
    decreases code.len() - k,
{
    if k < code.len() {
        assert(plains(code.take(k + 1)).drop_last() =~= plains(code.take(k)));
        lemma_run_plain(code[k], at, fuel);
        let next = run_instr(code[k], at)->Next_0;
        lemma_forward_from(code, k + 1, m, next, fuel);
    } else {
        assert(code.take(k) =~= code);
    }
}

pub proof fn lemma_forward(code: Seq<Instr>, m: Machine, fuel: nat)
    requires
        forward(code, 0, m) is Some,
    ensures
        run(plains(code), m, fuel) == Outcome::Next(forward(code, 0, m)->0),
{
    assert(plains(code.take(0)) =~= Seq::empty());
    lemma_forward_from(code, 0, m, m, fuel);
}

pub proof fn lemma_flat_one(node: Node)
    ensures
        flat(seq![node]) == flat_node(node),
{
    reveal_with_fuel(flat, 2);
    assert(seq![node].drop_last() =~= Seq::empty());
    assert(flat(Seq::empty()) == Seq::<Instr>::empty());
    assert(flat(seq![node]) =~= flat_node(node));
}

pub proof fn lemma_run_one(node: Node, m: Machine, fuel: nat)
    ensures
        run(seq![node], m, fuel) == run_node(node, m, fuel),
{
    reveal_with_fuel(run, 2);
    assert(seq![node].drop_last() =~= Seq::empty());
    assert(run(Seq::empty(), m, fuel) == Outcome::Next(m));
}

} // verus!
