//! The code of the boxed model's ops that move words about, and of its tests, does what they mean.

use crate::lower::agree;
use crate::lower::body;
use crate::lower::fast;
use crate::lower::linear;
use crate::lower::machine;
use crate::lower::machine::{Machine, Node, Outcome, Val};
use crate::lower::manifest::Layout;
use crate::lower::module;
use crate::lower::op::JitOp;
use crate::lower::wasm::{
    Align, Binop, BlockTy, Cvtop, Instr, Memop, Relop, SlotLayout, ValTy, BLOCK, SCRATCH, SCRATCH2,
    SCRATCH64, SCRATCH64_2, SCRATCH_F64, SPILL_BASE, SPILL_POOL, STATE_PTR, UNDEFINED_BITS,
    VALUE_BOOL_MARK, VALUE_OBJECT_TAG16,
};
use crate::reference;
use vstd::prelude::*;

verus! {

/// The method under way has those registers, where local 0 points.
pub open spec fn has_registers(m: Machine, base: i32, regs: Seq<u64>) -> bool {
    &&& m.locals.len() == 19
    &&& m.locals[STATE_PTR as int] == Val::I32(base)
    &&& agree::holds(m.memory, base as u32 as int, regs)
}

/// Running the code leaves those operands and those registers.
pub open spec fn writes(
    code: Option<Seq<Instr>>,
    m: Machine,
    base: i32,
    stack: Seq<Val>,
    regs: Seq<u64>,
) -> bool {
    code matches Some(code) && (machine::run(machine::plains(code), m, 0) matches Outcome::Next(m2)
        && m2.stack == stack && has_registers(m2, base, regs) && m2.outer == m.outer)
}

/// `SetLocalValue` takes the word on top into its register.
#[verifier::rlimit(40)]
pub proof fn set_locals_take_the_word(
    lay: Layout,
    m: Machine,
    below: Seq<Val>,
    word: u64,
    i: u32,
    base: i32,
    regs: Seq<u64>,
)
    requires
        has_registers(m, base, regs),
        i < regs.len(),
        m.stack == below.push(Val::I64(word)),
    ensures
        writes(
            linear::word_op_code(JitOp::SetLocalValue(i), lay),
            m,
            base,
            below,
            regs.update(i as int, word),
        ),
{
    let code = linear::set_word(i);
    reveal_with_fuel(machine::forward, 5);
    let at = base as u32 as int + 8 * (i as int);
    assert(machine::address(base, linear::slot_of(i), m.memory.len()) == Some(at));
    let n1 = machine::run_instr(code[0], m)->Next_0;
    assert(n1.stack =~= below);
    let n2 = machine::run_instr(code[1], n1)->Next_0;
    assert(n2.stack =~= below.push(Val::I32(base)));
    let n3 = machine::run_instr(code[2], n2)->Next_0;
    assert(n3.stack =~= below.push(Val::I32(base)).push(Val::I64(word)));
    let n4 = machine::run_instr(code[3], n3)->Next_0;
    assert(n4.stack =~= below);
    assert(machine::forward(code, 0, m) == Some(n4));
    machine::lemma_forward(code, m, 0);
    agree::lemma_store_holds(m.memory, base as u32 as int, regs, i as int, word);
}

/// `StoreLocalValue` copies the word on top into its register.
#[verifier::rlimit(40)]
pub proof fn store_locals_copy_the_word(
    lay: Layout,
    m: Machine,
    below: Seq<Val>,
    word: u64,
    i: u32,
    base: i32,
    regs: Seq<u64>,
)
    requires
        has_registers(m, base, regs),
        i < regs.len(),
        m.stack == below.push(Val::I64(word)),
    ensures
        writes(
            linear::word_op_code(JitOp::StoreLocalValue(i), lay),
            m,
            base,
            below.push(Val::I64(word)),
            regs.update(i as int, word),
        ),
{
    let code = linear::word_op_code(JitOp::StoreLocalValue(i), lay)->0;
    reveal_with_fuel(machine::forward, 5);
    let at = base as u32 as int + 8 * (i as int);
    assert(machine::address(base, linear::slot_of(i), m.memory.len()) == Some(at));
    let top = below.push(Val::I64(word));
    let n1 = machine::run_instr(code[0], m)->Next_0;
    assert(n1.stack =~= top);
    let n2 = machine::run_instr(code[1], n1)->Next_0;
    assert(n2.stack =~= top.push(Val::I32(base)));
    let n3 = machine::run_instr(code[2], n2)->Next_0;
    assert(n3.stack =~= top.push(Val::I32(base)).push(Val::I64(word)));
    let n4 = machine::run_instr(code[3], n3)->Next_0;
    assert(n4.stack =~= top);
    assert(machine::forward(code, 0, m) == Some(n4));
    machine::lemma_forward(code, m, 0);
    agree::lemma_store_holds(m.memory, base as u32 as int, regs, i as int, word);
}

/// `IncDecLocalIValue` leaves one more or less than the int in its register, with the low 32 bits
/// of the result.
#[verifier::rlimit(40)]
pub proof fn steps_of_locals_move_the_int(
    lay: Layout,
    m: Machine,
    i: u32,
    up: bool,
    base: i32,
    regs: Seq<u64>,
)
    requires
        has_registers(m, base, regs),
        i < regs.len(),
    ensures
        writes(
            linear::word_op_code(JitOp::IncDecLocalIValue(i, up), lay),
            m,
            base,
            m.stack,
            regs.update(
                i as int,
                linear::int_word(
                    if up {
                        reference::int_of(regs[i as int]).wrapping_add(1)
                    } else {
                        reference::int_of(regs[i as int]).wrapping_sub(1)
                    },
                ),
            ),
        ),
{
    reveal(linear::step_local);
    let code = linear::step_local(i, up);
    let old = reference::int_of(regs[i as int]);
    let new = if up {
        old.wrapping_add(1)
    } else {
        old.wrapping_sub(1)
    };
    fast::lemma_int_words(new);
    reveal_with_fuel(machine::forward, 11);
    let at = base as u32 as int + 8 * (i as int);
    assert(machine::load(m.memory, at) == regs[i as int]);
    assert(machine::address(base, linear::slot_of(i), m.memory.len()) == Some(at));
    let low = m.stack.push(Val::I32(base));
    let n1 = machine::run_instr(code[0], m)->Next_0;
    assert(n1.stack =~= low);
    let n2 = machine::run_instr(code[1], n1)->Next_0;
    assert(n2.stack =~= low.push(Val::I32(base)));
    let n3 = machine::run_instr(code[2], n2)->Next_0;
    assert(n3.stack =~= low.push(Val::I64(regs[i as int])));
    let n4 = machine::run_instr(code[3], n3)->Next_0;
    assert(n4.stack =~= low.push(Val::I32(old)));
    let n5 = machine::run_instr(code[4], n4)->Next_0;
    assert(n5.stack =~= low.push(Val::I32(old)).push(Val::I32(1)));
    let n6 = machine::run_instr(code[5], n5)->Next_0;
    assert(n6.stack =~= low.push(Val::I32(new)));
    let n7 = machine::run_instr(code[6], n6)->Next_0;
    assert(n7.stack =~= low.push(Val::I64(new as u32 as u64)));
    let n8 = machine::run_instr(code[7], n7)->Next_0;
    let n9 = machine::run_instr(code[8], n8)->Next_0;
    assert(n9.stack =~= low.push(Val::I64(linear::int_word(new))));
    let n10 = machine::run_instr(code[9], n9)->Next_0;
    assert(n10.stack =~= m.stack);
    assert(machine::forward(code, 0, m) == Some(n10));
    machine::lemma_forward(code, m, 0);
    agree::lemma_store_holds(
        m.memory,
        base as u32 as int,
        regs,
        i as int,
        linear::int_word(new),
    );
}

/// The truth of the word of a boolean or an int.
pub open spec fn is_truth(word: u64, holds: bool) -> bool {
    word == fast::bool_word(holds) || exists|v: i32| #[trigger] linear::int_word(v) == word
        && holds == (v != 0)
}

#[verifier::rlimit(40)]
proof fn lemma_truth(m: Machine, below: Seq<Val>, word: u64, holds: bool)
    requires
        m.locals.len() == 19,
        m.stack == below.push(Val::I64(word)),
        is_truth(word, holds),
    ensures
        fast::leaves(linear::to_boolean_i32(), m, below, machine::bit(holds)),
{
    if word == fast::bool_word(holds) {
        fast::truth_is_read_off_the_word(m, below, holds, 0);
    } else {
        let v = choose|v: i32| #[trigger] linear::int_word(v) == word && holds == (v != 0);
        fast::truth_is_read_off_the_word(m, below, holds, v);
    }
}

/// More code behind code that leaves a value.
#[verifier::rlimit(40)]
proof fn lemma_and_more(
    code: Seq<Instr>,
    more: Seq<Instr>,
    m: Machine,
    below: Seq<Val>,
    v: Val,
    u: Val,
)
    requires
        fast::leaves(code, m, below, v),
        forall|n: Machine|
            n.stack == below.push(v) ==> #[trigger] machine::run(machine::plains(more), n, 0)
                == Outcome::Next(Machine { stack: below.push(u), ..n }),
    ensures
        fast::leaves(code + more, m, below, u),
{
    let nodes = choose|nodes: Seq<Node>| #[trigger]
        machine::flat(nodes) == code && (machine::run(nodes, m, 0) matches Outcome::Next(m2)
            && m2.stack == below.push(v) && m2.memory == m.memory && m2.outer == m.outer);
    let all = nodes + machine::plains(more);
    machine::lemma_flat_concat(nodes, machine::plains(more));
    machine::lemma_flat_plains(more);
    machine::lemma_run_concat(nodes, machine::plains(more), m, 0);
    assert(machine::flat(all) == code + more);
}

/// The test of a branch leaves the truth of the word, or what it is not.
#[verifier::rlimit(40)]
pub proof fn branches_test_the_truth(
    negate: bool,
    m: Machine,
    below: Seq<Val>,
    word: u64,
    holds: bool,
)
    requires
        m.locals.len() == 19,
        m.stack == below.push(Val::I64(word)),
        is_truth(word, holds),
    ensures
        fast::leaves(body::boxed_test(negate), m, below, machine::bit(holds != negate)),
{
    lemma_truth(m, below, word, holds);
    if negate {
        let more = seq![Instr::Rel(Relop::I32Eqz)];
        assert forall|n: Machine| n.stack == below.push(machine::bit(holds)) implies
            #[trigger] machine::run(machine::plains(more), n, 0) == Outcome::Next(
            Machine { stack: below.push(machine::bit(!holds)), ..n },
        ) by {
            reveal_with_fuel(machine::forward, 2);
            let n1 = machine::run_instr(more[0], n)->Next_0;
            assert(n1.stack =~= below.push(machine::bit(!holds)));
            assert(machine::forward(more, 0, n) == Some(n1));
            machine::lemma_forward(more, n, 0);
        }
        lemma_and_more(
            linear::to_boolean_i32(),
            more,
            m,
            below,
            machine::bit(holds),
            machine::bit(!holds),
        );
    }
}

/// `CoerceBool` leaves the boolean that the truth of the word is.
#[verifier::rlimit(40)]
pub proof fn coercion_gives_the_truth(
    lay: Layout,
    m: Machine,
    below: Seq<Val>,
    word: u64,
    holds: bool,
)
    requires
        m.locals.len() == 19,
        m.stack == below.push(Val::I64(word)),
        is_truth(word, holds),
    ensures
        linear::word_op_code(JitOp::CoerceBool, lay) matches Some(code) && fast::leaves(
            code,
            m,
            below,
            Val::I64(fast::bool_word(holds)),
        ),
{
    lemma_truth(m, below, word, holds);
    let more = seq![
        Instr::Cvt(Cvtop::I64ExtendI32U),
        Instr::I64Const(VALUE_BOOL_MARK),
        Instr::Bin(Binop::I64Or),
    ];
    let bit: u64 = if holds {
        1
    } else {
        0
    };
    let result = Val::I64(fast::bool_word(holds));
    let mark: u64 = VALUE_BOOL_MARK;
    assert(1u64 | mark == mark | 1u64 && 0u64 | mark == mark) by (bit_vector);
    assert forall|n: Machine| n.stack == below.push(machine::bit(holds)) implies
        #[trigger] machine::run(machine::plains(more), n, 0) == Outcome::Next(
        Machine { stack: below.push(result), ..n },
    ) by {
        reveal_with_fuel(machine::forward, 4);
        let n1 = machine::run_instr(more[0], n)->Next_0;
        assert(n1.stack =~= below.push(Val::I64(bit)));
        let n2 = machine::run_instr(more[1], n1)->Next_0;
        assert(n2.stack =~= below.push(Val::I64(bit)).push(Val::I64(mark)));
        let n3 = machine::run_instr(more[2], n2)->Next_0;
        assert(n3.stack =~= below.push(result));
        assert(machine::forward(more, 0, n) == Some(n3));
        machine::lemma_forward(more, n, 0);
    }
    lemma_and_more(
        linear::to_boolean_i32(),
        more,
        m,
        below,
        machine::bit(holds),
        result,
    );
}

/// The types of locals that are declared in runs.
pub open spec fn expanded(runs: Seq<(u32, ValTy)>) -> Seq<ValTy>
    decreases runs.len(),
{
    if runs.len() == 0 {
        Seq::empty()
    } else {
        expanded(runs.drop_last()) + Seq::new(runs.last().0 as nat, |k: int| runs.last().1)
    }
}

/// The parameters of a method and its other locals have the types that the code uses them with:
/// ints for addresses, scratch space and the next block, words for scratch space and what is
/// carried between blocks, and a double. A method returns a word.
#[verifier::rlimit(40)]
pub proof fn locals_have_the_types_of_their_uses()
    ensures
        ({
            let signature = module::all_types()[0];
            let types = signature.params + expanded(module::method_locals());
            &&& signature.results == seq![ValTy::I64]
            &&& types.len() == 19
            &&& forall|x: int| 0 <= x < 8 ==> #[trigger] types[x] is I32
            &&& types[8] is I64 && types[9] is I64
            &&& types[10] is F64
            &&& forall|x: int| 11 <= x < 19 ==> #[trigger] types[x] is I64
            &&& STATE_PTR < 5
            &&& SCRATCH != SCRATCH2 && SCRATCH != BLOCK && SCRATCH2 != BLOCK
            &&& 5 <= SCRATCH < 8 && 5 <= SCRATCH2 < 8 && 5 <= BLOCK < 8
            &&& 8 <= SCRATCH64 < 10 && 8 <= SCRATCH64_2 < 10 && SCRATCH64 != SCRATCH64_2
            &&& SCRATCH_F64 == 10
            &&& 11 <= SPILL_BASE && SPILL_BASE + SPILL_POOL <= 19
        }),
{
    reveal_with_fuel(expanded, 5);
    let runs = module::method_locals();
    let signature = module::all_types()[0];
    assert(signature == module::func_ty(ValTy::I32, 5, ValTy::I64, 1));
    assert(signature.results =~= seq![ValTy::I64]);
    let r3 = runs.drop_last();
    let r2 = r3.drop_last();
    let r1 = r2.drop_last();
    assert(r1.drop_last() =~= Seq::empty());
    assert(expanded(r1) =~= Seq::new(3, |k: int| ValTy::I32));
    assert(expanded(r2) =~= expanded(r1) + Seq::new(2, |k: int| ValTy::I64));
    assert(expanded(r3) =~= expanded(r2) + Seq::new(1, |k: int| ValTy::F64));
    assert(expanded(runs) =~= expanded(r3) + Seq::new(8, |k: int| ValTy::I64));
}

// Slots.

/// The word is an object's: its upper 16 bits are the tag of objects.
pub open spec fn is_object(word: u64) -> bool {
    word / 0x1_0000_0000_0000 == 0xFFFD
}

/// The object of a word stands where its lower 32 bits point.
pub open spec fn place(word: u64) -> int {
    (word as u32) as int
}

/// The number of four bytes of the second memory.
pub open spec fn number_at(m: Machine, at: int) -> u32 {
    machine::number(m.outer.subrange(at, at + 4))
}

/// The object has slot `id`: it knows how many slots it has, and where they stand, a word each.
pub open spec fn has_slot(m: Machine, word: u64, id: u32, at: SlotLayout) -> bool {
    let object = place(word);
    let slots = number_at(m, object + at.ptr_off);
    &&& object + at.len_off + 4 <= m.outer.len()
    &&& id < number_at(m, object + at.len_off)
    &&& object + at.ptr_off + 4 <= m.outer.len()
    &&& slots + 8 * id + 8 <= m.outer.len()
}

/// What the slot holds.
pub open spec fn slot_word(m: Machine, word: u64, id: u32, at: SlotLayout) -> u64 {
    machine::load(m.outer, number_at(m, place(word) + at.ptr_off) + 8 * id)
}

#[verifier::rlimit(40)]
proof fn lemma_fallback_nodes(lay: Layout, id: u32) -> (nodes: Seq<Node>)
    ensures
        machine::flat(nodes) == linear::slot_fallback(lay, id),
{
    reveal(linear::perr_bail);
    let ask = seq![
        Instr::LocalGet(SCRATCH64),
        Instr::I64Const(id as u64),
        Instr::Call(lay.gs_index),
    ];
    if lay.inline_perr {
        let head = ask.push(Instr::Call(lay.perr_index));
        let inner = seq![Instr::I64Const(UNDEFINED_BITS), Instr::Return];
        let when = Node::When(machine::plains(inner));
        let nodes = machine::plains(head) + seq![when];
        machine::lemma_flat_concat(machine::plains(head), seq![when]);
        machine::lemma_flat_plains(head);
        machine::lemma_flat_plains(inner);
        machine::lemma_flat_one(when);
        reveal_with_fuel(machine::flat_node, 2);
        assert(machine::flat(nodes) =~= linear::slot_fallback(lay, id));
        nodes
    } else {
        machine::lemma_flat_plains(ask);
        assert(linear::slot_fallback(lay, id) =~= ask);
        machine::plains(ask)
    }
}

/// Where objects can be reached, the code of a slot read leaves what the slot of the object holds.
#[verifier::rlimit(40)]
pub proof fn slots_are_read_where_they_stand(
    lay: Layout,
    m: Machine,
    below: Seq<Val>,
    word: u64,
    id: u32,
    at: SlotLayout,
)
    requires
        m.locals.len() == 19,
        m.stack == below.push(Val::I64(word)),
        is_object(word),
        has_slot(m, word, id, at),
    ensures
        fast::leaves(
            linear::slot_inline_code(lay, id, at),
            m,
            below,
            Val::I64(slot_word(m, word, id, at)),
        ),
{
    reveal(linear::slot_inline_code);
    let tag: u64 = 0xFFFD;
    assert(word >> (48u64 & 63) == word / 0x1_0000_0000_0000 && (id as i32) as u32 == id && (
    word as u32 as i32) as u32 == word as u32) by (bit_vector);
    let head = seq![
        Instr::LocalSet(SCRATCH64),
        Instr::LocalGet(SCRATCH64),
        Instr::I64Const(48),
        Instr::Bin(Binop::I64ShrU),
        Instr::I64Const(VALUE_OBJECT_TAG16),
        Instr::Rel(Relop::I64Eq),
    ];
    let test = seq![
        Instr::LocalGet(SCRATCH64),
        Instr::Cvt(Cvtop::I32WrapI64),
        Instr::LocalSet(SCRATCH),
        Instr::LocalGet(SCRATCH),
        Instr::Access(Memop::I32Load, linear::field(at.len_off as u64, Align::Four)),
        Instr::I32Const(id as i32),
        Instr::Rel(Relop::I32GtU),
    ];
    let load = seq![
        Instr::LocalGet(SCRATCH),
        Instr::Access(Memop::I32Load, linear::field(at.ptr_off as u64, Align::Four)),
        Instr::Access(Memop::I64Load, linear::field((id * 8) as u64, Align::Eight)),
    ];
    let one = lemma_fallback_nodes(lay, id);
    let inner_yes = machine::plains(load);
    let inner = seq![Node::Pick(BlockTy::I64, inner_yes, one)];
    let yes = machine::plains(test) + inner;
    let outer = seq![Node::Pick(BlockTy::I64, yes, one)];
    let nodes = machine::plains(head) + outer;
    machine::lemma_flat_plains(head);
    machine::lemma_flat_plains(test);
    machine::lemma_flat_plains(load);
    machine::lemma_flat_concat(machine::plains(head), outer);
    machine::lemma_flat_concat(machine::plains(test), inner);
    fast::lemma_flat_pick(BlockTy::I64, inner_yes, one);
    fast::lemma_flat_pick(BlockTy::I64, yes, one);
    assert(machine::flat(nodes) =~= linear::slot_inline_code(lay, id, at));
    // The tag.
    reveal_with_fuel(machine::forward, 8);
    let w = Val::I64(word);
    let h1 = machine::run_instr(head[0], m)->Next_0;
    assert(h1.stack =~= below);
    let h2 = machine::run_instr(head[1], h1)->Next_0;
    assert(h2.stack =~= below.push(w));
    let h3 = machine::run_instr(head[2], h2)->Next_0;
    assert(h3.stack =~= below.push(w).push(Val::I64(48)));
    let h4 = machine::run_instr(head[3], h3)->Next_0;
    assert(h4.stack =~= below.push(Val::I64(tag)));
    let h5 = machine::run_instr(head[4], h4)->Next_0;
    assert(h5.stack =~= below.push(Val::I64(tag)).push(Val::I64(tag)));
    let h6 = machine::run_instr(head[5], h5)->Next_0;
    assert(h6.stack =~= below.push(machine::bit(true)));
    assert(machine::forward(head, 0, m) == Some(h6));
    machine::lemma_forward(head, m, 0);
    // The number of slots.
    let p = word as u32 as i32;
    let t0 = h6.shed(1);
    assert(t0.stack =~= below);
    let t1 = machine::run_instr(test[0], t0)->Next_0;
    assert(t1.stack =~= below.push(w));
    let t2 = machine::run_instr(test[1], t1)->Next_0;
    assert(t2.stack =~= below.push(Val::I32(p)));
    let t3 = machine::run_instr(test[2], t2)->Next_0;
    assert(t3.stack =~= below);
    let t4 = machine::run_instr(test[3], t3)->Next_0;
    assert(t4.stack =~= below.push(Val::I32(p)));
    let n = number_at(m, place(word) + at.len_off);
    lemma_signed(n);
    let t5 = machine::run_instr(test[4], t4)->Next_0;
    assert(t5.stack =~= below.push(Val::I32(n as i32)));
    let t6 = machine::run_instr(test[5], t5)->Next_0;
    assert(t6.stack =~= below.push(Val::I32(n as i32)).push(Val::I32(id as i32)));
    let t7 = machine::run_instr(test[6], t6)->Next_0;
    assert(t7.stack =~= below.push(machine::bit(true)));
    assert(machine::forward(test, 0, t0) == Some(t7));
    machine::lemma_forward(test, t0, 0);
    // The slot.
    let q = number_at(m, place(word) + at.ptr_off);
    lemma_signed(q);
    let l0 = t7.shed(1);
    assert(l0.stack =~= below);
    let l1 = machine::run_instr(load[0], l0)->Next_0;
    assert(l1.stack =~= below.push(Val::I32(p)));
    let l2 = machine::run_instr(load[1], l1)->Next_0;
    assert(l2.stack =~= below.push(Val::I32(q as i32)));
    let l3 = machine::run_instr(load[2], l2)->Next_0;
    assert(l3.stack =~= below.push(Val::I64(slot_word(m, word, id, at))));
    assert(machine::forward(load, 0, l0) == Some(l3));
    machine::lemma_forward(load, l0, 0);
    fast::lemma_pick(BlockTy::I64, inner_yes, one, t7, true, l3);
    machine::lemma_run_concat(machine::plains(test), inner, t0, 0);
    fast::lemma_pick(BlockTy::I64, yes, one, h6, true, l3);
    machine::lemma_run_concat(machine::plains(head), outer, m, 0);
}

#[verifier::rlimit(40)]
proof fn lemma_signed(x: u32)
    ensures
        (x as i32) as u32 == x,
{
    assert((x as i32) as u32 == x) by (bit_vector);
}

} // verus!
