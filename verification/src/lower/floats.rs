//! The inline loads and stores of singles and doubles in domain memory.

use crate::lower::doubles;
use crate::lower::fast;
use crate::lower::linear;
use crate::lower::machine;
use crate::lower::machine::{Machine, Node, Outcome, Val};
use crate::lower::manifest;
use crate::lower::manifest::Layout;
use crate::lower::numeric;
use crate::lower::wasm::{BlockTy, Cvtop, Instr, SCRATCH, SCRATCH64};
use vstd::prelude::*;

verus! {

/// The bytes of an access of `width` bytes at an address of domain memory.
pub open spec fn bytes_at(m: Machine, base: u32, cap: u32, address: i32, width: u32) -> Seq<u8> {
    fast::domain(m, base, cap).subrange(address as u32 as int, (address as u32) + width)
}

/// The number that those bytes are: a single in four, a double in eight.
pub open spec fn is_read(bytes: Seq<u8>, width: u32, r: u64) -> bool {
    if width == 4 {
        doubles::is_nearest(r, doubles::single_value(machine::number(bytes)), 1)
    } else {
        r == vstd::bytes::spec_u64_from_le_bytes(bytes)
    }
}

/// The bytes are those of a finite single, or of a double that is no NaN.
pub open spec fn is_ordinary(bytes: Seq<u8>, width: u32) -> bool {
    if width == 4 {
        doubles::is_finite_single(machine::number(bytes)) && doubles::is_within(
            doubles::single_value(machine::number(bytes)),
            1,
        )
    } else {
        !doubles::is_nan(vstd::bytes::spec_u64_from_le_bytes(bytes))
    }
}

/// An inline load inside domain memory leaves the number that stands there.
#[verifier::rlimit(40)]
pub proof fn float_loads_read_the_number(
    width: u32,
    m: Machine,
    below: Seq<Val>,
    base: u32,
    cap: u32,
    address: i32,
)
    requires
        fast::has_domain(m, base, cap),
        width == 4 || width == 8,
        m.stack == below.push(Val::I64(linear::int_word(address))),
        (address as u32) + width <= cap,
        is_ordinary(bytes_at(m, base, cap, address, width), width),
    ensures
        exists|r: u64| #[trigger]
            is_read(bytes_at(m, base, cap, address, width), width, r) && fast::leaves(
                linear::dm_load_f_code(width),
                m,
                below,
                Val::I64(r),
            ),
{
    reveal(linear::dm_load_f_code);
    fast::lemma_int_words(address);
    let first = address as u32 as int;
    let bytes = bytes_at(m, base, cap, address, width);
    let r = if width == 4 {
        doubles::rounded(doubles::single_value(machine::number(bytes)), 1)
    } else {
        vstd::bytes::spec_u64_from_le_bytes(bytes)
    };
    doubles::lemma_rounds(doubles::single_value(machine::number(bytes)), 1);
    let stash = seq![Instr::Cvt(Cvtop::I32WrapI64), Instr::LocalSet(SCRATCH)];
    let check = linear::dm_check(width);
    let load = linear::float_load(width);
    let arm = linear::dm_address() + load;
    let other = seq![Instr::LocalGet(SCRATCH)] + linear::box_int() + seq![
        Instr::Call(manifest::dm_load_f_helper(width)),
    ];
    let yes = machine::plains(arm) + numeric::boxing();
    let no = machine::plains(other);
    let pick = seq![Node::Pick(BlockTy::I64, yes, no)];
    let nodes = machine::plains(stash + check) + pick;
    machine::lemma_flat_plains(stash + check);
    machine::lemma_flat_plains(arm);
    machine::lemma_flat_plains(other);
    numeric::lemma_flat_boxing();
    machine::lemma_flat_concat(machine::plains(arm), numeric::boxing());
    fast::lemma_flat_pick(BlockTy::I64, yes, no);
    machine::lemma_flat_concat(machine::plains(stash + check), pick);
    assert(machine::flat(nodes) =~= linear::dm_load_f_code(width));
    reveal_with_fuel(machine::forward, 3);
    let s1 = machine::run_instr(stash[0], m)->Next_0;
    assert(s1.stack =~= below.push(Val::I32(address)));
    let s2 = machine::run_instr(stash[1], s1)->Next_0;
    assert(s2.stack =~= below);
    assert(machine::forward(stash, 0, m) == Some(s2));
    machine::lemma_forward(stash, m, 0);
    fast::lemma_parts(stash, check, m);
    fast::lemma_dm_check(width, s2, base, cap, address);
    let tested = s2.put(0, machine::bit(true));
    assert(tested.shed(1) =~= s2);
    fast::lemma_dm_address(s2, base, cap, address);
    let to = (base as i32).wrapping_add(address);
    let m1 = s2.put(0, Val::I32(to));
    assert(m1.stack =~= below.push(Val::I32(to)));
    assert(m.outer.subrange(base + first, base + first + width) =~= bytes);
    let m2 = machine::run_instr(load[0], m1)->Next_0;
    let m3 = Machine { stack: below.push(Val::F64(r)), ..m1 };
    if width == 4 {
        assert(m2.stack =~= below.push(Val::F32(machine::number(bytes))));
        let n2 = machine::run_instr(load[1], m2)->Next_0;
        assert(n2.stack =~= below.push(Val::F64(r)));
        assert(n2 =~= m3);
        assert(machine::forward(load, 0, m1) == Some(m3));
    } else {
        assert(m2.stack =~= below.push(Val::F64(r)));
        assert(m2 =~= m3);
        assert(machine::forward(load, 0, m1) == Some(m3));
    }
    machine::lemma_forward(load, m1, 0);
    fast::lemma_parts(linear::dm_address(), load, s2);
    let m4 = numeric::lemma_boxing(m3, below, r);
    machine::lemma_run_concat(machine::plains(arm), numeric::boxing(), s2, 0);
    fast::lemma_pick(BlockTy::I64, yes, no, tested, true, m4);
    machine::lemma_run_concat(machine::plains(stash + check), pick, m, 0);
    assert(is_read(bytes, width, r));
}

/// The bytes that stand for a number: those of a nearest single in four, its own in eight.
pub open spec fn is_written(bytes: Seq<u8>, width: u32, number: u64) -> bool {
    if width == 4 {
        exists|single: u32| #[trigger]
            doubles::is_nearest_single(single, number) && bytes
                == vstd::bytes::spec_u32_to_le_bytes(single)
    } else {
        bytes == vstd::bytes::spec_u64_to_le_bytes(number)
    }
}

proof fn lemma_first(m: Machine, below: Seq<Val>, word: u64, address: i32) -> (n: Machine)
    requires
        m.locals.len() == 19,
        m.stack == below.push(Val::I64(word)).push(Val::I64(linear::int_word(address))),
    ensures
        machine::run(
            machine::plains(
                seq![
                    Instr::Cvt(Cvtop::I32WrapI64),
                    Instr::LocalSet(SCRATCH),
                    Instr::LocalSet(SCRATCH64),
                ],
            ),
            m,
            0,
        ) == Outcome::Next(n),
        n == (Machine {
            locals: m.locals.update(SCRATCH as int, Val::I32(address)).update(
                SCRATCH64 as int,
                Val::I64(word),
            ),
            stack: below,
            ..m
        }),
{
    fast::lemma_int_words(address);
    let stash = seq![
        Instr::Cvt(Cvtop::I32WrapI64),
        Instr::LocalSet(SCRATCH),
        Instr::LocalSet(SCRATCH64),
    ];
    reveal_with_fuel(machine::forward, 4);
    let s1 = machine::run_instr(stash[0], m)->Next_0;
    assert(s1.stack =~= below.push(Val::I64(word)).push(Val::I32(address)));
    let s2 = machine::run_instr(stash[1], s1)->Next_0;
    assert(s2.stack =~= below.push(Val::I64(word)));
    let s3 = machine::run_instr(stash[2], s2)->Next_0;
    assert(s3.stack =~= below);
    assert(machine::forward(stash, 0, m) == Some(s3));
    machine::lemma_forward(stash, m, 0);
    s3
}

proof fn lemma_bytes(single: u32, double: u64)
    ensures
        vstd::bytes::spec_u32_to_le_bytes(single).len() == 4,
        vstd::bytes::spec_u64_to_le_bytes(double).len() == 8,
{
    vstd::bytes::lemma_auto_spec_u32_to_from_le_bytes();
    vstd::bytes::lemma_auto_spec_u64_to_from_le_bytes();
}

/// The store itself.
#[verifier::rlimit(40)]
proof fn lemma_last(width: u32, m: Machine, below: Seq<Val>, to: i32, number: u64) -> (n: Machine)
    requires
        width == 4 || width == 8,
        m.stack == below.push(Val::I32(to)).push(Val::F64(number)),
        (to as u32) + width <= m.outer.len(),
        width == 4 ==> doubles::fits_single(number),
    ensures
        machine::run(machine::plains(linear::float_store(width)), m, 0) == Outcome::Next(n),
        n.stack == below,
        n.memory == m.memory,
        n.outer.len() == m.outer.len(),
        is_written(n.outer.subrange((to as u32) as int, (to as u32) + width), width, number),
        forall|i: int|
            0 <= i < m.outer.len() && !(to as u32 <= i < (to as u32) + width)
                ==> #[trigger] n.outer[i] == m.outer[i],
{
    let code = linear::float_store(width);
    let at = (to as u32) as int;
    let single = doubles::as_single(number);
    doubles::lemma_single_rounds(number);
    lemma_bytes(single, number);
    reveal_with_fuel(machine::forward, 3);
    if width == 4 {
        let bytes = vstd::bytes::spec_u32_to_le_bytes(single);
        let n1 = machine::run_instr(code[0], m)->Next_0;
        assert(n1.stack =~= below.push(Val::I32(to)).push(Val::F32(single)));
        let n2 = machine::run_instr(code[1], n1)->Next_0;
        assert(n2.stack =~= below);
        assert(machine::forward(code, 0, m) == Some(n2));
        machine::lemma_forward(code, m, 0);
        assert(n2.outer == m.outer.take(at) + bytes + m.outer.skip(at + 4));
        assert(n2.outer.subrange(at, at + 4) =~= bytes);
        n2
    } else {
        let bytes = vstd::bytes::spec_u64_to_le_bytes(number);
        let n1 = machine::run_instr(code[0], m)->Next_0;
        assert(n1.stack =~= below);
        assert(machine::forward(code, 0, m) == Some(n1));
        machine::lemma_forward(code, m, 0);
        assert(n1.outer == m.outer.take(at) + bytes + m.outer.skip(at + 8));
        assert(n1.outer.subrange(at, at + 8) =~= bytes);
        n1
    }
}

/// An inline store inside domain memory writes the number of the word there, and nothing else.
#[verifier::rlimit(60)]
pub proof fn float_stores_write_the_number(
    lay: Layout,
    width: u32,
    m: Machine,
    below: Seq<Val>,
    base: u32,
    cap: u32,
    word: u64,
    address: i32,
) -> (nodes: Seq<Node>)
    requires
        fast::has_domain(m, base, cap),
        width == 4 || width == 8,
        m.stack == below.push(Val::I64(word)).push(Val::I64(linear::int_word(address))),
        (address as u32) + width <= cap,
        width == 4 ==> doubles::fits_single(numeric::as_bits(word)),
    ensures
        machine::flat(nodes) == linear::dm_store_f_code(lay, width),
        machine::run(nodes, m, 0) matches Outcome::Next(n) && {
            let to = base + (address as u32);
            &&& n.stack == below
            &&& n.memory == m.memory
            &&& n.outer.len() == m.outer.len()
            &&& is_written(n.outer.subrange(to, to + width), width, numeric::as_bits(word))
            &&& forall|i: int|
                0 <= i < m.outer.len() && !(to <= i < to + width) ==> #[trigger] n.outer[i]
                    == m.outer[i]
        },
{
    reveal(linear::dm_store_f_code);
    fast::lemma_int_words(address);
    let number = numeric::as_bits(word);
    let stash = seq![
        Instr::Cvt(Cvtop::I32WrapI64),
        Instr::LocalSet(SCRATCH),
        Instr::LocalSet(SCRATCH64),
    ];
    let check = linear::dm_check(width);
    let value = linear::numval(SCRATCH64);
    let store = linear::float_store(width);
    let arm = linear::dm_address() + value + store;
    let other = seq![Instr::LocalGet(SCRATCH64), Instr::LocalGet(SCRATCH)] + linear::box_int()
        + seq![
        Instr::I64Const(width as u64),
        Instr::Call(lay.set3_index@[manifest::DM_STORE_F_KIND as int]),
        Instr::Drop,
    ];
    let yes = machine::plains(arm);
    let no = machine::plains(other);
    let pick = seq![Node::Pick(BlockTy::Empty, yes, no)];
    let nodes = machine::plains(stash + check) + pick;
    machine::lemma_flat_plains(stash + check);
    machine::lemma_flat_plains(arm);
    machine::lemma_flat_plains(other);
    fast::lemma_flat_pick(BlockTy::Empty, yes, no);
    machine::lemma_flat_concat(machine::plains(stash + check), pick);
    assert(machine::flat(nodes) =~= linear::dm_store_f_code(lay, width));
    let s3 = lemma_first(m, below, word, address);
    fast::lemma_parts(stash, check, m);
    fast::lemma_dm_check(width, s3, base, cap, address);
    let tested = s3.put(0, machine::bit(true));
    assert(tested.shed(1) =~= s3);
    fast::lemma_dm_address(s3, base, cap, address);
    let to = (base as i32).wrapping_add(address);
    let m1 = s3.put(0, Val::I32(to));
    assert(m1.stack =~= below.push(Val::I32(to)));
    numeric::lemma_numval(SCRATCH64, m1, word);
    let m2 = m1.put(0, Val::F64(number));
    assert(m2.stack =~= below.push(Val::I32(to)).push(Val::F64(number)));
    let m3 = lemma_last(width, m2, below, to, number);
    fast::lemma_parts(linear::dm_address(), value, s3);
    fast::lemma_parts(linear::dm_address() + value, store, s3);
    fast::lemma_pick(BlockTy::Empty, yes, no, tested, true, m3);
    machine::lemma_run_concat(machine::plains(stash + check), pick, m, 0);
    nodes
}

} // verus!
