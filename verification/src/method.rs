//! The way of a method from its verified code to a module.
//!
//! Three ways are tried in turn. On raw ints and on raw doubles only where the analysis says
//! that every value is one; else on boxed values, after slot reads have been moved out of
//! loops and small callees put in place of their calls. What is only known when the method is
//! compiled (the globals of scripts, strings, the class that a result is coerced to) is put
//! into the ops as constants.

use crate::analysis;
use crate::analysis::{double_sound, int_sound};
use crate::direct;
use crate::direct::eligible;
use crate::hoist;
use crate::hoist::hoist_pass;
use crate::inline::{callee_inlinable, receiver_is_this, splice, splice_fits, ResultMode};
use crate::lower::encode;
use crate::lower::manifest;
use crate::lower::manifest::Manifest;
use crate::lower::module;
use crate::lower::module::compile_for;
use crate::lower::op;
use crate::lower::op::{ExcRange, JitOp, SwitchTable};
use crate::lower::wasm::Target;
use crate::translate;
use crate::translate::{
    coerce_class_table, multiname_table, namespaces_table, natives_table, ops_countable,
    push_string_table, translate_boxed_for, translate_double, ClassKind, Op,
};
use vstd::prelude::*;

verus! {

/// The code of a method that may be put in place of a call.
pub struct CalleeBody {
    pub num_locals: u32,
    pub ops: Vec<Op>,
    /// The indices of the reads that are known to give a `Number`.
    pub number_slots: Vec<u32>,
}

/// A method that a call leads to.
pub struct Callee {
    pub key: u64,
    /// Its code, if it has one that has been verified.
    pub body: Option<CalleeBody>,
}

/// The class that a method belongs to.
pub struct Bound {
    pub is_final: bool,
    /// The constructor of its superclass.
    pub super_init: Option<Callee>,
    /// The methods of its instances, by their dispatch ids.
    pub methods: Vec<Option<Callee>>,
}

/// What is known of a method when it is compiled.
pub struct Method {
    pub key: u64,
    pub num_locals: u32,
    pub ops: Vec<Op>,
    /// The indices of the reads that are known to give a `Number`.
    pub number_slots: Vec<u32>,
    /// The indices of the slot reads whose receiver is known not to be null.
    pub null_safe_getslots: Vec<u32>,
    pub exceptions: Vec<ExcRange>,
    /// The types of the signature are known. Without them nothing is compiled.
    pub resolved: bool,
    /// The declared types of the parameters.
    pub params: Vec<Option<ClassKind>>,
    /// The class that the result is coerced to; 0 for none.
    pub return_type: u64,
    /// The globals of each script that the ops read, in the order of the ops.
    pub script_globals: Vec<u64>,
    pub bound: Option<Bound>,
}

/// Local 0 is `this`, the parameters follow; marks those of a chosen type.
pub open spec fn seed(
    num_locals: nat,
    params: Seq<Option<ClassKind>>,
    chosen: spec_fn(Option<ClassKind>) -> bool,
) -> Seq<bool> {
    Seq::new(num_locals, |l: int| 1 <= l <= params.len() && chosen(params[l - 1]))
}

/// The parameters that are ints. `uint` is none of them: a `uint` above the largest int is a
/// positive number, which raw ints would take for a negative one.
pub open spec fn int_seed(num_locals: nat, params: Seq<Option<ClassKind>>) -> Seq<bool> {
    seed(num_locals, params, |t: Option<ClassKind>| t == Some(ClassKind::Int))
}

/// The parameters that are doubles.
pub open spec fn double_seed(num_locals: nat, params: Seq<Option<ClassKind>>) -> Seq<bool> {
    seed(num_locals, params, |t: Option<ClassKind>| t == Some(ClassKind::Number))
}

/// The parameters that are numbers of some kind.
pub open spec fn numeric_seed(num_locals: nat, params: Seq<Option<ClassKind>>) -> Seq<bool> {
    seed(
        num_locals,
        params,
        |t: Option<ClassKind>|
            t == Some(ClassKind::Int) || t == Some(ClassKind::Uint) || t == Some(
                ClassKind::Number,
            ),
    )
}

/// Which locals are ints, doubles and numbers at entry.
pub fn locals_typed_seed(num_locals: u32, params: &[Option<ClassKind>]) -> (r: (
    Vec<bool>,
    Vec<bool>,
    Vec<bool>,
))
    ensures
        r.0@ == int_seed(num_locals as nat, params@),
        r.1@ == double_seed(num_locals as nat, params@),
        r.2@ == numeric_seed(num_locals as nat, params@),
{
    let mut ints: Vec<bool> = Vec::new();
    let mut doubles: Vec<bool> = Vec::new();
    let mut numbers: Vec<bool> = Vec::new();
    let mut l: u32 = 0;
    while l < num_locals
        invariant
            l <= num_locals,
            ints@ =~= int_seed(l as nat, params@),
            doubles@ =~= double_seed(l as nat, params@),
            numbers@ =~= numeric_seed(l as nat, params@),
        decreases num_locals - l,
    {
        let t = if l >= 1 && (l as usize) <= params.len() {
            params[l as usize - 1]
        } else {
            None
        };
        let is_int = matches!(t, Some(ClassKind::Int));
        let is_double = matches!(t, Some(ClassKind::Number));
        ints.push(is_int);
        doubles.push(is_double);
        numbers.push(is_int || is_double || matches!(t, Some(ClassKind::Uint)));
        l = l + 1;
    }
    (ints, doubles, numbers)
}

// Cells of caches. A cached property read and a cached call each have a cell of their own.

/// How many of the first `n` ops are cached reads.
pub open spec fn reads_before(ops: Seq<JitOp>, n: int) -> nat
    decreases n,
{
    if n <= 0 {
        0
    } else {
        reads_before(ops, n - 1) + translate::one_if(ops[n - 1] is GetPropertyIc)
    }
}

/// How many of the first `n` ops are cached calls.
pub open spec fn calls_before(ops: Seq<JitOp>, n: int) -> nat
    decreases n,
{
    if n <= 0 {
        0
    } else {
        calls_before(ops, n - 1) + translate::one_if(ops[n - 1] is CallMethodDirect)
    }
}

/// Op `i` with the cell that is its by the order of the ops.
pub open spec fn with_cell(ops: Seq<JitOp>, i: int) -> JitOp {
    match ops[i] {
        JitOp::GetPropertyIc(k, _) => JitOp::GetPropertyIc(k, reads_before(ops, i) as u32),
        JitOp::CallMethodDirect(id, argc, push, _) => JitOp::CallMethodDirect(
            id,
            argc,
            push,
            calls_before(ops, i) as u32,
        ),
        op => op,
    }
}

/// The ops with their cells numbered anew.
pub open spec fn renumbered(ops: Seq<JitOp>) -> Seq<JitOp> {
    Seq::new(ops.len(), |i: int| with_cell(ops, i))
}

proof fn lemma_cells_grow(ops: Seq<JitOp>, i: int, j: int)
    requires
        0 <= i <= j,
    ensures
        reads_before(ops, i) <= reads_before(ops, j) <= j,
        calls_before(ops, i) <= calls_before(ops, j) <= j,
    decreases j,
{
    if i < j {
        lemma_cells_grow(ops, i, j - 1);
    } else if j > 0 {
        lemma_cells_grow(ops, j - 1, j - 1);
    }
}

/// Numbers the cells of the cached reads, and those of the cached calls, by the order of the
/// ops.
pub fn renumber_cache_sites(ops: &mut Vec<JitOp>)
    requires
        old(ops)@.len() <= u32::MAX,
    ensures
        final(ops)@ == renumbered(old(ops)@),
{
    let n: usize = ops.len();
    let mut reads: u32 = 0;
    let mut calls: u32 = 0;
    let mut i: usize = 0;
    while i < n
        invariant
            i <= n == ops@.len(),
            n == old(ops)@.len() <= u32::MAX,
            reads == reads_before(old(ops)@, i as int),
            calls == calls_before(old(ops)@, i as int),
            forall|k: int| 0 <= k < i ==> #[trigger] ops@[k] == with_cell(old(ops)@, k),
            forall|k: int| i <= k < n ==> #[trigger] ops@[k] == old(ops)@[k],
        decreases n - i,
    {
        proof {
            lemma_cells_grow(old(ops)@, i as int, i as int);
        }
        match ops[i] {
            JitOp::GetPropertyIc(k, _) => {
                ops[i] = JitOp::GetPropertyIc(k, reads);
                reads = reads + 1;
            },
            JitOp::CallMethodDirect(id, argc, push, _) => {
                ops[i] = JitOp::CallMethodDirect(id, argc, push, calls);
                calls = calls + 1;
            },
            _ => {},
        }
        i = i + 1;
    }
}

/// How many cells the cached reads and the cached calls need.
pub fn cache_cells(ops: &[JitOp]) -> (r: (usize, usize))
    ensures
        r.0 == reads_before(ops@, ops@.len() as int),
        r.1 == calls_before(ops@, ops@.len() as int),
{
    let mut reads: usize = 0;
    let mut calls: usize = 0;
    let mut i: usize = 0;
    while i < ops.len()
        invariant
            i <= ops@.len(),
            reads == reads_before(ops@, i as int) <= i,
            calls == calls_before(ops@, i as int) <= i,
        decreases ops@.len() - i,
    {
        match ops[i] {
            JitOp::GetPropertyIc(_, _) => {
                reads = reads + 1;
            },
            JitOp::CallMethodDirect(_, _, _, _) => {
                calls = calls + 1;
            },
            _ => {},
        }
        i = i + 1;
    }
    (reads, calls)
}

/// The cell of a cached read or call.
pub open spec fn cell_of(op: JitOp) -> Option<u32> {
    match op {
        JitOp::GetPropertyIc(_, site) => Some(site),
        JitOp::CallMethodDirect(_, _, _, site) => Some(site),
        _ => None,
    }
}

/// After renumbering, no two cached reads share a cell, nor do two cached calls, and each cell
/// is one of those counted.
pub proof fn cells_are_their_own(ops: Seq<JitOp>, i: int, j: int)
    requires
        ops.len() <= u32::MAX,
        0 <= i < ops.len(),
        0 <= j < ops.len(),
        i != j,
    ensures
        renumbered(ops)[i] is GetPropertyIc && renumbered(ops)[j] is GetPropertyIc ==> cell_of(
            renumbered(ops)[i],
        ) != cell_of(renumbered(ops)[j]),
        renumbered(ops)[i] is CallMethodDirect && renumbered(ops)[j] is CallMethodDirect ==> cell_of(
            renumbered(ops)[i],
        ) != cell_of(renumbered(ops)[j]),
        renumbered(ops)[i] is GetPropertyIc ==> cell_of(renumbered(ops)[i])->0 < reads_before(
            ops,
            ops.len() as int,
        ),
        renumbered(ops)[i] is CallMethodDirect ==> cell_of(renumbered(ops)[i])->0 < calls_before(
            ops,
            ops.len() as int,
        ),
{
    let n = ops.len() as int;
    lemma_cells_grow(ops, i, n);
    lemma_cells_grow(ops, j, n);
    lemma_cells_grow(ops, i + 1, n);
    if i < j {
        lemma_cells_grow(ops, i + 1, j);
    } else {
        lemma_cells_grow(ops, j + 1, i);
    }
}

/// Renumbering twice is renumbering once.
pub proof fn renumbering_is_stable(ops: Seq<JitOp>)
    ensures
        renumbered(renumbered(ops)) == renumbered(ops),
{
    assert forall|i: int| 0 <= i < ops.len() implies with_cell(renumbered(ops), i) == with_cell(
        ops,
        i,
    ) by {
        lemma_same_cells(ops, renumbered(ops), i);
    }
    assert(renumbered(renumbered(ops)) =~= renumbered(ops));
}

proof fn lemma_same_cells(a: Seq<JitOp>, b: Seq<JitOp>, n: int)
    requires
        0 <= n <= a.len(),
        b == renumbered(a),
    ensures
        reads_before(a, n) == reads_before(b, n),
        calls_before(a, n) == calls_before(b, n),
    decreases n,
{
    if n > 0 {
        lemma_same_cells(a, b, n - 1);
    }
}

// Constants.

/// The op with what is known of it put in: the globals of its script, its string, the class
/// that the result is coerced to.
pub open spec fn baked(op: JitOp, globals: Seq<u64>, strings: Seq<u64>, return_type: u64) -> JitOp {
    match op {
        JitOp::GetScriptGlobals(k) => if k < globals.len() {
            JitOp::PushBits(globals[k as int])
        } else {
            op
        },
        JitOp::PushString(k) => if k < strings.len() {
            JitOp::PushBits(strings[k as int])
        } else {
            op
        },
        JitOp::ReturnValueCoerced => if return_type != 0 {
            JitOp::ReturnValueCoerceBaked(return_type)
        } else {
            op
        },
        _ => op,
    }
}

/// Puts what is known of the ops into them.
pub fn bake(ops: &mut Vec<JitOp>, globals: &[u64], strings: &[u64], return_type: u64)
    ensures
        final(ops)@ == old(ops)@.map_values(|op: JitOp| baked(op, globals@, strings@, return_type)),
{
    let n: usize = ops.len();
    let mut i: usize = 0;
    while i < n
        invariant
            i <= n == ops@.len(),
            n == old(ops)@.len(),
            forall|k: int|
                0 <= k < i ==> #[trigger] ops@[k] == baked(
                    old(ops)@[k],
                    globals@,
                    strings@,
                    return_type,
                ),
            forall|k: int| i <= k < n ==> #[trigger] ops@[k] == old(ops)@[k],
        decreases n - i,
    {
        match ops[i] {
            JitOp::GetScriptGlobals(k) => {
                if (k as usize) < globals.len() {
                    ops[i] = JitOp::PushBits(globals[k as usize]);
                }
            },
            JitOp::PushString(k) => {
                if (k as usize) < strings.len() {
                    ops[i] = JitOp::PushBits(strings[k as usize]);
                }
            },
            JitOp::ReturnValueCoerced => {
                if return_type != 0 {
                    ops[i] = JitOp::ReturnValueCoerceBaked(return_type);
                }
            },
            _ => {},
        }
        i = i + 1;
    }
    assert(ops@ =~= old(ops)@.map_values(
        |op: JitOp| baked(op, globals@, strings@, return_type),
    ));
}

fn has_index(list: &[u32], i: u32) -> (r: bool)
    ensures
        r == list@.contains(i),
{
    let mut k: usize = 0;
    while k < list.len()
        invariant
            k <= list@.len(),
            forall|j: int| 0 <= j < k ==> list@[j] != i,
        decreases list@.len() - k,
    {
        if list[k] == i {
            assert(list@[k as int] == i);
            return true;
        }
        k = k + 1;
    }
    false
}

/// Every slot read has a receiver that is known not to be null.
pub open spec fn getslots_safe(ops: Seq<JitOp>, null_safe: Seq<u32>) -> bool {
    forall|i: int|
        0 <= i < ops.len() ==> (#[trigger] ops[i] is GetSlot ==> null_safe.contains(i as u32))
}

/// Whether every slot read of `ops` has a receiver that is known not to be null.
pub fn all_getslots_null_safe(ops: &[JitOp], null_safe: &[u32]) -> (r: bool)
    requires
        ops@.len() <= u32::MAX,
    ensures
        r == getslots_safe(ops@, null_safe@),
{
    let mut i: usize = 0;
    while i < ops.len()
        invariant
            i <= ops@.len() <= u32::MAX,
            forall|k: int|
                0 <= k < i ==> (#[trigger] ops@[k] is GetSlot ==> null_safe@.contains(k as u32)),
        decreases ops@.len() - i,
    {
        if matches!(ops[i], JitOp::GetSlot(_, _)) && !has_index(null_safe, i as u32) {
            assert(ops@[i as int] is GetSlot);
            return false;
        }
        i = i + 1;
    }
    true
}

/// The indices that point at a slot read.
pub open spec fn slot_reads(null_safe: Seq<u32>, ops: Seq<JitOp>) -> Seq<u32> {
    null_safe.filter(|i: u32| i < ops.len() && ops[i as int] is GetSlot)
}

fn keep_slot_reads(null_safe: &[u32], ops: &[JitOp]) -> (r: Vec<u32>)
    ensures
        r@ == slot_reads(null_safe@, ops@),
        forall|k: int| 0 <= k < r@.len() ==> #[trigger] r@[k] < ops@.len(),
{
    let ghost keep = |i: u32| i < ops@.len() && ops@[i as int] is GetSlot;
    let mut r: Vec<u32> = Vec::new();
    let mut k: usize = 0;
    while k < null_safe.len()
        invariant
            k <= null_safe@.len(),
            keep == (|i: u32| i < ops@.len() && ops@[i as int] is GetSlot),
            r@ == null_safe@.take(k as int).filter(keep),
            forall|k: int| 0 <= k < r@.len() ==> #[trigger] r@[k] < ops@.len(),
        decreases null_safe@.len() - k,
    {
        let i: u32 = null_safe[k];
        proof {
            reveal(Seq::filter);
            assert(null_safe@.take(k + 1).drop_last() =~= null_safe@.take(k as int));
            assert(null_safe@.take(k + 1).last() == i);
        }
        if (i as usize) < ops.len() && matches!(ops[i as usize], JitOp::GetSlot(_, _)) {
            r.push(i);
        }
        k = k + 1;
    }
    proof {
        reveal(Seq::filter);
        assert(null_safe@.take(k as int) =~= null_safe@);
    }
    r
}

// Inlining.

/// The most locals that a frame holds.
pub const MAX_FRAME_SLOTS: u32 = 512;

/// The boxed ops of a method; `None` if some op has none, or there is a switch, whose targets
/// stand in a table of their own.
pub open spec fn switchless_ops(
    ops: Seq<Op>,
    number_slots: Seq<u32>,
    target: Target,
) -> Option<Seq<JitOp>> {
    if translate::countable(ops) && translate::all_boxed(ops, number_slots, target) && !has_switch(
        ops,
    ) {
        Some(boxed_ops(ops, number_slots, target))
    } else {
        None
    }
}

/// Some op is a switch.
pub open spec fn has_switch(ops: Seq<Op>) -> bool {
    exists|i: int| 0 <= i < ops.len() && #[trigger] ops[i] is LookupSwitch
}

/// The boxed op of each op.
pub open spec fn boxed_ops(ops: Seq<Op>, number_slots: Seq<u32>, target: Target) -> Seq<JitOp> {
    Seq::new(ops.len(), |i: int| translate::boxed_at(ops, number_slots, target, i)->0)
}

proof fn lemma_switches_counted(ops: Seq<Op>, n: int, s: translate::Setting)
    requires
        0 <= n <= ops.len(),
    ensures
        translate::counts(ops, n, s).switches == 0 <==> !(exists|i: int|
            0 <= i < n && #[trigger] ops[i] is LookupSwitch),
    decreases n,
{
    if n > 0 {
        lemma_switches_counted(ops, n - 1, s);
        if ops[n - 1] is LookupSwitch {
            assert(translate::counts(ops, n, s).switches > 0);
        }
    }
}

/// The callee that the call at `at` is known to lead to, the number of its arguments, and what
/// becomes of its result. A constructor of the superclass is known. A method of `this` is known
/// if the class is final, so that no other method can stand in its place.
pub open spec fn callee_at(ops: Seq<JitOp>, at: int, bound: Bound) -> Option<
    (Callee, u32, ResultMode),
> {
    match ops[at] {
        JitOp::ConstructSuper(argc) => match bound.super_init {
            Some(callee) => Some((callee, argc, ResultMode::Discard)),
            None => None,
        },
        JitOp::CallMethod(id, argc, push) => if bound.is_final && crate::inline::this_receives(
            ops,
            at,
            argc as nat,
        ) && id < bound.methods@.len() {
            match bound.methods@[id as int] {
                Some(callee) => Some(
                    (
                        callee,
                        argc,
                        if push {
                            ResultMode::Push
                        } else {
                            ResultMode::Discard
                        },
                    ),
                ),
                None => None,
            }
        } else {
            None
        },
        _ => None,
    }
}

/// What takes the place of a call.
pub struct Inlined {
    pub callee: Seq<JitOp>,
    pub argc: u32,
    pub result: ResultMode,
    /// The names that the callee refers to.
    pub names: Seq<u64>,
}

/// Where a method's inlined callees are put.
pub struct Site {
    pub key: u64,
    pub bound: Bound,
    /// The first local of an inlined callee.
    pub base: u32,
    pub target: Target,
}

/// What takes the place of the call at `at` in a method that refers to `names` names; `None`
/// if the call stays.
pub open spec fn inlined_at(ops: Seq<JitOp>, at: int, names: int, s: Site) -> Option<Inlined> {
    match callee_at(ops, at, s.bound) {
        None => None,
        Some((callee, argc, result)) => match callee.body {
            None => None,
            Some(body) => match switchless_ops(body.ops@, body.number_slots@, s.target) {
                None => None,
                Some(code) => if callee.key != s.key && crate::inline::inlinable(code) is Some
                    && s.base + body.num_locals <= MAX_FRAME_SLOTS && names <= u32::MAX
                    && crate::inline::can_splice(
                    ops,
                    at,
                    code,
                    s.base as int,
                    names,
                    argc as nat,
                ) {
                    Some(
                        Inlined {
                            callee: code,
                            argc,
                            result,
                            names: translate::entries(
                                body.ops@,
                                body.ops@.len() as int,
                                |op: Op| translate::name_id(op),
                            ),
                        },
                    )
                } else {
                    None
                },
            },
        },
    }
}

/// The first call from `from` on that does not stay.
pub open spec fn first_inlined(ops: Seq<JitOp>, from: int, names: int, s: Site) -> Option<int>
    decreases ops.len() - from,
{
    if from < 0 || from >= ops.len() {
        None
    } else if inlined_at(ops, from, names, s) is Some {
        Some(from)
    } else {
        first_inlined(ops, from + 1, names, s)
    }
}

/// The method with the call at `at` replaced.
pub open spec fn replaced(ops: Seq<JitOp>, at: int, names: int, base: u32, put: Inlined) -> Seq<
    JitOp,
> {
    crate::inline::spliced(
        ops,
        at,
        crate::inline::inlined(
            put.callee,
            at,
            base as int,
            names,
            put.argc as nat,
            put.result,
        ),
    )
}

/// The calls that may be replaced.
pub open spec fn is_known_call(op: JitOp) -> bool {
    op is ConstructSuper || op is CallMethod
}

/// How many calls of `ops` may be replaced.
pub open spec fn known_calls(ops: Seq<JitOp>) -> nat
    decreases ops.len(),
{
    if ops.len() == 0 {
        0
    } else {
        known_calls(ops.drop_last()) + translate::one_if(is_known_call(ops.last()))
    }
}

proof fn lemma_calls_add(a: Seq<JitOp>, b: Seq<JitOp>)
    ensures
        known_calls(a + b) == known_calls(a) + known_calls(b),
    decreases b.len(),
{
    if b.len() == 0 {
        assert(a + b =~= a);
    } else {
        lemma_calls_add(a, b.drop_last());
        assert((a + b).drop_last() =~= a + b.drop_last());
        assert((a + b).last() == b.last());
    }
}

proof fn lemma_calls_moved(a: Seq<JitOp>, at: int, by: int)
    ensures
        known_calls(a.map_values(|o: JitOp| crate::inline::past(o, at, by))) == known_calls(a),
    decreases a.len(),
{
    let moved = a.map_values(|o: JitOp| crate::inline::past(o, at, by));
    if a.len() > 0 {
        lemma_calls_moved(a.drop_last(), at, by);
        assert(moved.drop_last() =~= a.drop_last().map_values(
            |o: JitOp| crate::inline::past(o, at, by),
        ));
        assert(is_known_call(moved.last()) == is_known_call(a.last()));
    }
}

proof fn lemma_no_calls(a: Seq<JitOp>)
    requires
        forall|i: int| 0 <= i < a.len() ==> !is_known_call(#[trigger] a[i]),
    ensures
        known_calls(a) == 0,
    decreases a.len(),
{
    if a.len() > 0 {
        assert forall|i: int| 0 <= i < a.drop_last().len() implies !is_known_call(
            #[trigger] a.drop_last()[i],
        ) by {
            assert(a.drop_last()[i] == a[i]);
        }
        lemma_no_calls(a.drop_last());
    }
}

/// Replacing a call leaves one call less.
pub proof fn replacing_removes_a_call(ops: Seq<JitOp>, at: int, names: int, s: Site)
    requires
        0 <= at < ops.len(),
        inlined_at(ops, at, names, s) is Some,
    ensures
        known_calls(replaced(ops, at, names, s.base, inlined_at(ops, at, names, s)->0)) + 1
            == known_calls(ops),
{
    let put = inlined_at(ops, at, names, s)->0;
    let mid = crate::inline::inlined(
        put.callee,
        at,
        s.base as int,
        names,
        put.argc as nat,
        put.result,
    );
    let by = mid.len() - 1;
    let front = ops.take(at);
    let back = ops.skip(at + 1);
    assert forall|i: int| 0 <= i < mid.len() implies !is_known_call(#[trigger] mid[i]) by {
        crate::inline::inlined_ops_hold_no_call(
            put.callee,
            at,
            s.base as int,
            names,
            put.argc as nat,
            put.result,
            i,
        );
    }
    lemma_no_calls(mid);
    lemma_calls_moved(front, at, by);
    lemma_calls_moved(back, at, by);
    let f = front.map_values(|o: JitOp| crate::inline::past(o, at, by));
    let b = back.map_values(|o: JitOp| crate::inline::past(o, at, by));
    lemma_calls_add(f + mid, b);
    lemma_calls_add(f, mid);
    assert(ops =~= front + seq![ops[at]] + back);
    lemma_calls_add(front + seq![ops[at]], back);
    lemma_calls_add(front, seq![ops[at]]);
    assert(seq![ops[at]].drop_last() =~= Seq::empty());
    assert(known_calls(seq![ops[at]]) == 1) by {
        reveal_with_fuel(known_calls, 2);
    }
}

/// The first call that does not stay replaced, until all that are left stay: the ops, and the
/// names that they refer to.
pub open spec fn inline_all(ops: Seq<JitOp>, names: Seq<u64>, s: Site) -> (Seq<JitOp>, Seq<u64>)
    decreases known_calls(ops),
{
    match first_inlined(ops, 0, names.len() as int, s) {
        None => (ops, names),
        Some(at) => {
            let put = inlined_at(ops, at, names.len() as int, s)->0;
            proof {
                lemma_first_inlined(ops, 0, names.len() as int, s);
                replacing_removes_a_call(ops, at, names.len() as int, s);
            }
            inline_all(replaced(ops, at, names.len() as int, s.base, put), names + put.names, s)
        },
    }
}

/// The first call that does not stay is one that does not stay.
pub proof fn lemma_first_inlined(ops: Seq<JitOp>, from: int, names: int, s: Site)
    requires
        0 <= from,
    ensures
        first_inlined(ops, from, names, s) matches Some(at) ==> from <= at < ops.len()
            && inlined_at(ops, at, names, s) is Some,
    decreases ops.len() - from,
{
    if from < ops.len() && inlined_at(ops, from, names, s) is None {
        lemma_first_inlined(ops, from + 1, names, s);
    }
}

fn known_callee<'a>(ops: &[JitOp], idx: usize, bound: &'a Bound) -> (r: Option<
    (&'a Callee, u32, ResultMode),
>)
    requires
        idx < ops@.len(),
    ensures
        match r {
            Some((callee, argc, result)) => callee_at(ops@, idx as int, *bound) == Some(
                (*callee, argc, result),
            ),
            None => callee_at(ops@, idx as int, *bound) is None,
        },
{
    match ops[idx] {
        JitOp::ConstructSuper(argc) => match &bound.super_init {
            Some(callee) => Some((callee, argc, ResultMode::Discard)),
            None => None,
        },
        JitOp::CallMethod(id, argc, push) => {
            if !bound.is_final || !receiver_is_this(ops, idx, argc) || id as usize
                >= bound.methods.len() {
                return None;
            }
            match &bound.methods[id as usize] {
                Some(callee) => Some(
                    (
                        callee,
                        argc,
                        if push {
                            ResultMode::Push
                        } else {
                            ResultMode::Discard
                        },
                    ),
                ),
                None => None,
            }
        },
        _ => None,
    }
}

fn switchless(ops: &[Op], number_slots: &[u32], target: &Target) -> (r: Option<Vec<JitOp>>)
    ensures
        match switchless_ops(ops@, number_slots@, *target) {
            Some(code) => r matches Some(out) && out@ == code,
            None => r is None,
        },
{
    if !ops_countable(ops) {
        return None;
    }
    match translate_boxed_for(target, ops, number_slots) {
        None => None,
        Some((out, switches)) => {
            proof {
                lemma_switches_counted(
                    ops@,
                    ops@.len() as int,
                    translate::setting(ops@, *target),
                );
            }
            if switches.len() > 0 {
                None
            } else {
                assert(out@ =~= boxed_ops(ops@, number_slots@, *target));
                Some(out)
            }
        },
    }
}

/// The callee that takes the place of the call at `idx` in the method `key` of `bound`: its
/// ops, the number of its arguments, what becomes of its result, and the names that it refers
/// to. `names` is the number of names that the method itself refers to, `base` the first local
/// of an inlined callee. `None` if the call stays.
pub fn resolve_inlinable(
    ops: &[JitOp],
    idx: usize,
    key: u64,
    bound: &Bound,
    base: u32,
    names: usize,
    target: &Target,
) -> (r: Option<(Vec<JitOp>, u32, ResultMode, Vec<u64>)>)
    requires
        idx < ops@.len(),
    ensures
        match inlined_at(
            ops@,
            idx as int,
            names as int,
            (Site { key, bound: *bound, base, target: *target }),
        ) {
            Some(put) => r matches Some(found) && found.0@ == put.callee && found.1 == put.argc
                && found.2 == put.result && found.3@ == put.names,
            None => r is None,
        },
{
    let (callee, argc, result) = match known_callee(ops, idx, bound) {
        Some(found) => found,
        None => {
            return None;
        },
    };
    let body = match &callee.body {
        Some(body) => body,
        None => {
            return None;
        },
    };
    if callee.key == key || base > MAX_FRAME_SLOTS || body.num_locals > MAX_FRAME_SLOTS - base
        || names > u32::MAX as usize {
        return None;
    }
    let code = match switchless(&body.ops, &body.number_slots, target) {
        Some(code) => code,
        None => {
            return None;
        },
    };
    if callee_inlinable(&code).is_none() || !splice_fits(
        ops,
        idx,
        &code,
        base,
        names as u32,
        argc,
    ) {
        return None;
    }
    Some((code, argc, result, multiname_table(&body.ops)))
}

/// Puts the ops of known, small callees in place of their calls, and their names behind
/// `names`. The callees' locals start at `base`.
pub fn inline_pass(
    ops: &mut Vec<JitOp>,
    names: &mut Vec<u64>,
    key: u64,
    bound: &Bound,
    base: u32,
    target: &Target,
)
    ensures
        (final(ops)@, final(names)@) == inline_all(
            old(ops)@,
            old(names)@,
            (Site { key, bound: *bound, base, target: *target }),
        ),
{
    let ghost s = Site { key, bound: *bound, base, target: *target };
    let mut idx: usize = 0;
    while idx < ops.len()
        invariant
            s == (Site { key, bound: *bound, base, target: *target }),
            idx <= ops@.len(),
            inline_all(old(ops)@, old(names)@, s) == inline_all(ops@, names@, s),
            first_inlined(ops@, 0, names@.len() as int, s) == first_inlined(
                ops@,
                idx as int,
                names@.len() as int,
                s,
            ),
        decreases known_calls(ops@), ops@.len() - idx,
    {
        match resolve_inlinable(ops, idx, key, bound, base, names.len(), target) {
            None => {
                idx = idx + 1;
            },
            Some((callee, argc, result, callee_names)) => {
                proof {
                    replacing_removes_a_call(ops@, idx as int, names@.len() as int, s);
                }
                let mut callee_names = callee_names;
                let n: usize = names.len();
                if let Some(next) = splice(ops, idx, &callee, base, n as u32, argc, result) {
                    *ops = next;
                    names.append(&mut callee_names);
                    idx = 0;
                } else {
                    idx = idx + 1;
                }
            },
        }
    }
}

// From code to ops.

/// The most ops of a method that is compiled.
pub const MAX_METHOD_OPS: usize = 0x4000_0000;

/// A method that the verifier lets pass: there is an op to start at, branches lead to ops, and
/// ops and locals can be counted.
pub open spec fn well_formed(m: Method) -> bool {
    &&& 0 < m.ops@.len() < MAX_METHOD_OPS
    &&& translate::countable(m.ops@)
    &&& forall|i: int|
        0 <= i < m.ops@.len() ==> (translate::jump_target(#[trigger] m.ops@[i]) matches Some(t)
            ==> t < m.ops@.len())
    &&& m.num_locals + hoist::MAX_HOISTS_PER_METHOD <= u32::MAX
}

/// Whether a method is one that the verifier lets pass.
pub fn is_well_formed(m: &Method) -> (r: bool)
    ensures
        r == well_formed(*m),
{
    let n: usize = m.ops.len();
    if n == 0 || n >= MAX_METHOD_OPS || !ops_countable(&m.ops) || m.num_locals > u32::MAX
        - hoist::MAX_HOISTS_PER_METHOD {
        return false;
    }
    let mut i: usize = 0;
    while i < n
        invariant
            i <= n == m.ops@.len(),
            forall|k: int|
                0 <= k < i ==> (translate::jump_target(#[trigger] m.ops@[k]) matches Some(t) ==> t
                    < m.ops@.len()),
        decreases n - i,
    {
        let inside = match &m.ops[i] {
            Op::Jump { offset } | Op::IfTrue { offset } | Op::IfFalse { offset } => *offset < n,
            _ => true,
        };
        if !inside {
            assert(translate::jump_target(m.ops@[i as int]) matches Some(t) && t >= n);
            return false;
        }
        i = i + 1;
    }
    true
}

/// What a module is made from.
pub struct Source {
    pub ops: Vec<JitOp>,
    pub switches: Vec<SwitchTable>,
    pub exceptions: Vec<ExcRange>,
    /// The names that the ops refer to.
    pub names: Vec<u64>,
}

/// The ops on raw ints; `None` if they would not be faithful.
pub open spec fn raw_int_ops(m: Method) -> Option<Seq<JitOp>> {
    let ops = translate::mapped(m.ops@, |op: Op| translate::int_op(op));
    if translate::all_map(m.ops@, |op: Op| translate::int_op(op)) && analysis::ints_hold(
        ops,
        int_seed(m.num_locals as nat, m.params@),
    ) {
        Some(ops)
    } else {
        None
    }
}

/// The ops on raw doubles; `None` if they would not be faithful.
pub open spec fn raw_double_ops(m: Method) -> Option<Seq<JitOp>> {
    let ops = translate::mapped(m.ops@, |op: Op| translate::double_op(op));
    if translate::all_map(m.ops@, |op: Op| translate::double_op(op)) && analysis::double_run(
        ops,
        analysis::Marks {
            locals: double_seed(m.num_locals as nat, m.params@),
            stack: Seq::empty(),
        },
    ) is Some {
        Some(ops)
    } else {
        None
    }
}

/// The names that the method's own ops refer to.
pub open spec fn own_names(m: Method) -> Seq<u64> {
    translate::entries(m.ops@, m.ops@.len() as int, |op: Op| translate::name_id(op))
}

/// The ops on boxed values after slot reads have been moved and callees inlined, and the names
/// that they refer to. Switches and handlers refer to ops by their indices, which both would
/// move: where there are some, the ops stay as they are.
pub open spec fn rewritten_ops(m: Method, target: Target) -> (Seq<JitOp>, Seq<u64>) {
    let ops = boxed_ops(m.ops@, m.number_slots@, target);
    if has_switch(m.ops@) || m.exceptions@.len() > 0 {
        (ops, own_names(m))
    } else {
        let (moved, used) = hoist::hoist_from(
            ops,
            slot_reads(m.null_safe_getslots@, ops),
            m.num_locals as int,
            MAX_FRAME_SLOTS as int,
            0,
            0,
        );
        match m.bound {
            Some(bound) => inline_all(
                moved,
                own_names(m),
                Site { key: m.key, bound, base: (m.num_locals + used) as u32, target },
            ),
            None => (moved, own_names(m)),
        }
    }
}

/// The ops on boxed values as they are lowered, and the names that they refer to; `None` if
/// some op has no boxed op, or there are too many.
pub open spec fn boxed_source(m: Method, target: Target) -> Option<(Seq<JitOp>, Seq<u64>)> {
    let (ops, names) = rewritten_ops(m, target);
    let strings = translate::entries(
        m.ops@,
        m.ops@.len() as int,
        |op: Op| translate::string_of(op),
    );
    if translate::all_boxed(m.ops@, m.number_slots@, target) && ops.len() < MAX_METHOD_OPS {
        Some(
            (
                renumbered(ops).map_values(
                    |op: JitOp| baked(op, m.script_globals@, strings, m.return_type),
                ),
                names,
            ),
        )
    } else {
        None
    }
}

/// What the module of `m` is made from: raw ints where they are faithful, else raw doubles
/// where they are, else boxed values.
pub open spec fn is_source(m: Method, target: Target, src: Source) -> bool {
    m.resolved && match (raw_int_ops(m), raw_double_ops(m), boxed_source(m, target)) {
        (Some(ops), _, _) => is_raw(src, ops),
        (None, Some(ops), _) => is_raw(src, ops),
        (None, None, Some((ops, names))) => {
            &&& src.ops@ == ops
            &&& src.names@ == names
            &&& src.exceptions@ == m.exceptions@
            &&& translate::switches_line_up(
                m.ops@,
                translate::setting(m.ops@, target),
                m.ops@.len() as int,
                src.switches@,
            )
        },
        (None, None, None) => false,
    }
}

/// Made from `ops` alone.
pub open spec fn is_raw(src: Source, ops: Seq<JitOp>) -> bool {
    &&& src.ops@ == ops
    &&& src.switches@.len() == 0
    &&& src.exceptions@.len() == 0
    &&& src.names@.len() == 0
}

/// Something can be made of `m`.
pub open spec fn has_source(m: Method, target: Target) -> bool {
    m.resolved && (raw_int_ops(m) is Some || raw_double_ops(m) is Some || boxed_source(
        m,
        target,
    ) is Some)
}

fn raw_source(ops: Vec<JitOp>) -> (r: Source)
    ensures
        is_raw(r, ops@),
{
    Source { ops, switches: Vec::new(), exceptions: Vec::new(), names: Vec::new() }
}

fn copy_ranges(list: &[ExcRange]) -> (r: Vec<ExcRange>)
    ensures
        r@ == list@,
{
    let mut r: Vec<ExcRange> = Vec::new();
    let mut i: usize = 0;
    while i < list.len()
        invariant
            i <= list@.len(),
            r@ =~= list@.take(i as int),
        decreases list@.len() - i,
    {
        r.push(list[i]);
        i = i + 1;
    }
    assert(list@.take(i as int) =~= list@);
    r
}

/// The ops on raw values, where they are faithful: ints before doubles.
fn raw_ops(m: &Method) -> (r: Option<Vec<JitOp>>)
    requires
        well_formed(*m),
    ensures
        match (raw_int_ops(*m), raw_double_ops(*m)) {
            (Some(ops), _) => r matches Some(out) && out@ == ops,
            (None, Some(ops)) => r matches Some(out) && out@ == ops,
            (None, None) => r is None,
        },
{
    let (ints, doubles, _) = locals_typed_seed(m.num_locals, &m.params);
    if let Some(ops) = translate::translate(&m.ops) {
        proof {
            assert forall|i: int| 0 <= i < ops@.len() implies manifest::in_range(
                #[trigger] ops@[i],
            ) by {
                assert(translate::int_op(m.ops@[i]) is Some) by {
                    let f = |op: Op| translate::int_op(op);
                    assert(f(m.ops@[i]) is Some);
                }
            }
        }
        if int_sound(&ops, &ints) {
            return Some(ops);
        }
    }
    if let Some(ops) = translate_double(&m.ops) {
        if double_sound(&ops, &doubles) {
            return Some(ops);
        }
    }
    None
}

proof fn lemma_boxed_targets(m: Method, target: Target)
    requires
        well_formed(m),
        translate::all_boxed(m.ops@, m.number_slots@, target),
    ensures
        forall|j: int|
            0 <= j < m.ops@.len() ==> (op::branch_target(
                #[trigger] boxed_ops(m.ops@, m.number_slots@, target)[j],
            ) matches Some(t) ==> t + 48 <= usize::MAX),
{
    let s = translate::setting(m.ops@, target);
    assert forall|j: int| 0 <= j < m.ops@.len() implies (op::branch_target(
        #[trigger] boxed_ops(m.ops@, m.number_slots@, target)[j],
    ) matches Some(t) ==> t + 48 <= usize::MAX) by {
        assert(translate::boxed_at(m.ops@, m.number_slots@, target, j) is Some);
        translate::branches_carry_over(
            m.ops@[j],
            translate::counts(m.ops@, j, s),
            s,
            m.number_slots@.contains(j as u32),
        );
    }
}

/// Turns the code of a method into what its module is made from. `None` for anything
/// unsupported.
pub fn method_source(m: &Method, target: &Target) -> (r: Option<Source>)
    requires
        well_formed(*m),
    ensures
        r matches Some(src) ==> is_source(*m, *target, src),
        r is None ==> !has_source(*m, *target),
{
    if !m.resolved {
        return None;
    }
    if let Some(ops) = raw_ops(m) {
        return Some(raw_source(ops));
    }
    let (mut ops, switches) = match translate_boxed_for(target, &m.ops, &m.number_slots) {
        Some(found) => found,
        None => {
            return None;
        },
    };
    proof {
        assert(ops@ =~= boxed_ops(m.ops@, m.number_slots@, *target));
        lemma_boxed_targets(*m, *target);
        lemma_switches_counted(
            m.ops@,
            m.ops@.len() as int,
            translate::setting(m.ops@, *target),
        );
    }
    let mut names = multiname_table(&m.ops);
    if switches.len() == 0 && m.exceptions.len() == 0 {
        let null_safe = keep_slot_reads(&m.null_safe_getslots, &ops);
        let used: u32 = hoist_pass(&mut ops, &null_safe, m.num_locals, MAX_FRAME_SLOTS);
        if let Some(bound) = &m.bound {
            inline_pass(&mut ops, &mut names, m.key, bound, m.num_locals + used, target);
        }
    }
    if ops.len() >= MAX_METHOD_OPS {
        return None;
    }
    let strings = push_string_table(&m.ops);
    renumber_cache_sites(&mut ops);
    bake(&mut ops, &m.script_globals, &strings, m.return_type);
    Some(Source { ops, switches, exceptions: copy_ranges(&m.exceptions), names })
}

// From ops to a module.

/// The most bytes of a method's module. Engines refuse a function of more than some seven and
/// a half million bytes, and with it a generation that holds it.
pub const MAX_EMITTED_MODULE_BYTES: usize = 7_000_000;

/// A compiled method: its module, and every table that its ops refer to.
pub struct Compiled {
    pub bytes: Vec<u8>,
    pub manifest: Manifest,
    // What the module was made from; a generation makes its own from it.
    pub ops: Vec<JitOp>,
    pub switches: Vec<SwitchTable>,
    pub exceptions: Vec<ExcRange>,
    pub names: Vec<u64>,
    pub script_globals: Vec<u64>,
    pub push_strings: Vec<u64>,
    pub coerce_classes: Vec<u64>,
    pub natives: Vec<u64>,
    pub namespaces: Vec<u64>,
    /// The ops, if they can be run without an engine.
    pub direct_ops: Option<Vec<JitOp>>,
    pub num_locals: u32,
    pub param_count: usize,
    /// Every slot read has a receiver that is known not to be null.
    pub getslots_null_safe: bool,
}

/// The module of `src`; `None` if it cannot be lowered or is too long.
pub open spec fn module_of(src: Source, target: Target) -> Option<Seq<u8>> {
    match module::module_parts(src.ops@, src.switches@, src.exceptions@, target) {
        Some(parts) => if encode::module_bytes(parts).len() <= MAX_EMITTED_MODULE_BYTES {
            Some(encode::module_bytes(parts))
        } else {
            None
        },
        None => None,
    }
}

/// `table` where it is used, else nothing.
pub open spec fn if_used(used: bool, table: Seq<u64>) -> Seq<u64> {
    if used {
        table
    } else {
        Seq::empty()
    }
}

/// The tables hold what the ops refer to.
pub open spec fn has_tables(c: Compiled, m: Method) -> bool {
    let n = m.ops@.len() as int;
    let classes = translate::entries(m.ops@, n, |op: Op| translate::class_of(op));
    let natives = translate::entries(m.ops@, n, |op: Op| translate::native_of(op));
    let spaces = translate::entries(m.ops@, n, |op: Op| translate::namespace_of(op));
    let strings = translate::entries(m.ops@, n, |op: Op| translate::string_of(op));
    &&& c.script_globals@ == if_used(c.manifest.has_script_globals, m.script_globals@)
    &&& c.push_strings@ == if_used(c.manifest.has_push_strings, strings)
    &&& c.coerce_classes@ == if_used(c.manifest.has_coerce || c.manifest.has_vcall, classes)
    &&& c.natives@ == if_used(c.manifest.has_vcall, natives)
    &&& c.namespaces@ == if_used(c.manifest.has_vcall, spaces)
}

/// Every slot read of the boxed ops has a receiver that is known not to be null; raw ops read
/// no slots.
pub open spec fn reads_safely(m: Method, target: Target) -> bool {
    raw_int_ops(m) is Some || raw_double_ops(m) is Some || getslots_safe(
        boxed_ops(m.ops@, m.number_slots@, target),
        m.null_safe_getslots@,
    )
}

impl Compiled {
    /// What the module was made from.
    pub open spec fn source(self) -> Source {
        Source {
            ops: self.ops,
            switches: self.switches,
            exceptions: self.exceptions,
            names: self.names,
        }
    }

    /// The method `m`, compiled.
    pub open spec fn is_of(self, m: Method, target: Target) -> bool {
        &&& is_source(m, target, self.source())
        &&& module_of(self.source(), target) == Some(self.bytes@)
        &&& self.manifest == manifest::manifest_of(self.ops@)
        &&& has_tables(self, m)
        &&& match self.direct_ops {
            Some(ops) => direct::runs_directly(self.ops@) && ops@ == self.ops@,
            None => !direct::runs_directly(self.ops@),
        }
        &&& self.num_locals == m.num_locals
        &&& self.param_count == m.params@.len()
        &&& self.getslots_null_safe == reads_safely(m, target)
    }
}

/// `m` cannot be compiled: there is nothing to make its module from, or the module cannot be
/// made or is too long.
pub open spec fn declines(m: Method, target: Target) -> bool {
    ||| !has_source(m, target)
    ||| exists|src: Source| #[trigger]
        is_source(m, target, src) && module_of(src, target) is None
}

fn copy_words(list: &[u64]) -> (r: Vec<u64>)
    ensures
        r@ == list@,
{
    let mut r: Vec<u64> = Vec::new();
    let mut i: usize = 0;
    while i < list.len()
        invariant
            i <= list@.len(),
            r@ =~= list@.take(i as int),
        decreases list@.len() - i,
    {
        r.push(list[i]);
        i = i + 1;
    }
    assert(list@.take(i as int) =~= list@);
    r
}

fn copy_ops(list: &[JitOp]) -> (r: Vec<JitOp>)
    ensures
        r@ == list@,
{
    let mut r: Vec<JitOp> = Vec::new();
    let mut i: usize = 0;
    while i < list.len()
        invariant
            i <= list@.len(),
            r@ =~= list@.take(i as int),
        decreases list@.len() - i,
    {
        r.push(list[i]);
        i = i + 1;
    }
    assert(list@.take(i as int) =~= list@);
    r
}

fn safe_reads(m: &Method, target: &Target) -> (r: bool)
    requires
        well_formed(*m),
        has_source(*m, *target),
    ensures
        r == reads_safely(*m, *target),
{
    if raw_ops(m).is_some() {
        return true;
    }
    match translate_boxed_for(target, &m.ops, &m.number_slots) {
        Some((ops, _)) => {
            assert(ops@ =~= boxed_ops(m.ops@, m.number_slots@, *target));
            all_getslots_null_safe(&ops, &m.null_safe_getslots)
        },
        None => false,
    }
}

/// Compiles a method. `None` for anything unsupported, and for a module that is too long.
pub fn compile_method(m: &Method, target: &Target) -> (r: Option<Compiled>)
    requires
        well_formed(*m),
    ensures
        r matches Some(c) ==> c.is_of(*m, *target),
        r is None ==> declines(*m, *target),
{
    let src = match method_source(m, target) {
        Some(src) => src,
        None => {
            return None;
        },
    };
    let bytes = match compile_for(target, &src.ops, &src.switches, &src.exceptions) {
        Some(bytes) => bytes,
        None => {
            return None;
        },
    };
    if bytes.len() > MAX_EMITTED_MODULE_BYTES {
        return None;
    }
    let imports = manifest::manifest(&src.ops);
    let direct_ops = if eligible(&src.ops) {
        Some(copy_ops(&src.ops))
    } else {
        None
    };
    let getslots_null_safe = safe_reads(m, target);
    let c = Compiled {
        bytes,
        script_globals: if imports.has_script_globals {
            copy_words(&m.script_globals)
        } else {
            Vec::new()
        },
        push_strings: if imports.has_push_strings {
            push_string_table(&m.ops)
        } else {
            Vec::new()
        },
        coerce_classes: if imports.has_coerce || imports.has_vcall {
            coerce_class_table(&m.ops)
        } else {
            Vec::new()
        },
        natives: if imports.has_vcall {
            natives_table(&m.ops)
        } else {
            Vec::new()
        },
        namespaces: if imports.has_vcall {
            namespaces_table(&m.ops)
        } else {
            Vec::new()
        },
        manifest: imports,
        ops: src.ops,
        switches: src.switches,
        exceptions: src.exceptions,
        names: src.names,
        direct_ops,
        num_locals: m.num_locals,
        param_count: m.params.len(),
        getslots_null_safe,
    };
    assert(c.source() == src);
    Some(c)
}

} // verus!
