//! What the passes over boxed ops take for granted of them is what they mean.

use crate::analysis;
use crate::analysis::Marks;
use crate::backend;
use crate::backend::{Attempt, JitView, Ran};
use crate::faithful;
use crate::hoist;
use crate::lower::manifest;
use crate::lower::op;
use crate::lower::op::JitOp;
use crate::lower::wasm::Target;
use crate::method;
use crate::method::{Compiled, Method};
use crate::model::{State, Turn};
use crate::reference;
use crate::runner;
use crate::runner::{Entry, WebView};
use crate::sense;
use crate::sense::translated;
use crate::sense::{Sense, Served, Service, Tables, World};
use crate::translate;
use crate::translate::{ClassKind, Op};
use crate::typed;
use crate::typed::Reprs;
use crate::verify;
use vstd::prelude::*;

verus! {

// Operands and targets.

/// An op finds as many operands as its arity says, and leaves as many.
#[verifier::spinoff_prover]
#[verifier::rlimit(60)]
pub proof fn ops_take_and_leave_by_their_arity<H>(
    w: World<H>,
    ops: Seq<JitOp>,
    t: Tables,
    s: State<H>,
)
    ensures
        ({
            let (takes, leaves) = typed::arity(ops[s.pc]);
            match translated::boxed_turn(w, ops, t, s) {
                Turn::Next(n) => s.stack.len() >= takes && n.stack.len() == s.stack.len() - takes
                    + leaves,
                Turn::Returned(_, _) => s.stack.len() >= takes,
                Turn::Threw(_) => s.stack.len() >= takes,
                Turn::Stuck => true,
            }
        }),
{
}

/// One of the ops that a switch leads to.
pub open spec fn is_case(table: op::SwitchTable, to: int) -> bool {
    to == table.default || exists|k: int| 0 <= k < table.cases@.len() && #[trigger] table.cases@[k]
        == to
}

/// An op leads to the next one, to its target, or to a case of its switch; to the next one only if
/// it ends no block, or is a branch on a test. Returns, and they alone, return.
#[verifier::spinoff_prover]
#[verifier::rlimit(60)]
pub proof fn ops_lead_to_their_targets<H>(w: World<H>, ops: Seq<JitOp>, t: Tables, s: State<H>)
    ensures
        ({
            let o = ops[s.pc];
            match translated::boxed_turn(w, ops, t, s) {
                Turn::Next(n) => {
                    ||| !op::ends_block(o) && n.pc == s.pc + 1
                    ||| op::branch_target(o) matches Some(target) && (n.pc == target || (n.pc
                        == s.pc + 1 && !(o is Jump)))
                    ||| o matches JitOp::LookupSwitch(k) && is_case(t.switches[k as int], n.pc)
                },
                Turn::Returned(_, _) => op::is_return(o),
                Turn::Threw(_) => true,
                Turn::Stuck => true,
            }
        }),
{
}

/// A branch with another target leads there where it led to its target before, and is the same
/// else.
#[verifier::spinoff_prover]
#[verifier::rlimit(60)]
pub proof fn retargeted_branches_lead_to_the_new_target<H>(
    w: World<H>,
    o: JitOp,
    to: usize,
    t: Tables,
    s: State<H>,
)
    requires
        op::branch_target(o) matches Some(old) && old != s.pc + 1,
        sense::boxed_sense(o, t) is Some,
    ensures
        op::branch_target(op::with_target(o, to)) == Some(to),
        sense::boxed_sense(op::with_target(o, to), t) matches Some(sense) && sense::turn(
            w,
            sense,
            s,
        ) == match sense::turn(w, sense::boxed_sense(o, t)->0, s) {
            Turn::Next(n) => if n.pc == op::branch_target(o)->0 {
                Turn::Next(State { pc: to as int, ..n })
            } else {
                Turn::Next(n)
            },
            turned => turned,
        },
{
}

/// Retargeting leaves what is no branch as it is.
pub proof fn only_branches_are_retargeted(o: JitOp, to: usize)
    requires
        op::branch_target(o) is None,
    ensures
        op::with_target(o, to) == o,
{
}

// What is known of a method, put into its ops.

/// The words that are put in are those that the host would give.
pub open spec fn knows_words<H>(
    w: World<H>,
    t: Tables,
    globals: Seq<u64>,
    strings: Seq<u64>,
) -> bool {
    &&& forall|k: int, args: Seq<u64>, h: H|
        0 <= k < globals.len() ==> #[trigger] (w.serve)(
            Service::Globals(#[trigger] t.scripts[k]),
            args,
            h,
        ) == Served::Word(globals[k], h)
    &&& forall|k: int| 0 <= k < strings.len() ==> #[trigger] t.strings[k] == strings[k]
}

/// An op with what is known of it put in does what it did.
#[verifier::spinoff_prover]
#[verifier::rlimit(60)]
pub proof fn baked_ops_mean_what_they_meant<H>(
    w: World<H>,
    o: JitOp,
    t: Tables,
    globals: Seq<u64>,
    strings: Seq<u64>,
    return_type: u64,
    s: State<H>,
)
    requires
        knows_words(w, t, globals, strings),
        sense::boxed_sense(o, t) is Some,
    ensures
        sense::boxed_sense(method::baked(o, globals, strings, return_type), t) matches Some(sense)
            && sense::turn(w, sense, s) == sense::turn(w, sense::boxed_sense(o, t)->0, s),
{
    let n = s.stack.len() as int;
    assert(s.stack.take(n) =~= s.stack);
    if let JitOp::GetScriptGlobals(k) = o {
        if k < globals.len() {
            assert((w.serve)(
                Service::Globals(t.scripts[k as int]),
                s.stack.skip(n),
                s.host,
            ) == Served::Word(globals[k as int], s.host));
        }
    }
}

// Numbers.

/// Services that give a number, if what they work on are numbers.
pub open spec fn keeps_numbers(service: Service) -> bool {
    service is Add || service is Subtract || service is Multiply || service is Divide
        || service is Increment || service is Decrement
}

/// Services that give a number in any case.
pub open spec fn gives_number(service: Service) -> bool {
    service is ToInt || service is ToUint || service is LoadFloat
}

/// `number` tells numbers: ints are, and what the services give is.
pub open spec fn tells_numbers<H>(w: World<H>, number: spec_fn(u64) -> bool) -> bool {
    &&& forall|x: int| number(#[trigger] sense::int_word(x))
    &&& forall|service: Service, args: Seq<u64>, h: H|
        gives_number(service) || (keeps_numbers(service) && forall|k: int|
            0 <= k < args.len() ==> number(#[trigger] args[k])) ==> (#[trigger] (w.serve)(
            service,
            args,
            h,
        ) matches Served::Word(v, _) ==> number(v))
}

/// The locals and operands that are marked as numeric are numbers.
pub open spec fn fits<H>(s: State<H>, r: Reprs, number: spec_fn(u64) -> bool) -> bool {
    &&& s.locals.len() == r.locals.len()
    &&& s.stack.len() == r.stack.len()
    &&& forall|i: int|
        0 <= i < r.locals.len() && typed::numeric(#[trigger] r.locals[i]) ==> number(s.locals[i])
    &&& forall|k: int|
        0 <= k < r.stack.len() && typed::numeric(#[trigger] r.stack[k]) ==> number(s.stack[k])
}

/// The op is marked as one that reads a number.
pub open spec fn reads_number(o: JitOp) -> bool {
    o matches JitOp::GetSlot(_, true) || o matches JitOp::GetPropertyFast(_, true)
}

/// What the types say is numeric is a number after an op if it was before. A read that is marked
/// as one of a number has to give one. Arithmetic is one of numbers: helpers 11, 12, 13 and 18.
/// An enumeration sets locals that the types do not follow.
#[verifier::spinoff_prover]
#[verifier::rlimit(100)]
pub proof fn numeric_values_are_numbers<H>(
    w: World<H>,
    ops: Seq<JitOp>,
    t: Tables,
    number: spec_fn(u64) -> bool,
    s: State<H>,
    r: Reprs,
)
    requires
        tells_numbers(w, number),
        fits(s, r, number),
        is_on_numbers(ops[s.pc]),
        reads_number(ops[s.pc]) ==> (translated::boxed_turn(w, ops, t, s) matches Turn::Next(n)
            ==> number(n.stack.last())),
        !(ops[s.pc] is HasNext2),
    ensures
        translated::boxed_turn(w, ops, t, s) matches Turn::Next(n) ==> (typed::repr_step(
            ops[s.pc],
            r,
        ) matches Some(q) ==> fits(n, q, number)),
{
    let o = ops[s.pc];
    let d = s.stack.len() as int;
    if d >= 1 {
        assert(s.stack.skip(d - 1) =~= seq![s.stack[d - 1]]);
    }
    if d >= 2 {
        assert(s.stack.skip(d - 2) =~= seq![s.stack[d - 2], s.stack[d - 1]]);
    }
    if let Turn::Next(n) = translated::boxed_turn(w, ops, t, s) {
        if let Some(q) = typed::repr_step(o, r) {
            ops_take_and_leave_by_their_arity(w, ops, t, s);
            assert forall|k: int|
                0 <= k < q.stack.len() && typed::numeric(#[trigger] q.stack[k]) implies number(
                n.stack[k],
            ) by {
                let (takes, leaves) = typed::arity(o);
                if k < d - takes {
                    assert(q.stack[k] == r.stack[k]);
                    assert(n.stack[k] == s.stack[k]);
                }
            }
        }
    }
}

// Slots, locals and errors.

/// Services that set no slot and run no method.
pub open spec fn leaves_slots(service: Service) -> bool {
    match service {
        Service::GetSlot(_) => true,
        Service::Globals(_) => true,
        Service::LoadInt(_) => true,
        Service::LoadFloat(_) => true,
        Service::StoreInt(_) => true,
        Service::StoreFloat(_) => true,
        Service::ToInt => true,
        Service::ToUint => true,
        Service::Equal => true,
        Service::Less => true,
        Service::LessOrEqual => true,
        Service::Greater => true,
        Service::GreaterOrEqual => true,
        Service::BitAnd => true,
        Service::BitOr => true,
        Service::BitXor => true,
        Service::ShiftLeft => true,
        Service::ShiftRight => true,
        Service::ShiftRightUnsigned => true,
        Service::Add => true,
        Service::Subtract => true,
        Service::Multiply => true,
        Service::Divide => true,
        _ => false,
    }
}

/// The ops for comparisons, bits and arithmetic are those of the helpers that do these.
pub open spec fn is_on_numbers(o: JitOp) -> bool {
    &&& o matches JitOp::CmpNum(i) ==> i <= 4
    &&& o matches JitOp::BitOpInt(i) ==> 5 <= i <= 10
    &&& o matches JitOp::ArithInt(i) ==> i == 11 || i == 12 || i == 18
    &&& o matches JitOp::ArithNum(i) ==> i == 13
}

/// An op that is said to keep slots asks for nothing that sets one. Arithmetic and comparisons are
/// those of numbers.
#[verifier::rlimit(40)]
pub proof fn ops_that_keep_slots_set_none(o: JitOp, t: Tables)
    requires
        hoist::keeps_slots(o),
        is_on_numbers(o),
    ensures
        sense::boxed_sense(o, t) matches Some(sense) && match sense {
            Sense::Ask(service, _, _) => leaves_slots(service),
            Sense::Local(_, _) => false,
            Sense::Enumerate(_, _) => false,
            _ => true,
        },
{
}

/// An op that keeps slots changes no local but the one that it is said to write.
#[verifier::spinoff_prover]
#[verifier::rlimit(60)]
pub proof fn ops_write_the_local_that_they_say<H>(
    w: World<H>,
    ops: Seq<JitOp>,
    t: Tables,
    s: State<H>,
    i: u32,
)
    requires
        i < s.locals.len(),
        hoist::keeps_slots(ops[s.pc]),
        hoist::writes_local(ops[s.pc]) != Some(i),
    ensures
        translated::boxed_turn(w, ops, t, s) matches Turn::Next(n) ==> n.locals.len()
            == s.locals.len() && n.locals[i as int] == s.locals[i as int],
{
}

/// Services that run methods or fail on what they are given: reads and stores of properties and
/// slots, conversions to a class or a text, tests of a type, calls, and accesses to ints in domain memory.
pub open spec fn may_throw(service: Service) -> bool {
    match service {
        Service::GetProperty(_) => true,
        Service::GetPropertyBy(_) => true,
        Service::GetSlot(_) => true,
        Service::SetSlot(_) => true,
        Service::SetSlotAsIs(_) => true,
        Service::SetSlotAsInt(_) => true,
        Service::SetProperty(_) => true,
        Service::SetPropertyBy(_) => true,
        Service::DeleteProperty(_) => true,
        Service::GetSuper(_) => true,
        Service::SetSuper(_) => true,
        Service::ToClass(_) => true,
        Service::CoerceText => true,
        Service::ConvertText => true,
        Service::ToNumber => true,
        Service::AsType => true,
        Service::IsType => true,
        Service::In => true,
        Service::NextValue => true,
        Service::CallMethod(_) => true,
        Service::CallProperty(_) => true,
        Service::CallSuper(_) => true,
        Service::CallNative(_) => true,
        Service::Call => true,
        Service::Construct => true,
        Service::ConstructSlot(_) => true,
        Service::ConstructProperty(_) => true,
        Service::ConstructSuper => true,
        Service::ApplyType => true,
        Service::NewArray => true,
        Service::NewObject => true,
        Service::NewClass(_) => true,
        Service::StoreInt(_) => true,
        Service::LoadInt(_) => true,
        _ => false,
    }
}

/// An error is looked for behind every op that asks for a service that may throw. The inline
/// accesses to domain memory are checked by their own code, and a text is coerced by an op of its
/// own.
#[verifier::rlimit(40)]
pub proof fn errors_are_looked_for(o: JitOp, t: Tables)
    requires
        sense::boxed_sense(o, t) matches Some(Sense::Ask(service, _, _)) && may_throw(service),
        !(o is DmLoad || o is DmLoadF || o is DmStore || o is DmStoreF),
        o != JitOp::CallHelper(25),
        is_on_numbers(o),
    ensures
        manifest::can_throw(o),
{
}

// Parameters.

/// The registers at entry: `this`, and then the parameters, of which those declared as one of
/// `types` are what `known` says.
pub open spec fn takes_parameters(
    regs: Seq<u64>,
    params: Seq<Option<ClassKind>>,
    types: spec_fn(ClassKind) -> bool,
    known: spec_fn(u64) -> bool,
) -> bool {
    regs.len() > params.len() && forall|p: int|
        0 <= p < params.len() ==> (#[trigger] params[p] matches Some(kind) && types(kind) ==> known(
            regs[p + 1],
        ))
}

/// The locals that are marked at entry are what the declared types make them, and every parameter
/// that has the type is marked.
pub proof fn marked_locals_have_their_types(
    n: nat,
    params: Seq<Option<ClassKind>>,
    regs: Seq<u64>,
    known: spec_fn(u64) -> bool,
    l: int,
)
    requires
        0 <= l < n,
    ensures
        takes_parameters(regs, params, |k: ClassKind| k is Int, known) && method::int_seed(
            n,
            params,
        )[l] ==> known(regs[l]),
        takes_parameters(regs, params, |k: ClassKind| k is Number, known) && method::double_seed(
            n,
            params,
        )[l] ==> known(regs[l]),
        takes_parameters(
            regs,
            params,
            |k: ClassKind| k is Int || k is Uint || k is Number,
            known,
        ) && method::numeric_seed(n, params)[l] ==> known(regs[l]),
        1 <= l <= params.len() ==> {
            &&& params[l - 1] == Some(ClassKind::Int) ==> method::int_seed(n, params)[l]
            &&& params[l - 1] == Some(ClassKind::Number) ==> method::double_seed(n, params)[l]
            &&& params[l - 1] == Some(ClassKind::Uint) ==> method::numeric_seed(n, params)[l]
        },
{
    if 1 <= l <= params.len() {
        let p = l - 1;
        assert(params[p] == params[l - 1]);
    }
}

// The double model.

/// How many operands an op of the double model uses as doubles.
pub open spec fn double_operands(o: JitOp) -> nat {
    match o {
        JitOp::AddD => 2,
        JitOp::SubtractD => 2,
        JitOp::MultiplyD => 2,
        JitOp::DivideD => 2,
        JitOp::IncrementD => 1,
        JitOp::DecrementD => 1,
        JitOp::NegateD => 1,
        JitOp::ReturnDouble => 1,
        JitOp::SetLocalDouble(_) => 1,
        JitOp::StoreLocalDouble(_) => 1,
        _ => 0,
    }
}

/// An op that the analysis of doubles accepts uses nothing as a double that is not known to be
/// one. What is known behind it is a double: what it computes, what it reads from a local that is
/// one, and the local that it writes.
#[verifier::rlimit(40)]
pub proof fn accepted_doubles_are_doubles(o: JitOp, s: Marks)
    ensures
        analysis::double_step(o, s) matches Some(n) ==> {
            let (takes, leaves) = typed::arity(o);
            let d = s.stack.len() as int;
            &&& d >= takes
            &&& n.stack.len() == d - takes + leaves
            &&& forall|k: int| d - double_operands(o) <= k < d ==> #[trigger] s.stack[k]
            &&& forall|k: int| 0 <= k < d - takes ==> #[trigger] n.stack[k] == s.stack[k]
            &&& o matches JitOp::GetLocalDouble(i) ==> n.stack.last() == s.locals[i as int]
            &&& n.locals.len() == s.locals.len()
            &&& forall|i: int|
                0 <= i < s.locals.len() && #[trigger] n.locals[i] != s.locals[i] ==> {
                    ||| o matches JitOp::SetLocalDouble(l) && l == i
                    ||| o matches JitOp::StoreLocalDouble(l) && l == i
                }
        },
{
    if let Some(n) = analysis::double_step(o, s) {
        let d = s.stack.len() as int;
        assert forall|k: int| d - double_operands(o) <= k < d implies #[trigger] s.stack[k] by {}
    }
}

// Methods.

/// A method is compiled on raw ints only where they return what words return, from registers whose
/// parameters have their declared types; and then each of its ops is the op of the int model.
pub proof fn raw_ints_are_used_where_they_are_faithful(m: Method, regs: Seq<u64>, fuel: nat)
    requires
        method::raw_int_ops(m) is Some,
        takes_parameters(
            regs,
            m.params@,
            |k: ClassKind| k is Int,
            |word: u64| faithful::is_int(word),
        ),
        m.num_locals <= regs.len(),
    ensures
        method::raw_int_ops(m) matches Some(ops) && {
            &&& ops.len() == m.ops@.len()
            &&& forall|i: int|
                0 <= i < ops.len() ==> translate::int_op(m.ops@[i]) == Some(#[trigger] ops[i])
            &&& reference::result(ops, reference::start(regs), fuel) == faithful::word_result(
                ops,
                faithful::word_start(regs),
                fuel,
            )
        },
{
    let ops = method::raw_int_ops(m)->0;
    let n = m.num_locals as nat;
    let entry = method::int_seed(n, m.params@);
    let known = |word: u64| faithful::is_int(word);
    assert forall|i: int| 0 <= i < entry.len() && #[trigger] entry[i] implies faithful::is_int(
        regs[i],
    ) by {
        let p = i - 1;
        assert(m.params@[p] == Some(ClassKind::Int));
        assert(known(regs[p + 1]));
    }
    assert forall|i: int| 0 <= i < ops.len() implies translate::int_op(m.ops@[i]) == Some(
        #[trigger] ops[i],
    ) by {
        let f = |op: Op| translate::int_op(op);
        assert(f(m.ops@[i]) is Some);
    }
    assert(m.ops@.len() == m.ops.len());
    faithful::raw_ints_are_faithful(ops, entry, regs, fuel);
}

/// A method is compiled on raw doubles only where every prefix of it is accepted from the declared
/// types, and then each of its ops is the op of the double model.
pub proof fn raw_doubles_are_used_where_they_are_accepted(m: Method, k: int)
    requires
        method::raw_double_ops(m) is Some,
        0 <= k <= m.ops@.len(),
    ensures
        method::raw_double_ops(m) matches Some(ops) && {
            &&& ops.len() == m.ops@.len()
            &&& forall|i: int|
                0 <= i < ops.len() ==> translate::double_op(m.ops@[i]) == Some(#[trigger] ops[i])
            &&& analysis::double_run(
                ops.take(k),
                Marks {
                    locals: method::double_seed(m.num_locals as nat, m.params@),
                    stack: Seq::empty(),
                },
            ) is Some
        },
{
    let ops = method::raw_double_ops(m)->0;
    let s = Marks {
        locals: method::double_seed(m.num_locals as nat, m.params@),
        stack: Seq::empty(),
    };
    assert forall|i: int| 0 <= i < ops.len() implies translate::double_op(m.ops@[i]) == Some(
        #[trigger] ops[i],
    ) by {
        let f = |op: Op| translate::double_op(op);
        assert(f(m.ops@[i]) is Some);
    }
    lemma_accepted_prefix(ops, s, k);
}

proof fn lemma_accepted_prefix(ops: Seq<JitOp>, s: Marks, k: int)
    requires
        analysis::double_run(ops, s) is Some,
        0 <= k <= ops.len(),
    ensures
        analysis::double_run(ops.take(k), s) is Some,
    decreases ops.len(),
{
    if k == ops.len() {
        assert(ops.take(k) =~= ops);
    } else {
        assert(ops.drop_last().take(k) =~= ops.take(k));
        lemma_accepted_prefix(ops.drop_last(), s, k);
    }
}

/// A method is called directly only if the call sets every local that it has, and its registers fit
/// into a frame.
pub proof fn direct_calls_set_every_local(c: Compiled, allowed: bool, argc: u32, l: int)
    requires
        backend::takes_directly(c, allowed, argc),
        0 <= l < c.num_locals,
    ensures
        allowed,
        l == 0 || 1 <= l <= argc,
        argc == c.param_count,
        8 * l + 8 <= runner::STRIDE,
{
}

/// A compiled method has the tables that its ops refer to, where a helper reads them.
pub proof fn compiled_methods_have_their_tables(c: Compiled, m: Method, target: Target)
    requires
        c.is_of(m, target),
    ensures
        ({
            let t = sense::tables_of(m.ops@, c.switches@);
            &&& c.manifest.has_push_strings ==> c.push_strings@ == t.strings
            &&& c.manifest.has_coerce || c.manifest.has_vcall ==> c.coerce_classes@ == t.classes
            &&& c.manifest.has_vcall ==> c.natives@ == t.natives && c.namespaces@ == t.namespaces
            &&& c.manifest.has_script_globals ==> c.script_globals@ == m.script_globals@
        }),
{
}

proof fn lemma_filtered(list: Seq<u32>, keep: spec_fn(u32) -> bool, i: u32)
    ensures
        list.filter(keep).contains(i) <==> list.contains(i) && keep(i),
    decreases list.len(),
{
    reveal(Seq::filter);
    let kept = list.filter(keep);
    if list.len() > 0 {
        let front = list.drop_last();
        let last = list.last();
        lemma_filtered(front, keep, i);
        let rest = front.filter(keep);
        if rest.contains(i) {
            let k = rest.index_of(i);
            assert(kept[k] == i);
        }
        if keep(last) {
            assert(kept == rest.push(last));
            assert(kept[rest.len() as int] == last);
            if kept.contains(i) {
                let k = kept.index_of(i);
                if k < rest.len() {
                    assert(rest[k] == i);
                }
            }
        }
        if front.contains(i) {
            let k = front.index_of(i);
            assert(list[k] == i);
        }
        if list.contains(i) {
            let k = list.index_of(i);
            if k < front.len() {
                assert(front[k] == i);
            }
        }
        assert(list[list.len() - 1] == last);
    }
}

/// The slot reads of which the receiver is known are those of the given ones that are slot reads.
pub proof fn known_reads_are_slot_reads(null_safe: Seq<u32>, ops: Seq<JitOp>, i: u32)
    ensures
        method::slot_reads(null_safe, ops).contains(i) <==> null_safe.contains(i) && i < ops.len()
            && ops[i as int] is GetSlot,
{
    let keep = |i: u32| i < ops.len() && ops[i as int] is GetSlot;
    lemma_filtered(null_safe, keep, i);
    assert(method::slot_reads(null_safe, ops) == null_safe.filter(keep));
}

// Calls of compiled methods.

/// A call gives the word that the engine returned, unless an error is pending, which it throws;
/// what the engine could not run is left to the interpreter and leaves no trace. Every other call
/// counts as one, and only what a call gave is remembered as a result.
pub proof fn calls_give_what_the_engine_returned(
    v: JitView,
    result: Option<u64>,
    threw: bool,
    word: u64,
)
    ensures
        ({
            let ran = backend::outcome(result, threw);
            let after = backend::after_run(v, ran);
            &&& ran == Ran::Value(word) <==> result == Some(word) && !threw
            &&& ran is Throw <==> result is Some && threw
            &&& result is None ==> after == v
            &&& result is Some ==> after.hits == v.hits + 1
            &&& after.results.contains(word) <==> v.results.contains(word) || ran == Ran::Value(
                word,
            )
            &&& ran == Ran::Value(word) ==> after.last_result == word
            &&& !(ran is Value) ==> after.last_result == v.last_result
            &&& after.cache == v.cache && after.methods == v.methods && after.seen == v.seen
        }),
{
}

/// A method is entered in the frame of its depth, if that has room for its registers: as the member
/// that it is of its generation, else by its own instance, which is built if there is none.
pub proof fn methods_are_entered_in_their_frame(v: WebView, key: u64, n: nat)
    ensures
        match runner::entry(v, key, n) {
            Entry::Decline => !runner::frame_fits(v.depth, n),
            Entry::Member { generation, member, slot, state_ptr } => {
                &&& runner::frame_fits(v.depth, n)
                &&& v.members.dom().contains(key) && v.members[key] == (generation, member)
                &&& slot == v.generations[generation as int]
                &&& state_ptr == (v.depth * runner::STRIDE) as u32
            },
            Entry::Own { slot, state_ptr } => {
                &&& runner::frame_fits(v.depth, n)
                &&& !v.members.dom().contains(key)
                &&& v.instances.dom().contains(key) && v.instances[key] == slot
                &&& state_ptr == (v.depth * runner::STRIDE) as u32
            },
            Entry::Build => {
                &&& runner::frame_fits(v.depth, n)
                &&& !v.members.dom().contains(key) && !v.instances.dom().contains(key)
            },
        },
{
}

/// A call of a method is run with the compiled method that was found, directly just if it has ops
/// for that, and checked just if checks are on and the method was not checked too often.
pub proof fn calls_run_what_was_found(v: JitView, m: Method, found: Option<usize>)
    ensures
        match backend::attempt(v, m, found) {
            Attempt::Decline => found is None,
            Attempt::Run { method, direct, verify } => {
                &&& found == Some(method)
                &&& direct <==> v.methods[method as int].direct_ops is Some
                &&& verify <==> v.verify && (!v.seen.dom().contains(m.key) || v.seen[m.key]
                    < verify::VERIFY_LIMIT)
            },
        },
{
}

// Bytecode.

/// An op counts as a call just if it asks for a call of a method, a property or a value, or for
/// the constructor of the superclass.
#[verifier::rlimit(40)]
pub proof fn calls_are_told_by_their_service(op: Op)
    ensures
        verify::makes_call(op) <==> (sense::op_sense(op) matches Some(Sense::Ask(service, _, _))
            && (service is CallMethod || service is CallProperty || service is Call
            || service is ConstructSuper)),
{
}

/// An op is said to write a slot just if it asks for a store into that slot.
#[verifier::rlimit(40)]
pub proof fn written_slots_are_those_that_are_stored_into(op: Op, slot: u32)
    ensures
        translate::written_slot(op) == Some(slot) <==> (sense::op_sense(op) matches Some(
            Sense::Ask(service, _, _),
        ) && (service == Service::SetSlot(slot) || service == Service::SetSlotAsIs(slot) || service
            == Service::SetSlotAsInt(slot))),
{
}

/// Scopes are read, or kept by a class or a function, just if some op asks for that.
#[verifier::rlimit(40)]
pub proof fn scopes_are_used_by_those_who_ask(ops: Seq<Op>)
    ensures
        translate::reads_scopes(ops) <==> exists|i: int|
            0 <= i < ops.len() && (sense::op_sense(#[trigger] ops[i]) matches Some(
                Sense::Ask(service, _, _),
            ) && service is Scope),
        translate::keeps_scopes(ops) <==> exists|i: int|
            0 <= i < ops.len() && (sense::op_sense(#[trigger] ops[i]) matches Some(
                Sense::Ask(service, _, _),
            ) && (service is NewClass || service is NewFunction)),
{
}

/// The op counts or enumerates in local 0.
pub open spec fn counts_in_this(op: Op) -> bool {
    match op {
        Op::IncLocal { index } => index == 0,
        Op::DecLocal { index } => index == 0,
        Op::IncLocalI { index } => index == 0,
        Op::DecLocalI { index } => index == 0,
        Op::HasNext2 { object_register, index_register } => object_register == 0
            || index_register == 0,
        _ => false,
    }
}

/// An op that leaves the scope settled pops no scope, reads the first one only, and leaves `this`
/// in local 0, unless it counts there.
#[verifier::spinoff_prover]
#[verifier::rlimit(60)]
pub proof fn settled_ops_leave_this<H>(w: World<H>, op: Op, s: State<H>)
    requires
        !translate::unsettles_scope(op),
        !counts_in_this(op),
        s.locals.len() > 0,
    ensures
        sense::op_sense(op) matches Some(sense) ==> {
            &&& sense matches Sense::Ask(service, _, _) ==> !(service is PopScope) && (
            service matches Service::Scope(k) ==> k == 0)
            &&& sense::turn(w, sense, s) matches Turn::Next(n) ==> n.locals.len() > 0
                && n.locals[0] == s.locals[0]
        },
{
}

} // verus!
