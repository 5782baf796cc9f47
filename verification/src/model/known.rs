//! A call whose callee is known from the class is replaced by the code of that callee.
//!
//! The class's table says which method a dispatch id names. On every host that calls by that table,
//! a method ends as it did before one of its calls was replaced.

use crate::inline::ResultMode;
use crate::lower::op;
use crate::lower::op::JitOp;
use crate::lower::wasm::Target;
use crate::method;
use crate::method::{Bound, Callee, Site};
use crate::model;
use crate::model::inlined;
use crate::model::inlined::Inlining;
use crate::model::{Effect, Host, State, Turn};
use crate::translate;
use crate::translate::Op;
use vstd::prelude::*;

verus! {

/// The entry of the names that the op refers to.
pub open spec fn name_index(o: JitOp) -> Option<u32> {
    match o {
        JitOp::GetProperty(k) => Some(k),
        JitOp::GetPropertyIc(k, _) => Some(k),
        JitOp::GetPropertyFast(k, _) => Some(k),
        JitOp::FindProp(k, _) => Some(k),
        JitOp::CallProperty(k, _, _) => Some(k),
        JitOp::VCall(kind, k, _, _) => if kind == 2 || kind == 3 || kind == 8 || kind == 9 || kind
            == 10 || kind == 13 || kind == 14 {
            Some(k)
        } else {
            None
        },
        _ => None,
    }
}

/// The op by another entry.
pub open spec fn with_name(o: JitOp, k: u32) -> JitOp {
    match o {
        JitOp::GetProperty(_) => JitOp::GetProperty(k),
        JitOp::GetPropertyIc(_, site) => JitOp::GetPropertyIc(k, site),
        JitOp::GetPropertyFast(_, number) => JitOp::GetPropertyFast(k, number),
        JitOp::FindProp(_, strict) => JitOp::FindProp(k, strict),
        JitOp::CallProperty(_, argc, push) => JitOp::CallProperty(k, argc, push),
        JitOp::VCall(kind, _, spill, push) => JitOp::VCall(kind, k, spill, push),
        _ => o,
    }
}

/// The same op, by the same name: it may stand at different entries of two tables.
pub open spec fn is_same_op(o: JitOp, names: Seq<u64>, o2: JitOp, names2: Seq<u64>) -> bool {
    match (name_index(o), name_index(o2)) {
        (Some(k), Some(k2)) => {
            &&& k < names.len()
            &&& k2 < names2.len()
            &&& names[k as int] == names2[k2 as int]
            &&& o2 == with_name(o, k2)
        },
        (None, None) => o == o2,
        _ => false,
    }
}

/// Both ops do the same.
pub open spec fn does_same<H>(
    host: Host<H>,
    o: JitOp,
    host2: Host<H>,
    o2: JitOp,
    args: Seq<u64>,
    values: Seq<u64>,
    h: H,
) -> bool {
    &&& (host.act)(o, args, values, h) == (host2.act)(o2, args, values, h)
    &&& (host.takes)(o, args, h) == (host2.takes)(o2, args, h)
}

/// A host for each table of names: what an op does depends on its name, not on where the name
/// stands.
pub open spec fn goes_by_names<H>(hosts: spec_fn(Seq<u64>) -> Host<H>) -> bool {
    forall|
        o: JitOp,
        names: Seq<u64>,
        o2: JitOp,
        names2: Seq<u64>,
        args: Seq<u64>,
        values: Seq<u64>,
        h: H,
    |
        #![trigger does_same(hosts(names), o, hosts(names2), o2, args, values, h)]
        is_same_op(o, names, o2, names2) ==> does_same(
            hosts(names),
            o,
            hosts(names2),
            o2,
            args,
            values,
            h,
        )
}

/// Every name that the ops refer to is in the table.
pub open spec fn finds_names(ops: Seq<JitOp>, names: Seq<u64>) -> bool {
    forall|i: int|
        0 <= i < ops.len() ==> (name_index(#[trigger] ops[i]) matches Some(k) ==> k < names.len())
}

/// The names that a callee refers to.
pub open spec fn own_names(callee: Callee) -> Seq<u64> {
    let ops = (callee.body->0).ops@;
    translate::entries(ops, ops.len() as int, |op: Op| translate::name_id(op))
}

/// The code of a callee.
pub open spec fn code_of(callee: Callee, target: Target) -> Seq<JitOp> {
    let body = callee.body->0;
    method::boxed_ops(body.ops@, body.number_slots@, target)
}

/// Some call, as it is replaced by the code of `callee`.
pub open spec fn some_call(callee: Callee, target: Target, result: ResultMode) -> Inlining {
    Inlining {
        caller: Seq::empty(),
        at: 0,
        callee: code_of(callee, target),
        base: 0,
        names: 0,
        argc: 0,
        result,
        size: 0,
    }
}

/// The call `o` runs the code of `callee` in a frame of `size` locals: on the receiver and the
/// arguments, with the callee's own names, whatever its other locals hold. The caller gets the
/// result, or nothing.
pub open spec fn call_runs<H>(
    hosts: spec_fn(Seq<u64>) -> Host<H>,
    names: Seq<u64>,
    o: JitOp,
    argc: u32,
    result: ResultMode,
    callee: Callee,
    target: Target,
    size: nat,
) -> bool {
    forall|args: Seq<u64>, rest: Seq<u64>, h: H|
        args.len() == argc + 1 && rest.len() == size - argc - 1 ==> #[trigger] some_call(
            callee,
            target,
            result,
        ).does_call(
            hosts(own_names(callee)),
            (hosts(names).act)(o, args, Seq::empty(), h),
            args,
            rest,
            h,
        )
}

/// A call of the method with dispatch id `id` runs entry `id` of the class's table.
pub open spec fn method_runs<H>(
    hosts: spec_fn(Seq<u64>) -> Host<H>,
    bound: Bound,
    target: Target,
    size: nat,
    names: Seq<u64>,
    id: u32,
    argc: u32,
    push: bool,
) -> bool {
    id < bound.methods@.len() && (bound.methods@[id as int] matches Some(callee)
        && callee.body is Some) ==> call_runs(
        hosts,
        names,
        JitOp::CallMethod(id, argc, push),
        argc,
        if push {
            ResultMode::Push
        } else {
            ResultMode::Discard
        },
        bound.methods@[id as int]->0,
        target,
        size,
    )
}

/// A call of the superclass's constructor runs the one that the class names.
pub open spec fn super_runs<H>(
    hosts: spec_fn(Seq<u64>) -> Host<H>,
    bound: Bound,
    target: Target,
    size: nat,
    names: Seq<u64>,
    argc: u32,
) -> bool {
    (bound.super_init matches Some(callee) && callee.body is Some) ==> call_runs(
        hosts,
        names,
        JitOp::ConstructSuper(argc),
        argc,
        ResultMode::Discard,
        bound.super_init->0,
        target,
        size,
    )
}

/// The host calls by the class.
pub open spec fn calls_by_class<H>(
    hosts: spec_fn(Seq<u64>) -> Host<H>,
    bound: Bound,
    target: Target,
    size: nat,
) -> bool {
    &&& forall|names: Seq<u64>, id: u32, argc: u32, push: bool| #[trigger]
        method_runs(hosts, bound, target, size, names, id, argc, push)
    &&& forall|names: Seq<u64>, argc: u32| #[trigger]
        super_runs(hosts, bound, target, size, names, argc)
}

proof fn lemma_bare_names(o: JitOp)
    ensures
        name_index(model::bare(o)) == name_index(o),
{
}

/// A table with more names behind its own does for the same ops.
proof fn lemma_more_names<H>(
    hosts: spec_fn(Seq<u64>) -> Host<H>,
    ops: Seq<JitOp>,
    names: Seq<u64>,
    more: Seq<u64>,
    s: State<H>,
    fuel: nat,
)
    requires
        goes_by_names(hosts),
        finds_names(ops, names),
    ensures
        model::end_of(hosts(names + more), ops, s, fuel) == model::end_of(
            hosts(names),
            ops,
            s,
            fuel,
        ),
    decreases fuel,
{
    if 0 <= s.pc < ops.len() {
        let o = ops[s.pc];
        let b = model::bare(o);
        lemma_bare_names(o);
        assert(is_same_op(b, names, b, names + more));
        let n = crate::typed::arity(o).0;
        assert(does_same(
            hosts(names),
            b,
            hosts(names + more),
            b,
            s.top(n),
            model::own_locals(o, s.locals),
            s.host,
        ));
    }
    assert(model::turn(hosts(names + more), ops, s) == model::turn(hosts(names), ops, s));
    if fuel > 0 {
        if let Turn::Next(t) = model::turn(hosts(names), ops, s) {
            lemma_more_names(hosts, ops, names, more, t, (fuel - 1) as nat);
        }
    }
}

/// The names that the boxed ops of a method refer to are in its table.
proof fn lemma_own_names(callee: Callee, target: Target, j: int)
    requires
        callee.body is Some,
        translate::countable((callee.body->0).ops@),
        translate::all_boxed(
            (callee.body->0).ops@,
            (callee.body->0).number_slots@,
            target,
        ),
        0 <= j < code_of(callee, target).len(),
    ensures
        crate::inline::multiname_of(code_of(callee, target)[j]) matches Some(k) ==> k < own_names(
            callee,
        ).len(),
{
    let body = callee.body->0;
    let ops = body.ops@;
    let s = translate::setting(ops, target);
    translate::tables_line_up(ops, s, j);
    translate::lemma_counts_bounded(ops, j, s);
    assert(translate::boxed_at(ops, body.number_slots@, target, j) is Some);
    let o = code_of(callee, target)[j];
    assert(translate::boxed_at(ops, body.number_slots@, target, j) == Some(o));
    if crate::inline::multiname_of(o) is Some {
        assert(translate::name_of(ops[j]) is Some);
    }
}

/// What the name of a moved op is.
proof fn lemma_moved_name(o: JitOp, base: int, names: int, start: int)
    requires
        crate::inline::may_inline(o),
        crate::inline::can_move(o, base, names, start),
        0 <= names,
    ensures
        ({
            let moved = model::bare(crate::inline::remapped(o, base, names, start));
            match crate::inline::multiname_of(o) {
                Some(k) => name_index(moved) == Some((k + names) as u32) && moved == with_name(
                    model::bare(o),
                    (k + names) as u32,
                ) && name_index(model::bare(o)) == Some(k),
                None => moved == model::bare(o) && name_index(moved) is None,
            }
        }),
{
}

/// Where the code of the callee that the class's table names has taken the place of a call, the
/// method ends as it did before, on every host that calls by that table. The callee's frame has
/// `size` locals, which stand behind those of the method.
pub proof fn replacing_a_known_call_keeps_the_method<H>(
    hosts: spec_fn(Seq<u64>) -> Host<H>,
    ops: Seq<JitOp>,
    at: int,
    names: Seq<u64>,
    site: Site,
    size: nat,
    s: State<H>,
    locals: Seq<u64>,
    fuel: nat,
) -> (more: nat)
    requires
        0 <= at < ops.len(),
        method::inlined_at(ops, at, names.len() as int, site) is Some,
        goes_by_names(hosts),
        calls_by_class(hosts, site.bound, site.target, size),
        finds_names(ops, names),
        (method::inlined_at(ops, at, names.len() as int, site)->0).argc < size,
        site.base + size <= u32::MAX,
        s.pc == 0,
        s.locals.len() <= site.base,
        site.base + size <= locals.len(),
        model::extends(locals, s.locals),
        model::end_of(hosts(names), ops, s, fuel) is Some,
    ensures
        ({
            let put = method::inlined_at(ops, at, names.len() as int, site)->0;
            model::end_of(
                hosts(names + put.names),
                method::replaced(ops, at, names.len() as int, site.base, put),
                State { locals, ..s },
                more,
            ) == model::end_of(hosts(names), ops, s, fuel)
        }),
{
    let put = method::inlined_at(ops, at, names.len() as int, site)->0;
    let (callee, argc, result) = method::callee_at(ops, at, site.bound)->0;
    let all = names + put.names;
    let host = hosts(all);
    let inner = hosts(put.names);
    let p = Inlining {
        caller: ops,
        at,
        callee: put.callee,
        base: site.base as int,
        names: names.len() as int,
        argc: put.argc as nat,
        result: put.result,
        size,
    };
    assert(put.names == own_names(callee));
    assert(put.callee == code_of(callee, site.target));
    assert(p.is_valid());
    assert forall|j: int, args: Seq<u64>, values: Seq<u64>, h: H|
        #![trigger p.same_op(host, inner, j, args, values, h)]
        0 <= j < p.len() implies p.same_op(host, inner, j, args, values, h) by {
        let o = p.callee[j];
        lemma_own_names(callee, site.target, j);
        assert(crate::inline::fits_body(p.callee, p.len() as nat, j));
        assert(crate::inline::can_move(o, p.base, p.names, p.start()));
        lemma_moved_name(o, p.base, p.names, p.start());
        let moved = model::bare(p.moved(j));
        assert(is_same_op(model::bare(o), put.names, moved, all));
        assert(does_same(inner, model::bare(o), host, moved, args, values, h));
    }
    assert(p.lines_up(host, inner));
    let call = model::bare(ops[at]);
    let q = some_call(callee, site.target, result);
    assert(call == ops[at]);
    assert(call_runs(hosts, all, call, argc, result, callee, site.target, size)) by {
        match ops[at] {
            JitOp::CallMethod(id, n, push) => {
                assert(site.bound.methods@[id as int] == Some(callee));
                assert(method_runs(hosts, site.bound, site.target, size, all, id, n, push));
            },
            JitOp::ConstructSuper(n) => {
                assert(site.bound.super_init == Some(callee));
                assert(super_runs(hosts, site.bound, site.target, size, all, n));
            },
            _ => {},
        }
    }
    assert forall|args: Seq<u64>, rest: Seq<u64>, h: H|
        args.len() == p.argc + 1 && rest.len() == p.size - p.argc - 1 implies #[trigger] p.does_call(
        inner,
        (host.act)(call, args, Seq::empty(), h),
        args,
        rest,
        h,
    ) by {
        let effect = (host.act)(call, args, Seq::empty(), h);
        let from = p.entered(args, rest, h);
        assert(q.does_call(inner, effect, args, rest, h));
        assert(q.entered(args, rest, h) == from);
        match effect {
            Effect::Done(results, _, h2) => {
                let n = choose|n: nat| #[trigger] q.returns_after(inner, from, n, results, h2);
                assert(p.returns_after(inner, from, n, results, h2));
            },
            Effect::Threw(h2) => {
                let n = choose|n: nat| #[trigger] q.throws_after(inner, from, n, h2);
                assert(p.throws_after(inner, from, n, h2));
            },
            _ => {},
        }
    }
    assert(p.calls(host, inner));
    lemma_more_names(hosts, ops, names, put.names, s, fuel);
    assert(p.outcome() == method::replaced(ops, at, names.len() as int, site.base, put));
    inlined::inlining_keeps_the_method(p, host, inner, s, locals, fuel)
}

} // verus!
