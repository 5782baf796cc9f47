//! Inlining of small callees.
//!
//! A call from one compiled method to another leaves the module and enters it again. Where the
//! callee is known and small, its ops take the place of the call. It has to be:
//!
//! - small, with its one return as its last op, and no branch to that return;
//! - free of calls and of ops on the scope chain, which is the caller's;
//! - free of ops that index a table built from the caller's code. Reads of properties by
//!   multiname are the exception: the caller's multinames are followed by the callee's, and the
//!   callee's indices are moved behind the caller's.
//!
//! The callee's locals are moved behind the caller's, the receiver and the arguments are popped
//! into them, and branch targets behind the call move on by the ops that were put in.

use crate::lower::op;
use crate::lower::op::JitOp;
use vstd::prelude::*;

verus! {

/// The most ops of a callee that is inlined.
pub const MAX_INLINE_OPS: usize = 24;

/// What the caller does with the callee's result.
#[derive(Debug, Clone, Copy, PartialEq, Eq, Structural)]
pub enum ResultMode {
    /// It expects the result on the operand stack.
    Push,
    /// It expects nothing.
    Discard,
}

/// The op may stand in an inlined body.
pub open spec fn may_inline(o: JitOp) -> bool {
    match o {
        JitOp::ReturnValue => false,
        JitOp::ReturnValueBoxed => false,
        JitOp::ReturnValueCoerced => false,
        JitOp::ReturnValueCoerceBaked(_) => false,
        JitOp::ReturnVoidBoxed(_) => false,
        JitOp::ReturnDouble => false,
        JitOp::PushScopeReal => false,
        JitOp::PopScopeReal => false,
        JitOp::GetScopeObject(_) => false,
        JitOp::GetOuterScope(_) => false,
        JitOp::FindProp(_, _) => false,
        JitOp::GetScriptGlobals(_) => false,
        JitOp::PushString(_) => false,
        JitOp::NewCatch(_) => false,
        JitOp::Coerce(_) => false,
        JitOp::CallMethod(_, _, _) => false,
        JitOp::CallMethodDirect(_, _, _, _) => false,
        JitOp::CallProperty(_, _, _) => false,
        JitOp::ConstructSuper(_) => false,
        JitOp::CallValue(_) => false,
        JitOp::VCall(_, _, _, _) => false,
        JitOp::LookupSwitch(_) => false,
        _ => true,
    }
}

/// Op `i` of a callee may stand in an inlined body of `n` ops.
pub open spec fn fits_body(callee: Seq<JitOp>, n: nat, i: int) -> bool {
    may_inline(callee[i]) && (op::branch_target(callee[i]) matches Some(t) ==> t < n)
}

/// How many ops of the callee are put in place of a call, and whether they leave a value.
pub open spec fn inlinable(callee: Seq<JitOp>) -> Option<(nat, bool)> {
    if callee.len() == 0 || callee.len() > MAX_INLINE_OPS {
        None
    } else {
        let n = (callee.len() - 1) as nat;
        if !(callee.last() is ReturnValueBoxed || callee.last() is ReturnVoidBoxed) {
            None
        } else if forall|i: int| 0 <= i < n ==> #[trigger] fits_body(callee, n, i) {
            Some((n, callee.last() is ReturnValueBoxed))
        } else {
            None
        }
    }
}

fn body_op_ok(o: JitOp) -> (r: bool)
    ensures
        r == may_inline(o),
{
    !matches!(
        o,
        JitOp::ReturnValue | JitOp::ReturnValueBoxed | JitOp::ReturnValueCoerced
            | JitOp::ReturnValueCoerceBaked(_) | JitOp::ReturnVoidBoxed(_) | JitOp::ReturnDouble
            | JitOp::PushScopeReal | JitOp::PopScopeReal | JitOp::GetScopeObject(_)
            | JitOp::GetOuterScope(_) | JitOp::FindProp(_, _) | JitOp::GetScriptGlobals(_)
            | JitOp::PushString(_) | JitOp::NewCatch(_) | JitOp::Coerce(_)
            | JitOp::CallMethod(_, _, _) | JitOp::CallMethodDirect(_, _, _, _)
            | JitOp::CallProperty(_, _, _) | JitOp::ConstructSuper(_) | JitOp::CallValue(_)
            | JitOp::VCall(_, _, _, _) | JitOp::LookupSwitch(_)
    )
}

/// Whether `callee` may be inlined: the number of ops before its return, and whether the
/// return carries a value.
pub fn callee_inlinable(callee: &[JitOp]) -> (r: Option<(usize, bool)>)
    ensures
        match inlinable(callee@) {
            Some((n, value)) => r == Some((n as usize, value)) && n == callee@.len() - 1,
            None => r is None,
        },
{
    if callee.len() == 0 || callee.len() > MAX_INLINE_OPS {
        return None;
    }
    let n: usize = callee.len() - 1;
    let value = match callee[n] {
        JitOp::ReturnValueBoxed => true,
        JitOp::ReturnVoidBoxed(_) => false,
        _ => {
            return None;
        },
    };
    let mut i: usize = 0;
    while i < n
        invariant
            i <= n,
            n == callee@.len() - 1,
            forall|k: int| 0 <= k < i ==> #[trigger] fits_body(callee@, n as nat, k),
        decreases n - i,
    {
        let inside = match callee[i].target() {
            Some(t) => t < n,
            None => true,
        };
        if !body_op_ok(callee[i]) || !inside {
            assert(!fits_body(callee@, n as nat, i as int));
            return None;
        }
        i = i + 1;
    }
    Some((n, value))
}

/// The op pushes one fresh value and takes none.
pub open spec fn fresh_push(o: JitOp) -> bool {
    o is GetLocalValue || o is PushConst || o is PushIntValue || o is GetScopeObject
        || o is GetScriptGlobals
}

/// The receiver of the call at `at` is local 0, pushed right before `argc` single pushes.
pub open spec fn this_receives(caller: Seq<JitOp>, at: int, argc: nat) -> bool {
    &&& at >= argc + 1
    &&& caller[at - argc - 1] == JitOp::GetLocalValue(0)
    &&& forall|j: int| at - argc <= j < at ==> fresh_push(#[trigger] caller[j])
}

/// Whether the receiver of the call at `call_idx` with `argc` arguments is provably `this`.
pub fn receiver_is_this(caller: &[JitOp], call_idx: usize, argc: u32) -> (r: bool)
    requires
        call_idx < caller@.len(),
    ensures
        r == this_receives(caller@, call_idx as int, argc as nat),
{
    if call_idx <= argc as usize {
        return false;
    }
    let at: usize = call_idx - argc as usize - 1;
    if !matches!(caller[at], JitOp::GetLocalValue(0)) {
        return false;
    }
    let mut j: usize = at + 1;
    while j < call_idx
        invariant
            at < j <= call_idx < caller@.len(),
            at == call_idx - argc - 1,
            forall|k: int| at < k < j ==> fresh_push(#[trigger] caller@[k]),
        decreases call_idx - j,
    {
        if !matches!(
            caller[j],
            JitOp::GetLocalValue(_) | JitOp::PushConst(_) | JitOp::PushIntValue(_)
                | JitOp::GetScopeObject(_) | JitOp::GetScriptGlobals(_)
        ) {
            return false;
        }
        j = j + 1;
    }
    true
}

/// The locals that the op names.
pub open spec fn locals_of(o: JitOp) -> Seq<u32> {
    match o {
        JitOp::GetLocalValue(i) => seq![i],
        JitOp::SetLocalValue(i) => seq![i],
        JitOp::StoreLocalValue(i) => seq![i],
        JitOp::GetLocal(i) => seq![i],
        JitOp::SetLocal(i) => seq![i],
        JitOp::IncLocalI(i) => seq![i],
        JitOp::DecLocalI(i) => seq![i],
        JitOp::GetLocalDouble(i) => seq![i],
        JitOp::SetLocalDouble(i) => seq![i],
        JitOp::StoreLocalDouble(i) => seq![i],
        JitOp::IncDecLocalIValue(i, _) => seq![i],
        JitOp::IncDecLocalNum(i, _) => seq![i],
        JitOp::HasNext2(i, j) => seq![i, j],
        _ => Seq::empty(),
    }
}

/// The multiname that the op reads a property by.
pub open spec fn multiname_of(o: JitOp) -> Option<u32> {
    match o {
        JitOp::GetProperty(k) => Some(k),
        JitOp::GetPropertyIc(k, _) => Some(k),
        JitOp::GetPropertyFast(k, _) => Some(k),
        _ => None,
    }
}

/// The indices of the op can be moved by these distances.
pub open spec fn can_move(o: JitOp, locals: int, names: int, targets: int) -> bool {
    &&& forall|k: int| 0 <= k < locals_of(o).len() ==> #[trigger] locals_of(o)[k] + locals <= u32::MAX
    &&& multiname_of(o) matches Some(k) ==> k + names <= u32::MAX
    &&& op::branch_target(o) matches Some(t) ==> t + targets <= usize::MAX
}

/// The op with its locals, its multiname and its branch target moved.
pub open spec fn remapped(o: JitOp, locals: int, names: int, targets: int) -> JitOp {
    match o {
        JitOp::GetLocalValue(i) => JitOp::GetLocalValue((i + locals) as u32),
        JitOp::SetLocalValue(i) => JitOp::SetLocalValue((i + locals) as u32),
        JitOp::StoreLocalValue(i) => JitOp::StoreLocalValue((i + locals) as u32),
        JitOp::GetLocal(i) => JitOp::GetLocal((i + locals) as u32),
        JitOp::SetLocal(i) => JitOp::SetLocal((i + locals) as u32),
        JitOp::IncLocalI(i) => JitOp::IncLocalI((i + locals) as u32),
        JitOp::DecLocalI(i) => JitOp::DecLocalI((i + locals) as u32),
        JitOp::GetLocalDouble(i) => JitOp::GetLocalDouble((i + locals) as u32),
        JitOp::SetLocalDouble(i) => JitOp::SetLocalDouble((i + locals) as u32),
        JitOp::StoreLocalDouble(i) => JitOp::StoreLocalDouble((i + locals) as u32),
        JitOp::IncDecLocalIValue(i, up) => JitOp::IncDecLocalIValue((i + locals) as u32, up),
        JitOp::IncDecLocalNum(i, up) => JitOp::IncDecLocalNum((i + locals) as u32, up),
        JitOp::HasNext2(i, j) => JitOp::HasNext2((i + locals) as u32, (j + locals) as u32),
        JitOp::GetProperty(k) => JitOp::GetProperty((k + names) as u32),
        JitOp::GetPropertyIc(k, site) => JitOp::GetPropertyIc((k + names) as u32, site),
        JitOp::GetPropertyFast(k, num) => JitOp::GetPropertyFast((k + names) as u32, num),
        _ => match op::branch_target(o) {
            Some(t) => op::with_target(o, (t + targets) as usize),
            None => o,
        },
    }
}

/// `o` with its locals moved by `local_base`, its multiname by `mn_base` and its branch target
/// by `target_base`.
fn remap_op(o: JitOp, local_base: u32, mn_base: u32, target_base: usize) -> (r: JitOp)
    requires
        can_move(o, local_base as int, mn_base as int, target_base as int),
    ensures
        r == remapped(o, local_base as int, mn_base as int, target_base as int),
{
    proof {
        let l = locals_of(o);
        if l.len() > 0 {
            assert(l[0] + local_base <= u32::MAX);
        }
        if l.len() > 1 {
            assert(l[1] + local_base <= u32::MAX);
        }
    }
    match o {
        JitOp::GetLocalValue(i) => JitOp::GetLocalValue(i + local_base),
        JitOp::SetLocalValue(i) => JitOp::SetLocalValue(i + local_base),
        JitOp::StoreLocalValue(i) => JitOp::StoreLocalValue(i + local_base),
        JitOp::GetLocal(i) => JitOp::GetLocal(i + local_base),
        JitOp::SetLocal(i) => JitOp::SetLocal(i + local_base),
        JitOp::IncLocalI(i) => JitOp::IncLocalI(i + local_base),
        JitOp::DecLocalI(i) => JitOp::DecLocalI(i + local_base),
        JitOp::GetLocalDouble(i) => JitOp::GetLocalDouble(i + local_base),
        JitOp::SetLocalDouble(i) => JitOp::SetLocalDouble(i + local_base),
        JitOp::StoreLocalDouble(i) => JitOp::StoreLocalDouble(i + local_base),
        JitOp::IncDecLocalIValue(i, up) => JitOp::IncDecLocalIValue(i + local_base, up),
        JitOp::IncDecLocalNum(i, up) => JitOp::IncDecLocalNum(i + local_base, up),
        JitOp::HasNext2(i, j) => JitOp::HasNext2(i + local_base, j + local_base),
        JitOp::GetProperty(k) => JitOp::GetProperty(k + mn_base),
        JitOp::GetPropertyIc(k, site) => JitOp::GetPropertyIc(k + mn_base, site),
        JitOp::GetPropertyFast(k, num) => JitOp::GetPropertyFast(k + mn_base, num),
        _ => match o.target() {
            Some(t) => o.retargeted(t + target_base),
            None => o,
        },
    }
}

/// The op with its branch target, if behind `at`, moved on by `by`.
pub open spec fn past(o: JitOp, at: int, by: int) -> JitOp {
    match op::branch_target(o) {
        Some(t) => if t > at {
            op::with_target(o, (t + by) as usize)
        } else {
            o
        },
        None => o,
    }
}

fn shift_target(o: JitOp, at: usize, by: usize) -> (r: JitOp)
    requires
        op::branch_target(o) matches Some(t) ==> t + by <= usize::MAX,
    ensures
        r == past(o, at as int, by as int),
{
    match o.target() {
        Some(t) if t > at => o.retargeted(t + by),
        _ => o,
    }
}

/// The receiver and `argc` arguments popped into the locals from `base` on, the last first.
pub open spec fn pop_args(base: int, argc: nat) -> Seq<JitOp> {
    Seq::new(argc + 1, |k: int| JitOp::SetLocalValue((base + argc - k) as u32))
}

/// What makes the callee's result the one that the caller expects.
pub open spec fn result_glue(ret: JitOp, result: ResultMode) -> Seq<JitOp> {
    match (ret, result) {
        (JitOp::ReturnValueBoxed, ResultMode::Discard) => seq![JitOp::Pop],
        (JitOp::ReturnVoidBoxed(bits), ResultMode::Push) => seq![JitOp::PushConst(bits)],
        _ => Seq::empty(),
    }
}

/// What takes the place of the call at `at`.
pub open spec fn inlined(
    callee: Seq<JitOp>,
    at: int,
    base: int,
    names: int,
    argc: nat,
    result: ResultMode,
) -> Seq<JitOp> {
    pop_args(base, argc) + callee.drop_last().map_values(
        |o: JitOp| remapped(o, base, names, at + argc + 1),
    ) + result_glue(callee.last(), result)
}

/// The caller with the call at `at` replaced.
pub open spec fn spliced(caller: Seq<JitOp>, at: int, put: Seq<JitOp>) -> Seq<JitOp> {
    let by = put.len() - 1;
    caller.take(at).map_values(|o: JitOp| past(o, at, by)) + put + caller.skip(at + 1).map_values(
        |o: JitOp| past(o, at, by),
    )
}

/// The indices that a splice computes can be represented.
pub open spec fn can_splice(
    caller: Seq<JitOp>,
    at: int,
    callee: Seq<JitOp>,
    base: int,
    names: int,
    argc: nat,
) -> bool {
    &&& base + argc <= u32::MAX
    &&& forall|i: int|
        0 <= i < callee.len() - 1 ==> can_move(#[trigger] callee[i], base, names, at + argc + 1)
    &&& forall|i: int|
        0 <= i < caller.len() ==> (op::branch_target(#[trigger] caller[i]) matches Some(t) ==> t
            + argc + MAX_INLINE_OPS <= usize::MAX)
    &&& at + argc + 1 <= usize::MAX
}

fn op_moves(o: JitOp, locals: u32, names: u32, targets: usize) -> (r: bool)
    ensures
        r == can_move(o, locals as int, names as int, targets as int),
{
    let (i, j): (u32, u32) = match o {
        JitOp::GetLocalValue(i) | JitOp::SetLocalValue(i) | JitOp::StoreLocalValue(i)
        | JitOp::GetLocal(i) | JitOp::SetLocal(i) | JitOp::IncLocalI(i) | JitOp::DecLocalI(i)
        | JitOp::GetLocalDouble(i) | JitOp::SetLocalDouble(i) | JitOp::StoreLocalDouble(i)
        | JitOp::IncDecLocalIValue(i, _) | JitOp::IncDecLocalNum(i, _) => (i, i),
        JitOp::HasNext2(i, j) => (i, j),
        _ => (0, 0),
    };
    let k: u32 = match o {
        JitOp::GetProperty(k) | JitOp::GetPropertyIc(k, _) | JitOp::GetPropertyFast(k, _) => k,
        _ => 0,
    };
    let t: usize = match o.target() {
        Some(t) => t,
        None => 0,
    };
    let r = i <= u32::MAX - locals && j <= u32::MAX - locals && k <= u32::MAX - names && t
        <= usize::MAX - targets;
    proof {
        let l = locals_of(o);
        if !(i <= u32::MAX - locals) {
            assert(l[0] == i);
        }
        if !(j <= u32::MAX - locals) {
            assert(l[l.len() - 1] == j);
        }
    }
    r
}

/// Whether the indices that a splice computes can be represented.
pub fn splice_fits(
    caller: &[JitOp],
    call_idx: usize,
    callee: &[JitOp],
    local_base: u32,
    mn_base: u32,
    argc: u32,
) -> (r: bool)
    ensures
        r == can_splice(
            caller@,
            call_idx as int,
            callee@,
            local_base as int,
            mn_base as int,
            argc as nat,
        ),
{
    if argc > u32::MAX - local_base || argc as usize >= usize::MAX - call_idx {
        return false;
    }
    let targets: usize = call_idx + argc as usize + 1;
    let mut i: usize = 0;
    while callee.len() > 0 && i < callee.len() - 1
        invariant
            i <= callee@.len(),
            callee@.len() > 0 ==> i <= callee@.len() - 1,
            targets == call_idx + argc + 1,
            forall|k: int|
                0 <= k < i ==> can_move(
                    #[trigger] callee@[k],
                    local_base as int,
                    mn_base as int,
                    targets as int,
                ),
        decreases callee@.len() - i,
    {
        if !op_moves(callee[i], local_base, mn_base, targets) {
            assert(!can_move(
                callee@[i as int],
                local_base as int,
                mn_base as int,
                call_idx as int + argc as nat + 1,
            ));
            return false;
        }
        i = i + 1;
    }
    let mut j: usize = 0;
    while j < caller.len()
        invariant
            j <= caller@.len(),
            forall|k: int|
                0 <= k < j ==> (op::branch_target(#[trigger] caller@[k]) matches Some(t) ==> t + argc
                    + MAX_INLINE_OPS <= usize::MAX),
        decreases caller@.len() - j,
    {
        let t: usize = match caller[j].target() {
            Some(t) => t,
            None => 0,
        };
        if argc as usize > usize::MAX - MAX_INLINE_OPS || t > usize::MAX - MAX_INLINE_OPS
            - argc as usize {
            if caller[j].target().is_some() {
                assert(op::branch_target(caller@[j as int]) is Some);
                return false;
            }
        }
        j = j + 1;
    }
    true
}

fn push_past(out: &mut Vec<JitOp>, caller: &[JitOp], from: usize, to: usize, at: usize, by: usize)
    requires
        from <= to <= caller@.len(),
        forall|i: int|
            0 <= i < caller@.len() ==> (op::branch_target(#[trigger] caller@[i]) matches Some(t)
                ==> t + by <= usize::MAX),
    ensures
        final(out)@ == old(out)@ + caller@.subrange(from as int, to as int).map_values(
            |o: JitOp| past(o, at as int, by as int),
        ),
{
    let ghost part = caller@.subrange(from as int, to as int).map_values(
        |o: JitOp| past(o, at as int, by as int),
    );
    let mut i: usize = from;
    while i < to
        invariant
            from <= i <= to <= caller@.len(),
            part == caller@.subrange(from as int, to as int).map_values(
                |o: JitOp| past(o, at as int, by as int),
            ),
            out@ =~= old(out)@ + part.take(i - from),
            forall|i: int|
                0 <= i < caller@.len() ==> (op::branch_target(#[trigger] caller@[i]) matches Some(t)
                    ==> t + by <= usize::MAX),
        decreases to - i,
    {
        out.push(shift_target(caller[i], at, by));
        i = i + 1;
    }
    assert(part.take(to - from) =~= part);
}

/// Puts the body of `callee` in place of the call at `call_idx`. Callee local `i` becomes
/// caller local `local_base + i`, multiname `k` becomes `mn_base + k`. `None` if the callee
/// may not be inlined.
pub fn splice(
    caller: &[JitOp],
    call_idx: usize,
    callee: &[JitOp],
    local_base: u32,
    mn_base: u32,
    argc: u32,
    result: ResultMode,
) -> (r: Option<Vec<JitOp>>)
    requires
        call_idx < caller@.len(),
        inlinable(callee@) is Some ==> can_splice(
            caller@,
            call_idx as int,
            callee@,
            local_base as int,
            mn_base as int,
            argc as nat,
        ),
    ensures
        match inlinable(callee@) {
            Some(_) => r matches Some(out) && out@ == spliced(
                caller@,
                call_idx as int,
                inlined(
                    callee@,
                    call_idx as int,
                    local_base as int,
                    mn_base as int,
                    argc as nat,
                    result,
                ),
            ),
            None => r is None,
        },
{
    let (n, _) = match callee_inlinable(callee) {
        Some(found) => found,
        None => {
            return None;
        },
    };
    let ghost put = inlined(
        callee@,
        call_idx as int,
        local_base as int,
        mn_base as int,
        argc as nat,
        result,
    );
    let mut repl: Vec<JitOp> = Vec::new();
    let mut k: u32 = 0;
    repl.push(JitOp::SetLocalValue(local_base + argc));
    while k < argc
        invariant
            k <= argc,
            local_base + argc <= u32::MAX,
            repl@ =~= pop_args(local_base as int, argc as nat).take(k + 1),
        decreases argc - k,
    {
        k = k + 1;
        repl.push(JitOp::SetLocalValue(local_base + (argc - k)));
    }
    assert(repl@ =~= pop_args(local_base as int, argc as nat));
    let body_base: usize = call_idx + (argc as usize + 1);
    let ghost moved = callee@.drop_last().map_values(
        |o: JitOp| remapped(o, local_base as int, mn_base as int, call_idx + argc + 1),
    );
    let mut i: usize = 0;
    while i < n
        invariant
            i <= n,
            n == callee@.len() - 1,
            body_base == call_idx + argc + 1,
            moved == callee@.drop_last().map_values(
                |o: JitOp| remapped(o, local_base as int, mn_base as int, call_idx + argc + 1),
            ),
            repl@ =~= pop_args(local_base as int, argc as nat) + moved.take(i as int),
            can_splice(
                caller@,
                call_idx as int,
                callee@,
                local_base as int,
                mn_base as int,
                argc as nat,
            ),
        decreases n - i,
    {
        assert(can_move(
            callee@[i as int],
            local_base as int,
            mn_base as int,
            call_idx as int + argc as nat + 1,
        ));
        repl.push(remap_op(callee[i], local_base, mn_base, body_base));
        i = i + 1;
    }
    assert(moved.take(n as int) =~= moved);
    match (callee[n], result) {
        (JitOp::ReturnValueBoxed, ResultMode::Discard) => {
            repl.push(JitOp::Pop);
        },
        (JitOp::ReturnVoidBoxed(bits), ResultMode::Push) => {
            repl.push(JitOp::PushConst(bits));
        },
        _ => {},
    }
    assert(repl@ =~= put);
    let by: usize = repl.len() - 1;
    let mut out: Vec<JitOp> = Vec::new();
    push_past(&mut out, caller, 0, call_idx, call_idx, by);
    out.append(&mut repl);
    push_past(&mut out, caller, call_idx + 1, caller.len(), call_idx, by);
    assert(caller@.subrange(0, call_idx as int) =~= caller@.take(call_idx as int));
    assert(caller@.subrange(call_idx + 1, caller@.len() as int) =~= caller@.skip(call_idx + 1));
    Some(out)
}

/// What takes the place of a call holds no call.
pub proof fn inlined_ops_hold_no_call(
    callee: Seq<JitOp>,
    at: int,
    base: int,
    names: int,
    argc: nat,
    result: ResultMode,
    i: int,
)
    requires
        inlinable(callee) is Some,
        0 <= i < inlined(callee, at, base, names, argc, result).len(),
    ensures
        may_inline(inlined(callee, at, base, names, argc, result)[i]),
{
    let n = callee.len() - 1;
    let k = i - (argc + 1);
    if 0 <= k < n {
        assert(fits_body(callee, n as nat, k));
        assert(callee.drop_last()[k] == callee[k]);
    }
}

/// A splice leaves no branch that points outside of the method.
pub proof fn splice_keeps_targets_inside(
    caller: Seq<JitOp>,
    at: int,
    callee: Seq<JitOp>,
    base: int,
    names: int,
    argc: nat,
    result: ResultMode,
    i: int,
)
    requires
        0 <= at < caller.len() <= usize::MAX,
        inlinable(callee) is Some,
        can_splice(caller, at, callee, base, names, argc),
        forall|j: int|
            0 <= j < caller.len() ==> (op::branch_target(#[trigger] caller[j]) matches Some(t) ==> t
                < caller.len()),
        0 <= i < spliced(caller, at, inlined(callee, at, base, names, argc, result)).len(),
    ensures
        op::branch_target(
            spliced(caller, at, inlined(callee, at, base, names, argc, result))[i],
        ) matches Some(t) ==> t < spliced(
            caller,
            at,
            inlined(callee, at, base, names, argc, result),
        ).len(),
{
    let put = inlined(callee, at, base, names, argc, result);
    let out = spliced(caller, at, put);
    let n = callee.len() - 1;
    assert(out.len() == caller.len() - 1 + put.len());
    if i < at {
        assert(caller.take(at)[i] == caller[i]);
    } else if i < at + put.len() {
        let k = i - at - (argc + 1);
        assert(out[i] == put[i - at]);
        if 0 <= k < n {
            assert(fits_body(callee, n as nat, k));
            assert(callee.drop_last()[k] == callee[k]);
            assert(can_move(callee[k], base, names, at + argc + 1));
        }
    } else {
        let j = i - put.len() + 1;
        assert(caller.skip(at + 1)[j - at - 1] == caller[j]);
    }
}

} // verus!
