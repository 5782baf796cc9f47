//! Which imports a method's module needs, and at which function indices they stand.

use crate::lower::op::JitOp;
use vstd::prelude::*;

verus! {

// Unary helpers that some ops call without naming them.
pub const INCREMENT: u32 = 0;

pub const DECREMENT: u32 = 1;

pub const TO_BOOLEAN: u32 = 5;

pub const PUSH_SCOPE: u32 = 6;

pub const GET_SCOPE_OBJECT: u32 = 7;

pub const DM_LOAD8: u32 = 8;

pub const DM_LOAD16: u32 = 9;

pub const DM_LOAD32: u32 = 10;

pub const COERCE_U: u32 = 11;

pub const COERCE_I: u32 = 12;

pub const COERCE_RETURN: u32 = 16;

pub const GET_SCRIPT_GLOBALS: u32 = 17;

pub const GET_PUSH_STRING: u32 = 18;

pub const THROW: u32 = 19;

pub const DISPATCH_EXC: u32 = 20;

pub const NEW_CATCH: u32 = 21;

pub const POP_CAUGHT: u32 = 22;

pub const POP_SCOPE: u32 = 23;

pub const GET_OUTER_SCOPE: u32 = 24;

pub const COERCE_S: u32 = 25;

pub const DM_LOADF32: u32 = 26;

pub const DM_LOADF64: u32 = 27;

// Binary helpers that may throw.
pub const H2_AS_TYPE_LATE: u32 = 16;

pub const H2_IS_TYPE_LATE: u32 = 17;

/// Number of ternary helper kinds: three slot stores and two domain-memory stores.
pub const HELPER3_KINDS: usize = 5;

/// The last of the slot stores among the ternary kinds.
pub const SETSLOT_KIND_MAX: u32 = 2;

/// The domain-memory int store among the ternary kinds.
pub const DM_STORE_KIND: u32 = 3;

/// The domain-memory float store among the ternary kinds.
pub const DM_STORE_F_KIND: u32 = 4;

/// Some op of `ops` satisfies `p`.
pub open spec fn any(ops: Seq<JitOp>, p: spec_fn(JitOp) -> bool) -> bool {
    exists|i: int| 0 <= i < ops.len() && p(#[trigger] ops[i])
}

/// The largest `f(op)` over `ops`; `0` for none.
pub open spec fn largest(ops: Seq<JitOp>, f: spec_fn(JitOp) -> nat) -> nat
    decreases ops.len(),
{
    if ops.len() == 0 {
        0
    } else {
        let rest = largest(ops.drop_last(), f);
        let here = f(ops.last());
        if here > rest {
            here
        } else {
            rest
        }
    }
}

/// The helper indices in `op` leave room for one more, and its ternary kind has a bit.
pub open spec fn counts_helpers(op: JitOp) -> bool {
    match op {
        JitOp::CallHelper(i) => i < u32::MAX,
        JitOp::CallHelper2(i) => i < u32::MAX,
        JitOp::CmpNum(i) => i < u32::MAX,
        JitOp::BitOpInt(i) => i < u32::MAX,
        JitOp::ArithInt(i) => i < u32::MAX,
        JitOp::ArithNum(i) => i < u32::MAX,
        JitOp::CallHelper3(h, _) => h < 32,
        _ => true,
    }
}

/// The arguments of `op`, with what it takes besides, can be counted.
pub open spec fn counts_args(op: JitOp) -> bool {
    match op {
        JitOp::CallMethod(_, argc, _) => argc < u32::MAX,
        JitOp::CallMethodDirect(_, argc, _, _) => argc < u32::MAX,
        JitOp::CallProperty(_, argc, _) => argc < u32::MAX,
        JitOp::ConstructSuper(argc) => argc < u32::MAX,
        JitOp::CallValue(argc) => argc < u32::MAX - 1,
        JitOp::VCall(_, _, spill, _) => spill < u32::MAX,
        _ => true,
    }
}

/// The op can be lowered as far as its indices and counts go.
pub open spec fn in_range(op: JitOp) -> bool {
    &&& counts_helpers(op)
    &&& counts_args(op)
    &&& op matches JitOp::CallHelper3(h, _) ==> h < HELPER3_KINDS
}

/// Every op of `ops` meets [`counts_helpers`].
pub open spec fn all_count_helpers(ops: Seq<JitOp>) -> bool {
    forall|i: int| 0 <= i < ops.len() ==> counts_helpers(#[trigger] ops[i])
}

/// Every op of `ops` meets [`counts_args`].
pub open spec fn all_count_args(ops: Seq<JitOp>) -> bool {
    forall|i: int| 0 <= i < ops.len() ==> counts_args(#[trigger] ops[i])
}

/// Every op of `ops` is [`in_range`].
pub open spec fn all_in_range(ops: Seq<JitOp>) -> bool {
    forall|i: int| 0 <= i < ops.len() ==> in_range(#[trigger] ops[i])
}

/// Whether every index in `ops` is one that lowering can work with.
pub fn ops_in_range(ops: &[JitOp]) -> (r: bool)
    ensures
        r == all_in_range(ops@),
{
    let mut i: usize = 0;
    while i < ops.len()
        invariant
            i <= ops@.len(),
            forall|j: int| 0 <= j < i ==> in_range(#[trigger] ops@[j]),
        decreases ops@.len() - i,
    {
        let ok = match ops[i] {
            JitOp::CallHelper(x) | JitOp::CallHelper2(x) | JitOp::CmpNum(x) | JitOp::BitOpInt(x)
            | JitOp::ArithInt(x) | JitOp::ArithNum(x) => x < u32::MAX,
            JitOp::CallHelper3(h, _) => h < 5,
            JitOp::CallMethod(_, argc, _) | JitOp::CallMethodDirect(_, argc, _, _)
            | JitOp::CallProperty(_, argc, _) | JitOp::ConstructSuper(argc) => argc < u32::MAX,
            JitOp::CallValue(argc) => argc < u32::MAX - 1,
            JitOp::VCall(_, _, spill, _) => spill < u32::MAX,
            _ => true,
        };
        assert(ok == in_range(ops@[i as int]));
        if !ok {
            return false;
        }
        i = i + 1;
    }
    true
}

/// How many unary helpers must be imported for `op` to reach the one it calls.
pub open spec fn helper_need(op: JitOp) -> nat {
    match op {
        JitOp::CallHelper(i) => i as nat + 1,
        JitOp::IncDecLocalNum(_, inc) => if inc {
            INCREMENT as nat + 1
        } else {
            DECREMENT as nat + 1
        },
        JitOp::IfTrueBoxed(_) => TO_BOOLEAN as nat + 1,
        JitOp::IfFalseBoxed(_) => TO_BOOLEAN as nat + 1,
        JitOp::CoerceBool => TO_BOOLEAN as nat + 1,
        JitOp::PushScopeReal => PUSH_SCOPE as nat + 1,
        JitOp::PopScopeReal => POP_SCOPE as nat + 1,
        JitOp::GetScopeObject(_) => GET_SCOPE_OBJECT as nat + 1,
        JitOp::GetOuterScope(_) => GET_OUTER_SCOPE as nat + 1,
        JitOp::CoerceString => COERCE_S as nat + 1,
        JitOp::DmLoad(w) => dm_load_helper(w) as nat + 1,
        JitOp::DmLoadF(w) => dm_load_f_helper(w) as nat + 1,
        JitOp::GetScriptGlobals(_) => GET_SCRIPT_GLOBALS as nat + 1,
        JitOp::PushString(_) => GET_PUSH_STRING as nat + 1,
        JitOp::Throw => THROW as nat + 1,
        JitOp::NewCatch(_) => POP_CAUGHT as nat + 1,
        JitOp::ReturnValueCoerced => COERCE_RETURN as nat + 1,
        JitOp::ReturnValueCoerceBaked(_) => COERCE_RETURN as nat + 1,
        JitOp::CoerceInt(signed) => coerce_helper(signed) as nat + 1,
        JitOp::LookupSwitch(_) => COERCE_I as nat + 1,
        _ => 0,
    }
}

/// The load helper behind an inline load of `width` bytes.
pub open spec fn dm_load_helper(width: u32) -> u32 {
    if width == 1 {
        DM_LOAD8
    } else if width == 2 {
        DM_LOAD16
    } else {
        DM_LOAD32
    }
}

/// The load helper behind an inline float load of `width` bytes.
pub open spec fn dm_load_f_helper(width: u32) -> u32 {
    if width == 4 {
        DM_LOADF32
    } else {
        DM_LOADF64
    }
}

/// The helper behind an inline int coercion.
pub open spec fn coerce_helper(signed: bool) -> u32 {
    if signed {
        COERCE_I
    } else {
        COERCE_U
    }
}

/// How many binary helpers must be imported for `op` to reach the one it may call.
pub open spec fn helper2_need(op: JitOp) -> nat {
    match op {
        JitOp::CallHelper2(i) => i as nat + 1,
        JitOp::CmpNum(i) => i as nat + 1,
        JitOp::BitOpInt(i) => i as nat + 1,
        JitOp::ArithInt(i) => i as nat + 1,
        JitOp::ArithNum(i) => i as nat + 1,
        _ => 0,
    }
}

/// The ternary helper kind that `op` may call.
pub open spec fn set3_kind(op: JitOp) -> Option<u32> {
    match op {
        JitOp::CallHelper3(h, _) => Some(h),
        JitOp::DmStore(_) => Some(DM_STORE_KIND),
        JitOp::DmStoreF(_) => Some(DM_STORE_F_KIND),
        _ => None,
    }
}

pub open spec fn is_getprop(op: JitOp) -> bool {
    op is GetProperty || op is GetPropertyIc
}

pub open spec fn is_call(op: JitOp) -> bool {
    op is CallMethod || op is CallMethodDirect
}

pub open spec fn is_inline_dm(op: JitOp) -> bool {
    op is DmLoad || op is DmStore || op is DmLoadF || op is DmStoreF
}

pub open spec fn is_coerced_return(op: JitOp) -> bool {
    op is ReturnValueCoerced || op is ReturnValueCoerceBaked
}

/// A domain-memory access by helper: it throws when out of bounds.
pub open spec fn is_helper_dm(op: JitOp) -> bool {
    match op {
        JitOp::CallHelper(i) => i == DM_LOAD8 || i == DM_LOAD16 || i == DM_LOAD32,
        JitOp::CallHelper3(h, _) => h == DM_STORE_KIND,
        _ => false,
    }
}

/// A binary helper that throws on an operand that is no class.
pub open spec fn is_h2_throw(op: JitOp) -> bool {
    op matches JitOp::CallHelper2(i) && (i == H2_AS_TYPE_LATE || i == H2_IS_TYPE_LATE)
}

/// A property or slot access.
pub open spec fn is_prop_throw(op: JitOp) -> bool {
    match op {
        JitOp::GetProperty(_) => true,
        JitOp::GetPropertyIc(_, _) => true,
        JitOp::GetPropertyFast(_, _) => true,
        JitOp::GetSlot(_, _) => true,
        JitOp::CallHelper3(h, _) => h <= SETSLOT_KIND_MAX,
        _ => false,
    }
}

/// A throwing op whose own code holds the check for a pending error.
pub open spec fn bails_itself(op: JitOp) -> bool {
    op is CallMethod || op is CallMethodDirect || op is CallProperty || op is ConstructSuper
        || op is CallValue || op is VCall || op is GetSlot
}

/// An op that may leave a pending error behind.
pub open spec fn can_throw(op: JitOp) -> bool {
    bails_itself(op) || op is CoerceString || op is Coerce || is_helper_dm(op) || is_h2_throw(op)
        || is_prop_throw(op)
}

/// Whether bit `k` of `mask` is set.
pub open spec fn has_kind(mask: u32, k: u32) -> bool {
    (mask >> k) & 1 == 1
}

/// One bit per ternary kind in use.
pub open spec fn mask_of(ops: Seq<JitOp>) -> u32
    decreases ops.len(),
{
    if ops.len() == 0 {
        0
    } else {
        let rest = mask_of(ops.drop_last());
        match set3_kind(ops.last()) {
            Some(k) => rest | (1u32 << k),
            None => rest,
        }
    }
}

/// The imports that a module uses. Whoever instantiates the module binds exactly these.
#[derive(Clone, Copy, Debug, PartialEq, Eq, Structural)]
pub struct Manifest {
    /// Unary helpers `h0 ..`.
    pub num_helpers: u32,
    /// `gp`.
    pub has_getprop: bool,
    /// `gs`.
    pub has_getslot: bool,
    /// `gpf`.
    pub has_getprop_fast: bool,
    /// Binary helpers `t0 ..`.
    pub num_helpers2: u32,
    /// Bit `k`: ternary helper `sk`.
    pub set3_mask: u32,
    /// `cm`.
    pub has_call: bool,
    /// `cp`.
    pub has_callprop: bool,
    /// `csup`.
    pub has_construct_super: bool,
    /// `callv`.
    pub has_call_value: bool,
    /// Inline domain-memory accesses, which need the second memory.
    pub has_dm: bool,
    /// Domain-memory accesses by helper, which may throw.
    pub dm_throws: bool,
    /// A return that coerces to the declared type.
    pub has_coerced_return: bool,
    /// Reads of script globals.
    pub has_script_globals: bool,
    /// String constants.
    pub has_push_strings: bool,
    /// `ToString` coercions.
    pub has_coerce_s: bool,
    /// `coerce`.
    pub has_coerce: bool,
    /// Binary helpers that may throw.
    pub h2_throws: bool,
    /// `vc`.
    pub has_vcall: bool,
}

/// The manifest of a module with no imports.
pub open spec fn empty_manifest() -> Manifest {
    Manifest {
        num_helpers: 0,
        has_getprop: false,
        has_getslot: false,
        has_getprop_fast: false,
        num_helpers2: 0,
        set3_mask: 0,
        has_call: false,
        has_callprop: false,
        has_construct_super: false,
        has_call_value: false,
        has_dm: false,
        dm_throws: false,
        has_coerced_return: false,
        has_script_globals: false,
        has_push_strings: false,
        has_coerce_s: false,
        has_coerce: false,
        h2_throws: false,
        has_vcall: false,
    }
}

/// What the module for `ops` imports.
pub open spec fn manifest_of(ops: Seq<JitOp>) -> Manifest {
    Manifest {
        num_helpers: largest(ops, |op: JitOp| helper_need(op)) as u32,
        has_getprop: any(ops, |op: JitOp| is_getprop(op)),
        has_getslot: any(ops, |op: JitOp| op is GetSlot),
        has_getprop_fast: any(ops, |op: JitOp| op is GetPropertyFast),
        num_helpers2: largest(ops, |op: JitOp| helper2_need(op)) as u32,
        set3_mask: mask_of(ops),
        has_call: any(ops, |op: JitOp| is_call(op)),
        has_callprop: any(ops, |op: JitOp| op is CallProperty),
        has_construct_super: any(ops, |op: JitOp| op is ConstructSuper),
        has_call_value: any(ops, |op: JitOp| op is CallValue),
        has_dm: any(ops, |op: JitOp| is_inline_dm(op)),
        dm_throws: any(ops, |op: JitOp| is_helper_dm(op)),
        has_coerced_return: any(ops, |op: JitOp| is_coerced_return(op)),
        has_script_globals: any(ops, |op: JitOp| op is GetScriptGlobals),
        has_push_strings: any(ops, |op: JitOp| op is PushString),
        has_coerce_s: any(ops, |op: JitOp| op is CoerceString),
        has_coerce: any(ops, |op: JitOp| op is Coerce),
        h2_throws: any(ops, |op: JitOp| is_h2_throw(op)),
        has_vcall: any(ops, |op: JitOp| op is VCall),
    }
}

/// Whether the import `perr` is present.
pub open spec fn wants_perr(m: Manifest) -> bool {
    m.has_call || m.has_callprop || m.has_construct_super || m.has_call_value || m.has_vcall
        || m.dm_throws || m.has_coerce_s || m.has_coerce || m.h2_throws || m.has_getprop
        || m.has_getprop_fast || m.has_getslot || m.set3_mask & 7 != 0
}

/// Whether the import `pca` is present.
pub open spec fn wants_pca(m: Manifest) -> bool {
    m.has_call || m.has_callprop || m.has_construct_super || m.has_call_value || m.has_vcall
}

/// The field-wise union of two manifests.
pub open spec fn union_of(a: Manifest, b: Manifest) -> Manifest {
    Manifest {
        num_helpers: if a.num_helpers >= b.num_helpers {
            a.num_helpers
        } else {
            b.num_helpers
        },
        has_getprop: a.has_getprop || b.has_getprop,
        has_getslot: a.has_getslot || b.has_getslot,
        has_getprop_fast: a.has_getprop_fast || b.has_getprop_fast,
        num_helpers2: if a.num_helpers2 >= b.num_helpers2 {
            a.num_helpers2
        } else {
            b.num_helpers2
        },
        set3_mask: a.set3_mask | b.set3_mask,
        has_call: a.has_call || b.has_call,
        has_callprop: a.has_callprop || b.has_callprop,
        has_construct_super: a.has_construct_super || b.has_construct_super,
        has_call_value: a.has_call_value || b.has_call_value,
        has_dm: a.has_dm || b.has_dm,
        dm_throws: a.dm_throws || b.dm_throws,
        has_coerced_return: a.has_coerced_return || b.has_coerced_return,
        has_script_globals: a.has_script_globals || b.has_script_globals,
        has_push_strings: a.has_push_strings || b.has_push_strings,
        has_coerce_s: a.has_coerce_s || b.has_coerce_s,
        has_coerce: a.has_coerce || b.has_coerce,
        h2_throws: a.h2_throws || b.h2_throws,
        has_vcall: a.has_vcall || b.has_vcall,
    }
}

/// Every import of `part` is an import of `whole`.
pub open spec fn covers(whole: Manifest, part: Manifest) -> bool {
    &&& part.num_helpers <= whole.num_helpers
    &&& part.num_helpers2 <= whole.num_helpers2
    &&& part.has_getprop ==> whole.has_getprop
    &&& part.has_getslot ==> whole.has_getslot
    &&& part.has_getprop_fast ==> whole.has_getprop_fast
    &&& forall|k: u32| k < 32 && has_kind(part.set3_mask, k) ==> has_kind(whole.set3_mask, k)
    &&& part.has_call ==> whole.has_call
    &&& part.has_callprop ==> whole.has_callprop
    &&& part.has_construct_super ==> whole.has_construct_super
    &&& part.has_call_value ==> whole.has_call_value
    &&& wants_pca(part) ==> wants_pca(whole)
    &&& wants_perr(part) ==> wants_perr(whole)
    &&& part.has_dm ==> whole.has_dm
    &&& part.has_coerce ==> whole.has_coerce
    &&& part.has_vcall ==> whole.has_vcall
}

impl Default for Manifest {
    /// No imports.
    fn default() -> (r: Manifest)
        ensures
            r == empty_manifest(),
    {
        Manifest {
            num_helpers: 0,
            has_getprop: false,
            has_getslot: false,
            has_getprop_fast: false,
            num_helpers2: 0,
            set3_mask: 0,
            has_call: false,
            has_callprop: false,
            has_construct_super: false,
            has_call_value: false,
            has_dm: false,
            dm_throws: false,
            has_coerced_return: false,
            has_script_globals: false,
            has_push_strings: false,
            has_coerce_s: false,
            has_coerce: false,
            h2_throws: false,
            has_vcall: false,
        }
    }
}

impl Manifest {
    /// Folds another manifest in, field by field.
    pub fn union_with(&mut self, m: &Manifest)
        ensures
            *final(self) == union_of(*old(self), *m),
    {
        *self = Manifest {
            num_helpers: if self.num_helpers >= m.num_helpers {
                self.num_helpers
            } else {
                m.num_helpers
            },
            has_getprop: self.has_getprop || m.has_getprop,
            has_getslot: self.has_getslot || m.has_getslot,
            has_getprop_fast: self.has_getprop_fast || m.has_getprop_fast,
            num_helpers2: if self.num_helpers2 >= m.num_helpers2 {
                self.num_helpers2
            } else {
                m.num_helpers2
            },
            set3_mask: self.set3_mask | m.set3_mask,
            has_call: self.has_call || m.has_call,
            has_callprop: self.has_callprop || m.has_callprop,
            has_construct_super: self.has_construct_super || m.has_construct_super,
            has_call_value: self.has_call_value || m.has_call_value,
            has_dm: self.has_dm || m.has_dm,
            dm_throws: self.dm_throws || m.dm_throws,
            has_coerced_return: self.has_coerced_return || m.has_coerced_return,
            has_script_globals: self.has_script_globals || m.has_script_globals,
            has_push_strings: self.has_push_strings || m.has_push_strings,
            has_coerce_s: self.has_coerce_s || m.has_coerce_s,
            has_coerce: self.has_coerce || m.has_coerce,
            h2_throws: self.h2_throws || m.h2_throws,
            has_vcall: self.has_vcall || m.has_vcall,
        };
    }

    /// Whether the module imports `perr`, the check for a pending error.
    pub fn needs_perr(&self) -> (r: bool)
        ensures
            r == wants_perr(*self),
    {
        self.has_call || self.has_callprop || self.has_construct_super || self.has_call_value
            || self.has_vcall || self.dm_throws || self.has_coerce_s || self.has_coerce
            || self.h2_throws || self.has_getprop || self.has_getprop_fast || self.has_getslot
            || self.set3_mask & 7 != 0
    }

    /// Whether the module imports `pca`, the argument spill.
    pub fn needs_pca(&self) -> (r: bool)
        ensures
            r == wants_pca(*self),
    {
        self.has_call || self.has_callprop || self.has_construct_super || self.has_call_value
            || self.has_vcall
    }
}

proof fn lemma_any_push(ops: Seq<JitOp>, i: int, p: spec_fn(JitOp) -> bool)
    requires
        0 <= i < ops.len(),
    ensures
        any(ops.take(i + 1), p) == (any(ops.take(i), p) || p(ops[i])),
{
    let longer = ops.take(i + 1);
    let shorter = ops.take(i);
    if any(longer, p) {
        let j = choose|j: int| 0 <= j < longer.len() && p(#[trigger] longer[j]);
        if j < i {
            assert(shorter[j] == longer[j]);
        }
    }
    if any(shorter, p) {
        let j = choose|j: int| 0 <= j < shorter.len() && p(#[trigger] shorter[j]);
        assert(longer[j] == shorter[j]);
    }
    assert(longer[i] == ops[i]);
}

/// Whether `p` holds of some op.
fn any_op<F: Fn(JitOp) -> bool>(ops: &[JitOp], f: F, Ghost(p): Ghost<spec_fn(JitOp) -> bool>) -> (r:
    bool)
    requires
        forall|op: JitOp| f.requires((op,)),
        forall|op: JitOp, b: bool| f.ensures((op,), b) ==> b == p(op),
    ensures
        r == any(ops@, p),
{
    let mut i: usize = 0;
    while i < ops.len()
        invariant
            i <= ops@.len(),
            !any(ops@.take(i as int), p),
            forall|op: JitOp| f.requires((op,)),
            forall|op: JitOp, b: bool| f.ensures((op,), b) ==> b == p(op),
        decreases ops@.len() - i,
    {
        proof {
            lemma_any_push(ops@, i as int, p);
        }
        if f(ops[i]) {
            assert(p(ops@[i as int]));
            return true;
        }
        i = i + 1;
    }
    assert(ops@.take(i as int) =~= ops@);
    false
}

proof fn lemma_largest_bound(ops: Seq<JitOp>, f: spec_fn(JitOp) -> nat, n: nat)
    requires
        forall|i: int| 0 <= i < ops.len() ==> f(#[trigger] ops[i]) <= n,
    ensures
        largest(ops, f) <= n,
    decreases ops.len(),
{
    if ops.len() > 0 {
        let rest = ops.drop_last();
        assert forall|i: int| 0 <= i < rest.len() implies f(#[trigger] rest[i]) <= n by {
            assert(rest[i] == ops[i]);
        }
        lemma_largest_bound(rest, f, n);
        assert(f(ops[ops.len() - 1]) <= n);
    }
}

/// An op's own need is at most the largest.
pub proof fn lemma_largest_covers(ops: Seq<JitOp>, f: spec_fn(JitOp) -> nat, i: int)
    requires
        0 <= i < ops.len(),
    ensures
        f(ops[i]) <= largest(ops, f),
    decreases ops.len(),
{
    if i < ops.len() - 1 {
        assert(ops.drop_last()[i] == ops[i]);
        lemma_largest_covers(ops.drop_last(), f, i);
    }
}

/// How many unary helpers the module imports: one more than the largest index in use.
pub fn helper_count(ops: &[JitOp]) -> (r: u32)
    requires
        all_count_helpers(ops@),
    ensures
        r == largest(ops@, |op: JitOp| helper_need(op)),
{
    let ghost f = |op: JitOp| helper_need(op);
    let mut n: u32 = 0;
    let mut i: usize = 0;
    while i < ops.len()
        invariant
            i <= ops@.len(),
            all_count_helpers(ops@),
            f == (|op: JitOp| helper_need(op)),
            n == largest(ops@.take(i as int), f),
        decreases ops@.len() - i,
    {
        let need: u32 = match ops[i] {
            JitOp::CallHelper(x) => x + 1,
            JitOp::IncDecLocalNum(_, inc) => if inc {
                INCREMENT + 1
            } else {
                DECREMENT + 1
            },
            JitOp::IfTrueBoxed(_) | JitOp::IfFalseBoxed(_) | JitOp::CoerceBool => TO_BOOLEAN + 1,
            JitOp::PushScopeReal => PUSH_SCOPE + 1,
            JitOp::PopScopeReal => POP_SCOPE + 1,
            JitOp::GetScopeObject(_) => GET_SCOPE_OBJECT + 1,
            JitOp::GetOuterScope(_) => GET_OUTER_SCOPE + 1,
            JitOp::CoerceString => COERCE_S + 1,
            JitOp::DmLoad(w) => if w == 1 {
                DM_LOAD8 + 1
            } else if w == 2 {
                DM_LOAD16 + 1
            } else {
                DM_LOAD32 + 1
            },
            JitOp::DmLoadF(w) => if w == 4 {
                DM_LOADF32 + 1
            } else {
                DM_LOADF64 + 1
            },
            JitOp::GetScriptGlobals(_) => GET_SCRIPT_GLOBALS + 1,
            JitOp::PushString(_) => GET_PUSH_STRING + 1,
            JitOp::Throw => THROW + 1,
            JitOp::NewCatch(_) => POP_CAUGHT + 1,
            JitOp::ReturnValueCoerced | JitOp::ReturnValueCoerceBaked(_) => COERCE_RETURN + 1,
            JitOp::CoerceInt(signed) => if signed {
                COERCE_I + 1
            } else {
                COERCE_U + 1
            },
            JitOp::LookupSwitch(_) => COERCE_I + 1,
            _ => 0,
        };
        assert(need == helper_need(ops@[i as int]));
        proof {
            assert(ops@.take(i as int + 1).drop_last() =~= ops@.take(i as int));
        }
        if need > n {
            n = need;
        }
        i = i + 1;
    }
    assert(ops@.take(i as int) =~= ops@);
    n
}

/// How many binary helpers the module imports.
pub fn helper2_count(ops: &[JitOp]) -> (r: u32)
    requires
        all_count_helpers(ops@),
    ensures
        r == largest(ops@, |op: JitOp| helper2_need(op)),
{
    let ghost f = |op: JitOp| helper2_need(op);
    let mut n: u32 = 0;
    let mut i: usize = 0;
    while i < ops.len()
        invariant
            i <= ops@.len(),
            all_count_helpers(ops@),
            f == (|op: JitOp| helper2_need(op)),
            n == largest(ops@.take(i as int), f),
        decreases ops@.len() - i,
    {
        let need: u32 = match ops[i] {
            JitOp::CallHelper2(x) | JitOp::CmpNum(x) | JitOp::BitOpInt(x) | JitOp::ArithInt(x)
            | JitOp::ArithNum(x) => x + 1,
            _ => 0,
        };
        assert(need == helper2_need(ops@[i as int]));
        proof {
            assert(ops@.take(i as int + 1).drop_last() =~= ops@.take(i as int));
        }
        if need > n {
            n = need;
        }
        i = i + 1;
    }
    assert(ops@.take(i as int) =~= ops@);
    n
}

/// One bit per ternary helper kind in use.
fn set3_mask(ops: &[JitOp]) -> (r: u32)
    requires
        all_count_helpers(ops@),
    ensures
        r == mask_of(ops@),
{
    let mut mask: u32 = 0;
    let mut i: usize = 0;
    while i < ops.len()
        invariant
            i <= ops@.len(),
            all_count_helpers(ops@),
            mask == mask_of(ops@.take(i as int)),
        decreases ops@.len() - i,
    {
        proof {
            assert(ops@.take(i as int + 1).drop_last() =~= ops@.take(i as int));
            assert(counts_helpers(ops@[i as int]));
        }
        match ops[i] {
            JitOp::CallHelper3(h, _) => {
                mask = mask | (1u32 << h);
            },
            JitOp::DmStore(_) => {
                mask = mask | (1u32 << DM_STORE_KIND);
            },
            JitOp::DmStoreF(_) => {
                mask = mask | (1u32 << DM_STORE_F_KIND);
            },
            _ => {},
        }
        i = i + 1;
    }
    assert(ops@.take(i as int) =~= ops@);
    mask
}

fn op_getprop(op: JitOp) -> (r: bool)
    ensures
        r == is_getprop(op),
{
    matches!(op, JitOp::GetProperty(_) | JitOp::GetPropertyIc(_, _))
}

fn op_get_property_fast(op: JitOp) -> (r: bool)
    ensures
        r == (op is GetPropertyFast),
{
    matches!(op, JitOp::GetPropertyFast(_, _))
}

fn op_get_slot(op: JitOp) -> (r: bool)
    ensures
        r == (op is GetSlot),
{
    matches!(op, JitOp::GetSlot(_, _))
}

fn op_call(op: JitOp) -> (r: bool)
    ensures
        r == is_call(op),
{
    matches!(op, JitOp::CallMethod(_, _, _) | JitOp::CallMethodDirect(_, _, _, _))
}

fn op_call_property(op: JitOp) -> (r: bool)
    ensures
        r == (op is CallProperty),
{
    matches!(op, JitOp::CallProperty(_, _, _))
}

fn op_construct_super(op: JitOp) -> (r: bool)
    ensures
        r == (op is ConstructSuper),
{
    matches!(op, JitOp::ConstructSuper(_))
}

fn op_call_value(op: JitOp) -> (r: bool)
    ensures
        r == (op is CallValue),
{
    matches!(op, JitOp::CallValue(_))
}

fn op_coerce_string(op: JitOp) -> (r: bool)
    ensures
        r == (op is CoerceString),
{
    matches!(op, JitOp::CoerceString)
}

fn op_coerce(op: JitOp) -> (r: bool)
    ensures
        r == (op is Coerce),
{
    matches!(op, JitOp::Coerce(_))
}

fn op_inline_dm(op: JitOp) -> (r: bool)
    ensures
        r == is_inline_dm(op),
{
    matches!(op, JitOp::DmLoad(_) | JitOp::DmStore(_) | JitOp::DmLoadF(_) | JitOp::DmStoreF(_))
}

fn op_coerced_return(op: JitOp) -> (r: bool)
    ensures
        r == is_coerced_return(op),
{
    matches!(op, JitOp::ReturnValueCoerced | JitOp::ReturnValueCoerceBaked(_))
}

fn op_get_script_globals(op: JitOp) -> (r: bool)
    ensures
        r == (op is GetScriptGlobals),
{
    matches!(op, JitOp::GetScriptGlobals(_))
}

fn op_push_string(op: JitOp) -> (r: bool)
    ensures
        r == (op is PushString),
{
    matches!(op, JitOp::PushString(_))
}

fn op_v_call(op: JitOp) -> (r: bool)
    ensures
        r == (op is VCall),
{
    matches!(op, JitOp::VCall(_, _, _, _))
}

/// Whether the module imports `gp`.
pub fn has_getprop(ops: &[JitOp]) -> (r: bool)
    ensures
        r == any(ops@, |op: JitOp| is_getprop(op)),
{
    any_op(
        ops,
        op_getprop,
        Ghost(|op: JitOp| is_getprop(op)),
    )
}

/// Whether the module imports `gpf`.
pub fn has_getprop_fast(ops: &[JitOp]) -> (r: bool)
    ensures
        r == any(ops@, |op: JitOp| op is GetPropertyFast),
{
    any_op(
        ops,
        op_get_property_fast,
        Ghost(|op: JitOp| op is GetPropertyFast),
    )
}

/// Whether the module imports `gs`.
pub fn has_getslot(ops: &[JitOp]) -> (r: bool)
    ensures
        r == any(ops@, |op: JitOp| op is GetSlot),
{
    any_op(
        ops,
        op_get_slot,
        Ghost(|op: JitOp| op is GetSlot),
    )
}

/// Whether the module imports `cm`.
pub fn has_call(ops: &[JitOp]) -> (r: bool)
    ensures
        r == any(ops@, |op: JitOp| is_call(op)),
{
    any_op(
        ops,
        op_call,
        Ghost(|op: JitOp| is_call(op)),
    )
}

/// Whether the module imports `cp`.
pub fn has_callprop(ops: &[JitOp]) -> (r: bool)
    ensures
        r == any(ops@, |op: JitOp| op is CallProperty),
{
    any_op(
        ops,
        op_call_property,
        Ghost(|op: JitOp| op is CallProperty),
    )
}

/// Whether the module imports `csup`.
pub fn has_construct_super(ops: &[JitOp]) -> (r: bool)
    ensures
        r == any(ops@, |op: JitOp| op is ConstructSuper),
{
    any_op(
        ops,
        op_construct_super,
        Ghost(|op: JitOp| op is ConstructSuper),
    )
}

/// Whether the module imports `callv`.
pub fn has_call_value(ops: &[JitOp]) -> (r: bool)
    ensures
        r == any(ops@, |op: JitOp| op is CallValue),
{
    any_op(
        ops,
        op_call_value,
        Ghost(|op: JitOp| op is CallValue),
    )
}

/// Whether any op is a `ToString` coercion.
pub fn has_coerce_s(ops: &[JitOp]) -> (r: bool)
    ensures
        r == any(ops@, |op: JitOp| op is CoerceString),
{
    any_op(
        ops,
        op_coerce_string,
        Ghost(|op: JitOp| op is CoerceString),
    )
}

/// Whether the module imports `coerce`.
pub fn has_coerce(ops: &[JitOp]) -> (r: bool)
    ensures
        r == any(ops@, |op: JitOp| op is Coerce),
{
    any_op(
        ops,
        op_coerce,
        Ghost(|op: JitOp| op is Coerce),
    )
}

/// Whether the module makes a call whose arguments are spilled, [`JitOp::VCall`] aside.
pub fn has_any_call(ops: &[JitOp]) -> (r: bool)
    ensures
        r == (any(ops@, |op: JitOp| is_call(op)) || any(ops@, |op: JitOp| op is CallProperty)
            || any(ops@, |op: JitOp| op is ConstructSuper) || any(
            ops@,
            |op: JitOp| op is CallValue,
        )),
{
    has_call(ops) || has_callprop(ops) || has_construct_super(ops) || has_call_value(ops)
}

/// Whether the module accesses domain memory inline.
pub fn has_dm(ops: &[JitOp]) -> (r: bool)
    ensures
        r == any(ops@, |op: JitOp| is_inline_dm(op)),
{
    any_op(
        ops,
        op_inline_dm,
        Ghost(|op: JitOp| is_inline_dm(op)),
    )
}

/// Whether `op` accesses domain memory by helper, which throws out of bounds.
pub fn is_dm_op(op: JitOp) -> (r: bool)
    ensures
        r == is_helper_dm(op),
{
    matches!(
        op,
        JitOp::CallHelper(DM_LOAD8 | DM_LOAD16 | DM_LOAD32) | JitOp::CallHelper3(DM_STORE_KIND, _)
    )
}

/// Whether any op is one by [`is_dm_op`].
pub fn dm_throws(ops: &[JitOp]) -> (r: bool)
    ensures
        r == any(ops@, |op: JitOp| is_helper_dm(op)),
{
    any_op(
        ops,
        is_dm_op,
        Ghost(|op: JitOp| is_helper_dm(op)),
    )
}

/// Whether `op` is a binary helper that may throw.
pub fn is_throwing_h2(op: JitOp) -> (r: bool)
    ensures
        r == is_h2_throw(op),
{
    matches!(op, JitOp::CallHelper2(H2_AS_TYPE_LATE | H2_IS_TYPE_LATE))
}

/// Whether any op is one by [`is_throwing_h2`].
pub fn h2_throws(ops: &[JitOp]) -> (r: bool)
    ensures
        r == any(ops@, |op: JitOp| is_h2_throw(op)),
{
    any_op(
        ops,
        is_throwing_h2,
        Ghost(|op: JitOp| is_h2_throw(op)),
    )
}

/// Whether `op` is a property or slot access that may throw.
pub fn is_throwing_prop(op: JitOp) -> (r: bool)
    ensures
        r == is_prop_throw(op),
{
    match op {
        JitOp::GetProperty(_) | JitOp::GetPropertyIc(_, _) | JitOp::GetPropertyFast(_, _)
        | JitOp::GetSlot(_, _) => true,
        JitOp::CallHelper3(h, _) => h <= SETSLOT_KIND_MAX,
        _ => false,
    }
}

/// Whether `op` may leave a pending error behind.
pub fn is_throwing_call_or_dm(op: JitOp) -> (r: bool)
    ensures
        r == can_throw(op),
{
    is_self_bailing_call(op) || matches!(op, JitOp::CoerceString | JitOp::Coerce(_)) || is_dm_op(op)
        || is_throwing_h2(op) || is_throwing_prop(op)
}

/// Whether the code of `op` itself checks for a pending error in a method without handlers.
pub fn is_self_bailing_call(op: JitOp) -> (r: bool)
    ensures
        r == bails_itself(op),
{
    matches!(
        op,
        JitOp::CallMethod(_, _, _) | JitOp::CallMethodDirect(_, _, _, _)
            | JitOp::CallProperty(_, _, _) | JitOp::ConstructSuper(_) | JitOp::CallValue(_)
            | JitOp::VCall(_, _, _, _) | JitOp::GetSlot(_, _)
    )
}

proof fn lemma_needs_fit(ops: Seq<JitOp>)
    requires
        all_count_helpers(ops),
    ensures
        largest(ops, |op: JitOp| helper_need(op)) <= u32::MAX,
        largest(ops, |op: JitOp| helper2_need(op)) <= u32::MAX,
{
    assert forall|i: int| 0 <= i < ops.len() implies helper_need(#[trigger] ops[i]) <= u32::MAX
        && helper2_need(ops[i]) <= u32::MAX by {
        assert(counts_helpers(ops[i]));
    }
    lemma_largest_bound(ops, |op: JitOp| helper_need(op), u32::MAX as nat);
    lemma_largest_bound(ops, |op: JitOp| helper2_need(op), u32::MAX as nat);
}

/// The union of two manifests covers both.
pub proof fn union_covers_both(a: Manifest, b: Manifest)
    ensures
        covers(union_of(a, b), a),
        covers(union_of(a, b), b),
{
    let x = a.set3_mask;
    let y = b.set3_mask;
    assert forall|k: u32| k < 32 && (has_kind(x, k) || has_kind(y, k)) implies has_kind(x | y, k) by {
        assert((x >> k) & 1 == 1 || (y >> k) & 1 == 1 ==> ((x | y) >> k) & 1 == 1) by (bit_vector)
            requires
                k < 32,
        ;
    }
    assert((x & 7 != 0 || y & 7 != 0) ==> (x | y) & 7 != 0) by (bit_vector);
}

/// Covering is transitive.
pub proof fn covering_is_transitive(a: Manifest, b: Manifest, c: Manifest)
    requires
        covers(a, b),
        covers(b, c),
    ensures
        covers(a, c),
{
}

/// The order of a union, and how often a manifest is folded in, do not matter.
pub proof fn union_is_a_join(a: Manifest, b: Manifest, c: Manifest)
    ensures
        union_of(a, b) == union_of(b, a),
        union_of(union_of(a, b), c) == union_of(a, union_of(b, c)),
        union_of(a, a) == a,
        union_of(empty_manifest(), a) == a,
{
    let x = a.set3_mask;
    let y = b.set3_mask;
    let z = c.set3_mask;
    assert(x | y == y | x) by (bit_vector);
    assert((x | y) | z == x | (y | z)) by (bit_vector);
    assert(x | x == x) by (bit_vector);
    assert(0u32 | x == x) by (bit_vector);
}

spec fn sets_property(op: JitOp) -> bool {
    op matches JitOp::CallHelper3(h, _) && h <= SETSLOT_KIND_MAX
}

proof fn lemma_mask_throws(ops: Seq<JitOp>)
    requires
        all_count_helpers(ops),
    ensures
        mask_of(ops) & 7 != 0 <==> any(ops, |op: JitOp| sets_property(op)),
    decreases ops.len(),
{
    if ops.len() == 0 {
        assert(0u32 & 7 == 0) by (bit_vector);
    } else {
        let front = ops.drop_last();
        assert forall|i: int| 0 <= i < front.len() implies counts_helpers(#[trigger] front[i]) by {
            assert(front[i] == ops[i]);
        }
        lemma_mask_throws(front);
        let rest = mask_of(front);
        let p = |op: JitOp| sets_property(op);
        lemma_any_push(ops, ops.len() - 1, p);
        assert(ops.take(ops.len() - 1) =~= front);
        assert(ops.take(ops.len() as int) =~= ops);
        assert(counts_helpers(ops.last()));
        if let Some(k) = set3_kind(ops.last()) {
            assert(k < 32 ==> ((rest | (1u32 << k)) & 7 != 0 <==> (rest & 7 != 0 || k <= 2)))
                by (bit_vector);
        }
    }
}

/// A module imports the check for a pending error just when one of its ops may leave one.
pub proof fn perr_iff_an_op_throws(ops: Seq<JitOp>)
    requires
        all_count_helpers(ops),
    ensures
        wants_perr(manifest_of(ops)) <==> any(ops, |op: JitOp| can_throw(op)),
{
    lemma_mask_throws(ops);
    let m = manifest_of(ops);
    if any(ops, |op: JitOp| can_throw(op)) {
        let i = choose|i: int| 0 <= i < ops.len() && can_throw(#[trigger] ops[i]);
        let op = ops[i];
        assert(can_throw(op));
        assert(sets_property(op) || !is_prop_throw(op) || is_getprop(op) || op is GetPropertyFast
            || op is GetSlot);
    }
}

/// Each op finds its binary helper among those of a manifest that covers the method.
pub proof fn helpers_stay_within(ops: Seq<JitOp>, m: Manifest, i: int)
    requires
        all_count_helpers(ops),
        covers(m, manifest_of(ops)),
        0 <= i < ops.len(),
    ensures
        helper_need(ops[i]) <= m.num_helpers,
        helper2_need(ops[i]) <= m.num_helpers2,
{
    lemma_needs_fit(ops);
    lemma_largest_covers(ops, |op: JitOp| helper_need(op), i);
    lemma_largest_covers(ops, |op: JitOp| helper2_need(op), i);
}

/// The imports of the module for `ops`.
pub fn manifest(ops: &[JitOp]) -> (r: Manifest)
    requires
        all_count_helpers(ops@),
    ensures
        r == manifest_of(ops@),
{
    proof {
        lemma_needs_fit(ops@);
    }
    Manifest {
        num_helpers: helper_count(ops),
        has_getprop: has_getprop(ops),
        has_getslot: has_getslot(ops),
        has_getprop_fast: has_getprop_fast(ops),
        num_helpers2: helper2_count(ops),
        set3_mask: set3_mask(ops),
        has_call: has_call(ops),
        has_callprop: has_callprop(ops),
        has_construct_super: has_construct_super(ops),
        has_call_value: has_call_value(ops),
        has_dm: has_dm(ops),
        dm_throws: dm_throws(ops),
        has_coerced_return: any_op(
            ops,
            op_coerced_return,
            Ghost(|op: JitOp| is_coerced_return(op)),
        ),
        has_script_globals: any_op(
            ops,
            op_get_script_globals,
            Ghost(|op: JitOp| op is GetScriptGlobals),
        ),
        has_push_strings: any_op(
            ops,
            op_push_string,
            Ghost(|op: JitOp| op is PushString),
        ),
        has_coerce_s: has_coerce_s(ops),
        has_coerce: has_coerce(ops),
        h2_throws: h2_throws(ops),
        has_vcall: any_op(
            ops,
            op_v_call,
            Ghost(|op: JitOp| op is VCall),
        ),
    }
}

/// The positions of the imports among the module's functions. An index whose import the
/// manifest lacks is a placeholder.
#[derive(Clone, Copy, Debug, PartialEq, Eq)]
pub struct Layout {
    pub gp_index: u32,
    pub gs_index: u32,
    pub gpf_index: u32,
    /// First of the binary helpers.
    pub t_base: u32,
    /// The ternary helpers by kind.
    pub set3_index: [u32; HELPER3_KINDS],
    pub call_index: u32,
    pub callprop_index: u32,
    pub csup_index: u32,
    pub callv_index: u32,
    pub pca_index: u32,
    pub perr_index: u32,
    pub coerce_index: u32,
    pub vc_index: u32,
    /// The first function that the module itself defines.
    pub run_index: u32,
    /// Whether the throwing ops of [`is_self_bailing_call`] check for a pending error
    /// themselves. Off in methods with exception handlers.
    pub inline_perr: bool,
}

pub open spec fn flag(b: bool) -> nat {
    if b {
        1
    } else {
        0
    }
}

/// How many ternary helpers of kind below `k` are imported.
pub open spec fn set3_before(mask: u32, k: int) -> nat
    decreases k,
{
    if k <= 0 {
        0
    } else {
        set3_before(mask, k - 1) + flag(has_kind(mask, (k - 1) as u32))
    }
}

/// Functions imported before the ternary helpers.
pub open spec fn before_set3(m: Manifest) -> nat {
    m.num_helpers as nat + flag(m.has_getprop) + flag(m.has_getslot) + flag(m.has_getprop_fast)
        + m.num_helpers2 as nat
}

/// Functions imported before `cm`.
pub open spec fn before_calls(m: Manifest) -> nat {
    before_set3(m) + set3_before(m.set3_mask, HELPER3_KINDS as int)
}

/// Functions imported before `pca`.
pub open spec fn before_pca(m: Manifest) -> nat {
    before_calls(m) + flag(m.has_call) + flag(m.has_callprop) + flag(m.has_construct_super)
        + flag(m.has_call_value)
}

/// Functions imported in all.
pub open spec fn import_count(m: Manifest) -> nat {
    before_pca(m) + flag(wants_pca(m)) + flag(wants_perr(m)) + flag(m.has_coerce) + flag(
        m.has_vcall,
    )
}

/// `lay` places the imports of `m` in their order.
pub open spec fn places(lay: Layout, m: Manifest) -> bool {
    &&& lay.gp_index == m.num_helpers
    &&& lay.gs_index == lay.gp_index + flag(m.has_getprop)
    &&& lay.gpf_index == lay.gs_index + flag(m.has_getslot)
    &&& lay.t_base == lay.gpf_index + flag(m.has_getprop_fast)
    &&& forall|k: int|
        0 <= k < HELPER3_KINDS ==> #[trigger] lay.set3_index@[k] == before_set3(m) + set3_before(
            m.set3_mask,
            k,
        )
    &&& lay.call_index == before_calls(m)
    &&& lay.callprop_index == lay.call_index + flag(m.has_call)
    &&& lay.csup_index == lay.callprop_index + flag(m.has_callprop)
    &&& lay.callv_index == lay.csup_index + flag(m.has_construct_super)
    &&& lay.pca_index == before_pca(m)
    &&& lay.perr_index == lay.pca_index + flag(wants_pca(m))
    &&& lay.coerce_index == lay.perr_index + flag(wants_perr(m))
    &&& lay.vc_index == lay.coerce_index + flag(m.has_coerce)
    &&& lay.run_index == import_count(m)
}

fn bit(b: bool) -> (r: u32)
    ensures
        r == flag(b),
{
    if b {
        1
    } else {
        0
    }
}

fn ternary_helpers(mask: u32) -> (r: u64)
    ensures
        r == set3_before(mask, HELPER3_KINDS as int),
        r <= HELPER3_KINDS,
{
    let mut r: u64 = 0;
    let mut k: u32 = 0;
    while k < HELPER3_KINDS as u32
        invariant
            k <= HELPER3_KINDS,
            r == set3_before(mask, k as int),
            r <= k,
        decreases HELPER3_KINDS - k,
    {
        r = r + one((mask >> k) & 1 == 1);
        k = k + 1;
    }
    r
}

fn helpers_and_calls(m: &Manifest) -> (r: u64)
    ensures
        r == before_pca(*m),
        r <= 2 * u32::MAX + 32,
{
    let a: u64 = one(m.has_getprop);
    let b: u64 = one(m.has_getslot);
    let c: u64 = one(m.has_getprop_fast);
    let t: u64 = ternary_helpers(m.set3_mask);
    let d: u64 = one(m.has_call);
    let e: u64 = one(m.has_callprop);
    let f: u64 = one(m.has_construct_super);
    let g: u64 = one(m.has_call_value);
    m.num_helpers as u64 + m.num_helpers2 as u64 + (a + b + c + t + d + e + f + g)
}

/// How many functions a module with manifest `m` imports.
pub fn imported_functions(m: &Manifest) -> (r: u64)
    ensures
        r == import_count(*m),
        r <= 2 * u32::MAX + 64,
{
    let before: u64 = helpers_and_calls(m);
    let a: u64 = one(m.needs_pca());
    let b: u64 = one(m.needs_perr());
    let c: u64 = one(m.has_coerce);
    let d: u64 = one(m.has_vcall);
    before + a + b + c + d
}

fn one(b: bool) -> (r: u64)
    ensures
        r == flag(b),
        r <= 1,
{
    if b {
        1
    } else {
        0
    }
}

/// Where the imports of the module for `ops` stand.
pub fn layout(ops: &[JitOp]) -> (r: Layout)
    requires
        all_count_helpers(ops@),
        import_count(manifest_of(ops@)) <= u32::MAX,
    ensures
        places(r, manifest_of(ops@)),
        r.inline_perr,
{
    layout_of(&manifest(ops))
}

/// Where the imports of manifest `m` stand.
pub fn layout_of(m: &Manifest) -> (r: Layout)
    requires
        import_count(*m) <= u32::MAX,
    ensures
        places(r, *m),
        r.inline_perr,
{
    let gp_index: u32 = m.num_helpers;
    let gs_index: u32 = gp_index + bit(m.has_getprop);
    let gpf_index: u32 = gs_index + bit(m.has_getslot);
    let t_base: u32 = gpf_index + bit(m.has_getprop_fast);
    let mut next: u32 = t_base + m.num_helpers2;
    let mut set3_index: [u32; HELPER3_KINDS] = [0, 0, 0, 0, 0];
    let mut k: usize = 0;
    proof {
        lemma_set3_steps(m.set3_mask);
    }
    while k < HELPER3_KINDS
        invariant
            k <= HELPER3_KINDS,
            import_count(*m) <= u32::MAX,
            next == before_set3(*m) + set3_before(m.set3_mask, k as int),
            set3_before(m.set3_mask, k as int) <= set3_before(m.set3_mask, HELPER3_KINDS as int),
            forall|j: int|
                0 <= j < HELPER3_KINDS ==> #[trigger] set3_before(m.set3_mask, j + 1)
                    <= set3_before(m.set3_mask, HELPER3_KINDS as int),
            forall|j: int|
                0 <= j < k ==> #[trigger] set3_index@[j] == before_set3(*m) + set3_before(
                    m.set3_mask,
                    j,
                ),
        decreases HELPER3_KINDS - k,
    {
        set3_index[k] = next;
        let used = (m.set3_mask >> (k as u32)) & 1 == 1;
        assert(set3_before(m.set3_mask, k as int + 1) <= set3_before(
            m.set3_mask,
            HELPER3_KINDS as int,
        ));
        assert(set3_before(m.set3_mask, k as int + 1) == set3_before(m.set3_mask, k as int) + flag(
            used,
        ));
        next = next + bit(used);
        k = k + 1;
    }
    let call_index: u32 = next;
    let callprop_index: u32 = call_index + bit(m.has_call);
    let csup_index: u32 = callprop_index + bit(m.has_callprop);
    let callv_index: u32 = csup_index + bit(m.has_construct_super);
    let pca_index: u32 = callv_index + bit(m.has_call_value);
    let perr_index: u32 = pca_index + bit(m.needs_pca());
    let coerce_index: u32 = perr_index + bit(m.needs_perr());
    let vc_index: u32 = coerce_index + bit(m.has_coerce);
    let run_index: u32 = vc_index + bit(m.has_vcall);
    Layout {
        gp_index,
        gs_index,
        gpf_index,
        t_base,
        set3_index,
        call_index,
        callprop_index,
        csup_index,
        callv_index,
        pca_index,
        perr_index,
        coerce_index,
        vc_index,
        run_index,
        inline_perr: true,
    }
}

/// The layout of manifest `m`; `handlers` says whether the method has exception handlers.
pub open spec fn layout_for(m: Manifest, handlers: bool) -> Layout {
    choose|lay: Layout| #[trigger] places(lay, m) && lay.inline_perr == !handlers
}

/// A manifest leaves no choice in where its imports stand.
pub proof fn one_layout_per_manifest(m: Manifest, a: Layout, b: Layout)
    requires
        places(a, m),
        places(b, m),
        a.inline_perr == b.inline_perr,
    ensures
        a == b,
{
    assert(a.set3_index@ =~= b.set3_index@);
    assert(a.set3_index =~= b.set3_index);
}

proof fn lemma_set3_steps(mask: u32)
    ensures
        forall|j: int|
            0 <= j < HELPER3_KINDS ==> #[trigger] set3_before(mask, j + 1) <= set3_before(
                mask,
                HELPER3_KINDS as int,
            ),
{
    reveal_with_fuel(set3_before, 6);
}

/// Whether the module crosses into helpers much more often than it computes inline.
pub open spec fn crossing(op: JitOp) -> bool {
    op is GetProperty || op is GetSlot || op is CallMethod || op is CallHelper || op is CallHelper2
        || op is CallHelper3 || op is VCall
}

/// Ops that run without leaving the module, save on rare operands.
pub open spec fn inline_win(op: JitOp) -> bool {
    op is CmpNum || op is BitOpInt || op is ArithInt || op is ArithNum || op is CoerceInt
        || op is CoerceBool || op is IncDecLocalIValue || op is AddIBoxed || op is SubtractIBoxed
        || op is MultiplyIBoxed || op is IncrementIBoxed || op is DecrementIBoxed || is_inline_dm(
        op,
    )
}

/// How many ops of `ops` satisfy `p`.
pub open spec fn count(ops: Seq<JitOp>, p: spec_fn(JitOp) -> bool) -> nat
    decreases ops.len(),
{
    if ops.len() == 0 {
        0
    } else {
        count(ops.drop_last(), p) + flag(p(ops.last()))
    }
}

/// Whether a boxed method is mostly helper calls: four or more, and more than twice as many
/// as inline computations.
pub fn helper_dominated(ops: &[JitOp]) -> (r: bool)
    ensures
        r == (count(ops@, |op: JitOp| crossing(op)) >= 4 && count(ops@, |op: JitOp| crossing(op))
            > 2 * count(ops@, |op: JitOp| inline_win(op))),
{
    let ghost p = |op: JitOp| crossing(op);
    let ghost q = |op: JitOp| inline_win(op);
    let mut crossings: usize = 0;
    let mut wins: usize = 0;
    let mut i: usize = 0;
    while i < ops.len()
        invariant
            i <= ops@.len(),
            p == (|op: JitOp| crossing(op)),
            q == (|op: JitOp| inline_win(op)),
            crossings == count(ops@.take(i as int), p),
            wins == count(ops@.take(i as int), q),
            crossings + wins <= i,
        decreases ops@.len() - i,
    {
        proof {
            assert(ops@.take(i as int + 1).drop_last() =~= ops@.take(i as int));
        }
        match ops[i] {
            JitOp::GetProperty(_) | JitOp::GetSlot(_, _) | JitOp::CallMethod(_, _, _)
            | JitOp::CallHelper(_) | JitOp::CallHelper2(_) | JitOp::CallHelper3(_, _)
            | JitOp::VCall(_, _, _, _) => {
                crossings = crossings + 1;
            },
            JitOp::CmpNum(_) | JitOp::BitOpInt(_) | JitOp::ArithInt(_) | JitOp::ArithNum(_)
            | JitOp::CoerceInt(_) | JitOp::CoerceBool | JitOp::IncDecLocalIValue(_, _)
            | JitOp::AddIBoxed | JitOp::SubtractIBoxed | JitOp::MultiplyIBoxed
            | JitOp::IncrementIBoxed | JitOp::DecrementIBoxed | JitOp::DmLoad(_)
            | JitOp::DmStore(_) | JitOp::DmLoadF(_) | JitOp::DmStoreF(_) => {
                wins = wins + 1;
            },
            _ => {},
        }
        i = i + 1;
    }
    assert(ops@.take(i as int) =~= ops@);
    crossings >= 4 && crossings > wins && crossings - wins > wins
}

} // verus!
