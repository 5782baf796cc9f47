//! Whole modules: one method, or a generation of methods behind a dispatcher.

use crate::lower::body;
use crate::lower::body::{emit_body, is_lowerable, Ctx};
use crate::lower::encode;
use crate::lower::encode::{
    add_body, add_export, add_function, add_import, add_segment, add_table, add_type, finish,
    function, new_code, new_elements, new_exports, new_functions, new_imports, new_module,
    new_tables, new_types, repeat_type, room_for, write_code, write_elements, write_exports,
    write_functions, write_imports, write_tables, write_types, Body, Entity, Export, FuncTy,
    Import, MemTy, Part, Segment, TableTy, MAX_FUNCTIONS, MAX_IMPORTS, MAX_MODULE, MAX_NAME,
};
use crate::lower::linear;
use crate::lower::manifest;
use crate::lower::manifest::{layout_of, Layout, Manifest, HELPER3_KINDS};
use crate::lower::op::{ExcRange, JitOp, SwitchTable};
use crate::lower::wasm;
use crate::lower::wasm::{Instr, Target, ValTy, SPILL_POOL};
use vstd::prelude::*;

verus! {

// Types.

/// A function type over one parameter type and one result type.
pub open spec fn func_ty(param: ValTy, params: nat, result: ValTy, results: nat) -> FuncTy {
    FuncTy {
        params: Seq::new(params, |k: int| param),
        results: Seq::new(results, |k: int| result),
    }
}

/// The types of every module: 0 is a method, 1 to 5 and 7 are helpers, 6 is the dispatcher of
/// a generation.
pub open spec fn all_types() -> Seq<FuncTy> {
    seq![
        func_ty(ValTy::I32, 5, ValTy::I64, 1),
        func_ty(ValTy::I64, 1, ValTy::I64, 1),
        func_ty(ValTy::I64, 2, ValTy::I64, 1),
        func_ty(ValTy::I64, 3, ValTy::I64, 1),
        func_ty(ValTy::I64, 1, ValTy::I64, 0),
        func_ty(ValTy::I64, 0, ValTy::I32, 1),
        func_ty(ValTy::I32, 6, ValTy::I64, 1),
        func_ty(ValTy::I64, 4, ValTy::I64, 1),
    ]
}

fn add_func_ty(
    s: &mut wasm_encoder::TypeSection,
    param: ValTy,
    params: usize,
    result: ValTy,
    results: usize,
)
    requires
        encode::types_in(*old(s)).len() < 1000,
        params <= 1000,
        results <= 1000,
    ensures
        encode::types_in(*final(s)) == encode::types_in(*old(s)).push(
            func_ty(param, params as nat, result, results as nat),
        ),
{
    let p = repeat_type(param, params);
    let q = repeat_type(result, results);
    proof {
        let f = |t: wasm_encoder::ValType| encode::type_in(t);
        assert(p@.map_values(f).len() == p@.len());
        assert(q@.map_values(f).len() == q@.len());
    }
    add_type(s, p, q);
}

/// The type section.
fn emit_types() -> (s: wasm_encoder::TypeSection)
    ensures
        encode::types_in(s) == all_types(),
{
    let mut s = new_types();
    add_func_ty(&mut s, ValTy::I32, 5, ValTy::I64, 1);
    add_func_ty(&mut s, ValTy::I64, 1, ValTy::I64, 1);
    add_func_ty(&mut s, ValTy::I64, 2, ValTy::I64, 1);
    add_func_ty(&mut s, ValTy::I64, 3, ValTy::I64, 1);
    add_func_ty(&mut s, ValTy::I64, 1, ValTy::I64, 0);
    add_func_ty(&mut s, ValTy::I64, 0, ValTy::I32, 1);
    add_func_ty(&mut s, ValTy::I32, 6, ValTy::I64, 1);
    add_func_ty(&mut s, ValTy::I64, 4, ValTy::I64, 1);
    s
}

// Imports.

pub open spec fn digit(d: nat) -> char {
    (('0' as u32) + d) as char
}

/// The decimal digits of `n`.
pub open spec fn decimal(n: nat) -> Seq<char>
    decreases n,
{
    if n < 10 {
        seq![digit(n)]
    } else {
        decimal(n / 10).push(digit(n % 10))
    }
}

/// The name of the `n`th helper of a family.
pub open spec fn numbered(family: char, n: nat) -> Seq<char> {
    seq![family] + decimal(n)
}

fn digit_text(d: u32) -> (r: &'static str)
    requires
        d < 10,
    ensures
        r@ == seq![digit(d as nat)],
{
    proof {
        reveal_strlit("0");
        reveal_strlit("1");
        reveal_strlit("2");
        reveal_strlit("3");
        reveal_strlit("4");
        reveal_strlit("5");
        reveal_strlit("6");
        reveal_strlit("7");
        reveal_strlit("8");
        reveal_strlit("9");
    }
    let r = match d {
        0 => "0",
        1 => "1",
        2 => "2",
        3 => "3",
        4 => "4",
        5 => "5",
        6 => "6",
        7 => "7",
        8 => "8",
        _ => "9",
    };
    assert(r@ =~= seq![digit(d as nat)]);
    r
}

/// `text` with the decimal digits of `n` behind it.
fn with_number(text: &str, n: u32) -> (r: String)
    ensures
        r@ == text@ + decimal(n as nat),
    decreases n,
{
    let mut r = if n < 10 {
        text.to_string()
    } else {
        with_number(text, n / 10)
    };
    r.append(digit_text(n % 10));
    assert(n < 10 ==> n % 10 == n);
    assert(r@ =~= text@ + decimal(n as nat));
    r
}

/// The name of the `n`th helper of a family.
pub(crate) fn numbered_name(family: &str, n: u32) -> (r: String)
    requires
        family@.len() == 1,
    ensures
        r@ == numbered(family@[0], n as nat),
{
    assert(family@ =~= seq![family@[0]]);
    with_number(family, n)
}

proof fn lemma_decimal_short(n: nat, digits: nat)
    requires
        n < vstd::arithmetic::power::pow(10, digits),
        digits > 0,
    ensures
        decimal(n).len() <= digits,
    decreases n,
{
    if n >= 10 {
        if digits == 1 {
            vstd::arithmetic::power::lemma_pow1(10);
        } else {
            let d = (digits - 1) as nat;
            vstd::arithmetic::power::lemma_pow_adds(10, 1, d);
            vstd::arithmetic::power::lemma_pow1(10);
            assert(n / 10 < vstd::arithmetic::power::pow(10, d)) by (nonlinear_arith)
                requires
                    n < 10 * vstd::arithmetic::power::pow(10, d),
            ;
            lemma_decimal_short(n / 10, d);
        }
    }
}

/// A function import.
pub open spec fn func(name: Seq<char>, ty: u32) -> Import {
    Import { module: "env"@, name, entity: Entity::Func(ty) }
}

/// The helpers of a family below `n`.
pub open spec fn family(name: char, n: nat, ty: u32) -> Seq<Import> {
    Seq::new(n, |i: int| func(numbered(name, i as nat), ty))
}

/// A function import, if it is used.
#[verifier::opaque]
pub open spec fn optional(used: bool, name: Seq<char>, ty: u32) -> Seq<Import> {
    if used {
        seq![func(name, ty)]
    } else {
        Seq::empty()
    }
}

/// The ternary helpers of kind below `k`.
pub open spec fn ternary(mask: u32, k: int) -> Seq<Import>
    decreases k,
{
    if k <= 0 {
        Seq::empty()
    } else {
        ternary(mask, k - 1) + optional(
            manifest::has_kind(mask, (k - 1) as u32),
            numbered('s', (k - 1) as nat),
            3,
        )
    }
}

/// The helpers of manifest `m`.
pub open spec fn helper_imports(m: Manifest) -> Seq<Import> {
    family('h', m.num_helpers as nat, 1) + optional(m.has_getprop, "gp"@, 2) + optional(
        m.has_getslot,
        "gs"@,
        2,
    ) + optional(m.has_getprop_fast, "gpf"@, 3) + family('t', m.num_helpers2 as nat, 2) + ternary(
        m.set3_mask,
        HELPER3_KINDS as int,
    )
}

/// `before`, then the calls of manifest `m` and what belongs to them.
pub open spec fn and_calls(before: Seq<Import>, m: Manifest) -> Seq<Import> {
    before + optional(m.has_call, "cm"@, 3) + optional(m.has_callprop, "cp"@, 3) + optional(
        m.has_construct_super,
        "csup"@,
        2,
    ) + optional(m.has_call_value, "callv"@, 3) + optional(manifest::wants_pca(m), "pca"@, 4)
        + optional(manifest::wants_perr(m), "perr"@, 5) + optional(m.has_coerce, "coerce"@, 2)
        + optional(m.has_vcall, "vc"@, 7)
}

/// The function imports of manifest `m`.
pub open spec fn func_imports(m: Manifest) -> Seq<Import> {
    and_calls(helper_imports(m), m)
}

/// The second memory is imported.
pub open spec fn wants_dm(m: Manifest, target: Target) -> bool {
    m.has_dm || target.web || (m.has_getslot && target.slots is Some)
}

/// The memory of the frames.
pub open spec fn frame_memory() -> Import {
    Import {
        module: "env"@,
        name: "memory"@,
        entity: Entity::Memory(MemTy { min: 1, max: None, shared: false }),
    }
}

/// The second memory: shared, and so with a limit, on the web.
pub open spec fn dm_memory(target: Target) -> Import {
    Import {
        module: "env"@,
        name: "dm"@,
        entity: Entity::Memory(
            MemTy {
                min: 1,
                max: if target.web {
                    Some(65536u64)
                } else {
                    None
                },
                shared: target.web,
            },
        ),
    }
}

/// All imports of manifest `m`.
pub open spec fn all_imports(m: Manifest, target: Target) -> Seq<Import> {
    func_imports(m).push(frame_memory()) + if wants_dm(m, target) {
        seq![dm_memory(target)]
    } else {
        Seq::empty()
    }
}

/// `whole` holds the import at `index`, if it is used.
pub open spec fn stands_at(
    whole: Seq<Import>,
    used: bool,
    index: int,
    name: Seq<char>,
    ty: u32,
) -> bool {
    used ==> 0 <= index < whole.len() && whole[index] == func(name, ty)
}

proof fn lemma_stands(before: Seq<Import>, used: bool, name: Seq<char>, ty: u32)
    ensures
        stands_at(before + optional(used, name, ty), used, before.len() as int, name, ty),
        (before + optional(used, name, ty)).len() == before.len() + manifest::flag(used),
        forall|i: int|
            0 <= i < before.len() ==> #[trigger] (before + optional(used, name, ty))[i]
                == before[i],
{
    reveal(optional);
}

proof fn lemma_ternary_stands(mask: u32, n: int, k: int)
    requires
        0 <= k < n,
        manifest::has_kind(mask, k as u32),
    ensures
        0 <= manifest::set3_before(mask, k) < ternary(mask, n).len(),
        ternary(mask, n)[manifest::set3_before(mask, k) as int] == func(numbered('s', k as nat), 3),
    decreases n,
{
    lemma_ternary_few(mask, n - 1);
    lemma_ternary_few(mask, k);
    reveal(optional);
    if k < n - 1 {
        lemma_ternary_stands(mask, n - 1, k);
    }
}

/// `whole` starts with `part`.
spec fn starts_with(whole: Seq<Import>, part: Seq<Import>) -> bool {
    part.len() <= whole.len() && forall|i: int| 0 <= i < part.len() ==> #[trigger] whole[i] == part[i]
}

proof fn lemma_more(
    whole: Seq<Import>,
    part: Seq<Import>,
    used: bool,
    index: int,
    name: Seq<char>,
    ty: u32,
)
    requires
        starts_with(whole, part),
        stands_at(part, used, index, name, ty),
    ensures
        stands_at(whole, used, index, name, ty),
{
}

proof fn lemma_calls_stand(before: Seq<Import>, m: Manifest, lay: Layout)
    requires
        manifest::places(lay, m),
        before.len() == lay.call_index,
    ensures
        and_calls(before, m).len() == lay.run_index,
        starts_with(and_calls(before, m), before),
        stands_at(and_calls(before, m), m.has_call, lay.call_index as int, "cm"@, 3),
        stands_at(and_calls(before, m), m.has_callprop, lay.callprop_index as int, "cp"@, 3),
        stands_at(and_calls(before, m), m.has_construct_super, lay.csup_index as int, "csup"@, 2),
        stands_at(and_calls(before, m), m.has_call_value, lay.callv_index as int, "callv"@, 3),
        stands_at(and_calls(before, m), manifest::wants_pca(m), lay.pca_index as int, "pca"@, 4),
        stands_at(and_calls(before, m), manifest::wants_perr(m), lay.perr_index as int, "perr"@, 5),
        stands_at(and_calls(before, m), m.has_coerce, lay.coerce_index as int, "coerce"@, 2),
        stands_at(and_calls(before, m), m.has_vcall, lay.vc_index as int, "vc"@, 7),
{
    let s6 = before + optional(m.has_call, "cm"@, 3);
    let s7 = s6 + optional(m.has_callprop, "cp"@, 3);
    let s8 = s7 + optional(m.has_construct_super, "csup"@, 2);
    let s9 = s8 + optional(m.has_call_value, "callv"@, 3);
    let s10 = s9 + optional(manifest::wants_pca(m), "pca"@, 4);
    let s11 = s10 + optional(manifest::wants_perr(m), "perr"@, 5);
    let s12 = s11 + optional(m.has_coerce, "coerce"@, 2);
    let s13 = s12 + optional(m.has_vcall, "vc"@, 7);
    lemma_stands(before, m.has_call, "cm"@, 3);
    lemma_stands(s6, m.has_callprop, "cp"@, 3);
    lemma_stands(s7, m.has_construct_super, "csup"@, 2);
    lemma_stands(s8, m.has_call_value, "callv"@, 3);
    lemma_stands(s9, manifest::wants_pca(m), "pca"@, 4);
    lemma_stands(s10, manifest::wants_perr(m), "perr"@, 5);
    lemma_stands(s11, m.has_coerce, "coerce"@, 2);
    lemma_stands(s12, m.has_vcall, "vc"@, 7);
    assert(s13 == and_calls(before, m));
    assert(s6.len() == lay.callprop_index);
    assert(s7.len() == lay.csup_index);
    assert(s8.len() == lay.callv_index);
    assert(s9.len() == lay.pca_index);
    assert(s10.len() == lay.perr_index);
    assert(s11.len() == lay.coerce_index);
    assert(s12.len() == lay.vc_index);
    lemma_more(s13, s6, m.has_call, lay.call_index as int, "cm"@, 3);
    lemma_more(s13, s7, m.has_callprop, lay.callprop_index as int, "cp"@, 3);
    lemma_more(s13, s8, m.has_construct_super, lay.csup_index as int, "csup"@, 2);
    lemma_more(s13, s9, m.has_call_value, lay.callv_index as int, "callv"@, 3);
    lemma_more(s13, s10, manifest::wants_pca(m), lay.pca_index as int, "pca"@, 4);
    lemma_more(s13, s11, manifest::wants_perr(m), lay.perr_index as int, "perr"@, 5);
    lemma_more(s13, s12, m.has_coerce, lay.coerce_index as int, "coerce"@, 2);
}

proof fn lemma_helpers_stand(m: Manifest, lay: Layout)
    requires
        manifest::places(lay, m),
    ensures
        helper_imports(m).len() == lay.call_index,
        forall|i: int|
            0 <= i < m.num_helpers ==> #[trigger] helper_imports(m)[i] == func(
                numbered('h', i as nat),
                1,
            ),
        forall|i: int|
            0 <= i < m.num_helpers2 ==> helper_imports(m)[lay.t_base + i] == func(
                #[trigger] numbered('t', i as nat),
                2,
            ),
        forall|k: int|
            0 <= k < HELPER3_KINDS && manifest::has_kind(m.set3_mask, k as u32)
                ==> #[trigger] lay.set3_index@[k] < lay.call_index && helper_imports(
                m,
            )[lay.set3_index@[k] as int] == func(numbered('s', k as nat), 3),
        stands_at(helper_imports(m), m.has_getprop, lay.gp_index as int, "gp"@, 2),
        stands_at(helper_imports(m), m.has_getslot, lay.gs_index as int, "gs"@, 2),
        stands_at(helper_imports(m), m.has_getprop_fast, lay.gpf_index as int, "gpf"@, 3),
{
    let s0 = family('h', m.num_helpers as nat, 1);
    let s1 = s0 + optional(m.has_getprop, "gp"@, 2);
    let s2 = s1 + optional(m.has_getslot, "gs"@, 2);
    let s3 = s2 + optional(m.has_getprop_fast, "gpf"@, 3);
    let s4 = s3 + family('t', m.num_helpers2 as nat, 2);
    let s5 = s4 + ternary(m.set3_mask, HELPER3_KINDS as int);
    lemma_stands(s0, m.has_getprop, "gp"@, 2);
    lemma_stands(s1, m.has_getslot, "gs"@, 2);
    lemma_stands(s2, m.has_getprop_fast, "gpf"@, 3);
    lemma_ternary_few(m.set3_mask, HELPER3_KINDS as int);
    assert forall|i: int| 0 <= i < m.num_helpers2 implies helper_imports(m)[lay.t_base + i] == func(
        #[trigger] numbered('t', i as nat),
        2,
    ) by {
        assert(s4[lay.t_base + i] == family('t', m.num_helpers2 as nat, 2)[i]);
    }
    assert forall|k: int|
        0 <= k < HELPER3_KINDS && manifest::has_kind(
            m.set3_mask,
            k as u32,
        ) implies #[trigger] lay.set3_index@[k] < lay.call_index && helper_imports(
        m,
    )[lay.set3_index@[k] as int] == func(numbered('s', k as nat), 3) by {
        lemma_ternary_stands(m.set3_mask, HELPER3_KINDS as int, k);
        let at = manifest::set3_before(m.set3_mask, k) as int;
        assert(s5[lay.set3_index@[k] as int] == ternary(m.set3_mask, HELPER3_KINDS as int)[at]);
    }
}

/// The index that a layout gives an import is its place among the imported functions.
pub proof fn layout_matches_imports(m: Manifest, lay: Layout)
    requires
        manifest::places(lay, m),
    ensures
        func_imports(m).len() == lay.run_index,
        forall|i: int|
            0 <= i < m.num_helpers ==> #[trigger] func_imports(m)[i] == func(
                numbered('h', i as nat),
                1,
            ),
        forall|i: int|
            0 <= i < m.num_helpers2 ==> func_imports(m)[lay.t_base + i] == func(
                #[trigger] numbered('t', i as nat),
                2,
            ),
        forall|k: int|
            0 <= k < HELPER3_KINDS && manifest::has_kind(m.set3_mask, k as u32) ==> func_imports(
                m,
            )[#[trigger] lay.set3_index@[k] as int] == func(numbered('s', k as nat), 3),
        stands_at(func_imports(m), m.has_getprop, lay.gp_index as int, "gp"@, 2),
        stands_at(func_imports(m), m.has_getslot, lay.gs_index as int, "gs"@, 2),
        stands_at(func_imports(m), m.has_getprop_fast, lay.gpf_index as int, "gpf"@, 3),
        stands_at(func_imports(m), m.has_call, lay.call_index as int, "cm"@, 3),
        stands_at(func_imports(m), m.has_callprop, lay.callprop_index as int, "cp"@, 3),
        stands_at(func_imports(m), m.has_construct_super, lay.csup_index as int, "csup"@, 2),
        stands_at(func_imports(m), m.has_call_value, lay.callv_index as int, "callv"@, 3),
        stands_at(func_imports(m), manifest::wants_pca(m), lay.pca_index as int, "pca"@, 4),
        stands_at(func_imports(m), manifest::wants_perr(m), lay.perr_index as int, "perr"@, 5),
        stands_at(func_imports(m), m.has_coerce, lay.coerce_index as int, "coerce"@, 2),
        stands_at(func_imports(m), m.has_vcall, lay.vc_index as int, "vc"@, 7),
{
    let h = helper_imports(m);
    let all = func_imports(m);
    lemma_helpers_stand(m, lay);
    lemma_calls_stand(h, m, lay);
    lemma_more(all, h, m.has_getprop, lay.gp_index as int, "gp"@, 2);
    lemma_more(all, h, m.has_getslot, lay.gs_index as int, "gs"@, 2);
    lemma_more(all, h, m.has_getprop_fast, lay.gpf_index as int, "gpf"@, 3);
    assert(lay.t_base + m.num_helpers2 <= lay.call_index);
}

/// Every name is short enough for the builder.
#[verifier::opaque]
spec fn short(imports: Seq<Import>) -> bool {
    forall|k: int|
        0 <= k < imports.len() ==> (#[trigger] imports[k]).module.len() <= MAX_MODULE
            && imports[k].name.len() <= MAX_NAME
}

fn add_family(s: &mut wasm_encoder::ImportSection, name: &str, n: u32, ty: u32)
    requires
        name@.len() == 1,
        encode::imports_in(*old(s)).len() + n <= u32::MAX,
        short(encode::imports_in(*old(s))),
    ensures
        encode::imports_in(*final(s)) == encode::imports_in(*old(s)) + family(
            name@[0],
            n as nat,
            ty,
        ),
        short(encode::imports_in(*final(s))),
{
    reveal(short);
    let mut i: u32 = 0;
    while i < n
        invariant
            i <= n,
            name@.len() == 1,
            encode::imports_in(*old(s)).len() + n <= u32::MAX,
            encode::imports_in(*s) == encode::imports_in(*old(s)) + family(name@[0], i as nat, ty),
            short(encode::imports_in(*s)),
        decreases n - i,
    {
        proof {
            reveal(short);
            assert(i < vstd::arithmetic::power::pow(10, 10)) by {
                reveal_with_fuel(vstd::arithmetic::power::pow, 11);
            }
            lemma_decimal_short(i as nat, 10);
            reveal_strlit("env");
        }
        add_import(s, "env", numbered_name(name, i).as_str(), Entity::Func(ty));
        i = i + 1;
    }
}

fn add_optional(s: &mut wasm_encoder::ImportSection, used: bool, name: &str, ty: u32)
    requires
        encode::imports_in(*old(s)).len() < u32::MAX,
        short(encode::imports_in(*old(s))),
        name@.len() <= MAX_NAME,
    ensures
        encode::imports_in(*final(s)) == encode::imports_in(*old(s)) + optional(used, name@, ty),
        optional(used, name@, ty).len() == manifest::flag(used),
        short(encode::imports_in(*final(s))),
{
    reveal(short);
    reveal(optional);
    proof {
        reveal_strlit("env");
    }
    if used {
        add_import(s, "env", name, Entity::Func(ty));
    }
}

proof fn lemma_ternary_few(mask: u32, k: int)
    requires
        0 <= k,
    ensures
        ternary(mask, k).len() == manifest::set3_before(mask, k),
        ternary(mask, k).len() <= k,
    decreases k,
{
    reveal(optional);
    if k > 0 {
        lemma_ternary_few(mask, k - 1);
    }
}

fn add_ternary(s: &mut wasm_encoder::ImportSection, mask: u32)
    requires
        encode::imports_in(*old(s)).len() + HELPER3_KINDS <= u32::MAX,
        short(encode::imports_in(*old(s))),
    ensures
        encode::imports_in(*final(s)) == encode::imports_in(*old(s)) + ternary(
            mask,
            HELPER3_KINDS as int,
        ),
        short(encode::imports_in(*final(s))),
{
    let mut k: u32 = 0;
    while k < HELPER3_KINDS as u32
        invariant
            k <= HELPER3_KINDS,
            encode::imports_in(*old(s)).len() + HELPER3_KINDS <= u32::MAX,
            encode::imports_in(*s) == encode::imports_in(*old(s)) + ternary(mask, k as int),
            short(encode::imports_in(*s)),
        decreases HELPER3_KINDS - k,
    {
        proof {
            lemma_ternary_few(mask, k as int);
            vstd::arithmetic::power::lemma_pow1(10);
            lemma_decimal_short(k as nat, 1);
            reveal_strlit("s");
        }
        let used = (mask >> k) & 1 == 1;
        add_optional(s, used, numbered_name("s", k).as_str(), 3);
        k = k + 1;
    }
}

fn add_helpers(s: &mut wasm_encoder::ImportSection, m: &Manifest)
    requires
        encode::imports_in(*old(s)).len() == 0,
        short(encode::imports_in(*old(s))),
        manifest::import_count(*m) <= MAX_IMPORTS,
    ensures
        encode::imports_in(*final(s)) == helper_imports(*m),
        encode::imports_in(*final(s)).len() == manifest::before_calls(*m),
        short(encode::imports_in(*final(s))),
{
    proof {
        reveal_strlit("gp");
        reveal_strlit("gs");
        reveal_strlit("gpf");
        lemma_ternary_few(m.set3_mask, HELPER3_KINDS as int);
        assert(encode::imports_in(*s) + family('h', m.num_helpers as nat, 1) =~= family(
            'h',
            m.num_helpers as nat,
            1,
        ));
    }
    proof {
        reveal_strlit("h");
        reveal_strlit("t");
    }
    add_family(s, "h", m.num_helpers, 1);
    add_optional(s, m.has_getprop, "gp", 2);
    add_optional(s, m.has_getslot, "gs", 2);
    add_optional(s, m.has_getprop_fast, "gpf", 3);
    add_family(s, "t", m.num_helpers2, 2);
    add_ternary(s, m.set3_mask);
}

fn add_calls(s: &mut wasm_encoder::ImportSection, m: &Manifest)
    requires
        encode::imports_in(*old(s)).len() == manifest::before_calls(*m),
        short(encode::imports_in(*old(s))),
        manifest::import_count(*m) <= MAX_IMPORTS,
    ensures
        encode::imports_in(*final(s)) == and_calls(encode::imports_in(*old(s)), *m),
        encode::imports_in(*final(s)).len() == manifest::import_count(*m),
        short(encode::imports_in(*final(s))),
{
    proof {
        reveal_strlit("cm");
        reveal_strlit("cp");
        reveal_strlit("csup");
        reveal_strlit("callv");
        reveal_strlit("pca");
        reveal_strlit("perr");
        reveal_strlit("coerce");
        reveal_strlit("vc");
    }
    add_optional(s, m.has_call, "cm", 3);
    add_optional(s, m.has_callprop, "cp", 3);
    add_optional(s, m.has_construct_super, "csup", 2);
    add_optional(s, m.has_call_value, "callv", 3);
    add_optional(s, m.needs_pca(), "pca", 4);
    add_optional(s, m.needs_perr(), "perr", 5);
    add_optional(s, m.has_coerce, "coerce", 2);
    add_optional(s, m.has_vcall, "vc", 7);
}

/// The import section of manifest `m`: its functions in the order of their indices, then the
/// memory of the frames, then the second memory where it is needed.
fn emit_imports(m: &Manifest, target: &Target) -> (s: wasm_encoder::ImportSection)
    requires
        manifest::import_count(*m) + 2 <= MAX_IMPORTS,
    ensures
        encode::imports_in(s) == all_imports(*m, *target),
        encode::imports_in(s).len() <= MAX_IMPORTS,
        forall|k: int|
            0 <= k < encode::imports_in(s).len() ==> (#[trigger] encode::imports_in(s)[k]).module.len()
                <= MAX_MODULE && encode::imports_in(s)[k].name.len() <= MAX_NAME,
{
    proof {
        reveal_strlit("env");
        reveal_strlit("memory");
        reveal_strlit("dm");
        reveal(short);
    }
    let mut s = new_imports();
    add_helpers(&mut s, m);
    add_calls(&mut s, m);
    add_import(
        &mut s,
        "env",
        "memory",
        Entity::Memory(MemTy { min: 1, max: None, shared: false }),
    );
    if m.has_dm || target.web || (m.has_getslot && target.slots.is_some()) {
        let max: Option<u64> = if target.web {
            Some(65536)
        } else {
            None
        };
        add_import(
            &mut s,
            "env",
            "dm",
            Entity::Memory(MemTy { min: 1, max, shared: target.web }),
        );
    }
    s
}

// Modules.

/// The locals of a method: scratch space, the number of the next block, and spill slots.
pub open spec fn method_locals() -> Seq<(u32, ValTy)> {
    seq![(3, ValTy::I32), (2, ValTy::I64), (1, ValTy::F64), (SPILL_POOL, ValTy::I64)]
}

/// The function of one method in a module whose imports are those of `m`.
pub open spec fn method_body(
    ops: Seq<JitOp>,
    switches: Seq<SwitchTable>,
    exceptions: Seq<ExcRange>,
    m: Manifest,
    target: Target,
) -> Option<Body> {
    let lay = manifest::layout_for(m, exceptions.len() > 0);
    match body::body_code(Ctx { ops, switches, exceptions, lay, target }) {
        Some(code) => Some(Body { locals: method_locals(), code }),
        None => None,
    }
}

/// The entry point of a module.
pub open spec fn run_export(index: nat) -> Export {
    Export { name: "run"@, index: index as u32 }
}

/// The module of one method; `None` if it declines.
pub open spec fn module_parts(
    ops: Seq<JitOp>,
    switches: Seq<SwitchTable>,
    exceptions: Seq<ExcRange>,
    target: Target,
) -> Option<Seq<Part>> {
    let m = manifest::manifest_of(ops);
    if ops.len() == 0 || !body::lowerable(ops, switches) || manifest::import_count(m) + 2
        > MAX_IMPORTS {
        None
    } else {
        match method_body(ops, switches, exceptions, m, target) {
            None => None,
            Some(body) => if encode::bodies_room(seq![body]) > u32::MAX {
                None
            } else {
                Some(
                    seq![
                        Part::Types(all_types()),
                        Part::Imports(all_imports(m, target)),
                        Part::Functions(seq![0]),
                        Part::Exports(seq![run_export(manifest::import_count(m))]),
                        Part::Code(seq![body]),
                    ],
                )
            },
        }
    }
}

/// A method's code and the room that it takes, against the imports of `m`.
fn method_code(
    ops: &[JitOp],
    switches: &[SwitchTable],
    exceptions: &[ExcRange],
    m: &Manifest,
    target: &Target,
) -> (r: Option<Vec<Instr>>)
    requires
        body::lowerable(ops@, switches@),
        manifest::covers(*m, manifest::manifest_of(ops@)),
        manifest::import_count(*m) <= u32::MAX,
    ensures
        match method_body(ops@, switches@, exceptions@, *m, *target) {
            Some(body) => r matches Some(code) && body == (Body {
                locals: method_locals(),
                code: code@,
            }),
            None => r is None,
        },
{
    let mut lay = layout_of(m);
    lay.inline_perr = exceptions.len() == 0;
    proof {
        let chosen = manifest::layout_for(*m, exceptions@.len() > 0);
        assert(manifest::places(lay, *m));
        manifest::one_layout_per_manifest(*m, lay, chosen);
        assert forall|i: int| 0 <= i < ops@.len() implies linear::fits(#[trigger] ops@[i], lay) by {
            manifest::helpers_stay_within(ops@, *m, i);
        }
    }
    emit_body(ops, switches, exceptions, &lay, target)
}

/// The function of a method.
fn method_function(code: &[Instr]) -> (r: wasm_encoder::Function)
    ensures
        encode::body_in(r) == (Body { locals: method_locals(), code: code@ }),
{
    let locals: [(u32, ValTy); 4] = [
        (3, ValTy::I32),
        (2, ValTy::I64),
        (1, ValTy::F64),
        (SPILL_POOL, ValTy::I64),
    ];
    assert(locals@ =~= method_locals());
    function(&locals, code)
}

/// Compiles a method for `target`. The module exports `run`, which takes the address of the
/// frame, the base and length of the domain memory, and the address and length of the
/// registers, and returns a value. `None` for anything unsupported.
pub fn compile_for(
    target: &Target,
    ops: &[JitOp],
    switches: &[SwitchTable],
    exceptions: &[ExcRange],
) -> (r: Option<Vec<u8>>)
    ensures
        match module_parts(ops@, switches@, exceptions@, *target) {
            Some(parts) => r matches Some(bytes) && bytes@ == encode::module_bytes(parts),
            None => r is None,
        },
{
    if ops.len() == 0 || !is_lowerable(ops, switches) {
        return None;
    }
    let m = manifest::manifest(ops);
    let imported: u64 = manifest::imported_functions(&m);
    if imported + 2 > MAX_IMPORTS as u64 {
        return None;
    }
    let code = match method_code(ops, switches, exceptions, &m, target) {
        Some(code) => code,
        None => {
            return None;
        },
    };
    let ghost body = Body { locals: method_locals(), code: code@ };
    proof {
        reveal_strlit("run");
        assert(seq![body].drop_last() =~= Seq::empty());
        reveal_with_fuel(encode::bodies_room, 2);
    }
    if room_for(&code, u32::MAX - 39).is_none() {
        return None;
    }
    let mut module = new_module();
    write_types(&mut module, &emit_types());
    write_imports(&mut module, &emit_imports(&m, target));
    let mut functions = new_functions();
    add_function(&mut functions, 0);
    write_functions(&mut module, &functions);
    let mut exports = new_exports();
    add_export(&mut exports, "run", imported as u32);
    write_exports(&mut module, &exports);
    let mut bodies = new_code();
    add_body(&mut bodies, &method_function(&code));
    assert(encode::bodies_in(bodies) =~= seq![body]);
    write_code(&mut module, &bodies);
    proof {
        assert(encode::functions_in(functions) =~= seq![0u32]);
        assert(encode::exports_in(exports) =~= seq![run_export(manifest::import_count(m))]);
        assert(encode::parts_in(module) =~= module_parts(ops@, switches@, exceptions@, *target)->0);
    }
    Some(finish(module))
}

/// Compiles a method with the targets of its switches and its exception handlers.
pub fn compile_full(
    ops: &[JitOp],
    switches: &[SwitchTable],
    exceptions: &[ExcRange],
) -> (r: Option<Vec<u8>>)
    ensures
        match module_parts(ops@, switches@, exceptions@, wasm::native_target()) {
            Some(parts) => r matches Some(bytes) && bytes@ == encode::module_bytes(parts),
            None => r is None,
        },
{
    compile_for(&Target::native(), ops, switches, exceptions)
}

/// Compiles a method with the targets of its switches.
pub fn compile_with_switches(ops: &[JitOp], switches: &[SwitchTable]) -> (r: Option<Vec<u8>>)
    ensures
        match module_parts(ops@, switches@, Seq::empty(), wasm::native_target()) {
            Some(parts) => r matches Some(bytes) && bytes@ == encode::module_bytes(parts),
            None => r is None,
        },
{
    let exceptions: [ExcRange; 0] = [];
    assert(exceptions@ =~= Seq::<ExcRange>::empty());
    compile_full(ops, switches, &exceptions)
}

/// Compiles a method without switches or exception handlers.
pub fn compile(ops: &[JitOp]) -> (r: Option<Vec<u8>>)
    ensures
        match module_parts(ops@, Seq::empty(), Seq::empty(), wasm::native_target()) {
            Some(parts) => r matches Some(bytes) && bytes@ == encode::module_bytes(parts),
            None => r is None,
        },
{
    let switches: [SwitchTable; 0] = [];
    assert(switches@ =~= Seq::<SwitchTable>::empty());
    compile_with_switches(ops, &switches)
}

// Generations.

/// One method of a generation: what its own module would be compiled from.
pub struct GenMember<'a> {
    pub ops: &'a [JitOp],
    pub switches: &'a [SwitchTable],
    pub exceptions: &'a [ExcRange],
}

/// The union of the manifests of the first `n` members.
pub open spec fn union_over(members: Seq<GenMember>, n: nat) -> Manifest
    decreases n,
{
    if n == 0 {
        manifest::empty_manifest()
    } else {
        manifest::union_of(
            union_over(members, (n - 1) as nat),
            manifest::manifest_of(members[n - 1].ops@),
        )
    }
}

/// The functions of the first `n` members, against the imports of `m`.
pub open spec fn member_bodies(
    members: Seq<GenMember>,
    n: nat,
    m: Manifest,
    target: Target,
) -> Option<Seq<Body>>
    decreases n,
{
    if n == 0 {
        Some(Seq::empty())
    } else {
        let last = members[n - 1];
        match member_bodies(members, (n - 1) as nat, m, target) {
            None => None,
            Some(bodies) => match method_body(
                last.ops@,
                last.switches@,
                last.exceptions@,
                m,
                target,
            ) {
                None => None,
                Some(body) => Some(bodies.push(body)),
            },
        }
    }
}

/// The dispatcher: calls the member that its first argument names with the other five.
pub open spec fn dispatcher() -> Body {
    Body {
        locals: Seq::empty(),
        code: seq![
            Instr::LocalGet(1),
            Instr::LocalGet(2),
            Instr::LocalGet(3),
            Instr::LocalGet(4),
            Instr::LocalGet(5),
            Instr::LocalGet(0),
            Instr::CallIndirect(0, 0),
            Instr::End,
        ],
    }
}

/// The table of `n` members, which cannot grow.
pub open spec fn member_table(n: nat) -> TableTy {
    TableTy { min: n as u64, max: Some(n as u64) }
}

/// The members fill the table from its start, in their order.
pub open spec fn member_segment(first: nat, n: nat) -> Segment {
    Segment { from: 0, functions: Seq::new(n, |k: int| (first + k) as u32) }
}

/// Every member can be lowered.
pub open spec fn all_lowerable(members: Seq<GenMember>) -> bool {
    forall|i: int|
        0 <= i < members.len() ==> body::lowerable(
            (#[trigger] members[i]).ops@,
            members[i].switches@,
        )
}

/// The module of a generation, and the imports it needs; `None` if it declines.
pub open spec fn generation_parts(members: Seq<GenMember>, target: Target) -> Option<
    (Seq<Part>, Manifest),
> {
    let n = members.len();
    let m = union_over(members, n);
    let first = manifest::import_count(m);
    if n == 0 || n >= MAX_FUNCTIONS || !all_lowerable(members) || first + 2 > MAX_IMPORTS {
        None
    } else {
        match member_bodies(members, n, m, target) {
            None => None,
            Some(bodies) => if encode::bodies_room(bodies.push(dispatcher())) > u32::MAX {
                None
            } else {
                Some(
                    (
                        seq![
                            Part::Types(all_types()),
                            Part::Imports(all_imports(m, target)),
                            Part::Functions(Seq::new(n, |k: int| 0u32).push(6)),
                            Part::Tables(seq![member_table(n)]),
                            Part::Exports(seq![run_export(first + n)]),
                            Part::Elements(seq![member_segment(first, n)]),
                            Part::Code(bodies.push(dispatcher())),
                        ],
                        m,
                    ),
                )
            },
        }
    }
}

/// The union manifest of a generation covers every member.
pub proof fn generation_covers_members(members: Seq<GenMember>, n: nat, i: int)
    requires
        0 <= i < n <= members.len(),
    ensures
        manifest::covers(union_over(members, n), manifest::manifest_of(members[i].ops@)),
    decreases n,
{
    let before = union_over(members, (n - 1) as nat);
    let last = manifest::manifest_of(members[n - 1].ops@);
    manifest::union_covers_both(before, last);
    if i < n - 1 {
        generation_covers_members(members, (n - 1) as nat, i);
        manifest::covering_is_transitive(
            union_over(members, n),
            before,
            manifest::manifest_of(members[i].ops@),
        );
    }
}

/// The functions of a generation stand in the order of its members.
pub proof fn members_keep_their_places(
    members: Seq<GenMember>,
    n: nat,
    m: Manifest,
    target: Target,
    k: int,
)
    requires
        member_bodies(members, n, m, target) is Some,
        0 <= k < n <= members.len(),
    ensures
        ({
            let bodies = member_bodies(members, n, m, target)->0;
            let member = members[k];
            &&& bodies.len() == n
            &&& method_body(member.ops@, member.switches@, member.exceptions@, m, target) == Some(
                bodies[k],
            )
        }),
    decreases n,
{
    if n > 1 {
        let before = if k < n - 1 {
            k
        } else {
            0
        };
        members_keep_their_places(members, (n - 1) as nat, m, target, before);
    } else {
        reveal_with_fuel(member_bodies, 2);
    }
}

fn members_lowerable(members: &[GenMember<'_>]) -> (r: bool)
    ensures
        r == all_lowerable(members@),
{
    let mut i: usize = 0;
    while i < members.len()
        invariant
            i <= members@.len(),
            forall|k: int|
                0 <= k < i ==> body::lowerable((#[trigger] members@[k]).ops@, members@[k].switches@),
        decreases members@.len() - i,
    {
        if !is_lowerable(members[i].ops, members[i].switches) {
            assert(!body::lowerable(members@[i as int].ops@, members@[i as int].switches@));
            return false;
        }
        i = i + 1;
    }
    true
}

fn union_manifest(members: &[GenMember<'_>]) -> (m: Manifest)
    requires
        all_lowerable(members@),
    ensures
        m == union_over(members@, members@.len()),
{
    let mut m: Manifest = Manifest::default();
    let mut i: usize = 0;
    while i < members.len()
        invariant
            i <= members@.len(),
            all_lowerable(members@),
            m == union_over(members@, i as nat),
        decreases members@.len() - i,
    {
        assert(body::lowerable(members@[i as int].ops@, members@[i as int].switches@));
        m.union_with(&manifest::manifest(members[i].ops));
        i = i + 1;
    }
    m
}

proof fn lemma_bodies_refuse(members: Seq<GenMember>, k: nat, n: nat, m: Manifest, target: Target)
    requires
        k <= n,
        member_bodies(members, k, m, target) is None,
    ensures
        member_bodies(members, n, m, target) is None,
    decreases n,
{
    if k < n {
        lemma_bodies_refuse(members, k, (n - 1) as nat, m, target);
    }
}

proof fn lemma_bodies_grow(members: Seq<GenMember>, k: nat, n: nat, m: Manifest, target: Target)
    requires
        k <= n,
        member_bodies(members, k, m, target) is Some,
    ensures
        member_bodies(members, n, m, target) matches Some(bodies) ==> encode::bodies_room(
            member_bodies(members, k, m, target)->0,
        ) <= encode::bodies_room(bodies) && encode::bodies_room(bodies) <= encode::bodies_room(
            bodies.push(dispatcher()),
        ),
    decreases n,
{
    if let Some(bodies) = member_bodies(members, n, m, target) {
        assert(bodies.push(dispatcher()).drop_last() =~= bodies);
    }
    if k < n {
        lemma_bodies_grow(members, k, (n - 1) as nat, m, target);
        if let Some(bodies) = member_bodies(members, n, m, target) {
            let rest = member_bodies(members, (n - 1) as nat, m, target)->0;
            assert(bodies.drop_last() =~= rest);
        }
    }
}

/// The code section of a generation and the bytes it may take; `None` if a member declines
/// or the section would be too long.
fn generation_code(members: &[GenMember<'_>], m: &Manifest, target: &Target) -> (r: Option<
    wasm_encoder::CodeSection,
>)
    requires
        all_lowerable(members@),
        *m == union_over(members@, members@.len()),
        manifest::import_count(*m) <= u32::MAX,
        members@.len() < MAX_FUNCTIONS,
    ensures
        match member_bodies(members@, members@.len(), *m, *target) {
            None => r is None,
            Some(bodies) => match r {
                Some(s) => encode::bodies_in(s) == bodies.push(dispatcher()) && encode::bodies_room(
                    bodies.push(dispatcher()),
                ) <= u32::MAX,
                None => encode::bodies_room(bodies.push(dispatcher())) > u32::MAX,
            },
        },
{
    let mut s = new_code();
    let mut room: u32 = 5;
    let mut i: usize = 0;
    while i < members.len()
        invariant
            i <= members@.len() < MAX_FUNCTIONS,
            all_lowerable(members@),
            *m == union_over(members@, members@.len()),
            manifest::import_count(*m) <= u32::MAX,
            member_bodies(members@, i as nat, *m, *target) == Some(encode::bodies_in(s)),
            encode::bodies_in(s).len() == i,
            room == encode::bodies_room(encode::bodies_in(s)),
        decreases members@.len() - i,
    {
        let member = &members[i];
        assert(body::lowerable(members@[i as int].ops@, members@[i as int].switches@));
        proof {
            generation_covers_members(members@, members@.len(), i as int);
        }
        let code = match method_code(member.ops, member.switches, member.exceptions, m, target) {
            Some(code) => code,
            None => {
                proof {
                    lemma_bodies_refuse(members@, (i + 1) as nat, members@.len(), *m, *target);
                }
                return None;
            },
        };
        let ghost before = encode::bodies_in(s);
        let ghost body = Body { locals: method_locals(), code: code@ };
        proof {
            assert(before.push(body).drop_last() =~= before);
            assert(encode::body_room(body) == encode::code_room(code@) + 34);
            lemma_bodies_grow(members@, (i + 1) as nat, members@.len(), *m, *target);
        }
        if room > u32::MAX - 34 {
            return None;
        }
        match room_for(&code, u32::MAX - 34 - room) {
            Some(more) => {
                add_body(&mut s, &method_function(&code));
                room = room + 34 + more;
            },
            None => {
                return None;
            },
        }
        i = i + 1;
    }
    let code: [Instr; 8] = [
        Instr::LocalGet(1),
        Instr::LocalGet(2),
        Instr::LocalGet(3),
        Instr::LocalGet(4),
        Instr::LocalGet(5),
        Instr::LocalGet(0),
        Instr::CallIndirect(0, 0),
        Instr::End,
    ];
    let locals: [(u32, ValTy); 0] = [];
    let f = function(&locals, &code);
    proof {
        let bodies = encode::bodies_in(s);
        assert(encode::body_in(f) =~= dispatcher());
        assert(bodies.push(dispatcher()).drop_last() =~= bodies);
        lemma_plain_room(dispatcher().code);
    }
    if room > u32::MAX - 202 {
        return None;
    }
    add_body(&mut s, &f);
    Some(s)
}

proof fn lemma_plain_room(code: Seq<Instr>)
    requires
        forall|k: int| 0 <= k < code.len() ==> !(#[trigger] code[k] is BrTable),
    ensures
        encode::code_room(code) == 24 * code.len(),
    decreases code.len(),
{
    if code.len() > 0 {
        lemma_plain_room(code.drop_last());
        assert(!(code[code.len() - 1] is BrTable));
    }
}

/// The function section of a generation of `n` members.
fn generation_functions(n: u32) -> (s: wasm_encoder::FunctionSection)
    requires
        n < MAX_FUNCTIONS,
    ensures
        encode::functions_in(s) == Seq::new(n as nat, |k: int| 0u32).push(6),
{
    let mut s = new_functions();
    let mut i: u32 = 0;
    while i < n
        invariant
            i <= n < MAX_FUNCTIONS,
            encode::functions_in(s) =~= Seq::new(i as nat, |k: int| 0u32),
        decreases n - i,
    {
        add_function(&mut s, 0);
        i = i + 1;
    }
    add_function(&mut s, 6);
    s
}

/// The numbers of `n` functions from `first` on.
fn functions_from(first: u32, n: u32) -> (r: Vec<u32>)
    requires
        first + n <= u32::MAX,
    ensures
        r@ == Seq::new(n as nat, |k: int| (first + k) as u32),
{
    let mut r: Vec<u32> = Vec::new();
    let mut i: u32 = 0;
    while i < n
        invariant
            i <= n,
            first + n <= u32::MAX,
            r@ =~= Seq::new(i as nat, |k: int| (first + k) as u32),
        decreases n - i,
    {
        r.push(first + i);
        i = i + 1;
    }
    r
}

/// Compiles a generation for `target`: every member becomes a function against the union of
/// their manifests, and `run` dispatches on a member's number. Gives the module and the
/// manifest to bind its imports by.
pub fn compile_generation_for(target: &Target, members: &[GenMember<'_>]) -> (r: Option<
    (Vec<u8>, Manifest),
>)
    ensures
        match generation_parts(members@, *target) {
            Some((parts, m)) => r matches Some(p) && p.0@ == encode::module_bytes(parts) && p.1 == m,
            None => r is None,
        },
{
    if members.len() == 0 || members.len() >= MAX_FUNCTIONS as usize || !members_lowerable(
        members,
    ) {
        return None;
    }
    let n: u32 = members.len() as u32;
    let m = union_manifest(members);
    let imported: u64 = manifest::imported_functions(&m);
    if imported + 2 > MAX_IMPORTS as u64 {
        return None;
    }
    let first: u32 = imported as u32;
    let code = match generation_code(members, &m, target) {
        Some(code) => code,
        None => {
            return None;
        },
    };
    proof {
        reveal_strlit("run");
    }
    let mut module = new_module();
    write_types(&mut module, &emit_types());
    write_imports(&mut module, &emit_imports(&m, target));
    write_functions(&mut module, &generation_functions(n));
    let mut tables = new_tables();
    add_table(&mut tables, TableTy { min: n as u64, max: Some(n as u64) });
    write_tables(&mut module, &tables);
    let mut exports = new_exports();
    add_export(&mut exports, "run", first + n);
    write_exports(&mut module, &exports);
    let mut elements = new_elements();
    add_segment(&mut elements, 0, functions_from(first, n));
    write_elements(&mut module, &elements);
    write_code(&mut module, &code);
    proof {
        let parts = (generation_parts(members@, *target)->0).0;
        assert(encode::tables_in(tables) =~= seq![member_table(n as nat)]);
        assert(encode::exports_in(exports) =~= seq![run_export((first + n) as nat)]);
        assert(encode::elements_in(elements) =~= seq![
            member_segment(first as nat, n as nat),
        ]);
        assert(encode::parts_in(module) =~= parts);
    }
    Some((finish(module), m))
}

/// Compiles a generation.
pub fn compile_generation(members: &[GenMember<'_>]) -> (r: Option<(Vec<u8>, Manifest)>)
    ensures
        match generation_parts(members@, wasm::native_target()) {
            Some((parts, m)) => r matches Some(p) && p.0@ == encode::module_bytes(parts) && p.1 == m,
            None => r is None,
        },
{
    compile_generation_for(&Target::native(), members)
}

} // verus!
