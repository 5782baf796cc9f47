//! The binary encoding of a module, by `wasm_encoder`.
//!
//! Each builder of `wasm_encoder` gets a name for what has been put into it so far, and each
//! of its methods that this library calls gets a contract over that name. What the finished
//! bytes are is a function of the sections in their order, [`module_bytes`].

use crate::lower::wasm::{Align, Binop, BlockTy, Cvtop, Instr, Mem, Memop, Relop, ValTy};
use vstd::prelude::*;
use wasm_encoder::Instruction as I;

verus! {

// What the builders hold.

/// A function type.
#[verifier::ext_equal]
pub struct FuncTy {
    pub params: Seq<ValTy>,
    pub results: Seq<ValTy>,
}

/// The limits of an imported memory, in pages.
#[derive(Debug, Clone, Copy, PartialEq, Eq, Structural)]
pub struct MemTy {
    pub min: u64,
    pub max: Option<u64>,
    pub shared: bool,
}

/// What is imported: a function, by its type index, or a memory.
#[derive(Debug, Clone, Copy, PartialEq, Eq, Structural)]
pub enum Entity {
    Func(u32),
    Memory(MemTy),
}

/// An import: the module and the name that it comes by.
#[verifier::ext_equal]
pub struct Import {
    pub module: Seq<char>,
    pub name: Seq<char>,
    pub entity: Entity,
}

/// A table of function references: its size, at least and at most.
#[derive(Debug, Clone, Copy, PartialEq, Eq, Structural)]
pub struct TableTy {
    pub min: u64,
    pub max: Option<u64>,
}

/// The functions that fill the first table, from an index on.
#[verifier::ext_equal]
pub struct Segment {
    pub from: i32,
    pub functions: Seq<u32>,
}

/// A function body: runs of locals, then code.
#[verifier::ext_equal]
pub struct Body {
    pub locals: Seq<(u32, ValTy)>,
    pub code: Seq<Instr>,
}

/// An exported function.
#[verifier::ext_equal]
pub struct Export {
    pub name: Seq<char>,
    pub index: u32,
}

/// A section.
pub enum Part {
    Types(Seq<FuncTy>),
    Imports(Seq<Import>),
    /// The type index of each function.
    Functions(Seq<u32>),
    Tables(Seq<TableTy>),
    Exports(Seq<Export>),
    Elements(Seq<Segment>),
    Code(Seq<Body>),
}

#[verifier::external_type_specification]
#[verifier::external_body]
pub struct ExValType(wasm_encoder::ValType);

#[verifier::external_type_specification]
#[verifier::external_body]
pub struct ExFunction(wasm_encoder::Function);

#[verifier::external_type_specification]
#[verifier::external_body]
pub struct ExTypeSection(wasm_encoder::TypeSection);

#[verifier::external_type_specification]
#[verifier::external_body]
pub struct ExImportSection(wasm_encoder::ImportSection);

#[verifier::external_type_specification]
#[verifier::external_body]
pub struct ExFunctionSection(wasm_encoder::FunctionSection);

#[verifier::external_type_specification]
#[verifier::external_body]
pub struct ExTableSection(wasm_encoder::TableSection);

#[verifier::external_type_specification]
#[verifier::external_body]
pub struct ExExportSection(wasm_encoder::ExportSection);

#[verifier::external_type_specification]
#[verifier::external_body]
pub struct ExElementSection(wasm_encoder::ElementSection);

#[verifier::external_type_specification]
#[verifier::external_body]
pub struct ExCodeSection(wasm_encoder::CodeSection);

#[verifier::external_type_specification]
#[verifier::external_body]
pub struct ExModule(wasm_encoder::Module);

/// The value type that a `wasm_encoder::ValType` is.
pub uninterp spec fn type_in(t: wasm_encoder::ValType) -> ValTy;

/// What has been written into a `wasm_encoder::Function`.
pub uninterp spec fn body_in(f: wasm_encoder::Function) -> Body;

/// The types added to a `wasm_encoder::TypeSection`.
pub uninterp spec fn types_in(s: wasm_encoder::TypeSection) -> Seq<FuncTy>;

/// The imports added to a `wasm_encoder::ImportSection`.
pub uninterp spec fn imports_in(s: wasm_encoder::ImportSection) -> Seq<Import>;

/// The type indices added to a `wasm_encoder::FunctionSection`.
pub uninterp spec fn functions_in(s: wasm_encoder::FunctionSection) -> Seq<u32>;

/// The tables added to a `wasm_encoder::TableSection`.
pub uninterp spec fn tables_in(s: wasm_encoder::TableSection) -> Seq<TableTy>;

/// The exports added to a `wasm_encoder::ExportSection`.
pub uninterp spec fn exports_in(s: wasm_encoder::ExportSection) -> Seq<Export>;

/// The segments added to a `wasm_encoder::ElementSection`.
pub uninterp spec fn elements_in(s: wasm_encoder::ElementSection) -> Seq<Segment>;

/// The bodies added to a `wasm_encoder::CodeSection`.
pub uninterp spec fn bodies_in(s: wasm_encoder::CodeSection) -> Seq<Body>;

/// The sections written into a `wasm_encoder::Module`.
pub uninterp spec fn parts_in(m: wasm_encoder::Module) -> Seq<Part>;

/// The bytes of the module with these sections.
pub uninterp spec fn module_bytes(parts: Seq<Part>) -> Seq<u8>;

// How many bytes the builders may need. Lengths are encoded in 32 bits, and a builder that
// is asked for more panics.

/// No instruction takes more bytes than this.
pub open spec fn instr_room(i: Instr) -> nat {
    match i {
        Instr::BrTable(n, _) => 5 * (n as nat) + 11,
        _ => 24,
    }
}

/// No code takes more bytes than this.
pub open spec fn code_room(code: Seq<Instr>) -> nat
    decreases code.len(),
{
    if code.len() == 0 {
        0
    } else {
        code_room(code.drop_last()) + instr_room(code.last())
    }
}

/// No body takes more bytes than this, its length in front included.
pub open spec fn body_room(b: Body) -> nat {
    code_room(b.code) + 6 * b.locals.len() + 10
}

/// No code section takes more bytes than this.
pub open spec fn bodies_room(s: Seq<Body>) -> nat
    decreases s.len(),
{
    if s.len() == 0 {
        5
    } else {
        bodies_room(s.drop_last()) + body_room(s.last())
    }
}

/// The longest name of a module that is imported from, in characters.
pub const MAX_MODULE: usize = 3;

/// The longest name of an import or export, in characters.
pub const MAX_NAME: usize = 16;

/// The most imports of a module.
pub const MAX_IMPORTS: u32 = 40_000_000;

/// The most functions of a module.
pub const MAX_FUNCTIONS: u32 = 800_000_000;

// The calls.

/// Picks the variant of `wasm_encoder::ValType`.
#[verifier::external_body]
pub(crate) fn val_type(t: ValTy) -> (r: wasm_encoder::ValType)
    ensures
        type_in(r) == t,
{
    match t {
        ValTy::I32 => wasm_encoder::ValType::I32,
        ValTy::I64 => wasm_encoder::ValType::I64,
        ValTy::F64 => wasm_encoder::ValType::F64,
    }
}

/// `wasm_encoder::Function::new`: a body with runs of locals and no code.
#[verifier::external_body]
fn new_function(locals: Vec<(u32, wasm_encoder::ValType)>) -> (r: wasm_encoder::Function)
    requires
        locals@.len() <= u32::MAX,
    ensures
        body_in(r).locals == locals@.map_values(
            |l: (u32, wasm_encoder::ValType)| (l.0, type_in(l.1)),
        ),
        body_in(r).code == Seq::<Instr>::empty(),
{
    wasm_encoder::Function::new(locals)
}

/// `f` with one more instruction.
pub open spec fn with_instr(f: Body, i: Instr) -> Body {
    Body { locals: f.locals, code: f.code.push(i) }
}

/// `wasm_encoder::Function::instruction` with a test or comparison.
#[verifier::external_body]
fn write_rel(f: &mut wasm_encoder::Function, op: Relop)
    ensures
        body_in(*final(f)) == with_instr(body_in(*old(f)), Instr::Rel(op)),
{
    f.instruction(&match op {
        Relop::I32Eqz => I::I32Eqz, Relop::I32Eq => I::I32Eq, Relop::I32Ne => I::I32Ne,
        Relop::I32LtS => I::I32LtS, Relop::I32GtS => I::I32GtS, Relop::I32GtU => I::I32GtU,
        Relop::I32LeS => I::I32LeS, Relop::I32GeS => I::I32GeS, Relop::I64Eq => I::I64Eq,
        Relop::I64Ne => I::I64Ne, Relop::I64LeU => I::I64LeU, Relop::I64GeS => I::I64GeS,
        Relop::F64Eq => I::F64Eq, Relop::F64Ne => I::F64Ne, Relop::F64Lt => I::F64Lt,
        Relop::F64Gt => I::F64Gt, Relop::F64Le => I::F64Le, Relop::F64Ge => I::F64Ge,
    });
}

/// `wasm_encoder::Function::instruction` with a binary operation.
#[verifier::external_body]
fn write_bin(f: &mut wasm_encoder::Function, op: Binop)
    ensures
        body_in(*final(f)) == with_instr(body_in(*old(f)), Instr::Bin(op)),
{
    f.instruction(&match op {
        Binop::I32Add => I::I32Add, Binop::I32Sub => I::I32Sub, Binop::I32Mul => I::I32Mul,
        Binop::I32And => I::I32And, Binop::I32Or => I::I32Or, Binop::I32Xor => I::I32Xor,
        Binop::I32Shl => I::I32Shl, Binop::I32ShrS => I::I32ShrS, Binop::I32ShrU => I::I32ShrU,
        Binop::I64Add => I::I64Add, Binop::I64Sub => I::I64Sub, Binop::I64Mul => I::I64Mul,
        Binop::I64And => I::I64And, Binop::I64Or => I::I64Or, Binop::I64ShrU => I::I64ShrU,
        Binop::F64Add => I::F64Add, Binop::F64Sub => I::F64Sub, Binop::F64Mul => I::F64Mul,
        Binop::F64Div => I::F64Div,
    });
}

/// `wasm_encoder::Function::instruction` with a conversion or unary operation.
#[verifier::external_body]
fn write_cvt(f: &mut wasm_encoder::Function, op: Cvtop)
    ensures
        body_in(*final(f)) == with_instr(body_in(*old(f)), Instr::Cvt(op)),
{
    f.instruction(&match op {
        Cvtop::I32WrapI64 => I::I32WrapI64, Cvtop::I64ExtendI32S => I::I64ExtendI32S,
        Cvtop::I64ExtendI32U => I::I64ExtendI32U, Cvtop::I64Extend32S => I::I64Extend32S,
        Cvtop::F64ConvertI32S => I::F64ConvertI32S, Cvtop::F64ConvertI32U => I::F64ConvertI32U,
        Cvtop::F64ConvertI64S => I::F64ConvertI64S, Cvtop::F32DemoteF64 => I::F32DemoteF64,
        Cvtop::F64PromoteF32 => I::F64PromoteF32,
        Cvtop::I64ReinterpretF64 => I::I64ReinterpretF64,
        Cvtop::F64ReinterpretI64 => I::F64ReinterpretI64, Cvtop::F64Neg => I::F64Neg,
    });
}

/// The exponent of the power of two.
pub open spec fn exponent(a: Align) -> u32 {
    match a {
        Align::One => 0,
        Align::Two => 1,
        Align::Four => 2,
        Align::Eight => 3,
    }
}

fn exponent_of(a: Align) -> (r: u32)
    ensures
        r == exponent(a),
{
    match a {
        Align::One => 0,
        Align::Two => 1,
        Align::Four => 2,
        Align::Eight => 3,
    }
}

/// `wasm_encoder::Function::instruction` with a load or store. Its alignment is written as an
/// exponent, next to a bit of its own that tells whether a memory index follows.
#[verifier::external_body]
fn write_access(f: &mut wasm_encoder::Function, op: Memop, at: Mem, align: u32)
    requires
        align == exponent(at.align),
    ensures
        body_in(*final(f)) == with_instr(body_in(*old(f)), Instr::Access(op, at)),
{
    let m = wasm_encoder::MemArg { offset: at.offset, align, memory_index: at.memory };
    f.instruction(&match op {
        Memop::I32Load => I::I32Load(m), Memop::I64Load => I::I64Load(m),
        Memop::F32Load => I::F32Load(m), Memop::F64Load => I::F64Load(m),
        Memop::I32Load8U => I::I32Load8U(m), Memop::I32Load16U => I::I32Load16U(m),
        Memop::I32Store => I::I32Store(m), Memop::I64Store => I::I64Store(m),
        Memop::F32Store => I::F32Store(m), Memop::F64Store => I::F64Store(m),
        Memop::I32Store8 => I::I32Store8(m), Memop::I32Store16 => I::I32Store16(m),
    });
}

/// The instructions with a single index or label.
#[derive(Debug, Clone, Copy, PartialEq, Eq, Structural)]
enum Indexed {
    Br,
    Call,
    LocalGet,
    LocalSet,
    LocalTee,
}

spec fn indexed(op: Indexed, i: u32) -> Instr {
    match op {
        Indexed::Br => Instr::Br(i),
        Indexed::Call => Instr::Call(i),
        Indexed::LocalGet => Instr::LocalGet(i),
        Indexed::LocalSet => Instr::LocalSet(i),
        Indexed::LocalTee => Instr::LocalTee(i),
    }
}

/// `wasm_encoder::Function::instruction` with an index or label.
#[verifier::external_body]
fn write_indexed(f: &mut wasm_encoder::Function, op: Indexed, i: u32)
    ensures
        body_in(*final(f)) == with_instr(body_in(*old(f)), indexed(op, i)),
{
    f.instruction(&match op {
        Indexed::Br => I::Br(i), Indexed::Call => I::Call(i),
        Indexed::LocalGet => I::LocalGet(i), Indexed::LocalSet => I::LocalSet(i),
        Indexed::LocalTee => I::LocalTee(i),
    });
}

/// The instructions without immediates that are no operations.
#[derive(Debug, Clone, Copy, PartialEq, Eq, Structural)]
enum Plain {
    Unreachable,
    Else,
    End,
    Return,
    Drop,
    Select,
}

spec fn plain(op: Plain) -> Instr {
    match op {
        Plain::Unreachable => Instr::Unreachable,
        Plain::Else => Instr::Else,
        Plain::End => Instr::End,
        Plain::Return => Instr::Return,
        Plain::Drop => Instr::Drop,
        Plain::Select => Instr::Select,
    }
}

/// `wasm_encoder::Function::instruction` without immediates.
#[verifier::external_body]
fn write_plain(f: &mut wasm_encoder::Function, op: Plain)
    ensures
        body_in(*final(f)) == with_instr(body_in(*old(f)), plain(op)),
{
    f.instruction(&match op {
        Plain::Unreachable => I::Unreachable, Plain::Else => I::Else, Plain::End => I::End,
        Plain::Return => I::Return, Plain::Drop => I::Drop, Plain::Select => I::Select,
    });
}

/// The structured instructions.
#[derive(Debug, Clone, Copy, PartialEq, Eq, Structural)]
enum Structured {
    Block,
    Loop,
    If,
}

spec fn structured(op: Structured, t: BlockTy) -> Instr {
    match op {
        Structured::Block => Instr::Block(t),
        Structured::Loop => Instr::Loop(t),
        Structured::If => Instr::If(t),
    }
}

/// `wasm_encoder::Function::instruction` with a structured instruction.
#[verifier::external_body]
fn write_structured(f: &mut wasm_encoder::Function, op: Structured, t: BlockTy)
    ensures
        body_in(*final(f)) == with_instr(body_in(*old(f)), structured(op, t)),
{
    let t = match t {
        BlockTy::Empty => wasm_encoder::BlockType::Empty,
        BlockTy::I32 => wasm_encoder::BlockType::Result(wasm_encoder::ValType::I32),
        BlockTy::I64 => wasm_encoder::BlockType::Result(wasm_encoder::ValType::I64),
    };
    f.instruction(&match op {
        Structured::Block => I::Block(t), Structured::Loop => I::Loop(t),
        Structured::If => I::If(t),
    });
}

/// `wasm_encoder::Function::instruction` with `BrTable`, on the labels `0, 1, ..`.
#[verifier::external_body]
fn write_br_table(f: &mut wasm_encoder::Function, labels: Vec<u32>, default: u32)
    requires
        labels@.len() <= u32::MAX,
        forall|k: int| 0 <= k < labels@.len() ==> #[trigger] labels@[k] == k,
    ensures
        body_in(*final(f)) == with_instr(body_in(*old(f)), Instr::BrTable(labels@.len() as u32, default)),
{
    f.instruction(&I::BrTable(labels.into(), default));
}

/// `wasm_encoder::Function::instruction` with `CallIndirect`.
#[verifier::external_body]
fn write_call_indirect(f: &mut wasm_encoder::Function, ty: u32, table: u32)
    ensures
        body_in(*final(f)) == with_instr(body_in(*old(f)), Instr::CallIndirect(ty, table)),
{
    f.instruction(&I::CallIndirect { type_index: ty, table_index: table });
}

/// `wasm_encoder::Function::instruction` with `MemoryCopy`.
#[verifier::external_body]
fn write_memory_copy(f: &mut wasm_encoder::Function, src: u32, dst: u32)
    ensures
        body_in(*final(f)) == with_instr(body_in(*old(f)), Instr::MemoryCopy(src, dst)),
{
    f.instruction(&I::MemoryCopy { src_mem: src, dst_mem: dst });
}

/// `wasm_encoder::Function::instruction` with `I32Const`.
#[verifier::external_body]
fn write_i32_const(f: &mut wasm_encoder::Function, v: i32)
    ensures
        body_in(*final(f)) == with_instr(body_in(*old(f)), Instr::I32Const(v)),
{
    f.instruction(&I::I32Const(v));
}

/// `wasm_encoder::Function::instruction` with `I64Const`, on the bits of the constant.
#[verifier::external_body]
fn write_i64_const(f: &mut wasm_encoder::Function, bits: u64)
    ensures
        body_in(*final(f)) == with_instr(body_in(*old(f)), Instr::I64Const(bits)),
{
    f.instruction(&I::I64Const(bits as i64));
}

/// `wasm_encoder::Function::instruction` with `F64Const`, on the bits of the constant.
#[verifier::external_body]
fn write_f64_const(f: &mut wasm_encoder::Function, bits: u64)
    ensures
        body_in(*final(f)) == with_instr(body_in(*old(f)), Instr::F64Const(bits)),
{
    f.instruction(&I::F64Const(wasm_encoder::Ieee64::new(bits)));
}

/// Appends one instruction.
fn write_instr(f: &mut wasm_encoder::Function, i: Instr)
    ensures
        body_in(*final(f)) == with_instr(body_in(*old(f)), i),
{
    match i {
        Instr::Unreachable => write_plain(f, Plain::Unreachable),
        Instr::Block(t) => write_structured(f, Structured::Block, t),
        Instr::Loop(t) => write_structured(f, Structured::Loop, t),
        Instr::If(t) => write_structured(f, Structured::If, t),
        Instr::Else => write_plain(f, Plain::Else),
        Instr::End => write_plain(f, Plain::End),
        Instr::Br(l) => write_indexed(f, Indexed::Br, l),
        Instr::BrTable(n, default) => {
            let mut labels: Vec<u32> = Vec::new();
            let mut k: u32 = 0;
            while k < n
                invariant
                    k <= n,
                    labels@.len() == k,
                    forall|j: int| 0 <= j < k ==> #[trigger] labels@[j] == j,
                decreases n - k,
            {
                labels.push(k);
                k = k + 1;
            }
            write_br_table(f, labels, default)
        },
        Instr::Return => write_plain(f, Plain::Return),
        Instr::Call(i) => write_indexed(f, Indexed::Call, i),
        Instr::CallIndirect(ty, table) => write_call_indirect(f, ty, table),
        Instr::Drop => write_plain(f, Plain::Drop),
        Instr::Select => write_plain(f, Plain::Select),
        Instr::LocalGet(i) => write_indexed(f, Indexed::LocalGet, i),
        Instr::LocalSet(i) => write_indexed(f, Indexed::LocalSet, i),
        Instr::LocalTee(i) => write_indexed(f, Indexed::LocalTee, i),
        Instr::Rel(op) => write_rel(f, op),
        Instr::Bin(op) => write_bin(f, op),
        Instr::Cvt(op) => write_cvt(f, op),
        Instr::Access(op, at) => write_access(f, op, at, exponent_of(at.align)),
        Instr::MemoryCopy(src, dst) => write_memory_copy(f, src, dst),
        Instr::I32Const(v) => write_i32_const(f, v),
        Instr::I64Const(bits) => write_i64_const(f, bits),
        Instr::F64Const(bits) => write_f64_const(f, bits),
    }
}

/// `wasm_encoder::TypeSection::new`: nothing added yet.
#[verifier::external_body]
pub(crate) fn new_types() -> (r: wasm_encoder::TypeSection)
    ensures
        types_in(r) == Seq::<FuncTy>::empty(),
{
    wasm_encoder::TypeSection::new()
}

/// `wasm_encoder::TypeSection::ty`, then `function` on the encoder it gives: adds a function
/// type.
#[verifier::external_body]
pub(crate) fn add_type(
    s: &mut wasm_encoder::TypeSection,
    params: Vec<wasm_encoder::ValType>,
    results: Vec<wasm_encoder::ValType>,
)
    requires
        types_in(*old(s)).len() < 1000,
        params@.len() <= 1000,
        results@.len() <= 1000,
    ensures
        types_in(*final(s)) == types_in(*old(s)).push(
            (FuncTy {
                params: params@.map_values(|t: wasm_encoder::ValType| type_in(t)),
                results: results@.map_values(|t: wasm_encoder::ValType| type_in(t)),
            }),
        ),
{
    s.ty().function(params, results);
}

/// `wasm_encoder::ImportSection::new`: nothing added yet.
#[verifier::external_body]
pub(crate) fn new_imports() -> (r: wasm_encoder::ImportSection)
    ensures
        imports_in(r) == Seq::<Import>::empty(),
{
    wasm_encoder::ImportSection::new()
}

/// `wasm_encoder::ImportSection::import`: adds an import. A memory is one of 32 bits, with pages
/// of the usual size.
#[verifier::external_body]
pub(crate) fn add_import(
    s: &mut wasm_encoder::ImportSection,
    module: &str,
    name: &str,
    entity: Entity,
)
    requires
        imports_in(*old(s)).len() < u32::MAX,
        module@.len() <= MAX_MODULE,
        name@.len() <= MAX_NAME,
    ensures
        imports_in(*final(s)) == imports_in(*old(s)).push(
            (Import { module: module@, name: name@, entity }),
        ),
{
    let ty = match entity {
        Entity::Func(i) => wasm_encoder::EntityType::Function(i),
        Entity::Memory(m) => wasm_encoder::EntityType::Memory(wasm_encoder::MemoryType {
            minimum: m.min,
            maximum: m.max,
            memory64: false,
            shared: m.shared,
            page_size_log2: None,
        }),
    };
    s.import(module, name, ty);
}

/// `wasm_encoder::FunctionSection::new`: nothing added yet.
#[verifier::external_body]
pub(crate) fn new_functions() -> (r: wasm_encoder::FunctionSection)
    ensures
        functions_in(r) == Seq::<u32>::empty(),
{
    wasm_encoder::FunctionSection::new()
}

/// `wasm_encoder::FunctionSection::function`: adds a function of the given type.
#[verifier::external_body]
pub(crate) fn add_function(s: &mut wasm_encoder::FunctionSection, ty: u32)
    requires
        functions_in(*old(s)).len() < u32::MAX,
    ensures
        functions_in(*final(s)) == functions_in(*old(s)).push(ty),
{
    s.function(ty);
}

/// `wasm_encoder::TableSection::new`: nothing added yet.
#[verifier::external_body]
pub(crate) fn new_tables() -> (r: wasm_encoder::TableSection)
    ensures
        tables_in(r) == Seq::<TableTy>::empty(),
{
    wasm_encoder::TableSection::new()
}

/// `wasm_encoder::TableSection::table`: adds a table of function references, with indices of 32
/// bits and not shared.
#[verifier::external_body]
pub(crate) fn add_table(s: &mut wasm_encoder::TableSection, t: TableTy)
    requires
        tables_in(*old(s)).len() < u32::MAX,
    ensures
        tables_in(*final(s)) == tables_in(*old(s)).push(t),
{
    s.table(wasm_encoder::TableType {
        element_type: wasm_encoder::RefType::FUNCREF,
        table64: false,
        minimum: t.min,
        maximum: t.max,
        shared: false,
    });
}

/// `wasm_encoder::ExportSection::new`: nothing added yet.
#[verifier::external_body]
pub(crate) fn new_exports() -> (r: wasm_encoder::ExportSection)
    ensures
        exports_in(r) == Seq::<Export>::empty(),
{
    wasm_encoder::ExportSection::new()
}

/// `wasm_encoder::ExportSection::export`: adds the export of a function.
#[verifier::external_body]
pub(crate) fn add_export(s: &mut wasm_encoder::ExportSection, name: &str, index: u32)
    requires
        exports_in(*old(s)).len() < u32::MAX,
        name@.len() <= MAX_NAME,
    ensures
        exports_in(*final(s)) == exports_in(*old(s)).push((Export { name: name@, index })),
{
    s.export(name, wasm_encoder::ExportKind::Func, index);
}

/// `wasm_encoder::ElementSection::new`: nothing added yet.
#[verifier::external_body]
pub(crate) fn new_elements() -> (r: wasm_encoder::ElementSection)
    ensures
        elements_in(r) == Seq::<Segment>::empty(),
{
    wasm_encoder::ElementSection::new()
}

/// `wasm_encoder::ElementSection::active`, on the first table: adds a segment.
#[verifier::external_body]
pub(crate) fn add_segment(s: &mut wasm_encoder::ElementSection, from: i32, functions: Vec<u32>)
    requires
        elements_in(*old(s)).len() < u32::MAX,
        functions@.len() <= u32::MAX,
    ensures
        elements_in(*final(s)) == elements_in(*old(s)).push(
            (Segment { from, functions: functions@ }),
        ),
{
    let offset = wasm_encoder::ConstExpr::i32_const(from);
    s.active(None, &offset, wasm_encoder::Elements::Functions(functions.into()));
}

/// `wasm_encoder::CodeSection::new`: nothing added yet.
#[verifier::external_body]
pub(crate) fn new_code() -> (r: wasm_encoder::CodeSection)
    ensures
        bodies_in(r) == Seq::<Body>::empty(),
{
    wasm_encoder::CodeSection::new()
}

/// `wasm_encoder::CodeSection::function`: adds a body.
#[verifier::external_body]
pub(crate) fn add_body(s: &mut wasm_encoder::CodeSection, f: &wasm_encoder::Function)
    requires
        bodies_in(*old(s)).len() < u32::MAX,
        body_room(body_in(*f)) <= u32::MAX,
    ensures
        bodies_in(*final(s)) == bodies_in(*old(s)).push(body_in(*f)),
{
    s.function(f);
}

/// `wasm_encoder::Module::new`: nothing added yet.
#[verifier::external_body]
pub(crate) fn new_module() -> (r: wasm_encoder::Module)
    ensures
        parts_in(r) == Seq::<Part>::empty(),
{
    wasm_encoder::Module::new()
}

/// `wasm_encoder::Module::section` with a `TypeSection`: writes the section.
#[verifier::external_body]
pub(crate) fn write_types(m: &mut wasm_encoder::Module, s: &wasm_encoder::TypeSection)
    requires
        types_in(*s).len() <= 1000,
        forall|k: int|
            0 <= k < types_in(*s).len() ==> (#[trigger] types_in(*s)[k]).params.len() <= 1000
                && types_in(*s)[k].results.len() <= 1000,
    ensures
        parts_in(*final(m)) == parts_in(*old(m)).push(Part::Types(types_in(*s))),
{
    m.section(s);
}

/// `wasm_encoder::Module::section` with a `ImportSection`: writes the section.
#[verifier::external_body]
pub(crate) fn write_imports(m: &mut wasm_encoder::Module, s: &wasm_encoder::ImportSection)
    requires
        imports_in(*s).len() <= MAX_IMPORTS,
        forall|k: int|
            0 <= k < imports_in(*s).len() ==> (#[trigger] imports_in(*s)[k]).module.len()
                <= MAX_MODULE && imports_in(*s)[k].name.len() <= MAX_NAME,
    ensures
        parts_in(*final(m)) == parts_in(*old(m)).push(Part::Imports(imports_in(*s))),
{
    m.section(s);
}

/// `wasm_encoder::Module::section` with a `FunctionSection`: writes the section.
#[verifier::external_body]
pub(crate) fn write_functions(m: &mut wasm_encoder::Module, s: &wasm_encoder::FunctionSection)
    requires
        functions_in(*s).len() <= MAX_FUNCTIONS,
    ensures
        parts_in(*final(m)) == parts_in(*old(m)).push(Part::Functions(functions_in(*s))),
{
    m.section(s);
}

/// `wasm_encoder::Module::section` with a `TableSection`: writes the section.
#[verifier::external_body]
pub(crate) fn write_tables(m: &mut wasm_encoder::Module, s: &wasm_encoder::TableSection)
    requires
        tables_in(*s).len() <= 1000,
    ensures
        parts_in(*final(m)) == parts_in(*old(m)).push(Part::Tables(tables_in(*s))),
{
    m.section(s);
}

/// `wasm_encoder::Module::section` with a `ExportSection`: writes the section.
#[verifier::external_body]
pub(crate) fn write_exports(m: &mut wasm_encoder::Module, s: &wasm_encoder::ExportSection)
    requires
        exports_in(*s).len() <= 1000,
        forall|k: int|
            0 <= k < exports_in(*s).len() ==> (#[trigger] exports_in(*s)[k]).name.len() <= MAX_NAME,
    ensures
        parts_in(*final(m)) == parts_in(*old(m)).push(Part::Exports(exports_in(*s))),
{
    m.section(s);
}

/// `wasm_encoder::Module::section` with a `ElementSection`: writes the section.
#[verifier::external_body]
pub(crate) fn write_elements(m: &mut wasm_encoder::Module, s: &wasm_encoder::ElementSection)
    requires
        elements_in(*s).len() == 1,
        elements_in(*s)[0].functions.len() <= MAX_FUNCTIONS,
    ensures
        parts_in(*final(m)) == parts_in(*old(m)).push(Part::Elements(elements_in(*s))),
{
    m.section(s);
}

/// `wasm_encoder::Module::section` with a `CodeSection`: writes the section.
#[verifier::external_body]
pub(crate) fn write_code(m: &mut wasm_encoder::Module, s: &wasm_encoder::CodeSection)
    requires
        bodies_room(bodies_in(*s)) <= u32::MAX,
    ensures
        parts_in(*final(m)) == parts_in(*old(m)).push(Part::Code(bodies_in(*s))),
{
    m.section(s);
}

/// `wasm_encoder::Module::finish`: the bytes of the module.
#[verifier::external_body]
pub(crate) fn finish(m: wasm_encoder::Module) -> (r: Vec<u8>)
    ensures
        r@ == module_bytes(parts_in(m)),
{
    m.finish()
}

proof fn lemma_code_room_grows(code: Seq<Instr>, k: int)
    requires
        0 <= k <= code.len(),
    ensures
        code_room(code.take(k)) <= code_room(code),
    decreases code.len(),
{
    if k < code.len() {
        lemma_code_room_grows(code.drop_last(), k);
        assert(code.drop_last().take(k) =~= code.take(k));
    } else {
        assert(code.take(k) =~= code);
    }
}

/// The bytes to reserve for `code`, if they are no more than `limit`.
pub(crate) fn room_for(code: &[Instr], limit: u32) -> (r: Option<u32>)
    ensures
        match r {
            Some(room) => room == code_room(code@) && room <= limit,
            None => code_room(code@) > limit,
        },
{
    let mut room: u32 = 0;
    let mut k: usize = 0;
    while k < code.len()
        invariant
            k <= code@.len(),
            room == code_room(code@.take(k as int)),
            room <= limit,
        decreases code@.len() - k,
    {
        let more: u64 = match code[k] {
            Instr::BrTable(n, _) => 5 * (n as u64) + 11,
            _ => 24,
        };
        proof {
            assert(code@.take(k + 1).drop_last() =~= code@.take(k as int));
            lemma_code_room_grows(code@, k + 1);
        }
        let sum: u64 = room as u64 + more;
        if sum > limit as u64 {
            return None;
        }
        room = sum as u32;
        k = k + 1;
    }
    assert(code@.take(k as int) =~= code@);
    Some(room)
}

/// Builds a body.
pub(crate) fn function(locals: &[(u32, ValTy)], code: &[Instr]) -> (r: wasm_encoder::Function)
    requires
        locals@.len() <= u32::MAX,
    ensures
        body_in(r) == (Body { locals: locals@, code: code@ }),
{
    let mut runs: Vec<(u32, wasm_encoder::ValType)> = Vec::new();
    let mut l: usize = 0;
    while l < locals.len()
        invariant
            l <= locals@.len(),
            runs@.len() == l,
            forall|k: int|
                0 <= k < l ==> (#[trigger] runs@[k]).0 == locals@[k].0 && type_in(runs@[k].1)
                    == locals@[k].1,
        decreases locals@.len() - l,
    {
        runs.push((locals[l].0, val_type(locals[l].1)));
        l = l + 1;
    }
    let mut f = new_function(runs);
    let mut k: usize = 0;
    assert(body_in(f).locals =~= locals@);
    while k < code.len()
        invariant
            k <= code@.len(),
            body_in(f).locals == locals@,
            body_in(f).code =~= code@.take(k as int),
        decreases code@.len() - k,
    {
        write_instr(&mut f, code[k]);
        k = k + 1;
    }
    assert(code@.take(k as int) =~= code@);
    f
}

/// `n` times the value type `t`.
pub(crate) fn repeat_type(t: ValTy, n: usize) -> (r: Vec<wasm_encoder::ValType>)
    ensures
        r@.map_values(|t: wasm_encoder::ValType| type_in(t)) == Seq::new(n as nat, |k: int| t),
{
    let mut r: Vec<wasm_encoder::ValType> = Vec::new();
    let mut k: usize = 0;
    while k < n
        invariant
            k <= n,
            r@.len() == k,
            forall|j: int| 0 <= j < k ==> type_in(#[trigger] r@[j]) == t,
        decreases n - k,
    {
        r.push(val_type(t));
        k = k + 1;
    }
    r
}

} // verus!
