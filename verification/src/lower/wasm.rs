//! The WebAssembly instructions that lowering emits, and the layout of the function's
//! locals.

use vstd::prelude::*;

verus! {

// Parameters of `run`.
pub const STATE_PTR: u32 = 0;

/// Address, in the second memory, of the domain memory's `[base, capacity]` pair; `0` if
/// there is none.
pub const DM_BASE: u32 = 1;

pub const REGS_PTR: u32 = 3;

pub const REGS_LEN: u32 = 4;

// Locals.
pub const SCRATCH: u32 = 5;

pub const SCRATCH2: u32 = 6;

/// The basic block to enter next.
pub const BLOCK: u32 = 7;

pub const SCRATCH64: u32 = 8;

pub const SCRATCH64_2: u32 = 9;

pub const SCRATCH_F64: u32 = 10;

/// First of the locals that carry boxed operands from one basic block to the next.
pub const SPILL_BASE: u32 = 11;

/// How many operands can be carried.
pub const SPILL_POOL: u32 = 8;

// Value words. A word is a boxed value iff all bits of `BOX_MARK` are set in it; any other
// word is a double. The low three bits of the top 16 tell the boxed kinds apart.
pub const BOX_MARK: u64 = 0xFFF8_0000_0000_0000;

pub const UNDEFINED_BITS: u64 = 0xFFF8_0000_0000_0000;

pub const VALUE_BOOL_MARK: u64 = 0xFFFA_0000_0000_0000;

pub const VALUE_INT_MARK: u64 = 0xFFFB_0000_0000_0000;

pub const VALUE_TAG_MASK: u64 = 0xFFFF_0000_0000_0000;

/// The top 16 bits of an object's word; the rest is its address.
pub const VALUE_OBJECT_TAG16: u64 = 0xFFFD;

/// The one NaN that stands for a `Number`.
pub const CANON_NAN: u64 = 0x7FF8_0000_0000_0000;

/// Value types.
#[derive(Debug, Clone, Copy, PartialEq, Eq, Structural)]
pub enum ValTy {
    I32,
    I64,
    F64,
}

/// Result types of structured instructions.
#[derive(Debug, Clone, Copy, PartialEq, Eq, Structural)]
pub enum BlockTy {
    Empty,
    I32,
    I64,
}

/// Tests and comparisons.
#[derive(Debug, Clone, Copy, PartialEq, Eq, Structural)]
pub enum Relop {
    I32Eqz,
    I32Eq,
    I32Ne,
    I32LtS,
    I32GtS,
    I32GtU,
    I32LeS,
    I32GeS,
    I64Eq,
    I64Ne,
    I64LeU,
    I64GeS,
    F64Eq,
    F64Ne,
    F64Lt,
    F64Gt,
    F64Le,
    F64Ge,
}

/// Binary operations.
#[derive(Debug, Clone, Copy, PartialEq, Eq, Structural)]
pub enum Binop {
    I32Add,
    I32Sub,
    I32Mul,
    I32And,
    I32Or,
    I32Xor,
    I32Shl,
    I32ShrS,
    I32ShrU,
    I64Add,
    I64Sub,
    I64Mul,
    I64And,
    I64Or,
    I64ShrU,
    F64Add,
    F64Sub,
    F64Mul,
    F64Div,
}

/// Conversions and unary operations.
#[derive(Debug, Clone, Copy, PartialEq, Eq, Structural)]
pub enum Cvtop {
    I32WrapI64,
    I64ExtendI32S,
    I64ExtendI32U,
    I64Extend32S,
    F64ConvertI32S,
    F64ConvertI32U,
    F64ConvertI64S,
    F32DemoteF64,
    F64PromoteF32,
    I64ReinterpretF64,
    F64ReinterpretI64,
    F64Neg,
}

/// Loads and stores.
#[derive(Debug, Clone, Copy, PartialEq, Eq, Structural)]
pub enum Memop {
    I32Load,
    I64Load,
    F32Load,
    F64Load,
    I32Load8U,
    I32Load16U,
    I32Store,
    I64Store,
    F32Store,
    F64Store,
    I32Store8,
    I32Store16,
}

/// How many bytes divide the address of a load or store, as far as is known.
#[derive(Debug, Clone, Copy, PartialEq, Eq, Structural)]
pub enum Align {
    One,
    Two,
    Four,
    Eight,
}

/// Immediates of a load or store.
#[derive(Debug, Clone, Copy, PartialEq, Eq, Structural)]
pub struct Mem {
    pub offset: u64,
    pub align: Align,
    pub memory: u32,
}

/// An instruction. Constants of 64 bits are given by their bits.
#[derive(Debug, Clone, Copy, PartialEq, Eq, Structural)]
pub enum Instr {
    Unreachable,
    Block(BlockTy),
    Loop(BlockTy),
    If(BlockTy),
    Else,
    End,
    Br(u32),
    /// `br_table` with the labels `0, 1, ..` up to the given number, and a default.
    BrTable(u32, u32),
    Return,
    Call(u32),
    /// Type index, table index.
    CallIndirect(u32, u32),
    Drop,
    Select,
    LocalGet(u32),
    LocalSet(u32),
    LocalTee(u32),
    Rel(Relop),
    Bin(Binop),
    Cvt(Cvtop),
    Access(Memop, Mem),
    /// Source memory, destination memory.
    MemoryCopy(u32, u32),
    I32Const(i32),
    I64Const(u64),
    F64Const(u64),
}

/// Appends instructions.
pub fn emit<const N: usize>(body: &mut Vec<Instr>, code: [Instr; N])
    ensures
        final(body)@ == old(body)@ + code@,
{
    let mut i: usize = 0;
    while i < N
        invariant
            i <= N,
            body@ == old(body)@ + code@.take(i as int),
        decreases N - i,
    {
        body.push(code[i]);
        i = i + 1;
    }
}

/// `n` copies of one instruction.
pub open spec fn repeated(n: nat, i: Instr) -> Seq<Instr> {
    Seq::new(n, |k: int| i)
}

/// Appends `n` copies of one instruction.
pub fn emit_repeated(body: &mut Vec<Instr>, n: u32, instr: Instr)
    ensures
        final(body)@ == old(body)@ + repeated(n as nat, instr),
{
    let mut i: u32 = 0;
    while i < n
        invariant
            i <= n,
            body@ == old(body)@ + repeated(i as nat, instr),
        decreases n - i,
    {
        body.push(instr);
        i = i + 1;
    }
}

/// Byte offsets, in an object, of the pointer to its slots and of their number.
#[derive(Debug, Clone, Copy, PartialEq, Eq, Structural)]
pub struct SlotLayout {
    pub ptr_off: u32,
    pub len_off: u32,
}

/// What the code is made for.
#[derive(Debug, Clone, Copy, PartialEq, Eq, Structural)]
pub struct Target {
    /// The browser: the second memory is the player's own, shared; domain memory is
    /// accessed inline, and the function copies its registers in at the start.
    pub web: bool,
    /// Known where the second memory holds the objects.
    pub slots: Option<SlotLayout>,
}

impl Target {
    /// Code for an engine whose memories the host fills.
    pub fn native() -> (r: Target)
        ensures
            r == native_target(),
    {
        Target { web: false, slots: None }
    }
}

/// The target of [`Target::native`].
pub open spec fn native_target() -> Target {
    Target { web: false, slots: None }
}

} // verus!
