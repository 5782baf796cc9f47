//! Lowering of [`JitOp`]s to a WebAssembly module.
//!
//! The compiled function is `run(state_ptr, dm_base, dm_len, regs_ptr, regs_len) -> i64`
//! over an imported linear memory. Register `i` of the method's frame is the 8-byte value
//! word at `state_ptr + 8 * i`. WebAssembly has structured control flow only, so the
//! method's jumps go through a dispatch loop: a `loop` around nested `block`s, entered by
//! a `br_table` on a local that holds the number of the current basic block.

pub mod agree;
pub mod blocks;
pub mod body;
pub mod doubles;
pub mod encode;
pub mod fast;
pub mod floats;
pub mod follow;
pub mod linear;
pub mod machine;
pub mod manifest;
pub mod module;
pub mod numeric;
pub mod op;
pub mod pieces;
pub mod vc;
pub mod wasm;
pub mod words;

pub use manifest::{layout, layout_of, manifest, Layout, Manifest};
pub use module::{
    compile, compile_for, compile_full, compile_generation, compile_generation_for,
    compile_with_switches, GenMember,
};
pub use op::{ExcRange, JitOp, SwitchTable};
