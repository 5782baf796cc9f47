//! Compiles AVM2 bytecode to WebAssembly, with the compiler's decisions proved.
//!
//! A method's verified bytecode ([`translate::Op`]) is turned into the compiler's own
//! instruction set ([`lower::JitOp`]), checked and rewritten by a few passes
//! ([`analysis`], [`typed`], [`hoist`], [`inline`]), and lowered to a WebAssembly module
//! ([`lower`]). [`method`] puts these together for one method, [`backend`] for all of them: it
//! remembers what was compiled and what was declined ([`declines`]), folds methods into shared
//! modules, and says what becomes of each call.
//!
//! Everything that needs the garbage-collected heap, an engine or the browser stays outside this
//! library and talks to it in plain values. [`helpers`] and [`dialog`] say what the functions
//! that compiled code imports compute and what they ask of the host, [`runner`] how a module is
//! entered, [`direct`] how a short method is run without an engine, and [`verify`] how compiled
//! code is checked against the interpreter.
//!
//! What compiled code does is proved in steps:
//! - [`reference`](mod@reference) is an interpreter on raw ints, and [`lower::agree`] shows that
//!   compiled code of the int model does what it does.
//! - [`faithful`] shows that raw ints do for every method that the analysis accepts.
//! - [`lower::fast`] shows that the inline paths of the boxed model do on ints what the helpers
//!   do.
//! - [`lower::follow`] and [`lower::pieces`] show that, on every engine, the code of a method does
//!   what the codes of its ops do, one after the other as the branches lead.
//! - [`model`] is an interpreter on value words over any host, and shows that hoisting and
//!   inlining keep what a method does.
//! - [`sense`] says what ops of bytecode and boxed ops mean, over any host, and shows that
//!   translation keeps it, that direct runs do it, and that the code of an op asks the host for it.
//! - [`lower::numeric`], [`lower::floats`] and [`lower::words`] show what inline paths do on numbers
//!   and words.
//! - [`heap`] shows what the helpers come to with a host that keeps objects.

pub mod analysis;
pub mod backend;
pub mod declines;
pub mod dialog;
pub mod direct;
pub mod faithful;
pub mod flow;
pub mod heap;
pub mod helpers;
pub mod hoist;
pub mod inline;
pub mod keyed;
pub mod lower;
pub mod method;
pub mod model;
pub mod reference;
pub mod runner;
pub mod sense;
pub mod translate;
pub mod typed;
pub mod verify;
