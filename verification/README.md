# avm2_jit

A compiler from verified AVM2 bytecode to WebAssembly, written in Verus.

`src/` is the library. It takes a method as plain values and gives the bytes of a module, the
imports to bind, and the decisions around it: which of the three models (raw ints, raw doubles,
value words) a method is compiled in, which slot reads leave a loop, which calls are put inline,
when methods are folded into one module, what becomes of a call, what the imported helpers compute
and ask for, and where compiled code and the interpreter differ. Contracts say exactly what each
function gives; the laws that span several functions stand beside them as public proof functions.

`app/` is ordinary Rust around the library: it reads the player's methods for it, runs the modules
with wasmtime or with the browser's engine, and carries out what the helpers ask for.

`tests/` runs the library: the modules that it makes are validated and run with an interpreter for
WebAssembly.

## Layout

| module | what it holds |
|---|---|
| `translate` | bytecode to the compiler's ops, in each model, and the tables that the ops refer to |
| `analysis`, `typed`, `flow` | which methods raw ints and raw doubles do for; the type of each local |
| `hoist`, `inline` | slot reads out of loops; small callees in place of calls |
| `lower` | ops to WebAssembly: blocks, bodies, imports, modules, generations, encoding |
| `method`, `backend`, `declines` | one method; all methods; why methods were declined |
| `helpers`, `dialog`, `direct` | the host's side: helpers, their questions, methods run without an engine |
| `runner` | frames, instances, and how a method is entered |
| `verify` | the check against the interpreter |
| `reference`, `faithful`, `model` | interpreters as models, and the laws over them |
| `lower::agree`, `lower::fast`, `lower::follow`, `lower::pieces` | what compiled code does, proved on models of an engine |
| `keyed` | the hash tables of the library |

## What is trusted

The hash tables of the `fnv` crate, the encoder of the `wasm-encoder` crate and `std`'s order of
strings are outside the proof. Each of their functions that the library calls stands behind one
wrapper, whose contract is stated above it.
