//! The check of compiled code against the interpreter.
//!
//! A call is run four times from one state: compiled, interpreted, compiled, interpreted. After
//! each run but the last its writes are rolled back. What both runs of an engine agree on, and the
//! engines do not, is a fault of the compiler: what the world around changes between runs shows as
//! a difference between runs of one engine.

use crate::lower::wasm::VALUE_TAG_MASK;
use crate::translate::Op;
use std::collections::BTreeMap;
use vstd::prelude::*;

verus! {

broadcast use {vstd::laws_cmp::group_laws_cmp, vstd::std_specs::btree::group_btree_axioms};

// Runs.

/// Which engine runs.
#[derive(Debug, Clone, Copy, PartialEq, Eq, Structural)]
pub enum Engine {
    Compiled,
    Interpreter,
}

/// The runs, in order. They are interleaved: a clock that ticks between them then shows as a
/// difference between runs of one engine.
#[derive(Debug, Clone, Copy, PartialEq, Eq, Structural)]
pub enum Phase {
    FirstCompiled,
    FirstInterpreted,
    SecondCompiled,
    SecondInterpreted,
}

/// The engine of each run.
pub open spec fn engine_of(phase: Phase) -> Engine {
    match phase {
        Phase::FirstCompiled => Engine::Compiled,
        Phase::FirstInterpreted => Engine::Interpreter,
        Phase::SecondCompiled => Engine::Compiled,
        Phase::SecondInterpreted => Engine::Interpreter,
    }
}

/// The run after `phase`.
pub open spec fn after(phase: Phase) -> Option<Phase> {
    match phase {
        Phase::FirstCompiled => Some(Phase::FirstInterpreted),
        Phase::FirstInterpreted => Some(Phase::SecondCompiled),
        Phase::SecondCompiled => Some(Phase::SecondInterpreted),
        Phase::SecondInterpreted => None,
    }
}

impl Phase {
    /// The engine of the run.
    pub fn engine(self) -> (r: Engine)
        ensures
            r == engine_of(self),
    {
        match self {
            Phase::FirstCompiled | Phase::SecondCompiled => Engine::Compiled,
            Phase::FirstInterpreted | Phase::SecondInterpreted => Engine::Interpreter,
        }
    }

    /// The next run, before which the state is rolled back. After the last there is none, and
    /// what it has done stays.
    pub fn next(self) -> (r: Option<Phase>)
        ensures
            r == after(self),
    {
        match self {
            Phase::FirstCompiled => Some(Phase::FirstInterpreted),
            Phase::FirstInterpreted => Some(Phase::SecondCompiled),
            Phase::SecondCompiled => Some(Phase::SecondInterpreted),
            Phase::SecondInterpreted => None,
        }
    }
}

/// The engines take turns, and what stays is what the interpreter has done.
pub proof fn engines_take_turns(phase: Phase)
    ensures
        match after(phase) {
            Some(next) => engine_of(next) != engine_of(phase),
            None => engine_of(phase) is Interpreter,
        },
{
}

/// How often a method is checked.
pub const VERIFY_LIMIT: u32 = 20_000;

/// The op makes a call.
pub open spec fn makes_call(op: Op) -> bool {
    op is CallMethod || op is CallProperty || op is CallPropVoid || op is ConstructSuper || op is Call
}

/// Some op makes a call.
pub open spec fn bears_calls(ops: Seq<Op>) -> bool {
    exists|i: int| 0 <= i < ops.len() && makes_call(#[trigger] ops[i])
}

/// Whether a method makes calls.
pub fn has_call(ops: &[Op]) -> (r: bool)
    ensures
        r == bears_calls(ops@),
{
    let mut i: usize = 0;
    while i < ops.len()
        invariant
            i <= ops@.len(),
            forall|k: int| 0 <= k < i ==> !makes_call(#[trigger] ops@[k]),
        decreases ops@.len() - i,
    {
        if matches!(
            ops[i],
            Op::CallMethod { .. } | Op::CallProperty { .. } | Op::CallPropVoid { .. }
                | Op::ConstructSuper { .. } | Op::Call { .. }
        ) {
            assert(makes_call(ops@[i as int]));
            return true;
        }
        i = i + 1;
    }
    false
}

// Writes.

/// A write to the domain memory: where, and what stood there before.
pub struct Write {
    pub addr: u64,
    pub old: Vec<u8>,
}

/// The write changed the byte at `a`.
pub open spec fn covers(w: Write, a: u64) -> bool {
    w.addr <= a < w.addr + w.old@.len()
}

/// The byte `i` of `bytes`, 0 if there is none.
pub open spec fn byte_or_zero(bytes: Seq<u8>, i: int) -> u64 {
    if 0 <= i < bytes.len() {
        bytes[i] as u64
    } else {
        0
    }
}

/// The first `n` bytes of a write, as they are now.
pub open spec fn now_there(w: Write, now: Seq<u8>, n: int) -> Map<u64, u64> {
    Map::new(
        |a: u64| w.addr <= a < w.addr + n,
        |a: u64| byte_or_zero(now, a - w.addr),
    )
}

/// The first `n` bytes of a write, as they were.
pub open spec fn then_there(w: Write, n: int) -> Map<u64, u64> {
    Map::new(|a: u64| w.addr <= a < w.addr + n, |a: u64| byte_or_zero(w.old@, a - w.addr))
}

/// The bytes that the first `n` writes changed, as they are now.
pub open spec fn finals(log: Seq<Write>, now: Seq<Vec<u8>>, n: int) -> Map<u64, u64>
    decreases n,
{
    if n <= 0 {
        Map::empty()
    } else {
        let w = log[n - 1];
        finals(log, now, n - 1).union_prefer_right(
            now_there(w, now[n - 1]@, w.old@.len() as int),
        )
    }
}

/// The bytes that the first `n` writes changed, as they were before the first of them; `pre`
/// where it knows.
pub open spec fn pristine(log: Seq<Write>, pre: Map<u64, u64>, n: int) -> Map<u64, u64>
    decreases n,
{
    if n <= 0 {
        pre
    } else {
        let w = log[n - 1];
        then_there(w, w.old@.len() as int).union_prefer_right(pristine(log, pre, n - 1))
    }
}

/// The writes lie within the addresses.
pub open spec fn addressable(log: Seq<Write>) -> bool {
    forall|k: int| 0 <= k < log.len() ==> (#[trigger] log[k]).addr + log[k].old@.len() <= u64::MAX
}

fn byte_at(bytes: &[u8], i: usize) -> (r: u64)
    ensures
        r == byte_or_zero(bytes@, i as int),
{
    if i < bytes.len() {
        bytes[i] as u64
    } else {
        0
    }
}

/// What a run has left in the bytes that it wrote: `log` holds its writes in order, `now` for
/// each of them the bytes that stand there. Adds to `pre` what stood in each byte before.
pub fn capture(log: &[Write], now: &[Vec<u8>], pre: &mut BTreeMap<u64, u64>) -> (r: BTreeMap<
    u64,
    u64,
>)
    requires
        log@.len() == now@.len(),
        addressable(log@),
    ensures
        r@ == finals(log@, now@, log@.len() as int),
        final(pre)@ == pristine(log@, old(pre)@, log@.len() as int),
{
    let mut fin: BTreeMap<u64, u64> = BTreeMap::new();
    let mut k: usize = 0;
    while k < log.len()
        invariant
            k <= log@.len() == now@.len(),
            addressable(log@),
            fin@ =~= finals(log@, now@, k as int),
            pre@ =~= pristine(log@, old(pre)@, k as int),
        decreases log@.len() - k,
    {
        let w = &log[k];
        let bytes = &now[k];
        let n: usize = w.old.len();
        let ghost fin0 = fin@;
        let ghost pre0 = pre@;
        let mut i: usize = 0;
        while i < n
            invariant
                i <= n == w.old@.len(),
                w.addr + n <= u64::MAX,
                fin@ =~= fin0.union_prefer_right(now_there(*w, bytes@, i as int)),
                pre@ =~= then_there(*w, i as int).union_prefer_right(pre0),
            decreases n - i,
        {
            let a: u64 = w.addr + i as u64;
            fin.insert(a, byte_at(bytes, i));
            if !pre.contains_key(&a) {
                pre.insert(a, w.old[i] as u64);
            }
            i = i + 1;
        }
        k = k + 1;
    }
    fin
}

/// The writes that roll `log` back, in order: the last write is undone first.
pub open spec fn undoing(log: Seq<Write>) -> Seq<(u64, Seq<u8>)> {
    Seq::new(log.len(), |i: int| (log[log.len() - 1 - i].addr, log[log.len() - 1 - i].old@))
}

/// The writes that roll a run back, in order.
pub fn rollback(log: &[Write]) -> (r: Vec<(u64, Vec<u8>)>)
    ensures
        r@.len() == log@.len(),
        forall|i: int|
            0 <= i < r@.len() ==> (#[trigger] r@[i]).0 == undoing(log@)[i].0 && r@[i].1@ == undoing(
                log@,
            )[i].1,
{
    let mut r: Vec<(u64, Vec<u8>)> = Vec::new();
    let n: usize = log.len();
    let mut i: usize = 0;
    while i < n
        invariant
            i <= n == log@.len(),
            r@.len() == i,
            forall|k: int|
                0 <= k < i ==> (#[trigger] r@[k]).0 == undoing(log@)[k].0 && r@[k].1@ == undoing(
                    log@,
                )[k].1,
        decreases n - i,
    {
        let w = &log[n - 1 - i];
        let mut bytes: Vec<u8> = Vec::new();
        let mut j: usize = 0;
        while j < w.old.len()
            invariant
                j <= w.old@.len(),
                bytes@ =~= w.old@.take(j as int),
            decreases w.old@.len() - j,
        {
            bytes.push(w.old[j]);
            j = j + 1;
        }
        assert(w.old@.take(j as int) =~= w.old@);
        r.push((w.addr, bytes));
        i = i + 1;
    }
    r
}

/// A memory after `bytes` have been written at `addr`.
pub open spec fn with_bytes(memory: Seq<u8>, addr: int, bytes: Seq<u8>) -> Seq<u8> {
    Seq::new(
        memory.len(),
        |i: int|
            if addr <= i < addr + bytes.len() {
                bytes[i - addr]
            } else {
                memory[i]
            },
    )
}

/// A memory after the first `n` of `writes`.
pub open spec fn written(memory: Seq<u8>, writes: Seq<(u64, Seq<u8>)>, n: int) -> Seq<u8>
    decreases n,
{
    if n <= 0 {
        memory
    } else {
        with_bytes(
            written(memory, writes, n - 1),
            writes[n - 1].0 as int,
            writes[n - 1].1,
        )
    }
}

/// `log` is what the log of `writes` to `memory` holds: for each write its place, and what stood
/// there when it was made.
pub open spec fn logs(memory: Seq<u8>, writes: Seq<(u64, Seq<u8>)>, log: Seq<Write>) -> bool {
    &&& log.len() == writes.len()
    &&& forall|k: int|
        0 <= k < log.len() ==> {
            let w = #[trigger] log[k];
            &&& w.addr == writes[k].0
            &&& w.old@.len() == writes[k].1.len()
            &&& w.addr + w.old@.len() <= memory.len()
            &&& w.old@ == written(memory, writes, k).subrange(
                w.addr as int,
                w.addr + w.old@.len(),
            )
        }
}

proof fn lemma_written_len(memory: Seq<u8>, writes: Seq<(u64, Seq<u8>)>, n: int)
    ensures
        written(memory, writes, n).len() == memory.len(),
    decreases n,
{
    if n > 0 {
        lemma_written_len(memory, writes, n - 1);
    }
}

proof fn lemma_undone(memory: Seq<u8>, writes: Seq<(u64, Seq<u8>)>, log: Seq<Write>, k: int)
    requires
        logs(memory, writes, log),
        0 <= k <= log.len(),
    ensures
        written(written(memory, writes, log.len() as int), undoing(log), k) == written(
            memory,
            writes,
            log.len() - k,
        ),
    decreases k,
{
    let n = log.len() as int;
    if k > 0 {
        lemma_undone(memory, writes, log, k - 1);
        lemma_written_len(memory, writes, n - k);
        let w = log[n - k];
        let before = written(memory, writes, n - k);
        let after = written(memory, writes, n - k + 1);
        assert(after == with_bytes(before, w.addr as int, writes[n - k].1));
        assert(with_bytes(after, w.addr as int, w.old@) =~= before);
    }
}

/// Rolling a run back leaves the memory that it started from.
pub proof fn rollback_restores(memory: Seq<u8>, writes: Seq<(u64, Seq<u8>)>, log: Seq<Write>)
    requires
        logs(memory, writes, log),
    ensures
        written(
            written(memory, writes, writes.len() as int),
            undoing(log),
            log.len() as int,
        ) == memory,
{
    lemma_undone(memory, writes, log, log.len() as int);
}

// Differences.

/// What a run has left: the bytes that it wrote, the slots that are watched, the length of the
/// domain memory.
pub struct Left {
    pub bytes: BTreeMap<u64, u64>,
    pub slots: BTreeMap<u64, u64>,
    pub len: u64,
}

/// What stands at `a` after a run that left `m`: what was there before, if the run left nothing.
pub open spec fn at(m: Map<u64, u64>, pre: Map<u64, u64>, a: u64) -> u64 {
    if m.dom().contains(a) {
        m[a]
    } else if pre.dom().contains(a) {
        pre[a]
    } else {
        0
    }
}

/// The four runs, and what was there before them.
pub struct Runs {
    pub pre: Map<u64, u64>,
    pub compiled: Map<u64, u64>,
    pub compiled_again: Map<u64, u64>,
    pub interpreted: Map<u64, u64>,
    pub interpreted_again: Map<u64, u64>,
}

/// The word is an object's.
pub open spec fn is_object(word: u64) -> bool {
    word & VALUE_TAG_MASK == OBJECT_MARK
}

/// The tag of an object's word.
pub const OBJECT_MARK: u64 = 0xFFFD_0000_0000_0000;

/// The runs of each engine agree at `a`, and the engines do not. Two objects, where those are
/// told from other words, do not count as different: each run makes its own.
pub open spec fn diverges(r: Runs, objects: bool, a: u64) -> bool {
    let j = at(r.compiled, r.pre, a);
    let x = at(r.interpreted, r.pre, a);
    &&& j == at(r.compiled_again, r.pre, a)
    &&& x == at(r.interpreted_again, r.pre, a)
    &&& j != x
    &&& !(objects && is_object(j) && is_object(x))
}

/// `d` is the first place where the engines differ, with what stands there after each.
pub open spec fn is_first(r: Runs, objects: bool, d: Option<(u64, u64, u64)>) -> bool {
    match d {
        Some((a, j, x)) => {
            &&& diverges(r, objects, a)
            &&& j == at(r.compiled, r.pre, a)
            &&& x == at(r.interpreted, r.pre, a)
            &&& forall|b: u64| b < a ==> !#[trigger] diverges(r, objects, b)
        },
        None => forall|b: u64| !#[trigger] diverges(r, objects, b),
    }
}

/// What the runs of one engine do not agree on is no fault.
pub proof fn noise_is_no_fault(r: Runs, objects: bool, a: u64)
    requires
        at(r.compiled, r.pre, a) != at(r.compiled_again, r.pre, a) || at(r.interpreted, r.pre, a)
            != at(r.interpreted_again, r.pre, a),
    ensures
        !diverges(r, objects, a),
{
}

fn value_at(m: &BTreeMap<u64, u64>, pre: &BTreeMap<u64, u64>, a: u64) -> (r: u64)
    ensures
        r == at(m@, pre@, a),
{
    match m.get(&a) {
        Some(v) => *v,
        None => match pre.get(&a) {
            Some(v) => *v,
            None => 0,
        },
    }
}

/// The four runs, as maps.
struct Maps<'a> {
    pre: &'a BTreeMap<u64, u64>,
    compiled: &'a BTreeMap<u64, u64>,
    compiled_again: &'a BTreeMap<u64, u64>,
    interpreted: &'a BTreeMap<u64, u64>,
    interpreted_again: &'a BTreeMap<u64, u64>,
}

impl<'a> Maps<'a> {
    spec fn runs(self) -> Runs {
        Runs {
            pre: self.pre@,
            compiled: self.compiled@,
            compiled_again: self.compiled_again@,
            interpreted: self.interpreted@,
            interpreted_again: self.interpreted_again@,
        }
    }

    fn differs(&self, objects: bool, a: u64) -> (r: Option<(u64, u64)>)
        ensures
            match r {
                Some((j, x)) => diverges(self.runs(), objects, a) && j == at(
                    self.compiled@,
                    self.pre@,
                    a,
                ) && x == at(self.interpreted@, self.pre@, a),
                None => !diverges(self.runs(), objects, a),
            },
    {
        let j: u64 = value_at(self.compiled, self.pre, a);
        let x: u64 = value_at(self.interpreted, self.pre, a);
        if j == value_at(self.compiled_again, self.pre, a) && x == value_at(
            self.interpreted_again,
            self.pre,
            a,
        ) && j != x && !(objects && word_is_object(j) && word_is_object(x)) {
            Some((j, x))
        } else {
            None
        }
    }

    /// The first difference among the keys of `m`, or the one known if that comes first.
    fn first_among(
        &self,
        m: &BTreeMap<u64, u64>,
        objects: bool,
        known: Option<(u64, u64, u64)>,
    ) -> (r: Option<(u64, u64, u64)>)
        requires
            known matches Some((a, j, x)) ==> diverges(self.runs(), objects, a) && j == at(
                self.compiled@,
                self.pre@,
                a,
            ) && x == at(self.interpreted@, self.pre@, a),
        ensures
            r matches Some((a, j, x)) ==> diverges(self.runs(), objects, a) && j == at(
                self.compiled@,
                self.pre@,
                a,
            ) && x == at(self.interpreted@, self.pre@, a),
            known matches Some((a, _, _)) ==> (r matches Some((b, _, _)) && b <= a),
            forall|b: u64|
                m@.dom().contains(b) && #[trigger] diverges(self.runs(), objects, b) ==> (
                r matches Some((a, _, _)) && a <= b),
    {
        let mut best = known;
        for key in it: m.keys()
            invariant
                best matches Some((a, j, x)) ==> diverges(self.runs(), objects, a) && j == at(
                    self.compiled@,
                    self.pre@,
                    a,
                ) && x == at(self.interpreted@, self.pre@, a),
                known matches Some((a, _, _)) ==> (best matches Some((b, _, _)) && b <= a),
                forall|i: int|
                    0 <= i < it.index() && diverges(self.runs(), objects, *(#[trigger] it.seq()[i]))
                        ==> (best matches Some((a, _, _)) && a <= *it.seq()[i]),
                it.seq().unref().to_set() == m@.dom(),
        {
            let a: u64 = *key;
            let closer = match best {
                Some((b, _, _)) => a < b,
                None => true,
            };
            if closer {
                if let Some((j, x)) = self.differs(objects, a) {
                    best = Some((a, j, x));
                }
            }
        }
        best
    }
}

fn word_is_object(word: u64) -> (r: bool)
    ensures
        r == is_object(word),
{
    word & VALUE_TAG_MASK == OBJECT_MARK
}

impl<'a> Maps<'a> {
    fn first(&self, objects: bool) -> (r: Option<(u64, u64, u64)>)
        ensures
            is_first(self.runs(), objects, r),
    {
        let best = self.first_among(self.compiled, objects, None);
        let best = self.first_among(self.compiled_again, objects, best);
        let best = self.first_among(self.interpreted, objects, best);
        let best = self.first_among(self.interpreted_again, objects, best);
        proof {
            let r = self.runs();
            assert forall|b: u64| #[trigger] diverges(r, objects, b) implies r.compiled.dom().contains(
                b,
            ) || r.compiled_again.dom().contains(b) || r.interpreted.dom().contains(b)
                || r.interpreted_again.dom().contains(b) by {}
        }
        best
    }
}

/// What was found: where the engines differ.
#[derive(Debug, Clone, Copy, PartialEq, Eq)]
pub struct Verdict {
    /// The results differ.
    pub result: bool,
    /// The first slot that differs, with its value after each engine.
    pub slot: Option<(u64, u64, u64)>,
    /// The lengths of the domain memory, if they differ.
    pub len: Option<(u64, u64)>,
    /// The first byte of the domain memory that differs, with its value after each engine.
    pub byte: Option<(u64, u64, u64)>,
}

/// What kind of fault it is.
#[derive(Debug, Clone, Copy, PartialEq, Eq, Structural)]
pub enum Difference {
    Result,
    Slot,
    Len,
    CallMemory,
    LeafMemory,
}

/// The results differ: one is an error and the other is none, or they are different values and
/// not both objects.
pub open spec fn results_differ(jit: u64, interpreted: Option<u64>) -> bool {
    match interpreted {
        Some(x) => x != jit && !(is_object(x) && is_object(jit)),
        None => true,
    }
}

/// The lengths, if the runs of each engine agree on theirs and the engines do not.
pub open spec fn lengths(j1: u64, j2: u64, x1: u64, x2: u64) -> Option<(u64, u64)> {
    if j1 == j2 && x1 == x2 && j1 != x1 {
        Some((j1, x1))
    } else {
        None
    }
}

/// Compares what the four runs have left. `pre_bytes` and `pre_slots` hold what was there before
/// them, `jit` is the result of the first compiled run, `interpreted` that of the first
/// interpreted one, `None` if it threw.
pub fn judge(
    pre_bytes: &BTreeMap<u64, u64>,
    pre_slots: &BTreeMap<u64, u64>,
    compiled: &Left,
    interpreted: &Left,
    compiled_again: &Left,
    interpreted_again: &Left,
    jit: u64,
    interpreted_result: Option<u64>,
) -> (r: Verdict)
    ensures
        r.result == results_differ(jit, interpreted_result),
        r.len == lengths(compiled.len, compiled_again.len, interpreted.len, interpreted_again.len),
        is_first(
            (Runs {
                pre: pre_slots@,
                compiled: compiled.slots@,
                compiled_again: compiled_again.slots@,
                interpreted: interpreted.slots@,
                interpreted_again: interpreted_again.slots@,
            }),
            true,
            r.slot,
        ),
        is_first(
            (Runs {
                pre: pre_bytes@,
                compiled: compiled.bytes@,
                compiled_again: compiled_again.bytes@,
                interpreted: interpreted.bytes@,
                interpreted_again: interpreted_again.bytes@,
            }),
            false,
            r.byte,
        ),
{
    let result = match interpreted_result {
        Some(x) => x != jit && !(word_is_object(x) && word_is_object(jit)),
        None => true,
    };
    let len = if compiled.len == compiled_again.len && interpreted.len == interpreted_again.len
        && compiled.len != interpreted.len {
        Some((compiled.len, interpreted.len))
    } else {
        None
    };
    let slots = Maps {
        pre: pre_slots,
        compiled: &compiled.slots,
        compiled_again: &compiled_again.slots,
        interpreted: &interpreted.slots,
        interpreted_again: &interpreted_again.slots,
    };
    let bytes = Maps {
        pre: pre_bytes,
        compiled: &compiled.bytes,
        compiled_again: &compiled_again.bytes,
        interpreted: &interpreted.bytes,
        interpreted_again: &interpreted_again.bytes,
    };
    Verdict { result, slot: slots.first(true), len, byte: bytes.first(false) }
}

/// The kind of the fault, by what is graver; `None` if there is none.
pub open spec fn difference(v: Verdict, calls: bool) -> Option<Difference> {
    if v.result {
        Some(Difference::Result)
    } else if v.slot is Some {
        Some(Difference::Slot)
    } else if v.len is Some {
        Some(Difference::Len)
    } else if v.byte is Some {
        Some(
            if calls {
                Difference::CallMemory
            } else {
                Difference::LeafMemory
            },
        )
    } else {
        None
    }
}

impl Verdict {
    /// The kind of the fault in a method that makes calls, or makes none.
    pub fn kind(&self, calls: bool) -> (r: Option<Difference>)
        ensures
            r == difference(*self, calls),
    {
        if self.result {
            Some(Difference::Result)
        } else if self.slot.is_some() {
            Some(Difference::Slot)
        } else if self.len.is_some() {
            Some(Difference::Len)
        } else if self.byte.is_some() {
            Some(
                if calls {
                    Difference::CallMemory
                } else {
                    Difference::LeafMemory
                },
            )
        } else {
            None
        }
    }
}

/// The slots to restore: those whose value is not the one before the runs.
pub open spec fn drifted(pre: Map<u64, u64>, now: Map<u64, u64>, slot: u64) -> bool {
    pre.dom().contains(slot) && now.dom().contains(slot) && pre[slot] != now[slot]
}

/// Whether a watched slot has to be restored.
pub fn has_drifted(pre: &BTreeMap<u64, u64>, now: &BTreeMap<u64, u64>, slot: u64) -> (r: bool)
    ensures
        r == drifted(pre@, now@, slot),
{
    match (pre.get(&slot), now.get(&slot)) {
        (Some(a), Some(b)) => *a != *b,
        _ => false,
    }
}

/// Code that leaves what the interpreter leaves is found without fault.
pub proof fn agreement_is_no_fault(r: Runs, objects: bool, d: Option<(u64, u64, u64)>)
    requires
        r.compiled == r.interpreted,
        is_first(r, objects, d),
    ensures
        d is None,
{
}

/// What compiled code leaves in both runs, and the interpreter in neither, is found, or something
/// before it.
pub proof fn faults_are_found(r: Runs, objects: bool, d: Option<(u64, u64, u64)>, a: u64)
    requires
        is_first(r, objects, d),
        at(r.compiled, r.pre, a) == at(r.compiled_again, r.pre, a),
        at(r.interpreted, r.pre, a) == at(r.interpreted_again, r.pre, a),
        at(r.compiled, r.pre, a) != at(r.interpreted, r.pre, a),
        !objects || !is_object(at(r.compiled, r.pre, a)),
    ensures
        d matches Some((b, _, _)) && b <= a,
{
    assert(diverges(r, objects, a));
}

/// Results count as the same just if they are the same value, or both objects: words with the tag
/// of objects in their upper 16 bits. An error of the interpreter never counts as a result.
pub proof fn results_count_by_their_value(jit: u64, interpreted: Option<u64>)
    ensures
        !results_differ(jit, interpreted) <==> (interpreted matches Some(x) && (x == jit || (x
            / 0x1_0000_0000_0000 == 0xFFFD && jit / 0x1_0000_0000_0000 == 0xFFFD))),
{
    assert forall|word: u64| #[trigger] is_object(word) <==> word / 0x1_0000_0000_0000
        == 0xFFFD by {
        assert((word & 0xFFFF_0000_0000_0000u64 == 0xFFFD_0000_0000_0000u64) == (word
            / 0x1_0000_0000_0000 == 0xFFFD)) by (bit_vector);
    }
    if let Some(x) = interpreted {
        assert(is_object(x) <==> x / 0x1_0000_0000_0000 == 0xFFFD);
        assert(is_object(jit) <==> jit / 0x1_0000_0000_0000 == 0xFFFD);
    }
}

/// A length is at fault just if both runs of each engine leave the same one, and the engines do
/// not.
pub proof fn lengths_count_where_each_engine_agrees(
    compiled: u64,
    compiled_again: u64,
    interpreted: u64,
    interpreted_again: u64,
)
    ensures
        ({
            let found = lengths(compiled, compiled_again, interpreted, interpreted_again);
            &&& found is Some <==> (compiled == compiled_again && interpreted
                == interpreted_again && compiled != interpreted)
            &&& found matches Some((j, x)) ==> j == compiled && x == interpreted
        }),
{
}

/// The kind of a fault names one that was found, and there is one if anything was found. A wrong
/// result is named before anything else, and bytes only if nothing else was found.
pub proof fn faults_are_named(v: Verdict, calls: bool)
    ensures
        difference(v, calls) is None <==> !v.result && v.slot is None && v.len is None
            && v.byte is None,
        difference(v, calls) == Some(Difference::Result) <==> v.result,
        difference(v, calls) == Some(Difference::Slot) ==> v.slot is Some,
        difference(v, calls) == Some(Difference::Len) ==> v.len is Some && v.slot is None,
        difference(v, calls) == Some(Difference::CallMemory) ==> v.byte is Some && calls && v.len
            is None && v.slot is None,
        difference(v, calls) == Some(Difference::LeafMemory) ==> v.byte is Some && !calls && v.len
            is None && v.slot is None,
{
}

/// Restoring the slots that have drifted leaves every watched slot as it was.
pub proof fn restoring_undoes_the_drift(pre: Map<u64, u64>, now: Map<u64, u64>, slot: u64)
    requires
        pre.dom().contains(slot),
        now.dom().contains(slot),
    ensures
        (if drifted(pre, now, slot) {
            now.insert(slot, pre[slot])
        } else {
            now
        })[slot] == pre[slot],
        now[slot] == pre[slot] ==> !drifted(pre, now, slot),
{
}

/// One of the first `n` writes changed the byte at `a`.
pub open spec fn changed(log: Seq<Write>, n: int, a: u64) -> bool {
    exists|k: int| 0 <= k < n && #[trigger] covers(log[k], a)
}

proof fn lemma_untouched(
    memory: Seq<u8>,
    writes: Seq<(u64, Seq<u8>)>,
    log: Seq<Write>,
    n: int,
    a: u64,
)
    requires
        logs(memory, writes, log),
        0 <= n <= log.len(),
        a < memory.len(),
        !changed(log, n, a),
    ensures
        written(memory, writes, n)[a as int] == memory[a as int],
    decreases n,
{
    if n > 0 {
        lemma_written_len(memory, writes, n - 1);
        assert(!changed(log, n - 1, a));
        lemma_untouched(memory, writes, log, n - 1, a);
        let w = log[n - 1];
        assert(!covers(w, a));
        assert(w.addr == writes[n - 1].0);
    }
}

/// What is noted of a run, of each byte that it wrote, is the byte that stood there before the
/// run, whatever was written there and however often. What was known before stays.
pub proof fn what_stood_before_is_noted(
    memory: Seq<u8>,
    writes: Seq<(u64, Seq<u8>)>,
    log: Seq<Write>,
    pre: Map<u64, u64>,
    n: int,
    a: u64,
)
    requires
        logs(memory, writes, log),
        0 <= n <= log.len(),
    ensures
        pristine(log, pre, n).dom().contains(a) <==> pre.dom().contains(a) || changed(log, n, a),
        pre.dom().contains(a) ==> pristine(log, pre, n)[a] == pre[a],
        !pre.dom().contains(a) && changed(log, n, a) ==> pristine(log, pre, n)[a]
            == memory[a as int] as u64,
    decreases n,
{
    if n > 0 {
        what_stood_before_is_noted(memory, writes, log, pre, n - 1, a);
        let w = log[n - 1];
        let rest = pristine(log, pre, n - 1);
        assert(pristine(log, pre, n) == then_there(w, w.old@.len() as int).union_prefer_right(
            rest,
        ));
        if changed(log, n - 1, a) {
            let k = choose|k: int| 0 <= k < n - 1 && #[trigger] covers(log[k], a);
            assert(covers(log[k], a));
        }
        if covers(w, a) {
            assert(changed(log, n, a));
            if !rest.dom().contains(a) {
                lemma_untouched(memory, writes, log, n - 1, a);
                lemma_written_len(memory, writes, n - 1);
                assert(w.old@[a - w.addr] == written(memory, writes, n - 1)[a as int]);
            }
        } else if changed(log, n, a) {
            let k = choose|k: int| 0 <= k < n && #[trigger] covers(log[k], a);
            assert(k < n - 1);
        }
    }
}

/// What is kept of a run, of each byte that it wrote, is the byte that stands there after the run,
/// if `now` was read from that memory.
pub proof fn what_stands_after_is_kept(
    memory: Seq<u8>,
    log: Seq<Write>,
    now: Seq<Vec<u8>>,
    n: int,
    a: u64,
)
    requires
        0 <= n <= log.len(),
        now.len() == log.len(),
        forall|k: int|
            0 <= k < log.len() ==> {
                let w = #[trigger] log[k];
                &&& w.addr + w.old@.len() <= memory.len()
                &&& now[k]@ == memory.subrange(w.addr as int, w.addr + w.old@.len())
            },
    ensures
        finals(log, now, n).dom().contains(a) <==> changed(log, n, a),
        changed(log, n, a) ==> finals(log, now, n)[a] == memory[a as int] as u64,
    decreases n,
{
    if n > 0 {
        what_stands_after_is_kept(memory, log, now, n - 1, a);
        let w = log[n - 1];
        if changed(log, n - 1, a) {
            let k = choose|k: int| 0 <= k < n - 1 && #[trigger] covers(log[k], a);
            assert(covers(log[k], a));
        }
        if covers(w, a) {
            assert(changed(log, n, a));
            assert(now[n - 1]@[a - w.addr] == memory[a as int]);
        } else if changed(log, n, a) {
            let k = choose|k: int| 0 <= k < n && #[trigger] covers(log[k], a);
            assert(k < n - 1);
        }
    }
}

} // verus!
