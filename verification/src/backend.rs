//! The compiler as a player uses it: what has been compiled, what was declined, and what becomes
//! of each call.

use crate::declines;
use crate::declines::Declines;
use crate::keyed::{add_word, has_word, look_up, new_set, new_table, put};
use crate::lower::encode;
use crate::lower::manifest::Manifest;
use crate::lower::module;
use crate::lower::module::{compile_generation_for, GenMember};
use crate::lower::wasm;
use crate::lower::wasm::Target;
use crate::method;
use crate::method::{compile_method, Compiled, Method};
use crate::runner::STRIDE;
use crate::translate;
use crate::translate::{first_unsupported_boxed_for, Op};
use crate::verify;
use crate::verify::{Verdict, VERIFY_LIMIT};
use fnv::{FnvHashMap, FnvHashSet};
use vstd::prelude::*;

verus! {

/// How many methods make a generation.
pub const GEN_BATCH: usize = 32;

/// The size of the cache in front of the table of methods.
pub const IC_SIZE: usize = 4096;

/// Pages of the largest memory.
pub const MAX_PAGES: u64 = 65536;

/// Pages that are left to the content.
pub const HEADROOM_PAGES: u64 = 4096;

/// Whether the memory has grown so far that compiling has to stop.
pub fn heap_exhausted(pages: u64) -> (r: bool)
    ensures
        r == (pages >= MAX_PAGES - HEADROOM_PAGES),
{
    pages >= MAX_PAGES - HEADROOM_PAGES
}

/// Compiling has stopped, in the browser, for want of memory.
pub open spec fn out_of_memory(target: Target, pages: u64) -> bool {
    target.web && pages >= MAX_PAGES - HEADROOM_PAGES
}

/// The place of a method in the cache.
pub open spec fn ic_slot_of(key: u64) -> u64 {
    (key >> 4) & 4095
}

fn ic_slot(key: u64) -> (r: usize)
    ensures
        r == ic_slot_of(key),
        r < IC_SIZE,
{
    assert((key >> 4) & 4095 < 4096) by (bit_vector);
    ((key >> 4) & 4095) as usize
}

/// The state of a compiler.
#[verifier::ext_equal]
pub struct JitView {
    /// The methods that were met: the number of the compiled method, `None` if it was declined.
    pub cache: Map<u64, Option<usize>>,
    pub methods: Seq<Compiled>,
    /// The methods that the next generation is made of.
    pub pending: Seq<u64>,
    /// Compiled code is checked against the interpreter.
    pub verify: bool,
    /// The interpreter is running for such a check.
    pub in_verify: bool,
    pub hits: nat,
    pub mismatches: nat,
    pub last_result: u64,
    /// What compiled code has returned.
    pub results: Set<u64>,
    /// How often each method was checked.
    pub seen: Map<u64, u32>,
    /// How many methods were declined, by reason.
    pub declines: Map<Seq<char>, u32>,
    pub declined: nat,
    /// They are worth a line in the log.
    pub report_due: bool,
}

/// The compiler.
pub struct WasmJit {
    target: Target,
    cache: FnvHashMap<u64, Option<usize>>,
    methods: Vec<Compiled>,
    ic: Vec<Option<(u64, usize)>>,
    pending: Vec<u64>,
    verify: bool,
    in_verify: bool,
    hits: u32,
    mismatches: u32,
    last_result: u64,
    results: FnvHashSet<u64>,
    verify_seen: FnvHashMap<u64, u32>,
    declines: Declines,
    report_due: bool,
}

impl View for WasmJit {
    type V = JitView;

    closed spec fn view(&self) -> JitView {
        JitView {
            cache: self.cache@,
            methods: self.methods@,
            pending: self.pending@,
            verify: self.verify,
            in_verify: self.in_verify,
            hits: self.hits as nat,
            mismatches: self.mismatches as nat,
            last_result: self.last_result,
            results: self.results@,
            seen: self.verify_seen@,
            declines: self.declines@,
            declined: self.declines.all(),
            report_due: self.report_due,
        }
    }
}

/// Nothing compiled yet.
pub open spec fn fresh() -> JitView {
    JitView {
        cache: Map::empty(),
        methods: Seq::empty(),
        pending: Seq::empty(),
        verify: false,
        in_verify: false,
        hits: 0,
        mismatches: 0,
        last_result: 0,
        results: Set::empty(),
        seen: Map::empty(),
        declines: Map::empty(),
        declined: 0,
        report_due: false,
    }
}

/// Every script that the method reads the globals of has been initialized.
pub open spec fn all_ready(initialized: Seq<bool>) -> bool {
    forall|i: int| 0 <= i < initialized.len() ==> #[trigger] initialized[i]
}

fn scripts_ready(initialized: &[bool]) -> (r: bool)
    ensures
        r == all_ready(initialized@),
{
    let mut i: usize = 0;
    while i < initialized.len()
        invariant
            i <= initialized@.len(),
            forall|k: int| 0 <= k < i ==> #[trigger] initialized@[k],
        decreases initialized@.len() - i,
    {
        if !initialized[i] {
            return false;
        }
        i = i + 1;
    }
    true
}

/// `text` is why a method is declined: its first op that is not supported, or that all are and
/// lowering declined.
pub open spec fn is_reason(ops: Seq<Op>, target: Target, text: Seq<char>) -> bool {
    ||| text == "<compile>"@ && forall|i: int|
        0 <= i < ops.len() ==> translate::supported(#[trigger] ops[i], target)
    ||| exists|i: int|
        0 <= i < ops.len() && !translate::supported(#[trigger] ops[i], target) && text
            == translate::variant_name(ops[i]) && forall|j: int|
            0 <= j < i ==> translate::supported(#[trigger] ops[j], target)
}

/// The state after a method was declined because of `text`.
pub open spec fn after_decline(v: JitView, key: u64, text: Seq<char>) -> JitView {
    JitView {
        cache: v.cache.insert(key, None),
        declines: declines::recorded(v.declines, text),
        declined: v.declined + 1,
        report_due: v.report_due || !v.declines.dom().contains(text) || (v.declined + 1) % 200
            == 0,
        ..v
    }
}

/// The state after `c` was compiled.
pub open spec fn after_compile(v: JitView, key: u64, c: Compiled, web: bool) -> JitView {
    JitView {
        cache: v.cache.insert(key, Some(v.methods.len() as usize)),
        methods: v.methods.push(c),
        pending: if web {
            v.pending.push(key)
        } else {
            v.pending
        },
        ..v
    }
}

/// What becomes of a method that is met, and the state after it.
pub open spec fn meets(
    v: JitView,
    m: Method,
    ready: bool,
    exhausted: bool,
    target: Target,
    found: Option<usize>,
    after: JitView,
) -> bool {
    if v.cache.dom().contains(m.key) {
        found == v.cache[m.key] && after == v
    } else if exhausted {
        found is None && after == (JitView { cache: v.cache.insert(m.key, None), ..v })
    } else if !ready {
        found is None && after == v
    } else {
        match found {
            Some(i) => i == v.methods.len() && exists|c: Compiled|
                #[trigger] c.is_of(m, target) && after == after_compile(v, m.key, c, target.web),
            None => method::declines(m, target) && exists|text: Seq<char>|
                #[trigger] is_reason(m.ops@, target, text) && after == after_decline(
                    v,
                    m.key,
                    text,
                ),
        }
    }
}

/// What became of a method that was remembered stays so: it is neither compiled nor declined a
/// second time.
pub proof fn methods_are_met_once(
    v: JitView,
    m: Method,
    ready: bool,
    exhausted: bool,
    target: Target,
    found: Option<usize>,
    after: JitView,
    ready_again: bool,
    exhausted_again: bool,
    found_again: Option<usize>,
    after_again: JitView,
)
    requires
        meets(v, m, ready, exhausted, target, found, after),
        after.cache.dom().contains(m.key),
        meets(after, m, ready_again, exhausted_again, target, found_again, after_again),
    ensures
        found_again == found,
        after_again == after,
{
}

/// A method that waits for a script leaves no trace, and is compiled or declined when the script
/// has been initialized.
pub proof fn waiting_leaves_no_trace(
    v: JitView,
    m: Method,
    target: Target,
    found: Option<usize>,
    after: JitView,
)
    requires
        !v.cache.dom().contains(m.key),
        meets(v, m, false, false, target, found, after),
    ensures
        found is None,
        after == v,
{
}

impl WasmJit {
    /// What the code is made for.
    pub closed spec fn made_for(self) -> Target {
        self.target
    }

    /// The cache in front agrees with the table of methods, which holds methods that exist.
    pub closed spec fn well_formed(self) -> bool {
        &&& self.ic@.len() == IC_SIZE
        &&& forall|s: int|
            0 <= s < IC_SIZE ==> (#[trigger] self.ic@[s] matches Some((key, i))
                ==> self.cache@.dom().contains(key) && self.cache@[key] == Some(i))
        &&& forall|key: u64|
            #[trigger] self.cache@.dom().contains(key) ==> (self.cache@[key] matches Some(i) ==> i
                < self.methods@.len())
        &&& forall|k: int|
            0 <= k < self.pending@.len() ==> self.cache@.dom().contains(
                #[trigger] self.pending@[k],
            ) && self.cache@[self.pending@[k]] is Some
        &&& self.declines.well_formed()
    }

    /// A compiler for an engine whose memories the host fills.
    pub fn new() -> (r: WasmJit)
        ensures
            r@ == fresh(),
            r.well_formed(),
            r.made_for() == wasm::native_target(),
    {
        WasmJit::for_target(Target::native())
    }

    /// A compiler for `target`.
    pub fn for_target(target: Target) -> (r: WasmJit)
        ensures
            r@ == fresh(),
            r.well_formed(),
            r.made_for() == target,
    {
        let mut ic: Vec<Option<(u64, usize)>> = Vec::new();
        while ic.len() < IC_SIZE
            invariant
                ic@.len() <= IC_SIZE,
                forall|s: int| 0 <= s < ic@.len() ==> (#[trigger] ic@[s]) is None,
            decreases IC_SIZE - ic@.len(),
        {
            ic.push(None);
        }
        WasmJit {
            target,
            cache: new_table(),
            methods: Vec::new(),
            ic,
            pending: Vec::new(),
            verify: false,
            in_verify: false,
            hits: 0,
            mismatches: 0,
            last_result: 0,
            results: new_set(),
            verify_seen: new_table(),
            declines: Declines::new(),
            report_due: false,
        }
    }

    /// The same compiler, every run of whose code is checked against the interpreter, up to
    /// [`VERIFY_LIMIT`] runs of each method; or none is.
    pub fn with_verify(self, verify: bool) -> (r: WasmJit)
        requires
            self.well_formed(),
        ensures
            r@ == (JitView { verify, ..self@ }),
            r.well_formed(),
            r.made_for() == self.made_for(),
    {
        let mut r = self;
        r.verify = verify;
        r
    }

    /// How many calls compiled code has run.
    pub fn hits(&self) -> (r: u32)
        ensures
            r == self@.hits,
    {
        self.hits
    }

    /// How many checks have found a fault.
    pub fn mismatches(&self) -> (r: u32)
        ensures
            r == self@.mismatches,
    {
        self.mismatches
    }

    /// What compiled code returned last.
    pub fn last_result(&self) -> (r: u64)
        ensures
            r == self@.last_result,
    {
        self.last_result
    }

    /// Whether compiled code has returned `bits`. Every result is kept, so what is kept grows with
    /// the results that differ, without a bound.
    pub fn produced(&self, bits: u64) -> (r: bool)
        ensures
            r == self@.results.contains(bits),
    {
        has_word(&self.results, bits)
    }

    /// The reasons for which methods were declined, and how often each came up, the most
    /// frequent first.
    pub fn decline_histogram(&self) -> (r: Vec<(String, u32)>)
        ensures
            declines::lists(r@, self@.declines),
            declines::ranked(r@),
    {
        self.declines.decline_histogram()
    }

    /// What there is for the log since the last report: how many methods were declined, and the
    /// reasons, the most frequent first. `None` unless a new reason has come up or a further two
    /// hundred methods have been declined.
    pub fn decline_report(&mut self) -> (r: Option<(u32, Vec<(String, u32)>)>)
        requires
            old(self).well_formed(),
        ensures
            final(self).well_formed(),
            final(self).made_for() == old(self).made_for(),
            final(self)@ == (JitView { report_due: false, ..old(self)@ }),
            match r {
                Some((total, histogram)) => old(self)@.report_due && total == old(self)@.declined
                    && declines::lists(histogram@, old(self)@.declines) && declines::ranked(
                    histogram@,
                ),
                None => !old(self)@.report_due,
            },
    {
        if !self.report_due {
            return None;
        }
        self.report_due = false;
        Some((self.declines.total(), self.declines.decline_histogram()))
    }

    /// The compiled method with a number.
    pub fn method(&self, i: usize) -> (r: &Compiled)
        requires
            i < self@.methods.len(),
        ensures
            *r == self@.methods[i as int],
    {
        &self.methods[i]
    }

    /// What is known of a method that was met before. A compiled one is found in the cache in
    /// front from now on.
    fn find(&mut self, key: u64) -> (r: Option<Option<usize>>)
        requires
            old(self).well_formed(),
        ensures
            final(self)@ == old(self)@,
            final(self).well_formed(),
            final(self).made_for() == old(self).made_for(),
            r == if old(self)@.cache.dom().contains(key) {
                Some(old(self)@.cache[key])
            } else {
                None
            },
    {
        let slot: usize = ic_slot(key);
        if let Some((k, i)) = self.ic[slot] {
            if k == key {
                return Some(Some(i));
            }
        }
        let found: Option<Option<usize>> = match look_up(&self.cache, key) {
            Some(entry) => Some(*entry),
            None => None,
        };
        if let Some(Some(i)) = found {
            self.ic.set(slot, Some((key, i)));
        }
        found
    }

    fn reason(&self, m: &Method) -> (r: String)
        requires
            method::well_formed(*m),
        ensures
            is_reason(m.ops@, self.made_for(), r@),
    {
        match first_unsupported_boxed_for(&self.target, &m.ops) {
            Some(name) => name,
            None => "<compile>".to_string(),
        }
    }

    /// The number of the compiled method, which is compiled when it is first met. `None` if it
    /// is declined. That is remembered, except where a script has not been initialized yet:
    /// compiling would initialize it too early, and the method is met again. `initialized`
    /// tells it for each script that the method reads the globals of, `pages` is the size of
    /// the memory.
    pub fn compiled(&mut self, m: &Method, initialized: &[bool], pages: u64) -> (r: Option<usize>)
        requires
            old(self).well_formed(),
            method::well_formed(*m),
            old(self)@.declined < u32::MAX,
        ensures
            final(self).well_formed(),
            final(self).made_for() == old(self).made_for(),
            meets(
                old(self)@,
                *m,
                all_ready(initialized@),
                out_of_memory(old(self).made_for(), pages),
                old(self).made_for(),
                r,
                final(self)@,
            ),
    {
        if let Some(entry) = self.find(m.key) {
            return entry;
        }
        if self.target.web && heap_exhausted(pages) {
            put(&mut self.cache, m.key, None);
            return None;
        }
        if !scripts_ready(initialized) {
            return None;
        }
        match compile_method(m, &self.target) {
            Some(c) => {
                let i: usize = self.methods.len();
                let ghost compiled = c;
                self.methods.push(c);
                put(&mut self.cache, m.key, Some(i));
                if self.target.web {
                    self.pending.push(m.key);
                }
                assert(compiled.is_of(*m, self.made_for()) && self@ =~= after_compile(
                    old(self)@,
                    m.key,
                    compiled,
                    self.made_for().web,
                ));
                Some(i)
            },
            None => {
                let reason = self.reason(m);
                let ghost text = reason@;
                if self.declines.record_decline(reason) {
                    self.report_due = true;
                }
                put(&mut self.cache, m.key, None);
                assert(is_reason(m.ops@, self.made_for(), text) && self@ =~= after_decline(
                    old(self)@,
                    m.key,
                    text,
                ));
                None
            },
        }
    }
}

// Calls.

/// What becomes of a call.
#[derive(Debug, Clone, Copy, PartialEq, Eq, Structural)]
pub enum Attempt {
    /// The interpreter runs it.
    Decline,
    /// The compiled method with a number runs it: directly, or as a module. It may be checked.
    Run { method: usize, direct: bool, verify: bool },
}

/// How often a method was checked.
pub open spec fn times_seen(v: JitView, key: u64) -> u32 {
    if v.seen.dom().contains(key) {
        v.seen[key]
    } else {
        0
    }
}

/// A call of `m` is checked against the interpreter, up to a number of checks for each method.
pub open spec fn is_checked(v: JitView, m: Method) -> bool {
    v.verify && times_seen(v, m.key) < VERIFY_LIMIT
}

/// What becomes of a call of `m`, given the number of the compiled method.
pub open spec fn attempt(v: JitView, m: Method, found: Option<usize>) -> Attempt {
    match found {
        Some(i) => Attempt::Run {
            method: i,
            direct: v.methods[i as int].direct_ops is Some,
            verify: is_checked(v, m),
        },
        None => Attempt::Decline,
    }
}

/// What a call gives.
#[derive(Debug, Clone, Copy, PartialEq, Eq, Structural)]
pub enum Ran {
    /// The engine could not run it; the interpreter does.
    Interpret,
    /// It threw the error that is pending.
    Throw,
    Value(u64),
}

/// What a call gives, by the engine's result and whether an error is pending.
pub open spec fn outcome(result: Option<u64>, threw: bool) -> Ran {
    match result {
        None => Ran::Interpret,
        Some(word) => if threw {
            Ran::Throw
        } else {
            Ran::Value(word)
        },
    }
}

/// The state after a call.
pub open spec fn after_run(v: JitView, ran: Ran) -> JitView {
    match ran {
        Ran::Interpret => v,
        Ran::Throw => JitView { hits: v.hits + 1, ..v },
        Ran::Value(word) => JitView {
            hits: v.hits + 1,
            last_result: word,
            results: v.results.insert(word),
            ..v
        },
    }
}

impl WasmJit {
    /// What becomes of a call of `m`. While the interpreter runs for a check, everything is left
    /// to it.
    pub fn try_run(&mut self, m: &Method, initialized: &[bool], pages: u64) -> (r: Attempt)
        requires
            old(self).well_formed(),
            method::well_formed(*m),
            old(self)@.declined < u32::MAX,
        ensures
            final(self).well_formed(),
            final(self).made_for() == old(self).made_for(),
            old(self)@.in_verify ==> r is Decline && final(self)@ == old(self)@,
            !old(self)@.in_verify ==> exists|found: Option<usize>|
                r == attempt(final(self)@, *m, found) && #[trigger] meets(
                    old(self)@,
                    *m,
                    all_ready(initialized@),
                    out_of_memory(old(self).made_for(), pages),
                    old(self).made_for(),
                    found,
                    final(self)@,
                ),
    {
        if self.in_verify {
            return Attempt::Decline;
        }
        let found = self.compiled(m, initialized, pages);
        match found {
            None => Attempt::Decline,
            Some(i) => {
                let direct = self.methods[i].direct_ops.is_some();
                let verify = self.will_verify(m);
                let r = Attempt::Run { method: i, direct, verify };
                assert(r == attempt(self@, *m, found));
                r
            },
        }
    }

    fn will_verify(&self, m: &Method) -> (r: bool)
        ensures
            r == is_checked(self@, *m),
    {
        let seen: u32 = match look_up(&self.verify_seen, m.key) {
            Some(n) => *n,
            None => 0,
        };
        self.verify && seen < VERIFY_LIMIT
    }

    /// A call has been run: `result` is what the engine returned, `None` if it could not run,
    /// and `threw` tells whether an error is pending.
    pub fn ran(&mut self, result: Option<u64>, threw: bool) -> (r: Ran)
        requires
            old(self).well_formed(),
            old(self)@.hits < u32::MAX,
        ensures
            final(self).well_formed(),
            final(self).made_for() == old(self).made_for(),
            r == outcome(result, threw),
            final(self)@ == after_run(old(self)@, r),
    {
        match result {
            None => Ran::Interpret,
            Some(word) => {
                self.hits = self.hits + 1;
                if threw {
                    return Ran::Throw;
                }
                self.last_result = word;
                add_word(&mut self.results, word);
                Ran::Value(word)
            },
        }
    }

    /// A call of the method `key` is being checked.
    pub fn checking(&mut self, key: u64)
        requires
            old(self).well_formed(),
            times_seen(old(self)@, key) < u32::MAX,
        ensures
            final(self).well_formed(),
            final(self).made_for() == old(self).made_for(),
            final(self)@ == (JitView {
                seen: old(self)@.seen.insert(key, (times_seen(old(self)@, key) + 1) as u32),
                ..old(self)@
            }),
    {
        let seen: u32 = match look_up(&self.verify_seen, key) {
            Some(n) => *n,
            None => 0,
        };
        put(&mut self.verify_seen, key, seen + 1);
    }

    /// The interpreter starts to run for a check, or has ended.
    pub fn interpreting(&mut self, on: bool)
        requires
            old(self).well_formed(),
        ensures
            final(self).well_formed(),
            final(self).made_for() == old(self).made_for(),
            final(self)@ == (JitView { in_verify: on, ..old(self)@ }),
    {
        self.in_verify = on;
    }

    /// A check has ended with `verdict`, on a method that makes calls or makes none. Gives the
    /// kind of the fault, if there is one.
    pub fn checked(&mut self, verdict: &Verdict, calls: bool) -> (r: Option<verify::Difference>)
        requires
            old(self).well_formed(),
            old(self)@.mismatches < u32::MAX,
        ensures
            final(self).well_formed(),
            final(self).made_for() == old(self).made_for(),
            r == verify::difference(*verdict, calls),
            final(self)@ == if r is Some {
                JitView { mismatches: old(self)@.mismatches + 1, ..old(self)@ }
            } else {
                old(self)@
            },
    {
        let kind = verdict.kind(calls);
        if kind.is_some() {
            self.mismatches = self.mismatches + 1;
        }
        kind
    }
}

// Generations.

/// `members` are the methods `keys`, in order.
pub open spec fn members_are(members: Seq<GenMember>, v: JitView, keys: Seq<u64>) -> bool {
    &&& members.len() == keys.len()
    &&& forall|k: int|
        0 <= k < keys.len() ==> {
            let c = v.methods[v.cache[#[trigger] keys[k]]->0 as int];
            &&& members[k].ops@ == c.ops@
            &&& members[k].switches@ == c.switches@
            &&& members[k].exceptions@ == c.exceptions@
        }
}

/// `d` is `c` without what its module was made from.
pub open spec fn is_released(c: Compiled, d: Compiled) -> bool {
    &&& d.ops@.len() == 0
    &&& d.switches@.len() == 0
    &&& d.exceptions@.len() == 0
    &&& d == (Compiled { ops: d.ops, switches: d.switches, exceptions: d.exceptions, ..c })
}

/// One of the first `n` of `keys` is compiled as method `i`.
pub open spec fn is_among(v: JitView, keys: Seq<u64>, n: int, i: int) -> bool {
    exists|k: int|
        0 <= k < n && v.cache.dom().contains(#[trigger] keys[k]) && v.cache[keys[k]] == Some(
            i as usize,
        )
}

impl WasmJit {
    /// Whether enough methods have been compiled for a generation.
    pub fn generation_due(&self) -> (r: bool)
        ensures
            r == (self@.pending.len() >= GEN_BATCH),
    {
        self.pending.len() >= GEN_BATCH
    }

    /// The module of a generation of the methods that have been compiled since the last one, with
    /// the manifest to bind its imports by and the methods that are its members. `None` if it
    /// cannot be made; the methods then keep their own modules. Where the memory has grown too
    /// far, they stay for a later one.
    pub fn build_generation(&mut self, pages: u64) -> (r: Option<(Vec<u8>, Manifest, Vec<u64>)>)
        requires
            old(self).well_formed(),
        ensures
            final(self).well_formed(),
            final(self).made_for() == old(self).made_for(),
            pages >= MAX_PAGES - HEADROOM_PAGES ==> r is None && final(self)@ == old(self)@,
            pages < MAX_PAGES - HEADROOM_PAGES ==> final(self)@ == (JitView {
                pending: Seq::empty(),
                ..old(self)@
            }) && exists|members: Seq<GenMember>| #[trigger]
                members_are(members, old(self)@, old(self)@.pending) && match module::generation_parts(
                    members,
                    old(self).made_for(),
                ) {
                    Some((parts, m)) => r matches Some((bytes, union, keys)) && bytes@
                        == encode::module_bytes(parts) && union == m && keys@ == old(
                        self,
                    )@.pending,
                    None => r is None,
                },
    {
        if heap_exhausted(pages) {
            return None;
        }
        let mut keys: Vec<u64> = Vec::new();
        std::mem::swap(&mut keys, &mut self.pending);
        let ghost v = old(self)@;
        let mut members: Vec<GenMember> = Vec::new();
        let mut k: usize = 0;
        while k < keys.len()
            invariant
                k <= keys@.len(),
                keys@ == v.pending,
                v.cache == self.cache@,
                v.methods == self.methods@,
                members@.len() == k,
                forall|j: int|
                    0 <= j < keys@.len() ==> self.cache@.dom().contains(#[trigger] keys@[j])
                        && self.cache@[keys@[j]] is Some,
                forall|key: u64|
                    #[trigger] self.cache@.dom().contains(key) ==> (self.cache@[key] matches Some(i)
                        ==> i < self.methods@.len()),
                forall|j: int|
                    0 <= j < k ==> {
                        let c = v.methods[v.cache[#[trigger] keys@[j]]->0 as int];
                        &&& members@[j].ops@ == c.ops@
                        &&& members@[j].switches@ == c.switches@
                        &&& members@[j].exceptions@ == c.exceptions@
                    },
            decreases keys@.len() - k,
        {
            let entry: Option<usize> = match look_up(&self.cache, keys[k]) {
                Some(entry) => *entry,
                None => None,
            };
            if let Some(i) = entry {
                let c = &self.methods[i];
                members.push(
                    GenMember { ops: &c.ops, switches: &c.switches, exceptions: &c.exceptions },
                );
            }
            k = k + 1;
        }
        assert(members_are(members@, v, v.pending));
        match compile_generation_for(&self.target, &members) {
            Some((bytes, union)) => Some((bytes, union, keys)),
            None => None,
        }
    }

    /// A generation of `keys` runs: what their own modules were made from is not needed any more.
    pub fn generation_installed(&mut self, keys: &[u64])
        requires
            old(self).well_formed(),
        ensures
            final(self).well_formed(),
            final(self).made_for() == old(self).made_for(),
            final(self)@ == (JitView { methods: final(self)@.methods, ..old(self)@ }),
            final(self)@.methods.len() == old(self)@.methods.len(),
            forall|i: int|
                0 <= i < old(self)@.methods.len() ==> if is_among(
                    old(self)@,
                    keys@,
                    keys@.len() as int,
                    i,
                ) {
                    is_released(old(self)@.methods[i], #[trigger] final(self)@.methods[i])
                } else {
                    final(self)@.methods[i] == old(self)@.methods[i]
                },
    {
        let ghost v = self@;
        let total: usize = self.methods.len();
        let mut k: usize = 0;
        while k < keys.len()
            invariant
                k <= keys@.len(),
                total == v.methods.len(),
                self.well_formed(),
                self.made_for() == old(self).made_for(),
                v == old(self)@,
                self@ == (JitView { methods: self@.methods, ..v }),
                self@.methods.len() == v.methods.len(),
                forall|i: int|
                    0 <= i < v.methods.len() ==> if is_among(v, keys@, k as int, i) {
                        is_released(v.methods[i], #[trigger] self@.methods[i])
                    } else {
                        self@.methods[i] == v.methods[i]
                    },
            decreases keys@.len() - k,
        {
            let ghost before = self@.methods;
            let entry: Option<usize> = match look_up(&self.cache, keys[k]) {
                Some(entry) => *entry,
                None => None,
            };
            if let Some(i) = entry {
                assert(self.cache@.dom().contains(keys@[k as int]));
                self.methods[i].ops = Vec::new();
                self.methods[i].switches = Vec::new();
                self.methods[i].exceptions = Vec::new();
            }
            proof {
                let now = self@.methods;
                assert forall|i: int| 0 <= i < v.methods.len() implies if is_among(
                    v,
                    keys@,
                    k + 1,
                    i,
                ) {
                    is_released(v.methods[i], #[trigger] now[i])
                } else {
                    now[i] == v.methods[i]
                } by {
                    let hit = v.cache.dom().contains(keys@[k as int]) && v.cache[keys@[k as int]]
                        == Some(i as usize);
                    assert(is_among(v, keys@, k + 1, i) <==> is_among(v, keys@, k as int, i)
                        || hit) by {
                        if is_among(v, keys@, k + 1, i) {
                            let j = choose|j: int|
                                0 <= j < k + 1 && v.cache.dom().contains(#[trigger] keys@[j])
                                    && v.cache[keys@[j]] == Some(i as usize);
                            if j < k {
                                assert(is_among(v, keys@, k as int, i));
                            }
                        }
                        if is_among(v, keys@, k as int, i) {
                            let j = choose|j: int|
                                0 <= j < k && v.cache.dom().contains(#[trigger] keys@[j])
                                    && v.cache[keys@[j]] == Some(i as usize);
                            assert(is_among(v, keys@, k + 1, i));
                        }
                    }
                    assert(now[i] == before[i] || hit);
                }
            }
            k = k + 1;
        }
    }
}

// Calls from one compiled method to another.

/// Whether the parameters of a method allow such calls: it is not variadic, has no more than
/// `max_argc` parameters, and each of them is of a type that the caller can check by its tag.
pub fn all_params_directable(variadic: bool, checkable: &[bool], max_argc: usize) -> (r: bool)
    ensures
        r == (!variadic && checkable@.len() <= max_argc && all_ready(checkable@)),
{
    !variadic && checkable.len() <= max_argc && scripts_ready(checkable)
}

/// A call with `argc` arguments may go to the method directly: the call gives all of its
/// parameters, it has no locals beyond them, which nothing would have set, and its frame fits.
pub open spec fn takes_directly(c: Compiled, allowed: bool, argc: u32) -> bool {
    &&& allowed
    &&& c.param_count == argc
    &&& c.num_locals == argc + 1
    &&& c.num_locals * 8 <= STRIDE
}

/// Where a call with `argc` arguments may go directly: the slot that the method is entered
/// through, the start of its cells, and which member of its generation it is. `allowed` tells
/// whether the method and its parameters allow it, `entry` how it is entered, if it is in a
/// generation.
pub fn direct_target(
    c: &Compiled,
    allowed: bool,
    argc: u32,
    entry: Option<(u32, u32)>,
    ic_base: u32,
) -> (r: Option<(u32, u32, u32)>)
    ensures
        r == match entry {
            Some((slot, member)) => if takes_directly(*c, allowed, argc) {
                Some((slot, ic_base, member))
            } else {
                None
            },
            None => None,
        },
{
    if !allowed || c.param_count != argc as usize || c.num_locals as u64 != argc as u64 + 1
        || c.num_locals as u64 * 8 > STRIDE as u64 {
        return None;
    }
    match entry {
        Some((slot, member)) => Some((slot, ic_base, member)),
        None => None,
    }
}

} // verus!
