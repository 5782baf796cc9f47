//! What running a module takes besides an engine: the host functions that it imports, the
//! bytes of its frame, and which instance runs it.
//!
//! A native engine gives every running call an instance of its own, out of a pool. In the
//! browser all instances share one memory, in which every depth of calls has its own part, and
//! are entered through reserved slots of the function table. Methods start out with a module
//! and a slot each; those of a generation share the generation's.

use crate::keyed::{look_up, new_table, put, take_out};
use crate::lower::encode::{Entity, Import};
use crate::lower::manifest;
use crate::lower::manifest::{Manifest, HELPER3_KINDS};
use crate::lower::module;
use crate::lower::module::numbered_name;
use fnv::FnvHashMap;
use vstd::prelude::*;

verus! {

// Host functions.

/// How many unary helpers there are.
pub const UNARY_HELPERS: u32 = 28;

/// How many binary helpers there are.
pub const BINARY_HELPERS: u32 = 19;

/// A function of the host that modules import.
#[derive(Debug, Clone, Copy, PartialEq, Eq, Structural)]
pub enum HostFn {
    Unary(u32),
    GetProperty,
    GetSlot,
    GetPropertyFast,
    Binary(u32),
    Ternary(u32),
    CallMethod,
    CallProperty,
    ConstructSuper,
    CallValue,
    PushCallArg,
    PendingError,
    Coerce,
    VCall,
}

/// How a module imports the function.
pub open spec fn import_of(f: HostFn) -> Import {
    match f {
        HostFn::Unary(i) => module::func(module::numbered('h', i as nat), 1),
        HostFn::GetProperty => module::func("gp"@, 2),
        HostFn::GetSlot => module::func("gs"@, 2),
        HostFn::GetPropertyFast => module::func("gpf"@, 3),
        HostFn::Binary(i) => module::func(module::numbered('t', i as nat), 2),
        HostFn::Ternary(k) => module::func(module::numbered('s', k as nat), 3),
        HostFn::CallMethod => module::func("cm"@, 3),
        HostFn::CallProperty => module::func("cp"@, 3),
        HostFn::ConstructSuper => module::func("csup"@, 2),
        HostFn::CallValue => module::func("callv"@, 3),
        HostFn::PushCallArg => module::func("pca"@, 4),
        HostFn::PendingError => module::func("perr"@, 5),
        HostFn::Coerce => module::func("coerce"@, 2),
        HostFn::VCall => module::func("vc"@, 7),
    }
}

/// How a module imports each of the functions.
pub open spec fn imports_of(fs: Seq<HostFn>) -> Seq<Import> {
    fs.map_values(|f: HostFn| import_of(f))
}

impl HostFn {
    /// The name that modules import it by.
    pub fn name(self) -> (r: String)
        ensures
            r@ == import_of(self).name,
    {
        proof {
            reveal_strlit("h");
            reveal_strlit("t");
            reveal_strlit("s");
        }
        match self {
            HostFn::Unary(i) => numbered_name("h", i),
            HostFn::GetProperty => "gp".to_string(),
            HostFn::GetSlot => "gs".to_string(),
            HostFn::GetPropertyFast => "gpf".to_string(),
            HostFn::Binary(i) => numbered_name("t", i),
            HostFn::Ternary(k) => numbered_name("s", k),
            HostFn::CallMethod => "cm".to_string(),
            HostFn::CallProperty => "cp".to_string(),
            HostFn::ConstructSuper => "csup".to_string(),
            HostFn::CallValue => "callv".to_string(),
            HostFn::PushCallArg => "pca".to_string(),
            HostFn::PendingError => "perr".to_string(),
            HostFn::Coerce => "coerce".to_string(),
            HostFn::VCall => "vc".to_string(),
        }
    }
}

fn add_if(list: &mut Vec<HostFn>, used: bool, f: HostFn, Ghost(ty): Ghost<u32>)
    requires
        import_of(f).entity == Entity::Func(ty),
    ensures
        imports_of(final(list)@) == imports_of(old(list)@) + module::optional(
            used,
            import_of(f).name,
            ty,
        ),
{
    proof {
        reveal(module::optional);
    }
    if used {
        list.push(f);
    }
    assert(imports_of(list@) =~= imports_of(old(list)@) + module::optional(
        used,
        import_of(f).name,
        ty,
    ));
}

/// The host functions that a module with manifest `m` imports, in the order of its imports.
/// `None` if it asks for more helpers than there are.
pub fn host_functions(m: &Manifest) -> (r: Option<Vec<HostFn>>)
    ensures
        r is Some <==> m.num_helpers <= UNARY_HELPERS && m.num_helpers2 <= BINARY_HELPERS,
        r matches Some(list) ==> imports_of(list@) == module::func_imports(*m),
{
    if m.num_helpers > UNARY_HELPERS || m.num_helpers2 > BINARY_HELPERS {
        return None;
    }
    let mut list: Vec<HostFn> = Vec::new();
    let mut i: u32 = 0;
    while i < m.num_helpers
        invariant
            i <= m.num_helpers,
            imports_of(list@) =~= module::family('h', i as nat, 1),
        decreases m.num_helpers - i,
    {
        let ghost now = list@;
        list.push(HostFn::Unary(i));
        i = i + 1;
        assert(imports_of(list@) =~= imports_of(now).push(import_of(HostFn::Unary((i - 1) as u32))));
    }
    add_if(&mut list, m.has_getprop, HostFn::GetProperty, Ghost(2));
    add_if(&mut list, m.has_getslot, HostFn::GetSlot, Ghost(2));
    add_if(&mut list, m.has_getprop_fast, HostFn::GetPropertyFast, Ghost(3));
    let ghost before = imports_of(list@);
    let mut j: u32 = 0;
    while j < m.num_helpers2
        invariant
            j <= m.num_helpers2,
            imports_of(list@) =~= before + module::family('t', j as nat, 2),
        decreases m.num_helpers2 - j,
    {
        let ghost now = list@;
        list.push(HostFn::Binary(j));
        j = j + 1;
        assert(imports_of(list@) =~= imports_of(now).push(
            import_of(HostFn::Binary((j - 1) as u32)),
        ));
    }
    let ghost before = imports_of(list@);
    let mut k: u32 = 0;
    while k < HELPER3_KINDS as u32
        invariant
            k <= HELPER3_KINDS,
            imports_of(list@) =~= before + module::ternary(m.set3_mask, k as int),
        decreases HELPER3_KINDS - k,
    {
        add_if(&mut list, (m.set3_mask >> k) & 1 == 1, HostFn::Ternary(k), Ghost(3));
        k = k + 1;
    }
    assert(imports_of(list@) == module::helper_imports(*m));
    add_if(&mut list, m.has_call, HostFn::CallMethod, Ghost(3));
    add_if(&mut list, m.has_callprop, HostFn::CallProperty, Ghost(3));
    add_if(&mut list, m.has_construct_super, HostFn::ConstructSuper, Ghost(2));
    add_if(&mut list, m.has_call_value, HostFn::CallValue, Ghost(3));
    add_if(&mut list, m.needs_pca(), HostFn::PushCallArg, Ghost(4));
    add_if(&mut list, m.needs_perr(), HostFn::PendingError, Ghost(5));
    add_if(&mut list, m.has_coerce, HostFn::Coerce, Ghost(2));
    add_if(&mut list, m.has_vcall, HostFn::VCall, Ghost(7));
    Some(list)
}

// Frames.

/// The bytes of a frame's registers, each with its low byte first.
pub open spec fn frame_of(regs: Seq<u64>) -> Seq<u8>
    decreases regs.len(),
{
    if regs.len() == 0 {
        Seq::empty()
    } else {
        frame_of(regs.drop_last()) + vstd::bytes::spec_u64_to_le_bytes(regs.last())
    }
}

proof fn lemma_frame_len(regs: Seq<u64>)
    ensures
        frame_of(regs).len() == 8 * regs.len(),
    decreases regs.len(),
{
    vstd::bytes::lemma_auto_spec_u64_to_from_le_bytes();
    if regs.len() > 0 {
        lemma_frame_len(regs.drop_last());
    }
}

/// Register `i` stands in the eight bytes from `8 * i` on.
pub proof fn frame_holds_registers(regs: Seq<u64>, i: int)
    requires
        0 <= i < regs.len(),
    ensures
        frame_of(regs).len() == 8 * regs.len(),
        vstd::bytes::spec_u64_from_le_bytes(frame_of(regs).subrange(8 * i, 8 * i + 8)) == regs[i],
    decreases regs.len(),
{
    vstd::bytes::lemma_auto_spec_u64_to_from_le_bytes();
    lemma_frame_len(regs);
    lemma_frame_len(regs.drop_last());
    let last = vstd::bytes::spec_u64_to_le_bytes(regs.last());
    if i < regs.len() - 1 {
        frame_holds_registers(regs.drop_last(), i);
        assert(frame_of(regs).subrange(8 * i, 8 * i + 8) =~= frame_of(regs.drop_last()).subrange(
            8 * i,
            8 * i + 8,
        ));
    } else {
        assert(frame_of(regs).subrange(8 * i, 8 * i + 8) =~= last);
    }
}

/// The bytes of a native engine's frame memory: one page.
pub const NATIVE_MEM_BYTES: usize = 65536;

/// The bytes to write at the start of a native instance's memory. `None` if they are more
/// than it has.
pub fn native_frame(regs: &[u64]) -> (r: Option<Vec<u8>>)
    ensures
        match r {
            Some(bytes) => 8 * regs@.len() <= NATIVE_MEM_BYTES && bytes@ == frame_of(regs@),
            None => 8 * regs@.len() > NATIVE_MEM_BYTES,
        },
{
    if regs.len() > NATIVE_MEM_BYTES / 8 {
        return None;
    }
    let mut bytes: Vec<u8> = Vec::new();
    let mut i: usize = 0;
    while i < regs.len()
        invariant
            i <= regs@.len(),
            bytes@ == frame_of(regs@.take(i as int)),
        decreases regs@.len() - i,
    {
        let mut word = vstd::bytes::u64_to_le_bytes(regs[i]);
        bytes.append(&mut word);
        assert(regs@.take(i + 1).drop_last() =~= regs@.take(i as int));
        i = i + 1;
    }
    assert(regs@.take(i as int) =~= regs@);
    Some(bytes)
}

/// The bytes of the shared memory that each depth of calls has.
pub const STRIDE: usize = 4096;

/// The pages of the shared memory.
pub const PAGES: u32 = 64;

/// The bytes of the shared memory.
pub const MEM_BYTES: usize = 4_194_304;

/// A frame of `n` registers at `depth` stays within its part and within the memory.
pub open spec fn frame_fits(depth: nat, n: nat) -> bool {
    8 * n <= STRIDE && depth * STRIDE + 8 * n <= MEM_BYTES
}

/// Frames at different depths share no byte.
pub proof fn frames_are_disjoint(depth: nat, n: nat, other: nat, k: nat, byte: int)
    requires
        frame_fits(depth, n),
        frame_fits(other, k),
        depth != other,
        depth * STRIDE <= byte < depth * STRIDE + 8 * n,
    ensures
        0 <= byte < MEM_BYTES,
        !(other * STRIDE <= byte < other * STRIDE + 8 * k),
{
}

/// Where the frame of a call at `depth` starts; `None` if it does not fit.
pub fn frame_base(depth: usize, num_regs: usize) -> (r: Option<u32>)
    ensures
        match r {
            Some(base) => frame_fits(depth as nat, num_regs as nat) && base == depth * STRIDE,
            None => !frame_fits(depth as nat, num_regs as nat),
        },
{
    if num_regs > STRIDE / 8 || depth > MEM_BYTES / STRIDE {
        return None;
    }
    if depth * STRIDE + num_regs * 8 > MEM_BYTES {
        return None;
    }
    Some((depth * STRIDE) as u32)
}

// Native instances.

/// The instances that are not running, by the method that they are of.
pub struct Pool<T> {
    instances: FnvHashMap<u64, Vec<T>>,
}

impl<T> Pool<T> {
    /// The instances of method `key` that are not running.
    pub closed spec fn idle(self, key: u64) -> Seq<T> {
        if self.instances@.dom().contains(key) {
            self.instances@[key]@
        } else {
            Seq::empty()
        }
    }

    /// No instance.
    pub fn new() -> (r: Pool<T>)
        ensures
            forall|key: u64| #[trigger] r.idle(key) == Seq::<T>::empty(),
    {
        Pool { instances: new_table() }
    }

    /// Takes an instance of method `key` out for a call; `None` if one has to be built. What is
    /// taken out is not handed out again before it is given back, so that a call from within
    /// the call finds another.
    pub fn take(&mut self, key: u64) -> (r: Option<T>)
        ensures
            match r {
                Some(t) => old(self).idle(key).len() > 0 && t == old(self).idle(key).last()
                    && final(self).idle(key) == old(self).idle(key).drop_last(),
                None => old(self).idle(key).len() == 0 && final(self).idle(key).len() == 0,
            },
            forall|other: u64|
                other != key ==> #[trigger] final(self).idle(other) == old(self).idle(other),
    {
        match take_out(&mut self.instances, key) {
            None => None,
            Some(mut list) => {
                let r = list.pop();
                put(&mut self.instances, key, list);
                r
            },
        }
    }

    /// Gives an instance back after its call.
    pub fn give_back(&mut self, key: u64, instance: T)
        ensures
            final(self).idle(key) == old(self).idle(key).push(instance),
            forall|other: u64|
                other != key ==> #[trigger] final(self).idle(other) == old(self).idle(other),
    {
        let mut list: Vec<T> = match take_out(&mut self.instances, key) {
            Some(list) => list,
            None => Vec::new(),
        };
        list.push(instance);
        put(&mut self.instances, key, list);
    }
}

// The browser.

/// The depth of calls, and what has been instantiated.
#[verifier::ext_equal]
pub struct WebView {
    pub depth: nat,
    /// Reserved slots of the function table that hold nothing yet.
    pub free: Seq<usize>,
    /// The methods with an instance of their own, and the slot it is entered through.
    pub instances: Map<u64, Option<usize>>,
    /// The methods of generations: which generation, and which of its members.
    pub members: Map<u64, (usize, u32)>,
    /// The slot that each generation is entered through.
    pub generations: Seq<Option<usize>>,
}

impl WebView {
    /// The instance of `key` is entered through `slot`.
    pub open spec fn held(self, key: u64, slot: usize) -> bool {
        self.instances.dom().contains(key) && self.instances[key] == Some(slot)
    }

    /// Generation `g` is entered through `slot`.
    pub open spec fn leads(self, g: int, slot: usize) -> bool {
        0 <= g < self.generations.len() && self.generations[g] == Some(slot)
    }

    /// No slot serves two purposes, and members are those of generations that exist.
    pub open spec fn well_formed(self) -> bool {
        &&& self.free.no_duplicates()
        &&& forall|key: u64, slot: usize| #[trigger]
            self.held(key, slot) ==> !self.free.contains(slot)
        &&& forall|g: int, slot: usize| #[trigger]
            self.leads(g, slot) ==> !self.free.contains(slot)
        &&& forall|key: u64, other: u64, slot: usize|
            #[trigger] self.held(key, slot) && #[trigger] self.held(other, slot) ==> key == other
        &&& forall|g: int, h: int, slot: usize|
            #[trigger] self.leads(g, slot) && #[trigger] self.leads(h, slot) ==> g == h
        &&& forall|key: u64, g: int, slot: usize|
            !(#[trigger] self.held(key, slot) && #[trigger] self.leads(g, slot))
        &&& forall|key: u64|
            #[trigger] self.members.dom().contains(key) ==> self.members[key].0
                < self.generations.len()
    }

    /// The next free slot taken; it serves if it could be set.
    pub open spec fn next_slot(self, set: bool) -> Option<usize> {
        if self.free.len() > 0 && set {
            Some(self.free.last())
        } else {
            None
        }
    }

    /// The slots that are left when the next one is taken.
    pub open spec fn slots_left(self) -> Seq<usize> {
        if self.free.len() > 0 {
            self.free.drop_last()
        } else {
            self.free
        }
    }

    /// The first `n` of `keys` are members of generation `g`.
    pub open spec fn joined(self, keys: Seq<u64>, n: nat, g: usize) -> Map<u64, (usize, u32)>
        decreases n,
    {
        if n == 0 {
            self.members
        } else {
            self.joined(keys, (n - 1) as nat, g).insert(keys[n - 1], (g, (n - 1) as u32))
        }
    }

    /// The instances of the first `n` of `keys` dropped, and their slots freed.
    pub open spec fn dropped(self, keys: Seq<u64>, n: nat) -> WebView
        decreases n,
    {
        if n == 0 {
            self
        } else {
            self.dropped(keys, (n - 1) as nat).without(keys[n - 1])
        }
    }

    /// The instance of `key` dropped, and its slot freed.
    pub open spec fn without(self, key: u64) -> WebView {
        if self.instances.dom().contains(key) {
            WebView {
                instances: self.instances.remove(key),
                free: match self.instances[key] {
                    Some(slot) => self.free.push(slot),
                    None => self.free,
                },
                ..self
            }
        } else {
            self
        }
    }

    /// A generation of `keys` installed, entered through the next slot if it could be set.
    pub open spec fn installed(self, keys: Seq<u64>, set: bool) -> WebView {
        let n = keys.len();
        let entered = WebView {
            free: self.slots_left(),
            generations: self.generations.push(self.next_slot(set)),
            members: self.joined(keys, n, self.generations.len() as usize),
            ..self
        };
        entered.dropped(keys, n)
    }
}

/// How a method is entered.
#[derive(Debug, Clone, Copy, PartialEq, Eq, Structural)]
pub enum Entry {
    /// Not at all: its frame does not fit.
    Decline,
    /// As a member of a generation.
    Member { generation: usize, member: u32, slot: Option<usize>, state_ptr: u32 },
    /// By its own instance.
    Own { slot: Option<usize>, state_ptr: u32 },
    /// An instance has to be built first.
    Build,
}

/// How method `key` with `n` registers is entered.
pub open spec fn entry(v: WebView, key: u64, n: nat) -> Entry {
    if !frame_fits(v.depth, n) {
        Entry::Decline
    } else if v.members.dom().contains(key) {
        Entry::Member {
            generation: v.members[key].0,
            member: v.members[key].1,
            slot: v.generations[v.members[key].0 as int],
            state_ptr: (v.depth * STRIDE) as u32,
        }
    } else if v.instances.dom().contains(key) {
        Entry::Own { slot: v.instances[key], state_ptr: (v.depth * STRIDE) as u32 }
    } else {
        Entry::Build
    }
}

/// One depth further down.
pub open spec fn deeper(v: WebView) -> WebView {
    WebView { depth: v.depth + 1, ..v }
}

/// The depth of calls, and what has been instantiated.
pub struct Web {
    depth: usize,
    free: Vec<usize>,
    instances: FnvHashMap<u64, Option<usize>>,
    members: FnvHashMap<u64, (usize, u32)>,
    generations: Vec<Option<usize>>,
}

impl View for Web {
    type V = WebView;

    closed spec fn view(&self) -> WebView {
        WebView {
            depth: self.depth as nat,
            free: self.free@,
            instances: self.instances@,
            members: self.members@,
            generations: self.generations@,
        }
    }
}

impl Web {
    /// Nothing instantiated, with the given reserved slots.
    pub fn new(slots: Vec<usize>) -> (r: Web)
        requires
            slots@.no_duplicates(),
        ensures
            r@ == (WebView {
                depth: 0,
                free: slots@,
                instances: Map::empty(),
                members: Map::empty(),
                generations: Seq::empty(),
            }),
            r@.well_formed(),
    {
        Web {
            depth: 0,
            free: slots,
            instances: new_table(),
            members: new_table(),
            generations: Vec::new(),
        }
    }

    /// The slot that the next instance will be entered through, to be set to its function.
    pub fn free_slot(&self) -> (r: Option<usize>)
        ensures
            r == self@.next_slot(true),
    {
        if self.free.len() > 0 {
            Some(self.free[self.free.len() - 1])
        } else {
            None
        }
    }

    fn alloc_slot(&mut self, set: bool) -> (r: Option<usize>)
        ensures
            r == old(self)@.next_slot(set),
            final(self)@ == (WebView { free: old(self)@.slots_left(), ..old(self)@ }),
    {
        match self.free.pop() {
            Some(slot) => if set {
                Some(slot)
            } else {
                None
            },
            None => None,
        }
    }

    /// Method `key` has been instantiated; `set` tells whether the free slot could be set to its
    /// function.
    pub fn install_instance(&mut self, key: u64, set: bool)
        requires
            old(self)@.well_formed(),
            !old(self)@.instances.dom().contains(key),
        ensures
            final(self)@ == (WebView {
                free: old(self)@.slots_left(),
                instances: old(self)@.instances.insert(key, old(self)@.next_slot(set)),
                ..old(self)@
            }),
            final(self)@.well_formed(),
    {
        let ghost before = self@;
        let slot = self.alloc_slot(set);
        put(&mut self.instances, key, slot);
        proof {
            let after = self@;
            assert forall|k: u64, s: usize| #[trigger] after.held(k, s) implies (k == key
                && before.next_slot(set) == Some(s)) || (k != key && before.held(k, s)) by {}
            assert forall|g: int, s: usize| #[trigger] after.leads(g, s) implies before.leads(g, s) by {}
            lemma_slot_taken(before);
        }
    }
}

proof fn lemma_slot_taken(v: WebView)
    requires
        v.free.no_duplicates(),
    ensures
        v.slots_left().no_duplicates(),
        forall|s: usize| #[trigger] v.slots_left().contains(s) ==> v.free.contains(s),
        v.free.len() > 0 ==> v.free.contains(v.free.last()) && !v.slots_left().contains(
            v.free.last(),
        ),
{
    if v.free.len() > 0 {
        assert(v.free[v.free.len() - 1] == v.free.last());
        assert forall|s: usize| #[trigger] v.slots_left().contains(s) implies v.free.contains(s) by {
            let i = choose|i: int| 0 <= i < v.slots_left().len() && v.slots_left()[i] == s;
            assert(v.free[i] == s);
        }
        if v.slots_left().contains(v.free.last()) {
            let i = choose|i: int|
                0 <= i < v.slots_left().len() && v.slots_left()[i] == v.free.last();
            assert(v.free[i] == v.free[v.free.len() - 1]);
        }
    }
}

/// Dropping an instance frees its slot and leaves no slot with two purposes.
pub proof fn dropping_keeps_slots_apart(v: WebView, key: u64)
    requires
        v.well_formed(),
    ensures
        v.without(key).well_formed(),
{
    let w = v.without(key);
    if v.instances.dom().contains(key) {
        assert forall|k: u64, s: usize| #[trigger] w.held(k, s) implies v.held(k, s) && k
            != key by {}
        assert forall|g: int, s: usize| #[trigger] w.leads(g, s) implies v.leads(g, s) by {}
        if let Some(slot) = v.instances[key] {
            assert(v.held(key, slot));
            assert forall|s: usize| #[trigger] w.free.contains(s) implies s == slot
                || v.free.contains(s) by {
                let i = choose|i: int| 0 <= i < w.free.len() && w.free[i] == s;
                if i < v.free.len() {
                    assert(v.free[i] == s);
                }
            }
            assert forall|i: int, j: int|
                0 <= i < w.free.len() && 0 <= j < w.free.len() && i != j implies w.free[i]
                != w.free[j] by {
                if i == v.free.len() {
                    assert(v.free[j] != slot) by {
                        assert(!v.free.contains(slot));
                    }
                } else if j == v.free.len() {
                    assert(v.free[i] != slot) by {
                        assert(!v.free.contains(slot));
                    }
                }
            }
        }
    }
}

proof fn lemma_joined_in(v: WebView, keys: Seq<u64>, n: nat, g: usize, bound: int)
    requires
        n <= keys.len(),
        g < bound,
        forall|key: u64| #[trigger] v.members.dom().contains(key) ==> v.members[key].0 < bound,
    ensures
        forall|key: u64|
            #[trigger] v.joined(keys, n, g).dom().contains(key) ==> v.joined(keys, n, g)[key].0
                < bound,
    decreases n,
{
    if n > 0 {
        lemma_joined_in(v, keys, (n - 1) as nat, g, bound);
        let before = v.joined(keys, (n - 1) as nat, g);
        assert forall|key: u64| #[trigger] v.joined(keys, n, g).dom().contains(key) implies v.joined(
            keys,
            n,
            g,
        )[key].0 < bound by {
            if key != keys[n - 1] {
                assert(before.dom().contains(key));
            }
        }
    }
}

proof fn lemma_dropped_keeps(v: WebView, keys: Seq<u64>, n: nat)
    requires
        v.well_formed(),
    ensures
        v.dropped(keys, n).well_formed(),
        v.dropped(keys, n).members == v.members,
        v.dropped(keys, n).generations == v.generations,
        v.dropped(keys, n).depth == v.depth,
    decreases n,
{
    if n > 0 {
        lemma_dropped_keeps(v, keys, (n - 1) as nat);
        dropping_keeps_slots_apart(v.dropped(keys, (n - 1) as nat), keys[n - 1]);
    }
}

/// Installing a generation leaves no slot with two purposes.
pub proof fn installing_keeps_slots_apart(v: WebView, keys: Seq<u64>, set: bool)
    requires
        v.well_formed(),
        v.generations.len() < usize::MAX,
    ensures
        v.installed(keys, set).well_formed(),
{
    let n = keys.len();
    let g = v.generations.len() as usize;
    let entered = WebView {
        free: v.slots_left(),
        generations: v.generations.push(v.next_slot(set)),
        members: v.joined(keys, n, g),
        ..v
    };
    lemma_slot_taken(v);
    lemma_joined_in(v, keys, n, g, g + 1);
    assert forall|k: u64, s: usize| #[trigger] entered.held(k, s) implies v.held(k, s) by {}
    assert forall|h: int, s: usize| #[trigger] entered.leads(h, s) implies (h == g
        && v.next_slot(set) == Some(s)) || (h < g && v.leads(h, s)) by {}
    assert(entered.well_formed());
    lemma_dropped_keeps(entered, keys, n);
}

proof fn lemma_joins(v: WebView, keys: Seq<u64>, n: nat, g: usize, i: int)
    requires
        0 <= i < n <= keys.len(),
        n <= u32::MAX,
        forall|j: int| i < j < n ==> keys[j] != keys[i],
    ensures
        v.joined(keys, n, g).dom().contains(keys[i]),
        v.joined(keys, n, g)[keys[i]] == (g, i as u32),
    decreases n,
{
    if i < n - 1 {
        lemma_joins(v, keys, (n - 1) as nat, g, i);
    }
}

/// After a generation has been installed, each of its members is entered through it, as the
/// member that it is.
pub proof fn members_enter_their_generation(v: WebView, keys: Seq<u64>, set: bool, i: int, n: nat)
    requires
        v.well_formed(),
        keys.no_duplicates(),
        keys.len() <= u32::MAX,
        v.generations.len() < usize::MAX,
        0 <= i < keys.len(),
        frame_fits(v.depth, n),
    ensures
        entry(v.installed(keys, set), keys[i], n) == (Entry::Member {
            generation: v.generations.len() as usize,
            member: i as u32,
            slot: v.next_slot(set),
            state_ptr: (v.depth * STRIDE) as u32,
        }),
{
    let g = v.generations.len() as usize;
    let entered = WebView {
        free: v.slots_left(),
        generations: v.generations.push(v.next_slot(set)),
        members: v.joined(keys, keys.len(), g),
        ..v
    };
    lemma_joins(v, keys, keys.len(), g, i);
    lemma_dropped_fields(entered, keys, keys.len());
}

proof fn lemma_dropped_fields(v: WebView, keys: Seq<u64>, n: nat)
    ensures
        v.dropped(keys, n).members == v.members,
        v.dropped(keys, n).generations == v.generations,
        v.dropped(keys, n).depth == v.depth,
    decreases n,
{
    if n > 0 {
        lemma_dropped_fields(v, keys, (n - 1) as nat);
    }
}

/// How method `key` with `num_regs` registers is entered, one depth further down than the call
/// that it is made from. The frame that it runs in shares no byte with those of the calls that
/// are running.
pub fn run(web: &mut Web, key: u64, num_regs: usize) -> (r: Entry)
    requires
        old(web)@.well_formed(),
    ensures
        r == entry(old(web)@, key, num_regs as nat),
        final(web)@ == if r is Member || r is Own {
            deeper(old(web)@)
        } else {
            old(web)@
        },
        final(web)@.well_formed(),
{
    let state_ptr: u32 = match frame_base(web.depth, num_regs) {
        Some(base) => base,
        None => {
            return Entry::Decline;
        },
    };
    let member: Option<(usize, u32)> = match look_up(&web.members, key) {
        Some(found) => Some(*found),
        None => None,
    };
    if let Some((generation, member)) = member {
        assert(web@.members.dom().contains(key));
        let slot = web.generations[generation];
        web.depth = web.depth + 1;
        proof {
            lemma_depth_is_apart(old(web)@, web@);
        }
        return Entry::Member { generation, member, slot, state_ptr };
    }
    let own: Option<Option<usize>> = match look_up(&web.instances, key) {
        Some(slot) => Some(*slot),
        None => None,
    };
    match own {
        Some(slot) => {
            web.depth = web.depth + 1;
            proof {
                lemma_depth_is_apart(old(web)@, web@);
            }
            Entry::Own { slot, state_ptr }
        },
        None => Entry::Build,
    }
}

proof fn lemma_depth_is_apart(v: WebView, w: WebView)
    requires
        v.well_formed(),
        w == (WebView { depth: w.depth, ..v }),
    ensures
        w.well_formed(),
{
    assert forall|k: u64, s: usize| #[trigger] w.held(k, s) implies v.held(k, s) by {}
    assert forall|g: int, s: usize| #[trigger] w.leads(g, s) implies v.leads(g, s) by {}
}

/// A call that was entered has ended.
pub fn leave(web: &mut Web)
    requires
        old(web)@.well_formed(),
        old(web)@.depth > 0,
    ensures
        final(web)@ == (WebView { depth: (old(web)@.depth - 1) as nat, ..old(web)@ }),
        final(web)@.well_formed(),
{
    web.depth = web.depth - 1;
    proof {
        lemma_depth_is_apart(old(web)@, web@);
    }
}

/// A generation has been instantiated: `keys` are its members in order, and `set` tells whether
/// the free slot could be set to its function. Its members are entered through it from now on.
/// Their own instances are dropped, and the slots of those freed. Gives the number of the
/// generation.
pub fn install_generation(web: &mut Web, keys: &[u64], set: bool) -> (r: usize)
    requires
        old(web)@.well_formed(),
        keys@.len() <= u32::MAX,
        old(web)@.generations.len() < usize::MAX,
    ensures
        r == old(web)@.generations.len(),
        final(web)@ == old(web)@.installed(keys@, set),
        final(web)@.well_formed(),
{
    let ghost v = web@;
    let slot = web.alloc_slot(set);
    let generation: usize = web.generations.len();
    web.generations.push(slot);
    let mut i: usize = 0;
    while i < keys.len()
        invariant
            i <= keys@.len() <= u32::MAX,
            web@ == (WebView {
                free: v.slots_left(),
                generations: v.generations.push(v.next_slot(set)),
                members: v.joined(keys@, i as nat, generation),
                ..v
            }),
        decreases keys@.len() - i,
    {
        put(&mut web.members, keys[i], (generation, i as u32));
        i = i + 1;
    }
    let ghost entered = web@;
    let mut j: usize = 0;
    while j < keys.len()
        invariant
            j <= keys@.len(),
            web@ == entered.dropped(keys@, j as nat),
        decreases keys@.len() - j,
    {
        let key: u64 = keys[j];
        if let Some(own) = take_out(&mut web.instances, key) {
            if let Some(slot) = own {
                web.free.push(slot);
            }
        }
        j = j + 1;
        assert(web@ =~= entered.dropped(keys@, (j - 1) as nat).without(key));
    }
    proof {
        installing_keeps_slots_apart(v, keys@, set);
    }
    generation
}

} // verus!
