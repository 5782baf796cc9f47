//! Loop-invariant slot reads, moved out of loops.
//!
//! A loop that reads a slot of an object it never changes reads the same value every time. The
//! pass reads it once, in front of the loop, into a local of its own, and the loop reads that
//! local.
//!
//! - The read in front runs even if the loop does not, so it must not throw: only reads whose
//!   receiver is known not to be null are moved.
//! - Nothing in the loop may change the slot: it holds no call, no property or slot write, no
//!   op that may run other code, and it does not write the local that holds the receiver.
//! - Only loops of one shape are touched: `E: jump C; B: body; C: condition; I: branch B`, with
//!   the jump right before the body and no other way in, and no branch to the jump itself or
//!   between the two ops of a read that is moved. What goes in front of the jump then runs before
//!   the loop, whichever way it is entered, and every branch target from the jump on moves by one
//!   distance. That the pass keeps what a method does is proved in [`crate::model::hoisted`].

use crate::lower::op;
use crate::lower::op::JitOp;
use vstd::prelude::*;

verus! {

/// The most locals that one method may spend on reads.
pub const MAX_HOISTS_PER_METHOD: u32 = 16;

/// A branch on a boxed condition.
pub open spec fn boxed_branch(op: JitOp) -> Option<usize> {
    match op {
        JitOp::IfTrueBoxed(t) => Some(t),
        JitOp::IfFalseBoxed(t) => Some(t),
        _ => None,
    }
}

/// Op `j` branches into `lo ..= hi`.
pub open spec fn branches_into(ops: Seq<JitOp>, j: int, lo: int, hi: int) -> bool {
    op::branch_target(ops[j]) matches Some(t) && lo <= t <= hi
}

/// A loop ends with op `i`: it branches back to its body, right before the body stands a jump
/// into it, nothing else in it branches back within it, and nothing else branches into it.
pub open spec fn loop_ends_at(ops: Seq<JitOp>, i: int) -> bool {
    &&& boxed_branch(ops[i]) matches Some(body)
    &&& 0 < body <= i
    &&& ops[body - 1] matches JitOp::Jump(cond)
    &&& body <= cond <= i
    &&& forall|j: int| body <= j < i ==> !(#[trigger] branches_into(ops, j, body as int, j))
    &&& forall|j: int|
        0 <= j < ops.len() && (j < body - 1 || j > i) ==> !(#[trigger] branches_into(
            ops,
            j,
            body as int,
            i,
        ))
}

/// The end of the first loop that ends at or after `from`.
pub open spec fn first_loop(ops: Seq<JitOp>, from: int) -> Option<int>
    decreases ops.len() - from,
{
    if from >= ops.len() {
        None
    } else if loop_ends_at(ops, from) {
        Some(from)
    } else {
        first_loop(ops, from + 1)
    }
}

/// The op can neither write a slot nor run code that could.
pub open spec fn keeps_slots(op: JitOp) -> bool {
    match op {
        JitOp::GetLocalValue(_) => true,
        JitOp::SetLocalValue(_) => true,
        JitOp::StoreLocalValue(_) => true,
        JitOp::IncDecLocalIValue(_, _) => true,
        JitOp::PushIntValue(_) => true,
        JitOp::PushConst(_) => true,
        JitOp::PushString(_) => true,
        JitOp::GetScriptGlobals(_) => true,
        JitOp::GetSlot(_, _) => true,
        JitOp::DupValue => true,
        JitOp::SwapValue => true,
        JitOp::Pop => true,
        JitOp::Nop => true,
        JitOp::AddIBoxed => true,
        JitOp::SubtractIBoxed => true,
        JitOp::MultiplyIBoxed => true,
        JitOp::IncrementIBoxed => true,
        JitOp::DecrementIBoxed => true,
        JitOp::ArithInt(_) => true,
        JitOp::ArithNum(_) => true,
        JitOp::CmpNum(_) => true,
        JitOp::BitOpInt(_) => true,
        JitOp::CoerceInt(_) => true,
        JitOp::CoerceBool => true,
        JitOp::DmLoad(_) => true,
        JitOp::DmStore(_) => true,
        JitOp::DmLoadF(_) => true,
        JitOp::DmStoreF(_) => true,
        JitOp::Jump(_) => true,
        JitOp::IfTrueBoxed(_) => true,
        JitOp::IfFalseBoxed(_) => true,
        _ => false,
    }
}

/// The local that the op writes.
pub open spec fn writes_local(op: JitOp) -> Option<u32> {
    match op {
        JitOp::SetLocalValue(i) => Some(i),
        JitOp::StoreLocalValue(i) => Some(i),
        JitOp::IncDecLocalIValue(i, _) => Some(i),
        _ => None,
    }
}

/// Some op of `lo ..= hi` writes local `r`.
pub open spec fn written_in(ops: Seq<JitOp>, lo: int, hi: int, r: u32) -> bool {
    exists|j: int| lo <= j <= hi && #[trigger] writes_local(ops[j]) == Some(r)
}

/// A slot read: a receiver, then the slot.
pub open spec fn read_at(ops: Seq<JitOp>, j: int) -> Option<(JitOp, JitOp)> {
    if (ops[j] is GetLocalValue || ops[j] is GetScriptGlobals) && ops[j + 1] is GetSlot {
        Some((ops[j], ops[j + 1]))
    } else {
        None
    }
}

/// The slot read at `j` is the same in every round of the loop `body ..= i`, and cannot throw.
pub open spec fn movable(ops: Seq<JitOp>, body: int, i: int, null_safe: Seq<u32>, j: int) -> bool {
    &&& read_at(ops, j) is Some
    &&& ops[j] matches JitOp::GetLocalValue(r) ==> !written_in(ops, body, i, r)
    &&& null_safe.contains((j + 1) as u32)
}

/// The movable reads of the loop before `j`, each once.
pub open spec fn reads_before(
    ops: Seq<JitOp>,
    body: int,
    i: int,
    null_safe: Seq<u32>,
    j: int,
) -> Seq<(JitOp, JitOp)>
    decreases j - body,
{
    if j <= body {
        Seq::empty()
    } else {
        let rest = reads_before(ops, body, i, null_safe, j - 1);
        if movable(ops, body, i, null_safe, j - 1) && !rest.contains(read_at(ops, j - 1)->0) {
            rest.push(read_at(ops, j - 1)->0)
        } else {
            rest
        }
    }
}

/// A read of the loop `body ..= i` that is replaced starts at `j`.
pub open spec fn replaced(
    ops: Seq<JitOp>,
    body: int,
    i: int,
    reads: Seq<(JitOp, JitOp)>,
    j: int,
) -> bool {
    body <= j < i && read_at(ops, j) is Some && reads.contains(read_at(ops, j)->0)
}

/// A branch to `t` would pass the reads in front of the loop `body ..= i` by, or come between the
/// two ops of a read that is replaced.
pub open spec fn disturbs(
    ops: Seq<JitOp>,
    body: int,
    i: int,
    reads: Seq<(JitOp, JitOp)>,
    t: int,
) -> bool {
    t == body - 1 || replaced(ops, body, i, reads, t - 1)
}

/// No branch disturbs the reads.
pub open spec fn is_undisturbed(
    ops: Seq<JitOp>,
    body: int,
    i: int,
    reads: Seq<(JitOp, JitOp)>,
) -> bool {
    forall|j: int|
        0 <= j < ops.len() ==> (op::branch_target(#[trigger] ops[j]) matches Some(t) ==> !disturbs(
            ops,
            body,
            i,
            reads,
            t as int,
        ))
}

/// The reads that are moved out of the loop `body ..= i`, no more than `budget`. None if
/// something in the loop may change a slot, or a branch disturbs them.
pub open spec fn picked(
    ops: Seq<JitOp>,
    body: int,
    i: int,
    null_safe: Seq<u32>,
    budget: int,
) -> Seq<(JitOp, JitOp)> {
    let all = if (forall|j: int| body <= j <= i ==> keeps_slots(#[trigger] ops[j])) {
        reads_before(ops, body, i, null_safe, i)
    } else {
        Seq::empty()
    };
    let reads = all.take(min(all.len() as int, budget));
    if is_undisturbed(ops, body, i, reads) {
        reads
    } else {
        Seq::empty()
    }
}

/// The op with its branch target, if at or after `at`, moved on by `by`.
pub open spec fn moved(o: JitOp, at: int, by: int) -> JitOp {
    match op::branch_target(o) {
        Some(t) => if t >= at {
            op::with_target(o, (t + by) as usize)
        } else {
            o
        },
        None => o,
    }
}

/// Op `j` with the reads of the loop `body ..= i` replaced by reads of the locals from
/// `scratch` on.
pub open spec fn rewritten(
    ops: Seq<JitOp>,
    body: int,
    i: int,
    reads: Seq<(JitOp, JitOp)>,
    scratch: int,
    j: int,
) -> JitOp {
    if replaced(ops, body, i, reads, j) {
        JitOp::GetLocalValue((scratch + reads.index_of(read_at(ops, j)->0)) as u32)
    } else if replaced(ops, body, i, reads, j - 1) {
        JitOp::Nop
    } else {
        ops[j]
    }
}

/// The reads, each into a local of its own.
pub open spec fn preheader(reads: Seq<(JitOp, JitOp)>, scratch: int) -> Seq<JitOp> {
    Seq::new(
        3 * reads.len(),
        |k: int|
            if k % 3 == 0 {
                reads[k / 3].0
            } else if k % 3 == 1 {
                reads[k / 3].1
            } else {
                JitOp::SetLocalValue((scratch + k / 3) as u32)
            },
    )
}

/// The method with `reads` moved out of the loop `body ..= i`.
pub open spec fn hoisted(
    ops: Seq<JitOp>,
    body: int,
    i: int,
    reads: Seq<(JitOp, JitOp)>,
    scratch: int,
) -> Seq<JitOp> {
    let entry = body - 1;
    let by = 3 * reads.len();
    Seq::new(
        ops.len() + by,
        |j: int|
            if j < entry {
                moved(ops[j], entry, by as int)
            } else if j < entry + by {
                preheader(reads, scratch)[j - entry]
            } else {
                moved(rewritten(ops, body, i, reads, scratch, j - by), entry, by as int)
            },
    )
}

/// Op indices after `by` ops have been put in at `at`.
pub open spec fn shifted(idx: Seq<u32>, at: int, by: int) -> Seq<u32> {
    idx.map_values(
        |i: u32|
            if i >= at {
                (i + by) as u32
            } else {
                i
            },
    )
}

pub open spec fn min(a: int, b: int) -> int {
    if a <= b {
        a
    } else {
        b
    }
}

/// The pass from loop to loop: the method after it, and how many locals it has used.
pub open spec fn hoist_from(
    ops: Seq<JitOp>,
    null_safe: Seq<u32>,
    first: int,
    max: int,
    used: nat,
    from: int,
) -> (Seq<JitOp>, nat)
    decreases ops.len() - from,
{
    if used >= MAX_HOISTS_PER_METHOD || first + used >= max || from < 0 {
        (ops, used)
    } else {
        match first_loop(ops, from) {
            None => (ops, used),
            Some(i) => if i < from || i >= ops.len() {
                (ops, used)
            } else {
                let body = boxed_branch(ops[i])->0 as int;
                let budget = min(MAX_HOISTS_PER_METHOD - used, max - first - used);
                let reads = picked(ops, body, i, null_safe, budget);
                let by = 3 * reads.len();
                if reads.len() == 0 {
                    hoist_from(ops, null_safe, first, max, used, i + 1)
                } else {
                    hoist_from(
                        hoisted(ops, body, i, reads, first + used),
                        shifted(null_safe, body - 1, by as int),
                        first,
                        max,
                        used + reads.len(),
                        i + 1 + by,
                    )
                }
            },
        }
    }
}

fn branches_in(o: JitOp, lo: usize, hi: usize) -> (r: bool)
    ensures
        r == (op::branch_target(o) matches Some(t) && lo <= t <= hi),
{
    match o.target() {
        Some(t) => lo <= t && t <= hi,
        None => false,
    }
}

/// Whether a loop ends with op `i`, and where its body starts.
fn loop_body(ops: &[JitOp], i: usize) -> (r: Option<usize>)
    requires
        i < ops@.len(),
    ensures
        r is Some <==> loop_ends_at(ops@, i as int),
        r is Some ==> r == boxed_branch(ops@[i as int]),
{
    let body: usize = match ops[i] {
        JitOp::IfTrueBoxed(t) | JitOp::IfFalseBoxed(t) => t,
        _ => {
            return None;
        },
    };
    if body == 0 || body > i {
        return None;
    }
    match ops[body - 1] {
        JitOp::Jump(cond) => {
            if cond < body || cond > i {
                return None;
            }
        },
        _ => {
            return None;
        },
    }
    let mut j: usize = body;
    while j < i
        invariant
            body <= j <= i < ops@.len(),
            forall|k: int| body <= k < j ==> !(#[trigger] branches_into(ops@, k, body as int, k)),
            boxed_branch(ops@[i as int]) == Some(body),
        decreases i - j,
    {
        if branches_in(ops[j], body, j) {
            assert(branches_into(ops@, j as int, body as int, j as int));
            return None;
        }
        j = j + 1;
    }
    let mut j: usize = 0;
    while j < ops.len()
        invariant
            j <= ops@.len(),
            body > 0,
            boxed_branch(ops@[i as int]) == Some(body),
            forall|k: int|
                0 <= k < j && (k < body - 1 || k > i) ==> !(#[trigger] branches_into(
                    ops@,
                    k,
                    body as int,
                    i as int,
                )),
        decreases ops@.len() - j,
    {
        if (j < body - 1 || j > i) && branches_in(ops[j], body, i) {
            assert(branches_into(ops@, j as int, body as int, i as int));
            return None;
        }
        j = j + 1;
    }
    Some(body)
}

/// The first loop that ends at or after `from`: the start of its body, and its last op.
fn find_canonical_loop(ops: &[JitOp], from: usize) -> (r: Option<(usize, usize)>)
    ensures
        match first_loop(ops@, from as int) {
            Some(i) => r matches Some(l) && l.1 == i && from <= i < ops@.len() && loop_ends_at(ops@, i)
                && boxed_branch(ops@[i]) == Some(l.0),
            None => r is None,
        },
{
    let mut i: usize = from;
    while i < ops.len()
        invariant
            from <= i,
            first_loop(ops@, from as int) == first_loop(ops@, i as int),
        decreases ops@.len() - i,
    {
        if let Some(body) = loop_body(ops, i) {
            return Some((body, i));
        }
        i = i + 1;
    }
    None
}

fn op_keeps_slots(op: JitOp) -> (r: bool)
    ensures
        r == keeps_slots(op),
{
    matches!(
        op,
        JitOp::GetLocalValue(_) | JitOp::SetLocalValue(_) | JitOp::StoreLocalValue(_)
            | JitOp::IncDecLocalIValue(_, _) | JitOp::PushIntValue(_) | JitOp::PushConst(_)
            | JitOp::PushString(_) | JitOp::GetScriptGlobals(_) | JitOp::GetSlot(_, _)
            | JitOp::DupValue | JitOp::SwapValue | JitOp::Pop | JitOp::Nop | JitOp::AddIBoxed
            | JitOp::SubtractIBoxed | JitOp::MultiplyIBoxed | JitOp::IncrementIBoxed
            | JitOp::DecrementIBoxed | JitOp::ArithInt(_) | JitOp::ArithNum(_) | JitOp::CmpNum(_)
            | JitOp::BitOpInt(_) | JitOp::CoerceInt(_) | JitOp::CoerceBool | JitOp::DmLoad(_)
            | JitOp::DmStore(_) | JitOp::DmLoadF(_) | JitOp::DmStoreF(_) | JitOp::Jump(_)
            | JitOp::IfTrueBoxed(_) | JitOp::IfFalseBoxed(_)
    )
}

/// Whether no op of `lo ..= hi` can change a slot.
fn region_is_invariant_safe(ops: &[JitOp], lo: usize, hi: usize) -> (r: bool)
    requires
        hi < ops@.len(),
    ensures
        r == (forall|j: int| lo <= j <= hi ==> keeps_slots(#[trigger] ops@[j])),
{
    let mut j: usize = lo;
    while j <= hi
        invariant
            lo <= j,
            hi < ops@.len(),
            j <= hi + 1 || j == lo,
            forall|k: int| lo <= k < j ==> keeps_slots(#[trigger] ops@[k]),
        decreases hi + 1 - j,
    {
        if !op_keeps_slots(ops[j]) {
            return false;
        }
        j = j + 1;
    }
    true
}

/// Whether an op of `lo ..= hi` writes local `r`.
fn is_written(ops: &[JitOp], lo: usize, hi: usize, local: u32) -> (r: bool)
    requires
        hi < ops@.len(),
    ensures
        r == written_in(ops@, lo as int, hi as int, local),
{
    let mut j: usize = lo;
    while j <= hi
        invariant
            lo <= j,
            hi < ops@.len(),
            j <= hi + 1 || j == lo,
            forall|k: int| lo <= k < j ==> #[trigger] writes_local(ops@[k]) != Some(local),
        decreases hi + 1 - j,
    {
        let w: Option<u32> = match ops[j] {
            JitOp::SetLocalValue(i) | JitOp::StoreLocalValue(i) | JitOp::IncDecLocalIValue(
                i,
                _,
            ) => Some(i),
            _ => None,
        };
        assert(w == writes_local(ops@[j as int]));
        if let Some(i) = w {
            if i == local {
                return true;
            }
        }
        j = j + 1;
    }
    false
}

fn read_of(ops: &[JitOp], j: usize) -> (r: Option<(JitOp, JitOp)>)
    requires
        j + 1 < ops@.len(),
    ensures
        r == read_at(ops@, j as int),
{
    if matches!(ops[j], JitOp::GetLocalValue(_) | JitOp::GetScriptGlobals(_)) && matches!(
        ops[j + 1],
        JitOp::GetSlot(_, _)
    ) {
        Some((ops[j], ops[j + 1]))
    } else {
        None
    }
}

fn position(reads: &Vec<(JitOp, JitOp)>, read: (JitOp, JitOp)) -> (r: Option<usize>)
    requires
        reads@.no_duplicates(),
    ensures
        r is Some <==> reads@.contains(read),
        r matches Some(k) ==> k == reads@.index_of(read) && k < reads@.len(),
{
    let mut k: usize = 0;
    while k < reads.len()
        invariant
            k <= reads@.len(),
            reads@.no_duplicates(),
            forall|j: int| 0 <= j < k ==> reads@[j] != read,
        decreases reads@.len() - k,
    {
        if reads[k].0 == read.0 && reads[k].1 == read.1 {
            assert(reads@[k as int] == read);
            let ghost at = reads@.index_of(read);
            assert(reads@[at] == read);
            assert(at == k);
            return Some(k);
        }
        k = k + 1;
    }
    assert(!reads@.contains(read));
    None
}

fn has_index(idx: &Vec<u32>, i: u32) -> (r: bool)
    ensures
        r == idx@.contains(i),
{
    let mut k: usize = 0;
    while k < idx.len()
        invariant
            k <= idx@.len(),
            forall|j: int| 0 <= j < k ==> idx@[j] != i,
        decreases idx@.len() - k,
    {
        if idx[k] == i {
            return true;
        }
        k = k + 1;
    }
    false
}

/// The movable reads of the loop `body ..= i`, each once.
fn loop_reads(ops: &[JitOp], body: usize, i: usize, null_safe: &Vec<u32>) -> (r: Vec<
    (JitOp, JitOp),
>)
    requires
        body <= i < ops@.len() <= u32::MAX,
    ensures
        r@ == reads_before(ops@, body as int, i as int, null_safe@, i as int),
        r@.no_duplicates(),
{
    let mut reads: Vec<(JitOp, JitOp)> = Vec::new();
    let mut j: usize = body;
    while j < i
        invariant
            body <= j <= i < ops@.len() <= u32::MAX,
            reads@ == reads_before(ops@, body as int, i as int, null_safe@, j as int),
            reads@.no_duplicates(),
        decreases i - j,
    {
        if let Some(read) = read_of(ops, j) {
            let written = match ops[j] {
                JitOp::GetLocalValue(r) => is_written(ops, body, i, r),
                _ => false,
            };
            if !written && has_index(null_safe, (j + 1) as u32) && position(&reads, read).is_none() {
                reads.push(read);
            }
        }
        j = j + 1;
    }
    reads
}

/// Whether no branch of the method disturbs the reads of the loop `body ..= i`.
fn undisturbed(ops: &[JitOp], body: usize, i: usize, reads: &Vec<(JitOp, JitOp)>) -> (r: bool)
    requires
        0 < body <= i < ops@.len(),
        reads@.no_duplicates(),
    ensures
        r == is_undisturbed(ops@, body as int, i as int, reads@),
{
    let mut j: usize = 0;
    while j < ops.len()
        invariant
            j <= ops@.len(),
            0 < body <= i < ops@.len(),
            reads@.no_duplicates(),
            forall|k: int|
                0 <= k < j ==> (op::branch_target(#[trigger] ops@[k]) matches Some(t) ==> !disturbs(
                    ops@,
                    body as int,
                    i as int,
                    reads@,
                    t as int,
                )),
        decreases ops@.len() - j,
    {
        if let Some(t) = ops[j].target() {
            if t == body - 1 {
                return false;
            }
            if body < t && t <= i {
                if let Some(read) = read_of(ops, t - 1) {
                    if position(reads, read).is_some() {
                        return false;
                    }
                }
            }
        }
        j = j + 1;
    }
    true
}

/// `o` with its branch target, if at or after `at`, moved on by `by`.
fn retarget(o: JitOp, at: usize, by: usize) -> (r: JitOp)
    requires
        op::branch_target(o) matches Some(t) ==> t + by <= usize::MAX,
    ensures
        r == moved(o, at as int, by as int),
{
    match o.target() {
        Some(t) if t >= at => o.retargeted(t + by),
        _ => o,
    }
}

fn rewrite_op(
    ops: &[JitOp],
    body: usize,
    i: usize,
    reads: &Vec<(JitOp, JitOp)>,
    scratch: u32,
    j: usize,
) -> (r: JitOp)
    requires
        0 < body <= i < ops@.len(),
        j < ops@.len(),
        reads@.no_duplicates(),
        scratch + reads@.len() <= u32::MAX,
    ensures
        r == rewritten(ops@, body as int, i as int, reads@, scratch as int, j as int),
{
    if body <= j && j < i {
        if let Some(read) = read_of(ops, j) {
            if let Some(k) = position(reads, read) {
                return JitOp::GetLocalValue(scratch + k as u32);
            }
        }
    }
    if body < j && j <= i {
        if let Some(read) = read_of(ops, j - 1) {
            if position(reads, read).is_some() {
                return JitOp::Nop;
            }
        }
    }
    ops[j]
}

/// Moves `reads` out of the loop `body ..= i`.
fn hoist_loop(
    ops: &Vec<JitOp>,
    body: usize,
    i: usize,
    reads: &Vec<(JitOp, JitOp)>,
    scratch: u32,
) -> (r: Vec<JitOp>)
    requires
        0 < body <= i < ops@.len(),
        reads@.no_duplicates(),
        reads@.len() <= MAX_HOISTS_PER_METHOD,
        scratch + reads@.len() <= u32::MAX,
        forall|j: int|
            0 <= j < ops@.len() ==> (op::branch_target(#[trigger] ops@[j]) matches Some(t) ==> t + 3
                * reads@.len() <= usize::MAX),
    ensures
        r@ == hoisted(ops@, body as int, i as int, reads@, scratch as int),
{
    let entry: usize = body - 1;
    let n: usize = reads.len();
    let by: usize = 3 * n;
    let ghost whole = hoisted(ops@, body as int, i as int, reads@, scratch as int);
    let mut r: Vec<JitOp> = Vec::new();
    let mut j: usize = 0;
    while j < entry
        invariant
            j <= entry,
            entry == body - 1,
            0 < body <= i < ops@.len(),
            by == 3 * reads@.len(),
            whole == hoisted(ops@, body as int, i as int, reads@, scratch as int),
            r@ =~= whole.take(j as int),
            forall|j: int|
                0 <= j < ops@.len() ==> (op::branch_target(#[trigger] ops@[j]) matches Some(t)
                    ==> t + 3 * reads@.len() <= usize::MAX),
        decreases entry - j,
    {
        r.push(retarget(ops[j], entry, by));
        j = j + 1;
    }
    let mut k: usize = 0;
    while k < n
        invariant
            k <= n,
            n == reads@.len(),
            n <= MAX_HOISTS_PER_METHOD,
            entry == body - 1,
            0 < body <= i < ops@.len(),
            by == 3 * n,
            scratch + reads@.len() <= u32::MAX,
            whole == hoisted(ops@, body as int, i as int, reads@, scratch as int),
            r@ =~= whole.take(entry + 3 * k),
        decreases n - k,
    {
        proof {
            assert((3 * k) % 3 == 0 && (3 * k) / 3 == k);
            assert((3 * k + 1) % 3 == 1 && (3 * k + 1) / 3 == k as int);
            assert((3 * k + 2) % 3 == 2 && (3 * k + 2) / 3 == k as int);
            assert(whole[entry + 3 * k] == reads@[k as int].0);
            assert(whole[entry + (3 * k + 1)] == reads@[k as int].1);
            assert(whole[entry + (3 * k + 2)] == JitOp::SetLocalValue((scratch + k) as u32));
        }
        r.push(reads[k].0);
        r.push(reads[k].1);
        r.push(JitOp::SetLocalValue(scratch + k as u32));
        k = k + 1;
    }
    let mut j: usize = entry;
    while j < ops.len()
        invariant
            entry <= j <= ops@.len(),
            n == reads@.len(),
            entry == body - 1,
            0 < body <= i < ops@.len(),
            by == 3 * n,
            scratch + reads@.len() <= u32::MAX,
            reads@.no_duplicates(),
            whole == hoisted(ops@, body as int, i as int, reads@, scratch as int),
            r@ =~= whole.take(j + by),
            forall|j: int|
                0 <= j < ops@.len() ==> (op::branch_target(#[trigger] ops@[j]) matches Some(t)
                    ==> t + 3 * reads@.len() <= usize::MAX),
        decreases ops@.len() - j,
    {
        let o = rewrite_op(ops, body, i, reads, scratch, j);
        r.push(retarget(o, entry, by));
        j = j + 1;
    }
    assert(whole.take(whole.len() as int) =~= whole);
    r
}

fn shift_indices(idx: &Vec<u32>, at: usize, by: u32) -> (r: Vec<u32>)
    requires
        forall|k: int| 0 <= k < idx@.len() ==> #[trigger] idx@[k] + by <= u32::MAX,
    ensures
        r@ == shifted(idx@, at as int, by as int),
{
    let mut r: Vec<u32> = Vec::new();
    let mut k: usize = 0;
    while k < idx.len()
        invariant
            k <= idx@.len(),
            forall|k: int| 0 <= k < idx@.len() ==> #[trigger] idx@[k] + by <= u32::MAX,
            r@ =~= shifted(idx@, at as int, by as int).take(k as int),
        decreases idx@.len() - k,
    {
        if idx[k] as usize >= at {
            r.push(idx[k] + by);
        } else {
            r.push(idx[k]);
        }
        k = k + 1;
    }
    assert(shifted(idx@, at as int, by as int).take(k as int) =~= shifted(
        idx@,
        at as int,
        by as int,
    ));
    r
}

/// Every branch target leaves room for `room` more.
pub open spec fn targets_leave(ops: Seq<JitOp>, room: int) -> bool {
    forall|j: int|
        0 <= j < ops.len() ==> (op::branch_target(#[trigger] ops[j]) matches Some(t) ==> t + room
            <= usize::MAX)
}

pub proof fn lemma_hoisted_targets(
    ops: Seq<JitOp>,
    body: int,
    i: int,
    reads: Seq<(JitOp, JitOp)>,
    scratch: int,
    room: int,
)
    requires
        0 < body <= i < ops.len(),
        targets_leave(ops, room + 3 * reads.len()),
        room >= 0,
        forall|k: int|
            0 <= k < reads.len() ==> op::branch_target((#[trigger] reads[k]).0) is None
                && op::branch_target(reads[k].1) is None,
    ensures
        targets_leave(hoisted(ops, body, i, reads, scratch), room),
{
    let by = 3 * reads.len();
    let whole = hoisted(ops, body, i, reads, scratch);
    assert forall|j: int| 0 <= j < whole.len() implies (op::branch_target(
        #[trigger] whole[j],
    ) matches Some(t) ==> t + room <= usize::MAX) by {
        if j < body - 1 {
            assert(op::branch_target(ops[j]) matches Some(t) ==> t + (room + by) <= usize::MAX);
        } else if j < body - 1 + by {
            let k = (j - (body - 1)) / 3;
            assert(0 <= k < reads.len());
            assert(op::branch_target(reads[k].0) is None);
        } else {
            assert(op::branch_target(ops[j - by]) matches Some(t) ==> t + (room + by)
                <= usize::MAX);
        }
    }
}

proof fn lemma_reads_are_reads(
    ops: Seq<JitOp>,
    body: int,
    i: int,
    null_safe: Seq<u32>,
    j: int,
)
    ensures
        forall|k: int|
            0 <= k < reads_before(ops, body, i, null_safe, j).len() ==> op::branch_target(
                (#[trigger] reads_before(ops, body, i, null_safe, j)[k]).0,
            ) is None && op::branch_target(reads_before(ops, body, i, null_safe, j)[k].1) is None,
    decreases j - body,
{
    if j > body {
        lemma_reads_are_reads(ops, body, i, null_safe, j - 1);
    }
}

/// Moves the invariant slot reads of the loops of `ops` in front of them. `null_safe` holds
/// the indices of the slot reads that cannot throw, `first_scratch` is the first free local,
/// `max_locals` the number of locals that the frame has room for. Returns how many locals it
/// has used.
#[verifier::rlimit(60)]
pub fn hoist_pass(
    ops: &mut Vec<JitOp>,
    null_safe: &[u32],
    first_scratch: u32,
    max_locals: u32,
) -> (used: u32)
    requires
        old(ops)@.len() + 48 <= u32::MAX,
        forall|k: int| 0 <= k < null_safe@.len() ==> #[trigger] null_safe@[k] < old(ops)@.len(),
        forall|j: int|
            0 <= j < old(ops)@.len() ==> (op::branch_target(#[trigger] old(ops)@[j]) matches Some(t)
                ==> t + 48 <= usize::MAX),
        first_scratch + MAX_HOISTS_PER_METHOD <= u32::MAX,
    ensures
        (final(ops)@, used as nat) == hoist_from(
            old(ops)@,
            null_safe@,
            first_scratch as int,
            max_locals as int,
            0,
            0,
        ),
        used <= MAX_HOISTS_PER_METHOD,
        used > 0 ==> first_scratch + used <= max_locals,
{
    let mut safe: Vec<u32> = Vec::new();
    let mut k: usize = 0;
    while k < null_safe.len()
        invariant
            k <= null_safe@.len(),
            safe@ =~= null_safe@.take(k as int),
        decreases null_safe@.len() - k,
    {
        safe.push(null_safe[k]);
        k = k + 1;
    }
    assert(safe@ =~= null_safe@);
    let mut used: u32 = 0;
    let mut from: usize = 0;
    let ghost first = first_scratch as int;
    let ghost max = max_locals as int;
    while used < MAX_HOISTS_PER_METHOD
        invariant
            used <= MAX_HOISTS_PER_METHOD,
            used > 0 ==> first_scratch + used <= max_locals,
            first_scratch + MAX_HOISTS_PER_METHOD <= u32::MAX,
            first == first_scratch,
            max == max_locals,
            from <= ops@.len(),
            ops@.len() + 3 * (MAX_HOISTS_PER_METHOD - used) <= u32::MAX,
            targets_leave(ops@, 3 * (MAX_HOISTS_PER_METHOD - used)),
            forall|k: int| 0 <= k < safe@.len() ==> #[trigger] safe@[k] < ops@.len(),
            hoist_from(old(ops)@, null_safe@, first, max, 0, 0) == hoist_from(
                ops@,
                safe@,
                first,
                max,
                used as nat,
                from as int,
            ),
        ensures
            used <= MAX_HOISTS_PER_METHOD,
            used > 0 ==> first_scratch + used <= max_locals,
            hoist_from(old(ops)@, null_safe@, first, max, 0, 0) == (ops@, used as nat),
        decreases ops@.len() - from,
    {
        if first_scratch + used >= max_locals {
            break;
        }
        let (body, i) = match find_canonical_loop(ops, from) {
            Some(l) => l,
            None => {
                break;
            },
        };
        if !region_is_invariant_safe(ops, body, i) {
            assert(Seq::<(JitOp, JitOp)>::empty().take(0) =~= Seq::empty());
            assert(hoist_from(ops@, safe@, first, max, used as nat, from as int) == hoist_from(
                ops@,
                safe@,
                first,
                max,
                used as nat,
                i + 1,
            ));
            from = i + 1;
            continue;
        }
        let mut reads = loop_reads(ops, body, i, &safe);
        let ghost all = reads@;
        let left: u32 = MAX_HOISTS_PER_METHOD - used;
        let free: u32 = max_locals - first_scratch - used;
        let budget: u32 = if left <= free {
            left
        } else {
            free
        };
        if reads.len() > budget as usize {
            reads.truncate(budget as usize);
        }
        assert(reads@ =~= all.take(min(all.len() as int, budget as int)));
        if reads.len() == 0 || !undisturbed(ops, body, i, &reads) {
            from = i + 1;
            continue;
        }
        assert(reads@ == picked(ops@, body as int, i as int, safe@, budget as int));
        let n: u32 = reads.len() as u32;
        let scratch: u32 = first_scratch + used;
        proof {
            lemma_reads_are_reads(ops@, body as int, i as int, safe@, i as int);
            assert forall|k: int| 0 <= k < reads@.len() implies op::branch_target(
                (#[trigger] reads@[k]).0,
            ) is None && op::branch_target(reads@[k].1) is None by {
                assert(reads@[k] == all[k]);
            }
            assert forall|j: int|
                0 <= j < ops@.len() implies (op::branch_target(#[trigger] ops@[j]) matches Some(t)
                ==> t + 3 * reads@.len() <= usize::MAX) by {}
            lemma_hoisted_targets(
                ops@,
                body as int,
                i as int,
                reads@,
                scratch as int,
                3 * (MAX_HOISTS_PER_METHOD - used - n),
            );
        }
        let next = hoist_loop(ops, body, i, &reads, scratch);
        safe = shift_indices(&safe, body - 1, 3 * n);
        *ops = next;
        used = used + n;
        from = i + 1 + 3 * n as usize;
    }
    used
}

} // verus!
