//! Why methods are not compiled: how often each reason came up.

use fnv::FnvHashMap;
use vstd::prelude::*;

verus! {

/// The reasons in a table, by their text, and how often each came up.
pub uninterp spec fn counts_in(counts: FnvHashMap<String, u32>) -> Map<Seq<char>, u32>;

/// No reasons.
pub open spec fn no_counts() -> Map<Seq<char>, u32> {
    Map::empty()
}

/// `FnvHashMap::default`: an empty table.
#[verifier::external_body]
fn new_counts() -> (r: FnvHashMap<String, u32>)
    ensures
        counts_in(r) == no_counts(),
{
    FnvHashMap::default()
}

/// `FnvHashMap::get`: the count of a reason, if there is one.
#[verifier::external_body]
fn count_of(counts: &FnvHashMap<String, u32>, reason: &str) -> (r: Option<u32>)
    ensures
        r == if counts_in(*counts).dom().contains(reason@) {
            Some(counts_in(*counts)[reason@])
        } else {
            None
        },
{
    counts.get(reason).copied()
}

/// `FnvHashMap::insert`: sets the count of a reason.
#[verifier::external_body]
fn set_count(counts: &mut FnvHashMap<String, u32>, reason: String, count: u32)
    ensures
        counts_in(*final(counts)) == counts_in(*old(counts)).insert(reason@, count),
{
    counts.insert(reason, count);
}

/// `list` holds each reason of `counts` once, with its count.
pub open spec fn lists(list: Seq<(String, u32)>, counts: Map<Seq<char>, u32>) -> bool {
    &&& forall|i: int|
        0 <= i < list.len() ==> counts.dom().contains((#[trigger] list[i]).0@)
            && counts[list[i].0@] == list[i].1
    &&& forall|i: int, j: int|
        0 <= i < j < list.len() ==> (#[trigger] list[i]).0@ != (#[trigger] list[j]).0@
    &&& forall|reason: Seq<char>| #[trigger]
        counts.dom().contains(reason) ==> exists|i: int|
            0 <= i < list.len() && (#[trigger] list[i]).0@ == reason
}

/// `FnvHashMap::iter`: each reason once, with its count, in no particular order.
#[verifier::external_body]
fn entries(counts: &FnvHashMap<String, u32>) -> (r: Vec<(String, u32)>)
    ensures
        lists(r@, counts_in(*counts)),
{
    counts.iter().map(|(name, count)| (name.clone(), *count)).collect()
}

/// `a` comes before `b` by the first character that differs, or as its beginning.
pub open spec fn text_before(a: Seq<char>, b: Seq<char>) -> bool
    decreases b.len(),
{
    if b.len() == 0 {
        false
    } else if a.len() == 0 {
        true
    } else if a[0] == b[0] {
        text_before(a.skip(1), b.skip(1))
    } else {
        a[0] < b[0]
    }
}

/// `std`'s `<` on strings: by the code points of their characters.
#[verifier::external_body]
fn is_before(a: &str, b: &str) -> (r: bool)
    ensures
        r == text_before(a@, b@),
{
    a < b
}

proof fn lemma_text_asymmetric(a: Seq<char>, b: Seq<char>)
    requires
        text_before(a, b),
    ensures
        !text_before(b, a),
    decreases b.len(),
{
    if a.len() > 0 && a[0] == b[0] {
        lemma_text_asymmetric(a.skip(1), b.skip(1));
    }
}

proof fn lemma_text_total(a: Seq<char>, b: Seq<char>)
    requires
        a != b,
    ensures
        text_before(a, b) || text_before(b, a),
    decreases a.len(),
{
    if a.len() == 0 && b.len() == 0 {
        assert(a =~= b);
    } else if a.len() > 0 && b.len() > 0 && a[0] == b[0] {
        if a.skip(1) == b.skip(1) {
            assert(a =~= seq![a[0]] + a.skip(1));
            assert(b =~= seq![b[0]] + b.skip(1));
        } else {
            lemma_text_total(a.skip(1), b.skip(1));
        }
    }
}

proof fn lemma_text_transitive(a: Seq<char>, b: Seq<char>, c: Seq<char>)
    requires
        text_before(a, b),
        text_before(b, c),
    ensures
        text_before(a, c),
    decreases c.len(),
{
    if a.len() > 0 && a[0] == b[0] && b[0] == c[0] {
        lemma_text_transitive(a.skip(1), b.skip(1), c.skip(1));
    }
}

/// The order of the histogram: what came up more often first, and what came up as often in the
/// order of the texts.
pub open spec fn ranks_before(a: (String, u32), b: (String, u32)) -> bool {
    a.1 > b.1 || (a.1 == b.1 && text_before(a.0@, b.0@))
}

proof fn lemma_ranks_transitive(a: (String, u32), b: (String, u32), c: (String, u32))
    requires
        ranks_before(a, b),
        ranks_before(b, c),
    ensures
        ranks_before(a, c),
{
    if a.1 == b.1 && b.1 == c.1 {
        lemma_text_transitive(a.0@, b.0@, c.0@);
    }
}

/// Each of `list` ranks before those that follow it.
pub open spec fn ranked(list: Seq<(String, u32)>) -> bool {
    forall|i: int, j: int|
        0 <= i < j < list.len() ==> ranks_before(#[trigger] list[i], #[trigger] list[j])
}

/// Where `item` belongs in `list`.
fn place(list: &Vec<(String, u32)>, item: &(String, u32)) -> (r: usize)
    requires
        ranked(list@),
        forall|i: int| 0 <= i < list@.len() ==> (#[trigger] list@[i]).0@ != item.0@,
    ensures
        r <= list@.len(),
        forall|i: int| 0 <= i < r ==> ranks_before(#[trigger] list@[i], *item),
        forall|i: int| r <= i < list@.len() ==> ranks_before(*item, #[trigger] list@[i]),
{
    let mut i: usize = 0;
    while i < list.len()
        invariant
            i <= list@.len(),
            ranked(list@),
            forall|k: int| 0 <= k < list@.len() ==> (#[trigger] list@[k]).0@ != item.0@,
            forall|k: int| 0 <= k < i ==> ranks_before(#[trigger] list@[k], *item),
        decreases list@.len() - i,
    {
        let other = &list[i];
        let first = item.1 > other.1 || (item.1 == other.1 && is_before(
            item.0.as_str(),
            other.0.as_str(),
        ));
        if first {
            proof {
                assert forall|k: int| i <= k < list@.len() implies ranks_before(
                    *item,
                    #[trigger] list@[k],
                ) by {
                    if k > i {
                        lemma_ranks_transitive(*item, list@[i as int], list@[k]);
                    }
                }
            }
            return i;
        }
        proof {
            lemma_text_total(item.0@, list@[i as int].0@);
            assert(ranks_before(list@[i as int], *item));
        }
        i = i + 1;
    }
    i
}

/// The counts after `reason` has come up once more.
pub open spec fn recorded(counts: Map<Seq<char>, u32>, reason: Seq<char>) -> Map<Seq<char>, u32> {
    counts.insert(
        reason,
        if counts.dom().contains(reason) {
            (counts[reason] + 1) as u32
        } else {
            1
        },
    )
}

/// The counts after the reasons of `history` have come up, one after the other.
pub open spec fn all_recorded(history: Seq<Seq<char>>) -> Map<Seq<char>, u32>
    decreases history.len(),
{
    if history.len() == 0 {
        no_counts()
    } else {
        recorded(all_recorded(history.drop_last()), history.last())
    }
}

/// How often `reason` is in `history`.
pub open spec fn times(history: Seq<Seq<char>>, reason: Seq<char>) -> nat
    decreases history.len(),
{
    if history.len() == 0 {
        0
    } else {
        times(history.drop_last(), reason) + if history.last() == reason {
            1nat
        } else {
            0nat
        }
    }
}

proof fn lemma_counts_are_times(history: Seq<Seq<char>>, reason: Seq<char>)
    requires
        history.len() <= u32::MAX,
    ensures
        all_recorded(history).dom().contains(reason) <==> times(history, reason) > 0,
        times(history, reason) > 0 ==> all_recorded(history)[reason] == times(history, reason),
        times(history, reason) <= history.len(),
    decreases history.len(),
{
    if history.len() > 0 {
        lemma_counts_are_times(history.drop_last(), reason);
        lemma_counts_are_times(history.drop_last(), history.last());
    }
}

/// Whatever reasons have come up, the histogram holds each of them once, with the number of times
/// that it came up, and nothing else.
pub proof fn the_histogram_counts_the_history(
    history: Seq<Seq<char>>,
    list: Seq<(String, u32)>,
)
    requires
        history.len() <= u32::MAX,
        lists(list, all_recorded(history)),
    ensures
        forall|i: int|
            0 <= i < list.len() ==> (#[trigger] list[i]).1 == times(history, list[i].0@)
                && list[i].1 >= 1,
        forall|i: int, j: int|
            0 <= i < j < list.len() ==> (#[trigger] list[i]).0@ != (#[trigger] list[j]).0@,
        forall|reason: Seq<char>| #[trigger]
            history.contains(reason) ==> exists|i: int|
                0 <= i < list.len() && (#[trigger] list[i]).0@ == reason,
{
    assert forall|i: int| 0 <= i < list.len() implies (#[trigger] list[i]).1 == times(
        history,
        list[i].0@,
    ) && list[i].1 >= 1 by {
        lemma_counts_are_times(history, list[i].0@);
    }
    assert forall|reason: Seq<char>| #[trigger] history.contains(reason) implies exists|i: int|
        0 <= i < list.len() && (#[trigger] list[i]).0@ == reason by {
        lemma_contained_is_counted(history, reason);
        lemma_counts_are_times(history, reason);
        assert(all_recorded(history).dom().contains(reason));
    }
}

proof fn lemma_contained_is_counted(history: Seq<Seq<char>>, reason: Seq<char>)
    requires
        history.contains(reason),
    ensures
        times(history, reason) > 0,
    decreases history.len(),
{
    let k = choose|k: int| 0 <= k < history.len() && history[k] == reason;
    if k < history.len() - 1 {
        assert(history.drop_last()[k] == reason);
        lemma_contained_is_counted(history.drop_last(), reason);
    }
}

/// Both hold the same reason with the same count.
pub open spec fn same_entry(a: (String, u32), b: (String, u32)) -> bool {
    a.0@ == b.0@ && a.1 == b.1
}

/// There is one histogram of some counts: asked again, it is the same.
pub proof fn the_histogram_is_one(
    a: Seq<(String, u32)>,
    b: Seq<(String, u32)>,
    counts: Map<Seq<char>, u32>,
)
    requires
        lists(a, counts),
        ranked(a),
        lists(b, counts),
        ranked(b),
    ensures
        a.len() == b.len(),
        forall|i: int| 0 <= i < a.len() ==> same_entry(#[trigger] a[i], b[i]),
    decreases a.len(),
{
    if a.len() == 0 {
        if b.len() > 0 {
            assert(counts.dom().contains(b[0].0@));
        }
    } else {
        assert(counts.dom().contains(a[0].0@));
        let j = choose|j: int| 0 <= j < b.len() && (#[trigger] b[j]).0@ == a[0].0@;
        let k = choose|k: int| 0 <= k < a.len() && (#[trigger] a[k]).0@ == b[0].0@;
        assert(same_entry(a[0], b[j]) && same_entry(a[k], b[0]));
        if j > 0 {
            assert(ranks_before(b[0], b[j]));
            if k > 0 {
                assert(ranks_before(a[0], a[k]));
                if a[0].1 == a[k].1 {
                    lemma_text_asymmetric(a[0].0@, a[k].0@);
                }
            }
        }
        assert(same_entry(a[0], b[0]));
        let first = a[0].0@;
        lemma_rest_lists(a, counts);
        lemma_rest_lists(b, counts);
        the_histogram_is_one(a.skip(1), b.skip(1), counts.remove(first));
        assert forall|i: int| 0 <= i < a.len() implies same_entry(#[trigger] a[i], b[i]) by {
            if i > 0 {
                assert(same_entry(a.skip(1)[i - 1], b.skip(1)[i - 1]));
            }
        }
    }
}

proof fn lemma_rest_lists(list: Seq<(String, u32)>, counts: Map<Seq<char>, u32>)
    requires
        list.len() > 0,
        lists(list, counts),
        ranked(list),
    ensures
        lists(list.skip(1), counts.remove(list[0].0@)),
        ranked(list.skip(1)),
{
    let rest = list.skip(1);
    let less = counts.remove(list[0].0@);
    assert forall|i: int| 0 <= i < rest.len() implies less.dom().contains((#[trigger] rest[i]).0@)
        && less[rest[i].0@] == rest[i].1 by {
        assert(rest[i] == list[i + 1]);
        assert(list[0].0@ != list[i + 1].0@);
    }
    assert forall|i: int, j: int| 0 <= i < j < rest.len() implies (#[trigger] rest[i]).0@
        != (#[trigger] rest[j]).0@ && ranks_before(rest[i], rest[j]) by {
        assert(rest[i] == list[i + 1] && rest[j] == list[j + 1]);
    }
    assert forall|reason: Seq<char>| #[trigger] less.dom().contains(reason) implies exists|i: int|
        0 <= i < rest.len() && (#[trigger] rest[i]).0@ == reason by {
        let k = choose|k: int| 0 <= k < list.len() && (#[trigger] list[k]).0@ == reason;
        assert(rest[k - 1].0@ == reason);
    }
}

/// The reasons and how often each came up.
pub struct Declines {
    counts: FnvHashMap<String, u32>,
    total: u32,
}

impl View for Declines {
    type V = Map<Seq<char>, u32>;

    closed spec fn view(&self) -> Map<Seq<char>, u32> {
        counts_in(self.counts)
    }
}

impl Declines {
    /// How many methods were not compiled.
    pub closed spec fn all(self) -> nat {
        self.total as nat
    }

    /// No reason came up more often than there were methods.
    pub closed spec fn well_formed(self) -> bool {
        forall|reason: Seq<char>| #[trigger]
            self@.dom().contains(reason) ==> self@[reason] <= self.total
    }

    /// No reason yet.
    pub fn new() -> (r: Declines)
        ensures
            r@ == no_counts(),
            r.all() == 0,
            r.well_formed(),
    {
        Declines { counts: new_counts(), total: 0 }
    }

    /// How many methods were not compiled.
    pub fn total(&self) -> (r: u32)
        ensures
            r == self.all(),
    {
        self.total
    }

    /// A method was not compiled, because of `reason`. Tells whether the histogram is worth a
    /// line in the log: on a new reason, and on every two hundredth method.
    pub fn record_decline(&mut self, reason: String) -> (r: bool)
        requires
            old(self).well_formed(),
            old(self).all() < u32::MAX,
        ensures
            final(self).well_formed(),
            final(self).all() == old(self).all() + 1,
            final(self)@ == recorded(old(self)@, reason@),
            r == (!old(self)@.dom().contains(reason@) || final(self).all() % 200 == 0),
    {
        let ghost text = reason@;
        let seen = count_of(&self.counts, reason.as_str());
        proof {
            if self@.dom().contains(text) {
                assert(self@[text] <= self.total);
            }
        }
        let count: u32 = match seen {
            Some(n) => n + 1,
            None => 1,
        };
        set_count(&mut self.counts, reason, count);
        self.total = self.total + 1;
        proof {
            assert forall|other: Seq<char>| #[trigger]
                self@.dom().contains(other) implies self@[other] <= self.total by {
                if other != text {
                    assert(old(self)@.dom().contains(other));
                }
            }
        }
        seen.is_none() || self.total % 200 == 0
    }

    /// The reasons and how often each came up, the most frequent first.
    pub fn decline_histogram(&self) -> (r: Vec<(String, u32)>)
        ensures
            lists(r@, self@),
            ranked(r@),
    {
        let mut left = entries(&self.counts);
        let ghost all = left@;
        let mut list: Vec<(String, u32)> = Vec::new();
        loop
            invariant
                left@ == all.take(left@.len() as int),
                left@.len() <= all.len(),
                lists(all, self@),
                ranked(list@),
                forall|i: int|
                    0 <= i < list@.len() ==> all.skip(left@.len() as int).contains(
                        #[trigger] list@[i],
                    ),
                forall|k: int|
                    left@.len() <= k < all.len() ==> list@.contains(#[trigger] all[k]),
            ensures
                left@.len() == 0,
            decreases left@.len(),
        {
            let ghost n = left@.len();
            match left.pop() {
                None => {
                    break;
                },
                Some(item) => {
                    assert(item == all[n - 1]);
                    assert forall|i: int| 0 <= i < list@.len() implies (#[trigger] list@[i]).0@
                        != item.0@ by {
                        let rest = all.skip(n as int);
                        let k = choose|k: int| 0 <= k < rest.len() && rest[k] == list@[i];
                        assert(rest[k] == all[n + k]);
                    }
                    let at: usize = place(&list, &item);
                    let ghost before = list@;
                    list.insert(at, item);
                    proof {
                        lemma_inserted(before, at as int, item, all, n as int);
                    }
                },
            }
        }
        proof {
            assert forall|i: int| 0 <= i < list@.len() implies self@.dom().contains(
                (#[trigger] list@[i]).0@,
            ) && self@[list@[i].0@] == list@[i].1 by {
                let rest = all.skip(0);
                let k = choose|k: int| 0 <= k < rest.len() && rest[k] == list@[i];
                assert(rest[k] == all[k]);
            }
            assert forall|i: int, j: int| 0 <= i < j < list@.len() implies (#[trigger] list@[i]).0@
                != (#[trigger] list@[j]).0@ by {
                assert(ranks_before(list@[i], list@[j]));
                if list@[i].0@ == list@[j].0@ {
                    let rest = all.skip(0);
                    let k = choose|k: int| 0 <= k < rest.len() && rest[k] == list@[i];
                    let l = choose|l: int| 0 <= l < rest.len() && rest[l] == list@[j];
                    assert(all[k] == list@[i] && all[l] == list@[j]);
                    assert(k == l);
                    lemma_text_asymmetric(list@[i].0@, list@[j].0@);
                }
            }
            assert forall|reason: Seq<char>| #[trigger]
                self@.dom().contains(reason) implies exists|i: int|
                0 <= i < list@.len() && (#[trigger] list@[i]).0@ == reason by {
                let k = choose|k: int| 0 <= k < all.len() && (#[trigger] all[k]).0@ == reason;
                assert(list@.contains(all[k]));
                let i = choose|i: int| 0 <= i < list@.len() && list@[i] == all[k];
                assert(list@[i].0@ == reason);
            }
        }
        list
    }
}

proof fn lemma_inserted(
    before: Seq<(String, u32)>,
    at: int,
    item: (String, u32),
    all: Seq<(String, u32)>,
    n: int,
)
    requires
        0 <= at <= before.len(),
        0 < n <= all.len(),
        item == all[n - 1],
        ranked(before),
        forall|i: int| 0 <= i < at ==> ranks_before(#[trigger] before[i], item),
        forall|i: int| at <= i < before.len() ==> ranks_before(item, #[trigger] before[i]),
        forall|i: int| 0 <= i < before.len() ==> all.skip(n).contains(#[trigger] before[i]),
        forall|k: int| n <= k < all.len() ==> before.contains(#[trigger] all[k]),
    ensures
        ranked(before.insert(at, item)),
        forall|i: int|
            0 <= i < before.len() + 1 ==> all.skip(n - 1).contains(
                #[trigger] before.insert(at, item)[i],
            ),
        forall|k: int|
            n - 1 <= k < all.len() ==> before.insert(at, item).contains(#[trigger] all[k]),
{
    let list = before.insert(at, item);
    assert forall|i: int, j: int| 0 <= i < j < list.len() implies ranks_before(
        #[trigger] list[i],
        #[trigger] list[j],
    ) by {
        let a = if i < at {
            i
        } else {
            i - 1
        };
        let b = if j < at {
            j
        } else {
            j - 1
        };
        if i != at && j != at {
            assert(list[i] == before[a] && list[j] == before[b]);
        } else if i == at {
            assert(list[j] == before[b]);
        } else {
            assert(list[i] == before[a]);
        }
    }
    assert forall|i: int| 0 <= i < list.len() implies all.skip(n - 1).contains(
        #[trigger] list[i],
    ) by {
        if i == at {
            assert(all.skip(n - 1)[0] == item);
        } else {
            let a = if i < at {
                i
            } else {
                i - 1
            };
            assert(list[i] == before[a]);
            let k = choose|k: int| 0 <= k < all.skip(n).len() && all.skip(n)[k] == before[a];
            assert(all.skip(n - 1)[k + 1] == before[a]);
        }
    }
    assert forall|k: int| n - 1 <= k < all.len() implies list.contains(#[trigger] all[k]) by {
        if k == n - 1 {
            assert(list[at] == item);
        } else {
            let i = choose|i: int| 0 <= i < before.len() && before[i] == all[k];
            if i < at {
                assert(list[i] == all[k]);
            } else {
                assert(list[i + 1] == all[k]);
            }
        }
    }
}

} // verus!
