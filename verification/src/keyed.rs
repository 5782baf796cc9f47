//! Tables with an FNV hash, keyed by the words that stand for methods.

use fnv::{FnvHashMap, FnvHashSet};
use vstd::prelude::*;

verus! {

/// The FNV hasher.
#[verifier::external_type_specification]
#[verifier::external_body]
pub struct ExFnvHasher(fnv::FnvHasher);

/// What makes a table's hashers.
#[verifier::external_type_specification]
#[verifier::external_body]
#[verifier::reject_recursive_types(H)]
pub struct ExBuildHasherDefault<H>(core::hash::BuildHasherDefault<H>);

/// An empty table.
pub(crate) fn new_table<V>() -> (r: FnvHashMap<u64, V>)
    ensures
        r@ == Map::<u64, V>::empty(),
{
    FnvHashMap::default()
}

/// `FnvHashMap::get`: the value at `key`, if there is one.
#[verifier::external_body]
pub(crate) fn look_up<V>(table: &FnvHashMap<u64, V>, key: u64) -> (r: Option<&V>)
    ensures
        match r {
            Some(v) => table@.dom().contains(key) && *v == table@[key],
            None => !table@.dom().contains(key),
        },
{
    table.get(&key)
}

/// `FnvHashMap::insert`: puts a value at `key`, in place of the one that stood there.
#[verifier::external_body]
pub(crate) fn put<V>(table: &mut FnvHashMap<u64, V>, key: u64, value: V)
    ensures
        final(table)@ == old(table)@.insert(key, value),
{
    table.insert(key, value);
}

/// `FnvHashMap::remove`: takes the value at `key` out.
#[verifier::external_body]
pub(crate) fn take_out<V>(table: &mut FnvHashMap<u64, V>, key: u64) -> (r: Option<V>)
    ensures
        final(table)@ == old(table)@.remove(key),
        match r {
            Some(v) => old(table)@.dom().contains(key) && v == old(table)@[key],
            None => !old(table)@.dom().contains(key),
        },
{
    table.remove(&key)
}

/// An empty set.
pub(crate) fn new_set() -> (r: FnvHashSet<u64>)
    ensures
        r@ == Set::<u64>::empty(),
{
    FnvHashSet::default()
}

/// `FnvHashSet::insert`: adds a word.
#[verifier::external_body]
pub(crate) fn add_word(set: &mut FnvHashSet<u64>, word: u64)
    ensures
        final(set)@ == old(set)@.insert(word),
{
    set.insert(word);
}

/// `FnvHashSet::contains`: whether a word is in the set.
#[verifier::external_body]
pub(crate) fn has_word(set: &FnvHashSet<u64>, word: u64) -> (r: bool)
    ensures
        r == set@.contains(word),
{
    set.contains(&word)
}

} // verus!
