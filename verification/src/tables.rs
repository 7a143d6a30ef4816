//! The tables that the state machines keep: their keys, and the flags of a controlled writer.
use std::collections::{BTreeMap, HashMap};
use std::sync::Arc;
use std::sync::atomic::AtomicBool;
use vstd::prelude::*;
use vstd::std_specs::iter::IteratorSpec;

verus! {

/// Whether the sequence lists the members of the set, each once.
pub open spec fn lists<T>(keys: Seq<T>, dom: Set<T>) -> bool {
    keys.no_duplicates() && keys.to_set() == dom
}

/// Whether the sequence lists the members of one set, each once, and then those of another.
pub open spec fn lists_both<T>(keys: Seq<T>, first: Set<T>, second: Set<T>) -> bool {
    exists|n: int|
        0 <= n <= keys.len() && lists(#[trigger] keys.take(n), first) && lists(keys.skip(n), second)
}

/// The lengths of the values of a set of keys below `n`, summed up.
pub open spec fn total_len<T>(m: Map<u16, Seq<T>>, keys: Set<u16>, n: nat) -> nat
    decreases n,
{
    if n == 0 {
        0
    } else {
        total_len(m, keys, (n - 1) as nat) + if keys.contains((n - 1) as u16) {
            m[(n - 1) as u16].len()
        } else {
            0
        }
    }
}

/// The sum when one key is added.
pub proof fn total_len_insert<T>(m: Map<u16, Seq<T>>, keys: Set<u16>, key: u16, n: nat)
    requires
        !keys.contains(key),
        n <= 65536,
    ensures
        total_len(m, keys.insert(key), n) == total_len(m, keys, n) + if key < n {
            m[key].len()
        } else {
            0
        },
    decreases n,
{
    if n > 0 {
        total_len_insert(m, keys, key, (n - 1) as nat);
    }
}

/// No keys sum up to nothing.
pub proof fn total_len_empty<T>(m: Map<u16, Seq<T>>, n: nat)
    ensures
        total_len(m, Set::empty(), n) == 0,
    decreases n,
{
    if n > 0 {
        total_len_empty(m, (n - 1) as nat);
    }
}

/// A new value adds its length at most.
pub proof fn total_len_update<T>(m: Map<u16, Seq<T>>, key: u16, value: Seq<T>, n: nat)
    requires
        n <= 65536,
    ensures
        total_len(m.insert(key, value), m.insert(key, value).dom(), n) <= total_len(m, m.dom(), n)
            + if key < n {
            value.len()
        } else {
            0
        },
    decreases n,
{
    if n > 0 {
        total_len_update(m, key, value, (n - 1) as nat);
    }
}

/// There are finitely many identifiers.
pub proof fn keys_are_finite(keys: Set<u16>)
    ensures
        keys.finite(),
{
    let all = vstd::set_lib::set_int_range(0, 65536);
    vstd::set_lib::lemma_int_range(0, 65536);
    all.lemma_map_finite(|i: int| i as u16);
    let ids = all.map(|i: int| i as u16);
    assert forall|key: u16| keys.contains(key) implies ids.contains(key) by {
        assert(all.contains(key as int));
        assert((key as int) as u16 == key);
    }
    vstd::set_lib::lemma_set_subset_finite(ids, keys);
}

/// The members of a list that stand in front of a place.
pub open spec fn listed_before(keys: Seq<u16>, i: int) -> Set<u16> {
    keys.take(i).to_set()
}

/// One more place adds a key that was not there.
pub proof fn listed_grows(keys: Seq<u16>, i: int)
    requires
        keys.no_duplicates(),
        0 <= i < keys.len(),
    ensures
        !listed_before(keys, i).contains(keys[i]),
        listed_before(keys, i + 1) == listed_before(keys, i).insert(keys[i]),
{
    let a = keys.take(i);
    if a.to_set().contains(keys[i]) {
        let j = a.index_of(keys[i]);
        assert(keys[j] == keys[i]);
    }
    assert(keys.take(i + 1) =~= a.push(keys[i]));
    assert forall|key: u16| keys.take(i + 1).to_set().contains(key) == #[trigger] a.to_set().insert(
        keys[i],
    ).contains(key) by {
        if a.contains(key) {
            let j = a.index_of(key);
            assert(keys.take(i + 1)[j] == key);
        }
        if key == keys[i] {
            assert(keys.take(i + 1)[i] == key);
        }
    }
    assert(listed_before(keys, i + 1) =~= listed_before(keys, i).insert(keys[i]));
}

/// The keys of an ordered table.
pub(crate) fn ordered_keys<V>(table: &BTreeMap<u16, V>) -> (r: Vec<u16>)
    ensures
        lists(r@, table@.dom()),
{
    broadcast use vstd::std_specs::btree::group_btree_axioms;

    let ghost all: Seq<u16> = table.keys().remaining().unref();
    let mut keys: Vec<u16> = Vec::new();
    for key in it: table.keys()
        invariant
            it.seq().unref() == all,
            keys@ == all.take(it.index()),
    {
        keys.push(*key);
        assert(all.take(it.index() + 1) =~= all.take(it.index()).push(*key));
    }
    assert(keys@ =~= all);
    assert(all.no_duplicates()) by {
        assert(forall|i: int| 0 <= i < all.len() ==> all[i] == *table.keys().remaining()[i]);
    }
    keys
}

/// The keys of a hash table, in any order.
pub(crate) fn hashed_keys<V>(table: &HashMap<u16, V>) -> (r: Vec<u16>)
    ensures
        lists(r@, table@.dom()),
{
    broadcast use vstd::std_specs::hash::group_hash_axioms;

    let ghost all: Seq<u16> = table.keys().remaining().unref();
    let mut keys: Vec<u16> = Vec::new();
    for key in it: table.keys()
        invariant
            it.seq().unref() == all,
            keys@ == all.take(it.index()),
    {
        keys.push(*key);
        assert(all.take(it.index() + 1) =~= all.take(it.index()).push(*key));
    }
    assert(keys@ =~= all);
    assert(all.no_duplicates()) by {
        assert(forall|i: int| 0 <= i < all.len() ==> all[i] == *table.keys().remaining()[i]);
    }
    keys
}

/// Whether `r` is what a load of the flag gave.
pub open spec fn read_as(flag: Arc<AtomicBool>, r: bool) -> bool {
    call_ensures(AtomicBool::load, (&*flag, std::sync::atomic::Ordering::Acquire), r)
}

/// Whether a controlled writer may have transmitted the publication of the flag: what a load of
/// the flag gives. Another thread may raise the flag at any time, so two loads may differ.
pub(crate) fn transmitted(flag: &Arc<AtomicBool>) -> (r: bool)
    ensures
        read_as(*flag, r),
{
    flag.load(std::sync::atomic::Ordering::Acquire)
}

} // verus!
