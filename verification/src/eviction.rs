//! Eviction of the oldest entries of an ordered map.
//!
//! Identifiers grow over time, so the oldest entries are the ones with the smallest keys.

use std::collections::BTreeMap;

use vstd::laws_cmp::{obeys_cmp, obeys_cmp_ord, obeys_partial_cmp_spec_properties};
use vstd::prelude::*;
use vstd::std_specs::btree::increasing_seq;
use vstd::std_specs::cmp::OrdSpec;
use vstd::std_specs::iter::IteratorSpec;

verus! {

/// Whether the `Ord` of a key type is a total order that agrees with equality.
pub open spec fn totally_ordered<K: Ord>() -> bool {
    obeys_cmp::<K>()
}

/// Whether `a` is smaller than `b`.
pub open spec fn precedes<K: Ord>(a: K, b: K) -> bool {
    a.cmp_spec(&b) is Less
}

/// Whether `kept` is what is left of `all` once every entry but the `n` with the largest keys is
/// gone.
pub open spec fn keeps_largest<K: Ord, V>(all: Map<K, V>, kept: Map<K, V>, n: nat) -> bool {
    &&& kept.submap_of(all)
    &&& kept.dom().finite()
    &&& kept.len() == n
    &&& forall|gone: K, left: K|
        all.contains_key(gone) && !kept.contains_key(gone) && kept.contains_key(left)
            ==> #[trigger] precedes(gone, left)
}

/// The keys of a map that are larger than `k`: the entries newer than that of `k`.
pub open spec fn newer<V>(all: Map<u128, V>, k: u128) -> Set<u128> {
    all.dom().filter(|other: u128| other > k)
}

/// The `n` newest entries of a map: those with fewer than `n` newer entries.
pub open spec fn newest<V>(all: Map<u128, V>, n: nat) -> Map<u128, V> {
    all.restrict(all.dom().filter(|k: u128| newer(all, k).len() < n))
}

/// Only one map keeps the `n` largest entries of another: that of its `n` newest.
pub proof fn lemma_largest_are_newest<V>(all: Map<u128, V>, kept: Map<u128, V>, n: nat)
    requires
        all.dom().finite(),
        keeps_largest(all, kept, n),
    ensures
        kept == newest(all, n),
{
    assert forall|k: u128| all.contains_key(k) implies (kept.contains_key(k) <==> newer(
        all,
        k,
    ).len() < n) by {
        let above = newer(all, k);
        if kept.contains_key(k) {
            assert forall|j: u128| above.contains(j) implies kept.dom().remove(k).contains(j) by {
                if !kept.contains_key(j) {
                    assert(precedes(j, k));
                }
            }
            vstd::set_lib::lemma_len_subset(above, kept.dom().remove(k));
        } else {
            assert forall|j: u128| kept.dom().contains(j) implies above.contains(j) by {
                assert(precedes(k, j));
            }
            vstd::set_lib::lemma_len_subset(kept.dom(), above);
        }
    }
    assert(kept =~= newest(all, n));
}

/// The smallest member of a set of numbers.
proof fn lemma_smallest(numbers: Set<u128>) -> (smallest: u128)
    requires
        numbers.finite(),
        numbers.len() > 0,
    ensures
        numbers.contains(smallest),
        forall|k: u128| #[trigger] numbers.contains(k) ==> smallest <= k,
    decreases numbers.len(),
{
    let k = numbers.choose();
    let rest = numbers.remove(k);
    if rest.len() == 0 {
        assert forall|other: u128| #[trigger] numbers.contains(other) implies k <= other by {
            if other != k {
                assert(rest.contains(other));
            }
        }
        k
    } else {
        let least = lemma_smallest(rest);
        assert forall|other: u128| #[trigger] numbers.contains(other) implies least <= other || k
            <= other by {
            if other != k {
                assert(rest.contains(other));
            }
        }
        if least < k {
            least
        } else {
            k
        }
    }
}

/// The `n` newest entries of a map are the `n` largest ones, and there are `n` of them.
pub proof fn lemma_newest_are_largest<V>(all: Map<u128, V>, n: nat)
    requires
        all.dom().finite(),
        n <= all.len(),
    ensures
        keeps_largest(all, newest(all, n), n),
    decreases all.len(),
{
    if n == all.len() {
        assert forall|k: u128| all.contains_key(k) implies newer(all, k).len() < n by {
            vstd::set_lib::lemma_len_subset(newer(all, k), all.dom().remove(k));
        }
        assert(newest(all, n) =~= all);
    } else {
        let oldest = lemma_smallest(all.dom());
        let rest = all.remove(oldest);
        lemma_newest_are_largest(rest, n);
        assert(newer(all, oldest) =~= rest.dom());
        assert forall|k: u128| rest.contains_key(k) implies newer(all, k) == newer(rest, k) by {
            assert(newer(all, k) =~= newer(rest, k));
        }
        assert(newest(all, n) =~= newest(rest, n));
        assert forall|gone: u128, left: u128|
            all.contains_key(gone) && !newest(all, n).contains_key(gone) && newest(
                all,
                n,
            ).contains_key(left) implies #[trigger] precedes(gone, left) by {
            assert(rest.contains_key(left));
            if gone != oldest {
                assert(rest.contains_key(gone));
            }
        }
    }
}

/// What is newest does not depend on the values of a map.
pub proof fn lemma_newest_of_values<V, W>(all: Map<u128, V>, f: spec_fn(V) -> W, n: nat)
    ensures
        newest(all.map_values(f), n) == newest(all, n).map_values(f),
{
    assert(all.map_values(f).dom() == all.dom());
    assert forall|k: u128| newer(all.map_values(f), k) == newer(all, k) by {}
    assert(newest(all.map_values(f), n) =~= newest(all, n).map_values(f));
}

/// The keys of `all`, each of them once, in increasing order.
spec fn sorted_keys<K: Ord, V>(all: Map<K, V>, order: Seq<K>) -> bool {
    &&& order.no_duplicates()
    &&& order.to_set() == all.dom()
    &&& forall|i: int, j: int| 0 <= i < j < order.len() ==> precedes(order[i], order[j])
}

/// What the iterator of a map lists gives the keys in increasing order.
proof fn lemma_listing<K: Ord, V>(all: Map<K, V>, listed: Seq<(&K, &V)>, order: Seq<K>)
    requires
        totally_ordered::<K>(),
        order == listed.map_values(|entry: (&K, &V)| *entry.0),
        increasing_seq(order),
        forall|i: int| 0 <= i < listed.len() ==> all.contains_key(*(#[trigger] listed[i]).0),
        forall|k: K| #[trigger] all.contains_key(k) ==> listed.contains((&k, &all[k])),
    ensures
        sorted_keys(all, order),
{
    assert forall|i: int, j: int| 0 <= i < j < order.len() implies precedes(
        order[i],
        order[j],
    ) by {
        assert(order[i].cmp_spec(&order[j]) is Less);
    }
    assert forall|k: K| order.to_set().contains(k) == all.dom().contains(k) by {
        if all.contains_key(k) {
            let i = choose|i: int| 0 <= i < listed.len() && listed[i] == (&k, &all[k]);
            assert(order[i] == k);
        }
        if order.contains(k) {
            let i = choose|i: int| 0 <= i < order.len() && order[i] == k;
            assert(*listed[i].0 == k);
        }
    }
    assert forall|i: int, j: int| 0 <= i < j < order.len() implies order[i] != order[j] by {
        lemma_irreflexive(order[i]);
        assert(precedes(order[i], order[j]));
    }
    assert(order.to_set() == all.dom());
    assert(order.no_duplicates());
}

/// No key is smaller than itself.
proof fn lemma_irreflexive<K: Ord>(k: K)
    requires
        totally_ordered::<K>(),
    ensures
        !precedes(k, k),
{
    reveal(obeys_partial_cmp_spec_properties);
    reveal(obeys_cmp_ord);
}

/// Without its `n` smallest keys a map holds the largest ones.
proof fn lemma_rest_is_largest<K: Ord, V>(all: Map<K, V>, order: Seq<K>, n: int)
    requires
        all.dom().finite(),
        sorted_keys(all, order),
        0 <= n <= order.len(),
    ensures
        order.len() == all.len(),
        keeps_largest(all, all.remove_keys(order.take(n).to_set()), (all.len() - n) as nat),
{
    let gone = order.take(n).to_set();
    let kept = all.remove_keys(gone);
    order.unique_seq_to_set();
    order.take(n).unique_seq_to_set();
    assert(gone.subset_of(all.dom())) by {
        assert forall|k: K| gone.contains(k) implies all.dom().contains(k) by {
            let i = choose|i: int| 0 <= i < n && order.take(n)[i] == k;
            assert(order[i] == k);
            assert(order.to_set().contains(k));
        }
    }
    assert(kept.dom() == all.dom().difference(gone));
    assert(all.dom() == kept.dom().union(gone));
    vstd::set_lib::lemma_set_disjoint_lens(kept.dom(), gone);
    assert forall|g: K, left: K|
        all.contains_key(g) && !kept.contains_key(g) && kept.contains_key(
            left,
        ) implies #[trigger] precedes(g, left) by {
        let i = choose|i: int| 0 <= i < n && order.take(n)[i] == g;
        assert(order.to_set().contains(left));
        let j = choose|j: int| 0 <= j < order.len() && order[j] == left;
        if j < n {
            assert(order.take(n)[j] == left);
        }
        assert(precedes(order[i], order[j]));
    }
}

/// The `n` smallest keys of a map, in increasing order.
fn first_keys<K: Copy + Ord, V>(sessions: &BTreeMap<K, V>, n: usize) -> (keys: Vec<K>)
    requires
        totally_ordered::<K>(),
        n <= sessions@.len(),
    ensures
        exists|order: Seq<K>| sorted_keys(sessions@, order) && keys@ == order.take(n as int),
{
    let mut keys: Vec<K> = Vec::new();
    let entries = sessions.iter();
    let ghost listed = entries.remaining();
    let ghost order: Seq<K> = listed.map_values(|entry: (&K, &V)| *entry.0);
    for entry in it: entries
        invariant_except_break
            it.index() <= n,
            keys@ == order.take(it.index()),
        invariant
            it.seq() == listed,
            n <= listed.len(),
            order == listed.map_values(|entry: (&K, &V)| *entry.0),
        ensures
            keys@ == order.take(n as int),
    {
        if keys.len() == n {
            break;
        }
        keys.push(*entry.0);
    }
    proof {
        lemma_listing(sessions@, listed, order);
    }
    keys
}

/// Evicts the entries at the beginning of the map, until `capacity` of them are left. A map below
/// the capacity stays as it is.
pub fn evict<K: Copy + Ord, V>(sessions: &mut BTreeMap<K, V>, capacity: usize)
    requires
        totally_ordered::<K>(),
    ensures
        capacity <= old(sessions)@.len() ==> keeps_largest(
            old(sessions)@,
            final(sessions)@,
            capacity as nat,
        ),
        old(sessions)@.len() < capacity ==> final(sessions)@ == old(sessions)@,
{
    if sessions.len() < capacity {
        return;
    }
    let surplus: usize = sessions.len() - capacity;
    let ghost all = sessions@;

    // The keys to evict
    let keys = first_keys(sessions, surplus);
    let ghost order = choose|order: Seq<K>| sorted_keys(all, order) && keys@ == order.take(surplus as int);

    proof {
        order.unique_seq_to_set();
    }

    // Now evict them
    let mut next: usize = 0;
    while next < keys.len()
        invariant
            totally_ordered::<K>(),
            next <= keys.len(),
            surplus <= order.len(),
            keys@ == order.take(surplus as int),
            sessions@ == all.remove_keys(order.take(next as int).to_set()),
        decreases keys.len() - next,
    {
        sessions.remove(&keys[next]);
        proof {
            assert(order.take(next + 1) == order.take(next as int).push(keys[next as int]));
            assert(order.take(next + 1).to_set() == order.take(next as int).to_set().insert(
                keys[next as int],
            ));
        }
        next += 1;
    }
    proof {
        lemma_rest_is_largest(all, order, surplus as int);
    }
}

} // verus!
