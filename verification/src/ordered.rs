//! Ordered enumeration of sets.
//!
//! The automaton keeps its edges in ordered sets and maps, and the generated program lists
//! them in ascending order. This module says what that order is.

use std::collections::{BTreeMap, BTreeSet};
use vstd::laws_cmp::{obeys_cmp, obeys_cmp_ord, obeys_partial_cmp_spec_properties};
use vstd::prelude::*;
use vstd::std_specs::btree::{
    increasing_seq, spec_btree_keys_iter, spec_btree_map_iter, spec_keys_iter,
};
use vstd::std_specs::cmp::{OrdSpec, PartialOrdSpec};
use vstd::std_specs::iter::IteratorSpec;

verus! {

/// Every element of `q` is less than all the elements behind it.
pub open spec fn ascending<K: Ord>(q: Seq<K>) -> bool {
    forall|i: int, j: int| 0 <= i < j < q.len() ==> #[trigger] q[i].cmp_spec(&#[trigger] q[j]) is Less
}

/// The elements of `s`, each of them once, from the least to the greatest.
pub open spec fn in_order<K: Ord>(s: Set<K>) -> Seq<K> {
    choose|q: Seq<K>| ascending(q) && #[trigger] q.to_set() == s
}

/// Bytes, numbers and pairs of numbers are totally ordered.
pub proof fn lemma_numbers_are_ordered()
    ensures
        obeys_cmp::<u8>(),
        obeys_cmp::<usize>(),
        obeys_cmp::<(usize, usize)>(),
{
    broadcast use vstd::laws_cmp::group_laws_cmp;

}

/// Bytes and numbers ascend by value. Pairs of numbers ascend by their first numbers and, where
/// these are equal, by their second ones.
pub proof fn numbers_ascend_by_value(
    bytes: Seq<u8>,
    numbers: Seq<usize>,
    pairs: Seq<(usize, usize)>,
)
    ensures
        ascending(bytes) <==> forall|i: int, j: int|
            0 <= i < j < bytes.len() ==> #[trigger] bytes[i] < #[trigger] bytes[j],
        ascending(numbers) <==> forall|i: int, j: int|
            0 <= i < j < numbers.len() ==> #[trigger] numbers[i] < #[trigger] numbers[j],
        ascending(pairs) <==> forall|i: int, j: int|
            0 <= i < j < pairs.len() ==> (#[trigger] pairs[i]).0 < (#[trigger] pairs[j]).0
                || pairs[i].0 == pairs[j].0 && pairs[i].1 < pairs[j].1,
{
    if ascending(bytes) {
        assert forall|i: int, j: int| 0 <= i < j < bytes.len() implies #[trigger] bytes[i]
            < #[trigger] bytes[j] by {
            assert(bytes[i].cmp_spec(&bytes[j]) is Less);
        }
    }
    if ascending(numbers) {
        assert forall|i: int, j: int| 0 <= i < j < numbers.len() implies #[trigger] numbers[i]
            < #[trigger] numbers[j] by {
            assert(numbers[i].cmp_spec(&numbers[j]) is Less);
        }
    }
    if ascending(pairs) {
        assert forall|i: int, j: int| 0 <= i < j < pairs.len() implies (#[trigger] pairs[i]).0 < (
        #[trigger] pairs[j]).0 || pairs[i].0 == pairs[j].0 && pairs[i].1 < pairs[j].1 by {
            assert(pairs[i].cmp_spec(&pairs[j]) is Less);
        }
    }
}

/// No element is less than itself, and of two elements at most one is less than the other.
proof fn lemma_less_is_asymmetric<K: Ord>(x: K, y: K)
    requires
        obeys_cmp::<K>(),
        x.cmp_spec(&y) is Less,
    ensures
        !(y.cmp_spec(&x) is Less),
{
    reveal(obeys_cmp_ord);
    reveal(obeys_partial_cmp_spec_properties);
    assert(x.partial_cmp_spec(&y) == Some(x.cmp_spec(&y)));
    assert(y.partial_cmp_spec(&x) == Some(y.cmp_spec(&x)));
}

/// A set has one ascending enumeration: two ascending sequences with the same elements
/// are equal.
pub proof fn ascending_enumeration_is_unique<K: Ord>(p: Seq<K>, q: Seq<K>)
    requires
        obeys_cmp::<K>(),
        ascending(p),
        ascending(q),
        p.to_set() == q.to_set(),
    ensures
        p == q,
    decreases p.len(),
{
    if p.len() == 0 {
        if q.len() > 0 {
            assert(q.to_set().contains(q[0]));
            assert(p.to_set().contains(q[0]));
        }
        assert(p =~= q);
    } else {
        assert(p.to_set().contains(p.last()));
        assert(q.to_set().contains(p.last()));
        let j = choose|j: int| 0 <= j < q.len() && q[j] == p.last();
        assert(q.to_set().contains(q.last()));
        assert(p.to_set().contains(q.last()));
        let i = choose|i: int| 0 <= i < p.len() && p[i] == q.last();
        if j < q.len() - 1 {
            assert(q[j].cmp_spec(&q[q.len() - 1]) is Less);
            lemma_less_is_asymmetric(q[j], q.last());
            if i < p.len() - 1 {
                assert(p[i].cmp_spec(&p[p.len() - 1]) is Less);
            }
            assert(false);
        }
        assert(p.last() == q.last());
        lemma_drop_last_removes_the_greatest(p);
        lemma_drop_last_removes_the_greatest(q);
        ascending_enumeration_is_unique(p.drop_last(), q.drop_last());
        assert(p =~= p.drop_last().push(p.last()));
        assert(q =~= q.drop_last().push(q.last()));
    }
}

proof fn lemma_drop_last_removes_the_greatest<K: Ord>(p: Seq<K>)
    requires
        obeys_cmp::<K>(),
        ascending(p),
        p.len() > 0,
    ensures
        ascending(p.drop_last()),
        p.drop_last().to_set() == p.to_set().remove(p.last()),
{
    let rest = p.drop_last();
    assert forall|x: K| rest.to_set().contains(x) <==> p.to_set().remove(p.last()).contains(x) by {
        if rest.to_set().contains(x) {
            let i = choose|i: int| 0 <= i < rest.len() && rest[i] == x;
            assert(p[i] == x);
            assert(p[i].cmp_spec(&p[p.len() - 1]) is Less);
            if x == p.last() {
                lemma_less_is_asymmetric(x, x);
            }
        }
        if p.to_set().remove(p.last()).contains(x) {
            let i = choose|i: int| 0 <= i < p.len() && p[i] == x;
            assert(rest[i] == x);
        }
    }
    assert(rest.to_set() =~= p.to_set().remove(p.last()));
}

/// An ascending sequence is the ordered enumeration of its elements.
pub proof fn ascending_sequence_is_in_order<K: Ord>(q: Seq<K>)
    requires
        obeys_cmp::<K>(),
        ascending(q),
    ensures
        in_order(q.to_set()) == q,
{
    ascending_enumeration_is_unique(in_order(q.to_set()), q);
}

/// An ascending sequence of references refers to an ascending sequence.
proof fn lemma_references_in_order<K: Ord>(all: Seq<&K>)
    requires
        obeys_cmp::<K>(),
        increasing_seq(all),
    ensures
        ascending(all.unref()),
{
    broadcast use vstd::laws_cmp::group_laws_cmp;

    assert(obeys_cmp::<&K>());
    assert forall|i: int, j: int| 0 <= i < j < all.len() implies #[trigger] all.unref()[i].cmp_spec(
        &#[trigger] all.unref()[j],
    ) is Less by {
        assert(OrdSpec::cmp_spec(&all[i], &all[j]) is Less);
    }
}

/// The ordered enumeration of a set lists the elements of the set, in ascending order.
pub proof fn set_is_enumerated_in_order<K: Ord>(set: &BTreeSet<K>)
    requires
        obeys_cmp::<K>(),
    ensures
        ascending(in_order(set@)),
        in_order(set@).to_set() == set@,
        in_order(set@) == spec_btree_keys_iter(set).remaining().unref(),
{
    let all = spec_btree_keys_iter(set).remaining();
    lemma_references_in_order(all);
    ascending_sequence_is_in_order(all.unref());
}

/// The ordered enumeration of the keys of a map lists its keys, in ascending order.
pub proof fn keys_are_enumerated_in_order<K: Ord, V>(map: &BTreeMap<K, V>)
    requires
        obeys_cmp::<K>(),
    ensures
        ascending(in_order(map@.dom())),
        in_order(map@.dom()).to_set() == map@.dom(),
{
    let all = spec_keys_iter(map).remaining();
    lemma_references_in_order(all);
    ascending_sequence_is_in_order(all.unref());
}

/// The elements of `set` in ascending order.
pub fn elements_in_order<K: Ord + Copy>(set: &BTreeSet<K>) -> (r: Vec<K>)
    requires
        obeys_cmp::<K>(),
    ensures
        r@ == in_order(set@),
{
    let ghost all = spec_btree_keys_iter(set).remaining();
    let mut r: Vec<K> = Vec::new();
    for k in it: set.iter()
        invariant
            it.seq() == all,
            r@ == all.unref().take(it.index()),
    {
        r.push(*k);
    }
    proof {
        assert(r@ == all.unref());
        set_is_enumerated_in_order(set);
    }
    r
}

/// Walking over a map meets its keys in ascending order, each with its value.
pub proof fn lemma_map_is_walked_in_order<K: Ord, V>(map: &BTreeMap<K, V>, keys: Seq<K>)
    requires
        obeys_cmp::<K>(),
        increasing_seq(keys),
        keys == spec_btree_map_iter(map).remaining().map_values(|kv: (&K, &V)| *kv.0),
    ensures
        keys == in_order(map@.dom()),
        forall|i: int|
            0 <= i < keys.len() ==> map@[keys[i]] == *(
            #[trigger] spec_btree_map_iter(map).remaining()[i]).1,
{
    let all = spec_btree_map_iter(map).remaining();
    assert forall|k: K| keys.to_set().contains(k) <==> map@.dom().contains(k) by {
        if keys.to_set().contains(k) {
            let i = choose|i: int| 0 <= i < keys.len() && keys[i] == k;
            assert(map@.contains_key(*all[i].0));
        }
        if map@.contains_key(k) {
            assert(all.contains((&k, &map@[k])));
            let i = choose|i: int| 0 <= i < all.len() && all[i] == (&k, &map@[k]);
            assert(keys[i] == k);
        }
    }
    assert(keys.to_set() =~= map@.dom());
    assert(ascending(keys));
    ascending_sequence_is_in_order(keys);
    assert forall|i: int| 0 <= i < keys.len() implies map@[keys[i]] == *(#[trigger] all[i]).1 by {
        assert(map@.contains_key(*all[i].0));
    }
}

} // verus!
