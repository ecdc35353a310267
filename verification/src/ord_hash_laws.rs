//! What holds of every ordered map, stated over the entries that a run of
//! insertions leaves behind.

use crate::ord_hash::{
    built_from, distinct_keys, has_key, inserted, keys_of, lemma_inserted_distinct,
    lemma_position_unique, lookup, position, OrderedHashmap,
};
use std::hash::Hash;
use vstd::prelude::*;
use vstd::std_specs::cmp::PartialEqSpec;

verus! {

/// A key is in the map built from `pairs` exactly if `pairs` offered it.
pub proof fn lemma_built_keys<K, V>(pairs: Seq<(K, V)>, k: K)
    ensures
        has_key(built_from(pairs), k) <==> has_key(pairs, k),
    decreases pairs.len(),
{
    if pairs.len() > 0 {
        let init = pairs.drop_last();
        let last = pairs.last();
        let before = built_from(init);
        let after = built_from(pairs);
        lemma_built_keys(init, k);
        lemma_built_keys(init, last.0);
        if has_key(pairs, k) {
            let i = choose|i: int| 0 <= i < pairs.len() && (#[trigger] pairs[i]).0 == k;
            if i < init.len() {
                assert(init[i].0 == k);
                let j = choose|j: int| 0 <= j < before.len() && (#[trigger] before[j]).0 == k;
                assert(after[j].0 == k);
            } else if has_key(before, k) {
            } else {
                assert(after[before.len() as int].0 == k);
            }
        }
        if has_key(after, k) {
            let j = choose|j: int| 0 <= j < after.len() && (#[trigger] after[j]).0 == k;
            if j < before.len() {
                assert(before[j].0 == k);
                let i = choose|i: int| 0 <= i < init.len() && (#[trigger] init[i]).0 == k;
                assert(pairs[i].0 == k);
            } else {
                assert(pairs[pairs.len() - 1].0 == k);
            }
        }
    }
}

/// Whatever was offered, the map built from it holds no key twice.
pub proof fn lemma_built_distinct<K, V>(pairs: Seq<(K, V)>)
    ensures
        distinct_keys(built_from(pairs)),
    decreases pairs.len(),
{
    if pairs.len() > 0 {
        lemma_built_distinct(pairs.drop_last());
        lemma_inserted_distinct(built_from(pairs.drop_last()), pairs.last().0, pairs.last().1);
    }
}

/// Uniqueness: after any run of insertions the map holds as many entries as
/// the run had distinct keys.
pub proof fn law_len_counts_distinct_keys<K, V>(pairs: Seq<(K, V)>)
    ensures
        built_from(pairs).len() == keys_of(pairs).to_set().len(),
{
    let built = built_from(pairs);
    let ks = keys_of(built);
    lemma_built_distinct(pairs);
    assert forall|i: int, j: int| 0 <= i < ks.len() && 0 <= j < ks.len() && i != j implies ks[i]
        != ks[j] by {
        if i < j {
            assert(built[i].0 != built[j].0);
        } else {
            assert(built[j].0 != built[i].0);
        }
    }
    ks.unique_seq_to_set();
    assert forall|k: K| ks.to_set().contains(k) <==> keys_of(pairs).to_set().contains(k) by {
        lemma_built_keys(pairs, k);
        if ks.contains(k) {
            let i = choose|i: int| 0 <= i < ks.len() && ks[i] == k;
            assert(built[i].0 == k);
        }
        if has_key(built, k) {
            let i = choose|i: int| 0 <= i < built.len() && (#[trigger] built[i]).0 == k;
            assert(ks[i] == k);
        }
        if keys_of(pairs).contains(k) {
            let i = choose|i: int| 0 <= i < keys_of(pairs).len() && keys_of(pairs)[i] == k;
            assert(pairs[i].0 == k);
        }
        if has_key(pairs, k) {
            let i = choose|i: int| 0 <= i < pairs.len() && (#[trigger] pairs[i]).0 == k;
            assert(keys_of(pairs)[i] == k);
        }
    }
    assert(ks.to_set() =~= keys_of(pairs).to_set());
}

/// Order fidelity: insertions with distinct keys are all kept, in the order
/// in which they were made.
pub proof fn law_distinct_insertions_kept_in_order<K, V>(pairs: Seq<(K, V)>)
    requires
        distinct_keys(pairs),
    ensures
        built_from(pairs) == pairs,
    decreases pairs.len(),
{
    if pairs.len() > 0 {
        let init = pairs.drop_last();
        let last = pairs.last();
        assert forall|i: int, j: int| 0 <= i < j < init.len() implies (#[trigger] init[i]).0 != (
        #[trigger] init[j]).0 by {
            assert(pairs[i].0 != pairs[j].0);
        }
        law_distinct_insertions_kept_in_order(init);
        if has_key(init, last.0) {
            let i = choose|i: int| 0 <= i < init.len() && (#[trigger] init[i]).0 == last.0;
            assert(pairs[i].0 != pairs[pairs.len() - 1].0);
        }
        assert(init.push(last) =~= pairs);
    } else {
        assert(pairs =~= Seq::empty());
    }
}

/// A new entry at the end leaves what is found under the other keys alone.
pub proof fn lemma_lookup_after_push<K, V>(s: Seq<(K, V)>, e: (K, V), k: K)
    requires
        distinct_keys(s),
        !has_key(s, e.0),
    ensures
        lookup(s.push(e), k) == if k == e.0 {
            Some(e.1)
        } else {
            lookup(s, k)
        },
{
    let t = s.push(e);
    lemma_inserted_distinct(s, e.0, e.1);
    if k == e.0 {
        lemma_position_unique(t, k, s.len() as int);
    } else if has_key(s, k) {
        let i = position(s, k);
        assert(t[i] == s[i]);
        lemma_position_unique(s, k, i);
        lemma_position_unique(t, k, i);
    } else if has_key(t, k) {
        let j = choose|j: int| 0 <= j < t.len() && (#[trigger] t[j]).0 == k;
        assert(s[j].0 == k);
    }
}

/// Lookup correctness, for a key that was offered: the map holds the value
/// that came with the key's first insertion, whatever was offered later.
pub proof fn law_lookup_finds_first_insertion<K, V>(pairs: Seq<(K, V)>, i: int)
    requires
        0 <= i < pairs.len(),
        forall|j: int| 0 <= j < i ==> (#[trigger] pairs[j]).0 != pairs[i].0,
    ensures
        lookup(built_from(pairs), pairs[i].0) == Some(pairs[i].1),
    decreases pairs.len(),
{
    let init = pairs.drop_last();
    let last = pairs.last();
    let before = built_from(init);
    let k = pairs[i].0;
    lemma_built_distinct(init);
    lemma_built_keys(init, last.0);
    if i == pairs.len() - 1 {
        if has_key(init, k) {
            let j = choose|j: int| 0 <= j < init.len() && (#[trigger] init[j]).0 == k;
            assert(pairs[j].0 == k);
        }
        lemma_lookup_after_push(before, last, k);
    } else {
        assert(init[i] == pairs[i]);
        assert forall|j: int| 0 <= j < i implies (#[trigger] init[j]).0 != init[i].0 by {
            assert(pairs[j].0 != pairs[i].0);
        }
        law_lookup_finds_first_insertion(init, i);
        if !has_key(before, last.0) {
            lemma_built_keys(init, k);
            lemma_lookup_after_push(before, last, k);
        }
    }
}

/// Lookup correctness, for a key that was never offered: nothing is found.
pub proof fn law_lookup_misses_absent_key<K, V>(pairs: Seq<(K, V)>, k: K)
    requires
        !has_key(pairs, k),
    ensures
        lookup(built_from(pairs), k).is_none(),
{
    lemma_built_keys(pairs, k);
}

/// Equality strictness: of two runs of insertions, each with distinct keys,
/// the maps have the same entries in the same order exactly if the runs were
/// the same; the same pairs offered in another order give another map.
pub proof fn law_order_distinguishes<K, V>(p: Seq<(K, V)>, q: Seq<(K, V)>)
    requires
        distinct_keys(p),
        distinct_keys(q),
    ensures
        built_from(p) == built_from(q) <==> p == q,
{
    law_distinct_insertions_kept_in_order(p);
    law_distinct_insertions_kept_in_order(q);
}

/// Where `==` on keys and on values is plain equality, `==` on maps holds
/// exactly if the entries are the same in the same order.
pub proof fn law_eq_compares_entries<K: Hash + Eq + Copy, V: Copy + PartialEq>(
    a: OrderedHashmap<K, V>,
    b: OrderedHashmap<K, V>,
)
    requires
        vstd::laws_eq::obeys_concrete_eq::<K>(),
        vstd::laws_eq::obeys_concrete_eq::<V>(),
    ensures
        OrderedHashmap::<K, V>::obeys_eq_spec(),
        a.eq_spec(&b) <==> a@ == b@,
{
    reveal(vstd::laws_eq::obeys_concrete_eq);
    if a.eq_spec(&b) {
        assert forall|i: int| 0 <= i < a@.len() implies a@[i] == b@[i] by {
            assert(PartialEqSpec::eq_spec(&a@[i], &b@[i]));
        }
        assert(a@ =~= b@);
    }
}

/// Clone independence: a copy that holds the entries of `a`, as `clone`
/// returns it, compares equal to `a`; an insertion into the copy is an
/// insertion into the copy's own entries, after which the two still hold the
/// same entries exactly if the key was already there.
pub proof fn law_clone_equal_until_changed<K: Hash + Eq + Copy, V: Copy + PartialEq>(
    a: OrderedHashmap<K, V>,
    c: OrderedHashmap<K, V>,
    k: K,
    v: V,
)
    requires
        vstd::laws_eq::obeys_concrete_eq::<K>(),
        vstd::laws_eq::obeys_concrete_eq::<V>(),
        c@ == a@,
    ensures
        c.eq_spec(&a),
        inserted(c@, k, v) == a@ <==> has_key(a@, k),
{
    law_eq_compares_entries(c, a);
    if !has_key(a@, k) {
        assert(inserted(c@, k, v).len() == a@.len() + 1);
    }
}

} // verus!
