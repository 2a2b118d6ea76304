//! Lists of pairs read as maps.
//!
//! The tables of a configuration are short lists of pairs that are searched
//! from the front. This module says which map such a list stands for and
//! proves what the searches rely on.

use vstd::prelude::*;

verus! {

/// No key occurs twice in `pairs`.
pub open spec fn keys_distinct<K, V>(pairs: Seq<(K, V)>) -> bool {
    forall|i: int, j: int|
        0 <= i < j < pairs.len() ==> (#[trigger] pairs[i]).0 != (#[trigger] pairs[j]).0
}

/// No value occurs twice in `pairs`.
pub open spec fn values_distinct<K, V>(pairs: Seq<(K, V)>) -> bool {
    forall|i: int, j: int|
        0 <= i < j < pairs.len() ==> (#[trigger] pairs[i]).1 != (#[trigger] pairs[j]).1
}

/// Some pair of `pairs` has the key `key`.
pub open spec fn has_key<K, V>(pairs: Seq<(K, V)>, key: K) -> bool {
    exists|i: int| 0 <= i < pairs.len() && (#[trigger] pairs[i]).0 == key
}

/// The map that takes the key of each pair to its value. Of two pairs with
/// one key the later one counts.
pub open spec fn assoc_map<K, V>(pairs: Seq<(K, V)>) -> Map<K, V>
    decreases pairs.len(),
{
    if pairs.len() == 0 {
        Map::empty()
    } else {
        assoc_map(pairs.drop_last()).insert(pairs.last().0, pairs.last().1)
    }
}

/// Distinct keys stay distinct when the last pair is dropped.
pub proof fn lemma_distinct_init<K, V>(pairs: Seq<(K, V)>)
    requires
        pairs.len() > 0,
        keys_distinct(pairs),
    ensures
        keys_distinct(pairs.drop_last()),
{
    let init = pairs.drop_last();
    assert forall|i: int, j: int| 0 <= i < j < init.len() implies (#[trigger] init[i]).0 != (
    #[trigger] init[j]).0 by {
        assert(init[i] == pairs[i] && init[j] == pairs[j]);
    }
}

/// The keys of the map are the keys of the pairs.
pub proof fn lemma_assoc_dom<K, V>(pairs: Seq<(K, V)>, key: K)
    ensures
        assoc_map(pairs).contains_key(key) <==> has_key(pairs, key),
    decreases pairs.len(),
{
    if pairs.len() > 0 {
        let init = pairs.drop_last();
        lemma_assoc_dom(init, key);
        if has_key(pairs, key) {
            let i = choose|i: int| 0 <= i < pairs.len() && (#[trigger] pairs[i]).0 == key;
            if i < init.len() {
                assert(init[i].0 == key);
            }
        }
        if assoc_map(pairs).contains_key(key) && key != pairs.last().0 {
            let i = choose|i: int| 0 <= i < init.len() && (#[trigger] init[i]).0 == key;
            assert(pairs[i].0 == key);
        }
        if key == pairs.last().0 {
            assert(pairs[pairs.len() - 1].0 == key);
        }
    }
}

/// Where the keys are distinct, the map takes the key of every pair to the
/// value of that pair.
pub proof fn lemma_assoc_value<K, V>(pairs: Seq<(K, V)>, i: int)
    requires
        keys_distinct(pairs),
        0 <= i < pairs.len(),
    ensures
        assoc_map(pairs).contains_key(pairs[i].0),
        assoc_map(pairs)[pairs[i].0] == pairs[i].1,
    decreases pairs.len(),
{
    let init = pairs.drop_last();
    if i < init.len() {
        assert(init[i] == pairs[i]);
        lemma_distinct_init(pairs);
        lemma_assoc_value(init, i);
    }
}

/// Where the keys are distinct, every key of the map is the key of a pair
/// that holds its value.
pub proof fn lemma_assoc_find<K, V>(pairs: Seq<(K, V)>, key: K) -> (i: int)
    requires
        keys_distinct(pairs),
        assoc_map(pairs).contains_key(key),
    ensures
        0 <= i < pairs.len(),
        pairs[i].0 == key,
        pairs[i].1 == assoc_map(pairs)[key],
{
    lemma_assoc_dom(pairs, key);
    let i = choose|i: int| 0 <= i < pairs.len() && (#[trigger] pairs[i]).0 == key;
    lemma_assoc_value(pairs, i);
    i
}

/// Where the keys are distinct, the map has as many keys as there are pairs.
pub proof fn lemma_assoc_len<K, V>(pairs: Seq<(K, V)>)
    requires
        keys_distinct(pairs),
    ensures
        assoc_map(pairs).dom().finite(),
        assoc_map(pairs).dom().len() == pairs.len(),
    decreases pairs.len(),
{
    if pairs.len() > 0 {
        let init = pairs.drop_last();
        lemma_distinct_init(pairs);
        lemma_assoc_len(init);
        lemma_assoc_dom(init, pairs.last().0);
        if has_key(init, pairs.last().0) {
            let i = choose|i: int| 0 <= i < init.len() && (#[trigger] init[i]).0 == pairs.last().0;
            assert(pairs[i].0 == pairs[pairs.len() - 1].0);
        }
        assert(assoc_map(pairs).dom() == assoc_map(init).dom().insert(pairs.last().0));
    }
}

} // verus!
