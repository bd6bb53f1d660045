use vstd::prelude::*;
use indexmap::IndexMap;

verus! {

/// The insertion-ordered hash map of the `indexmap` crate.
#[verifier::external_type_specification]
#[verifier::external_body]
#[verifier::reject_recursive_types(K)]
#[verifier::reject_recursive_types(V)]
#[verifier::reject_recursive_types(S)]
pub struct ExIndexMap<K, V, S>(IndexMap<K, V, S>);

/// Position of the first pair at or after `from` whose key is `key`, or the
/// number of pairs when there is none.
pub open spec fn key_position<V>(items: Seq<(Seq<char>, V)>, key: Seq<char>, from: int) -> int
    decreases items.len() - from,
{
    if from >= items.len() {
        items.len() as int
    } else if from >= 0 && items[from].0 == key {
        from
    } else {
        key_position(items, key, from + 1)
    }
}

/// Position of the first pair whose key is `key`, if there is one.
pub open spec fn key_index<V>(items: Seq<(Seq<char>, V)>, key: Seq<char>) -> Option<int> {
    if key_position(items, key, 0) < items.len() {
        Some(key_position(items, key, 0))
    } else {
        None
    }
}

/// What inserting a pair makes of an ordered map: the value replaces the one
/// of the key where the key is present, and the pair comes last where it is
/// not.
pub open spec fn put<V>(items: Seq<(Seq<char>, V)>, key: Seq<char>, value: V) -> Seq<
    (Seq<char>, V),
> {
    match key_index(items, key) {
        Some(i) => items.update(i, (key, value)),
        None => items.push((key, value)),
    }
}

/// What inserting a pair at `index` makes of an ordered map: a pair of that
/// key leaves its place first.
pub open spec fn put_at<V>(items: Seq<(Seq<char>, V)>, index: int, key: Seq<char>, value: V)
    -> Seq<(Seq<char>, V)> {
    match key_index(items, key) {
        Some(i) => items.remove(i).insert(index, (key, value)),
        None => items.insert(index, (key, value)),
    }
}

/// The value that stands under `key`, if there is one.
pub open spec fn value_of<V>(items: Seq<(Seq<char>, V)>, key: Seq<char>) -> Option<V> {
    match key_index(items, key) {
        Some(i) => Some(items[i].1),
        None => None,
    }
}

/// True when no key stands twice.
pub open spec fn keys_unique<V>(items: Seq<(Seq<char>, V)>) -> bool {
    forall|i: int, j: int|
        0 <= i < items.len() && 0 <= j < items.len() && #[trigger] items[i].0 == #[trigger] items[j].0
            ==> i == j
}

/// `key_position` lies between its start and the number of pairs, stands on
/// the key, and no pair between the start and it has the key.
pub proof fn lemma_key_position<V>(items: Seq<(Seq<char>, V)>, key: Seq<char>, from: int)
    requires
        0 <= from <= items.len(),
    ensures
        from <= key_position(items, key, from) <= items.len(),
        key_position(items, key, from) < items.len() ==> items[key_position(items, key, from)].0
            == key,
        forall|i: int| from <= i < key_position(items, key, from) ==> items[i].0 != key,
    decreases items.len() - from,
{
    if from < items.len() && items[from].0 != key {
        lemma_key_position(items, key, from + 1);
    }
}

} // verus!
