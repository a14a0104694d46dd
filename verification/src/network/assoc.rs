//! Runs of key/value pairs read as mappings.

use vstd::prelude::*;

verus! {

/// The mapping that a run of entries spells: a later entry replaces an
/// earlier one with the same key.
pub open spec fn entries_map<K, V>(entries: Seq<(K, V)>) -> Map<K, V>
    decreases entries.len(),
{
    if entries.len() == 0 {
        Map::empty()
    } else {
        entries_map(entries.drop_last()).insert(entries.last().0, entries.last().1)
    }
}

/// No key occurs twice.
pub open spec fn distinct_keys<K, V>(entries: Seq<(K, V)>) -> bool {
    forall|i: int, j: int|
        0 <= i < j < entries.len() ==> (#[trigger] entries[i]).0 != (#[trigger] entries[j]).0
}

/// What a run of entries maps: the keys that occur in it, and, where no key
/// occurs twice, each key to the value that stands beside it.
pub proof fn lemma_entries_map<K, V>(entries: Seq<(K, V)>)
    ensures
        forall|k: K|
            entries_map(entries).contains_key(k) <==> exists|i: int|
                0 <= i < entries.len() && (#[trigger] entries[i]).0 == k,
        distinct_keys(entries) ==> forall|i: int|
            0 <= i < entries.len() ==> entries_map(entries)[(#[trigger] entries[i]).0]
                == entries[i].1,
    decreases entries.len(),
{
    if entries.len() > 0 {
        let front = entries.drop_last();
        lemma_entries_map(front);
        assert forall|k: K|
            entries_map(entries).contains_key(k) <==> exists|i: int|
                0 <= i < entries.len() && (#[trigger] entries[i]).0 == k by {
            if entries_map(entries).contains_key(k) {
                if k == entries.last().0 {
                    assert(entries[entries.len() - 1].0 == k);
                } else {
                    assert(entries_map(front).contains_key(k));
                    let i = choose|i: int| 0 <= i < front.len() && (#[trigger] front[i]).0 == k;
                    assert(entries[i].0 == k);
                }
            }
            if exists|i: int| 0 <= i < entries.len() && (#[trigger] entries[i]).0 == k {
                let i = choose|i: int| 0 <= i < entries.len() && (#[trigger] entries[i]).0 == k;
                if i < front.len() {
                    assert(front[i].0 == k);
                    assert(entries_map(front).contains_key(k));
                }
            }
        }
        if distinct_keys(entries) {
            assert(distinct_keys(front)) by {
                assert forall|i: int, j: int| 0 <= i < j < front.len() implies (#[trigger] front[i]).0
                    != (#[trigger] front[j]).0 by {
                    assert(entries[i].0 != entries[j].0);
                }
            }
            assert forall|i: int| 0 <= i < entries.len() implies entries_map(entries)[(
            #[trigger] entries[i]).0] == entries[i].1 by {
                if i < front.len() {
                    assert(entries[i].0 != entries[entries.len() - 1].0);
                    assert(front[i] == entries[i]);
                }
            }
        }
    }
}

/// Where a key first stands in a run of entries.
pub open spec fn first_with_key<K, V>(entries: Seq<(K, V)>, key: K) -> Option<int> {
    if exists|i: int| 0 <= i < entries.len() && (#[trigger] entries[i]).0 == key {
        Some(choose|i: int| 0 <= i < entries.len() && (#[trigger] entries[i]).0 == key)
    } else {
        None
    }
}

/// Where no key occurs twice, a key stands where it first stands and nowhere
/// else.
pub proof fn lemma_first_with_key<K, V>(entries: Seq<(K, V)>, key: K)
    requires
        distinct_keys(entries),
    ensures
        forall|i: int|
            0 <= i < entries.len() && (#[trigger] entries[i]).0 == key ==> first_with_key(
                entries,
                key,
            ) == Some(i),
        (forall|i: int| 0 <= i < entries.len() ==> (#[trigger] entries[i]).0 != key)
            ==> first_with_key(entries, key) is None,
{
    assert forall|i: int|
        0 <= i < entries.len() && (#[trigger] entries[i]).0 == key implies first_with_key(
        entries,
        key,
    ) == Some(i) by {
        let j = choose|j: int| 0 <= j < entries.len() && (#[trigger] entries[j]).0 == key;
        if i < j {
            assert(entries[i].0 != entries[j].0);
        }
        if j < i {
            assert(entries[j].0 != entries[i].0);
        }
    }
}


/// Writing a value where its key already stands is writing it into the
/// mapping, and no key comes to occur twice.
pub proof fn lemma_update_entry<K, V>(entries: Seq<(K, V)>, i: int, key: K, value: V)
    requires
        distinct_keys(entries),
        0 <= i < entries.len(),
        entries[i].0 == key,
    ensures
        distinct_keys(entries.update(i, (key, value))),
        entries_map(entries.update(i, (key, value))) == entries_map(entries).insert(key, value),
        first_with_key(entries, key) == Some(i),
{
    let before = entries;
    let after = entries.update(i, (key, value));
    lemma_first_with_key(before, key);
    lemma_entries_map(before);
    assert(distinct_keys(after)) by {
        assert forall|a: int, b: int| 0 <= a < b < after.len() implies (#[trigger] after[a]).0 != (
        #[trigger] after[b]).0 by {
            assert(before[a].0 != before[b].0);
        }
    }
    lemma_entries_map(after);
    assert(entries_map(after) =~= entries_map(before).insert(key, value)) by {
        assert forall|k: K|
            entries_map(after).contains_key(k) <==> #[trigger] entries_map(before).insert(
                key,
                value,
            ).contains_key(k) by {
            if entries_map(after).contains_key(k) {
                let j = choose|j: int| 0 <= j < after.len() && (#[trigger] after[j]).0 == k;
                assert(before[j].0 == k);
            }
            if entries_map(before).contains_key(k) {
                let j = choose|j: int| 0 <= j < before.len() && (#[trigger] before[j]).0 == k;
                assert(after[j].0 == k);
            }
            if k == key {
                assert(after[i].0 == k);
            }
        }
        assert forall|k: K| #[trigger] entries_map(after).contains_key(k) implies entries_map(
            after,
        )[k] == entries_map(before).insert(key, value)[k] by {
            let j = choose|j: int| 0 <= j < after.len() && (#[trigger] after[j]).0 == k;
            assert(before[j].0 == k);
            assert(entries_map(after)[after[j].0] == after[j].1);
            assert(entries_map(before)[before[j].0] == before[j].1);
        }
    }
}

/// Appending a pair whose key stands nowhere yet is writing it into the
/// mapping, and no key comes to occur twice.
pub proof fn lemma_push_entry<K, V>(entries: Seq<(K, V)>, key: K, value: V)
    requires
        distinct_keys(entries),
        forall|i: int| 0 <= i < entries.len() ==> (#[trigger] entries[i]).0 != key,
    ensures
        distinct_keys(entries.push((key, value))),
        entries_map(entries.push((key, value))) == entries_map(entries).insert(key, value),
        first_with_key(entries, key) is None,
{
    assert(entries.push((key, value)).drop_last() =~= entries);
    lemma_first_with_key(entries, key);
}

} // verus!
