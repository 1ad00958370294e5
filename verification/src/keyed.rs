//! Sequences of entries with distinct keys, read as maps.
//!
//! Both a core's threads and the pool's cores are kept in vectors whose entries
//! bear distinct keys. The lemmas here say what pushing, replacing, removing
//! and exchanging entries of such a sequence does to the map it stands for.

use vstd::prelude::*;

verus! {

/// Whether some entry of `entries` has key `key`.
pub open spec fn has_key<K, V>(entries: Seq<(K, V)>, key: K) -> bool {
    exists|i: int| 0 <= i < entries.len() && (#[trigger] entries[i]).0 == key
}

/// The place of an entry that has key `key`.
pub open spec fn place_of<K, V>(entries: Seq<(K, V)>, key: K) -> int {
    choose|i: int| 0 <= i < entries.len() && (#[trigger] entries[i]).0 == key
}

/// No two entries have the same key.
pub open spec fn keys_distinct<K, V>(entries: Seq<(K, V)>) -> bool {
    forall|i: int, j: int|
        0 <= i < j < entries.len() ==> (#[trigger] entries[i]).0 != (#[trigger] entries[j]).0
}

/// The map that takes each key among `entries` to the value it comes with.
pub open spec fn as_map<K, V>(entries: Seq<(K, V)>) -> Map<K, V> {
    Map::new(|key: K| has_key(entries, key), |key: K| entries[place_of(entries, key)].1)
}

/// With distinct keys, every entry is in the map under its own key.
pub proof fn lemma_entry<K, V>(entries: Seq<(K, V)>, i: int)
    requires
        keys_distinct(entries),
        0 <= i < entries.len(),
    ensures
        as_map(entries).contains_key(entries[i].0),
        as_map(entries)[entries[i].0] == entries[i].1,
{
    let found = place_of(entries, entries[i].0);
    assert(entries[found].0 == entries[i].0);
}

/// A map that holds exactly the entries of a sequence with distinct keys is the
/// map of that sequence.
pub proof fn lemma_is_map_of<K, V>(entries: Seq<(K, V)>, map: Map<K, V>)
    requires
        keys_distinct(entries),
        forall|i: int|
            0 <= i < entries.len() ==> map.contains_key((#[trigger] entries[i]).0)
                && map[entries[i].0] == entries[i].1,
        forall|key: K| #[trigger] map.contains_key(key) ==> has_key(entries, key),
    ensures
        as_map(entries) == map,
{
    assert forall|key: K| as_map(entries).contains_key(key) implies #[trigger] map.contains_key(
        key,
    ) && as_map(entries)[key] == map[key] by {
        let i = place_of(entries, key);
        assert(map.contains_key(entries[i].0));
    }
    assert(as_map(entries) =~= map);
}

/// The map of a sequence has finitely many keys.
pub proof fn lemma_finite<K, V>(entries: Seq<(K, V)>)
    ensures
        as_map(entries).dom().finite(),
    decreases entries.len(),
{
    if entries.len() == 0 {
        assert(as_map(entries).dom() =~= Set::<K>::empty());
    } else {
        let front = entries.drop_last();
        let last = entries.last();
        lemma_finite(front);
        assert forall|key: K|
            as_map(entries).dom().contains(key) <==> as_map(front).dom().insert(last.0).contains(
                key,
            ) by {
            if has_key(entries, key) {
                let i = place_of(entries, key);
                if i < entries.len() - 1 {
                    assert(front[i].0 == key);
                }
            }
            if has_key(front, key) {
                let i = place_of(front, key);
                assert(entries[i].0 == key);
            }
        }
        assert(as_map(entries).dom() =~= as_map(front).dom().insert(last.0));
    }
}

/// Appending an entry under a new key inserts it.
pub proof fn lemma_push<K, V>(entries: Seq<(K, V)>, entry: (K, V))
    requires
        keys_distinct(entries),
        !has_key(entries, entry.0),
    ensures
        keys_distinct(entries.push(entry)),
        as_map(entries.push(entry)) == as_map(entries).insert(entry.0, entry.1),
{
    let grown = entries.push(entry);
    let want = as_map(entries).insert(entry.0, entry.1);
    assert(keys_distinct(grown));
    assert forall|i: int| 0 <= i < grown.len() implies want.contains_key((#[trigger] grown[i]).0)
        && want[grown[i].0] == grown[i].1 by {
        if i < entries.len() {
            lemma_entry(entries, i);
        }
    }
    assert forall|key: K| #[trigger] want.contains_key(key) implies has_key(grown, key) by {
        if key == entry.0 {
            assert(grown[entries.len() as int].0 == key);
        } else {
            let i = place_of(entries, key);
            assert(grown[i].0 == key);
        }
    }
    lemma_is_map_of(grown, want);
}

/// Replacing an entry by one with the same key overwrites its value.
pub proof fn lemma_update<K, V>(entries: Seq<(K, V)>, i: int, entry: (K, V))
    requires
        keys_distinct(entries),
        0 <= i < entries.len(),
        entries[i].0 == entry.0,
    ensures
        keys_distinct(entries.update(i, entry)),
        as_map(entries.update(i, entry)) == as_map(entries).insert(entry.0, entry.1),
{
    let changed = entries.update(i, entry);
    let want = as_map(entries).insert(entry.0, entry.1);
    assert(keys_distinct(changed));
    assert forall|k: int| 0 <= k < changed.len() implies want.contains_key(
        (#[trigger] changed[k]).0,
    ) && want[changed[k].0] == changed[k].1 by {
        lemma_entry(entries, k);
    }
    assert forall|key: K| #[trigger] want.contains_key(key) implies has_key(changed, key) by {
        if key == entry.0 {
            assert(changed[i].0 == key);
        } else {
            let k = place_of(entries, key);
            assert(changed[k].0 == key);
        }
    }
    lemma_is_map_of(changed, want);
}

/// Taking an entry out, the others keeping their order, removes its key.
pub proof fn lemma_remove<K, V>(entries: Seq<(K, V)>, i: int)
    requires
        keys_distinct(entries),
        0 <= i < entries.len(),
    ensures
        keys_distinct(entries.remove(i)),
        as_map(entries.remove(i)) == as_map(entries).remove(entries[i].0),
{
    let fewer = entries.remove(i);
    let want = as_map(entries).remove(entries[i].0);
    assert forall|a: int, b: int| 0 <= a < b < fewer.len() implies (#[trigger] fewer[a]).0 != (
    #[trigger] fewer[b]).0 by {
        let a0 = if a < i { a } else { a + 1 };
        let b0 = if b < i { b } else { b + 1 };
        assert(entries[a0].0 != entries[b0].0);
    }
    assert forall|k: int| 0 <= k < fewer.len() implies want.contains_key((#[trigger] fewer[k]).0)
        && want[fewer[k].0] == fewer[k].1 by {
        let k0 = if k < i { k } else { k + 1 };
        lemma_entry(entries, k0);
    }
    assert forall|key: K| #[trigger] want.contains_key(key) implies has_key(fewer, key) by {
        let k = place_of(entries, key);
        let k1 = if k < i { k } else { k - 1 };
        assert(fewer[k1].0 == key);
    }
    lemma_is_map_of(fewer, want);
}

/// Taking an entry out by moving the last entry into its place removes its key.
pub proof fn lemma_swap_remove<K, V>(entries: Seq<(K, V)>, i: int)
    requires
        keys_distinct(entries),
        0 <= i < entries.len(),
    ensures
        keys_distinct(entries.update(i, entries.last()).drop_last()),
        as_map(entries.update(i, entries.last()).drop_last()) == as_map(entries).remove(
            entries[i].0,
        ),
{
    let fewer = entries.update(i, entries.last()).drop_last();
    let want = as_map(entries).remove(entries[i].0);
    let end = entries.len() - 1;
    assert forall|a: int, b: int| 0 <= a < b < fewer.len() implies (#[trigger] fewer[a]).0 != (
    #[trigger] fewer[b]).0 by {
        let a0 = if a == i { end } else { a };
        let b0 = if b == i { end } else { b };
        assert(entries[a0].0 != entries[b0].0);
    }
    assert forall|k: int| 0 <= k < fewer.len() implies want.contains_key((#[trigger] fewer[k]).0)
        && want[fewer[k].0] == fewer[k].1 by {
        let k0 = if k == i { end } else { k };
        lemma_entry(entries, k0);
    }
    assert forall|key: K| #[trigger] want.contains_key(key) implies has_key(fewer, key) by {
        let k = place_of(entries, key);
        let k1 = if k == end { i } else { k };
        assert(fewer[k1].0 == key);
    }
    lemma_is_map_of(fewer, want);
}

/// Exchanging two entries changes nothing in the map.
pub proof fn lemma_exchange<K, V>(entries: Seq<(K, V)>, i: int, j: int)
    requires
        keys_distinct(entries),
        0 <= i < entries.len(),
        0 <= j < entries.len(),
    ensures
        keys_distinct(entries.update(i, entries[j]).update(j, entries[i])),
        as_map(entries.update(i, entries[j]).update(j, entries[i])) == as_map(entries),
{
    let turned = entries.update(i, entries[j]).update(j, entries[i]);
    let want = as_map(entries);
    assert forall|a: int, b: int| 0 <= a < b < turned.len() implies (#[trigger] turned[a]).0 != (
    #[trigger] turned[b]).0 by {
        let a0 = if a == i { j } else if a == j { i } else { a };
        let b0 = if b == i { j } else if b == j { i } else { b };
        assert(entries[a0].0 != entries[b0].0);
    }
    assert forall|k: int| 0 <= k < turned.len() implies want.contains_key((#[trigger] turned[k]).0)
        && want[turned[k].0] == turned[k].1 by {
        let k0 = if k == i { j } else if k == j { i } else { k };
        lemma_entry(entries, k0);
    }
    assert forall|key: K| #[trigger] want.contains_key(key) implies has_key(turned, key) by {
        let k = place_of(entries, key);
        let k1 = if k == i { j } else if k == j { i } else { k };
        assert(turned[k1].0 == key);
    }
    lemma_is_map_of(turned, want);
}

} // verus!
