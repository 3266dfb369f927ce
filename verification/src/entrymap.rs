//! A list of key/value string pairs read as a mapping: the model behind
//! `OpenGraphData`. Folding the list in order gives a `Map`, the later
//! occurrence of a key overwriting the earlier one.

use vstd::prelude::*;

verus! {

/// The mapping held by a list of key/value pairs, the later occurrence of a
/// key overwriting the earlier one.
pub open spec fn map_of(entries: Seq<(Seq<char>, Seq<char>)>) -> Map<Seq<char>, Seq<char>>
    decreases entries.len(),
{
    if entries.len() == 0 {
        Map::empty()
    } else {
        map_of(entries.drop_last()).insert(entries.last().0, entries.last().1)
    }
}

/// No key occurs twice in the list.
pub open spec fn entry_keys_distinct(entries: Seq<(Seq<char>, Seq<char>)>) -> bool {
    forall|i: int, j: int|
        0 <= i < j < entries.len() ==> (#[trigger] entries[i]).0 != (#[trigger] entries[j]).0
}

/// A key is mapped exactly when some entry holds it.
pub proof fn lemma_map_of_contains_key(entries: Seq<(Seq<char>, Seq<char>)>, k: Seq<char>)
    ensures
        map_of(entries).contains_key(k) <==> exists|i: int|
            0 <= i < entries.len() && (#[trigger] entries[i]).0 == k,
    decreases entries.len(),
{
    if entries.len() == 0 {
    } else {
        let sub = entries.drop_last();
        let last = entries.last();
        lemma_map_of_contains_key(sub, k);
        assert(last == entries[entries.len() - 1]);
        if map_of(entries).contains_key(k) {
            if last.0 == k {
                assert((entries[entries.len() - 1]).0 == k);
            } else {
                let i = choose|i: int| 0 <= i < sub.len() && (#[trigger] sub[i]).0 == k;
                assert((entries[i]).0 == k);
            }
        }
        if exists|i: int| 0 <= i < entries.len() && (#[trigger] entries[i]).0 == k {
            let i = choose|i: int| 0 <= i < entries.len() && (#[trigger] entries[i]).0 == k;
            if i < entries.len() - 1 {
                assert((sub[i]).0 == k);
                assert(map_of(sub).contains_key(k));
            }
        }
    }
}

/// The value mapped to a key is the one of its last occurrence.
pub proof fn lemma_map_of_last_wins(entries: Seq<(Seq<char>, Seq<char>)>, i: int)
    requires
        0 <= i < entries.len(),
        forall|j: int| i < j < entries.len() ==> (#[trigger] entries[j]).0 != entries[i].0,
    ensures
        map_of(entries).contains_key(entries[i].0),
        map_of(entries)[entries[i].0] == entries[i].1,
    decreases entries.len(),
{
    let sub = entries.drop_last();
    let last = entries.last();
    assert(last == entries[entries.len() - 1]);
    if i == entries.len() - 1 {
    } else {
        assert(last.0 != entries[i].0);
        assert(sub[i] == entries[i]);
        assert forall|j: int| i < j < sub.len() implies (#[trigger] sub[j]).0 != sub[i].0 by {
            assert(sub[j] == entries[j]);
        }
        lemma_map_of_last_wins(sub, i);
    }
}

/// With distinct keys the mapping has exactly one member per entry.
pub proof fn lemma_map_of_len(entries: Seq<(Seq<char>, Seq<char>)>)
    requires
        entry_keys_distinct(entries),
    ensures
        map_of(entries).dom().finite(),
        map_of(entries).len() == entries.len(),
    decreases entries.len(),
{
    broadcast use vstd::set_lib::group_set_lib_default, vstd::set::group_set_axioms;

    if entries.len() == 0 {
        assert(map_of(entries).dom() =~= Set::<Seq<char>>::empty());
    } else {
        let sub = entries.drop_last();
        let last = entries.last();
        assert(last == entries[entries.len() - 1]);
        assert forall|a: int, b: int| 0 <= a < b < sub.len() implies (#[trigger] sub[a]).0
            != (#[trigger] sub[b]).0 by {
            assert(sub[a] == entries[a]);
            assert(sub[b] == entries[b]);
        }
        lemma_map_of_len(sub);
        lemma_map_of_contains_key(sub, last.0);
        assert(!map_of(sub).contains_key(last.0)) by {
            if exists|i: int| 0 <= i < sub.len() && (#[trigger] sub[i]).0 == last.0 {
                let i = choose|i: int| 0 <= i < sub.len() && (#[trigger] sub[i]).0 == last.0;
                assert((entries[i]).0 == (entries[entries.len() - 1]).0);
            }
        }
        assert(map_of(entries).dom() =~= map_of(sub).dom().insert(last.0));
    }
}

/// Overwriting the entry of a key in place updates the mapping at that key.
pub proof fn lemma_map_of_update(entries: Seq<(Seq<char>, Seq<char>)>, i: int, v: Seq<char>)
    requires
        entry_keys_distinct(entries),
        0 <= i < entries.len(),
    ensures
        map_of(entries.update(i, (entries[i].0, v))) == map_of(entries).insert(entries[i].0, v),
    decreases entries.len(),
{
    let k = entries[i].0;
    let upd = entries.update(i, (k, v));
    let sub = entries.drop_last();
    let last = entries.last();
    assert(last == entries[entries.len() - 1]);
    if i == entries.len() - 1 {
        assert(upd.drop_last() =~= sub);
        assert(upd.last() == (k, v));
        assert(map_of(upd) == map_of(sub).insert(k, v));
        assert(map_of(sub).insert(k, last.1).insert(k, v) =~= map_of(sub).insert(k, v));
    } else {
        assert forall|a: int, b: int| 0 <= a < b < sub.len() implies (#[trigger] sub[a]).0
            != (#[trigger] sub[b]).0 by {
            assert(sub[a] == entries[a]);
            assert(sub[b] == entries[b]);
        }
        assert(sub[i] == entries[i]);
        lemma_map_of_update(sub, i, v);
        assert(upd.drop_last() =~= sub.update(i, (k, v)));
        assert(upd.last() == last);
        assert(map_of(upd) == map_of(sub).insert(k, v).insert(last.0, last.1));
        assert(k != last.0);
        assert(map_of(sub).insert(k, v).insert(last.0, last.1) =~= map_of(sub).insert(
            last.0,
            last.1,
        ).insert(k, v));
    }
}

} // verus!
