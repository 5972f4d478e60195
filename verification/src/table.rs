//! Records kept in the order of their identifiers, seen as a map from
//! identifier to record.

use vstd::prelude::*;

verus! {

/// Each key is below the one after it.
pub open spec fn ascending(keys: Seq<int>) -> bool {
    forall|i: int, j: int| 0 <= i < j < keys.len() ==> keys[i] < keys[j]
}

/// The map that takes each key to the value at its place.
pub open spec fn table<V>(keys: Seq<int>, vals: Seq<V>) -> Map<int, V> {
    Map::new(|k: int| keys.contains(k), |k: int| vals[keys.index_of(k)])
}

/// The value at a place is what the table holds under the key at that place.
pub proof fn lemma_table_at<V>(keys: Seq<int>, vals: Seq<V>, i: int)
    requires
        ascending(keys),
        keys.len() == vals.len(),
        0 <= i < keys.len(),
    ensures
        keys.contains(keys[i]),
        keys.index_of(keys[i]) == i,
        table(keys, vals).contains_key(keys[i]),
        table(keys, vals)[keys[i]] == vals[i],
{
    let j = keys.index_of(keys[i]);
    if j < i {
        assert(keys[j] < keys[i]);
    } else if i < j {
        assert(keys[i] < keys[j]);
    }
}

/// A record with a key above all others goes to the end of the table.
pub proof fn lemma_table_push<V>(keys: Seq<int>, vals: Seq<V>, k: int, v: V)
    requires
        ascending(keys),
        keys.len() == vals.len(),
        forall|i: int| 0 <= i < keys.len() ==> keys[i] < k,
    ensures
        ascending(keys.push(k)),
        table(keys.push(k), vals.push(v)) == table(keys, vals).insert(k, v),
{
    let keys2 = keys.push(k);
    let vals2 = vals.push(v);
    let n = keys.len() as int;
    assert(keys2[n] == k);
    assert forall|x: int| table(keys2, vals2).contains_key(x) <==> table(keys, vals).insert(
        k,
        v,
    ).contains_key(x) by {
        if keys.contains(x) {
            let i = keys.index_of(x);
            assert(keys2[i] == x);
        }
        if keys2.contains(x) && x != k {
            let i = keys2.index_of(x);
            assert(keys[i] == x);
        }
    }
    assert forall|x: int| table(keys2, vals2).contains_key(x) implies table(keys2, vals2)[x]
        == table(keys, vals).insert(k, v)[x] by {
        if x == k {
            lemma_table_at(keys2, vals2, n);
        } else {
            let i = keys2.index_of(x);
            assert(keys[i] == x);
            lemma_table_at(keys2, vals2, i);
            lemma_table_at(keys, vals, i);
        }
    }
    assert(table(keys2, vals2) =~= table(keys, vals).insert(k, v));
}

/// A record that changes in place changes under its key alone.
pub proof fn lemma_table_update<V>(keys: Seq<int>, vals: Seq<V>, i: int, v: V)
    requires
        ascending(keys),
        keys.len() == vals.len(),
        0 <= i < keys.len(),
    ensures
        table(keys, vals.update(i, v)) == table(keys, vals).insert(keys[i], v),
{
    let vals2 = vals.update(i, v);
    lemma_table_at(keys, vals, i);
    assert forall|x: int| table(keys, vals2).contains_key(x) implies table(keys, vals2)[x]
        == table(keys, vals).insert(keys[i], v)[x] by {
        let j = keys.index_of(x);
        lemma_table_at(keys, vals2, j);
        lemma_table_at(keys, vals, j);
    }
    assert(table(keys, vals2) =~= table(keys, vals).insert(keys[i], v));
}

} // verus!
