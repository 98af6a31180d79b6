use std::collections::HashMap;
use vstd::prelude::*;
use vstd::std_specs::iter::IteratorSpec;

verus! {

broadcast use vstd::std_specs::hash::group_hash_axioms;

/// The keys of `map`, each once, in no particular order.
pub fn map_keys<V>(map: &HashMap<i32, V>) -> (keys: Vec<i32>)
    ensures
        keys@.no_duplicates(),
        keys@.to_set() == map@.dom(),
{
    let mut keys: Vec<i32> = Vec::new();
    let ghost all = map.keys().remaining().unref();
    for key in it: map.keys()
        invariant
            it.seq().unref() == all,
            all.to_set() == map@.dom(),
            all.no_duplicates(),
            keys@ == all.take(it.index()),
    {
        keys.push(*key);
        assert(keys@ =~= all.take(it.index() + 1));
    }
    assert(keys@ =~= all);
    keys
}

/// Whether `keys` is in strictly ascending order.
pub open spec fn ascending(keys: Seq<i32>) -> bool {
    forall|i: int, j: int| 0 <= i < j < keys.len() ==> keys[i] < keys[j]
}

/// The keys of `map`, each once, in ascending order.
pub fn sorted_keys<V>(map: &HashMap<i32, V>) -> (keys: Vec<i32>)
    ensures
        ascending(keys@),
        keys@.to_set() == map@.dom(),
{
    let unsorted = map_keys(map);
    let n = unsorted.len();
    let mut keys: Vec<i32> = Vec::new();
    let mut i: usize = 0;
    while i < n
        invariant
            n == unsorted@.len(),
            i <= n,
            unsorted@.no_duplicates(),
            ascending(keys@),
            keys@.len() == i,
            forall|key: i32| keys@.contains(key) <==> unsorted@.take(i as int).contains(key),
        decreases n - i,
    {
        let key = unsorted[i];
        let m = keys.len();
        let mut at: usize = 0;
        while at < m && keys[at] < key
            invariant
                m == keys@.len(),
                at <= m,
                forall|j: int| 0 <= j < at ==> keys@[j] < key,
            decreases m - at,
        {
            at += 1;
        }
        let ghost before = keys@;
        proof {
            if at < m && before[at as int] == key {
                assert(before.contains(key));
                assert(unsorted@.take(i as int).contains(key));
                let j = choose|j: int| 0 <= j < i && unsorted@.take(i as int)[j] == key;
                assert(unsorted@[j] == unsorted@[i as int]);
            }
        }
        keys.insert(at, key);
        proof {
            assert forall|a: int, b: int| 0 <= a < b < keys@.len() implies keys@[a] < keys@[b] by {
                if a < at && b > at {
                    assert(before[a] < before[b - 1]);
                } else if a > at {
                    assert(before[a - 1] < before[b - 1]);
                } else if b < at {
                    assert(before[a] < before[b]);
                }
            }
            assert forall|k: i32| keys@.contains(k) <==> unsorted@.take(i + 1).contains(k) by {
                let done = unsorted@.take(i as int);
                let next = unsorted@.take(i + 1);
                if keys@.contains(k) {
                    let p = choose|p: int| 0 <= p < keys@.len() && keys@[p] == k;
                    if p < at {
                        assert(before[p] == k);
                        assert(before.contains(k));
                    } else if p > at {
                        assert(before[p - 1] == k);
                        assert(before.contains(k));
                    }
                    if k == key {
                        assert(next[i as int] == k);
                    } else {
                        assert(done.contains(k));
                        let q = choose|q: int| 0 <= q < done.len() && done[q] == k;
                        assert(next[q] == k);
                    }
                }
                if next.contains(k) {
                    let q = choose|q: int| 0 <= q < next.len() && next[q] == k;
                    if q == i {
                        assert(keys@[at as int] == k);
                    } else {
                        assert(done[q] == k);
                        assert(done.contains(k));
                        assert(before.contains(k));
                        let p = choose|p: int| 0 <= p < before.len() && before[p] == k;
                        if p < at {
                            assert(keys@[p] == k);
                        } else {
                            assert(keys@[p + 1] == k);
                        }
                    }
                }
            }
        }
        i += 1;
    }
    proof {
        assert(unsorted@.take(n as int) =~= unsorted@);
        assert(keys@.to_set() =~= map@.dom()) by {
            assert forall|k: i32| keys@.to_set().contains(k) <==> map@.dom().contains(k) by {
                assert(unsorted@.to_set().contains(k) <==> unsorted@.contains(k));
            }
        }
    }
    keys
}

} // verus!
