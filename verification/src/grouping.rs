//! Grouping of flat rows by a key, in order of first appearance.

use vstd::prelude::*;

verus! {

/// The keys of `keys` without repetition, each at the place of its first
/// occurrence.
pub open spec fn distinct_keys<K>(keys: Seq<K>) -> Seq<K>
    decreases keys.len(),
{
    if keys.len() == 0 {
        Seq::empty()
    } else {
        let rest = distinct_keys(keys.drop_last());
        if rest.contains(keys.last()) {
            rest
        } else {
            rest.push(keys.last())
        }
    }
}

/// The indices at which `key` stands in `keys`, in rising order.
pub open spec fn positions<K>(keys: Seq<K>, key: K) -> Seq<int>
    decreases keys.len(),
{
    if keys.len() == 0 {
        Seq::empty()
    } else {
        let rest = positions(keys.drop_last(), key);
        if keys.last() == key {
            rest.push(keys.len() - 1)
        } else {
            rest
        }
    }
}

/// The items of `items` that stand at `at`, in that order.
pub open spec fn pick<T>(items: Seq<T>, at: Seq<int>) -> Seq<T> {
    Seq::new(at.len(), |i: int| items[at[i]])
}

/// Every index that `positions` lists is one where the key stands, the
/// indices rise strictly, and no index where the key stands is left out.
pub proof fn lemma_positions<K>(keys: Seq<K>, key: K)
    ensures
        forall|i: int|
            0 <= i < positions(keys, key).len() ==> 0 <= #[trigger] positions(keys, key)[i]
                < keys.len() && keys[positions(keys, key)[i]] == key,
        forall|i: int, j: int|
            0 <= i < j < positions(keys, key).len() ==> positions(keys, key)[i] < positions(
                keys,
                key,
            )[j],
        forall|p: int|
            0 <= p < keys.len() && keys[p] == key ==> positions(keys, key).contains(p),
    decreases keys.len(),
{
    if keys.len() > 0 {
        let rest = positions(keys.drop_last(), key);
        lemma_positions(keys.drop_last(), key);
        let all = positions(keys, key);
        assert forall|p: int| 0 <= p < keys.len() && keys[p] == key implies all.contains(p) by {
            if p < keys.len() - 1 {
                assert(keys.drop_last()[p] == key);
                let w = choose|w: int| 0 <= w < rest.len() && rest[w] == p;
                assert(all[w] == p);
            } else {
                assert(all[all.len() - 1] == p);
            }
        }
    }
}

/// `distinct_keys` lists exactly the keys that occur, each once.
pub proof fn lemma_distinct_keys<K>(keys: Seq<K>)
    ensures
        distinct_keys(keys).no_duplicates(),
        forall|k: K| distinct_keys(keys).contains(k) <==> keys.contains(k),
    decreases keys.len(),
{
    if keys.len() > 0 {
        let rest = distinct_keys(keys.drop_last());
        lemma_distinct_keys(keys.drop_last());
        let all = distinct_keys(keys);
        assert forall|k: K| all.contains(k) <==> keys.contains(k) by {
            if all.contains(k) {
                let w = choose|w: int| 0 <= w < all.len() && all[w] == k;
                if w < rest.len() {
                    assert(keys.drop_last().contains(k));
                    let p = choose|p: int|
                        0 <= p < keys.drop_last().len() && keys.drop_last()[p] == k;
                    assert(keys[p] == k);
                } else {
                    assert(keys[keys.len() - 1] == k);
                }
            }
            if keys.contains(k) {
                let p = choose|p: int| 0 <= p < keys.len() && keys[p] == k;
                if p < keys.len() - 1 {
                    assert(keys.drop_last()[p] == k);
                    assert(keys.drop_last().contains(k));
                    let w = choose|w: int| 0 <= w < rest.len() && rest[w] == k;
                    assert(all[w] == k);
                } else if !rest.contains(k) {
                    assert(all[all.len() - 1] == k);
                }
            }
        }
    }
}

/// A key that occurs has a first position, and a key has positions only if
/// it occurs.
pub proof fn lemma_positions_nonempty<K>(keys: Seq<K>, key: K)
    ensures
        positions(keys, key).len() > 0 <==> keys.contains(key),
{
    lemma_positions(keys, key);
    if positions(keys, key).len() > 0 {
        assert(keys[positions(keys, key)[0]] == key);
    }
}

/// The first index at which `key` stands in `keys`, if it stands anywhere.
pub open spec fn first_position<K>(keys: Seq<K>, key: K) -> Option<int> {
    if positions(keys, key).len() > 0 {
        Some(positions(keys, key)[0])
    } else {
        None
    }
}

/// An index where the key stands, with none before it, is the first position.
pub proof fn lemma_first_position<K>(keys: Seq<K>, key: K, at: int)
    requires
        0 <= at < keys.len(),
        keys[at] == key,
        forall|j: int| 0 <= j < at ==> keys[j] != key,
    ensures
        first_position(keys, key) == Some(at),
{
    lemma_positions(keys, key);
}

/// A key that stands nowhere has no first position.
pub proof fn lemma_no_position<K>(keys: Seq<K>, key: K)
    requires
        forall|j: int| 0 <= j < keys.len() ==> keys[j] != key,
    ensures
        positions(keys, key).len() == 0,
        first_position(keys, key) is None,
{
    lemma_positions(keys, key);
}

/// How `positions` grows when one key is added at the end.
pub proof fn lemma_positions_push<K>(keys: Seq<K>, last: K, key: K)
    ensures
        positions(keys.push(last), key) == if last == key {
            positions(keys, key).push(keys.len() as int)
        } else {
            positions(keys, key)
        },
{
    assert(keys.push(last).drop_last() =~= keys);
}

/// How `distinct_keys` grows when one key is added at the end.
pub proof fn lemma_distinct_keys_push<K>(keys: Seq<K>, last: K)
    ensures
        distinct_keys(keys.push(last)) == if distinct_keys(keys).contains(last) {
            distinct_keys(keys)
        } else {
            distinct_keys(keys).push(last)
        },
{
    assert(keys.push(last).drop_last() =~= keys);
}

/// `records` by key: for each key in order of first appearance, the records
/// that carry it, in their order.
pub open spec fn grouped<K, R>(keys: Seq<K>, records: Seq<R>) -> Seq<(K, Seq<R>)> {
    Seq::new(
        distinct_keys(keys).len(),
        |k: int| (distinct_keys(keys)[k], pick(records, positions(keys, distinct_keys(keys)[k]))),
    )
}

/// The keys of a list of groups.
pub open spec fn keys_of<K, R>(groups: Seq<(K, Seq<R>)>) -> Seq<K> {
    Seq::new(groups.len(), |i: int| groups[i].0)
}

/// `groups` with `record` filed under `key`: at the end of the group that has
/// the key, or as a new last group.
pub open spec fn filed<K, R>(groups: Seq<(K, Seq<R>)>, key: K, record: R) -> Seq<(K, Seq<R>)> {
    match first_position(keys_of(groups), key) {
        Some(i) => groups.update(i, (key, groups[i].1.push(record))),
        None => groups.push((key, seq![record])),
    }
}

/// Grouping one record more is filing it into the groups of the others.
pub proof fn lemma_grouped_push<K, R>(keys: Seq<K>, records: Seq<R>, key: K, record: R)
    requires
        keys.len() == records.len(),
    ensures
        grouped(keys.push(key), records.push(record)) == filed(
            grouped(keys, records),
            key,
            record,
        ),
{
    let before = grouped(keys, records);
    let names = distinct_keys(keys);
    lemma_distinct_keys(keys);
    lemma_distinct_keys_push(keys, key);
    assert(keys_of(before) =~= names);
    assert forall|i: int| 0 <= i < names.len() implies #[trigger] pick(
        records.push(record),
        positions(keys.push(key), names[i]),
    ) == if names[i] == key {
        pick(records, positions(keys, names[i])).push(record)
    } else {
        pick(records, positions(keys, names[i]))
    } by {
        lemma_positions_push(keys, key, names[i]);
        lemma_positions(keys, names[i]);
    }
    if names.contains(key) {
        let at = choose|at: int| 0 <= at < names.len() && names[at] == key;
        lemma_first_position(names, key, at);
    } else {
        lemma_no_position(names, key);
        lemma_positions_nonempty(keys, key);
        lemma_positions_push(keys, key, key);
        assert(pick(records.push(record), positions(keys.push(key), key)) =~= seq![record]);
    }
}

} // verus!
