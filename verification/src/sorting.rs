//! Sorted lists of rank keys: sorting, searching and counting.
//!
//! A rank key stands for one validator in one epoch: the epoch and the
//! validator's value under the metric that is being ranked. Keys are put in
//! order by epoch first and by value second.

use vstd::prelude::*;

verus! {

/// One validator in one epoch, as far as ranking goes.
#[derive(Clone, Copy, Debug, PartialEq, Eq, Structural)]
pub struct RankKey {
    pub epoch: u64,
    pub value: u64,
}

/// Whether `a` may stand before `b` in a sorted list: its epoch is earlier,
/// or the epochs are the same and its value is no larger.
pub open spec fn precedes(a: RankKey, b: RankKey) -> bool {
    a.epoch < b.epoch || (a.epoch == b.epoch && a.value <= b.value)
}

/// Whether `a` must stand before `b`: it may, and `b` may not stand before
/// `a`.
pub open spec fn strictly_precedes(a: RankKey, b: RankKey) -> bool {
    a.epoch < b.epoch || (a.epoch == b.epoch && a.value < b.value)
}

/// Whether the keys come in order.
pub open spec fn sorted(keys: Seq<RankKey>) -> bool {
    forall|i: int, j: int| 0 <= i <= j < keys.len() ==> precedes(keys[i], keys[j])
}

/// Whether a key counts towards the rank of `value` in `epoch`: it is of that
/// epoch and its value is at least as large.
pub open spec fn counts_from(key: RankKey, epoch: u64, value: u64) -> bool {
    key.epoch == epoch && key.value >= value
}

/// The number of keys of `epoch` whose value is at least `value`.
pub open spec fn count_from(keys: Seq<RankKey>, epoch: u64, value: u64) -> nat
    decreases keys.len(),
{
    if keys.len() == 0 {
        0
    } else {
        count_from(keys.drop_last(), epoch, value) + if counts_from(keys.last(), epoch, value) {
            1nat
        } else {
            0nat
        }
    }
}

/// Whether two lists hold the same keys as far as counting goes: whatever is
/// counted, both give the same number.
pub open spec fn same_counts(a: Seq<RankKey>, b: Seq<RankKey>) -> bool {
    forall|epoch: u64, value: u64|
        #[trigger] count_from(a, epoch, value) == count_from(b, epoch, value)
}

/// Counting over two lists put together is counting over each.
pub proof fn lemma_count_from_add(a: Seq<RankKey>, b: Seq<RankKey>, epoch: u64, value: u64)
    ensures
        count_from(a + b, epoch, value) == count_from(a, epoch, value) + count_from(
            b,
            epoch,
            value,
        ),
    decreases b.len(),
{
    if b.len() > 0 {
        lemma_count_from_add(a, b.drop_last(), epoch, value);
        assert((a + b).drop_last() =~= a + b.drop_last());
    }
}

/// A list in which every key counts has as many counted keys as it is long,
/// and a list in which none counts has none.
pub proof fn lemma_count_from_uniform(keys: Seq<RankKey>, epoch: u64, value: u64)
    ensures
        (forall|i: int| 0 <= i < keys.len() ==> counts_from(#[trigger] keys[i], epoch, value))
            ==> count_from(keys, epoch, value) == keys.len(),
        (forall|i: int| 0 <= i < keys.len() ==> !counts_from(#[trigger] keys[i], epoch, value))
            ==> count_from(keys, epoch, value) == 0,
        count_from(keys, epoch, value) <= keys.len(),
    decreases keys.len(),
{
    if keys.len() > 0 {
        lemma_count_from_uniform(keys.drop_last(), epoch, value);
    }
}

/// In a sorted list the keys that count stand together: where `low` is the
/// place of the first key that does not strictly precede `(epoch, value)` and
/// `high` the place of the first key of a later epoch, the keys that count
/// are the keys from `low` up to `high`.
pub proof fn lemma_count_from_in_sorted(
    keys: Seq<RankKey>,
    epoch: u64,
    value: u64,
    low: int,
    high: int,
)
    requires
        sorted(keys),
        0 <= low <= keys.len(),
        0 <= high <= keys.len(),
        forall|i: int|
            0 <= i < low ==> strictly_precedes(#[trigger] keys[i], RankKey { epoch, value }),
        forall|i: int|
            low <= i < keys.len() ==> !strictly_precedes(
                #[trigger] keys[i],
                RankKey { epoch, value },
            ),
        forall|i: int| 0 <= i < high ==> (#[trigger] keys[i]).epoch <= epoch,
        forall|i: int| high <= i < keys.len() ==> (#[trigger] keys[i]).epoch > epoch,
    ensures
        low <= high ==> count_from(keys, epoch, value) == high - low,
        low > high ==> count_from(keys, epoch, value) == 0,
{
    if low <= high {
        let front = keys.take(low);
        let middle = keys.subrange(low, high);
        let back = keys.skip(high);
        assert(keys =~= front + middle + back);
        lemma_count_from_add(front + middle, back, epoch, value);
        lemma_count_from_add(front, middle, epoch, value);
        lemma_count_from_uniform(front, epoch, value);
        lemma_count_from_uniform(middle, epoch, value);
        lemma_count_from_uniform(back, epoch, value);
    } else {
        lemma_count_from_uniform(keys, epoch, value);
    }
}

/// Whether `a` must stand before `b`.
pub fn stands_before(a: RankKey, b: RankKey) -> (r: bool)
    ensures
        r == strictly_precedes(a, b),
{
    a.epoch < b.epoch || (a.epoch == b.epoch && a.value < b.value)
}

/// The place of the first key that does not strictly precede `key`, or the
/// length of the list where all do.
pub fn lower_bound(keys: &Vec<RankKey>, key: RankKey) -> (r: usize)
    requires
        sorted(keys@),
    ensures
        r <= keys.len(),
        forall|i: int| 0 <= i < r ==> strictly_precedes(#[trigger] keys[i], key),
        forall|i: int| r <= i < keys.len() ==> !strictly_precedes(#[trigger] keys[i], key),
{
    let mut low: usize = 0;
    let mut high: usize = keys.len();
    while low < high
        invariant
            low <= high <= keys.len(),
            sorted(keys@),
            forall|i: int| 0 <= i < low ==> strictly_precedes(#[trigger] keys[i], key),
            forall|i: int| high <= i < keys.len() ==> !strictly_precedes(#[trigger] keys[i], key),
        decreases high - low,
    {
        let middle = low + (high - low) / 2;
        if stands_before(keys[middle], key) {
            assert forall|i: int| 0 <= i < middle + 1 implies strictly_precedes(
                #[trigger] keys[i],
                key,
            ) by {
                assert(precedes(keys[i], keys[middle as int]));
            }
            low = middle + 1;
        } else {
            assert forall|i: int| middle <= i < keys.len() implies !strictly_precedes(
                #[trigger] keys[i],
                key,
            ) by {
                assert(precedes(keys[middle as int], keys[i]));
            }
            high = middle;
        }
    }
    low
}

/// The number of keys of `epoch` whose value is at least `value`, found by
/// searching a sorted list.
pub fn count_in_sorted(keys: &Vec<RankKey>, epoch: u64, value: u64) -> (r: usize)
    requires
        sorted(keys@),
    ensures
        r == count_from(keys@, epoch, value),
{
    let low = lower_bound(keys, RankKey { epoch, value });
    let high = if epoch < u64::MAX {
        lower_bound(keys, RankKey { epoch: epoch + 1, value: 0 })
    } else {
        keys.len()
    };
    proof {
        lemma_count_from_in_sorted(keys@, epoch, value, low as int, high as int);
    }
    if low <= high {
        high - low
    } else {
        0
    }
}

/// Merges two sorted lists into one.
fn merge(left: &Vec<RankKey>, right: &Vec<RankKey>) -> (r: Vec<RankKey>)
    requires
        sorted(left@),
        sorted(right@),
    ensures
        sorted(r@),
        same_counts(r@, left@ + right@),
        r.len() == left.len() + right.len(),
{
    let mut out: Vec<RankKey> = Vec::new();
    let mut i: usize = 0;
    let mut j: usize = 0;
    while i < left.len() || j < right.len()
        invariant
            i <= left.len(),
            j <= right.len(),
            sorted(left@),
            sorted(right@),
            sorted(out@),
            out.len() == i + j,
            forall|a: int, b: int|
                0 <= a < out.len() && i <= b < left.len() ==> precedes(
                    #[trigger] out[a],
                    #[trigger] left[b],
                ),
            forall|a: int, b: int|
                0 <= a < out.len() && j <= b < right.len() ==> precedes(
                    #[trigger] out[a],
                    #[trigger] right[b],
                ),
            forall|epoch: u64, value: u64|
                #[trigger] count_from(out@, epoch, value) == count_from(
                    left@.take(i as int),
                    epoch,
                    value,
                ) + count_from(right@.take(j as int), epoch, value),
        decreases left.len() - i + right.len() - j,
    {
        let ghost before = out@;
        if j == right.len() || (i < left.len() && !stands_before(right[j], left[i])) {
            let next = left[i];
            out.push(next);
            proof {
                assert(left@.take(i + 1).drop_last() =~= left@.take(i as int));
                assert(out@.drop_last() =~= before);
                assert forall|epoch: u64, value: u64| #[trigger]
                    count_from(out@, epoch, value) == count_from(
                        left@.take(i + 1),
                        epoch,
                        value,
                    ) + count_from(right@.take(j as int), epoch, value) by {
                    assert(count_from(before, epoch, value) == count_from(
                        left@.take(i as int),
                        epoch,
                        value,
                    ) + count_from(right@.take(j as int), epoch, value));
                }
                assert forall|a: int, b: int|
                    0 <= a < out.len() && j <= b < right.len() implies precedes(
                    #[trigger] out[a],
                    #[trigger] right[b],
                ) by {
                    if a >= before.len() {
                        assert(precedes(right[j as int], right[b]));
                    }
                }
            }
            i += 1;
        } else {
            let next = right[j];
            out.push(next);
            proof {
                assert(right@.take(j + 1).drop_last() =~= right@.take(j as int));
                assert(out@.drop_last() =~= before);
                assert forall|epoch: u64, value: u64| #[trigger]
                    count_from(out@, epoch, value) == count_from(
                        left@.take(i as int),
                        epoch,
                        value,
                    ) + count_from(right@.take(j + 1), epoch, value) by {
                    assert(count_from(before, epoch, value) == count_from(
                        left@.take(i as int),
                        epoch,
                        value,
                    ) + count_from(right@.take(j as int), epoch, value));
                }
                assert forall|a: int, b: int|
                    0 <= a < out.len() && i <= b < left.len() implies precedes(
                    #[trigger] out[a],
                    #[trigger] left[b],
                ) by {
                    if a >= before.len() {
                        assert(precedes(left[i as int], left[b]));
                    }
                }
            }
            j += 1;
        }
    }
    proof {
        assert(left@.take(i as int) =~= left@);
        assert(right@.take(j as int) =~= right@);
        assert forall|epoch: u64, value: u64| #[trigger]
            count_from(out@, epoch, value) == count_from(left@ + right@, epoch, value) by {
            lemma_count_from_add(left@, right@, epoch, value);
        }
    }
    out
}

/// The keys in order. The sorted list holds the same keys: whatever is
/// counted in it is counted as often in the list that was handed in.
pub fn sort_keys(keys: Vec<RankKey>) -> (r: Vec<RankKey>)
    ensures
        sorted(r@),
        same_counts(r@, keys@),
        r.len() == keys.len(),
    decreases keys.len(),
{
    if keys.len() <= 1 {
        return keys;
    }
    let mut left = keys;
    let half = left.len() / 2;
    let right = left.split_off(half);
    let ghost front = left@;
    let ghost back = right@;
    assert(keys@ =~= front + back);
    let left = sort_keys(left);
    let right = sort_keys(right);
    let merged = merge(&left, &right);
    proof {
        assert forall|epoch: u64, value: u64| #[trigger]
            count_from(merged@, epoch, value) == count_from(keys@, epoch, value) by {
            lemma_count_from_add(left@, right@, epoch, value);
            lemma_count_from_add(front, back, epoch, value);
        }
    }
    merged
}

} // verus!
