//! Averages over a validator's history.
//!
//! A validator's average yield and average uptime are taken over the epochs
//! for which the value is known. Where it is known for no epoch the average
//! is unknown too: it is absent, not zero. The mean of a non-empty list of
//! reals is left to the caller.

use crate::records::Real;
use crate::validators::{ValidatorEpochStats, ValidatorRecord};
use vstd::prelude::*;

verus! {

/// The per-epoch values that are averaged.
#[derive(Clone, Copy, Debug, PartialEq, Eq, Structural)]
pub enum Averaged {
    /// The estimated yield.
    Apy,
    /// The share of time that the validator was up.
    UptimePct,
}

impl ValidatorEpochStats {
    /// The value of this entry that goes into the average, if it is known.
    pub open spec fn measure(self, of: Averaged) -> Option<Real> {
        match of {
            Averaged::Apy => self.apy,
            Averaged::UptimePct => self.uptime_pct,
        }
    }
}

/// The value of each entry of a history, known or not.
pub open spec fn measures(stats: Seq<ValidatorEpochStats>, of: Averaged) -> Seq<Option<Real>> {
    Seq::new(stats.len(), |i: int| stats[i].measure(of))
}

/// Whether the value is absent from every entry of a history.
pub open spec fn all_absent(stats: Seq<ValidatorEpochStats>, of: Averaged) -> bool {
    forall|i: int| 0 <= i < stats.len() ==> (#[trigger] stats[i]).measure(of) is None
}

/// The values that are there, in their order.
pub open spec fn present<T>(values: Seq<Option<T>>) -> Seq<T>
    decreases values.len(),
{
    if values.len() == 0 {
        Seq::empty()
    } else {
        match values.last() {
            Some(v) => present(values.drop_last()).push(v),
            None => present(values.drop_last()),
        }
    }
}

/// Nothing is present exactly where every value is absent.
pub proof fn lemma_present_is_empty<T>(values: Seq<Option<T>>)
    ensures
        present(values).len() == 0 <==> forall|i: int| 0 <= i < values.len() ==> values[i] is None,
    decreases values.len(),
{
    if values.len() > 0 {
        lemma_present_is_empty(values.drop_last());
        if present(values).len() == 0 {
            assert forall|i: int| 0 <= i < values.len() implies values[i] is None by {
                if i < values.len() - 1 {
                    assert(values.drop_last()[i] is None);
                }
            }
        }
    }
}

/// Whether `result` is something that `mean` may return when it is handed
/// exactly `values`.
pub open spec fn mean_gives<M: Fn(Vec<Real>) -> Real>(
    mean: M,
    values: Seq<Real>,
    result: Real,
) -> bool {
    exists|v: Vec<Real>| v@ == values && #[trigger] call_ensures(mean, (v,), result)
}

/// Whether `average` is what averaging `values` with `mean` gives: nothing
/// for no values, and otherwise a result of `mean` on exactly these values.
pub open spec fn averages_to<M: Fn(Vec<Real>) -> Real>(
    mean: M,
    values: Seq<Real>,
    average: Option<Real>,
) -> bool {
    match average {
        None => values.len() == 0,
        Some(m) => values.len() > 0 && mean_gives(mean, values, m),
    }
}

/// Whether `after` is `before` with both averages set by `mean`, and nothing
/// else changed.
pub open spec fn averaged<M: Fn(Vec<Real>) -> Real>(
    before: ValidatorRecord,
    after: ValidatorRecord,
    mean: M,
) -> bool {
    &&& after == ValidatorRecord {
        avg_apy: after.avg_apy,
        avg_uptime_pct: after.avg_uptime_pct,
        ..before
    }
    &&& averages_to(mean, present(measures(before.epoch_stats@, Averaged::Apy)), after.avg_apy)
    &&& averages_to(
        mean,
        present(measures(before.epoch_stats@, Averaged::UptimePct)),
        after.avg_uptime_pct,
    )
}

/// The known values of a history, in the order of the history.
pub fn present_values(stats: &Vec<ValidatorEpochStats>, of: Averaged) -> (r: Vec<Real>)
    ensures
        r@ == present(measures(stats@, of)),
{
    let mut values: Vec<Real> = Vec::new();
    let ghost all = measures(stats@, of);
    let mut i: usize = 0;
    while i < stats.len()
        invariant
            i <= stats.len(),
            all == measures(stats@, of),
            values@ == present(all.take(i as int)),
        decreases stats.len() - i,
    {
        let value = match of {
            Averaged::Apy => stats[i].apy,
            Averaged::UptimePct => stats[i].uptime_pct,
        };
        proof {
            assert(all.take(i + 1).drop_last() =~= all.take(i as int));
        }
        match value {
            Some(v) => {
                values.push(v);
            },
            None => {},
        }
        i += 1;
    }
    proof {
        assert(all.take(i as int) =~= all);
    }
    values
}

/// The average of the known values of a history, or nothing where none is
/// known.
pub fn average_of<M: Fn(Vec<Real>) -> Real>(
    stats: &Vec<ValidatorEpochStats>,
    of: Averaged,
    mean: &M,
) -> (r: Option<Real>)
    requires
        forall|v: Vec<Real>| v.len() > 0 ==> call_requires(*mean, (v,)),
    ensures
        averages_to(*mean, present(measures(stats@, of)), r),
        r is None <==> all_absent(stats@, of),
{
    proof {
        lemma_present_is_empty(measures(stats@, of));
        if present(measures(stats@, of)).len() == 0 {
            assert forall|i: int| 0 <= i < stats.len() implies (#[trigger] stats[i]).measure(
                of,
            ) is None by {
                assert(measures(stats@, of)[i] is None);
            }
        }
    }
    let values = present_values(stats, of);
    if values.len() == 0 {
        None
    } else {
        let m = (*mean)(values);
        Some(m)
    }
}

/// Sets each validator's average yield and average uptime from its history.
/// An average is absent exactly where the value is absent for every epoch of
/// the history. Nothing else changes.
pub fn update_validators_with_avgs<M: Fn(Vec<Real>) -> Real>(
    validators: &mut Vec<ValidatorRecord>,
    mean: &M,
)
    requires
        forall|v: Vec<Real>| v.len() > 0 ==> call_requires(*mean, (v,)),
    ensures
        final(validators).len() == old(validators).len(),
        forall|k: int|
            0 <= k < final(validators).len() ==> averaged(
                old(validators)[k],
                #[trigger] final(validators)[k],
                *mean,
            ),
        forall|k: int|
            0 <= k < final(validators).len() ==> ((#[trigger] final(validators)[k]).avg_apy is None
                <==> all_absent(old(validators)[k].epoch_stats@, Averaged::Apy)),
        forall|k: int|
            0 <= k < final(validators).len() ==> ((#[trigger] final(validators)[k]).avg_uptime_pct
                is None <==> all_absent(old(validators)[k].epoch_stats@, Averaged::UptimePct)),
{
    let ghost before = validators@;
    let mut k: usize = 0;
    while k < validators.len()
        invariant
            k <= validators.len(),
            before == old(validators)@,
            validators.len() == before.len(),
            forall|v: Vec<Real>| v.len() > 0 ==> call_requires(*mean, (v,)),
            forall|i: int| 0 <= i < k ==> averaged(before[i], #[trigger] validators[i], *mean),
            forall|i: int|
                0 <= i < k ==> ((#[trigger] validators[i]).avg_apy is None <==> all_absent(
                    before[i].epoch_stats@,
                    Averaged::Apy,
                )),
            forall|i: int|
                0 <= i < k ==> ((#[trigger] validators[i]).avg_uptime_pct is None <==> all_absent(
                    before[i].epoch_stats@,
                    Averaged::UptimePct,
                )),
            forall|i: int| k <= i < validators.len() ==> validators[i] == before[i],
        decreases validators.len() - k,
    {
        let avg_apy = average_of(&validators[k].epoch_stats, Averaged::Apy, mean);
        let avg_uptime_pct = average_of(&validators[k].epoch_stats, Averaged::UptimePct, mean);
        validators[k].avg_apy = avg_apy;
        validators[k].avg_uptime_pct = avg_uptime_pct;
        k += 1;
    }
}

} // verus!
