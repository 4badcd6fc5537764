//! Tie-aware ranks of validators within an epoch.
//!
//! Within one epoch, the rank of a validator by a metric is the number of
//! validators of that epoch whose value is at least as large as its own. The
//! only validator with the largest value has rank 1, validators with equal
//! values share a rank, and a group of tied validators takes the rank of its
//! last place: with the values 7, 10, 10, 10 the three tens have rank 3 and
//! the seven has rank 4. Ranks of different epochs have nothing to do with
//! each other.

use crate::sorting::{
    count_from, count_in_sorted, lemma_count_from_uniform, sort_keys, sorted, RankKey,
};
use crate::validators::{ValidatorEpochStats, ValidatorRecord};
use vstd::prelude::*;

verus! {

/// The metrics by which validators are ranked.
#[derive(Clone, Copy, Debug, PartialEq, Eq, Structural)]
pub enum RankMetric {
    /// The stake delegated to the validator.
    ActivatedStake,
    /// The validator's score.
    MarinadeScore,
    /// The estimated yield, in thousandths.
    Apy,
}

impl ValidatorEpochStats {
    /// The value of this entry under `metric`, if it has one.
    pub open spec fn metric(self, metric: RankMetric) -> Option<u64> {
        match metric {
            RankMetric::ActivatedStake => Some(self.activated_stake),
            RankMetric::MarinadeScore => Some(self.marinade_score),
            RankMetric::Apy => self.apy_milli,
        }
    }

    /// This entry with its rank under `metric` set to `rank`.
    pub open spec fn with_rank(self, metric: RankMetric, rank: Option<usize>) -> Self {
        match metric {
            RankMetric::ActivatedStake => ValidatorEpochStats { rank_activated_stake: rank, ..self },
            RankMetric::MarinadeScore => ValidatorEpochStats { rank_marinade_score: rank, ..self },
            RankMetric::Apy => ValidatorEpochStats { rank_apy: rank, ..self },
        }
    }

    /// The value of this entry under `metric`, if it has one.
    pub fn metric_value(&self, metric: RankMetric) -> (r: Option<u64>)
        ensures
            r == self.metric(metric),
    {
        match metric {
            RankMetric::ActivatedStake => Some(self.activated_stake),
            RankMetric::MarinadeScore => Some(self.marinade_score),
            RankMetric::Apy => self.apy_milli,
        }
    }
}

/// The number of entries of one history that meet `wanted`.
pub open spec fn tally_in(
    stats: Seq<ValidatorEpochStats>,
    wanted: spec_fn(ValidatorEpochStats) -> bool,
) -> nat
    decreases stats.len(),
{
    if stats.len() == 0 {
        0
    } else {
        tally_in(stats.drop_last(), wanted) + if wanted(stats.last()) {
            1nat
        } else {
            0nat
        }
    }
}

/// The number of entries, over the histories of all validators, that meet
/// `wanted`.
pub open spec fn tally(
    validators: Seq<ValidatorRecord>,
    wanted: spec_fn(ValidatorEpochStats) -> bool,
) -> nat
    decreases validators.len(),
{
    if validators.len() == 0 {
        0
    } else {
        tally(validators.drop_last(), wanted) + tally_in(validators.last().epoch_stats@, wanted)
    }
}

/// Entries of `epoch` that have a value under `metric`.
pub open spec fn takes_part(metric: RankMetric, epoch: u64) -> spec_fn(ValidatorEpochStats) -> bool {
    |s: ValidatorEpochStats| s.epoch == epoch && s.metric(metric) is Some
}

/// Entries of `epoch` whose value under `metric` is at least `value`.
pub open spec fn at_least(metric: RankMetric, epoch: u64, value: u64) -> spec_fn(
    ValidatorEpochStats,
) -> bool {
    |s: ValidatorEpochStats| s.epoch == epoch && s.metric(metric) is Some && s.metric(metric).unwrap() >= value
}

/// Entries of `epoch` whose value under `metric` is `value`.
pub open spec fn tied_at(metric: RankMetric, epoch: u64, value: u64) -> spec_fn(
    ValidatorEpochStats,
) -> bool {
    |s: ValidatorEpochStats| s.epoch == epoch && s.metric(metric) == Some(value)
}

/// Entries of `epoch` whose value under `metric` is larger than `value`.
pub open spec fn above(metric: RankMetric, epoch: u64, value: u64) -> spec_fn(
    ValidatorEpochStats,
) -> bool {
    |s: ValidatorEpochStats| s.epoch == epoch && s.metric(metric) is Some && s.metric(metric).unwrap() > value
}

/// Entries of `epoch` whose value under `metric` is smaller than `value`.
pub open spec fn below(metric: RankMetric, epoch: u64, value: u64) -> spec_fn(
    ValidatorEpochStats,
) -> bool {
    |s: ValidatorEpochStats| s.epoch == epoch && s.metric(metric) is Some && s.metric(metric).unwrap() < value
}

/// Entries of `epoch` whose value under `metric` lies strictly between `low`
/// and `high`.
pub open spec fn between(metric: RankMetric, epoch: u64, low: u64, high: u64) -> spec_fn(
    ValidatorEpochStats,
) -> bool {
    |s: ValidatorEpochStats|
        s.epoch == epoch && s.metric(metric) is Some && low < s.metric(metric).unwrap() < high
}

/// The rank, among `validators`, of an entry of `epoch` with `value`: the
/// number of entries of that epoch whose value is at least as large.
pub open spec fn rank_at(
    validators: Seq<ValidatorRecord>,
    metric: RankMetric,
    epoch: u64,
    value: u64,
) -> nat {
    tally(validators, at_least(metric, epoch, value))
}

/// The rank of `entry` among `validators` under `metric`: none where the
/// entry has no value under it.
pub open spec fn rank_of(
    validators: Seq<ValidatorRecord>,
    metric: RankMetric,
    entry: ValidatorEpochStats,
) -> Option<usize> {
    match entry.metric(metric) {
        Some(value) => Some(rank_at(validators, metric, entry.epoch, value) as usize),
        None => None,
    }
}

/// Whether `after` is `before` with every entry's rank under `metric` set,
/// and nothing else changed.
pub open spec fn ranked(
    before: Seq<ValidatorRecord>,
    after: Seq<ValidatorRecord>,
    metric: RankMetric,
) -> bool {
    &&& after.len() == before.len()
    &&& forall|k: int|
        0 <= k < after.len() ==> {
            &&& (#[trigger] after[k]) == ValidatorRecord {
                epoch_stats: after[k].epoch_stats,
                ..before[k]
            }
            &&& after[k].epoch_stats.len() == before[k].epoch_stats.len()
            &&& forall|j: int|
                0 <= j < after[k].epoch_stats.len() ==> (#[trigger] after[k].epoch_stats[j])
                    == before[k].epoch_stats[j].with_rank(
                    metric,
                    rank_of(before, metric, before[k].epoch_stats[j]),
                )
        }
}

proof fn lemma_tally_in_sum(
    stats: Seq<ValidatorEpochStats>,
    whole: spec_fn(ValidatorEpochStats) -> bool,
    left: spec_fn(ValidatorEpochStats) -> bool,
    right: spec_fn(ValidatorEpochStats) -> bool,
)
    requires
        forall|s: ValidatorEpochStats| #[trigger] whole(s) <==> left(s) || right(s),
        forall|s: ValidatorEpochStats| !(#[trigger] left(s) && right(s)),
    ensures
        tally_in(stats, whole) == tally_in(stats, left) + tally_in(stats, right),
    decreases stats.len(),
{
    if stats.len() > 0 {
        lemma_tally_in_sum(stats.drop_last(), whole, left, right);
    }
}

/// Where every entry that is wanted is wanted for exactly one of two
/// reasons, the tallies of the two reasons add up.
pub proof fn lemma_tally_sum(
    validators: Seq<ValidatorRecord>,
    whole: spec_fn(ValidatorEpochStats) -> bool,
    left: spec_fn(ValidatorEpochStats) -> bool,
    right: spec_fn(ValidatorEpochStats) -> bool,
)
    requires
        forall|s: ValidatorEpochStats| #[trigger] whole(s) <==> left(s) || right(s),
        forall|s: ValidatorEpochStats| !(#[trigger] left(s) && right(s)),
    ensures
        tally(validators, whole) == tally(validators, left) + tally(validators, right),
    decreases validators.len(),
{
    if validators.len() > 0 {
        lemma_tally_sum(validators.drop_last(), whole, left, right);
        lemma_tally_in_sum(validators.last().epoch_stats@, whole, left, right);
    }
}

proof fn lemma_tally_in_none(
    stats: Seq<ValidatorEpochStats>,
    wanted: spec_fn(ValidatorEpochStats) -> bool,
)
    requires
        tally_in(stats, wanted) == 0,
    ensures
        forall|j: int| 0 <= j < stats.len() ==> !wanted(#[trigger] stats[j]),
    decreases stats.len(),
{
    if stats.len() > 0 {
        lemma_tally_in_none(stats.drop_last(), wanted);
        assert forall|j: int| 0 <= j < stats.len() implies !wanted(#[trigger] stats[j]) by {
            if j < stats.len() - 1 {
                assert(stats.drop_last()[j] == stats[j]);
            }
        }
    }
}

proof fn lemma_tally_in_same(
    stats: Seq<ValidatorEpochStats>,
    one: spec_fn(ValidatorEpochStats) -> bool,
    other: spec_fn(ValidatorEpochStats) -> bool,
)
    requires
        forall|j: int| 0 <= j < stats.len() ==> (one(#[trigger] stats[j]) <==> other(stats[j])),
    ensures
        tally_in(stats, one) == tally_in(stats, other),
    decreases stats.len(),
{
    if stats.len() > 0 {
        lemma_tally_in_same(stats.drop_last(), one, other);
    }
}

/// A tally of nothing says that no entry of any validator is wanted.
pub proof fn lemma_tally_none(
    validators: Seq<ValidatorRecord>,
    wanted: spec_fn(ValidatorEpochStats) -> bool,
)
    requires
        tally(validators, wanted) == 0,
    ensures
        forall|k: int, j: int|
            0 <= k < validators.len() && 0 <= j < validators[k].epoch_stats@.len() ==> !wanted(
                #[trigger] validators[k].epoch_stats@[j],
            ),
    decreases validators.len(),
{
    if validators.len() > 0 {
        lemma_tally_none(validators.drop_last(), wanted);
        lemma_tally_in_none(validators.last().epoch_stats@, wanted);
        assert forall|k: int, j: int|
            0 <= k < validators.len() && 0 <= j < validators[k].epoch_stats@.len() implies !wanted(
            #[trigger] validators[k].epoch_stats@[j],
        ) by {
            if k < validators.len() - 1 {
                assert(validators.drop_last()[k] == validators[k]);
            }
        }
    }
}

/// Two tallies agree where the two wants agree on every entry that occurs.
pub proof fn lemma_tally_same(
    validators: Seq<ValidatorRecord>,
    one: spec_fn(ValidatorEpochStats) -> bool,
    other: spec_fn(ValidatorEpochStats) -> bool,
)
    requires
        forall|k: int, j: int|
            0 <= k < validators.len() && 0 <= j < validators[k].epoch_stats@.len() ==> (one(
                #[trigger] validators[k].epoch_stats@[j],
            ) <==> other(validators[k].epoch_stats@[j])),
    ensures
        tally(validators, one) == tally(validators, other),
    decreases validators.len(),
{
    if validators.len() > 0 {
        lemma_tally_same(validators.drop_last(), one, other);
        let stats = validators.last().epoch_stats@;
        lemma_tally_in_same(stats, one, other);
    }
}

/// Validators of one epoch with one value have one rank.
pub proof fn lemma_ties_share_rank(
    validators: Seq<ValidatorRecord>,
    metric: RankMetric,
    one: ValidatorEpochStats,
    other: ValidatorEpochStats,
)
    requires
        one.epoch == other.epoch,
        one.metric(metric) == other.metric(metric),
    ensures
        rank_of(validators, metric, one) == rank_of(validators, metric, other),
{
}

/// The rank of a group of tied validators is the number of validators above
/// the group plus the size of the group.
pub proof fn lemma_rank_is_above_plus_ties(
    validators: Seq<ValidatorRecord>,
    metric: RankMetric,
    epoch: u64,
    value: u64,
)
    ensures
        rank_at(validators, metric, epoch, value) == tally(validators, above(metric, epoch, value))
            + tally(validators, tied_at(metric, epoch, value)),
{
    lemma_tally_sum(
        validators,
        at_least(metric, epoch, value),
        above(metric, epoch, value),
        tied_at(metric, epoch, value),
    );
}

/// Counted from the other end: the rank is the number of validators of the
/// epoch that take part less the number of those with a smaller value. In a
/// list sorted by rising value that is the length of the list less the place
/// at which the validator's group of ties begins.
pub proof fn lemma_rank_is_count_less_below(
    validators: Seq<ValidatorRecord>,
    metric: RankMetric,
    epoch: u64,
    value: u64,
)
    ensures
        rank_at(validators, metric, epoch, value) == tally(validators, takes_part(metric, epoch))
            - tally(validators, below(metric, epoch, value)),
{
    lemma_tally_sum(
        validators,
        takes_part(metric, epoch),
        at_least(metric, epoch, value),
        below(metric, epoch, value),
    );
}

/// After a group of ties the ranks leave a gap as wide as the group: where
/// no validator of the epoch has a value strictly between `low` and `high`,
/// the rank at `low` is the rank at `high` plus the number of validators tied
/// at `low`.
pub proof fn lemma_rank_of_next_value(
    validators: Seq<ValidatorRecord>,
    metric: RankMetric,
    epoch: u64,
    low: u64,
    high: u64,
)
    requires
        low < high,
        tally(validators, between(metric, epoch, low, high)) == 0,
    ensures
        rank_at(validators, metric, epoch, low) == rank_at(validators, metric, epoch, high)
            + tally(validators, tied_at(metric, epoch, low)),
{
    lemma_rank_is_above_plus_ties(validators, metric, epoch, low);
    lemma_tally_none(validators, between(metric, epoch, low, high));
    lemma_tally_same(validators, above(metric, epoch, low), at_least(metric, epoch, high));
}

/// The rank key of every entry that has a value under `metric`, validator
/// after validator and entry after entry.
fn collect_keys(validators: &Vec<ValidatorRecord>, metric: RankMetric) -> (keys: Vec<RankKey>)
    ensures
        forall|epoch: u64, value: u64|
            #[trigger] count_from(keys@, epoch, value) == rank_at(
                validators@,
                metric,
                epoch,
                value,
            ),
{
    let mut keys: Vec<RankKey> = Vec::new();
    let mut k: usize = 0;
    while k < validators.len()
        invariant
            k <= validators.len(),
            forall|epoch: u64, value: u64|
                #[trigger] count_from(keys@, epoch, value) == tally(
                    validators@.take(k as int),
                    at_least(metric, epoch, value),
                ),
        decreases validators.len() - k,
    {
        let stats = &validators[k].epoch_stats;
        let ghost gathered = keys@;
        let mut j: usize = 0;
        while j < stats.len()
            invariant
                j <= stats.len(),
                k < validators.len(),
                stats@ == validators[k as int].epoch_stats@,
                forall|epoch: u64, value: u64|
                    #[trigger] count_from(gathered, epoch, value) == tally(
                        validators@.take(k as int),
                        at_least(metric, epoch, value),
                    ),
                forall|epoch: u64, value: u64|
                    #[trigger] count_from(keys@, epoch, value) == count_from(
                        gathered,
                        epoch,
                        value,
                    ) + tally_in(stats@.take(j as int), at_least(metric, epoch, value)),
            decreases stats.len() - j,
        {
            let ghost before = keys@;
            match stats[j].metric_value(metric) {
                Some(value) => {
                    keys.push(RankKey { epoch: stats[j].epoch, value });
                    assert(keys@.drop_last() =~= before);
                },
                None => {},
            }
            proof {
                assert(stats@.take(j + 1).drop_last() =~= stats@.take(j as int));
                assert forall|epoch: u64, value: u64| #[trigger]
                    count_from(keys@, epoch, value) == count_from(gathered, epoch, value)
                        + tally_in(stats@.take(j + 1), at_least(metric, epoch, value)) by {
                    assert(count_from(before, epoch, value) == count_from(gathered, epoch, value)
                        + tally_in(stats@.take(j as int), at_least(metric, epoch, value)));
                }
            }
            j += 1;
        }
        proof {
            assert(stats@.take(j as int) =~= stats@);
            assert(validators@.take(k + 1).drop_last() =~= validators@.take(k as int));
        }
        k += 1;
    }
    proof {
        assert(validators@.take(k as int) =~= validators@);
    }
    keys
}

/// Sets, in every entry of every validator's history, the rank under
/// `metric`: the number of entries of the same epoch whose value is at least
/// as large, or none where the entry has no value. Nothing else changes. No
/// rank is too large to be held.
pub fn update_validators_ranks(validators: &mut Vec<ValidatorRecord>, metric: RankMetric)
    ensures
        ranked(old(validators)@, final(validators)@, metric),
        forall|epoch: u64, value: u64|
            #[trigger] rank_at(old(validators)@, metric, epoch, value) <= usize::MAX,
{
    let gathered = collect_keys(validators, metric);
    let keys = sort_keys(gathered);
    let ghost before = validators@;
    proof {
        assert forall|epoch: u64, value: u64| #[trigger]
            rank_at(before, metric, epoch, value) <= usize::MAX by {
            lemma_count_from_uniform(keys@, epoch, value);
            assert(count_from(keys@, epoch, value) == rank_at(before, metric, epoch, value));
        }
    }
    let mut k: usize = 0;
    while k < validators.len()
        invariant
            k <= validators.len(),
            before == old(validators)@,
            validators.len() == before.len(),
            sorted(keys@),
            forall|epoch: u64, value: u64|
                #[trigger] count_from(keys@, epoch, value) == rank_at(
                    before,
                    metric,
                    epoch,
                    value,
                ),
            forall|i: int|
                0 <= i < k ==> {
                    &&& (#[trigger] validators[i]) == ValidatorRecord {
                        epoch_stats: validators[i].epoch_stats,
                        ..before[i]
                    }
                    &&& validators[i].epoch_stats.len() == before[i].epoch_stats.len()
                    &&& forall|j: int|
                        0 <= j < validators[i].epoch_stats.len() ==> (
                        #[trigger] validators[i].epoch_stats[j]) == before[i].epoch_stats[j].with_rank(
                            metric,
                            rank_of(before, metric, before[i].epoch_stats[j]),
                        )
                },
            forall|i: int| k <= i < validators.len() ==> validators[i] == before[i],
        decreases validators.len() - k,
    {
        let ghost prior = validators@;
        let mut j: usize = 0;
        while j < validators[k].epoch_stats.len()
            invariant
                k < validators.len(),
                validators.len() == before.len(),
                sorted(keys@),
                forall|epoch: u64, value: u64|
                    #[trigger] count_from(keys@, epoch, value) == rank_at(
                        before,
                        metric,
                        epoch,
                        value,
                    ),
                j <= validators[k as int].epoch_stats.len(),
                validators[k as int].epoch_stats.len() == before[k as int].epoch_stats.len(),
                validators[k as int] == (ValidatorRecord {
                    epoch_stats: validators[k as int].epoch_stats,
                    ..before[k as int]
                }),
                forall|i: int|
                    0 <= i < j ==> (#[trigger] validators[k as int].epoch_stats[i])
                        == before[k as int].epoch_stats[i].with_rank(
                        metric,
                        rank_of(before, metric, before[k as int].epoch_stats[i]),
                    ),
                forall|i: int|
                    j <= i < validators[k as int].epoch_stats.len() ==> (
                    #[trigger] validators[k as int].epoch_stats[i]) == before[k as int].epoch_stats[i],
                prior.len() == validators.len(),
                forall|i: int| 0 <= i < validators.len() && i != k ==> validators[i] == prior[i],
            decreases validators[k as int].epoch_stats.len() - j,
        {
            let entry = &validators[k].epoch_stats[j];
            let rank = match entry.metric_value(metric) {
                Some(value) => Some(count_in_sorted(&keys, entry.epoch, value)),
                None => None,
            };
            match metric {
                RankMetric::ActivatedStake => {
                    validators[k].epoch_stats[j].rank_activated_stake = rank;
                },
                RankMetric::MarinadeScore => {
                    validators[k].epoch_stats[j].rank_marinade_score = rank;
                },
                RankMetric::Apy => {
                    validators[k].epoch_stats[j].rank_apy = rank;
                },
            }
            j += 1;
        }
        proof {
            assert forall|i: int| 0 <= i < k implies {
                &&& (#[trigger] validators[i]) == ValidatorRecord {
                    epoch_stats: validators[i].epoch_stats,
                    ..before[i]
                }
                &&& validators[i].epoch_stats.len() == before[i].epoch_stats.len()
                &&& forall|j: int|
                    0 <= j < validators[i].epoch_stats.len() ==> (
                    #[trigger] validators[i].epoch_stats[j]) == before[i].epoch_stats[j].with_rank(
                        metric,
                        rank_of(before, metric, before[i].epoch_stats[j]),
                    )
            } by {
                assert(validators[i] == prior[i]);
            }
        }
        k += 1;
    }
}

} // verus!
