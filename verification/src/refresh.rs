//! One refresh of the published records: estimate, fold, average, rank.

use crate::averages::{averaged, update_validators_with_avgs};
use crate::concentration::DCConcentrationStats;
use crate::numeric::{lemma_passes_in_sequence, stops_at_first_failure, LoadError};
use crate::ranking::{ranked, update_validators_ranks, RankMetric};
use crate::records::{IdentityRecords, Real, WarningRecord};
use crate::validators::{
    aggregate_rows, aggregates, lemma_epochs_count_ignores_lookback, row_defects,
    ValidatorRecord, ValidatorRow, YieldEstimate,
};
use crate::window::{epoch_defects, keep_in_window, latest_first, rows_in_window, Lookback};
use crate::yields::{request_of, yield_requests, InflationApyCalculator, YieldRequest};
use std::collections::HashMap;
use vstd::prelude::*;

verus! {

/// Whether `yields` holds, row by row, what `estimate` gave for the row's
/// request: an estimate for each row whose epoch has inflation figures, and
/// nothing for the others.
pub open spec fn estimated<E: Fn(YieldRequest) -> YieldEstimate>(
    rows: Seq<ValidatorRow>,
    calculators: Map<u64, InflationApyCalculator>,
    estimate: E,
    yields: Seq<Option<YieldEstimate>>,
) -> bool {
    &&& yields.len() == rows.len()
    &&& forall|i: int|
        0 <= i < rows.len() ==> match request_of(rows[i], calculators) {
            Some(request) => (#[trigger] yields[i]) matches Some(y) && call_ensures(
                estimate,
                (request,),
                y,
            ),
            None => yields[i] is None,
        }
}

/// Whether `after` is `before` with the averages of every record set by
/// `mean`.
pub open spec fn all_averaged<M: Fn(Vec<Real>) -> Real>(
    before: Seq<ValidatorRecord>,
    after: Seq<ValidatorRecord>,
    mean: M,
) -> bool {
    &&& after.len() == before.len()
    &&& forall|k: int| 0 <= k < after.len() ==> averaged(before[k], #[trigger] after[k], mean)
}

/// The steps of a refresh, each with what it made: the estimates of the
/// rows, the records folded from the rows, the records with their averages,
/// and the records after ranking by stake, by score and by yield.
pub open spec fn refresh_steps<E: Fn(YieldRequest) -> YieldEstimate, M: Fn(Vec<Real>) -> Real>(
    records: Seq<ValidatorRecord>,
    rows: Seq<ValidatorRow>,
    calculators: Map<u64, InflationApyCalculator>,
    warnings: Seq<IdentityRecords<WarningRecord>>,
    concentration: Option<DCConcentrationStats>,
    estimate: E,
    mean: M,
    yields: Seq<Option<YieldEstimate>>,
    folded: Seq<ValidatorRecord>,
    with_averages: Seq<ValidatorRecord>,
    by_stake: Seq<ValidatorRecord>,
    by_score: Seq<ValidatorRecord>,
) -> bool {
    &&& estimated(rows, calculators, estimate, yields)
    &&& aggregates(folded, rows, rows.len() as int, yields, warnings, concentration)
    &&& all_averaged(folded, with_averages, mean)
    &&& ranked(with_averages, by_stake, RankMetric::ActivatedStake)
    &&& ranked(by_stake, by_score, RankMetric::MarinadeScore)
    &&& ranked(by_score, records, RankMetric::Apy)
}

/// Whether `records` is what a refresh makes of `rows`.
pub open spec fn refreshed<E: Fn(YieldRequest) -> YieldEstimate, M: Fn(Vec<Real>) -> Real>(
    records: Seq<ValidatorRecord>,
    rows: Seq<ValidatorRow>,
    calculators: Map<u64, InflationApyCalculator>,
    warnings: Seq<IdentityRecords<WarningRecord>>,
    concentration: Option<DCConcentrationStats>,
    estimate: E,
    mean: M,
) -> bool {
    exists|
        yields: Seq<Option<YieldEstimate>>,
        folded: Seq<ValidatorRecord>,
        with_averages: Seq<ValidatorRecord>,
        by_stake: Seq<ValidatorRecord>,
        by_score: Seq<ValidatorRecord>,
    |
        #[trigger] refresh_steps(
            records,
            rows,
            calculators,
            warnings,
            concentration,
            estimate,
            mean,
            yields,
            folded,
            with_averages,
            by_stake,
            by_score,
        )
}

/// The estimate of each row that is owed one, from `estimate`.
pub fn estimate_yields<E: Fn(YieldRequest) -> YieldEstimate>(
    rows: &Vec<ValidatorRow>,
    calculators: &HashMap<u64, InflationApyCalculator>,
    estimate: &E,
) -> (r: Result<Vec<Option<YieldEstimate>>, LoadError>)
    requires
        forall|request: YieldRequest| call_requires(*estimate, (request,)),
    ensures
        stops_at_first_failure(r, row_defects(rows@)),
        r matches Ok(yields) ==> estimated(rows@, calculators@, *estimate, yields@),
{
    let requests = match yield_requests(rows, calculators) {
        Ok(v) => v,
        Err(e) => {
            return Err(e);
        },
    };
    let mut yields: Vec<Option<YieldEstimate>> = Vec::new();
    let mut i: usize = 0;
    while i < requests.len()
        invariant
            i <= requests.len(),
            requests.len() == rows.len(),
            yields.len() == i,
            forall|request: YieldRequest| call_requires(*estimate, (request,)),
            forall|j: int| 0 <= j < requests.len() ==> requests[j] == request_of(rows[j], calculators@),
            forall|j: int|
                0 <= j < i ==> match request_of(rows[j], calculators@) {
                    Some(request) => (#[trigger] yields[j]) matches Some(y) && call_ensures(
                        *estimate,
                        (request,),
                        y,
                    ),
                    None => yields[j] is None,
                },
        decreases requests.len() - i,
    {
        let given = match requests[i] {
            Some(request) => Some((*estimate)(request)),
            None => None,
        };
        yields.push(given);
        i += 1;
    }
    Ok(yields)
}

/// One refresh: folds the rows of the window into one record per validator,
/// with the yield of each epoch estimated by `estimate` where the epoch has
/// inflation figures, then sets each record's averages with `mean` and ranks
/// every epoch by stake, by score and by yield. Fails with the error of the
/// first row whose epoch cannot be read or, where all can, of the first row
/// of the window that cannot be read.
pub fn load_validators<E: Fn(YieldRequest) -> YieldEstimate, M: Fn(Vec<Real>) -> Real>(
    rows: Vec<ValidatorRow>,
    lookback: &Lookback,
    calculators: &HashMap<u64, InflationApyCalculator>,
    warnings: &Vec<IdentityRecords<WarningRecord>>,
    concentration: &Option<DCConcentrationStats>,
    estimate: &E,
    mean: &M,
) -> (r: Result<Vec<ValidatorRecord>, LoadError>)
    requires
        forall|request: YieldRequest| call_requires(*estimate, (request,)),
        forall|values: Vec<Real>| values.len() > 0 ==> call_requires(*mean, (values,)),
    ensures
        stops_at_first_failure(
            r,
            epoch_defects(rows@) + row_defects(rows_in_window(rows@, *lookback)),
        ),
        r matches Ok(records) ==> refreshed(
            records@,
            rows_in_window(rows@, *lookback),
            calculators@,
            warnings@,
            *concentration,
            *estimate,
            *mean,
        ),
{
    let ghost defects = row_defects(rows_in_window(rows@, *lookback));
    let in_window = keep_in_window(rows, lookback);
    let kept = match in_window {
        Ok(v) => v,
        Err(e) => {
            proof {
                lemma_passes_in_sequence::<Vec<ValidatorRow>, ()>(
                    in_window,
                    Err(e),
                    epoch_defects(rows@),
                    defects,
                );
            }
            return Err(e);
        },
    };
    let estimated = estimate_yields(&kept, calculators, estimate);
    let yields = match estimated {
        Ok(v) => v,
        Err(e) => {
            proof {
                lemma_passes_in_sequence(in_window, estimated, epoch_defects(rows@), defects);
            }
            return Err(e);
        },
    };
    let folded_rows = aggregate_rows(&kept, &yields, warnings, concentration);
    proof {
        lemma_passes_in_sequence(in_window, folded_rows, epoch_defects(rows@), defects);
    }
    let mut records = match folded_rows {
        Ok(v) => v,
        Err(e) => {
            return Err(e);
        },
    };
    let ghost folded = records@;
    update_validators_with_avgs(&mut records, mean);
    let ghost with_averages = records@;
    update_validators_ranks(&mut records, RankMetric::ActivatedStake);
    let ghost by_stake = records@;
    update_validators_ranks(&mut records, RankMetric::MarinadeScore);
    let ghost by_score = records@;
    update_validators_ranks(&mut records, RankMetric::Apy);
    proof {
        assert(refresh_steps(
            records@,
            kept@,
            calculators@,
            warnings@,
            *concentration,
            *estimate,
            *mean,
            yields@,
            folded,
            with_averages,
            by_stake,
            by_score,
        ));
    }
    Ok(records)
}

/// Averages and ranks leave a record's identity and its count of epochs as
/// the fold made them.
pub proof fn lemma_refresh_keeps_what_is_folded<
    E: Fn(YieldRequest) -> YieldEstimate,
    M: Fn(Vec<Real>) -> Real,
>(
    records: Seq<ValidatorRecord>,
    rows: Seq<ValidatorRow>,
    calculators: Map<u64, InflationApyCalculator>,
    warnings: Seq<IdentityRecords<WarningRecord>>,
    concentration: Option<DCConcentrationStats>,
    estimate: E,
    mean: M,
    yields: Seq<Option<YieldEstimate>>,
    folded: Seq<ValidatorRecord>,
    with_averages: Seq<ValidatorRecord>,
    by_stake: Seq<ValidatorRecord>,
    by_score: Seq<ValidatorRecord>,
)
    requires
        refresh_steps(
            records,
            rows,
            calculators,
            warnings,
            concentration,
            estimate,
            mean,
            yields,
            folded,
            with_averages,
            by_stake,
            by_score,
        ),
    ensures
        records.len() == folded.len(),
        forall|k: int|
            0 <= k < records.len() ==> (#[trigger] records[k]).identity == folded[k].identity
                && records[k].epochs_count == folded[k].epochs_count,
{
    assert forall|k: int| 0 <= k < records.len() implies (#[trigger] records[k]).identity
        == folded[k].identity && records[k].epochs_count == folded[k].epochs_count by {
        assert(averaged(folded[k], with_averages[k], mean));
        assert(by_stake[k].identity == with_averages[k].identity);
        assert(by_score[k].identity == by_stake[k].identity);
    }
}

/// A validator's count of epochs does not depend on how far a refresh looks
/// back: where the rows come latest epoch first, a refresh over a narrower
/// window gives every validator it holds the count that a refresh over a
/// wider window of the same rows gives it.
pub proof fn lemma_refresh_ignores_lookback<
    E: Fn(YieldRequest) -> YieldEstimate,
    M: Fn(Vec<Real>) -> Real,
>(
    rows: Seq<ValidatorRow>,
    wide: Lookback,
    narrow: Lookback,
    wide_records: Seq<ValidatorRecord>,
    narrow_records: Seq<ValidatorRecord>,
    calculators: Map<u64, InflationApyCalculator>,
    warnings: Seq<IdentityRecords<WarningRecord>>,
    concentration: Option<DCConcentrationStats>,
    later_calculators: Map<u64, InflationApyCalculator>,
    later_warnings: Seq<IdentityRecords<WarningRecord>>,
    later_concentration: Option<DCConcentrationStats>,
    estimate: E,
    mean: M,
    k: int,
    j: int,
)
    requires
        latest_first(rows),
        forall|i: int| 0 <= i < rows.len() ==> (#[trigger] rows[i]).epoch.as_u64() is Some,
        wide.last_epoch == narrow.last_epoch,
        narrow.epochs <= wide.epochs,
        refreshed(
            wide_records,
            rows_in_window(rows, wide),
            calculators,
            warnings,
            concentration,
            estimate,
            mean,
        ),
        refreshed(
            narrow_records,
            rows_in_window(rows, narrow),
            later_calculators,
            later_warnings,
            later_concentration,
            estimate,
            mean,
        ),
        0 <= k < narrow_records.len(),
        0 <= j < wide_records.len(),
        narrow_records[k].identity@ == wide_records[j].identity@,
    ensures
        narrow_records[k].epochs_count == wide_records[j].epochs_count,
{
    let (yields, folded, with_averages, by_stake, by_score) = choose|
        yields: Seq<Option<YieldEstimate>>,
        folded: Seq<ValidatorRecord>,
        with_averages: Seq<ValidatorRecord>,
        by_stake: Seq<ValidatorRecord>,
        by_score: Seq<ValidatorRecord>,
    |
        #[trigger] refresh_steps(
            wide_records,
            rows_in_window(rows, wide),
            calculators,
            warnings,
            concentration,
            estimate,
            mean,
            yields,
            folded,
            with_averages,
            by_stake,
            by_score,
        );
    let (later_yields, later_folded, later_averages, later_by_stake, later_by_score) = choose|
        yields: Seq<Option<YieldEstimate>>,
        folded: Seq<ValidatorRecord>,
        with_averages: Seq<ValidatorRecord>,
        by_stake: Seq<ValidatorRecord>,
        by_score: Seq<ValidatorRecord>,
    |
        #[trigger] refresh_steps(
            narrow_records,
            rows_in_window(rows, narrow),
            later_calculators,
            later_warnings,
            later_concentration,
            estimate,
            mean,
            yields,
            folded,
            with_averages,
            by_stake,
            by_score,
        );
    lemma_refresh_keeps_what_is_folded(
        wide_records,
        rows_in_window(rows, wide),
        calculators,
        warnings,
        concentration,
        estimate,
        mean,
        yields,
        folded,
        with_averages,
        by_stake,
        by_score,
    );
    lemma_refresh_keeps_what_is_folded(
        narrow_records,
        rows_in_window(rows, narrow),
        later_calculators,
        later_warnings,
        later_concentration,
        estimate,
        mean,
        later_yields,
        later_folded,
        later_averages,
        later_by_stake,
        later_by_score,
    );
    lemma_epochs_count_ignores_lookback(
        rows,
        wide,
        narrow,
        folded,
        later_folded,
        yields,
        warnings,
        concentration,
        later_yields,
        later_warnings,
        later_concentration,
        k,
        j,
    );
}

} // verus!
