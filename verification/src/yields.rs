//! What the yield estimate of a validator in an epoch is computed from.
//!
//! The estimate itself is arithmetic on reals and is not done here. This
//! module decides for which rows an estimate is owed and with which figures.

use crate::numeric::{fails_first_at, stops_at_first_failure, LoadError, Numeric};
use crate::records::Real;
use crate::validators::{row_defects, ValidatorRow};
use std::collections::HashMap;
use vstd::prelude::*;

verus! {

broadcast use vstd::std_specs::hash::group_hash_axioms;

/// The commission assumed for a validator whose effective commission is not
/// known: all of the rewards.
pub const DEFAULT_COMMISSION: u8 = 100;

/// The network's inflation figures for one epoch: supply, length of the epoch
/// in seconds, base inflation, yearly taper, and the sum over all validators
/// of credits times stake.
#[derive(Clone, Copy, Debug, PartialEq, Eq, Structural)]
pub struct InflationApyCalculator {
    pub supply: u64,
    pub duration: u64,
    pub inflation: Real,
    pub inflation_taper: Real,
    pub total_weighted_credits: u128,
}

/// The inflation figures of one epoch, as stored.
#[derive(Clone, Copy, Debug)]
pub struct InflationRow {
    pub epoch: Numeric,
    pub duration: i32,
    pub supply: Numeric,
    pub inflation: Real,
    pub inflation_taper: Real,
    pub total_weighted_credits: Numeric,
}

/// Everything that the estimate for one validator in one epoch depends on.
#[derive(Clone, Copy, Debug, PartialEq, Eq, Structural)]
pub struct YieldRequest {
    pub calculator: InflationApyCalculator,
    pub credits: u64,
    pub stake: u64,
    pub commission: u8,
}

impl InflationRow {
    /// Why this row cannot be read, if it cannot.
    pub open spec fn defect(self) -> Option<LoadError> {
        if self.epoch.as_u64() is None || self.supply.as_u64() is None || self.duration < 0 {
            Some(LoadError::ExceedsU64)
        } else if self.total_weighted_credits.as_u128() is None {
            Some(LoadError::ExceedsU128)
        } else {
            None
        }
    }

    /// The epoch of this row.
    pub open spec fn epoch_number(self) -> u64 {
        self.epoch.as_u64().unwrap()
    }

    /// The figures of this row.
    pub open spec fn calculator(self) -> InflationApyCalculator {
        InflationApyCalculator {
            supply: self.supply.as_u64().unwrap(),
            duration: self.duration as u64,
            inflation: self.inflation,
            inflation_taper: self.inflation_taper,
            total_weighted_credits: self.total_weighted_credits.as_u128().unwrap(),
        }
    }

    /// Narrows the stored numbers of this row.
    pub fn narrow(&self) -> (r: Result<(u64, InflationApyCalculator), LoadError>)
        ensures
            r == match self.defect() {
                Some(e) => Err::<(u64, InflationApyCalculator), LoadError>(e),
                None => Ok((self.epoch_number(), self.calculator())),
            },
    {
        let epoch = match self.epoch.to_u64() {
            Ok(v) => v,
            Err(e) => {
                return Err(e);
            },
        };
        let supply = match self.supply.to_u64() {
            Ok(v) => v,
            Err(e) => {
                return Err(e);
            },
        };
        if self.duration < 0 {
            return Err(LoadError::ExceedsU64);
        }
        let total_weighted_credits = match self.total_weighted_credits.to_u128() {
            Ok(v) => v,
            Err(e) => {
                return Err(e);
            },
        };
        Ok(
            (
                epoch,
                InflationApyCalculator {
                    supply,
                    duration: self.duration as u64,
                    inflation: self.inflation,
                    inflation_taper: self.inflation_taper,
                    total_weighted_credits,
                },
            ),
        )
    }
}

/// The outcome of reading each row.
pub open spec fn inflation_defects(rows: Seq<InflationRow>) -> Seq<Option<LoadError>> {
    Seq::new(rows.len(), |i: int| rows[i].defect())
}

/// The figures by epoch. Where two rows speak of one epoch, the later row
/// stands.
pub open spec fn calculators_of(rows: Seq<InflationRow>) -> Map<u64, InflationApyCalculator>
    decreases rows.len(),
{
    if rows.len() == 0 {
        Map::empty()
    } else {
        calculators_of(rows.drop_last()).insert(
            rows.last().epoch_number(),
            rows.last().calculator(),
        )
    }
}

/// One set of inflation figures per epoch that the rows speak of. Fails with
/// the error of the first row that cannot be read.
pub fn get_apy_calculators(rows: &Vec<InflationRow>) -> (r: Result<
    HashMap<u64, InflationApyCalculator>,
    LoadError,
>)
    ensures
        stops_at_first_failure(r, inflation_defects(rows@)),
        r matches Ok(calculators) ==> calculators@ == calculators_of(rows@),
{
    let mut calculators: HashMap<u64, InflationApyCalculator> = HashMap::new();
    let ghost outcomes = inflation_defects(rows@);
    let mut i: usize = 0;
    while i < rows.len()
        invariant
            i <= rows.len(),
            outcomes == inflation_defects(rows@),
            forall|j: int| 0 <= j < i ==> outcomes[j] is None,
            calculators@ == calculators_of(rows@.take(i as int)),
        decreases rows.len() - i,
    {
        match rows[i].narrow() {
            Ok((epoch, calculator)) => {
                calculators.insert(epoch, calculator);
                assert(rows@.take(i + 1).drop_last() =~= rows@.take(i as int));
            },
            Err(e) => {
                assert(fails_first_at(outcomes, i as int));
                return Err(e);
            },
        }
        i += 1;
    }
    assert(rows@.take(i as int) =~= rows@);
    Ok(calculators)
}

/// The commission that the estimate reckons with.
pub open spec fn commission_or_default(value: Option<i32>) -> u8 {
    match value {
        Some(c) => c as u8,
        None => DEFAULT_COMMISSION,
    }
}

/// The request for the estimate of `row`, or nothing where the inflation
/// figures of the row's epoch are not known.
pub open spec fn request_of(
    row: ValidatorRow,
    calculators: Map<u64, InflationApyCalculator>,
) -> Option<YieldRequest> {
    if calculators.contains_key(row.epoch.as_u64().unwrap()) {
        Some(
            YieldRequest {
                calculator: calculators[row.epoch.as_u64().unwrap()],
                credits: row.credits.as_u64().unwrap(),
                stake: row.activated_stake.as_u64().unwrap(),
                commission: commission_or_default(row.commission_effective),
            },
        )
    } else {
        None
    }
}

/// What the estimate for `row` is to be computed from. A row whose epoch has
/// no inflation figures gets no estimate: its yield is unknown, not zero.
/// Fails if the row cannot be read.
pub fn yield_request(row: &ValidatorRow, calculators: &HashMap<u64, InflationApyCalculator>) -> (r:
    Result<Option<YieldRequest>, LoadError>)
    ensures
        r == match row.defect() {
            Some(e) => Err::<Option<YieldRequest>, LoadError>(e),
            None => Ok(request_of(*row, calculators@)),
        },
{
    let stats = match row.narrow(None) {
        Ok((stats, _)) => stats,
        Err(e) => {
            return Err(e);
        },
    };
    match calculators.get(&stats.epoch) {
        Some(calculator) => Ok(
            Some(
                YieldRequest {
                    calculator: *calculator,
                    credits: stats.credits,
                    stake: stats.activated_stake,
                    commission: match stats.commission_effective {
                        Some(c) => c,
                        None => DEFAULT_COMMISSION,
                    },
                },
            ),
        ),
        None => Ok(None),
    }
}

/// The request of every row, in the order of the rows. Fails with the error
/// of the first row that cannot be read.
pub fn yield_requests(
    rows: &Vec<ValidatorRow>,
    calculators: &HashMap<u64, InflationApyCalculator>,
) -> (r: Result<Vec<Option<YieldRequest>>, LoadError>)
    ensures
        stops_at_first_failure(r, row_defects(rows@)),
        r matches Ok(requests) ==> requests@ == Seq::new(
            rows.len() as nat,
            |i: int| request_of(rows[i], calculators@),
        ),
{
    let mut requests: Vec<Option<YieldRequest>> = Vec::new();
    let ghost outcomes = row_defects(rows@);
    let mut i: usize = 0;
    while i < rows.len()
        invariant
            i <= rows.len(),
            outcomes == row_defects(rows@),
            forall|j: int| 0 <= j < i ==> outcomes[j] is None,
            requests@ == Seq::new(i as nat, |j: int| request_of(rows[j], calculators@)),
        decreases rows.len() - i,
    {
        match yield_request(&rows[i], calculators) {
            Ok(request) => {
                requests.push(request);
            },
            Err(e) => {
                assert(fails_first_at(outcomes, i as int));
                return Err(e);
            },
        }
        i += 1;
    }
    Ok(requests)
}

} // verus!
