//! The per-validator records and the fold that builds them from flat
//! per-epoch rows.

use crate::concentration::{
    number_key, number_key_of, share_among, text_key, text_key_of, DCConcentrationStats, Grouping,
};
use crate::grouping::{
    distinct_keys, first_position, lemma_distinct_keys, lemma_distinct_keys_push,
    lemma_first_position, lemma_no_position, lemma_positions, lemma_positions_nonempty,
    lemma_positions_push, pick, positions,
};
use crate::numeric::{fails_first_at, stops_at_first_failure, LoadError, Numeric};
use crate::window::{
    latest_first, lemma_narrower_window_holds_less, lemma_window_is_prefix, rows_in_window,
    Epochal, Lookback,
};
use crate::records::{
    clone_text, clone_warnings, IdentityRecords, Real, Share, WarningRecord,
};
use vstd::prelude::*;

verus! {

/// One validator in one epoch, as stored. `first_epoch` is the first epoch in
/// which the store has ever seen the validator, whatever window was asked for.
#[derive(Debug)]
pub struct ValidatorRow {
    pub identity: String,
    pub vote_account: String,
    pub epoch: Numeric,
    pub info_name: Option<String>,
    pub info_url: Option<String>,
    pub info_keybase: Option<String>,
    pub node_ip: Option<String>,
    pub dc_coordinates_lat: Option<Real>,
    pub dc_coordinates_lon: Option<Real>,
    pub dc_continent: Option<String>,
    pub dc_country_iso: Option<String>,
    pub dc_country: Option<String>,
    pub dc_city: Option<String>,
    pub dc_full_city: Option<String>,
    pub dc_asn: Option<i32>,
    pub dc_aso: Option<String>,
    pub commission_max_observed: Option<i32>,
    pub commission_min_observed: Option<i32>,
    pub commission_advertised: Option<i32>,
    pub commission_effective: Option<i32>,
    pub version: Option<String>,
    pub mnde_votes: Option<Numeric>,
    pub activated_stake: Numeric,
    pub marinade_stake: Numeric,
    pub decentralizer_stake: Numeric,
    pub superminority: bool,
    pub stake_to_become_superminority: Numeric,
    pub credits: Numeric,
    pub leader_slots: Numeric,
    pub blocks_produced: Numeric,
    pub skip_rate: Real,
    pub uptime_pct: Option<Real>,
    pub uptime: Option<Numeric>,
    pub downtime: Option<Numeric>,
    pub first_epoch: Numeric,
}

/// The estimated yearly return of one validator in one epoch. `apy_milli` is
/// the yield times one thousand with the fraction cut off: the key by which
/// yields are ranked.
#[derive(Clone, Copy, Debug, PartialEq, Eq, Structural)]
pub struct YieldEstimate {
    pub apr: Real,
    pub apy: Real,
    pub apy_milli: u64,
}

/// One validator in one epoch.
#[derive(Debug, PartialEq, Eq)]
pub struct ValidatorEpochStats {
    pub epoch: u64,
    pub commission_max_observed: Option<u8>,
    pub commission_min_observed: Option<u8>,
    pub commission_advertised: Option<u8>,
    pub commission_effective: Option<u8>,
    pub version: Option<String>,
    pub mnde_votes: Option<u64>,
    pub activated_stake: u64,
    pub marinade_stake: u64,
    pub decentralizer_stake: u64,
    pub superminority: bool,
    pub stake_to_become_superminority: u64,
    pub credits: u64,
    pub leader_slots: u64,
    pub blocks_produced: u64,
    pub skip_rate: Real,
    pub uptime_pct: Option<Real>,
    pub uptime: Option<u64>,
    pub downtime: Option<u64>,
    pub apr: Option<Real>,
    pub apy: Option<Real>,
    pub apy_milli: Option<u64>,
    pub marinade_score: u64,
    pub rank_apy: Option<usize>,
    pub rank_marinade_score: Option<usize>,
    pub rank_activated_stake: Option<usize>,
}

/// One validator: what is known of it from its most recent row, and its
/// history, one entry per row and in the order of the rows.
#[derive(Debug, PartialEq, Eq)]
pub struct ValidatorRecord {
    pub identity: String,
    pub vote_account: String,
    pub info_name: Option<String>,
    pub info_url: Option<String>,
    pub info_keybase: Option<String>,
    pub node_ip: Option<String>,
    pub dc_coordinates_lat: Option<Real>,
    pub dc_coordinates_lon: Option<Real>,
    pub dc_continent: Option<String>,
    pub dc_country_iso: Option<String>,
    pub dc_country: Option<String>,
    pub dc_city: Option<String>,
    pub dc_full_city: Option<String>,
    pub dc_asn: Option<i32>,
    pub dc_aso: Option<String>,
    pub dcc_full_city: Option<Share>,
    pub dcc_asn: Option<Share>,
    pub dcc_aso: Option<Share>,
    pub commission_max_observed: Option<u8>,
    pub commission_min_observed: Option<u8>,
    pub commission_advertised: Option<u8>,
    pub commission_effective: Option<u8>,
    pub commission_aggregated: Option<u8>,
    pub version: Option<String>,
    pub mnde_votes: Option<u64>,
    pub activated_stake: u64,
    pub marinade_stake: u64,
    pub decentralizer_stake: u64,
    pub superminority: bool,
    pub credits: u64,
    pub marinade_score: u64,
    pub epoch_stats: Vec<ValidatorEpochStats>,
    pub warnings: Vec<WarningRecord>,
    pub epochs_count: u64,
    pub avg_uptime_pct: Option<Real>,
    pub avg_apy: Option<Real>,
}

/// The shares of the total stake that sit with a validator's city, network
/// and organisation.
#[derive(Clone, Copy, Debug, PartialEq, Eq, Structural)]
pub struct LocationShares {
    pub full_city: Option<Share>,
    pub asn: Option<Share>,
    pub aso: Option<Share>,
}

/// Whether a stored commission is a percentage that fits 8 unsigned bits.
pub open spec fn commission_fits(value: Option<i32>) -> bool {
    value matches Some(c) ==> 0 <= c <= u8::MAX
}

/// A stored commission as a percentage.
pub open spec fn commission_of(value: Option<i32>) -> Option<u8> {
    match value {
        Some(c) => Some(c as u8),
        None => None,
    }
}

/// Whether a stored number, where there is one, fits 64 unsigned bits.
pub open spec fn optional_fits(value: Option<Numeric>) -> bool {
    value matches Some(n) ==> n.as_u64() is Some
}

/// A stored number, where there is one, in 64 unsigned bits.
pub open spec fn optional_of(value: Option<Numeric>) -> Option<u64> {
    match value {
        Some(n) => n.as_u64(),
        None => None,
    }
}

fn narrow_commission(value: Option<i32>) -> (r: Result<Option<u8>, LoadError>)
    ensures
        r == if commission_fits(value) {
            Ok::<Option<u8>, LoadError>(commission_of(value))
        } else {
            Err(LoadError::ExceedsU8)
        },
{
    match value {
        Some(c) => {
            if 0 <= c && c <= 255 {
                Ok(Some(c as u8))
            } else {
                Err(LoadError::ExceedsU8)
            }
        },
        None => Ok(None),
    }
}

fn narrow_optional(value: &Option<Numeric>) -> (r: Result<Option<u64>, LoadError>)
    ensures
        r == if optional_fits(*value) {
            Ok::<Option<u64>, LoadError>(optional_of(*value))
        } else {
            Err(LoadError::ExceedsU64)
        },
{
    match value {
        Some(n) => match n.to_u64() {
            Ok(v) => Ok(Some(v)),
            Err(e) => Err(e),
        },
        None => Ok(None),
    }
}

/// The estimate that belongs to row `at`: the one at that index, or none
/// where the list is shorter.
pub open spec fn yield_at(yields: Seq<Option<YieldEstimate>>, at: int) -> Option<YieldEstimate> {
    if 0 <= at < yields.len() {
        yields[at]
    } else {
        None
    }
}

/// The records filed under `name`, or none where nothing is filed under it.
pub open spec fn records_for<R>(groups: Seq<IdentityRecords<R>>, name: Seq<char>) -> Seq<R> {
    match first_position(group_identities(groups), name) {
        Some(i) => groups[i].records@,
        None => Seq::empty(),
    }
}

/// The identities under which `groups` files its records.
pub open spec fn group_identities<R>(groups: Seq<IdentityRecords<R>>) -> Seq<Seq<char>> {
    Seq::new(groups.len(), |i: int| groups[i].identity@)
}

/// The shares that the concentration figures give for a location, each
/// looked up under the key that the figures were grouped by.
pub open spec fn shares_of(
    concentration: Option<DCConcentrationStats>,
    dc_full_city: Option<String>,
    dc_asn: Option<i32>,
    dc_aso: Option<String>,
) -> LocationShares {
    match concentration {
        Some(c) => LocationShares {
            full_city: share_among(
                c.groups(Grouping::City),
                text_key(dc_full_city),
                c.total_activated_stake,
            ),
            asn: share_among(c.groups(Grouping::Asn), number_key(dc_asn), c.total_activated_stake),
            aso: share_among(c.groups(Grouping::Aso), text_key(dc_aso), c.total_activated_stake),
        },
        None => LocationShares { full_city: None, asn: None, aso: None },
    }
}

impl ValidatorRow {
    /// Whether every stored number of this row fits 64 unsigned bits.
    pub open spec fn numbers_fit(self) -> bool {
        &&& self.epoch.as_u64() is Some
        &&& self.first_epoch.as_u64() is Some
        &&& self.activated_stake.as_u64() is Some
        &&& self.marinade_stake.as_u64() is Some
        &&& self.decentralizer_stake.as_u64() is Some
        &&& self.stake_to_become_superminority.as_u64() is Some
        &&& self.credits.as_u64() is Some
        &&& self.leader_slots.as_u64() is Some
        &&& self.blocks_produced.as_u64() is Some
        &&& optional_fits(self.mnde_votes)
        &&& optional_fits(self.uptime)
        &&& optional_fits(self.downtime)
    }

    /// Whether every commission of this row is a percentage of 8 bits.
    pub open spec fn commissions_fit(self) -> bool {
        &&& commission_fits(self.commission_max_observed)
        &&& commission_fits(self.commission_min_observed)
        &&& commission_fits(self.commission_advertised)
        &&& commission_fits(self.commission_effective)
    }

    /// Whether the epochs from the validator's first one to this row's can be
    /// counted.
    pub open spec fn span_fits(self) -> bool {
        &&& self.first_epoch.as_u64().unwrap() <= self.epoch.as_u64().unwrap()
        &&& self.epoch.as_u64().unwrap() - self.first_epoch.as_u64().unwrap() + 1 <= u64::MAX
    }

    /// Why this row cannot be read, if it cannot.
    pub open spec fn defect(self) -> Option<LoadError> {
        if !self.numbers_fit() {
            Some(LoadError::ExceedsU64)
        } else if !self.commissions_fit() {
            Some(LoadError::ExceedsU8)
        } else if !self.span_fits() {
            Some(LoadError::EpochSpan)
        } else {
            None
        }
    }

    /// The number of epochs from the validator's first one to this row's,
    /// both counted.
    pub open spec fn epochs_count(self) -> u64 {
        (self.epoch.as_u64().unwrap() - self.first_epoch.as_u64().unwrap() + 1) as u64
    }

    /// The history entry of this row, with the given estimate and no ranks.
    pub open spec fn stats(self, yields: Option<YieldEstimate>) -> ValidatorEpochStats {
        ValidatorEpochStats {
            epoch: self.epoch.as_u64().unwrap(),
            commission_max_observed: commission_of(self.commission_max_observed),
            commission_min_observed: commission_of(self.commission_min_observed),
            commission_advertised: commission_of(self.commission_advertised),
            commission_effective: commission_of(self.commission_effective),
            version: self.version,
            mnde_votes: optional_of(self.mnde_votes),
            activated_stake: self.activated_stake.as_u64().unwrap(),
            marinade_stake: self.marinade_stake.as_u64().unwrap(),
            decentralizer_stake: self.decentralizer_stake.as_u64().unwrap(),
            superminority: self.superminority,
            stake_to_become_superminority: self.stake_to_become_superminority.as_u64().unwrap(),
            credits: self.credits.as_u64().unwrap(),
            leader_slots: self.leader_slots.as_u64().unwrap(),
            blocks_produced: self.blocks_produced.as_u64().unwrap(),
            skip_rate: self.skip_rate,
            uptime_pct: self.uptime_pct,
            uptime: optional_of(self.uptime),
            downtime: optional_of(self.downtime),
            apr: match yields {
                Some(y) => Some(y.apr),
                None => None,
            },
            apy: match yields {
                Some(y) => Some(y.apy),
                None => None,
            },
            apy_milli: match yields {
                Some(y) => Some(y.apy_milli),
                None => None,
            },
            marinade_score: 0,
            rank_apy: None,
            rank_marinade_score: None,
            rank_activated_stake: None,
        }
    }

    /// The record that this row opens for its validator, around the given
    /// history and warnings: no score, no aggregated commission, no averages.
    pub open spec fn record(
        self,
        shares: LocationShares,
        epoch_stats: Vec<ValidatorEpochStats>,
        warnings: Vec<WarningRecord>,
    ) -> ValidatorRecord {
        ValidatorRecord {
            identity: self.identity,
            vote_account: self.vote_account,
            info_name: self.info_name,
            info_url: self.info_url,
            info_keybase: self.info_keybase,
            node_ip: self.node_ip,
            dc_coordinates_lat: self.dc_coordinates_lat,
            dc_coordinates_lon: self.dc_coordinates_lon,
            dc_continent: self.dc_continent,
            dc_country_iso: self.dc_country_iso,
            dc_country: self.dc_country,
            dc_city: self.dc_city,
            dc_full_city: self.dc_full_city,
            dc_asn: self.dc_asn,
            dc_aso: self.dc_aso,
            dcc_full_city: shares.full_city,
            dcc_asn: shares.asn,
            dcc_aso: shares.aso,
            commission_max_observed: commission_of(self.commission_max_observed),
            commission_min_observed: commission_of(self.commission_min_observed),
            commission_advertised: commission_of(self.commission_advertised),
            commission_effective: commission_of(self.commission_effective),
            commission_aggregated: None,
            version: self.version,
            mnde_votes: optional_of(self.mnde_votes),
            activated_stake: self.activated_stake.as_u64().unwrap(),
            marinade_stake: self.marinade_stake.as_u64().unwrap(),
            decentralizer_stake: self.decentralizer_stake.as_u64().unwrap(),
            superminority: self.superminority,
            credits: self.credits.as_u64().unwrap(),
            marinade_score: 0,
            epoch_stats,
            warnings,
            epochs_count: self.epochs_count(),
            avg_uptime_pct: None,
            avg_apy: None,
        }
    }

    /// Narrows the stored numbers of this row into its history entry and
    /// counts the validator's epochs. Fails, rather than wrap or clamp, on a
    /// number that does not fit its field.
    pub fn narrow(&self, yields: Option<YieldEstimate>) -> (r: Result<
        (ValidatorEpochStats, u64),
        LoadError,
    >)
        ensures
            match r {
                Ok((stats, epochs_count)) => {
                    &&& self.defect() is None
                    &&& stats == self.stats(yields)
                    &&& epochs_count == self.epochs_count()
                },
                Err(e) => self.defect() == Some(e),
            },
    {
        let epoch = match self.epoch.to_u64() {
            Ok(v) => v,
            Err(e) => {
                return Err(e);
            },
        };
        let first_epoch = match self.first_epoch.to_u64() {
            Ok(v) => v,
            Err(e) => {
                return Err(e);
            },
        };
        let activated_stake = match self.activated_stake.to_u64() {
            Ok(v) => v,
            Err(e) => {
                return Err(e);
            },
        };
        let marinade_stake = match self.marinade_stake.to_u64() {
            Ok(v) => v,
            Err(e) => {
                return Err(e);
            },
        };
        let decentralizer_stake = match self.decentralizer_stake.to_u64() {
            Ok(v) => v,
            Err(e) => {
                return Err(e);
            },
        };
        let stake_to_become_superminority = match self.stake_to_become_superminority.to_u64() {
            Ok(v) => v,
            Err(e) => {
                return Err(e);
            },
        };
        let credits = match self.credits.to_u64() {
            Ok(v) => v,
            Err(e) => {
                return Err(e);
            },
        };
        let leader_slots = match self.leader_slots.to_u64() {
            Ok(v) => v,
            Err(e) => {
                return Err(e);
            },
        };
        let blocks_produced = match self.blocks_produced.to_u64() {
            Ok(v) => v,
            Err(e) => {
                return Err(e);
            },
        };
        let mnde_votes = match narrow_optional(&self.mnde_votes) {
            Ok(v) => v,
            Err(e) => {
                return Err(e);
            },
        };
        let uptime = match narrow_optional(&self.uptime) {
            Ok(v) => v,
            Err(e) => {
                return Err(e);
            },
        };
        let downtime = match narrow_optional(&self.downtime) {
            Ok(v) => v,
            Err(e) => {
                return Err(e);
            },
        };
        let commission_max_observed = match narrow_commission(self.commission_max_observed) {
            Ok(v) => v,
            Err(e) => {
                return Err(e);
            },
        };
        let commission_min_observed = match narrow_commission(self.commission_min_observed) {
            Ok(v) => v,
            Err(e) => {
                return Err(e);
            },
        };
        let commission_advertised = match narrow_commission(self.commission_advertised) {
            Ok(v) => v,
            Err(e) => {
                return Err(e);
            },
        };
        let commission_effective = match narrow_commission(self.commission_effective) {
            Ok(v) => v,
            Err(e) => {
                return Err(e);
            },
        };
        if first_epoch > epoch || epoch - first_epoch == u64::MAX {
            return Err(LoadError::EpochSpan);
        }
        let (apr, apy, apy_milli) = match yields {
            Some(y) => (Some(y.apr), Some(y.apy), Some(y.apy_milli)),
            None => (None, None, None),
        };
        Ok(
            (
                ValidatorEpochStats {
                    epoch,
                    commission_max_observed,
                    commission_min_observed,
                    commission_advertised,
                    commission_effective,
                    version: clone_text(&self.version),
                    mnde_votes,
                    activated_stake,
                    marinade_stake,
                    decentralizer_stake,
                    superminority: self.superminority,
                    stake_to_become_superminority,
                    credits,
                    leader_slots,
                    blocks_produced,
                    skip_rate: self.skip_rate,
                    uptime_pct: self.uptime_pct,
                    uptime,
                    downtime,
                    apr,
                    apy,
                    apy_milli,
                    marinade_score: 0,
                    rank_apy: None,
                    rank_marinade_score: None,
                    rank_activated_stake: None,
                },
                epoch - first_epoch + 1,
            ),
        )
    }
}

impl Epochal for ValidatorRow {
    open spec fn stored_epoch(&self) -> Numeric {
        self.epoch
    }

    fn epoch_of(&self) -> (r: Numeric) {
        self.epoch
    }
}

/// The identities of all rows.
pub open spec fn row_identities(rows: Seq<ValidatorRow>) -> Seq<Seq<char>> {
    Seq::new(rows.len(), |i: int| rows[i].identity@)
}

/// The outcome of reading each row.
pub open spec fn row_defects(rows: Seq<ValidatorRow>) -> Seq<Option<LoadError>> {
    Seq::new(rows.len(), |i: int| rows[i].defect())
}

/// The history entry of each row, each with the estimate that belongs to it.
pub open spec fn row_stats(rows: Seq<ValidatorRow>, yields: Seq<Option<YieldEstimate>>) -> Seq<
    ValidatorEpochStats,
> {
    Seq::new(rows.len(), |i: int| rows[i].stats(yield_at(yields, i)))
}

impl ValidatorRecord {
    /// Whether this is the record of the validator `name` after the first
    /// `upto` rows: opened by the first of its rows, with one history entry
    /// per row of the validator, in the order of the rows.
    pub open spec fn folds(
        self,
        rows: Seq<ValidatorRow>,
        upto: int,
        yields: Seq<Option<YieldEstimate>>,
        warnings: Seq<IdentityRecords<WarningRecord>>,
        concentration: Option<DCConcentrationStats>,
        name: Seq<char>,
    ) -> bool {
        let at = positions(row_identities(rows).take(upto), name);
        let first = rows[at[0]];
        &&& at.len() > 0
        &&& self.identity@ == name
        &&& self.epoch_stats@ == pick(row_stats(rows, yields), at)
        &&& self.warnings@ == records_for(warnings, name)
        &&& self == first.record(
            shares_of(concentration, first.dc_full_city, first.dc_asn, first.dc_aso),
            self.epoch_stats,
            self.warnings,
        )
    }
}

/// Whether `records` is what the first `upto` rows fold into: one record per
/// validator, in the order in which the validators first appear.
pub open spec fn aggregates(
    records: Seq<ValidatorRecord>,
    rows: Seq<ValidatorRow>,
    upto: int,
    yields: Seq<Option<YieldEstimate>>,
    warnings: Seq<IdentityRecords<WarningRecord>>,
    concentration: Option<DCConcentrationStats>,
) -> bool {
    let names = distinct_keys(row_identities(rows).take(upto));
    &&& records.len() == names.len()
    &&& forall|k: int|
        0 <= k < records.len() ==> (#[trigger] records[k]).folds(
            rows,
            upto,
            yields,
            warnings,
            concentration,
            names[k],
        )
}

/// The identities of a list of records.
pub open spec fn record_identities(records: Seq<ValidatorRecord>) -> Seq<Seq<char>> {
    Seq::new(records.len(), |i: int| records[i].identity@)
}

/// The place of the first record with the given identity.
pub fn find_record(records: &Vec<ValidatorRecord>, identity: &String) -> (r: Option<usize>)
    ensures
        match r {
            Some(k) => first_position(record_identities(records@), identity@) == Some(k as int)
                && k < records.len() && records[k as int].identity@ == identity@,
            None => first_position(record_identities(records@), identity@) is None && forall|
                j: int,
            |
                0 <= j < records.len() ==> records[j].identity@ != identity@,
        },
{
    let ghost names = record_identities(records@);
    let mut i: usize = 0;
    while i < records.len()
        invariant
            i <= records.len(),
            names == record_identities(records@),
            forall|j: int| 0 <= j < i ==> names[j] != identity@,
        decreases records.len() - i,
    {
        if records[i].identity == *identity {
            proof {
                lemma_first_position(names, identity@, i as int);
            }
            return Some(i);
        }
        i += 1;
    }
    proof {
        lemma_no_position(names, identity@);
        assert forall|j: int| 0 <= j < records.len() implies records[j].identity@
            != identity@ by {
            assert(names[j] != identity@);
        }
    }
    None
}

/// A copy of the warnings filed under `identity`.
pub fn warnings_of(warnings: &Vec<IdentityRecords<WarningRecord>>, identity: &String) -> (r: Vec<
    WarningRecord,
>)
    ensures
        r@ == records_for(warnings@, identity@),
{
    let ghost names = group_identities(warnings@);
    let mut i: usize = 0;
    while i < warnings.len()
        invariant
            i <= warnings.len(),
            names == group_identities(warnings@),
            forall|j: int| 0 <= j < i ==> names[j] != identity@,
        decreases warnings.len() - i,
    {
        if warnings[i].identity == *identity {
            proof {
                lemma_first_position(names, identity@, i as int);
            }
            return clone_warnings(&warnings[i].records);
        }
        i += 1;
    }
    proof {
        lemma_no_position(names, identity@);
    }
    Vec::new()
}

/// The shares of the total stake that sit with a location, or none where
/// there are no concentration figures.
pub fn location_shares(
    concentration: &Option<DCConcentrationStats>,
    dc_full_city: &Option<String>,
    dc_asn: Option<i32>,
    dc_aso: &Option<String>,
) -> (r: LocationShares)
    ensures
        r == shares_of(*concentration, *dc_full_city, dc_asn, *dc_aso),
{
    match concentration {
        Some(c) => LocationShares {
            full_city: c.concentration(Grouping::City, &text_key_of(dc_full_city)),
            asn: c.concentration(Grouping::Asn, &number_key_of(dc_asn)),
            aso: c.concentration(Grouping::Aso, &text_key_of(dc_aso)),
        },
        None => LocationShares { full_city: None, asn: None, aso: None },
    }
}

fn open_record(
    row: &ValidatorRow,
    stats: ValidatorEpochStats,
    epochs_count: u64,
    warnings: &Vec<IdentityRecords<WarningRecord>>,
    concentration: &Option<DCConcentrationStats>,
    estimate: Ghost<Option<YieldEstimate>>,
) -> (r: ValidatorRecord)
    requires
        row.defect() is None,
        stats == row.stats(estimate@),
        epochs_count == row.epochs_count(),
    ensures
        r.epoch_stats@ == seq![stats],
        r.warnings@ == records_for(warnings@, row.identity@),
        r == row.record(
            shares_of(*concentration, row.dc_full_city, row.dc_asn, row.dc_aso),
            r.epoch_stats,
            r.warnings,
        ),
{
    let shares = location_shares(concentration, &row.dc_full_city, row.dc_asn, &row.dc_aso);
    let mut record = ValidatorRecord {
        identity: row.identity.clone(),
        vote_account: row.vote_account.clone(),
        info_name: clone_text(&row.info_name),
        info_url: clone_text(&row.info_url),
        info_keybase: clone_text(&row.info_keybase),
        node_ip: clone_text(&row.node_ip),
        dc_coordinates_lat: row.dc_coordinates_lat,
        dc_coordinates_lon: row.dc_coordinates_lon,
        dc_continent: clone_text(&row.dc_continent),
        dc_country_iso: clone_text(&row.dc_country_iso),
        dc_country: clone_text(&row.dc_country),
        dc_city: clone_text(&row.dc_city),
        dc_full_city: clone_text(&row.dc_full_city),
        dc_asn: row.dc_asn,
        dc_aso: clone_text(&row.dc_aso),
        dcc_full_city: shares.full_city,
        dcc_asn: shares.asn,
        dcc_aso: shares.aso,
        commission_max_observed: stats.commission_max_observed,
        commission_min_observed: stats.commission_min_observed,
        commission_advertised: stats.commission_advertised,
        commission_effective: stats.commission_effective,
        commission_aggregated: None,
        version: clone_text(&row.version),
        mnde_votes: stats.mnde_votes,
        activated_stake: stats.activated_stake,
        marinade_stake: stats.marinade_stake,
        decentralizer_stake: stats.decentralizer_stake,
        superminority: row.superminority,
        credits: stats.credits,
        marinade_score: 0,
        epoch_stats: Vec::new(),
        warnings: warnings_of(warnings, &row.identity),
        epochs_count,
        avg_uptime_pct: None,
        avg_apy: None,
    };
    record.epoch_stats.push(stats);
    record
}

/// Folds flat per-epoch rows into one record per validator. The first row of
/// a validator opens its record and fills what does not change from epoch to
/// epoch; every row of the validator, that one included, adds one entry to
/// the record's history. `yields[i]` is the estimate for `rows[i]`. Fails
/// with the error of the first row that cannot be read.
pub fn aggregate_rows(
    rows: &Vec<ValidatorRow>,
    yields: &Vec<Option<YieldEstimate>>,
    warnings: &Vec<IdentityRecords<WarningRecord>>,
    concentration: &Option<DCConcentrationStats>,
) -> (r: Result<Vec<ValidatorRecord>, LoadError>)
    ensures
        stops_at_first_failure(r, row_defects(rows@)),
        r matches Ok(records) ==> aggregates(
            records@,
            rows@,
            rows.len() as int,
            yields@,
            warnings@,
            *concentration,
        ),
{
    let mut records: Vec<ValidatorRecord> = Vec::new();
    let ghost ids = row_identities(rows@);
    let ghost outcomes = row_defects(rows@);
    let mut i: usize = 0;
    while i < rows.len()
        invariant
            i <= rows.len(),
            ids == row_identities(rows@),
            outcomes == row_defects(rows@),
            forall|j: int| 0 <= j < i ==> outcomes[j] is None,
            aggregates(records@, rows@, i as int, yields@, warnings@, *concentration),
        decreases rows.len() - i,
    {
        let row = &rows[i];
        let estimate = if i < yields.len() {
            yields[i]
        } else {
            None
        };
        let (stats, epochs_count) = match row.narrow(estimate) {
            Ok(v) => v,
            Err(e) => {
                assert(fails_first_at(outcomes, i as int));
                return Err(e);
            },
        };
        let ghost before = records@;
        let ghost names = distinct_keys(ids.take(i as int));
        let ghost next = i + 1;
        proof {
            assert(ids.take(next) =~= ids.take(i as int).push(ids[i as int]));
            lemma_distinct_keys(ids.take(i as int));
            lemma_distinct_keys_push(ids.take(i as int), ids[i as int]);
            assert(record_identities(before) =~= names);
            assert forall|k: int| 0 <= k < names.len() implies positions(
                ids.take(next),
                #[trigger] names[k],
            ) == if names[k] == ids[i as int] {
                positions(ids.take(i as int), names[k]).push(i as int)
            } else {
                positions(ids.take(i as int), names[k])
            } by {
                lemma_positions_push(ids.take(i as int), ids[i as int], names[k]);
            }
        }
        match find_record(&records, &row.identity) {
            Some(k) => {
                records[k].epoch_stats.push(stats);
                proof {
                    let at = positions(ids.take(i as int), names[k as int]);
                    assert(pick(row_stats(rows@, yields@), at.push(i as int)) =~= pick(
                        row_stats(rows@, yields@),
                        at,
                    ).push(stats));
                }
            },
            None => {
                let record = open_record(
                    row,
                    stats,
                    epochs_count,
                    warnings,
                    concentration,
                    Ghost(estimate),
                );
                records.push(record);
                proof {
                    assert(!names.contains(ids[i as int]));
                    lemma_positions_nonempty(ids.take(i as int), ids[i as int]);
                    lemma_positions_push(ids.take(i as int), ids[i as int], ids[i as int]);
                    let at = positions(ids.take(next), ids[i as int]);
                    assert(pick(row_stats(rows@, yields@), at) =~= seq![stats]);
                }
            },
        }
        i += 1;
    }
    Ok(records)
}

/// The row that opens a validator's record is the same for every window that
/// holds the validator: the first row of the validator among the first `upto`
/// rows is its first row among all rows.
pub proof fn lemma_first_row_ignores_window(rows: Seq<ValidatorRow>, upto: int, name: Seq<char>)
    requires
        0 <= upto <= rows.len(),
        positions(row_identities(rows).take(upto), name).len() > 0,
    ensures
        positions(row_identities(rows), name).len() > 0,
        positions(row_identities(rows), name)[0] == positions(
            row_identities(rows).take(upto),
            name,
        )[0],
{
    let ids = row_identities(rows);
    let first = positions(ids.take(upto), name)[0];
    lemma_positions(ids.take(upto), name);
    assert forall|j: int| 0 <= j < first implies ids[j] != name by {
        if ids[j] == name {
            assert(ids.take(upto)[j] == name);
            assert(positions(ids.take(upto), name).contains(j));
        }
    }
    lemma_first_position(ids, name, first);
}

/// A validator's count of epochs does not depend on the window: the records
/// folded from a shorter run of the same rows give every validator they hold
/// the count that the records folded from all rows give it.
pub proof fn lemma_epochs_count_ignores_window(
    rows: Seq<ValidatorRow>,
    upto: int,
    wide: Seq<ValidatorRecord>,
    narrow: Seq<ValidatorRecord>,
    yields: Seq<Option<YieldEstimate>>,
    warnings: Seq<IdentityRecords<WarningRecord>>,
    concentration: Option<DCConcentrationStats>,
    later_yields: Seq<Option<YieldEstimate>>,
    later_warnings: Seq<IdentityRecords<WarningRecord>>,
    later_concentration: Option<DCConcentrationStats>,
    k: int,
    j: int,
)
    requires
        0 <= upto <= rows.len(),
        aggregates(wide, rows, rows.len() as int, yields, warnings, concentration),
        aggregates(
            narrow,
            rows.take(upto),
            upto,
            later_yields,
            later_warnings,
            later_concentration,
        ),
        0 <= k < narrow.len(),
        0 <= j < wide.len(),
        narrow[k].identity@ == wide[j].identity@,
    ensures
        narrow[k].epochs_count == wide[j].epochs_count,
{
    let ids = row_identities(rows);
    let name = narrow[k].identity@;
    assert(row_identities(rows.take(upto)).take(upto) =~= ids.take(upto));
    assert(ids.take(rows.len() as int) =~= ids);
    lemma_first_row_ignores_window(rows, upto, name);
    lemma_positions(ids.take(upto), name);
}

/// Where the rows come latest epoch first, a validator's count of epochs
/// runs from the first epoch in which the store has ever seen it to the
/// latest epoch that the rows hold for it, both counted.
pub proof fn lemma_epochs_count_spans_history(
    rows: Seq<ValidatorRow>,
    records: Seq<ValidatorRecord>,
    yields: Seq<Option<YieldEstimate>>,
    warnings: Seq<IdentityRecords<WarningRecord>>,
    concentration: Option<DCConcentrationStats>,
    k: int,
)
    requires
        latest_first(rows),
        aggregates(records, rows, rows.len() as int, yields, warnings, concentration),
        0 <= k < records.len(),
    ensures
        ({
            let at = positions(row_identities(rows), records[k].identity@);
            &&& at.len() > 0
            &&& forall|p: int|
                0 <= p < rows.len() && (#[trigger] rows[p]).identity@ == records[k].identity@
                    ==> rows[p].epoch.as_u64().unwrap() <= rows[at[0]].epoch.as_u64().unwrap()
            &&& records[k].epochs_count == rows[at[0]].epochs_count()
        }),
{
    let ids = row_identities(rows);
    assert(ids.take(rows.len() as int) =~= ids);
    let at = positions(ids, records[k].identity@);
    lemma_positions(ids, records[k].identity@);
    assert forall|p: int|
        0 <= p < rows.len() && (#[trigger] rows[p]).identity@
            == records[k].identity@ implies rows[p].epoch.as_u64().unwrap()
        <= rows[at[0]].epoch.as_u64().unwrap() by {
        assert(ids[p] == records[k].identity@);
    }
}

/// A validator's count of epochs does not depend on how far the window looks
/// back: where the rows come latest epoch first, the records folded from a
/// narrower window give every validator they hold the count that the records
/// folded from a wider window of the same rows give it.
pub proof fn lemma_epochs_count_ignores_lookback(
    rows: Seq<ValidatorRow>,
    wide: Lookback,
    narrow: Lookback,
    wide_records: Seq<ValidatorRecord>,
    narrow_records: Seq<ValidatorRecord>,
    yields: Seq<Option<YieldEstimate>>,
    warnings: Seq<IdentityRecords<WarningRecord>>,
    concentration: Option<DCConcentrationStats>,
    later_yields: Seq<Option<YieldEstimate>>,
    later_warnings: Seq<IdentityRecords<WarningRecord>>,
    later_concentration: Option<DCConcentrationStats>,
    k: int,
    j: int,
)
    requires
        latest_first(rows),
        forall|i: int| 0 <= i < rows.len() ==> (#[trigger] rows[i]).epoch.as_u64() is Some,
        wide.last_epoch == narrow.last_epoch,
        narrow.epochs <= wide.epochs,
        aggregates(
            wide_records,
            rows_in_window(rows, wide),
            rows_in_window(rows, wide).len() as int,
            yields,
            warnings,
            concentration,
        ),
        aggregates(
            narrow_records,
            rows_in_window(rows, narrow),
            rows_in_window(rows, narrow).len() as int,
            later_yields,
            later_warnings,
            later_concentration,
        ),
        0 <= k < narrow_records.len(),
        0 <= j < wide_records.len(),
        narrow_records[k].identity@ == wide_records[j].identity@,
    ensures
        narrow_records[k].epochs_count == wide_records[j].epochs_count,
{
    lemma_window_is_prefix(rows, wide);
    lemma_window_is_prefix(rows, narrow);
    lemma_narrower_window_holds_less(rows, wide, narrow);
    let wider = rows_in_window(rows, wide);
    let narrower = rows_in_window(rows, narrow);
    assert(narrower =~= wider.take(narrower.len() as int));
    lemma_epochs_count_ignores_window(
        wider,
        narrower.len() as int,
        wide_records,
        narrow_records,
        yields,
        warnings,
        concentration,
        later_yields,
        later_warnings,
        later_concentration,
        k,
        j,
    );
}

} // verus!
