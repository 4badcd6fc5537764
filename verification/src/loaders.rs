//! The loaders: flat rows of one kind, filed by validator identity.
//!
//! Each loader keeps the rows of a validator in the order in which they were
//! handed in, and the validators in the order in which they first appear.

use crate::grouping::{
    filed, grouped, keys_of, lemma_first_position, lemma_grouped_push, lemma_no_position,
};
use crate::numeric::{
    fails_first_at, lemma_passes_in_sequence, stops_at_first_failure, LoadError, Numeric,
};
use crate::records::{
    clone_text, CommissionRecord, IdentityRecords, Timestamp, UptimeRecord, VersionRecord,
    WarningRecord,
};
use crate::validators::commission_fits;
use crate::window::{
    epoch_defects, in_window, keep_in_window, lemma_kept_rows_are_in_window, rows_in_window,
    Epochal, Lookback,
};
use vstd::prelude::*;

verus! {

/// The slot at which a commission that was in effect for an epoch is dated:
/// the number of slots of an epoch.
pub const SLOTS_PER_EPOCH: u64 = 432000;

/// A list of groups as pairs of identity and records.
pub open spec fn groups_view<R>(groups: Seq<IdentityRecords<R>>) -> Seq<(Seq<char>, Seq<R>)> {
    Seq::new(groups.len(), |i: int| (groups[i].identity@, groups[i].records@))
}

/// Files `record` under `identity`: at the end of the group of that identity,
/// or in a new last group.
pub fn file_record<R>(groups: &mut Vec<IdentityRecords<R>>, identity: String, record: R)
    ensures
        groups_view(final(groups)@) == filed(groups_view(old(groups)@), identity@, record),
{
    let ghost names = keys_of(groups_view(groups@));
    let mut i: usize = 0;
    while i < groups.len()
        invariant
            i <= groups.len(),
            groups@ == old(groups)@,
            names == keys_of(groups_view(groups@)),
            forall|j: int| 0 <= j < i ==> names[j] != identity@,
        decreases groups.len() - i,
    {
        if groups[i].identity == identity {
            proof {
                lemma_first_position(names, identity@, i as int);
            }
            groups[i].records.push(record);
            return ;
        }
        i += 1;
    }
    proof {
        lemma_no_position(names, identity@);
    }
    let mut records: Vec<R> = Vec::new();
    records.push(record);
    groups.push(IdentityRecords { identity, records });
}

/// One uptime interval, as stored.
#[derive(Debug)]
pub struct UptimeRow {
    pub identity: String,
    pub status: String,
    pub epoch: Numeric,
    pub start_at: Timestamp,
    pub end_at: Timestamp,
}

impl UptimeRow {
    /// Why this row cannot be read, if it cannot.
    pub open spec fn defect(self) -> Option<LoadError> {
        if self.epoch.as_u64() is None {
            Some(LoadError::ExceedsU64)
        } else {
            None
        }
    }

    /// The record of this row.
    pub open spec fn record(self) -> UptimeRecord {
        UptimeRecord {
            epoch: self.epoch.as_u64().unwrap(),
            status: self.status,
            start_at: self.start_at,
            end_at: self.end_at,
        }
    }
}

/// The outcome of reading each row.
pub open spec fn uptime_defects(rows: Seq<UptimeRow>) -> Seq<Option<LoadError>> {
    Seq::new(rows.len(), |i: int| rows[i].defect())
}

/// The identity of each row.
pub open spec fn uptime_identities(rows: Seq<UptimeRow>) -> Seq<Seq<char>> {
    Seq::new(rows.len(), |i: int| rows[i].identity@)
}

/// The record of each row.
pub open spec fn uptime_records(rows: Seq<UptimeRow>) -> Seq<UptimeRecord> {
    Seq::new(rows.len(), |i: int| rows[i].record())
}

/// The uptime intervals of each validator, from all rows handed in. Fails with
/// the error of the first row that cannot be read.
pub fn file_uptimes(rows: &Vec<UptimeRow>) -> (r: Result<
    Vec<IdentityRecords<UptimeRecord>>,
    LoadError,
>)
    ensures
        stops_at_first_failure(r, uptime_defects(rows@)),
        r matches Ok(groups) ==> groups_view(groups@) == grouped(
            uptime_identities(rows@),
            uptime_records(rows@),
        ),
{
    let mut groups: Vec<IdentityRecords<UptimeRecord>> = Vec::new();
    let ghost outcomes = uptime_defects(rows@);
    let ghost names = uptime_identities(rows@);
    let ghost records = uptime_records(rows@);
    let mut i: usize = 0;
    while i < rows.len()
        invariant
            i <= rows.len(),
            outcomes == uptime_defects(rows@),
            names == uptime_identities(rows@),
            records == uptime_records(rows@),
            forall|j: int| 0 <= j < i ==> outcomes[j] is None,
            groups_view(groups@) == grouped(names.take(i as int), records.take(i as int)),
        decreases rows.len() - i,
    {
        let row = &rows[i];
        let epoch = match row.epoch.to_u64() {
            Ok(v) => v,
            Err(e) => {
                assert(fails_first_at(outcomes, i as int));
                return Err(e);
            },
        };
        let record = UptimeRecord {
            epoch,
            status: row.status.clone(),
            start_at: row.start_at,
            end_at: row.end_at,
        };
        proof {
            lemma_grouped_push(
                names.take(i as int),
                records.take(i as int),
                names[i as int],
                records[i as int],
            );
            assert(names.take(i + 1) =~= names.take(i as int).push(names[i as int]));
            assert(records.take(i + 1) =~= records.take(i as int).push(records[i as int]));
        }
        file_record(&mut groups, row.identity.clone(), record);
        i += 1;
    }
    proof {
        assert(names.take(i as int) =~= names);
        assert(records.take(i as int) =~= records);
    }
    Ok(groups)
}

/// One change of version, as stored.
#[derive(Debug)]
pub struct VersionRow {
    pub identity: String,
    pub version: Option<String>,
    pub epoch: Numeric,
    pub created_at: Timestamp,
}

impl VersionRow {
    /// Why this row cannot be read, if it cannot.
    pub open spec fn defect(self) -> Option<LoadError> {
        if self.epoch.as_u64() is None {
            Some(LoadError::ExceedsU64)
        } else {
            None
        }
    }

    /// The record of this row.
    pub open spec fn record(self) -> VersionRecord {
        VersionRecord {
            epoch: self.epoch.as_u64().unwrap(),
            version: self.version,
            created_at: self.created_at,
        }
    }
}

/// The outcome of reading each row.
pub open spec fn version_defects(rows: Seq<VersionRow>) -> Seq<Option<LoadError>> {
    Seq::new(rows.len(), |i: int| rows[i].defect())
}

/// The identity of each row.
pub open spec fn version_identities(rows: Seq<VersionRow>) -> Seq<Seq<char>> {
    Seq::new(rows.len(), |i: int| rows[i].identity@)
}

/// The record of each row.
pub open spec fn version_records(rows: Seq<VersionRow>) -> Seq<VersionRecord> {
    Seq::new(rows.len(), |i: int| rows[i].record())
}

/// The version changes of each validator, from all rows handed in. Fails with
/// the error of the first row that cannot be read.
pub fn file_versions(rows: &Vec<VersionRow>) -> (r: Result<
    Vec<IdentityRecords<VersionRecord>>,
    LoadError,
>)
    ensures
        stops_at_first_failure(r, version_defects(rows@)),
        r matches Ok(groups) ==> groups_view(groups@) == grouped(
            version_identities(rows@),
            version_records(rows@),
        ),
{
    let mut groups: Vec<IdentityRecords<VersionRecord>> = Vec::new();
    let ghost outcomes = version_defects(rows@);
    let ghost names = version_identities(rows@);
    let ghost records = version_records(rows@);
    let mut i: usize = 0;
    while i < rows.len()
        invariant
            i <= rows.len(),
            outcomes == version_defects(rows@),
            names == version_identities(rows@),
            records == version_records(rows@),
            forall|j: int| 0 <= j < i ==> outcomes[j] is None,
            groups_view(groups@) == grouped(names.take(i as int), records.take(i as int)),
        decreases rows.len() - i,
    {
        let row = &rows[i];
        let epoch = match row.epoch.to_u64() {
            Ok(v) => v,
            Err(e) => {
                assert(fails_first_at(outcomes, i as int));
                return Err(e);
            },
        };
        let record = VersionRecord {
            epoch,
            version: clone_text(&row.version),
            created_at: row.created_at,
        };
        proof {
            lemma_grouped_push(
                names.take(i as int),
                records.take(i as int),
                names[i as int],
                records[i as int],
            );
            assert(names.take(i + 1) =~= names.take(i as int).push(names[i as int]));
            assert(records.take(i + 1) =~= records.take(i as int).push(records[i as int]));
        }
        file_record(&mut groups, row.identity.clone(), record);
        i += 1;
    }
    proof {
        assert(names.take(i as int) =~= names);
        assert(records.take(i as int) =~= records);
    }
    Ok(groups)
}

/// One warning, as stored.
#[derive(Debug)]
pub struct WarningRow {
    pub identity: String,
    pub code: String,
    pub message: String,
    pub details: Option<String>,
    pub created_at: Timestamp,
}

impl WarningRow {
    /// The record of this row.
    pub open spec fn record(self) -> WarningRecord {
        WarningRecord {
            code: self.code,
            message: self.message,
            details: self.details,
            created_at: self.created_at,
        }
    }
}

/// The identity of each row.
pub open spec fn warning_identities(rows: Seq<WarningRow>) -> Seq<Seq<char>> {
    Seq::new(rows.len(), |i: int| rows[i].identity@)
}

/// The record of each row.
pub open spec fn warning_records(rows: Seq<WarningRow>) -> Seq<WarningRecord> {
    Seq::new(rows.len(), |i: int| rows[i].record())
}

/// The warnings of each validator.
pub fn load_warnings(rows: &Vec<WarningRow>) -> (groups: Vec<IdentityRecords<WarningRecord>>)
    ensures
        groups_view(groups@) == grouped(warning_identities(rows@), warning_records(rows@)),
{
    let mut groups: Vec<IdentityRecords<WarningRecord>> = Vec::new();
    let ghost names = warning_identities(rows@);
    let ghost records = warning_records(rows@);
    let mut i: usize = 0;
    while i < rows.len()
        invariant
            i <= rows.len(),
            names == warning_identities(rows@),
            records == warning_records(rows@),
            groups_view(groups@) == grouped(names.take(i as int), records.take(i as int)),
        decreases rows.len() - i,
    {
        let row = &rows[i];
        let record = WarningRecord {
            code: row.code.clone(),
            message: row.message.clone(),
            details: clone_text(&row.details),
            created_at: row.created_at,
        };
        proof {
            lemma_grouped_push(
                names.take(i as int),
                records.take(i as int),
                names[i as int],
                records[i as int],
            );
            assert(names.take(i + 1) =~= names.take(i as int).push(names[i as int]));
            assert(records.take(i + 1) =~= records.take(i as int).push(records[i as int]));
        }
        file_record(&mut groups, row.identity.clone(), record);
        i += 1;
    }
    proof {
        assert(names.take(i as int) =~= names);
        assert(records.take(i as int) =~= records);
    }
    groups
}

/// One change of commission, as stored.
#[derive(Debug)]
pub struct CommissionRow {
    pub identity: String,
    pub commission: i32,
    pub epoch: Numeric,
    pub epoch_slot: Numeric,
    pub created_at: Timestamp,
}

/// The commission that was in effect for a validator in one epoch, as stored
/// with the validator's figures of that epoch.
#[derive(Debug)]
pub struct EffectiveCommissionRow {
    pub identity: String,
    pub commission_effective: Option<i32>,
    pub epoch: Numeric,
    pub updated_at: Timestamp,
}

impl CommissionRow {
    /// Why this row cannot be read, if it cannot.
    pub open spec fn defect(self) -> Option<LoadError> {
        if self.epoch.as_u64() is None || self.epoch_slot.as_u64() is None {
            Some(LoadError::ExceedsU64)
        } else if !commission_fits(Some(self.commission)) {
            Some(LoadError::ExceedsU8)
        } else {
            None
        }
    }

    /// The record of this row.
    pub open spec fn record(self) -> CommissionRecord {
        CommissionRecord {
            epoch: self.epoch.as_u64().unwrap(),
            epoch_slot: self.epoch_slot.as_u64().unwrap(),
            commission: self.commission as u8,
            created_at: self.created_at,
        }
    }

    /// Narrows the stored numbers of this row.
    pub fn narrow(&self) -> (r: Result<CommissionRecord, LoadError>)
        ensures
            r == match self.defect() {
                Some(e) => Err::<CommissionRecord, LoadError>(e),
                None => Ok(self.record()),
            },
    {
        let epoch = match self.epoch.to_u64() {
            Ok(v) => v,
            Err(e) => {
                return Err(e);
            },
        };
        let epoch_slot = match self.epoch_slot.to_u64() {
            Ok(v) => v,
            Err(e) => {
                return Err(e);
            },
        };
        if self.commission < 0 || self.commission > 255 {
            return Err(LoadError::ExceedsU8);
        }
        Ok(
            CommissionRecord {
                epoch,
                epoch_slot,
                commission: self.commission as u8,
                created_at: self.created_at,
            },
        )
    }
}

impl EffectiveCommissionRow {
    /// Whether this row says what commission was in effect.
    pub open spec fn known(self) -> bool {
        self.commission_effective is Some
    }

    /// Why this row cannot be read, if it cannot.
    pub open spec fn defect(self) -> Option<LoadError> {
        if self.epoch.as_u64() is None {
            Some(LoadError::ExceedsU64)
        } else if !commission_fits(self.commission_effective) {
            Some(LoadError::ExceedsU8)
        } else {
            None
        }
    }

    /// The change of commission that stands for this row: to the commission
    /// in effect, dated at the last slot of the epoch.
    pub open spec fn record(self) -> CommissionRecord {
        CommissionRecord {
            epoch: self.epoch.as_u64().unwrap(),
            epoch_slot: SLOTS_PER_EPOCH,
            commission: self.commission_effective.unwrap() as u8,
            created_at: self.updated_at,
        }
    }
}

/// One entry of the merged commission history before it is read: its
/// identity, what reading it gives, and why it cannot be read.
pub ghost struct CommissionEntry {
    pub identity: Seq<char>,
    pub record: CommissionRecord,
    pub defect: Option<LoadError>,
}

/// The entries that the change log gives: one per row.
pub open spec fn logged_entries(changes: Seq<CommissionRow>) -> Seq<CommissionEntry> {
    Seq::new(
        changes.len(),
        |i: int|
            CommissionEntry {
                identity: changes[i].identity@,
                record: changes[i].record(),
                defect: changes[i].defect(),
            },
    )
}

/// The entries that the per-epoch figures give: one per row that says what
/// commission was in effect.
pub open spec fn effective_entries(effective: Seq<EffectiveCommissionRow>) -> Seq<CommissionEntry>
    decreases effective.len(),
{
    if effective.len() == 0 {
        Seq::empty()
    } else if effective.last().known() {
        effective_entries(effective.drop_last()).push(
            CommissionEntry {
                identity: effective.last().identity@,
                record: effective.last().record(),
                defect: effective.last().defect(),
            },
        )
    } else {
        effective_entries(effective.drop_last())
    }
}

/// The merged history: the change log, then the commissions in effect.
/// Nothing is dropped, even where both speak of one epoch.
pub open spec fn commission_entries(
    changes: Seq<CommissionRow>,
    effective: Seq<EffectiveCommissionRow>,
) -> Seq<CommissionEntry> {
    logged_entries(changes) + effective_entries(effective)
}

/// The outcome of reading each entry.
pub open spec fn entry_defects(entries: Seq<CommissionEntry>) -> Seq<Option<LoadError>> {
    Seq::new(entries.len(), |i: int| entries[i].defect)
}

/// The identity of each entry.
pub open spec fn entry_identities(entries: Seq<CommissionEntry>) -> Seq<Seq<char>> {
    Seq::new(entries.len(), |i: int| entries[i].identity)
}

/// The record of each entry.
pub open spec fn entry_records(entries: Seq<CommissionEntry>) -> Seq<CommissionRecord> {
    Seq::new(entries.len(), |i: int| entries[i].record)
}

/// The commission changes of each validator, from all rows handed in: those
/// of the change log, and for every epoch whose commission in effect is known
/// one change more, to that commission. The two sources are merged without
/// looking for duplicates. Fails with the error of the first entry that
/// cannot be read.
pub fn file_commissions(
    changes: &Vec<CommissionRow>,
    effective: &Vec<EffectiveCommissionRow>,
) -> (r: Result<Vec<IdentityRecords<CommissionRecord>>, LoadError>)
    ensures
        stops_at_first_failure(r, entry_defects(commission_entries(changes@, effective@))),
        r matches Ok(groups) ==> groups_view(groups@) == grouped(
            entry_identities(commission_entries(changes@, effective@)),
            entry_records(commission_entries(changes@, effective@)),
        ),
{
    let mut groups: Vec<IdentityRecords<CommissionRecord>> = Vec::new();
    let ghost logged = logged_entries(changes@);
    let ghost mut done: Seq<CommissionEntry> = Seq::empty();
    let mut i: usize = 0;
    while i < changes.len()
        invariant
            i <= changes.len(),
            logged == logged_entries(changes@),
            done == logged.take(i as int),
            forall|j: int| 0 <= j < done.len() ==> done[j].defect is None,
            groups_view(groups@) == grouped(entry_identities(done), entry_records(done)),
        decreases changes.len() - i,
    {
        let row = &changes[i];
        let ghost entry = logged[i as int];
        let record = match row.narrow() {
            Ok(v) => v,
            Err(e) => {
                proof {
                    let all = commission_entries(changes@, effective@);
                    assert forall|j: int| 0 <= j < i implies entry_defects(all)[j] is None by {
                        assert(all[j] == done[j]);
                    }
                    assert(fails_first_at(entry_defects(all), i as int));
                }
                return Err(e);
            },
        };
        proof {
            lemma_grouped_push(
                entry_identities(done),
                entry_records(done),
                entry.identity,
                entry.record,
            );
            assert(entry_identities(done.push(entry)) =~= entry_identities(done).push(
                entry.identity,
            ));
            assert(entry_records(done.push(entry)) =~= entry_records(done).push(entry.record));
            done = done.push(entry);
        }
        file_record(&mut groups, row.identity.clone(), record);
        i += 1;
    }
    let mut k: usize = 0;
    while k < effective.len()
        invariant
            k <= effective.len(),
            logged == logged_entries(changes@),
            done == logged + effective_entries(effective@.take(k as int)),
            forall|j: int| 0 <= j < done.len() ==> done[j].defect is None,
            groups_view(groups@) == grouped(entry_identities(done), entry_records(done)),
        decreases effective.len() - k,
    {
        let row = &effective[k];
        proof {
            assert(effective@.take(k + 1).drop_last() =~= effective@.take(k as int));
        }
        match row.commission_effective {
            Some(commission) => {
                let ghost entry = CommissionEntry {
                    identity: row.identity@,
                    record: row.record(),
                    defect: row.defect(),
                };
                let ghost rest = effective_entries(effective@.take(k + 1));
                proof {
                    lemma_effective_entries_prefix(effective@, k + 1);
                }
                let change = CommissionRow {
                    identity: row.identity.clone(),
                    commission,
                    epoch: row.epoch,
                    epoch_slot: Numeric::from_u64(SLOTS_PER_EPOCH),
                    created_at: row.updated_at,
                };
                let record = match change.narrow() {
                    Ok(v) => v,
                    Err(e) => {
                        proof {
                            let all = commission_entries(changes@, effective@);
                            let at = done.len() as int;
                            assert((logged + rest)[at] == entry);
                            lemma_effective_entries_prefix(effective@, k as int);
                            assert forall|j: int| 0 <= j < at implies entry_defects(
                                all,
                            )[j] is None by {
                                assert(all[j] == done[j]);
                            }
                            assert(fails_first_at(entry_defects(all), at));
                        }
                        return Err(e);
                    },
                };
                proof {
                    lemma_grouped_push(
                        entry_identities(done),
                        entry_records(done),
                        entry.identity,
                        entry.record,
                    );
                    assert(entry_identities(done.push(entry)) =~= entry_identities(done).push(
                        entry.identity,
                    ));
                    assert(entry_records(done.push(entry)) =~= entry_records(done).push(
                        entry.record,
                    ));
                    done = done.push(entry);
                }
                file_record(&mut groups, change.identity, record);
            },
            None => {},
        }
        k += 1;
    }
    proof {
        assert(effective@.take(k as int) =~= effective@);
    }
    Ok(groups)
}

impl Epochal for UptimeRow {
    open spec fn stored_epoch(&self) -> Numeric {
        self.epoch
    }

    fn epoch_of(&self) -> (r: Numeric) {
        self.epoch
    }
}

impl Epochal for VersionRow {
    open spec fn stored_epoch(&self) -> Numeric {
        self.epoch
    }

    fn epoch_of(&self) -> (r: Numeric) {
        self.epoch
    }
}

impl Epochal for CommissionRow {
    open spec fn stored_epoch(&self) -> Numeric {
        self.epoch
    }

    fn epoch_of(&self) -> (r: Numeric) {
        self.epoch
    }
}

impl Epochal for EffectiveCommissionRow {
    open spec fn stored_epoch(&self) -> Numeric {
        self.epoch
    }

    fn epoch_of(&self) -> (r: Numeric) {
        self.epoch
    }
}

/// The uptime intervals of each validator within the window. Fails if the
/// epoch of a row cannot be read, with the error of the first such row.
pub fn load_uptimes(rows: Vec<UptimeRow>, lookback: &Lookback) -> (r: Result<
    Vec<IdentityRecords<UptimeRecord>>,
    LoadError,
>)
    ensures
        stops_at_first_failure(r, epoch_defects(rows@)),
        r matches Ok(groups) ==> groups_view(groups@) == grouped(
            uptime_identities(rows_in_window(rows@, *lookback)),
            uptime_records(rows_in_window(rows@, *lookback)),
        ),
{
    let kept = match keep_in_window(rows, lookback) {
        Ok(v) => v,
        Err(e) => {
            return Err(e);
        },
    };
    proof {
        lemma_kept_rows_are_in_window(rows@, *lookback);
        assert forall|i: int| 0 <= i < kept.len() implies uptime_defects(kept@)[i] is None by {
            assert(in_window(kept@[i], *lookback));
        }
    }
    file_uptimes(&kept)
}

/// The version changes of each validator within the window. Fails if the
/// epoch of a row cannot be read, with the error of the first such row.
pub fn load_versions(rows: Vec<VersionRow>, lookback: &Lookback) -> (r: Result<
    Vec<IdentityRecords<VersionRecord>>,
    LoadError,
>)
    ensures
        stops_at_first_failure(r, epoch_defects(rows@)),
        r matches Ok(groups) ==> groups_view(groups@) == grouped(
            version_identities(rows_in_window(rows@, *lookback)),
            version_records(rows_in_window(rows@, *lookback)),
        ),
{
    let kept = match keep_in_window(rows, lookback) {
        Ok(v) => v,
        Err(e) => {
            return Err(e);
        },
    };
    proof {
        lemma_kept_rows_are_in_window(rows@, *lookback);
        assert forall|i: int| 0 <= i < kept.len() implies version_defects(kept@)[i] is None by {
            assert(in_window(kept@[i], *lookback));
        }
    }
    file_versions(&kept)
}

/// The outcome of reading each row of both sources of commissions: first the
/// epochs of the change log, then the epochs of the commissions in effect,
/// then every entry of the window.
pub open spec fn commission_outcomes(
    changes: Seq<CommissionRow>,
    effective: Seq<EffectiveCommissionRow>,
    lookback: Lookback,
) -> Seq<Option<LoadError>> {
    epoch_defects(changes) + epoch_defects(effective) + entry_defects(
        commission_entries(
            rows_in_window(changes, lookback),
            rows_in_window(effective, lookback),
        ),
    )
}

/// The commission changes of each validator within the window: those of the
/// change log, and for every epoch whose commission in effect is known one
/// change more, to that commission. The two sources are merged without
/// looking for duplicates. Fails with the error of the first row whose epoch
/// cannot be read or, where all can, of the first entry of the window that
/// cannot be read.
pub fn load_commissions(
    changes: Vec<CommissionRow>,
    effective: Vec<EffectiveCommissionRow>,
    lookback: &Lookback,
) -> (r: Result<Vec<IdentityRecords<CommissionRecord>>, LoadError>)
    ensures
        stops_at_first_failure(r, commission_outcomes(changes@, effective@, *lookback)),
        r matches Ok(groups) ==> groups_view(groups@) == grouped(
            entry_identities(
                commission_entries(
                    rows_in_window(changes@, *lookback),
                    rows_in_window(effective@, *lookback),
                ),
            ),
            entry_records(
                commission_entries(
                    rows_in_window(changes@, *lookback),
                    rows_in_window(effective@, *lookback),
                ),
            ),
        ),
{
    let ghost entries = entry_defects(
        commission_entries(
            rows_in_window(changes@, *lookback),
            rows_in_window(effective@, *lookback),
        ),
    );
    let logged = keep_in_window(changes, lookback);
    let kept_changes = match logged {
        Ok(v) => v,
        Err(e) => {
            proof {
                lemma_passes_in_sequence::<Vec<CommissionRow>, ()>(
                    logged,
                    Err(e),
                    epoch_defects(changes@),
                    epoch_defects(effective@),
                );
                lemma_passes_in_sequence::<(), ()>(
                    Err(e),
                    Err(e),
                    epoch_defects(changes@) + epoch_defects(effective@),
                    entries,
                );
            }
            return Err(e);
        },
    };
    let in_effect = keep_in_window(effective, lookback);
    let kept_effective = match in_effect {
        Ok(v) => v,
        Err(e) => {
            proof {
                lemma_passes_in_sequence::<Vec<CommissionRow>, Vec<EffectiveCommissionRow>>(
                    logged,
                    in_effect,
                    epoch_defects(changes@),
                    epoch_defects(effective@),
                );
                lemma_passes_in_sequence::<(), ()>(
                    Err(e),
                    Err(e),
                    epoch_defects(changes@) + epoch_defects(effective@),
                    entries,
                );
            }
            return Err(e);
        },
    };
    let filed = file_commissions(&kept_changes, &kept_effective);
    proof {
        lemma_passes_in_sequence::<Vec<CommissionRow>, Vec<EffectiveCommissionRow>>(
            logged,
            in_effect,
            epoch_defects(changes@),
            epoch_defects(effective@),
        );
        lemma_passes_in_sequence::<Vec<EffectiveCommissionRow>, Vec<IdentityRecords<CommissionRecord>>>(
            in_effect,
            filed,
            epoch_defects(changes@) + epoch_defects(effective@),
            entries,
        );
    }
    filed
}

proof fn lemma_effective_entries_prefix(effective: Seq<EffectiveCommissionRow>, n: int)
    requires
        0 <= n <= effective.len(),
    ensures
        effective_entries(effective.take(n)).len() <= effective_entries(effective).len(),
        forall|j: int|
            0 <= j < effective_entries(effective.take(n)).len() ==> effective_entries(
                effective,
            )[j] == #[trigger] effective_entries(effective.take(n))[j],
    decreases effective.len() - n,
{
    if n < effective.len() {
        lemma_effective_entries_prefix(effective, n + 1);
        assert(effective.take(n + 1).drop_last() =~= effective.take(n));
        let shorter = effective_entries(effective.take(n));
        let longer = effective_entries(effective.take(n + 1));
        assert forall|j: int| 0 <= j < shorter.len() implies effective_entries(effective)[j]
            == #[trigger] shorter[j] by {
            assert(longer[j] == shorter[j]);
        }
    } else {
        assert(effective.take(n) =~= effective);
    }
}

} // verus!
