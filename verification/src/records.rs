//! The records that the aggregation produces and the values they are made of.

use vstd::prelude::*;

verus! {

/// A 64-bit IEEE-754 number, held by its bit pattern. The crate carries such
/// numbers from input to output and never computes with them.
#[derive(Clone, Copy, Debug, PartialEq, Eq, Structural)]
pub struct Real {
    pub bits: u64,
}

/// An instant, as microseconds since 1970-01-01T00:00:00Z.
#[derive(Clone, Copy, Debug, PartialEq, Eq, Structural)]
pub struct Timestamp {
    pub micros: i64,
}

/// A part of a whole, kept exact: `stake` out of `total`.
#[derive(Clone, Copy, Debug, PartialEq, Eq, Structural)]
pub struct Share {
    pub stake: u64,
    pub total: u64,
}

/// The records of one validator, under its identity.
#[derive(Debug, PartialEq, Eq)]
pub struct IdentityRecords<R> {
    pub identity: String,
    pub records: Vec<R>,
}

/// One interval during which a validator was seen up or down.
#[derive(Debug, PartialEq, Eq)]
pub struct UptimeRecord {
    pub epoch: u64,
    pub status: String,
    pub start_at: Timestamp,
    pub end_at: Timestamp,
}

impl Clone for UptimeRecord {
    fn clone(&self) -> (r: Self)
        ensures
            r == *self,
    {
        UptimeRecord {
            epoch: self.epoch,
            status: self.status.clone(),
            start_at: self.start_at,
            end_at: self.end_at,
        }
    }
}

/// One change of a validator's software version.
#[derive(Debug, PartialEq, Eq)]
pub struct VersionRecord {
    pub epoch: u64,
    pub version: Option<String>,
    pub created_at: Timestamp,
}

/// One change of a validator's commission.
#[derive(Clone, Copy, Debug, PartialEq, Eq, Structural)]
pub struct CommissionRecord {
    pub epoch: u64,
    pub epoch_slot: u64,
    pub commission: u8,
    pub created_at: Timestamp,
}

/// A warning raised against a validator. `details` is the structured payload
/// in its textual form.
#[derive(Debug, PartialEq, Eq)]
pub struct WarningRecord {
    pub code: String,
    pub message: String,
    pub details: Option<String>,
    pub created_at: Timestamp,
}

/// A copy of an optional string.
pub fn clone_text(text: &Option<String>) -> (r: Option<String>)
    ensures
        r == *text,
{
    match text {
        Some(s) => Some(s.clone()),
        None => None,
    }
}

impl Clone for WarningRecord {
    fn clone(&self) -> (r: Self)
        ensures
            r == *self,
    {
        WarningRecord {
            code: self.code.clone(),
            message: self.message.clone(),
            details: clone_text(&self.details),
            created_at: self.created_at,
        }
    }
}

/// A copy of a list of warnings.
pub fn clone_warnings(warnings: &Vec<WarningRecord>) -> (r: Vec<WarningRecord>)
    ensures
        r@ == warnings@,
{
    let mut copy: Vec<WarningRecord> = Vec::new();
    let mut i: usize = 0;
    while i < warnings.len()
        invariant
            i <= warnings.len(),
            copy@ == warnings@.take(i as int),
        decreases warnings.len() - i,
    {
        copy.push(warnings[i].clone());
        i += 1;
    }
    copy
}

/// A copy of a list of uptime intervals.
pub fn clone_uptimes(uptimes: &Vec<UptimeRecord>) -> (r: Vec<UptimeRecord>)
    ensures
        r@ == uptimes@,
{
    let mut copy: Vec<UptimeRecord> = Vec::new();
    let mut i: usize = 0;
    while i < uptimes.len()
        invariant
            i <= uptimes.len(),
            copy@ == uptimes@.take(i as int),
        decreases uptimes.len() - i,
    {
        copy.push(uptimes[i].clone());
        i += 1;
    }
    copy
}

} // verus!
