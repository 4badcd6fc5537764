//! Storing commission changes.
//!
//! A snapshot says what commission each validator asks now. Only the
//! validators whose commission differs from the latest one stored for them,
//! or for whom none is stored, get a new row. Storing the same snapshot a
//! second time therefore stores nothing.

use crate::combiner::{insert_head, InsertQueryCombiner, ValueGroup};
use crate::records::Timestamp;
use vstd::prelude::*;
use vstd::string::*;

verus! {

/// What a snapshot says of one validator.
#[derive(Debug, PartialEq, Eq)]
pub struct ValidatorSnapshot {
    pub identity: String,
    pub commission: i32,
}

/// The latest commission that the store holds for one validator.
#[derive(Debug, PartialEq, Eq)]
pub struct StoredCommission {
    pub identity: String,
    pub commission: i32,
}

/// A value that stands for a placeholder of a statement.
#[derive(Debug, PartialEq, Eq)]
pub enum SqlValue {
    Text(String),
    Int(i32),
    Timestamp(Timestamp),
}

/// The number of values in a row of the commission table.
pub const COMMISSION_COLUMNS: usize = 5;

/// The identities of a snapshot.
pub open spec fn snapshot_identities(snapshot: Seq<ValidatorSnapshot>) -> Seq<Seq<char>> {
    Seq::new(snapshot.len(), |i: int| snapshot[i].identity@)
}

/// Whether entry `at` is the last that the snapshot has for its validator.
/// Where a snapshot names a validator more than once, the last entry counts.
pub open spec fn is_last(snapshot: Seq<ValidatorSnapshot>, at: int) -> bool {
    forall|j: int| at < j < snapshot.len() ==> (#[trigger] snapshot[j]).identity@ != snapshot[at].identity@
}

/// Whether the store holds `commission` as the latest for `identity`.
pub open spec fn unchanged(stored: Seq<StoredCommission>, identity: Seq<char>, commission: i32) -> bool {
    exists|j: int|
        0 <= j < stored.len() && (#[trigger] stored[j]).identity@ == identity && stored[j].commission
            == commission
}

/// Whether entry `at` of the snapshot is to be stored.
pub open spec fn changed(
    snapshot: Seq<ValidatorSnapshot>,
    stored: Seq<StoredCommission>,
    at: int,
) -> bool {
    is_last(snapshot, at) && !unchanged(stored, snapshot[at].identity@, snapshot[at].commission)
}

/// The places of the entries to be stored among the first `upto` of the
/// snapshot, in rising order.
pub open spec fn changes(
    snapshot: Seq<ValidatorSnapshot>,
    stored: Seq<StoredCommission>,
    upto: int,
) -> Seq<int>
    decreases upto,
{
    if upto <= 0 {
        Seq::empty()
    } else if changed(snapshot, stored, upto - 1) {
        changes(snapshot, stored, upto - 1).push(upto - 1)
    } else {
        changes(snapshot, stored, upto - 1)
    }
}

/// The values of the row that stores one entry: identity, commission, slot 0
/// of epoch 0, and the time of storing.
pub open spec fn row_values(entry: ValidatorSnapshot, now: Timestamp) -> Seq<SqlValue> {
    seq![
        SqlValue::Text(entry.identity),
        SqlValue::Int(entry.commission),
        SqlValue::Int(0),
        SqlValue::Int(0),
        SqlValue::Timestamp(now),
    ]
}

/// The values of the rows that store the entries at `at`, row after row.
pub open spec fn rows_values(snapshot: Seq<ValidatorSnapshot>, at: Seq<int>, now: Timestamp) -> Seq<
    SqlValue,
>
    decreases at.len(),
{
    if at.len() == 0 {
        Seq::empty()
    } else {
        rows_values(snapshot, at.drop_last(), now) + row_values(snapshot[at.last()], now)
    }
}

/// `rows` rows of the commission table, none with a type annotation.
pub open spec fn commission_groups(rows: nat) -> Seq<ValueGroup> {
    Seq::new(rows, |k: int| ValueGroup { width: COMMISSION_COLUMNS as nat, types: Map::empty() })
}

/// What the store holds as the latest commissions once the changes of a
/// snapshot are stored: for the validators that got a new row that row, and
/// for the others what it held before.
pub open spec fn stored_after(
    snapshot: Seq<ValidatorSnapshot>,
    stored: Seq<StoredCommission>,
) -> Seq<StoredCommission> {
    let at = changes(snapshot, stored, snapshot.len() as int);
    stored.filter(|row: StoredCommission| !superseded(snapshot, stored, row)) + Seq::new(
        at.len(),
        |k: int|
            StoredCommission {
                identity: snapshot[at[k]].identity,
                commission: snapshot[at[k]].commission,
            },
    )
}

/// Whether the validator of a stored row gets a new row from the snapshot.
pub open spec fn superseded(
    snapshot: Seq<ValidatorSnapshot>,
    stored: Seq<StoredCommission>,
    row: StoredCommission,
) -> bool {
    exists|i: int|
        0 <= i < snapshot.len() && #[trigger] changed(snapshot, stored, i) && snapshot[i].identity@
            == row.identity@
}

/// `changes` lists exactly the entries that are to be stored.
pub proof fn lemma_changes(snapshot: Seq<ValidatorSnapshot>, stored: Seq<StoredCommission>, upto: int)
    requires
        0 <= upto <= snapshot.len(),
    ensures
        forall|k: int|
            0 <= k < changes(snapshot, stored, upto).len() ==> 0 <= (#[trigger] changes(
                snapshot,
                stored,
                upto,
            )[k]) < upto && changed(snapshot, stored, changes(snapshot, stored, upto)[k]),
        forall|i: int|
            0 <= i < upto && changed(snapshot, stored, i) ==> changes(
                snapshot,
                stored,
                upto,
            ).contains(i),
        changes(snapshot, stored, upto).len() <= upto,
    decreases upto,
{
    if upto > 0 {
        lemma_changes(snapshot, stored, upto - 1);
        let shorter = changes(snapshot, stored, upto - 1);
        let all = changes(snapshot, stored, upto);
        assert forall|i: int| 0 <= i < upto && changed(snapshot, stored, i) implies all.contains(
            i,
        ) by {
            if i < upto - 1 {
                let w = choose|w: int| 0 <= w < shorter.len() && shorter[w] == i;
                assert(all[w] == i);
            } else {
                assert(all[all.len() - 1] == i);
            }
        }
    }
}

/// Storing the same snapshot again stores nothing: once the changes of a
/// snapshot are in the store, the snapshot has no entry left that differs
/// from what the store holds.
pub proof fn lemma_second_run_stores_nothing(
    snapshot: Seq<ValidatorSnapshot>,
    stored: Seq<StoredCommission>,
)
    ensures
        changes(snapshot, stored_after(snapshot, stored), snapshot.len() as int).len() == 0,
{
    let n = snapshot.len() as int;
    let at = changes(snapshot, stored, n);
    let keep = |row: StoredCommission| !superseded(snapshot, stored, row);
    let kept = stored.filter(keep);
    let later = stored_after(snapshot, stored);
    lemma_changes(snapshot, stored, n);
    assert forall|i: int| 0 <= i < n implies !changed(snapshot, later, i) by {
        if is_last(snapshot, i) {
            if changed(snapshot, stored, i) {
                let k = choose|k: int| 0 <= k < at.len() && at[k] == i;
                assert(later[kept.len() + k].identity@ == snapshot[i].identity@);
            } else {
                let j = choose|j: int|
                    0 <= j < stored.len() && (#[trigger] stored[j]).identity@
                        == snapshot[i].identity@ && stored[j].commission == snapshot[i].commission;
                if superseded(snapshot, stored, stored[j]) {
                    let other = choose|other: int|
                        0 <= other < n && #[trigger] changed(snapshot, stored, other)
                            && snapshot[other].identity@ == stored[j].identity@;
                    assert(other == i);
                }
                stored.lemma_filter_contains(keep, j);
                let w = choose|w: int| 0 <= w < kept.len() && kept[w] == stored[j];
                assert(later[w] == stored[j]);
            }
        }
    }
    lemma_changes(snapshot, later, n);
    if changes(snapshot, later, n).len() > 0 {
        assert(changed(snapshot, later, changes(snapshot, later, n)[0]));
    }
}

fn is_last_entry(snapshot: &Vec<ValidatorSnapshot>, at: usize) -> (r: bool)
    requires
        at < snapshot.len(),
    ensures
        r == is_last(snapshot@, at as int),
{
    let mut j: usize = at + 1;
    while j < snapshot.len()
        invariant
            at < j <= snapshot.len(),
            forall|k: int| at < k < j ==> (#[trigger] snapshot[k]).identity@ != snapshot[at as int].identity@,
        decreases snapshot.len() - j,
    {
        if snapshot[j].identity == snapshot[at].identity {
            return false;
        }
        j += 1;
    }
    true
}

fn is_unchanged(stored: &Vec<StoredCommission>, identity: &String, commission: i32) -> (r: bool)
    ensures
        r == unchanged(stored@, identity@, commission),
{
    let mut j: usize = 0;
    while j < stored.len()
        invariant
            j <= stored.len(),
            forall|k: int|
                0 <= k < j ==> !((#[trigger] stored[k]).identity@ == identity@ && stored[k].commission
                    == commission),
        decreases stored.len() - j,
    {
        if stored[j].identity == *identity && stored[j].commission == commission {
            return true;
        }
        j += 1;
    }
    false
}

/// The insert statement that stores the changes of `snapshot` against what
/// is `stored`: one row for each validator of the snapshot whose commission
/// is not the one stored for it, dated `now`. Where nothing has changed the
/// statement has no rows and nothing is to be sent.
pub fn store_commissions(
    snapshot: &Vec<ValidatorSnapshot>,
    stored: &Vec<StoredCommission>,
    now: Timestamp,
) -> (query: InsertQueryCombiner<SqlValue>)
    ensures
        query.well_formed(),
        query.head() == insert_head(
            "commissions"@,
            "identity, commission, epoch_slot, epoch, created_at"@,
        ),
        query.groups() == commission_groups(
            changes(snapshot@, stored@, snapshot.len() as int).len(),
        ),
        query.parameters() == rows_values(
            snapshot@,
            changes(snapshot@, stored@, snapshot.len() as int),
            now,
        ),
        query.rows() == changes(snapshot@, stored@, snapshot.len() as int).len(),
{
    let mut query: InsertQueryCombiner<SqlValue> = InsertQueryCombiner::new(
        String::from_str("commissions"),
        String::from_str("identity, commission, epoch_slot, epoch, created_at"),
    );
    let mut i: usize = 0;
    while i < snapshot.len()
        invariant
            i <= snapshot.len(),
            query.well_formed(),
            query.head() == insert_head(
                "commissions"@,
                "identity, commission, epoch_slot, epoch, created_at"@,
            ),
            query.rows() == changes(snapshot@, stored@, i as int).len(),
            query.groups() == commission_groups(changes(snapshot@, stored@, i as int).len()),
            query.parameters() == rows_values(snapshot@, changes(snapshot@, stored@, i as int), now),
        decreases snapshot.len() - i,
    {
        let entry = &snapshot[i];
        proof {
            lemma_changes(snapshot@, stored@, i as int);
        }
        if is_last_entry(snapshot, i) && !is_unchanged(stored, &entry.identity, entry.commission) {
            let mut values: Vec<SqlValue> = Vec::new();
            values.push(SqlValue::Text(entry.identity.clone()));
            values.push(SqlValue::Int(entry.commission));
            values.push(SqlValue::Int(0));
            values.push(SqlValue::Int(0));
            values.push(SqlValue::Timestamp(now));
            let ghost before = changes(snapshot@, stored@, i as int);
            query.add(&mut values);
            proof {
                assert(before.push(i as int).drop_last() =~= before);
            }
        }
        i += 1;
    }
    query
}

} // verus!
