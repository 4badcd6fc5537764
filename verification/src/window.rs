//! The lookback window: the rows of the most recent epochs.
//!
//! A window is given by the latest epoch that the store knows and by the
//! number of epochs to look back from it. A row is in the window where its
//! epoch lies less than that number before the latest one. Where the store
//! knows no epoch the window holds nothing.

use crate::numeric::{fails_first_at, stops_at_first_failure, LoadError, Numeric};
use vstd::prelude::*;

verus! {

/// A window of the `epochs` most recent epochs up to `last_epoch`.
#[derive(Clone, Copy, Debug, PartialEq, Eq, Structural)]
pub struct Lookback {
    pub last_epoch: Option<u64>,
    pub epochs: u64,
}

/// A row that belongs to an epoch.
pub trait Epochal {
    /// The epoch of the row, as stored.
    spec fn stored_epoch(&self) -> Numeric;

    /// The epoch of the row, as stored.
    fn epoch_of(&self) -> (r: Numeric)
        ensures
            r == self.stored_epoch(),
    ;
}

impl Lookback {
    /// Whether `epoch` lies in the window.
    pub open spec fn covers(self, epoch: u64) -> bool {
        self.last_epoch matches Some(last) && epoch + self.epochs > last
    }

    /// Whether `epoch` lies in the window.
    pub fn includes(&self, epoch: u64) -> (r: bool)
        ensures
            r == self.covers(epoch),
    {
        match self.last_epoch {
            Some(last) => self.epochs > last || epoch > last - self.epochs,
            None => false,
        }
    }
}

/// Whether the epoch of `row` can be read and lies in the window.
pub open spec fn in_window<T: Epochal>(row: T, lookback: Lookback) -> bool {
    row.stored_epoch().as_u64() matches Some(epoch) && lookback.covers(epoch)
}

/// The outcome of reading the epoch of each row.
pub open spec fn epoch_defects<T: Epochal>(rows: Seq<T>) -> Seq<Option<LoadError>> {
    Seq::new(
        rows.len(),
        |i: int|
            if rows[i].stored_epoch().as_u64() is None {
                Some(LoadError::ExceedsU64)
            } else {
                None
            },
    )
}

/// The rows that lie in the window, in their order.
pub open spec fn rows_in_window<T: Epochal>(rows: Seq<T>, lookback: Lookback) -> Seq<T>
    decreases rows.len(),
{
    if rows.len() == 0 {
        Seq::empty()
    } else if in_window(rows.last(), lookback) {
        rows_in_window(rows.drop_last(), lookback).push(rows.last())
    } else {
        rows_in_window(rows.drop_last(), lookback)
    }
}

/// Whether the rows come latest epoch first.
pub open spec fn latest_first<T: Epochal>(rows: Seq<T>) -> bool {
    forall|i: int, j: int|
        0 <= i <= j < rows.len() ==> (#[trigger] rows[i]).stored_epoch().as_u64().unwrap() >= (
        #[trigger] rows[j]).stored_epoch().as_u64().unwrap()
}

/// Where the rows come latest epoch first and every epoch can be read, the
/// rows of a window are a run of rows from the start.
pub proof fn lemma_window_is_prefix<T: Epochal>(rows: Seq<T>, lookback: Lookback)
    requires
        latest_first(rows),
        forall|i: int| 0 <= i < rows.len() ==> (#[trigger] rows[i]).stored_epoch().as_u64() is Some,
    ensures
        rows_in_window(rows, lookback).len() <= rows.len(),
        rows_in_window(rows, lookback) == rows.take(rows_in_window(rows, lookback).len() as int),
    decreases rows.len(),
{
    if rows.len() > 0 {
        let shorter = rows.drop_last();
        assert forall|i: int, j: int| 0 <= i <= j < shorter.len() implies (
        #[trigger] shorter[i]).stored_epoch().as_u64().unwrap() >= (
        #[trigger] shorter[j]).stored_epoch().as_u64().unwrap() by {
            assert(rows[i].stored_epoch().as_u64().unwrap()
                >= rows[j].stored_epoch().as_u64().unwrap());
        }
        assert forall|i: int| 0 <= i < shorter.len() implies (
        #[trigger] shorter[i]).stored_epoch().as_u64() is Some by {
            assert(rows[i].stored_epoch().as_u64() is Some);
        }
        lemma_window_is_prefix(shorter, lookback);
        let kept = rows_in_window(shorter, lookback);
        if in_window(rows.last(), lookback) {
            lemma_window_holds_all(shorter, lookback, rows.last());
            assert(kept =~= shorter);
            assert(rows_in_window(rows, lookback) =~= rows.take(rows.len() as int));
        } else {
            assert(shorter.take(kept.len() as int) =~= rows.take(kept.len() as int));
        }
    }
}

/// Where a row of the window comes after rows that are no earlier, those
/// rows are all in the window.
proof fn lemma_window_holds_all<T: Epochal>(rows: Seq<T>, lookback: Lookback, later: T)
    requires
        in_window(later, lookback),
        forall|i: int|
            0 <= i < rows.len() ==> (#[trigger] rows[i]).stored_epoch().as_u64() is Some
                && rows[i].stored_epoch().as_u64().unwrap()
                >= later.stored_epoch().as_u64().unwrap(),
    ensures
        rows_in_window(rows, lookback) == rows,
    decreases rows.len(),
{
    if rows.len() > 0 {
        assert forall|i: int| 0 <= i < rows.drop_last().len() implies (
        #[trigger] rows.drop_last()[i]).stored_epoch().as_u64() is Some
            && rows.drop_last()[i].stored_epoch().as_u64().unwrap()
            >= later.stored_epoch().as_u64().unwrap() by {
            assert(rows[i].stored_epoch().as_u64() is Some);
        }
        lemma_window_holds_all(rows.drop_last(), lookback, later);
        assert(in_window(rows[rows.len() - 1], lookback));
        assert(rows.drop_last().push(rows.last()) =~= rows);
    }
}

/// A narrower window of the same rows holds no more than a wider one.
pub proof fn lemma_narrower_window_holds_less<T: Epochal>(
    rows: Seq<T>,
    wide: Lookback,
    narrow: Lookback,
)
    requires
        wide.last_epoch == narrow.last_epoch,
        narrow.epochs <= wide.epochs,
    ensures
        rows_in_window(rows, narrow).len() <= rows_in_window(rows, wide).len(),
    decreases rows.len(),
{
    if rows.len() > 0 {
        lemma_narrower_window_holds_less(rows.drop_last(), wide, narrow);
    }
}

/// Every row that a window keeps lies in the window.
pub proof fn lemma_kept_rows_are_in_window<T: Epochal>(rows: Seq<T>, lookback: Lookback)
    ensures
        forall|i: int|
            0 <= i < rows_in_window(rows, lookback).len() ==> in_window(
                #[trigger] rows_in_window(rows, lookback)[i],
                lookback,
            ),
    decreases rows.len(),
{
    if rows.len() > 0 {
        lemma_kept_rows_are_in_window(rows.drop_last(), lookback);
        let shorter = rows_in_window(rows.drop_last(), lookback);
        let kept = rows_in_window(rows, lookback);
        assert forall|i: int| 0 <= i < kept.len() implies in_window(#[trigger] kept[i], lookback) by {
            if i < shorter.len() {
                assert(kept[i] == shorter[i]);
            }
        }
    }
}

/// Keeps the rows of the window, in their order. Fails if the epoch of a row
/// cannot be read, with the error of the first such row.
pub fn keep_in_window<T: Epochal>(rows: Vec<T>, lookback: &Lookback) -> (r: Result<
    Vec<T>,
    LoadError,
>)
    ensures
        stops_at_first_failure(r, epoch_defects(rows@)),
        r matches Ok(kept) ==> kept@ == rows_in_window(rows@, *lookback),
{
    let mut kept: Vec<T> = Vec::new();
    let ghost all = rows@;
    let ghost outcomes = epoch_defects(all);
    for row in it: rows
        invariant
            it.seq() == all,
            outcomes == epoch_defects(all),
            forall|j: int| 0 <= j < it.index() ==> outcomes[j] is None,
            kept@ == rows_in_window(all.take(it.index() as int), *lookback),
    {
        proof {
            assert(all.take(it.index() + 1).drop_last() =~= all.take(it.index() as int));
        }
        let epoch = match row.epoch_of().to_u64() {
            Ok(v) => v,
            Err(e) => {
                assert(fails_first_at(outcomes, it.index() as int));
                return Err(e);
            },
        };
        if lookback.includes(epoch) {
            kept.push(row);
        }
    }
    proof {
        assert(all.take(all.len() as int) =~= all);
    }
    Ok(kept)
}

} // verus!
