//! Cluster-wide figures per epoch: block production and stake concentration,
//! over a window of the most recent epochs.

use crate::concentration::{
    concentration_of_epoch, row_stakes, stakes_fit, total_stake, DCConcentrationStats,
    EpochStakeRows, StakeRow,
};
use crate::grouping::{first_position, lemma_first_position, lemma_no_position};
use crate::numeric::{
    fails_first_at, lemma_passes_in_sequence, stops_at_first_failure, LoadError, Numeric,
};
use crate::records::Real;
use vstd::prelude::*;

verus! {

/// A run of epochs, both ends included.
#[derive(Clone, Copy, Debug, PartialEq, Eq, Structural)]
pub struct EpochWindow {
    pub first: u64,
    pub last: u64,
}

/// The window of the `epochs` most recent epochs up to `last_epoch`. It never
/// reaches back to epoch 0, and it is empty where no epoch is known, where
/// none is asked for and where the last epoch is 0.
pub open spec fn window_of(last_epoch: Option<u64>, epochs: u64) -> Option<EpochWindow> {
    match last_epoch {
        Some(last) if epochs > 0 && last > 0 => Some(
            EpochWindow {
                first: if epochs < last {
                    (last - epochs + 1) as u64
                } else {
                    1
                },
                last,
            },
        ),
        _ => None,
    }
}

/// The epochs to report on, counted back from the latest known one.
pub fn lookback_window(last_epoch: Option<u64>, epochs: u64) -> (r: Option<EpochWindow>)
    ensures
        r == window_of(last_epoch, epochs),
        r matches Some(w) ==> 1 <= w.first <= w.last && w.last - w.first < epochs,
{
    match last_epoch {
        Some(last) => {
            if epochs > 0 && last > 0 {
                let back = if epochs < last {
                    epochs
                } else {
                    last
                };
                Some(EpochWindow { first: last - back + 1, last })
            } else {
                None
            }
        },
        None => None,
    }
}

/// The latest epoch of the store, from the maximum it reports. Fails if that
/// maximum does not fit 64 unsigned bits.
pub fn get_last_epoch(maximum: Option<Numeric>) -> (r: Result<Option<u64>, LoadError>)
    ensures
        r == match maximum {
            None => Ok::<Option<u64>, LoadError>(None),
            Some(n) => match n.as_u64() {
                Some(v) => Ok(Some(v)),
                None => Err(LoadError::ExceedsU64),
            },
        },
{
    match maximum {
        None => Ok(None),
        Some(n) => match n.to_u64() {
            Ok(v) => Ok(Some(v)),
            Err(e) => Err(e),
        },
    }
}

/// Block production of one epoch, as stored.
#[derive(Clone, Copy, Debug)]
pub struct BlockProductionRow {
    pub epoch: Numeric,
    pub blocks_produced: Numeric,
    pub leader_slots: Numeric,
    pub avg_skip_rate: Real,
}

/// Block production of one epoch.
#[derive(Clone, Copy, Debug, PartialEq, Eq, Structural)]
pub struct BlockProductionStats {
    pub epoch: u64,
    pub blocks_produced: u64,
    pub leader_slots: u64,
    pub avg_skip_rate: Real,
}

/// The cluster-wide series.
#[derive(Debug, PartialEq, Eq)]
pub struct ClusterStats {
    pub block_production_stats: Vec<BlockProductionStats>,
    pub dc_concentration_stats: Vec<DCConcentrationStats>,
}

impl BlockProductionRow {
    /// Why this row cannot be read, if it cannot.
    pub open spec fn defect(self) -> Option<LoadError> {
        if self.epoch.as_u64() is None || self.blocks_produced.as_u64() is None
            || self.leader_slots.as_u64() is None {
            Some(LoadError::ExceedsU64)
        } else {
            None
        }
    }

    /// The figures of this row.
    pub open spec fn stats(self) -> BlockProductionStats {
        BlockProductionStats {
            epoch: self.epoch.as_u64().unwrap(),
            blocks_produced: self.blocks_produced.as_u64().unwrap(),
            leader_slots: self.leader_slots.as_u64().unwrap(),
            avg_skip_rate: self.avg_skip_rate,
        }
    }

    /// Narrows the stored numbers of this row.
    pub fn narrow(&self) -> (r: Result<BlockProductionStats, LoadError>)
        ensures
            r == match self.defect() {
                Some(e) => Err::<BlockProductionStats, LoadError>(e),
                None => Ok(self.stats()),
            },
    {
        let epoch = match self.epoch.to_u64() {
            Ok(v) => v,
            Err(e) => {
                return Err(e);
            },
        };
        let blocks_produced = match self.blocks_produced.to_u64() {
            Ok(v) => v,
            Err(e) => {
                return Err(e);
            },
        };
        let leader_slots = match self.leader_slots.to_u64() {
            Ok(v) => v,
            Err(e) => {
                return Err(e);
            },
        };
        Ok(
            BlockProductionStats {
                epoch,
                blocks_produced,
                leader_slots,
                avg_skip_rate: self.avg_skip_rate,
            },
        )
    }
}

/// The outcome of reading each block-production row.
pub open spec fn block_production_defects(rows: Seq<BlockProductionRow>) -> Seq<Option<LoadError>> {
    Seq::new(rows.len(), |i: int| rows[i].defect())
}

/// The figures of the rows whose epoch lies after `first`, in the order of
/// the rows.
pub open spec fn stats_after(rows: Seq<BlockProductionRow>, first: u64) -> Seq<BlockProductionStats>
    decreases rows.len(),
{
    if rows.len() == 0 {
        Seq::empty()
    } else if rows.last().stats().epoch > first {
        stats_after(rows.drop_last(), first).push(rows.last().stats())
    } else {
        stats_after(rows.drop_last(), first)
    }
}

/// The block-production series of the window: one entry for each row whose
/// epoch lies after the first epoch of the window, in the order of the rows,
/// and nothing where the window is empty. Fails with the error of the first
/// row that cannot be read.
pub fn load_block_production_stats(
    last_epoch: Option<u64>,
    epochs: u64,
    rows: &Vec<BlockProductionRow>,
) -> (r: Result<Vec<BlockProductionStats>, LoadError>)
    ensures
        match window_of(last_epoch, epochs) {
            None => r matches Ok(stats) && stats@.len() == 0,
            Some(window) => {
                &&& stops_at_first_failure(r, block_production_defects(rows@))
                &&& r matches Ok(stats) ==> stats@ == stats_after(rows@, window.first)
            },
        },
{
    let mut stats: Vec<BlockProductionStats> = Vec::new();
    let window = match lookback_window(last_epoch, epochs) {
        Some(w) => w,
        None => {
            return Ok(stats);
        },
    };
    let ghost outcomes = block_production_defects(rows@);
    let mut i: usize = 0;
    while i < rows.len()
        invariant
            i <= rows.len(),
            window_of(last_epoch, epochs) == Some(window),
            outcomes == block_production_defects(rows@),
            forall|j: int| 0 <= j < i ==> outcomes[j] is None,
            stats@ == stats_after(rows@.take(i as int), window.first),
        decreases rows.len() - i,
    {
        proof {
            assert(rows@.take(i + 1).drop_last() =~= rows@.take(i as int));
        }
        match rows[i].narrow() {
            Ok(s) => {
                if s.epoch > window.first {
                    stats.push(s);
                }
            },
            Err(e) => {
                assert(fails_first_at(outcomes, i as int));
                return Err(e);
            },
        }
        i += 1;
    }
    proof {
        assert(rows@.take(i as int) =~= rows@);
    }
    Ok(stats)
}

/// Whether the stakes of one epoch can be summed.
pub open spec fn stakes_defect(rows: Seq<StakeRow>) -> Option<LoadError> {
    if stakes_fit(rows) && total_stake(row_stakes(rows)) <= u64::MAX {
        None
    } else {
        Some(LoadError::ExceedsU64)
    }
}

/// The epochs of which rows were handed in.
pub open spec fn row_epochs(epochs: Seq<EpochStakeRows>) -> Seq<u64> {
    Seq::new(epochs.len(), |i: int| epochs[i].epoch)
}

/// The rows handed in for `epoch`: those of the first entry that is of that
/// epoch, and none where there is no such entry.
pub open spec fn stake_rows_of(epochs: Seq<EpochStakeRows>, epoch: u64) -> Seq<StakeRow> {
    match first_position(row_epochs(epochs), epoch) {
        Some(i) => epochs[i].rows@,
        None => Seq::empty(),
    }
}

/// The epoch at place `at` of a window.
pub open spec fn epoch_at(window: EpochWindow, at: int) -> u64 {
    (window.first + at) as u64
}

/// The outcome of summing each epoch of a window.
pub open spec fn concentration_defects(
    epochs: Seq<EpochStakeRows>,
    window: EpochWindow,
) -> Seq<Option<LoadError>> {
    Seq::new(
        (window.last - window.first + 1) as nat,
        |i: int| stakes_defect(stake_rows_of(epochs, epoch_at(window, i))),
    )
}

/// Whether `stats` is the concentration series of a window: one entry per
/// epoch of the window, from its first to its last.
pub open spec fn is_concentration_series(
    stats: Seq<DCConcentrationStats>,
    epochs: Seq<EpochStakeRows>,
    window: EpochWindow,
) -> bool {
    &&& stats.len() == window.last - window.first + 1
    &&& forall|i: int|
        0 <= i < stats.len() ==> (#[trigger] stats[i]).summarizes(
            epoch_at(window, i),
            stake_rows_of(epochs, epoch_at(window, i)),
        ) && stats[i].balanced()
}

fn concentration_at(epochs: &Vec<EpochStakeRows>, epoch: u64) -> (r: Result<
    DCConcentrationStats,
    LoadError,
>)
    ensures
        match r {
            Ok(stats) => stakes_defect(stake_rows_of(epochs@, epoch)) is None && stats.summarizes(
                epoch,
                stake_rows_of(epochs@, epoch),
            ) && stats.balanced(),
            Err(e) => stakes_defect(stake_rows_of(epochs@, epoch)) == Some(e),
        },
{
    let ghost keys = row_epochs(epochs@);
    let mut i: usize = 0;
    while i < epochs.len()
        invariant
            i <= epochs.len(),
            keys == row_epochs(epochs@),
            forall|j: int| 0 <= j < i ==> keys[j] != epoch,
        decreases epochs.len() - i,
    {
        if epochs[i].epoch == epoch {
            proof {
                lemma_first_position(keys, epoch, i as int);
            }
            return concentration_of_epoch(epoch, &epochs[i].rows);
        }
        i += 1;
    }
    proof {
        lemma_no_position(keys, epoch);
    }
    let none: Vec<StakeRow> = Vec::new();
    concentration_of_epoch(epoch, &none)
}

/// The concentration series of the window: one entry for each epoch from the
/// first of the window to the last, each made of the rows handed in for that
/// epoch, and nothing where the window is empty. Fails with the error of the
/// first epoch whose stakes cannot be summed.
pub fn load_dc_concentration_stats(
    last_epoch: Option<u64>,
    epochs: u64,
    rows: &Vec<EpochStakeRows>,
) -> (r: Result<Vec<DCConcentrationStats>, LoadError>)
    ensures
        match window_of(last_epoch, epochs) {
            None => r matches Ok(stats) && stats@.len() == 0,
            Some(window) => {
                &&& stops_at_first_failure(r, concentration_defects(rows@, window))
                &&& r matches Ok(stats) ==> is_concentration_series(stats@, rows@, window)
            },
        },
{
    let mut stats: Vec<DCConcentrationStats> = Vec::new();
    let window = match lookback_window(last_epoch, epochs) {
        Some(w) => w,
        None => {
            return Ok(stats);
        },
    };
    let ghost outcomes = concentration_defects(rows@, window);
    let count: u64 = window.last - window.first + 1;
    let mut done: u64 = 0;
    while done < count
        invariant
            done <= count,
            1 <= window.first <= window.last,
            count == window.last - window.first + 1,
            window_of(last_epoch, epochs) == Some(window),
            outcomes == concentration_defects(rows@, window),
            forall|j: int| 0 <= j < done ==> outcomes[j] is None,
            stats.len() == done,
            forall|j: int|
                0 <= j < done ==> (#[trigger] stats[j]).summarizes(
                    epoch_at(window, j),
                    stake_rows_of(rows@, epoch_at(window, j)),
                ) && stats[j].balanced(),
        decreases count - done,
    {
        match concentration_at(rows, window.first + done) {
            Ok(s) => {
                stats.push(s);
            },
            Err(e) => {
                assert(fails_first_at(outcomes, done as int));
                return Err(e);
            },
        }
        done += 1;
    }
    Ok(stats)
}

/// Both cluster-wide series of the window. Block production is read first,
/// so its failure is the one reported where both fail.
pub fn load_cluster_info(
    last_epoch: Option<u64>,
    epochs: u64,
    block_production: &Vec<BlockProductionRow>,
    stakes: &Vec<EpochStakeRows>,
) -> (r: Result<ClusterStats, LoadError>)
    ensures
        match window_of(last_epoch, epochs) {
            None => r matches Ok(cluster) && cluster.block_production_stats@.len() == 0
                && cluster.dc_concentration_stats@.len() == 0,
            Some(window) => {
                &&& stops_at_first_failure(
                    r,
                    block_production_defects(block_production@) + concentration_defects(
                        stakes@,
                        window,
                    ),
                )
                &&& r matches Ok(cluster) ==> {
                    &&& cluster.block_production_stats@ == stats_after(
                        block_production@,
                        window.first,
                    )
                    &&& is_concentration_series(cluster.dc_concentration_stats@, stakes@, window)
                }
            },
        },
{
    let blocks = load_block_production_stats(last_epoch, epochs, block_production);
    let block_production_stats = match blocks {
        Ok(v) => v,
        Err(e) => {
            proof {
                let window = window_of(last_epoch, epochs).unwrap();
                lemma_passes_in_sequence::<Vec<BlockProductionStats>, ()>(
                    blocks,
                    Err(e),
                    block_production_defects(block_production@),
                    concentration_defects(stakes@, window),
                );
            }
            return Err(e);
        },
    };
    let concentrations = load_dc_concentration_stats(last_epoch, epochs, stakes);
    proof {
        if window_of(last_epoch, epochs) is Some {
            let window = window_of(last_epoch, epochs).unwrap();
            lemma_passes_in_sequence(
                blocks,
                concentrations,
                block_production_defects(block_production@),
                concentration_defects(stakes@, window),
            );
        }
    }
    let dc_concentration_stats = match concentrations {
        Ok(v) => v,
        Err(e) => {
            return Err(e);
        },
    };
    Ok(ClusterStats { block_production_stats, dc_concentration_stats })
}

} // verus!
