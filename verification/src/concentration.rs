//! Stake concentration: how much of an epoch's active stake sits with each
//! network, each organisation and each city.

use crate::grouping::{
    distinct_keys, first_position, lemma_distinct_keys, lemma_distinct_keys_push,
    lemma_first_position, lemma_no_position, lemma_positions, lemma_positions_nonempty,
    lemma_positions_push, positions,
};
use crate::numeric::{LoadError, Numeric};
use crate::records::Share;
use crate::text::{signed_decimal, signed_decimal_text};
use vstd::prelude::*;
use vstd::string::*;

verus! {

/// What one validator contributes to an epoch's concentration figures.
#[derive(Debug)]
pub struct StakeRow {
    pub activated_stake: Numeric,
    pub dc_aso: Option<String>,
    pub dc_asn: Option<i32>,
    pub dc_full_city: Option<String>,
}

/// The rows of one epoch.
#[derive(Debug)]
pub struct EpochStakeRows {
    pub epoch: u64,
    pub rows: Vec<StakeRow>,
}

/// The stake that sits under one grouping key.
#[derive(Debug, PartialEq, Eq)]
pub struct KeyedStake {
    pub key: String,
    pub stake: u64,
}

/// The three dimensions by which stake is grouped.
#[derive(Clone, Copy, Debug, PartialEq, Eq, Structural)]
pub enum Grouping {
    /// By autonomous-system number.
    Asn,
    /// By owning organisation.
    Aso,
    /// By continent, country and city.
    City,
}

/// One epoch's stake by network, by organisation and by city. In each
/// dimension every key occurs once and the stakes add up to
/// `total_activated_stake`, so the shares of a dimension add up to one.
#[derive(Debug, PartialEq, Eq)]
pub struct DCConcentrationStats {
    pub epoch: u64,
    pub total_activated_stake: u64,
    pub dc_stake_by_aso: Vec<KeyedStake>,
    pub dc_stake_by_asn: Vec<KeyedStake>,
    pub dc_stake_by_city: Vec<KeyedStake>,
}

/// The key under which rows without a grouping value are counted.
pub open spec fn unknown_key() -> Seq<char> {
    "Unknown"@
}

/// The grouping key of a textual value.
pub open spec fn text_key(value: Option<String>) -> Seq<char> {
    match value {
        Some(s) => s@,
        None => unknown_key(),
    }
}

/// The grouping key of a numeric value: its decimal numeral.
pub open spec fn number_key(value: Option<i32>) -> Seq<char> {
    match value {
        Some(n) => signed_decimal(n as int),
        None => unknown_key(),
    }
}

/// The key of `row` in the dimension `grouping`.
pub open spec fn row_key(row: StakeRow, grouping: Grouping) -> Seq<char> {
    match grouping {
        Grouping::Asn => number_key(row.dc_asn),
        Grouping::Aso => text_key(row.dc_aso),
        Grouping::City => text_key(row.dc_full_city),
    }
}

/// The keys of all rows in one dimension.
pub open spec fn row_keys(rows: Seq<StakeRow>, grouping: Grouping) -> Seq<Seq<char>> {
    Seq::new(rows.len(), |i: int| row_key(rows[i], grouping))
}

/// Whether every row's stake fits 64 unsigned bits.
pub open spec fn stakes_fit(rows: Seq<StakeRow>) -> bool {
    forall|i: int| 0 <= i < rows.len() ==> (#[trigger] rows[i]).activated_stake.as_u64() is Some
}

/// The stakes of all rows, with zero for one that does not fit.
pub open spec fn row_stakes(rows: Seq<StakeRow>) -> Seq<u64> {
    Seq::new(
        rows.len(),
        |i: int|
            match rows[i].activated_stake.as_u64() {
                Some(v) => v,
                None => 0,
            },
    )
}

/// The sum of all stakes.
pub open spec fn total_stake(stakes: Seq<u64>) -> int
    decreases stakes.len(),
{
    if stakes.len() == 0 {
        0
    } else {
        total_stake(stakes.drop_last()) + stakes.last()
    }
}

/// The sum of the stakes that stand at the indices `at`.
pub open spec fn stake_at(stakes: Seq<u64>, at: Seq<int>) -> int
    decreases at.len(),
{
    if at.len() == 0 {
        0
    } else {
        stake_at(stakes, at.drop_last()) + stakes[at.last()]
    }
}

/// For each key in order of first appearance, the sum of the stakes of the
/// rows that carry it.
pub open spec fn stake_by_key(keys: Seq<Seq<char>>, stakes: Seq<u64>) -> Seq<(Seq<char>, int)> {
    Seq::new(
        distinct_keys(keys).len(),
        |i: int| (distinct_keys(keys)[i], stake_at(stakes, positions(keys, distinct_keys(keys)[i]))),
    )
}

/// The sum of the stakes of all groups.
pub open spec fn group_total(groups: Seq<(Seq<char>, int)>) -> int
    decreases groups.len(),
{
    if groups.len() == 0 {
        0
    } else {
        group_total(groups.drop_last()) + groups.last().1
    }
}

/// The keys of a list of groups.
pub open spec fn group_keys(groups: Seq<(Seq<char>, int)>) -> Seq<Seq<char>> {
    Seq::new(groups.len(), |i: int| groups[i].0)
}

/// A list of keyed stakes as pairs of key and amount.
pub open spec fn keyed_view(groups: Seq<KeyedStake>) -> Seq<(Seq<char>, int)> {
    Seq::new(groups.len(), |i: int| (groups[i].key@, groups[i].stake as int))
}

/// `groups` with `amount` added under `key`: to the group that has the key, or
/// as a new last group.
pub open spec fn bump(groups: Seq<(Seq<char>, int)>, key: Seq<char>, amount: int) -> Seq<
    (Seq<char>, int),
> {
    match first_position(group_keys(groups), key) {
        Some(i) => groups.update(i, (key, groups[i].1 + amount)),
        None => groups.push((key, amount)),
    }
}

/// The share that `key` holds among `groups`, out of `total`.
pub open spec fn share_among(groups: Seq<(Seq<char>, int)>, key: Seq<char>, total: u64) -> Option<
    Share,
> {
    match first_position(group_keys(groups), key) {
        Some(i) => Some(Share { stake: groups[i].1 as u64, total }),
        None => None,
    }
}

proof fn lemma_stake_at_push(stakes: Seq<u64>, last: u64, at: Seq<int>)
    requires
        forall|i: int| 0 <= i < at.len() ==> 0 <= #[trigger] at[i] < stakes.len(),
    ensures
        stake_at(stakes.push(last), at) == stake_at(stakes, at),
        stake_at(stakes, at) >= 0,
    decreases at.len(),
{
    if at.len() > 0 {
        lemma_stake_at_push(stakes, last, at.drop_last());
    }
}

proof fn lemma_group_total_update(groups: Seq<(Seq<char>, int)>, at: int, key: Seq<char>, amount: int)
    requires
        0 <= at < groups.len(),
    ensures
        group_total(groups.update(at, (key, groups[at].1 + amount))) == group_total(groups)
            + amount,
    decreases groups.len(),
{
    let changed = groups.update(at, (key, groups[at].1 + amount));
    if at == groups.len() - 1 {
        assert(changed.drop_last() =~= groups.drop_last());
    } else {
        lemma_group_total_update(groups.drop_last(), at, key, amount);
        assert(changed.drop_last() =~= groups.drop_last().update(
            at,
            (key, groups[at].1 + amount),
        ));
    }
}

proof fn lemma_group_bounds(groups: Seq<(Seq<char>, int)>, at: int)
    requires
        0 <= at < groups.len(),
        forall|i: int| 0 <= i < groups.len() ==> (#[trigger] groups[i]).1 >= 0,
    ensures
        0 <= groups[at].1 <= group_total(groups),
    decreases groups.len(),
{
    if at < groups.len() - 1 {
        lemma_group_bounds(groups.drop_last(), at);
    } else {
        lemma_group_nonnegative(groups.drop_last());
    }
}

proof fn lemma_group_nonnegative(groups: Seq<(Seq<char>, int)>)
    requires
        forall|i: int| 0 <= i < groups.len() ==> (#[trigger] groups[i]).1 >= 0,
    ensures
        group_total(groups) >= 0,
    decreases groups.len(),
{
    if groups.len() > 0 {
        lemma_group_nonnegative(groups.drop_last());
    }
}

/// Adding one row adds its stake under its key and leaves the other groups
/// as they were.
pub proof fn lemma_stake_by_key_push(
    keys: Seq<Seq<char>>,
    stakes: Seq<u64>,
    key: Seq<char>,
    stake: u64,
)
    requires
        keys.len() == stakes.len(),
    ensures
        stake_by_key(keys.push(key), stakes.push(stake)) == bump(
            stake_by_key(keys, stakes),
            key,
            stake as int,
        ),
{
    let before = stake_by_key(keys, stakes);
    let names = distinct_keys(keys);
    lemma_distinct_keys(keys);
    lemma_distinct_keys_push(keys, key);
    assert(group_keys(before) =~= names);
    assert forall|i: int| 0 <= i < names.len() implies #[trigger] stake_at(
        stakes.push(stake),
        positions(keys.push(key), names[i]),
    ) == stake_at(stakes, positions(keys, names[i])) + if names[i] == key {
        stake as int
    } else {
        0
    } by {
        lemma_positions_push(keys, key, names[i]);
        lemma_positions(keys, names[i]);
        lemma_stake_at_push(stakes, stake, positions(keys, names[i]));
        if names[i] == key {
            let grown = positions(keys, names[i]).push(keys.len() as int);
            assert(grown.drop_last() =~= positions(keys, names[i]));
        }
    }
    if names.contains(key) {
        let at = choose|at: int| 0 <= at < names.len() && names[at] == key;
        lemma_first_position(names, key, at);
    } else {
        lemma_no_position(names, key);
        lemma_positions_nonempty(keys, key);
        lemma_positions_push(keys, key, key);
        let only = positions(keys, key).push(keys.len() as int);
        assert(stake_at(stakes.push(stake), only.drop_last()) == 0);
    }
}

/// The stakes of the groups add up to the stake of all rows: nothing is
/// counted twice and nothing is left out, whatever the keys are.
pub proof fn lemma_groups_cover_total(keys: Seq<Seq<char>>, stakes: Seq<u64>)
    requires
        keys.len() == stakes.len(),
    ensures
        group_total(stake_by_key(keys, stakes)) == total_stake(stakes),
        group_keys(stake_by_key(keys, stakes)) == distinct_keys(keys),
        group_keys(stake_by_key(keys, stakes)).no_duplicates(),
        forall|i: int|
            0 <= i < stake_by_key(keys, stakes).len() ==> 0 <= (#[trigger] stake_by_key(
                keys,
                stakes,
            )[i]).1 <= total_stake(stakes),
    decreases keys.len(),
{
    let groups = stake_by_key(keys, stakes);
    lemma_distinct_keys(keys);
    if keys.len() > 0 {
        let shorter = stake_by_key(keys.drop_last(), stakes.drop_last());
        lemma_groups_cover_total(keys.drop_last(), stakes.drop_last());
        lemma_stake_by_key_push(keys.drop_last(), stakes.drop_last(), keys.last(), stakes.last());
        assert(keys.drop_last().push(keys.last()) =~= keys);
        assert(stakes.drop_last().push(stakes.last()) =~= stakes);
        match first_position(group_keys(shorter), keys.last()) {
            Some(at) => {
                lemma_positions(group_keys(shorter), keys.last());
                lemma_group_total_update(shorter, at, keys.last(), stakes.last() as int);
            },
            None => {
                assert(groups.drop_last() =~= shorter);
            },
        }
    }
    assert forall|i: int| 0 <= i < groups.len() implies 0 <= (#[trigger] groups[i]).1 by {
        lemma_stake_at_nonnegative(stakes, positions(keys, distinct_keys(keys)[i]));
    }
    assert forall|i: int| 0 <= i < groups.len() implies (#[trigger] groups[i]).1 <= total_stake(
        stakes,
    ) by {
        lemma_group_bounds(groups, i);
    }
}

proof fn lemma_stake_at_nonnegative(stakes: Seq<u64>, at: Seq<int>)
    ensures
        stake_at(stakes, at) >= 0,
    decreases at.len(),
{
    if at.len() > 0 {
        lemma_stake_at_nonnegative(stakes, at.drop_last());
    }
}

proof fn lemma_total_stake_prefix(stakes: Seq<u64>, n: int)
    requires
        0 <= n <= stakes.len(),
    ensures
        0 <= total_stake(stakes.take(n)) <= total_stake(stakes),
    decreases stakes.len() - n,
{
    if n < stakes.len() {
        lemma_total_stake_prefix(stakes, n + 1);
        assert(stakes.take(n + 1).drop_last() =~= stakes.take(n));
        lemma_total_stake_nonnegative(stakes.take(n));
    } else {
        assert(stakes.take(n) =~= stakes);
        lemma_total_stake_nonnegative(stakes);
    }
}

proof fn lemma_total_stake_nonnegative(stakes: Seq<u64>)
    ensures
        total_stake(stakes) >= 0,
    decreases stakes.len(),
{
    if stakes.len() > 0 {
        lemma_total_stake_nonnegative(stakes.drop_last());
    }
}

/// The key under which a textual value is grouped.
pub fn text_key_of(value: &Option<String>) -> (r: String)
    ensures
        r@ == text_key(*value),
{
    match value {
        Some(s) => s.clone(),
        None => String::from_str("Unknown"),
    }
}

/// The key under which a numeric value is grouped.
pub fn number_key_of(value: Option<i32>) -> (r: String)
    ensures
        r@ == number_key(value),
{
    match value {
        Some(n) => signed_decimal_text(n),
        None => String::from_str("Unknown"),
    }
}

fn add_stake(groups: &mut Vec<KeyedStake>, key: String, stake: u64)
    requires
        forall|i: int| 0 <= i < old(groups).len() ==> old(groups)[i].stake + stake <= u64::MAX,
    ensures
        keyed_view(final(groups)@) == bump(keyed_view(old(groups)@), key@, stake as int),
{
    let ghost names = group_keys(keyed_view(groups@));
    let mut i: usize = 0;
    while i < groups.len()
        invariant
            i <= groups.len(),
            groups@ == old(groups)@,
            names == group_keys(keyed_view(groups@)),
            forall|j: int| 0 <= j < i ==> names[j] != key@,
            forall|i: int| 0 <= i < groups.len() ==> groups[i].stake + stake <= u64::MAX,
        decreases groups.len() - i,
    {
        if groups[i].key == key {
            let sum: u64 = groups[i].stake + stake;
            proof {
                lemma_first_position(names, key@, i as int);
            }
            groups.set(i, KeyedStake { key, stake: sum });
            return ;
        }
        i += 1;
    }
    proof {
        lemma_no_position(names, key@);
    }
    groups.push(KeyedStake { key, stake });
}

impl DCConcentrationStats {
    /// The groups of one dimension.
    pub open spec fn groups(self, grouping: Grouping) -> Seq<(Seq<char>, int)> {
        match grouping {
            Grouping::Asn => keyed_view(self.dc_stake_by_asn@),
            Grouping::Aso => keyed_view(self.dc_stake_by_aso@),
            Grouping::City => keyed_view(self.dc_stake_by_city@),
        }
    }

    /// Whether these are the figures of `rows`, taken as the rows of `epoch`.
    pub open spec fn summarizes(self, epoch: u64, rows: Seq<StakeRow>) -> bool {
        &&& self.epoch == epoch
        &&& self.total_activated_stake == total_stake(row_stakes(rows))
        &&& self.groups(Grouping::Asn) == stake_by_key(
            row_keys(rows, Grouping::Asn),
            row_stakes(rows),
        )
        &&& self.groups(Grouping::Aso) == stake_by_key(
            row_keys(rows, Grouping::Aso),
            row_stakes(rows),
        )
        &&& self.groups(Grouping::City) == stake_by_key(
            row_keys(rows, Grouping::City),
            row_stakes(rows),
        )
    }

    /// In each dimension no key occurs twice and the stakes of the groups add
    /// up to the total.
    pub open spec fn balanced(self) -> bool {
        forall|grouping: Grouping|
            #![trigger self.groups(grouping)]
            group_keys(self.groups(grouping)).no_duplicates() && group_total(
                self.groups(grouping),
            ) == self.total_activated_stake
    }

    /// The share of the total that sits under `key` in one dimension, or
    /// nothing if no row carried that key.
    pub fn concentration(&self, grouping: Grouping, key: &String) -> (r: Option<Share>)
        ensures
            r == share_among(self.groups(grouping), key@, self.total_activated_stake),
    {
        let groups = match grouping {
            Grouping::Asn => &self.dc_stake_by_asn,
            Grouping::Aso => &self.dc_stake_by_aso,
            Grouping::City => &self.dc_stake_by_city,
        };
        let ghost names = group_keys(keyed_view(groups@));
        let mut i: usize = 0;
        while i < groups.len()
            invariant
                i <= groups.len(),
                keyed_view(groups@) == self.groups(grouping),
                names == group_keys(keyed_view(groups@)),
                forall|j: int| 0 <= j < i ==> names[j] != key@,
            decreases groups.len() - i,
        {
            if groups[i].key == *key {
                proof {
                    lemma_first_position(names, key@, i as int);
                }
                return Some(Share { stake: groups[i].stake, total: self.total_activated_stake });
            }
            i += 1;
        }
        proof {
            lemma_no_position(names, key@);
        }
        None
    }
}

/// A share is a part of the whole: where the stakes of a dimension add up to
/// the total, no key holds more than the total.
pub proof fn lemma_share_is_part_of_whole(
    stats: DCConcentrationStats,
    grouping: Grouping,
    key: Seq<char>,
)
    requires
        stats.balanced(),
    ensures
        share_among(stats.groups(grouping), key, stats.total_activated_stake) matches Some(share)
            ==> share.stake <= share.total,
{
    let groups = stats.groups(grouping);
    match first_position(group_keys(groups), key) {
        Some(at) => {
            lemma_positions(group_keys(groups), key);
            assert(group_total(groups) == stats.total_activated_stake);
            lemma_group_bounds(groups, at);
        },
        None => {},
    }
}

/// The concentration figures of one epoch. Fails if a stake, or the sum of
/// all stakes, does not fit 64 unsigned bits.
pub fn concentration_of_epoch(epoch: u64, rows: &Vec<StakeRow>) -> (r: Result<
    DCConcentrationStats,
    LoadError,
>)
    ensures
        match r {
            Ok(stats) => {
                &&& stakes_fit(rows@)
                &&& total_stake(row_stakes(rows@)) <= u64::MAX
                &&& stats.summarizes(epoch, rows@)
                &&& stats.balanced()
            },
            Err(e) => {
                &&& e == LoadError::ExceedsU64
                &&& !(stakes_fit(rows@) && total_stake(row_stakes(rows@)) <= u64::MAX)
            },
        },
{
    let mut by_aso: Vec<KeyedStake> = Vec::new();
    let mut by_asn: Vec<KeyedStake> = Vec::new();
    let mut by_city: Vec<KeyedStake> = Vec::new();
    let mut total: u64 = 0;
    let ghost stakes = row_stakes(rows@);
    let ghost asn_keys = row_keys(rows@, Grouping::Asn);
    let ghost aso_keys = row_keys(rows@, Grouping::Aso);
    let ghost city_keys = row_keys(rows@, Grouping::City);
    let mut i: usize = 0;
    while i < rows.len()
        invariant
            i <= rows.len(),
            stakes == row_stakes(rows@),
            asn_keys == row_keys(rows@, Grouping::Asn),
            aso_keys == row_keys(rows@, Grouping::Aso),
            city_keys == row_keys(rows@, Grouping::City),
            forall|j: int| 0 <= j < i ==> (#[trigger] rows[j]).activated_stake.as_u64() is Some,
            total == total_stake(stakes.take(i as int)),
            keyed_view(by_asn@) == stake_by_key(asn_keys.take(i as int), stakes.take(i as int)),
            keyed_view(by_aso@) == stake_by_key(aso_keys.take(i as int), stakes.take(i as int)),
            keyed_view(by_city@) == stake_by_key(city_keys.take(i as int), stakes.take(i as int)),
        decreases rows.len() - i,
    {
        let row = &rows[i];
        let ghost next = i + 1;
        proof {
            assert(stakes.take(next).drop_last() =~= stakes.take(i as int));
            assert(stakes.take(next) =~= stakes.take(i as int).push(stakes[i as int]));
            assert(asn_keys.take(next) =~= asn_keys.take(i as int).push(asn_keys[i as int]));
            assert(aso_keys.take(next) =~= aso_keys.take(i as int).push(aso_keys[i as int]));
            assert(city_keys.take(next) =~= city_keys.take(i as int).push(city_keys[i as int]));
            lemma_total_stake_prefix(stakes, next);
        }
        let stake = match row.activated_stake.to_u64() {
            Ok(v) => v,
            Err(_) => {
                return Err(LoadError::ExceedsU64);
            },
        };
        let sum = match total.checked_add(stake) {
            Some(v) => v,
            None => {
                return Err(LoadError::ExceedsU64);
            },
        };
        proof {
            lemma_groups_cover_total(asn_keys.take(i as int), stakes.take(i as int));
            lemma_groups_cover_total(aso_keys.take(i as int), stakes.take(i as int));
            lemma_groups_cover_total(city_keys.take(i as int), stakes.take(i as int));
            lemma_stake_by_key_push(
                asn_keys.take(i as int),
                stakes.take(i as int),
                asn_keys[i as int],
                stake,
            );
            lemma_stake_by_key_push(
                aso_keys.take(i as int),
                stakes.take(i as int),
                aso_keys[i as int],
                stake,
            );
            lemma_stake_by_key_push(
                city_keys.take(i as int),
                stakes.take(i as int),
                city_keys[i as int],
                stake,
            );
            assert forall|j: int| 0 <= j < by_asn.len() implies by_asn[j].stake + stake
                <= u64::MAX by {
                assert(keyed_view(by_asn@)[j].1 == by_asn[j].stake);
            }
            assert forall|j: int| 0 <= j < by_aso.len() implies by_aso[j].stake + stake
                <= u64::MAX by {
                assert(keyed_view(by_aso@)[j].1 == by_aso[j].stake);
            }
            assert forall|j: int| 0 <= j < by_city.len() implies by_city[j].stake + stake
                <= u64::MAX by {
                assert(keyed_view(by_city@)[j].1 == by_city[j].stake);
            }
        }
        add_stake(&mut by_asn, number_key_of(row.dc_asn), stake);
        add_stake(&mut by_aso, text_key_of(&row.dc_aso), stake);
        add_stake(&mut by_city, text_key_of(&row.dc_full_city), stake);
        total = sum;
        i += 1;
    }
    proof {
        assert(stakes.take(i as int) =~= stakes);
        assert(asn_keys.take(i as int) =~= asn_keys);
        assert(aso_keys.take(i as int) =~= aso_keys);
        assert(city_keys.take(i as int) =~= city_keys);
        lemma_groups_cover_total(asn_keys, stakes);
        lemma_groups_cover_total(aso_keys, stakes);
        lemma_groups_cover_total(city_keys, stakes);
    }
    Ok(
        DCConcentrationStats {
            epoch,
            total_activated_stake: total,
            dc_stake_by_aso: by_aso,
            dc_stake_by_asn: by_asn,
            dc_stake_by_city: by_city,
        },
    )
}

} // verus!
