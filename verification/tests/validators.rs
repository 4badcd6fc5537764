use std::collections::HashMap;
use validator_store::averages::{
    average_of, present_values, update_validators_with_avgs, Averaged,
};
use validator_store::concentration::{concentration_of_epoch, StakeRow};
use validator_store::numeric::{LoadError, Numeric};
use validator_store::ranking::{update_validators_ranks, RankMetric};
use validator_store::records::{IdentityRecords, Real, Share, Timestamp, WarningRecord};
use validator_store::refresh::{estimate_yields, load_validators};
use validator_store::validators::{
    aggregate_rows, find_record, location_shares, warnings_of, LocationShares, ValidatorRecord,
    ValidatorRow, YieldEstimate,
};
use validator_store::window::Lookback;
use validator_store::yields::{
    get_apy_calculators, yield_request, yield_requests, InflationApyCalculator, InflationRow,
    YieldRequest, DEFAULT_COMMISSION,
};

fn number(value: f64) -> Real {
    Real { bits: value.to_bits() }
}

fn row(identity: &str, epoch: u64, stake: u64) -> ValidatorRow {
    ValidatorRow {
        identity: identity.to_string(),
        vote_account: format!("vote-{}", identity),
        epoch: Numeric::from_u64(epoch),
        info_name: Some(format!("name of {}", identity)),
        info_url: None,
        info_keybase: None,
        node_ip: Some("10.0.0.1".to_string()),
        dc_coordinates_lat: Some(number(50.1)),
        dc_coordinates_lon: Some(number(8.6)),
        dc_continent: Some("EU".to_string()),
        dc_country_iso: Some("DE".to_string()),
        dc_country: Some("Germany".to_string()),
        dc_city: Some("Frankfurt".to_string()),
        dc_full_city: Some("EU/Germany/Frankfurt".to_string()),
        dc_asn: Some(24940),
        dc_aso: Some("Hetzner".to_string()),
        commission_max_observed: Some(10),
        commission_min_observed: Some(5),
        commission_advertised: Some(7),
        commission_effective: Some(8),
        version: Some("1.14.17".to_string()),
        mnde_votes: Some(Numeric::from_u64(3)),
        activated_stake: Numeric::from_u64(stake),
        marinade_stake: Numeric::from_u64(11),
        decentralizer_stake: Numeric::from_u64(12),
        superminority: false,
        stake_to_become_superminority: Numeric::from_u64(13),
        credits: Numeric::from_u64(400_000),
        leader_slots: Numeric::from_u64(100),
        blocks_produced: Numeric::from_u64(95),
        skip_rate: number(0.05),
        uptime_pct: Some(number(0.99)),
        uptime: Some(Numeric::from_u64(1000)),
        downtime: Some(Numeric::from_u64(10)),
        first_epoch: Numeric::from_u64(100),
    }
}

fn estimate(apy_milli: u64) -> YieldEstimate {
    YieldEstimate { apr: number(0.07), apy: number(0.0725), apy_milli }
}

fn warning(code: &str) -> WarningRecord {
    WarningRecord {
        code: code.to_string(),
        message: format!("{} raised", code),
        details: None,
        created_at: Timestamp { micros: 77 },
    }
}

#[test]
fn rows_fold_into_one_record_per_validator() {
    let rows = vec![row("a", 402, 50), row("b", 402, 70), row("a", 401, 40), row("a", 400, 30)];
    let records = aggregate_rows(&rows, &vec![], &vec![], &None).unwrap();
    assert_eq!(records.len(), 2);
    assert_eq!(records[0].identity, "a");
    assert_eq!(records[1].identity, "b");
    let epochs: Vec<u64> = records[0].epoch_stats.iter().map(|s| s.epoch).collect();
    assert_eq!(epochs, vec![402, 401, 400]);
    let stakes: Vec<u64> = records[0].epoch_stats.iter().map(|s| s.activated_stake).collect();
    assert_eq!(stakes, vec![50, 40, 30]);
    assert_eq!(records[1].epoch_stats.len(), 1);
    assert_eq!(records[1].epoch_stats[0].activated_stake, 70);
}

#[test]
fn the_first_row_of_a_validator_fills_its_record() {
    let mut latest = row("a", 402, 50);
    latest.version = Some("1.16.0".to_string());
    latest.commission_effective = Some(9);
    latest.superminority = true;
    let rows = vec![latest, row("a", 401, 40)];
    let records = aggregate_rows(&rows, &vec![], &vec![], &None).unwrap();
    let record = &records[0];
    assert_eq!(record.identity, "a");
    assert_eq!(record.vote_account, "vote-a");
    assert_eq!(record.info_name, Some("name of a".to_string()));
    assert_eq!(record.info_url, None);
    assert_eq!(record.node_ip, Some("10.0.0.1".to_string()));
    assert_eq!(record.dc_coordinates_lat, Some(number(50.1)));
    assert_eq!(record.dc_coordinates_lon, Some(number(8.6)));
    assert_eq!(record.dc_continent, Some("EU".to_string()));
    assert_eq!(record.dc_country_iso, Some("DE".to_string()));
    assert_eq!(record.dc_country, Some("Germany".to_string()));
    assert_eq!(record.dc_city, Some("Frankfurt".to_string()));
    assert_eq!(record.dc_full_city, Some("EU/Germany/Frankfurt".to_string()));
    assert_eq!(record.dc_asn, Some(24940));
    assert_eq!(record.dc_aso, Some("Hetzner".to_string()));
    assert_eq!(record.commission_max_observed, Some(10));
    assert_eq!(record.commission_min_observed, Some(5));
    assert_eq!(record.commission_advertised, Some(7));
    assert_eq!(record.commission_effective, Some(9));
    assert_eq!(record.commission_aggregated, None);
    assert_eq!(record.version, Some("1.16.0".to_string()));
    assert_eq!(record.mnde_votes, Some(3));
    assert_eq!(record.activated_stake, 50);
    assert_eq!(record.marinade_stake, 11);
    assert_eq!(record.decentralizer_stake, 12);
    assert!(record.superminority);
    assert_eq!(record.credits, 400_000);
    assert_eq!(record.marinade_score, 0);
    assert_eq!(record.avg_apy, None);
    assert_eq!(record.avg_uptime_pct, None);
    assert_eq!(record.epoch_stats[1].version, Some("1.14.17".to_string()));
    assert_eq!(record.epoch_stats[1].commission_effective, Some(8));
    assert!(!record.epoch_stats[1].superminority);
}

#[test]
fn history_entries_hold_the_figures_of_their_rows() {
    let rows = vec![row("a", 402, 50)];
    let records = aggregate_rows(&rows, &vec![Some(estimate(72))], &vec![], &None).unwrap();
    let stats = &records[0].epoch_stats[0];
    assert_eq!(stats.epoch, 402);
    assert_eq!(stats.commission_max_observed, Some(10));
    assert_eq!(stats.commission_min_observed, Some(5));
    assert_eq!(stats.commission_advertised, Some(7));
    assert_eq!(stats.commission_effective, Some(8));
    assert_eq!(stats.mnde_votes, Some(3));
    assert_eq!(stats.marinade_stake, 11);
    assert_eq!(stats.decentralizer_stake, 12);
    assert_eq!(stats.stake_to_become_superminority, 13);
    assert_eq!(stats.credits, 400_000);
    assert_eq!(stats.leader_slots, 100);
    assert_eq!(stats.blocks_produced, 95);
    assert_eq!(stats.skip_rate, number(0.05));
    assert_eq!(stats.uptime_pct, Some(number(0.99)));
    assert_eq!(stats.uptime, Some(1000));
    assert_eq!(stats.downtime, Some(10));
    assert_eq!(stats.apr, Some(number(0.07)));
    assert_eq!(stats.apy, Some(number(0.0725)));
    assert_eq!(stats.apy_milli, Some(72));
    assert_eq!(stats.marinade_score, 0);
    assert_eq!(stats.rank_apy, None);
    assert_eq!(stats.rank_marinade_score, None);
    assert_eq!(stats.rank_activated_stake, None);
}

#[test]
fn a_row_without_estimate_has_no_yield() {
    let rows = vec![row("a", 402, 50), row("a", 401, 40), row("a", 400, 30)];
    let yields = vec![Some(estimate(72)), None];
    let records = aggregate_rows(&rows, &yields, &vec![], &None).unwrap();
    let apys: Vec<Option<Real>> = records[0].epoch_stats.iter().map(|s| s.apy).collect();
    assert_eq!(apys, vec![Some(number(0.0725)), None, None]);
    let aprs: Vec<Option<Real>> = records[0].epoch_stats.iter().map(|s| s.apr).collect();
    assert_eq!(aprs, vec![Some(number(0.07)), None, None]);
}

#[test]
fn epochs_are_counted_from_the_first_ever_to_the_latest() {
    let rows = vec![row("a", 402, 50), row("a", 401, 40), row("a", 400, 30)];
    let records = aggregate_rows(&rows, &vec![], &vec![], &None).unwrap();
    assert_eq!(records[0].epochs_count, 402 - 100 + 1);
}

#[test]
fn the_count_of_epochs_does_not_depend_on_the_window() {
    let wide = vec![
        row("a", 402, 50),
        row("b", 402, 70),
        row("a", 401, 40),
        row("b", 401, 60),
        row("a", 400, 30),
    ];
    let narrow = vec![row("a", 402, 50), row("b", 402, 70)];
    let of_wide = aggregate_rows(&wide, &vec![], &vec![], &None).unwrap();
    let of_narrow = aggregate_rows(&narrow, &vec![], &vec![], &None).unwrap();
    assert_eq!(of_wide.len(), of_narrow.len());
    for (w, n) in of_wide.iter().zip(of_narrow.iter()) {
        assert_eq!(w.identity, n.identity);
        assert_eq!(w.epochs_count, 303);
        assert_eq!(n.epochs_count, 303);
    }
    assert_eq!(of_wide[0].epoch_stats.len(), 3);
    assert_eq!(of_narrow[0].epoch_stats.len(), 1);
}

#[test]
fn a_validator_seen_once_has_one_epoch() {
    let mut only = row("a", 100, 50);
    only.first_epoch = Numeric::from_u64(100);
    let records = aggregate_rows(&vec![only], &vec![], &vec![], &None).unwrap();
    assert_eq!(records[0].epochs_count, 1);
}

#[test]
fn warnings_are_attached_by_identity() {
    let warnings = vec![
        IdentityRecords { identity: "b".to_string(), records: vec![warning("LOW_UPTIME")] },
        IdentityRecords {
            identity: "a".to_string(),
            records: vec![warning("HIGH_COMMISSION"), warning("LOW_CREDITS")],
        },
    ];
    let rows = vec![row("a", 402, 50), row("c", 402, 70)];
    let records = aggregate_rows(&rows, &vec![], &warnings, &None).unwrap();
    assert_eq!(records[0].warnings, vec![warning("HIGH_COMMISSION"), warning("LOW_CREDITS")]);
    assert_eq!(records[1].warnings, vec![]);
    assert_eq!(warnings_of(&warnings, &"b".to_string()), vec![warning("LOW_UPTIME")]);
    assert_eq!(warnings_of(&warnings, &"z".to_string()), vec![]);
}

#[test]
fn shares_are_attached_by_location() {
    let stake_rows = vec![
        StakeRow {
            activated_stake: Numeric::from_u64(60),
            dc_aso: Some("Hetzner".to_string()),
            dc_asn: Some(24940),
            dc_full_city: Some("EU/Germany/Frankfurt".to_string()),
        },
        StakeRow {
            activated_stake: Numeric::from_u64(40),
            dc_aso: None,
            dc_asn: None,
            dc_full_city: None,
        },
    ];
    let concentration = Some(concentration_of_epoch(402, &stake_rows).unwrap());
    let mut nowhere = row("b", 402, 40);
    nowhere.dc_aso = None;
    nowhere.dc_asn = None;
    nowhere.dc_full_city = None;
    let mut elsewhere = row("c", 402, 1);
    elsewhere.dc_aso = Some("OVH".to_string());
    elsewhere.dc_asn = Some(16276);
    elsewhere.dc_full_city = Some("EU/France/Roubaix".to_string());
    let rows = vec![row("a", 402, 60), nowhere, elsewhere];
    let records = aggregate_rows(&rows, &vec![], &vec![], &concentration).unwrap();
    assert_eq!(records[0].dcc_full_city, Some(Share { stake: 60, total: 100 }));
    assert_eq!(records[0].dcc_asn, Some(Share { stake: 60, total: 100 }));
    assert_eq!(records[0].dcc_aso, Some(Share { stake: 60, total: 100 }));
    assert_eq!(records[1].dcc_full_city, Some(Share { stake: 40, total: 100 }));
    assert_eq!(records[1].dcc_asn, Some(Share { stake: 40, total: 100 }));
    assert_eq!(records[1].dcc_aso, Some(Share { stake: 40, total: 100 }));
    assert_eq!(records[1].dc_full_city, None);
    assert_eq!(records[2].dcc_full_city, None);
    assert_eq!(records[2].dcc_asn, None);
    assert_eq!(records[2].dcc_aso, None);
    assert_eq!(
        location_shares(&None, &None, None, &None),
        LocationShares { full_city: None, asn: None, aso: None }
    );
}

#[test]
fn rows_that_do_not_fit_fail() {
    let mut negative_stake = row("a", 402, 50);
    negative_stake.activated_stake = Numeric::new(-1, 0).unwrap();
    assert_eq!(
        aggregate_rows(&vec![negative_stake], &vec![], &vec![], &None),
        Err(LoadError::ExceedsU64)
    );
    let mut high_commission = row("a", 402, 50);
    high_commission.commission_max_observed = Some(256);
    assert_eq!(
        aggregate_rows(&vec![high_commission], &vec![], &vec![], &None),
        Err(LoadError::ExceedsU8)
    );
    let mut negative_commission = row("a", 402, 50);
    negative_commission.commission_effective = Some(-1);
    assert_eq!(
        aggregate_rows(&vec![negative_commission], &vec![], &vec![], &None),
        Err(LoadError::ExceedsU8)
    );
    let mut late_first = row("a", 402, 50);
    late_first.first_epoch = Numeric::from_u64(403);
    assert_eq!(
        aggregate_rows(&vec![late_first], &vec![], &vec![], &None),
        Err(LoadError::EpochSpan)
    );
    let mut whole_range = row("a", u64::MAX, 50);
    whole_range.first_epoch = Numeric::from_u64(0);
    assert_eq!(
        aggregate_rows(&vec![whole_range], &vec![], &vec![], &None),
        Err(LoadError::EpochSpan)
    );
    let mut large_uptime = row("a", 402, 50);
    large_uptime.uptime = Some(Numeric::new(1i128 << 70, 0).unwrap());
    assert_eq!(
        aggregate_rows(&vec![large_uptime], &vec![], &vec![], &None),
        Err(LoadError::ExceedsU64)
    );
}

#[test]
fn the_first_row_that_does_not_fit_decides_the_error() {
    let mut high_commission = row("a", 402, 50);
    high_commission.commission_advertised = Some(1000);
    let mut negative_credits = row("b", 402, 50);
    negative_credits.credits = Numeric::new(-5, 0).unwrap();
    let first = vec![row("c", 402, 1), high_commission, negative_credits];
    assert_eq!(aggregate_rows(&first, &vec![], &vec![], &None), Err(LoadError::ExceedsU8));
    let mut both = row("a", 402, 50);
    both.commission_advertised = Some(1000);
    both.credits = Numeric::new(-5, 0).unwrap();
    assert_eq!(aggregate_rows(&vec![both], &vec![], &vec![], &None), Err(LoadError::ExceedsU64));
}

#[test]
fn optional_figures_may_be_absent() {
    let mut bare = row("a", 402, 50);
    bare.commission_max_observed = None;
    bare.commission_min_observed = None;
    bare.commission_advertised = None;
    bare.commission_effective = None;
    bare.mnde_votes = None;
    bare.uptime = None;
    bare.downtime = None;
    bare.uptime_pct = None;
    bare.version = None;
    let (stats, epochs_count) = bare.narrow(None).unwrap();
    assert_eq!(epochs_count, 303);
    assert_eq!(stats.commission_effective, None);
    assert_eq!(stats.mnde_votes, None);
    assert_eq!(stats.uptime, None);
    assert_eq!(stats.downtime, None);
    assert_eq!(stats.uptime_pct, None);
    assert_eq!(stats.version, None);
    assert_eq!(stats.apy, None);
}

#[test]
fn fractions_of_stored_numbers_are_dropped() {
    let mut fractional = row("a", 402, 50);
    fractional.credits = Numeric::new(1_234_567, 3).unwrap();
    let (stats, _) = fractional.narrow(None).unwrap();
    assert_eq!(stats.credits, 1234);
}

#[test]
fn records_are_found_by_identity() {
    let rows = vec![row("a", 402, 50), row("b", 402, 70)];
    let records = aggregate_rows(&rows, &vec![], &vec![], &None).unwrap();
    assert_eq!(find_record(&records, &"b".to_string()), Some(1));
    assert_eq!(find_record(&records, &"a".to_string()), Some(0));
    assert_eq!(find_record(&records, &"vote-a".to_string()), None);
}

fn inflation_row(epoch: u64, duration: i32, credits: i128) -> InflationRow {
    InflationRow {
        epoch: Numeric::from_u64(epoch),
        duration,
        supply: Numeric::from_u64(1_000_000_000),
        inflation: number(0.08),
        inflation_taper: number(0.15),
        total_weighted_credits: Numeric::new(credits, 0).unwrap(),
    }
}

fn calculator(duration: u64, credits: u128) -> InflationApyCalculator {
    InflationApyCalculator {
        supply: 1_000_000_000,
        duration,
        inflation: number(0.08),
        inflation_taper: number(0.15),
        total_weighted_credits: credits,
    }
}

#[test]
fn inflation_figures_are_kept_by_epoch() {
    let rows = vec![
        inflation_row(400, 172800, 1_000_000_000_000_000),
        inflation_row(401, 172000, 2_000_000_000_000_000),
        inflation_row(400, 171000, 3_000_000_000_000_000),
    ];
    let calculators = get_apy_calculators(&rows).unwrap();
    assert_eq!(calculators.len(), 2);
    assert_eq!(calculators[&400], calculator(171000, 3_000_000_000_000_000));
    assert_eq!(calculators[&401], calculator(172000, 2_000_000_000_000_000));
}

#[test]
fn inflation_figures_that_do_not_fit_fail() {
    assert_eq!(
        get_apy_calculators(&vec![inflation_row(400, -1, 1)]),
        Err(LoadError::ExceedsU64)
    );
    assert_eq!(
        get_apy_calculators(&vec![inflation_row(400, 1, -1)]),
        Err(LoadError::ExceedsU128)
    );
    let mut negative_supply = inflation_row(400, 1, -1);
    negative_supply.supply = Numeric::new(-1, 0).unwrap();
    assert_eq!(get_apy_calculators(&vec![negative_supply]), Err(LoadError::ExceedsU64));
    let large = inflation_row(400, 1, (1i128 << 96) - 1);
    assert_eq!(
        get_apy_calculators(&vec![large]).unwrap()[&400].total_weighted_credits,
        (1u128 << 96) - 1
    );
}

#[test]
fn an_estimate_is_owed_where_the_epoch_has_inflation_figures() {
    let mut calculators = HashMap::new();
    calculators.insert(402, calculator(172800, 1_000_000_000_000_000));
    let known = row("a", 402, 1_000_000);
    assert_eq!(
        yield_request(&known, &calculators),
        Ok(Some(YieldRequest {
            calculator: calculator(172800, 1_000_000_000_000_000),
            credits: 400_000,
            stake: 1_000_000,
            commission: 8,
        }))
    );
    assert_eq!(yield_request(&row("a", 401, 1_000_000), &calculators), Ok(None));
}

#[test]
fn an_unknown_commission_counts_as_all_of_the_rewards() {
    let mut calculators = HashMap::new();
    calculators.insert(402, calculator(172800, 1_000_000_000_000_000));
    let mut unknown = row("a", 402, 1_000_000);
    unknown.commission_effective = None;
    let request = yield_request(&unknown, &calculators).unwrap().unwrap();
    assert_eq!(request.commission, 100);
    assert_eq!(DEFAULT_COMMISSION, 100);
}

#[test]
fn requests_follow_the_rows() {
    let mut calculators = HashMap::new();
    calculators.insert(402, calculator(172800, 1_000_000_000_000_000));
    let rows = vec![row("a", 402, 5), row("a", 401, 4), row("b", 402, 3)];
    let requests = yield_requests(&rows, &calculators).unwrap();
    let stakes: Vec<Option<u64>> = requests.iter().map(|r| r.map(|q| q.stake)).collect();
    assert_eq!(stakes, vec![Some(5), None, Some(3)]);
    let mut broken = row("c", 402, 1);
    broken.leader_slots = Numeric::new(-1, 0).unwrap();
    assert_eq!(
        yield_requests(&vec![row("a", 402, 5), broken], &calculators),
        Err(LoadError::ExceedsU64)
    );
}

#[test]
fn estimates_are_asked_of_the_estimator() {
    let mut calculators = HashMap::new();
    calculators.insert(402, calculator(172800, 1_000_000_000_000_000));
    let rows = vec![row("a", 402, 5), row("a", 401, 4)];
    let by_stake = |request: YieldRequest| estimate(request.stake * 10);
    let yields = estimate_yields(&rows, &calculators, &by_stake).unwrap();
    assert_eq!(yields, vec![Some(estimate(50)), None]);
}

fn record_with(identity: &str, entries: Vec<(u64, u64, Option<f64>, Option<f64>)>) -> ValidatorRecord {
    let rows: Vec<ValidatorRow> = entries
        .iter()
        .map(|(epoch, stake, _, uptime_pct)| {
            let mut r = row(identity, *epoch, *stake);
            r.uptime_pct = uptime_pct.map(number);
            r
        })
        .collect();
    let yields: Vec<Option<YieldEstimate>> = entries
        .iter()
        .map(|(_, _, apy, _)| {
            apy.map(|a| YieldEstimate { apr: number(a), apy: number(a), apy_milli: (a * 1000.0) as u64 })
        })
        .collect();
    aggregate_rows(&rows, &yields, &vec![], &None).unwrap().pop().unwrap()
}

fn mean(values: Vec<Real>) -> Real {
    let sum: f64 = values.iter().map(|v| f64::from_bits(v.bits)).sum();
    number(sum / values.len() as f64)
}

#[test]
fn averages_are_taken_over_the_known_values() {
    let mut records = vec![record_with(
        "a",
        vec![(402, 1, Some(0.06), Some(1.0)), (401, 1, None, Some(0.5)), (400, 1, Some(0.08), None)],
    )];
    update_validators_with_avgs(&mut records, &mean);
    assert_eq!(records[0].avg_apy, Some(number((0.06 + 0.08) / 2.0)));
    assert_eq!(records[0].avg_uptime_pct, Some(number(0.75)));
}

#[test]
fn an_average_of_nothing_is_absent() {
    let mut records = vec![
        record_with("a", vec![(402, 1, None, None), (401, 1, None, None)]),
        record_with("b", vec![(402, 1, None, Some(0.25))]),
    ];
    update_validators_with_avgs(&mut records, &mean);
    assert_eq!(records[0].avg_apy, None);
    assert_eq!(records[0].avg_uptime_pct, None);
    assert_eq!(records[1].avg_apy, None);
    assert_eq!(records[1].avg_uptime_pct, Some(number(0.25)));
}

#[test]
fn a_validator_without_history_has_no_averages() {
    let mut record = record_with("a", vec![(402, 1, Some(0.5), Some(0.5))]);
    record.epoch_stats.clear();
    let mut records = vec![record];
    update_validators_with_avgs(&mut records, &mean);
    assert_eq!(records[0].avg_apy, None);
    assert_eq!(records[0].avg_uptime_pct, None);
}

#[test]
fn averaging_changes_nothing_but_the_averages() {
    let before = record_with("a", vec![(402, 1, Some(0.06), Some(1.0))]);
    let mut records = vec![record_with("a", vec![(402, 1, Some(0.06), Some(1.0))])];
    update_validators_with_avgs(&mut records, &mean);
    let mut after = records.pop().unwrap();
    assert_eq!(after.avg_apy, Some(number(0.06)));
    after.avg_apy = None;
    after.avg_uptime_pct = None;
    assert_eq!(after, before);
}

#[test]
fn known_values_are_gathered_in_order() {
    let record = record_with(
        "a",
        vec![(402, 1, Some(0.06), None), (401, 1, None, Some(0.5)), (400, 1, Some(0.08), None)],
    );
    assert_eq!(
        present_values(&record.epoch_stats, Averaged::Apy),
        vec![number(0.06), number(0.08)]
    );
    assert_eq!(present_values(&record.epoch_stats, Averaged::UptimePct), vec![number(0.5)]);
    let first = |values: Vec<Real>| values[0];
    assert_eq!(average_of(&record.epoch_stats, Averaged::Apy, &first), Some(number(0.06)));
    assert_eq!(average_of(&vec![], Averaged::Apy, &first), None);
}

fn ranks(records: &Vec<ValidatorRecord>, metric: RankMetric) -> Vec<Vec<Option<usize>>> {
    records
        .iter()
        .map(|r| {
            r.epoch_stats
                .iter()
                .map(|s| match metric {
                    RankMetric::ActivatedStake => s.rank_activated_stake,
                    RankMetric::MarinadeScore => s.rank_marinade_score,
                    RankMetric::Apy => s.rank_apy,
                })
                .collect()
        })
        .collect()
}

#[test]
fn tied_validators_share_the_rank_of_their_last_place() {
    let mut records = vec![
        record_with("a", vec![(402, 10, None, None)]),
        record_with("b", vec![(402, 10, None, None)]),
        record_with("c", vec![(402, 10, None, None)]),
        record_with("d", vec![(402, 7, None, None)]),
    ];
    update_validators_ranks(&mut records, RankMetric::ActivatedStake);
    assert_eq!(
        ranks(&records, RankMetric::ActivatedStake),
        vec![vec![Some(3)], vec![Some(3)], vec![Some(3)], vec![Some(4)]]
    );
}

#[test]
fn the_only_highest_value_has_rank_one() {
    let mut records = vec![
        record_with("a", vec![(402, 5, None, None)]),
        record_with("b", vec![(402, 9, None, None)]),
        record_with("c", vec![(402, 7, None, None)]),
        record_with("d", vec![(402, 7, None, None)]),
        record_with("e", vec![(402, 1, None, None)]),
    ];
    update_validators_ranks(&mut records, RankMetric::ActivatedStake);
    assert_eq!(
        ranks(&records, RankMetric::ActivatedStake),
        vec![vec![Some(4)], vec![Some(1)], vec![Some(3)], vec![Some(3)], vec![Some(5)]]
    );
}

#[test]
fn epochs_are_ranked_apart() {
    let mut records = vec![
        record_with("a", vec![(402, 5, None, None), (401, 9, None, None)]),
        record_with("b", vec![(402, 9, None, None), (401, 5, None, None)]),
        record_with("c", vec![(402, 7, None, None)]),
    ];
    update_validators_ranks(&mut records, RankMetric::ActivatedStake);
    assert_eq!(
        ranks(&records, RankMetric::ActivatedStake),
        vec![vec![Some(3), Some(1)], vec![Some(1), Some(2)], vec![Some(2)]]
    );
}

#[test]
fn validators_without_yield_have_no_yield_rank() {
    let mut records = vec![
        record_with("a", vec![(402, 5, Some(0.07), None)]),
        record_with("b", vec![(402, 9, None, None)]),
        record_with("c", vec![(402, 7, Some(0.09), None)]),
        record_with("d", vec![(402, 7, Some(0.0701), None)]),
    ];
    update_validators_ranks(&mut records, RankMetric::Apy);
    assert_eq!(
        ranks(&records, RankMetric::Apy),
        vec![vec![Some(3)], vec![None], vec![Some(1)], vec![Some(3)]]
    );
    assert_eq!(ranks(&records, RankMetric::ActivatedStake), vec![vec![None]; 4]);
    assert_eq!(ranks(&records, RankMetric::MarinadeScore), vec![vec![None]; 4]);
}

#[test]
fn scores_are_ranked_into_their_own_field() {
    let mut records = vec![
        record_with("a", vec![(402, 5, Some(0.07), None)]),
        record_with("b", vec![(402, 9, Some(0.09), None)]),
    ];
    records[0].epoch_stats[0].marinade_score = 80;
    records[1].epoch_stats[0].marinade_score = 20;
    update_validators_ranks(&mut records, RankMetric::MarinadeScore);
    update_validators_ranks(&mut records, RankMetric::Apy);
    assert_eq!(ranks(&records, RankMetric::MarinadeScore), vec![vec![Some(1)], vec![Some(2)]]);
    assert_eq!(ranks(&records, RankMetric::Apy), vec![vec![Some(2)], vec![Some(1)]]);
    assert_eq!(records[0].epoch_stats[0].metric_value(RankMetric::MarinadeScore), Some(80));
    assert_eq!(records[0].epoch_stats[0].metric_value(RankMetric::Apy), Some(70));
    assert_eq!(records[0].epoch_stats[0].metric_value(RankMetric::ActivatedStake), Some(5));
}

#[test]
fn ranking_changes_nothing_but_the_rank() {
    let before = record_with("a", vec![(402, 5, Some(0.07), Some(0.5))]);
    let mut records = vec![record_with("a", vec![(402, 5, Some(0.07), Some(0.5))])];
    update_validators_ranks(&mut records, RankMetric::ActivatedStake);
    let mut after = records.pop().unwrap();
    assert_eq!(after.epoch_stats[0].rank_activated_stake, Some(1));
    after.epoch_stats[0].rank_activated_stake = None;
    assert_eq!(after, before);
}

#[test]
fn a_refresh_estimates_folds_averages_and_ranks() {
    let mut calculators = HashMap::new();
    calculators.insert(402, calculator(172800, 1_000_000_000_000_000));
    let rows = vec![
        row("a", 402, 50),
        row("b", 402, 70),
        row("c", 402, 50),
        row("a", 401, 40),
        row("b", 401, 45),
    ];
    let warnings =
        vec![IdentityRecords { identity: "b".to_string(), records: vec![warning("LOW_UPTIME")] }];
    let by_stake = |request: YieldRequest| YieldEstimate {
        apr: number(request.stake as f64 / 1000.0),
        apy: number(request.stake as f64 / 1000.0),
        apy_milli: request.stake,
    };
    let lookback = Lookback { last_epoch: Some(402), epochs: 10 };
    let records =
        load_validators(rows, &lookback, &calculators, &warnings, &None, &by_stake, &mean)
            .unwrap();
    assert_eq!(records.len(), 3);
    assert_eq!(
        ranks(&records, RankMetric::ActivatedStake),
        vec![vec![Some(3), Some(2)], vec![Some(1), Some(1)], vec![Some(3)]]
    );
    assert_eq!(
        ranks(&records, RankMetric::MarinadeScore),
        vec![vec![Some(3), Some(2)], vec![Some(3), Some(2)], vec![Some(3)]]
    );
    assert_eq!(
        ranks(&records, RankMetric::Apy),
        vec![vec![Some(3), None], vec![Some(1), None], vec![Some(3)]]
    );
    assert_eq!(records[0].avg_apy, Some(number(0.05)));
    assert_eq!(records[1].avg_apy, Some(number(0.07)));
    assert_eq!(records[0].avg_uptime_pct, Some(number(0.99)));
    assert_eq!(records[1].warnings, vec![warning("LOW_UPTIME")]);
    assert_eq!(records[0].epoch_stats[1].apy, None);
    assert_eq!(records[0].epochs_count, 303);
}

#[test]
fn a_refresh_fails_on_a_row_that_does_not_fit() {
    let calculators = HashMap::new();
    let mut broken = row("a", 402, 50);
    broken.first_epoch = Numeric::from_u64(500);
    let by_stake = |request: YieldRequest| estimate(request.stake);
    let lookback = Lookback { last_epoch: Some(402), epochs: 10 };
    assert_eq!(
        load_validators(vec![broken], &lookback, &calculators, &vec![], &None, &by_stake, &mean),
        Err(LoadError::EpochSpan)
    );
    let mut outside = row("a", 300, 50);
    outside.first_epoch = Numeric::from_u64(500);
    assert_eq!(
        load_validators(vec![outside], &lookback, &calculators, &vec![], &None, &by_stake, &mean),
        Ok(vec![])
    );
    let mut unreadable = row("a", 300, 50);
    unreadable.epoch = Numeric::new(-1, 0).unwrap();
    let mut late = row("b", 402, 50);
    late.commission_effective = Some(500);
    assert_eq!(
        load_validators(
            vec![late, unreadable],
            &lookback,
            &calculators,
            &vec![],
            &None,
            &by_stake,
            &mean
        ),
        Err(LoadError::ExceedsU64)
    );
}

#[test]
fn a_narrower_window_gives_the_same_count_of_epochs() {
    let calculators = HashMap::new();
    let history = || {
        vec![
            row("a", 402, 50),
            row("b", 402, 70),
            row("a", 401, 40),
            row("b", 401, 60),
            row("a", 400, 30),
            row("c", 400, 30),
        ]
    };
    let by_stake = |request: YieldRequest| estimate(request.stake);
    let wide = Lookback { last_epoch: Some(402), epochs: 3 };
    let narrow = Lookback { last_epoch: Some(402), epochs: 1 };
    let of_wide =
        load_validators(history(), &wide, &calculators, &vec![], &None, &by_stake, &mean).unwrap();
    let of_narrow =
        load_validators(history(), &narrow, &calculators, &vec![], &None, &by_stake, &mean)
            .unwrap();
    assert_eq!(of_wide.len(), 3);
    assert_eq!(of_narrow.len(), 2);
    for n in of_narrow.iter() {
        let w = of_wide.iter().find(|w| w.identity == n.identity).unwrap();
        assert_eq!(n.epochs_count, w.epochs_count);
        assert_eq!(n.epochs_count, 303);
        assert_eq!(n.epoch_stats.len(), 1);
    }
    assert_eq!(of_wide[0].epoch_stats.len(), 3);
}

fn formula(request: YieldRequest) -> YieldEstimate {
    let calculator = request.calculator;
    let inflation = f64::from_bits(calculator.inflation.bits);
    let taper = f64::from_bits(calculator.inflation_taper.bits);
    let epochs_per_year = 365.25 * 24.0 * 3600.0 / calculator.duration as f64;
    let share =
        request.credits as f64 * request.stake as f64 / calculator.total_weighted_credits as f64;
    let decay = (1.0 - taper).powf(1.0 / epochs_per_year);
    let gross = inflation * calculator.supply as f64 * share * taper / epochs_per_year / (1.0 - decay);
    let net = gross * (1.0 - request.commission as f64 / 100.0);
    let apr = net / request.stake as f64;
    let apy = (1.0 + apr / epochs_per_year).powf(epochs_per_year - 1.0) - 1.0;
    YieldEstimate { apr: number(apr), apy: number(apy), apy_milli: (apy * 1000.0) as u64 }
}

#[test]
fn the_estimator_is_handed_the_figures_of_the_row_and_its_epoch() {
    let mut calculators = HashMap::new();
    calculators.insert(402, calculator(172800, 1_000_000_000_000_000));
    let mut example = row("a", 402, 1_000_000);
    example.credits = Numeric::from_u64(400_000_000);
    example.commission_effective = Some(10);
    let mut all_to_the_validator = row("b", 402, 1_000_000);
    all_to_the_validator.credits = Numeric::from_u64(400_000_000);
    all_to_the_validator.commission_effective = Some(100);
    let rows = vec![example, all_to_the_validator];
    let requests = yield_requests(&rows, &calculators).unwrap();
    assert_eq!(
        requests[0],
        Some(YieldRequest {
            calculator: InflationApyCalculator {
                supply: 1_000_000_000,
                duration: 172800,
                inflation: number(0.08),
                inflation_taper: number(0.15),
                total_weighted_credits: 1_000_000_000_000_000,
            },
            credits: 400_000_000,
            stake: 1_000_000,
            commission: 10,
        })
    );
    let yields = estimate_yields(&rows, &calculators, &formula).unwrap();
    let first = yields[0].unwrap();
    let epochs_per_year = 365.25 * 24.0 * 3600.0 / 172800.0;
    let share = 4e8 * 1e6 / 1e15;
    let gross = 0.08 * 1e9 * share * 0.15
        / epochs_per_year
        / (1.0 - (1.0f64 - 0.15).powf(1.0 / epochs_per_year));
    let apr = gross * 0.9 / 1e6;
    let apy = (1.0 + apr / epochs_per_year).powf(epochs_per_year - 1.0) - 1.0;
    assert!((f64::from_bits(first.apr.bits) - apr).abs() < 1e-12);
    assert!((f64::from_bits(first.apy.bits) - apy).abs() < 1e-12);
    let second = yields[1].unwrap();
    assert_eq!(f64::from_bits(second.apr.bits), 0.0);
    assert_eq!(second.apy_milli, 0);
}
