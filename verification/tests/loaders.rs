use validator_store::loaders::{
    file_commissions, file_record, file_uptimes, file_versions, load_commissions, load_uptimes,
    load_versions, load_warnings, CommissionRow, EffectiveCommissionRow, UptimeRow, VersionRow,
    WarningRow, SLOTS_PER_EPOCH,
};
use validator_store::window::{keep_in_window, Lookback};
use validator_store::numeric::{LoadError, Numeric};
use validator_store::records::{
    clone_text, clone_uptimes, clone_warnings, CommissionRecord, IdentityRecords, Timestamp,
    UptimeRecord, VersionRecord, WarningRecord,
};

fn at(micros: i64) -> Timestamp {
    Timestamp { micros }
}

fn uptime_row(identity: &str, status: &str, epoch: i128, start: i64, end: i64) -> UptimeRow {
    UptimeRow {
        identity: identity.to_string(),
        status: status.to_string(),
        epoch: Numeric::new(epoch, 0).unwrap(),
        start_at: at(start),
        end_at: at(end),
    }
}

fn uptime(status: &str, epoch: u64, start: i64, end: i64) -> UptimeRecord {
    UptimeRecord { epoch, status: status.to_string(), start_at: at(start), end_at: at(end) }
}

#[test]
fn uptimes_are_filed_by_identity_in_order() {
    let rows = vec![
        uptime_row("b", "UP", 5, 10, 20),
        uptime_row("a", "UP", 5, 11, 21),
        uptime_row("b", "DOWN", 5, 20, 30),
        uptime_row("b", "UP", 6, 30, 40),
    ];
    let groups = file_uptimes(&rows).unwrap();
    assert_eq!(
        groups,
        vec![
            IdentityRecords {
                identity: "b".to_string(),
                records: vec![
                    uptime("UP", 5, 10, 20),
                    uptime("DOWN", 5, 20, 30),
                    uptime("UP", 6, 30, 40),
                ],
            },
            IdentityRecords { identity: "a".to_string(), records: vec![uptime("UP", 5, 11, 21)] },
        ]
    );
}

#[test]
fn uptimes_of_no_rows_are_empty() {
    assert_eq!(file_uptimes(&vec![]), Ok(vec![]));
}

#[test]
fn uptimes_fail_on_an_epoch_that_does_not_fit() {
    let rows = vec![uptime_row("a", "UP", 5, 10, 20), uptime_row("a", "UP", -5, 10, 20)];
    assert_eq!(file_uptimes(&rows), Err(LoadError::ExceedsU64));
}

#[test]
fn versions_are_filed_by_identity_in_order() {
    let rows = vec![
        VersionRow {
            identity: "a".to_string(),
            version: Some("1.13.5".to_string()),
            epoch: Numeric::from_u64(400),
            created_at: at(1),
        },
        VersionRow {
            identity: "b".to_string(),
            version: None,
            epoch: Numeric::from_u64(400),
            created_at: at(2),
        },
        VersionRow {
            identity: "a".to_string(),
            version: Some("1.14.17".to_string()),
            epoch: Numeric::from_u64(401),
            created_at: at(3),
        },
    ];
    let groups = file_versions(&rows).unwrap();
    assert_eq!(
        groups,
        vec![
            IdentityRecords {
                identity: "a".to_string(),
                records: vec![
                    VersionRecord {
                        epoch: 400,
                        version: Some("1.13.5".to_string()),
                        created_at: at(1),
                    },
                    VersionRecord {
                        epoch: 401,
                        version: Some("1.14.17".to_string()),
                        created_at: at(3),
                    },
                ],
            },
            IdentityRecords {
                identity: "b".to_string(),
                records: vec![VersionRecord { epoch: 400, version: None, created_at: at(2) }],
            },
        ]
    );
}

#[test]
fn versions_fail_on_an_epoch_that_does_not_fit() {
    let rows = vec![VersionRow {
        identity: "a".to_string(),
        version: None,
        epoch: Numeric::new(1i128 << 64, 0).unwrap(),
        created_at: at(1),
    }];
    assert_eq!(file_versions(&rows), Err(LoadError::ExceedsU64));
}

#[test]
fn warnings_are_filed_by_identity_in_order() {
    let rows = vec![
        WarningRow {
            identity: "a".to_string(),
            code: "LOW_CREDITS".to_string(),
            message: "Low credits".to_string(),
            details: Some("{\"credits\":1}".to_string()),
            created_at: at(5),
        },
        WarningRow {
            identity: "a".to_string(),
            code: "HIGH_COMMISSION".to_string(),
            message: "High commission".to_string(),
            details: None,
            created_at: at(6),
        },
    ];
    let groups = load_warnings(&rows);
    assert_eq!(groups.len(), 1);
    assert_eq!(groups[0].identity, "a");
    assert_eq!(
        groups[0].records,
        vec![
            WarningRecord {
                code: "LOW_CREDITS".to_string(),
                message: "Low credits".to_string(),
                details: Some("{\"credits\":1}".to_string()),
                created_at: at(5),
            },
            WarningRecord {
                code: "HIGH_COMMISSION".to_string(),
                message: "High commission".to_string(),
                details: None,
                created_at: at(6),
            },
        ]
    );
}

fn change(identity: &str, commission: i32, epoch: u64, slot: u64, created: i64) -> CommissionRow {
    CommissionRow {
        identity: identity.to_string(),
        commission,
        epoch: Numeric::from_u64(epoch),
        epoch_slot: Numeric::from_u64(slot),
        created_at: at(created),
    }
}

fn effective(
    identity: &str,
    commission: Option<i32>,
    epoch: u64,
    updated: i64,
) -> EffectiveCommissionRow {
    EffectiveCommissionRow {
        identity: identity.to_string(),
        commission_effective: commission,
        epoch: Numeric::from_u64(epoch),
        updated_at: at(updated),
    }
}

#[test]
fn commissions_merge_the_change_log_with_the_commissions_in_effect() {
    let changes = vec![change("a", 5, 400, 1000, 1), change("b", 7, 400, 2000, 2)];
    let in_effect = vec![
        effective("a", Some(5), 400, 10),
        effective("b", None, 400, 11),
        effective("c", Some(100), 400, 12),
    ];
    let groups = file_commissions(&changes, &in_effect).unwrap();
    assert_eq!(
        groups,
        vec![
            IdentityRecords {
                identity: "a".to_string(),
                records: vec![
                    CommissionRecord {
                        epoch: 400,
                        epoch_slot: 1000,
                        commission: 5,
                        created_at: at(1),
                    },
                    CommissionRecord {
                        epoch: 400,
                        epoch_slot: 432000,
                        commission: 5,
                        created_at: at(10),
                    },
                ],
            },
            IdentityRecords {
                identity: "b".to_string(),
                records: vec![CommissionRecord {
                    epoch: 400,
                    epoch_slot: 2000,
                    commission: 7,
                    created_at: at(2),
                }],
            },
            IdentityRecords {
                identity: "c".to_string(),
                records: vec![CommissionRecord {
                    epoch: 400,
                    epoch_slot: SLOTS_PER_EPOCH,
                    commission: 100,
                    created_at: at(12),
                }],
            },
        ]
    );
}

#[test]
fn commissions_keep_duplicates() {
    let changes = vec![change("a", 5, 400, 432000, 1)];
    let in_effect = vec![effective("a", Some(5), 400, 1)];
    let groups = file_commissions(&changes, &in_effect).unwrap();
    assert_eq!(groups.len(), 1);
    assert_eq!(groups[0].records.len(), 2);
    assert_eq!(groups[0].records[0], groups[0].records[1]);
}

#[test]
fn commissions_fail_on_what_does_not_fit() {
    assert_eq!(
        file_commissions(&vec![change("a", 256, 400, 0, 1)], &vec![]),
        Err(LoadError::ExceedsU8)
    );
    assert_eq!(
        file_commissions(&vec![change("a", -1, 400, 0, 1)], &vec![]),
        Err(LoadError::ExceedsU8)
    );
    assert_eq!(
        file_commissions(&vec![], &vec![effective("a", Some(300), 400, 1)]),
        Err(LoadError::ExceedsU8)
    );
    let negative_epoch = CommissionRow {
        identity: "a".to_string(),
        commission: 300,
        epoch: Numeric::new(-1, 0).unwrap(),
        epoch_slot: Numeric::from_u64(0),
        created_at: at(1),
    };
    assert_eq!(file_commissions(&vec![negative_epoch], &vec![]), Err(LoadError::ExceedsU64));
    assert!(file_commissions(&vec![change("a", 255, 400, 0, 1)], &vec![]).is_ok());
}

#[test]
fn commissions_report_the_first_failure() {
    let changes = vec![change("a", 5, 400, 0, 1), change("b", 300, 400, 0, 1)];
    let in_effect = vec![EffectiveCommissionRow {
        identity: "c".to_string(),
        commission_effective: Some(1),
        epoch: Numeric::new(-1, 0).unwrap(),
        updated_at: at(1),
    }];
    assert_eq!(file_commissions(&changes, &in_effect), Err(LoadError::ExceedsU8));
    assert_eq!(
        file_commissions(&vec![change("a", 5, 400, 0, 1)], &in_effect),
        Err(LoadError::ExceedsU64)
    );
}

#[test]
fn commission_rows_narrow_to_records() {
    assert_eq!(
        change("a", 9, 3, 4, 5).narrow(),
        Ok(CommissionRecord { epoch: 3, epoch_slot: 4, commission: 9, created_at: at(5) })
    );
}

#[test]
fn records_are_filed_behind_those_of_the_same_identity() {
    let mut groups: Vec<IdentityRecords<u8>> = Vec::new();
    file_record(&mut groups, "x".to_string(), 1);
    file_record(&mut groups, "y".to_string(), 2);
    file_record(&mut groups, "x".to_string(), 3);
    assert_eq!(
        groups,
        vec![
            IdentityRecords { identity: "x".to_string(), records: vec![1, 3] },
            IdentityRecords { identity: "y".to_string(), records: vec![2] },
        ]
    );
}

#[test]
fn copies_are_equal_to_what_they_copy() {
    let uptimes = vec![uptime("UP", 1, 2, 3), uptime("DOWN", 4, 5, 6)];
    assert_eq!(clone_uptimes(&uptimes), uptimes);
    let warnings = vec![WarningRecord {
        code: "c".to_string(),
        message: "m".to_string(),
        details: Some("d".to_string()),
        created_at: at(9),
    }];
    assert_eq!(clone_warnings(&warnings), warnings);
    assert_eq!(clone_text(&Some("t".to_string())), Some("t".to_string()));
    assert_eq!(clone_text(&None), None);
}

fn window(last_epoch: u64, epochs: u64) -> Lookback {
    Lookback { last_epoch: Some(last_epoch), epochs }
}

#[test]
fn a_window_covers_the_latest_epochs() {
    let three = window(400, 3);
    assert!(!three.includes(397));
    assert!(three.includes(398));
    assert!(three.includes(400));
    assert!(three.includes(401));
    assert!(!window(400, 0).includes(400));
    assert!(window(400, 0).includes(401));
    assert!(window(400, 400).includes(1));
    assert!(!window(400, 400).includes(0));
    assert!(window(400, 401).includes(0));
    assert!(window(400, u64::MAX).includes(0));
    assert!(window(u64::MAX, 1).includes(u64::MAX));
    assert!(!window(u64::MAX, 1).includes(u64::MAX - 1));
    assert!(!Lookback { last_epoch: None, epochs: 10 }.includes(5));
}

#[test]
fn rows_outside_the_window_are_left_out() {
    let rows = vec![
        uptime_row("a", "UP", 400, 1, 2),
        uptime_row("b", "UP", 399, 1, 2),
        uptime_row("a", "UP", 398, 1, 2),
        uptime_row("b", "UP", 397, 1, 2),
        uptime_row("c", "UP", 390, 1, 2),
    ];
    let kept = keep_in_window(rows, &window(400, 3)).unwrap();
    let epochs: Vec<u64> = kept.iter().map(|r| r.epoch.to_u64().unwrap()).collect();
    assert_eq!(epochs, vec![400, 399, 398]);
}

#[test]
fn uptimes_are_loaded_from_the_window() {
    let rows = vec![
        uptime_row("a", "UP", 400, 1, 2),
        uptime_row("b", "UP", 397, 1, 2),
        uptime_row("a", "DOWN", 398, 3, 4),
        uptime_row("c", "UP", 390, 1, 2),
    ];
    let groups = load_uptimes(rows, &window(400, 3)).unwrap();
    assert_eq!(
        groups,
        vec![IdentityRecords {
            identity: "a".to_string(),
            records: vec![uptime("UP", 400, 1, 2), uptime("DOWN", 398, 3, 4)],
        }]
    );
}

#[test]
fn nothing_is_loaded_where_no_epoch_is_known() {
    let rows = vec![uptime_row("a", "UP", 400, 1, 2)];
    assert_eq!(load_uptimes(rows, &Lookback { last_epoch: None, epochs: 10 }), Ok(vec![]));
}

#[test]
fn loading_fails_on_an_epoch_that_cannot_be_read_even_outside_the_window() {
    let rows = vec![uptime_row("a", "UP", 400, 1, 2), uptime_row("a", "UP", -1, 1, 2)];
    assert_eq!(load_uptimes(rows, &window(400, 1)), Err(LoadError::ExceedsU64));
}

#[test]
fn versions_are_loaded_from_the_window() {
    let rows = vec![
        VersionRow {
            identity: "a".to_string(),
            version: Some("1.13.5".to_string()),
            epoch: Numeric::from_u64(380),
            created_at: at(1),
        },
        VersionRow {
            identity: "a".to_string(),
            version: Some("1.14.17".to_string()),
            epoch: Numeric::from_u64(400),
            created_at: at(3),
        },
    ];
    let groups = load_versions(rows, &window(400, 10)).unwrap();
    assert_eq!(
        groups,
        vec![IdentityRecords {
            identity: "a".to_string(),
            records: vec![VersionRecord {
                epoch: 400,
                version: Some("1.14.17".to_string()),
                created_at: at(3),
            }],
        }]
    );
}

#[test]
fn commissions_are_loaded_from_the_window() {
    let changes = vec![change("a", 5, 400, 1000, 1), change("a", 300, 300, 0, 2)];
    let in_effect = vec![effective("a", Some(6), 399, 10), effective("a", Some(-1), 100, 11)];
    let groups = load_commissions(changes, in_effect, &window(400, 2)).unwrap();
    assert_eq!(
        groups,
        vec![IdentityRecords {
            identity: "a".to_string(),
            records: vec![
                CommissionRecord { epoch: 400, epoch_slot: 1000, commission: 5, created_at: at(1) },
                CommissionRecord {
                    epoch: 399,
                    epoch_slot: 432000,
                    commission: 6,
                    created_at: at(10),
                },
            ],
        }]
    );
}

#[test]
fn loading_commissions_reports_epochs_before_entries() {
    let changes = vec![change("a", 300, 400, 0, 1)];
    let in_effect = vec![EffectiveCommissionRow {
        identity: "c".to_string(),
        commission_effective: Some(1),
        epoch: Numeric::new(-1, 0).unwrap(),
        updated_at: at(1),
    }];
    assert_eq!(
        load_commissions(changes, in_effect, &window(400, 2)),
        Err(LoadError::ExceedsU64)
    );
    assert_eq!(
        load_commissions(vec![change("a", 300, 400, 0, 1)], vec![], &window(400, 2)),
        Err(LoadError::ExceedsU8)
    );
}
