use validator_store::api::{handler, NotFound, QueryParams, ResponseUptimes};
use validator_store::config::{CommonParams, Params, StoreCommissionsOptions};
use validator_store::records::{IdentityRecords, Timestamp, UptimeRecord};
use validator_store::validators::ValidatorRecord;

fn record(identity: &str, vote_account: &str) -> ValidatorRecord {
    ValidatorRecord {
        identity: identity.to_string(),
        vote_account: vote_account.to_string(),
        info_name: None,
        info_url: None,
        info_keybase: None,
        node_ip: None,
        dc_coordinates_lat: None,
        dc_coordinates_lon: None,
        dc_continent: None,
        dc_country_iso: None,
        dc_country: None,
        dc_city: None,
        dc_full_city: None,
        dc_asn: None,
        dc_aso: None,
        dcc_full_city: None,
        dcc_asn: None,
        dcc_aso: None,
        commission_max_observed: None,
        commission_min_observed: None,
        commission_advertised: None,
        commission_effective: None,
        commission_aggregated: None,
        version: None,
        mnde_votes: None,
        activated_stake: 0,
        marinade_stake: 0,
        decentralizer_stake: 0,
        superminority: false,
        credits: 0,
        marinade_score: 0,
        epoch_stats: vec![],
        warnings: vec![],
        epochs_count: 1,
        avg_uptime_pct: None,
        avg_apy: None,
    }
}

fn uptime(epoch: u64) -> UptimeRecord {
    UptimeRecord {
        epoch,
        status: "UP".to_string(),
        start_at: Timestamp { micros: 1 },
        end_at: Timestamp { micros: 2 },
    }
}

fn filed(identity: &str, epochs: &[u64]) -> IdentityRecords<UptimeRecord> {
    IdentityRecords {
        identity: identity.to_string(),
        records: epochs.iter().map(|e| uptime(*e)).collect(),
    }
}

#[test]
fn uptimes_are_found_by_identity() {
    let validators = vec![record("id-a", "vote-a"), record("id-b", "vote-b")];
    let uptimes = vec![filed("id-b", &[1, 2]), filed("id-a", &[3])];
    assert_eq!(
        handler(&"id-a".to_string(), QueryParams {}, &validators, &uptimes),
        Ok(ResponseUptimes { uptimes: vec![uptime(3)] })
    );
}

#[test]
fn uptimes_are_found_by_vote_account() {
    let validators = vec![record("id-a", "vote-a"), record("id-b", "vote-b")];
    let uptimes = vec![filed("id-b", &[1, 2]), filed("id-a", &[3])];
    assert_eq!(
        handler(&"vote-b".to_string(), QueryParams {}, &validators, &uptimes),
        Ok(ResponseUptimes { uptimes: vec![uptime(1), uptime(2)] })
    );
}

#[test]
fn an_unknown_account_is_not_found() {
    let validators = vec![record("id-a", "vote-a")];
    let uptimes = vec![filed("id-a", &[3])];
    assert_eq!(
        handler(&"id-z".to_string(), QueryParams {}, &validators, &uptimes),
        Err(NotFound::Validator)
    );
    assert_eq!(
        handler(&"id-a".to_string(), QueryParams {}, &vec![], &uptimes),
        Err(NotFound::Validator)
    );
}

#[test]
fn a_validator_without_uptimes_is_not_found() {
    let validators = vec![record("id-a", "vote-a")];
    assert_eq!(
        handler(&"vote-a".to_string(), QueryParams {}, &validators, &vec![]),
        Err(NotFound::Uptimes)
    );
    let empty = vec![filed("id-a", &[])];
    assert_eq!(
        handler(&"vote-a".to_string(), QueryParams {}, &validators, &empty),
        Ok(ResponseUptimes { uptimes: vec![] })
    );
}

#[test]
fn the_first_validator_that_answers_is_taken() {
    let validators = vec![record("x", "shared"), record("shared", "y")];
    let uptimes = vec![filed("shared", &[1]), filed("x", &[2])];
    assert_eq!(
        handler(&"shared".to_string(), QueryParams {}, &validators, &uptimes),
        Ok(ResponseUptimes { uptimes: vec![uptime(2)] })
    );
}

#[test]
fn commitment_defaults_to_finalized() {
    let defaulted = CommonParams::new("http://localhost:8899".to_string(), None);
    assert_eq!(defaulted.rpc_url, "http://localhost:8899");
    assert_eq!(defaulted.commitment, "finalized");
    let named = CommonParams::new("u".to_string(), Some("confirmed".to_string()));
    assert_eq!(named.commitment, "confirmed");
}

#[test]
fn settings_hold_what_they_are_given() {
    let params = Params {
        postgres_url: "postgres://localhost/ds".to_string(),
        glossary_path: "glossary.md".to_string(),
    };
    assert_eq!(params.postgres_url, "postgres://localhost/ds");
    assert_eq!(params.glossary_path, "glossary.md");
    assert_eq!(StoreCommissionsOptions {}, StoreCommissionsOptions {});
}
