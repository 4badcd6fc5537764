use std::collections::HashMap;
use validator_store::combiner::{InsertQueryCombiner, UpdateQueryCombiner};

#[test]
fn insert_without_rows_sends_nothing() {
    let query: InsertQueryCombiner<i32> =
        InsertQueryCombiner::new("commissions".to_string(), "identity, commission".to_string());
    assert_eq!(query.insertions(), 0);
    assert!(query.execute().is_none());
}

#[test]
fn insert_numbers_placeholders_across_rows() {
    let mut query: InsertQueryCombiner<i32> =
        InsertQueryCombiner::new("t".to_string(), "a, b, c".to_string());
    let mut first = vec![10, 20, 30];
    query.add(&mut first);
    assert!(first.is_empty());
    let mut second = vec![40, 50, 60];
    query.add(&mut second);
    assert_eq!(query.insertions(), 2);
    let statement = query.execute().unwrap();
    assert_eq!(
        statement.text.as_str(),
        "INSERT INTO t (a, b, c) VALUES ($1,$2,$3),($4,$5,$6)"
    );
    assert_eq!(statement.params, &vec![10, 20, 30, 40, 50, 60]);
}

#[test]
fn insert_with_one_row_has_one_group() {
    let mut query: InsertQueryCombiner<&str> =
        InsertQueryCombiner::new("versions".to_string(), "identity, version".to_string());
    let mut row = vec!["id", "1.14.17"];
    query.add(&mut row);
    let statement = query.execute().unwrap();
    assert_eq!(
        statement.text.as_str(),
        "INSERT INTO versions (identity, version) VALUES ($1,$2)"
    );
    assert_eq!(statement.params, &vec!["id", "1.14.17"]);
}

#[test]
fn insert_placeholders_run_past_nine() {
    let mut query: InsertQueryCombiner<u8> =
        InsertQueryCombiner::new("t".to_string(), "a, b, c, d".to_string());
    for row in 0..3u8 {
        let mut values = vec![row, row, row, row];
        query.add(&mut values);
    }
    let statement = query.execute().unwrap();
    assert_eq!(
        statement.text.as_str(),
        "INSERT INTO t (a, b, c, d) VALUES ($1,$2,$3,$4),($5,$6,$7,$8),($9,$10,$11,$12)"
    );
    assert_eq!(statement.params.len(), 12);
}

#[test]
fn insert_rows_may_differ_in_width() {
    let mut query: InsertQueryCombiner<u8> =
        InsertQueryCombiner::new("t".to_string(), "a".to_string());
    let mut none: Vec<u8> = vec![];
    query.add(&mut none);
    let mut two = vec![1, 2];
    query.add(&mut two);
    let mut one = vec![3];
    query.add(&mut one);
    let statement = query.execute().unwrap();
    assert_eq!(statement.text.as_str(), "INSERT INTO t (a) VALUES (),($1,$2),($3)");
}

#[test]
fn update_without_rows_sends_nothing() {
    let mut query: UpdateQueryCombiner<i64> = UpdateQueryCombiner::new(
        "validators".to_string(),
        "credits = u.credits".to_string(),
        "u (identity, credits)".to_string(),
        "validators.identity = u.identity".to_string(),
    );
    assert_eq!(query.updates(), 0);
    assert!(query.execute().is_none());
}

#[test]
fn update_writes_types_behind_placeholders() {
    let mut query: UpdateQueryCombiner<i64> = UpdateQueryCombiner::new(
        "validators".to_string(),
        "credits = u.credits".to_string(),
        "u (identity, credits)".to_string(),
        "validators.identity = u.identity".to_string(),
    );
    let mut types = HashMap::new();
    types.insert(1usize, "NUMERIC".to_string());
    let mut first = vec![1, 100];
    query.add(&mut first, types.clone());
    assert!(first.is_empty());
    let mut second = vec![2, 200];
    query.add(&mut second, types);
    assert_eq!(query.updates(), 2);
    let statement = query.execute().unwrap();
    assert_eq!(
        statement.text.as_str(),
        "UPDATE validators SET credits = u.credits FROM (VALUES ($1,$2::NUMERIC),($3,$4::NUMERIC)) \
         AS u (identity, credits) WHERE validators.identity = u.identity"
    );
    assert_eq!(statement.params, &vec![1, 100, 2, 200]);
}

#[test]
fn update_without_types_is_plain() {
    let mut query: UpdateQueryCombiner<i64> = UpdateQueryCombiner::new(
        "t".to_string(),
        "a = v.a".to_string(),
        "v (id, a)".to_string(),
        "t.id = v.id".to_string(),
    );
    let mut row = vec![7, 8];
    query.add(&mut row, HashMap::new());
    let statement = query.execute().unwrap();
    assert_eq!(
        statement.text.as_str(),
        "UPDATE t SET a = v.a FROM (VALUES ($1,$2)) AS v (id, a) WHERE t.id = v.id"
    );
}

#[test]
fn update_ignores_types_for_columns_that_are_not_there() {
    let mut query: UpdateQueryCombiner<i64> = UpdateQueryCombiner::new(
        "t".to_string(),
        "a = v.a".to_string(),
        "v (id)".to_string(),
        "t.id = v.id".to_string(),
    );
    let mut types = HashMap::new();
    types.insert(0usize, "INTEGER".to_string());
    types.insert(5usize, "TEXT".to_string());
    let mut row = vec![7];
    query.add(&mut row, types);
    let statement = query.execute().unwrap();
    assert_eq!(
        statement.text.as_str(),
        "UPDATE t SET a = v.a FROM (VALUES ($1::INTEGER)) AS v (id) WHERE t.id = v.id"
    );
}
