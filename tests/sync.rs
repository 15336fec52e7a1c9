use corro_api_types::{count_ops, plan_sync, SyncOp};

fn e(id: &str, hash: u64) -> (String, u64) {
    (id.to_string(), hash)
}

#[test]
fn plan_inserts_updates_and_deletes() {
    let known = vec![e("a", 1), e("b", 2), e("c", 3)];
    let fresh = vec![e("b", 2), e("c", 30), e("d", 4)];
    let ops = plan_sync(&known, &fresh, false);
    assert_eq!(ops.len(), 3);
    assert!(matches!(&ops[0], SyncOp::Delete { id } if id == "a"));
    assert!(matches!(ops[1], SyncOp::Upsert { index: 1, hash: 30 }));
    assert!(matches!(ops[2], SyncOp::Upsert { index: 2, hash: 4 }));
    let stats = count_ops(&ops);
    assert_eq!(stats.upserted, 2);
    assert_eq!(stats.deleted, 1);
    assert!(!stats.is_zero());
}

#[test]
fn plan_unchanged_is_empty_unless_forced() {
    let known = vec![e("svc", 9)];
    let fresh = vec![e("svc", 9)];
    let ops = plan_sync(&known, &fresh, false);
    assert!(ops.is_empty());
    assert!(count_ops(&ops).is_zero());
    let forced = plan_sync(&known, &fresh, true);
    assert_eq!(forced.len(), 1);
    assert!(matches!(forced[0], SyncOp::Upsert { index: 0, hash: 9 }));
}

#[test]
fn plan_from_nothing_and_to_nothing() {
    let fresh = vec![e("service-id", 5)];
    let ops = plan_sync(&vec![], &fresh, false);
    assert_eq!(count_ops(&ops).upserted, 1);
    let gone = plan_sync(&fresh, &vec![], false);
    let stats = count_ops(&gone);
    assert_eq!((stats.upserted, stats.deleted), (0, 1));
}

use corro_api_types::sync::{
    append_check_ops, append_service_ops, CheckRow, ServiceRow, CHECK_DELETE, CHECK_HASH_UPSERT,
    SERVICE_DELETE, SERVICE_HASH_DELETE, SERVICE_HASH_UPSERT, SERVICE_UPSERT,
};
use corro_api_types::{SqliteParam, Statement};

fn param_text(p: &SqliteParam) -> Option<&str> {
    match p {
        SqliteParam::Text(t) => Some(t.as_str()),
        _ => None,
    }
}

#[test]
fn service_ops_become_statements() {
    let services = vec![ServiceRow {
        id: "service-id".to_string(),
        name: "service-name".to_string(),
        tags: "[]".to_string(),
        meta: "{\"app_id\":\"123\"}".to_string(),
        port: 1337,
        address: "127.0.0.1".to_string(),
    }];
    let ops = vec![
        SyncOp::Upsert { index: 0, hash: 0x0102030405060708 },
        SyncOp::Delete { id: "old".to_string() },
    ];
    let mut stmts = vec![Statement::Simple("begin".to_string())];
    append_service_ops(&mut stmts, "node-1", &services, &ops, 42);
    assert_eq!(stmts.len(), 5);
    match &stmts[1] {
        Statement::WithParams(q, ps) => {
            assert_eq!(q, SERVICE_HASH_UPSERT);
            assert_eq!(param_text(&ps[0]), Some("service-id"));
            assert!(matches!(&ps[1], SqliteParam::Blob(b) if b == &vec![1, 2, 3, 4, 5, 6, 7, 8]));
        }
        other => panic!("unexpected {other:?}"),
    }
    match &stmts[2] {
        Statement::WithParams(q, ps) => {
            assert_eq!(q, SERVICE_UPSERT);
            assert_eq!(ps.len(), 8);
            assert_eq!(param_text(&ps[0]), Some("node-1"));
            assert_eq!(param_text(&ps[4]), Some("{\"app_id\":\"123\"}"));
            assert!(matches!(ps[5], SqliteParam::Integer(1337)));
            assert!(matches!(ps[7], SqliteParam::Integer(42)));
        }
        other => panic!("unexpected {other:?}"),
    }
    match (&stmts[3], &stmts[4]) {
        (Statement::WithParams(q1, first), Statement::WithParams(q2, second)) => {
            assert_eq!(q1, SERVICE_HASH_DELETE);
            assert_eq!(param_text(&first[0]), Some("old"));
            assert_eq!(q2, SERVICE_DELETE);
            assert_eq!(param_text(&second[0]), Some("node-1"));
            assert_eq!(param_text(&second[1]), Some("old"));
        }
        other => panic!("unexpected {other:?}"),
    }
}

#[test]
fn check_ops_become_statements() {
    let checks = vec![CheckRow {
        id: "c1".to_string(),
        service_id: "s1".to_string(),
        service_name: "svc".to_string(),
        name: "alive".to_string(),
        status: "passing".to_string(),
        output: "ok".to_string(),
    }];
    let ops = vec![SyncOp::Upsert { index: 0, hash: 7 }, SyncOp::Delete { id: "c0".to_string() }];
    let mut stmts = vec![];
    append_check_ops(&mut stmts, "n", &checks, &ops, 1);
    assert_eq!(stmts.len(), 4);
    assert_eq!(stmts[0].query(), CHECK_HASH_UPSERT);
    assert_eq!(stmts[3].query(), CHECK_DELETE);
    match &stmts[1] {
        Statement::WithParams(_, ps) => {
            let texts: Vec<_> = ps[..7].iter().map(|p| param_text(p).unwrap()).collect();
            assert_eq!(texts, vec!["n", "c1", "s1", "svc", "alive", "passing", "ok"]);
        }
        other => panic!("unexpected {other:?}"),
    }
}

use corro_api_types::sync::{hash_check, CheckField};
use std::hash::Hasher;

fn sea(parts: &[&str]) -> u64 {
    let mut h = seahash::SeaHasher::new();
    for p in parts {
        h.write(p.as_bytes());
    }
    h.finish()
}

fn sample_check() -> CheckRow {
    CheckRow {
        id: "c1".to_string(),
        service_id: "s1".to_string(),
        service_name: "svc".to_string(),
        name: "alive".to_string(),
        status: "passing".to_string(),
        output: "took 3ms".to_string(),
    }
}

#[test]
fn check_hash_uses_status_by_default() {
    let c = sample_check();
    assert_eq!(hash_check(&c, None), sea(&["svc", "s1", "passing"]));
    let mut other_output = c.clone();
    other_output.output = "took 4ms".to_string();
    assert_eq!(hash_check(&other_output, None), hash_check(&c, None));
    let mut other_status = c.clone();
    other_status.status = "critical".to_string();
    assert_ne!(hash_check(&other_status, None), hash_check(&c, None));
}

#[test]
fn check_hash_follows_listed_fields() {
    let c = sample_check();
    let fields = vec![CheckField::Output, CheckField::Status];
    assert_eq!(hash_check(&c, Some(&fields)), sea(&["svc", "s1", "took 3ms", "passing"]));
    let none: Vec<CheckField> = vec![];
    assert_eq!(hash_check(&c, Some(&none)), sea(&["svc", "s1"]));
    let mut other_status = c.clone();
    other_status.status = "critical".to_string();
    let only_output = vec![CheckField::Output];
    assert_eq!(hash_check(&other_status, Some(&only_output)), hash_check(&c, Some(&only_output)));
}

use corro_api_types::record_pass;

fn sorted(mut v: Vec<(String, u64)>) -> Vec<(String, u64)> {
    v.sort();
    v
}

#[test]
fn recording_a_pass_matches_the_listing() {
    let mut known = vec![e("a", 1), e("b", 2), e("c", 3)];
    let fresh = vec![e("b", 2), e("c", 30), e("d", 4)];
    let ops = plan_sync(&known, &fresh, false);
    record_pass(&mut known, &fresh, &ops);
    assert_eq!(sorted(known.clone()), sorted(fresh.clone()));
    let again = plan_sync(&known, &fresh, false);
    assert!(again.is_empty());
}

#[test]
fn recording_a_forced_pass_matches_the_listing() {
    let mut known = vec![e("service-id", 11)];
    let fresh = vec![e("service-id", 11), e("other", 12)];
    let ops = plan_sync(&known, &fresh, true);
    assert_eq!(count_ops(&ops).upserted, 2);
    record_pass(&mut known, &fresh, &ops);
    assert_eq!(sorted(known), sorted(fresh));
}

use corro_api_types::sync::{expected_check_columns, expected_service_columns, first_missing_column};
use corro_api_types::ColumnType;

fn cols(list: &[(&str, ColumnType)]) -> Vec<(String, ColumnType)> {
    list.iter().map(|(n, t)| (n.to_string(), *t)).collect()
}

#[test]
fn schema_check_accepts_complete_tables() {
    let services = cols(&[
        ("node", ColumnType::Text),
        ("id", ColumnType::Text),
        ("name", ColumnType::Text),
        ("tags", ColumnType::Blob),
        ("meta", ColumnType::Text),
        ("port", ColumnType::Integer),
        ("address", ColumnType::Text),
        ("updated_at", ColumnType::Integer),
        ("app_id", ColumnType::Integer),
    ]);
    assert_eq!(first_missing_column(&services, &expected_service_columns()), None);
    let checks = cols(&[
        ("updated_at", ColumnType::Integer),
        ("output", ColumnType::Text),
        ("status", ColumnType::Text),
        ("name", ColumnType::Text),
        ("service_name", ColumnType::Text),
        ("service_id", ColumnType::Text),
        ("id", ColumnType::Text),
        ("node", ColumnType::Text),
    ]);
    assert_eq!(first_missing_column(&checks, &expected_check_columns()), None);
}

#[test]
fn schema_check_reports_first_missing_or_mistyped() {
    let mistyped_port = cols(&[
        ("node", ColumnType::Text),
        ("id", ColumnType::Text),
        ("name", ColumnType::Text),
        ("tags", ColumnType::Text),
        ("meta", ColumnType::Text),
        ("port", ColumnType::Text),
        ("address", ColumnType::Text),
    ]);
    assert_eq!(first_missing_column(&mistyped_port, &expected_service_columns()), Some(5));
    assert_eq!(first_missing_column(&vec![], &expected_check_columns()), Some(0));
}
