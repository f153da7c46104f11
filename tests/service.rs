use std::collections::HashMap;

use anki_backup::config::DEFAULT_RETENTION_DAYS;
use anki_backup::service::{authorize_api, csrf_accepts, rollback_allowed, secs_until_next_hour};
use anki_backup::store::{entry_to_row, row_to_entry};
use anki_backup::{
    format_timestamp_dir, AnkiwebConfig, BackupPayload, BackupRepository, BackupStatus, RunOnceOutcome,
    ServerConfig, SqliteStore, StorageConfig, StoreBackend,
};

fn storage(url: Option<&str>) -> StorageConfig {
    StorageConfig { root: None, retention_days: None, database_url: url.map(|u| u.to_string()) }
}

#[test]
fn timestamp_dirs_are_path_safe() {
    let dir = format_timestamp_dir(1_700_000_000).unwrap();
    assert_eq!(dir, "2023-11-14T22-13-20Z");
    assert!(!dir.contains(':') && !dir.contains('/') && !dir.contains('\\') && !dir.contains('.'));
    assert_eq!(format_timestamp_dir(0).unwrap(), "1970-01-01T00-00-00Z");
    assert_eq!(format_timestamp_dir(-1).unwrap(), "1969-12-31T23-59-59Z");
    assert!(format_timestamp_dir(i64::MIN).is_none());
}

#[test]
fn backend_follows_connection_string_scheme() {
    assert_eq!(storage(None).backend(), StoreBackend::Embedded);
    assert_eq!(storage(Some("postgres://u@h/db")).backend(), StoreBackend::Networked);
    assert_eq!(storage(Some("postgresql://h/db")).backend(), StoreBackend::Networked);
    assert_eq!(storage(Some("/var/lib/meta.db")).backend(), StoreBackend::Embedded);
    assert_eq!(storage(Some("postgres:/x")).backend(), StoreBackend::Embedded);
}

#[test]
fn configuration_defaults() {
    let s = storage(None);
    assert_eq!(s.retention_days_or_default(), DEFAULT_RETENTION_DAYS);
    assert_eq!(s.root_or_default(), "./data");
    let s = StorageConfig { root: Some("/srv".to_string()), retention_days: Some(0), database_url: None };
    assert_eq!(s.retention_days_or_default(), 0);
    assert_eq!(s.root_or_default(), "/srv");
    assert_eq!(ServerConfig { listen: None }.listen_or_default(), "127.0.0.1:8088");
    let sync = AnkiwebConfig { username: None, password: Some("p".to_string()), endpoint: None }.sync_config();
    assert_eq!(sync.username, "");
    assert_eq!(sync.password, "p");
    assert!(sync.endpoint.is_none());
}

#[test]
fn api_token_check() {
    let token = Some("secret-token".to_string());
    assert!(authorize_api(&None, &None));
    assert!(!authorize_api(&token, &None));
    assert!(authorize_api(&token, &Some("Bearer secret-token".to_string())));
    assert!(!authorize_api(&token, &Some("Bearer other".to_string())));
    assert!(!authorize_api(&token, &Some("secret-token".to_string())));
}

#[test]
fn csrf_check() {
    let token = Some("csrf-secret".to_string());
    assert!(csrf_accepts(&None, &None));
    assert!(!csrf_accepts(&token, &None));
    assert!(!csrf_accepts(&token, &Some("wrong".to_string())));
    assert!(csrf_accepts(&token, &Some("csrf-secret".to_string())));
}

#[test]
fn rollback_gate_cooldown() {
    assert!(rollback_allowed(None, 100));
    assert!(!rollback_allowed(Some(95), 100));
    assert!(rollback_allowed(Some(90), 100));
}

#[test]
fn next_hour_wait() {
    assert_eq!(secs_until_next_hour(0, 0), 3600);
    assert_eq!(secs_until_next_hour(59, 59), 1);
    assert_eq!(secs_until_next_hour(30, 15), 1785);
}

#[test]
fn rows_round_trip() {
    let mut repo = BackupRepository::new("/data".to_string());
    let stats = anki_backup::assemble_stats(1, 1, 0, &HashMap::from([(1, "D".to_string())]), &vec![(1, 1)]);
    let payload = BackupPayload { bytes: vec![9], source_revision: Some("r1".to_string()), sync_duration_ms: Some(5) };
    let created = match repo.run_once(payload, "h".to_string(), 1_700_000_000, stats).unwrap() {
        RunOnceOutcome::Created(e) => e,
        RunOnceOutcome::Skipped(_) => panic!("expected created backup"),
    };
    let row = entry_to_row(&created);
    assert_eq!(row.status, "created");
    assert!(row.skip_reason.is_none());
    let back = row_to_entry(row);
    assert_eq!(back.id, created.id);
    assert_eq!(back.status, BackupStatus::Created);
    assert_eq!(back.source_revision, Some("r1".to_string()));

    let payload = BackupPayload { bytes: vec![9], source_revision: None, sync_duration_ms: None };
    let skipped = match repo.run_once(payload, "h".to_string(), 1_700_000_001, anki_backup::assemble_stats(0, 0, 0, &HashMap::new(), &vec![])).unwrap() {
        RunOnceOutcome::Skipped(e) => e,
        RunOnceOutcome::Created(_) => panic!("expected skipped backup"),
    };
    let row = entry_to_row(&skipped);
    assert_eq!(row.status, "skipped");
    assert_eq!(row.skip_reason, Some("unchanged".to_string()));
    let mut shouting = row;
    shouting.status = "SKIPPED".to_string();
    assert_eq!(row_to_entry(shouting).status, BackupStatus::Skipped);
}

#[test]
fn sqlite_store_keeps_its_path() {
    let store = SqliteStore::new("/data/state/metadata.db".to_string());
    assert_eq!(store.db_path(), "/data/state/metadata.db");
}

#[test]
fn timestamp_dirs_sort_in_time_order() {
    let earlier = format_timestamp_dir(946_684_799).unwrap();
    let later = format_timestamp_dir(946_684_800).unwrap();
    assert_eq!(earlier, "1999-12-31T23-59-59Z");
    assert_eq!(later, "2000-01-01T00-00-00Z");
    assert!(earlier < later);
    assert_eq!(format_timestamp_dir(-62_167_219_200).unwrap(), "0000-01-01T00-00-00Z");
    assert_eq!(format_timestamp_dir(253_402_300_799).unwrap(), "9999-12-31T23-59-59Z");
    assert!(format_timestamp_dir(253_402_300_800).unwrap().starts_with('+'));
}
