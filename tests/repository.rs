use std::collections::HashMap;

use anki_backup::{
    assemble_stats, content_hash, BackupEntry, BackupError, BackupPayload, BackupRepository,
    BackupSkipReason, BackupStats, BackupStatus, RunOnceOutcome,
};

const NOW: i64 = 1_700_000_000;
const DAY: i64 = 86_400;

fn sample_collection() -> Vec<u8> {
    b"SQLite format 3\0 cards:1,2,3 notes:1,2 revlog:1 decks:10=Default,20=Spanish".to_vec()
}

fn sample_stats() -> BackupStats {
    assemble_stats(
        3,
        2,
        1,
        &HashMap::from([(10, "Default".to_string()), (20, "Spanish".to_string())]),
        &vec![(10, 2), (20, 1)],
    )
}

fn payload(bytes: Vec<u8>) -> BackupPayload {
    BackupPayload { bytes, source_revision: None, sync_duration_ms: Some(1) }
}

fn created(outcome: RunOnceOutcome) -> BackupEntry {
    match outcome {
        RunOnceOutcome::Created(e) => e,
        RunOnceOutcome::Skipped(_) => panic!("expected created backup"),
    }
}

#[test]
fn run_once_create_then_skip() {
    let mut repo = BackupRepository::new("/tmp/anki-backups".to_string());
    let bytes = sample_collection();
    let hash = content_hash(&bytes);

    let first = repo.run_once(payload(bytes.clone()), hash.clone(), NOW, sample_stats()).unwrap();
    assert!(matches!(first, RunOnceOutcome::Created(_)));

    let second = repo.run_once(payload(bytes), hash, NOW + 3600, sample_stats()).unwrap();
    assert!(matches!(second, RunOnceOutcome::Skipped(_)));
}

#[test]
fn prune_retention_deletes_old_created_backups() {
    let mut repo = BackupRepository::new("/tmp/anki-backups".to_string());
    let old = NOW - 400 * DAY;
    let created = created(
        repo.run_once(payload(sample_collection()), "hash1".to_string(), old, sample_stats()).unwrap(),
    );

    let doomed = repo.prune_candidates(90, NOW);
    assert_eq!(doomed, vec![(created.id, created.timestamp_dir.clone())]);

    let removed = repo.prune_created_older_than_days(90, NOW);
    assert_eq!(removed, 1);

    let remaining = repo.list_backups();
    assert!(remaining.is_empty());
    assert!(repo.get_backup(created.id).is_none());
}

#[test]
fn resubmitting_identical_bytes_is_skipped() {
    let mut repo = BackupRepository::new("/data".to_string());
    let bytes = sample_collection();
    let hash = content_hash(&bytes);
    let first = created(repo.run_once(payload(bytes.clone()), hash.clone(), NOW, sample_stats()).unwrap());
    let pointer_before = repo.current_pointer().unwrap();

    let skipped = match repo.run_once(payload(bytes), hash.clone(), NOW + 60, sample_stats()).unwrap() {
        RunOnceOutcome::Skipped(e) => e,
        RunOnceOutcome::Created(_) => panic!("expected skipped backup"),
    };
    assert_eq!(skipped.status, BackupStatus::Skipped);
    assert_eq!(skipped.skip_reason, Some(BackupSkipReason::Unchanged));
    assert_eq!(skipped.size_bytes, 0);
    assert_eq!(skipped.timestamp_dir, "");
    assert!(skipped.stats.is_none());
    assert_eq!(skipped.content_hash, hash);
    assert_eq!(skipped.created_at, NOW + 60);

    let pointer_after = repo.current_pointer().unwrap();
    assert_eq!(pointer_after.backup_id, pointer_before.backup_id);
    assert_eq!(pointer_after.backup_id, first.id);
    assert_eq!(pointer_after.timestamp_dir, first.timestamp_dir);
    assert_eq!(repo.list_backups().len(), 2);
}

#[test]
fn skips_do_not_shift_the_baseline() {
    let mut repo = BackupRepository::new("/data".to_string());
    created(repo.run_once(payload(vec![1]), "h1".to_string(), NOW, sample_stats()).unwrap());
    for k in 1..4 {
        let r = repo.run_once(payload(vec![1]), "h1".to_string(), NOW + k, sample_stats()).unwrap();
        assert!(matches!(r, RunOnceOutcome::Skipped(_)));
    }
    assert_eq!(repo.last_created_hash(), Some("h1".to_string()));
}

#[test]
fn distinct_content_always_creates() {
    let mut repo = BackupRepository::new("/data".to_string());
    let a = created(repo.run_once(payload(vec![1, 2, 3]), "aaa".to_string(), NOW, sample_stats()).unwrap());
    let b = created(repo.run_once(payload(vec![4, 5]), "bbb".to_string(), NOW + 1, sample_stats()).unwrap());
    assert_ne!(a.timestamp_dir, b.timestamp_dir);
    assert_ne!(repo.backup_file_path(&a), repo.backup_file_path(&b));
    assert_eq!(a.timestamp_dir, "2023-11-14T22-13-20Z");
    assert_eq!(b.timestamp_dir, "2023-11-14T22-13-21Z");
    assert_eq!(a.size_bytes, 3);
    assert_eq!(b.size_bytes, 2);
    assert_eq!(repo.current_pointer().unwrap().backup_id, b.id);
}

#[test]
fn modified_collection_creates_second_entry_with_updated_counts() {
    let mut repo = BackupRepository::new("/data".to_string());
    let first_bytes = sample_collection();
    let first = created(
        repo.run_once(payload(first_bytes.clone()), content_hash(&first_bytes), NOW, sample_stats()).unwrap(),
    );
    let mut second_bytes = first_bytes.clone();
    second_bytes.extend_from_slice(b" note:3 revlog:2 card:4@10");
    let second_stats = assemble_stats(
        4,
        3,
        2,
        &HashMap::from([(10, "Default".to_string()), (20, "Spanish".to_string())]),
        &vec![(10, 3), (20, 1)],
    );
    let second = created(
        repo.run_once(payload(second_bytes.clone()), content_hash(&second_bytes), NOW + 3600, second_stats)
            .unwrap(),
    );
    assert_ne!(first.id, second.id);
    let s1 = first.stats.unwrap();
    let s2 = second.stats.unwrap();
    assert_eq!((s1.total_cards, s1.total_notes, s1.total_revlog, s1.total_decks), (3, 2, 1, 2));
    assert_eq!((s2.total_cards, s2.total_notes, s2.total_revlog, s2.total_decks), (4, 3, 2, 2));
    assert_eq!(s2.deck_stats[0].deck_name, "Default");
    assert_eq!(s2.deck_stats[0].card_count, 3);
    let listed = repo.list_backups();
    assert_eq!(listed.len(), 2);
    assert_eq!(listed[0].id, second.id);
    assert_eq!(listed[1].id, first.id);
}

#[test]
fn rollback_to_created_moves_pointer_and_logs_once() {
    let mut repo = BackupRepository::new("/data".to_string());
    let a = created(repo.run_once(payload(vec![1]), "a".to_string(), NOW, sample_stats()).unwrap());
    let b = created(repo.run_once(payload(vec![2]), "b".to_string(), NOW + 10, sample_stats()).unwrap());
    assert_eq!(repo.current_pointer().unwrap().backup_id, b.id);

    let rolled = repo.rollback_to(a.id, NOW + 20).unwrap();
    assert_eq!(rolled.id, a.id);
    let pointer = repo.current_pointer().unwrap();
    assert_eq!(pointer.backup_id, a.id);
    assert_eq!(pointer.timestamp_dir, a.timestamp_dir);
    assert_eq!(pointer.updated_at, NOW + 20);
    let events = repo.rollback_events();
    assert_eq!(events.len(), 1);
    assert_eq!(events[0].backup_id, a.id);
    assert_eq!(events[0].created_at, NOW + 20);
    assert_eq!(repo.list_backups().len(), 2);
}

#[test]
fn rollback_to_skipped_fails() {
    let mut repo = BackupRepository::new("/data".to_string());
    let a = created(repo.run_once(payload(vec![1]), "a".to_string(), NOW, sample_stats()).unwrap());
    let skipped = match repo.run_once(payload(vec![1]), "a".to_string(), NOW + 5, sample_stats()).unwrap() {
        RunOnceOutcome::Skipped(e) => e,
        RunOnceOutcome::Created(_) => panic!("expected skipped backup"),
    };
    assert_eq!(repo.rollback_to(skipped.id, NOW + 10).unwrap_err(), BackupError::NotCreated);
    assert_eq!(repo.current_pointer().unwrap().backup_id, a.id);
    assert!(repo.rollback_events().is_empty());
}

#[test]
fn rollback_to_unknown_id_fails() {
    let mut repo = BackupRepository::new("/data".to_string());
    assert_eq!(repo.rollback_to(42, NOW).unwrap_err(), BackupError::NotFound);
    assert!(repo.current_pointer().is_none());
}

#[test]
fn retention_keeps_entries_inside_window() {
    let mut repo = BackupRepository::new("/data".to_string());
    let old = created(repo.run_once(payload(vec![1]), "old".to_string(), NOW - 100 * DAY, sample_stats()).unwrap());
    let old_skip = repo.run_once(payload(vec![1]), "old".to_string(), NOW - 99 * DAY, sample_stats()).unwrap();
    assert!(matches!(old_skip, RunOnceOutcome::Skipped(_)));
    let recent = created(repo.run_once(payload(vec![2]), "new".to_string(), NOW - DAY, sample_stats()).unwrap());

    assert_eq!(repo.prune_created_older_than_days(0, NOW), 0);
    assert_eq!(repo.prune_created_older_than_days(-5, NOW), 0);
    assert_eq!(repo.list_backups().len(), 3);

    assert_eq!(repo.prune_created_older_than_days(90, NOW), 1);
    let listed = repo.list_backups();
    assert_eq!(listed.len(), 2);
    assert_eq!(listed[0].id, recent.id);
    assert_eq!(listed[1].status, BackupStatus::Skipped);
    assert!(repo.get_backup(old.id).is_none());
    assert!(repo.get_backup(recent.id).is_some());
}

#[test]
fn out_of_range_instant_is_refused() {
    let mut repo = BackupRepository::new("/data".to_string());
    let r = repo.run_once(payload(vec![1]), "x".to_string(), i64::MAX, sample_stats());
    assert_eq!(r.unwrap_err(), BackupError::TimestampOutOfRange);
    assert!(repo.list_backups().is_empty());
    assert_eq!(repo.pending_snapshot_dir(&"x".to_string(), i64::MAX), Err(BackupError::TimestampOutOfRange));
}

#[test]
fn pending_snapshot_dir_follows_dedup() {
    let mut repo = BackupRepository::new("/data".to_string());
    assert_eq!(
        repo.pending_snapshot_dir(&"h".to_string(), NOW),
        Ok(Some("2023-11-14T22-13-20Z".to_string()))
    );
    created(repo.run_once(payload(vec![1]), "h".to_string(), NOW, sample_stats()).unwrap());
    assert_eq!(repo.pending_snapshot_dir(&"h".to_string(), NOW + 1), Ok(None));
}

#[test]
fn backup_file_path_is_derived_from_root_and_dir() {
    let mut repo = BackupRepository::new("/srv/anki".to_string());
    let a = created(repo.run_once(payload(vec![1]), "a".to_string(), NOW, sample_stats()).unwrap());
    assert_eq!(repo.backup_file_path(&a), "/srv/anki/backups/2023-11-14T22-13-20Z/collection.anki2");
    let slash = BackupRepository::new("/srv/anki/".to_string());
    assert_eq!(slash.backup_dir_path(&a.timestamp_dir), "/srv/anki/backups/2023-11-14T22-13-20Z");
}

#[test]
fn load_entry_checks_invariant_and_ids() {
    let mut source = BackupRepository::new("/data".to_string());
    let a = created(source.run_once(payload(vec![1]), "a".to_string(), NOW, sample_stats()).unwrap());

    let mut repo = BackupRepository::new("/data".to_string());
    assert_eq!(repo.load_entry(a.clone()), Ok(()));
    assert_eq!(repo.load_entry(a.clone()), Err(BackupError::DuplicateId));
    let mut broken = a.clone();
    broken.id = a.id.wrapping_add(1);
    broken.stats = None;
    assert_eq!(repo.load_entry(broken), Err(BackupError::InvalidEntry));
    assert_eq!(repo.list_backups().len(), 1);
    assert_eq!(repo.last_created_hash(), Some("a".to_string()));
}

#[test]
fn history_is_kept_newest_first() {
    let mut source = BackupRepository::new("/data".to_string());
    let a = created(source.run_once(payload(vec![1]), "a".to_string(), NOW, sample_stats()).unwrap());
    let b = created(source.run_once(payload(vec![2]), "b".to_string(), NOW + 100, sample_stats()).unwrap());
    let c = created(source.run_once(payload(vec![3]), "c".to_string(), NOW + 50, sample_stats()).unwrap());
    let ids: Vec<u128> = source.list_backups().iter().map(|e| e.id).collect();
    assert_eq!(ids, vec![b.id, c.id, a.id]);
    assert_eq!(source.last_created_hash(), Some("b".to_string()));

    let mut repo = BackupRepository::new("/data".to_string());
    repo.load_entry(a.clone()).unwrap();
    repo.load_entry(c.clone()).unwrap();
    repo.load_entry(b.clone()).unwrap();
    let ids: Vec<u128> = repo.list_backups().iter().map(|e| e.id).collect();
    assert_eq!(ids, vec![b.id, c.id, a.id]);
}

#[test]
fn taken_id_records_nothing() {
    let mut repo = BackupRepository::new("/data".to_string());
    let first = created(repo.run_once_with_id(7, payload(vec![1]), "a".to_string(), NOW, sample_stats()).unwrap());
    assert_eq!(first.id, 7);
    let again = repo.run_once_with_id(7, payload(vec![2]), "b".to_string(), NOW + 1, sample_stats());
    assert_eq!(again.unwrap_err(), BackupError::DuplicateId);
    assert_eq!(repo.list_backups().len(), 1);
    assert_eq!(repo.current_pointer().unwrap().backup_id, 7);
}

#[test]
fn same_second_second_snapshot_is_refused() {
    let mut repo = BackupRepository::new("/data".to_string());
    let a = created(repo.run_once(payload(vec![1]), "a".to_string(), NOW, sample_stats()).unwrap());
    assert_eq!(repo.pending_snapshot_dir(&"b".to_string(), NOW), Err(BackupError::DirectoryTaken));
    let r = repo.run_once(payload(vec![2]), "b".to_string(), NOW, sample_stats());
    assert_eq!(r.unwrap_err(), BackupError::DirectoryTaken);
    assert_eq!(repo.list_backups().len(), 1);
    assert_eq!(repo.current_pointer().unwrap().backup_id, a.id);
    let b = created(repo.run_once(payload(vec![2]), "b".to_string(), NOW + 1, sample_stats()).unwrap());
    assert_ne!(a.timestamp_dir, b.timestamp_dir);
}

#[test]
fn rollback_event_ids_are_fresh() {
    let mut repo = BackupRepository::new("/data".to_string());
    let a = created(repo.run_once(payload(vec![1]), "a".to_string(), NOW, sample_stats()).unwrap());
    assert_eq!(repo.rollback_to_with_event_id(a.id, 5, NOW + 1).unwrap().id, a.id);
    assert_eq!(repo.rollback_to_with_event_id(a.id, 5, NOW + 2).unwrap_err(), BackupError::DuplicateId);
    let events = repo.rollback_events();
    assert_eq!(events.len(), 1);
    assert_eq!(events[0].id, 5);
    assert_eq!(repo.current_pointer().unwrap().updated_at, NOW + 1);
}

#[test]
fn last_created_hash_is_newest_created() {
    let mut repo = BackupRepository::new("/data".to_string());
    assert_eq!(repo.last_created_hash(), None);
    created(repo.run_once(payload(vec![1]), "late".to_string(), NOW + 100, sample_stats()).unwrap());
    created(repo.run_once(payload(vec![2]), "early".to_string(), NOW, sample_stats()).unwrap());
    assert_eq!(repo.last_created_hash(), Some("late".to_string()));
}
