//! How backup records are laid out as rows of a metadata store, and the
//! embedded store's location and schema.

use vstd::prelude::*;
use crate::backup::{
    created_text, eq_ignore_ascii_case, opt_stats, opt_text, parse_skip_reason, parse_status, skip_reason_str,
    skipped_text, status_str, status_text, unchanged_text, BackupEntry, BackupEntryView,
    BackupSkipReason, BackupStats, BackupStatsView, BackupStatus,
};

verus! {

/// Tables of the metadata store: backup records and the rollback log.
pub const SCHEMA_SQL: &'static str = "CREATE TABLE IF NOT EXISTS backups (
    id TEXT PRIMARY KEY,
    created_at TEXT NOT NULL,
    timestamp_dir TEXT NOT NULL,
    content_hash TEXT NOT NULL,
    status TEXT NOT NULL,
    skip_reason TEXT,
    source_revision TEXT,
    sync_duration_ms INTEGER,
    size_bytes INTEGER NOT NULL DEFAULT 0,
    stats_json TEXT
);
CREATE TABLE IF NOT EXISTS rollback_events (
    id TEXT PRIMARY KEY,
    backup_id TEXT NOT NULL,
    created_at TEXT NOT NULL
);";

/// One row of the `backups` table, with status and skip reason as text.
#[derive(Debug)]
pub struct StoredRow {
    pub id: u128,
    pub created_at: i64,
    pub timestamp_dir: String,
    pub content_hash: String,
    pub status: String,
    pub skip_reason: Option<String>,
    pub source_revision: Option<String>,
    pub sync_duration_ms: Option<i64>,
    pub size_bytes: i64,
    pub stats: Option<BackupStats>,
}

/// Mathematical value of a `StoredRow`.
pub struct StoredRowView {
    pub id: u128,
    pub created_at: i64,
    pub timestamp_dir: Seq<char>,
    pub content_hash: Seq<char>,
    pub status: Seq<char>,
    pub skip_reason: Option<Seq<char>>,
    pub source_revision: Option<Seq<char>>,
    pub sync_duration_ms: Option<i64>,
    pub size_bytes: i64,
    pub stats: Option<BackupStatsView>,
}

impl View for StoredRow {
    type V = StoredRowView;

    open spec fn view(&self) -> StoredRowView {
        StoredRowView {
            id: self.id,
            created_at: self.created_at,
            timestamp_dir: self.timestamp_dir@,
            content_hash: self.content_hash@,
            status: self.status@,
            skip_reason: opt_text(self.skip_reason),
            source_revision: opt_text(self.source_revision),
            sync_duration_ms: self.sync_duration_ms,
            size_bytes: self.size_bytes,
            stats: opt_stats(self.stats),
        }
    }
}

/// The row that stores a record.
pub open spec fn row_of(e: BackupEntryView) -> StoredRowView {
    StoredRowView {
        id: e.id,
        created_at: e.created_at,
        timestamp_dir: e.timestamp_dir,
        content_hash: e.content_hash,
        status: status_text(e.status),
        skip_reason: match e.skip_reason {
            Some(_) => Some(unchanged_text()),
            None => None,
        },
        source_revision: e.source_revision,
        sync_duration_ms: e.sync_duration_ms,
        size_bytes: e.size_bytes,
        stats: e.stats,
    }
}

/// The record a row holds: "skipped" in any ASCII case is a skip marker,
/// any other status a created snapshot; any skip reason reads as unchanged.
pub open spec fn entry_of_row(r: StoredRowView) -> BackupEntryView {
    BackupEntryView {
        id: r.id,
        created_at: r.created_at,
        timestamp_dir: r.timestamp_dir,
        content_hash: r.content_hash,
        status: if eq_ignore_ascii_case(r.status, skipped_text()) {
            BackupStatus::Skipped
        } else {
            BackupStatus::Created
        },
        skip_reason: match r.skip_reason {
            Some(_) => Some(BackupSkipReason::Unchanged),
            None => None,
        },
        source_revision: r.source_revision,
        sync_duration_ms: r.sync_duration_ms,
        size_bytes: r.size_bytes,
        stats: r.stats,
    }
}

/// The row that stores `e`.
pub fn entry_to_row(e: &BackupEntry) -> (r: StoredRow)
    ensures
        r@ == row_of(e@),
{
    let e2 = e.clone();
    let skip_reason = match &e.skip_reason {
        Some(reason) => Some(skip_reason_str(reason).to_owned()),
        None => None,
    };
    StoredRow {
        id: e2.id,
        created_at: e2.created_at,
        timestamp_dir: e2.timestamp_dir,
        content_hash: e2.content_hash,
        status: status_str(&e.status).to_owned(),
        skip_reason,
        source_revision: e2.source_revision,
        sync_duration_ms: e2.sync_duration_ms,
        size_bytes: e2.size_bytes,
        stats: e2.stats,
    }
}

/// The record that `row` stores.
pub fn row_to_entry(row: StoredRow) -> (r: BackupEntry)
    ensures
        r@ == entry_of_row(row@),
{
    let status = parse_status(row.status.as_str());
    let skip_reason = match &row.skip_reason {
        Some(s) => Some(parse_skip_reason(s.as_str())),
        None => None,
    };
    BackupEntry {
        id: row.id,
        created_at: row.created_at,
        timestamp_dir: row.timestamp_dir,
        content_hash: row.content_hash,
        status,
        skip_reason,
        source_revision: row.source_revision,
        sync_duration_ms: row.sync_duration_ms,
        size_bytes: row.size_bytes,
        stats: row.stats,
    }
}

/// A record read back from the row that stores it is the same record.
pub proof fn lemma_row_round_trip(e: BackupEntryView)
    ensures
        entry_of_row(row_of(e)) == e,
{
    assert(!eq_ignore_ascii_case(created_text(), skipped_text())) by {
        assert(created_text()[0] == 'c');
        assert(skipped_text()[0] == 's');
    }
    assert(eq_ignore_ascii_case(skipped_text(), skipped_text()));
    if let Some(r) = e.skip_reason {
        assert(r is Unchanged);
    }
}

/// The embedded metadata store: one database file, opened afresh for each
/// operation.
#[derive(Debug)]
pub struct SqliteStore {
    db_path: String,
}

impl SqliteStore {
    /// A store kept in the file at `db_path`; its tables are created by
    /// running `SCHEMA_SQL` there.
    pub fn new(db_path: String) -> (r: Self)
        ensures
            r.path() == db_path@,
    {
        SqliteStore { db_path }
    }

    pub closed spec fn path(&self) -> Seq<char> {
        self.db_path@
    }

    /// The database file.
    pub fn db_path(&self) -> (r: String)
        ensures
            r@ == self.path(),
    {
        self.db_path.clone()
    }
}

} // verus!
