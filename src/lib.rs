//! Content-addressed backups of a flashcard collection: deduplication by
//! digest, a history kept newest first, retention pruning, rollback with an
//! audit log, snapshot statistics, and the decision logic of the remote sync
//! protocol.

pub mod backup;
pub mod config;
pub mod hash;
pub mod repository;
pub mod service;
pub mod stats;
pub mod store;
pub mod sync;
pub mod timestamp;

pub use backup::{
    BackupEntry, BackupSkipReason, BackupStats, BackupStatus, DeckStats, NewBackupEntry,
};
pub use config::{AnkiwebConfig, Config, SecurityConfig, ServerConfig, StorageConfig, StoreBackend};
pub use hash::content_hash;
pub use repository::{
    BackupError, BackupPayload, BackupRepository, CurrentPointer, RollbackEvent, RunOnceOutcome,
};
pub use stats::{assemble_stats, parse_deck_names, resolve_deck_names, StatsError};
pub use store::{SqliteStore, StoredRow};
pub use sync::{
    simple_session_id, SyncAction, SyncConfig, SyncError, SyncReply, SyncRequest, SyncResult,
    SyncSession,
};
pub use timestamp::format_timestamp_dir;
