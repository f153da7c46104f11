//! The backup repository: a history of backup records kept newest first,
//! deduplication against the latest snapshot, the current-snapshot pointer,
//! rollback with its audit log, and retention pruning.
//!
//! Bytes on disk are written and removed by the caller at the paths this
//! module derives; this module decides what is recorded and where.

use vstd::prelude::*;
use crate::backup::{
    opt_text, BackupEntry, BackupEntryView, BackupSkipReason, BackupStats, BackupStatus,
    NewBackupEntry,
};
use crate::timestamp::{format_timestamp_dir, is_path_safe, restore_colons, rfc3339_secs_of, timestamp_dir_of};

verus! {

/// Relies on uuid::Uuid::new_v4: a random version-4 UUID, as its 128-bit value.
#[verifier::external_body]
fn new_uuid() -> (r: u128) {
    uuid::Uuid::new_v4().as_u128()
}

/// An audit record of one rollback; never changed or removed.
#[derive(Clone, Copy, Debug, PartialEq, Eq, Structural)]
pub struct RollbackEvent {
    pub id: u128,
    pub backup_id: u128,
    pub created_at: i64,
}

/// The snapshot that is current, and when it became so.
#[derive(Debug)]
pub struct CurrentPointer {
    pub backup_id: u128,
    pub timestamp_dir: String,
    pub updated_at: i64,
}

/// Mathematical value of a `CurrentPointer`.
pub struct CurrentPointerView {
    pub backup_id: u128,
    pub timestamp_dir: Seq<char>,
    pub updated_at: i64,
}

impl View for CurrentPointer {
    type V = CurrentPointerView;

    open spec fn view(&self) -> CurrentPointerView {
        CurrentPointerView {
            backup_id: self.backup_id,
            timestamp_dir: self.timestamp_dir@,
            updated_at: self.updated_at,
        }
    }
}

impl Clone for CurrentPointer {
    fn clone(&self) -> (r: Self)
        ensures
            r@ == self@,
    {
        CurrentPointer {
            backup_id: self.backup_id,
            timestamp_dir: self.timestamp_dir.clone(),
            updated_at: self.updated_at,
        }
    }
}

pub open spec fn pointer_view(p: Option<CurrentPointer>) -> Option<CurrentPointerView> {
    match p {
        Some(q) => Some(q@),
        None => None,
    }
}

/// The bytes of one fetched collection and what is known of their origin.
#[derive(Debug)]
pub struct BackupPayload {
    pub bytes: Vec<u8>,
    pub source_revision: Option<String>,
    pub sync_duration_ms: Option<i64>,
}

/// What one backup run recorded.
#[derive(Debug)]
pub enum RunOnceOutcome {
    Created(BackupEntry),
    Skipped(BackupEntry),
}

/// Why a repository operation did nothing.
#[derive(Clone, Copy, Debug, PartialEq, Eq, Structural)]
pub enum BackupError {
    /// No record has the id asked for.
    NotFound,
    /// The record is a skip marker, which has no snapshot.
    NotCreated,
    /// The id is already taken by another record.
    DuplicateId,
    /// The instant is outside the calendar's range.
    TimestampOutOfRange,
    /// A recorded snapshot already uses the directory of this instant.
    DirectoryTaken,
    /// The record breaks the record invariant.
    InvalidEntry,
}

pub open spec fn entries_view(v: Seq<BackupEntry>) -> Seq<BackupEntryView> {
    v.map_values(|e: BackupEntry| e@)
}

/// Records are kept newest first.
pub open spec fn sorted_newest_first(s: Seq<BackupEntryView>) -> bool {
    forall|i: int, j: int| 0 <= i < j < s.len() ==> #[trigger] s[i].created_at >= #[trigger] s[j].created_at
}

pub open spec fn ids_unique(s: Seq<BackupEntryView>) -> bool {
    forall|i: int, j: int| 0 <= i < j < s.len() ==> #[trigger] s[i].id != #[trigger] s[j].id
}

/// The invariant of the history: newest first, unique ids, every record
/// well formed.
pub open spec fn history_wf(s: Seq<BackupEntryView>) -> bool {
    &&& sorted_newest_first(s)
    &&& ids_unique(s)
    &&& forall|i: int| 0 <= i < s.len() ==> (#[trigger] s[i]).well_formed()
}

pub open spec fn has_id(s: Seq<BackupEntryView>, id: u128) -> bool {
    exists|i: int| 0 <= i < s.len() && (#[trigger] s[i]).id == id
}

/// Where a record made at `t` goes: before the first record that is not
/// newer than it.
pub open spec fn insert_index(s: Seq<BackupEntryView>, t: i64) -> int
    decreases s.len(),
{
    if s.len() == 0 {
        0
    } else if s[0].created_at <= t {
        0
    } else {
        1 + insert_index(s.drop_first(), t)
    }
}

/// The history with `e` added in its place by time.
pub open spec fn insert_by_time(s: Seq<BackupEntryView>, e: BackupEntryView) -> Seq<BackupEntryView> {
    s.insert(insert_index(s, e.created_at), e)
}

/// The newest created snapshot of a history kept newest first.
pub open spec fn most_recent_created(s: Seq<BackupEntryView>) -> Option<BackupEntryView>
    decreases s.len(),
{
    if s.len() == 0 {
        None
    } else if s[0].status == BackupStatus::Created {
        Some(s[0])
    } else {
        most_recent_created(s.drop_first())
    }
}

/// Content with digest `hash` is already the newest snapshot.
pub open spec fn is_unchanged(s: Seq<BackupEntryView>, hash: Seq<char>) -> bool {
    most_recent_created(s) matches Some(m) && m.content_hash == hash
}

/// Some record of the history uses the snapshot directory `dir`.
pub open spec fn dir_in_use(s: Seq<BackupEntryView>, dir: Seq<char>) -> bool {
    exists|i: int| 0 <= i < s.len() && (#[trigger] s[i]).timestamp_dir == dir
}

/// A created snapshot older than `cutoff` (Unix seconds).
pub open spec fn is_expired(e: BackupEntryView, cutoff: int) -> bool {
    e.status == BackupStatus::Created && e.created_at < cutoff
}

/// The records that pruning at `cutoff` keeps, in order.
pub open spec fn kept_after_prune(s: Seq<BackupEntryView>, cutoff: int) -> Seq<BackupEntryView>
    decreases s.len(),
{
    if s.len() == 0 {
        s
    } else if is_expired(s.last(), cutoff) {
        kept_after_prune(s.drop_last(), cutoff)
    } else {
        kept_after_prune(s.drop_last(), cutoff).push(s.last())
    }
}

/// The records that pruning at `cutoff` removes, in order.
pub open spec fn removed_by_prune(s: Seq<BackupEntryView>, cutoff: int) -> Seq<BackupEntryView>
    decreases s.len(),
{
    if s.len() == 0 {
        s
    } else if is_expired(s.last(), cutoff) {
        removed_by_prune(s.drop_last(), cutoff).push(s.last())
    } else {
        removed_by_prune(s.drop_last(), cutoff)
    }
}

/// The cutoff of a retention window of `days` days ending at `now`.
pub open spec fn retention_cutoff(now: i64, days: i64) -> int {
    now - days * 86400
}

/// `a` joined with the relative component `b`.
pub open spec fn join_path(a: Seq<char>, b: Seq<char>) -> Seq<char> {
    if a.len() == 0 {
        b
    } else if a.last() == '/' {
        a + b
    } else {
        a + seq!['/'] + b
    }
}

pub open spec fn backups_text() -> Seq<char> {
    seq!['b', 'a', 'c', 'k', 'u', 'p', 's']
}

pub open spec fn collection_file_text() -> Seq<char> {
    seq!['c', 'o', 'l', 'l', 'e', 'c', 't', 'i', 'o', 'n', '.', 'a', 'n', 'k', 'i', '2']
}

/// The directory of the snapshot named `dir` under `root`.
pub open spec fn snapshot_dir_path(root: Seq<char>, dir: Seq<char>) -> Seq<char> {
    join_path(join_path(root, backups_text()), dir)
}

/// The collection file of the snapshot named `dir` under `root`.
pub open spec fn snapshot_file_path(root: Seq<char>, dir: Seq<char>) -> Seq<char> {
    join_path(snapshot_dir_path(root, dir), collection_file_text())
}

/// Mathematical value of a repository.
pub struct RepositoryView {
    pub root: Seq<char>,
    pub entries: Seq<BackupEntryView>,
    pub rollback_events: Seq<RollbackEvent>,
    pub pointer: Option<CurrentPointerView>,
}

/// The backup history of one repository root, with its pointer and audit log.
#[derive(Debug)]
pub struct BackupRepository {
    root: String,
    entries: Vec<BackupEntry>,
    rollback_events: Vec<RollbackEvent>,
    pointer: Option<CurrentPointer>,
}

impl View for BackupRepository {
    type V = RepositoryView;

    closed spec fn view(&self) -> RepositoryView {
        RepositoryView {
            root: self.root@,
            entries: entries_view(self.entries@),
            rollback_events: self.rollback_events@,
            pointer: pointer_view(self.pointer),
        }
    }
}

proof fn lemma_insert_index(s: Seq<BackupEntryView>, t: i64)
    ensures
        0 <= insert_index(s, t) <= s.len(),
        forall|j: int| 0 <= j < insert_index(s, t) ==> s[j].created_at > t,
        insert_index(s, t) < s.len() ==> s[insert_index(s, t)].created_at <= t,
    decreases s.len(),
{
    if s.len() > 0 && s[0].created_at > t {
        lemma_insert_index(s.drop_first(), t);
        assert forall|j: int| 0 <= j < insert_index(s, t) implies s[j].created_at > t by {
            if j > 0 {
                assert(s[j] == s.drop_first()[j - 1]);
            }
        }
    }
}

proof fn lemma_insert_keeps_wf(s: Seq<BackupEntryView>, e: BackupEntryView)
    requires
        history_wf(s),
        e.well_formed(),
        !has_id(s, e.id),
    ensures
        history_wf(insert_by_time(s, e)),
        insert_by_time(s, e).len() == s.len() + 1,
{
    lemma_insert_index(s, e.created_at);
    let p = insert_index(s, e.created_at);
    let r = insert_by_time(s, e);
    assert forall|k: int| 0 <= k < r.len() implies r[k] == (if k < p {
        s[k]
    } else if k == p {
        e
    } else {
        s[k - 1]
    }) by {}
    assert forall|i: int, j: int| 0 <= i < j < r.len() implies #[trigger] r[i].created_at >= #[trigger] r[j].created_at by {
        if i < p && j > p {
            assert(s[i].created_at >= s[j - 1].created_at);
        } else if i == p && j > p {
            assert(s[p].created_at >= s[j - 1].created_at);
        } else if i > p {
            assert(s[i - 1].created_at >= s[j - 1].created_at);
        }
    }
    assert forall|i: int, j: int| 0 <= i < j < r.len() implies #[trigger] r[i].id != #[trigger] r[j].id by {
        if i < p && j > p {
            assert(s[i].id != s[j - 1].id);
        } else if i == p {
            assert(s[j - 1].id != e.id);
        } else if j == p {
            assert(s[i].id != e.id);
        } else if i > p {
            assert(s[i - 1].id != s[j - 1].id);
        }
    }
    assert forall|k: int| 0 <= k < r.len() implies (#[trigger] r[k]).well_formed() by {
        if k < p {
            assert(s[k].well_formed());
        } else if k > p {
            assert(s[k - 1].well_formed());
        }
    }
}

/// A created snapshot that is at least as new as every record becomes the
/// newest snapshot.
pub proof fn lemma_newest_created_becomes_baseline(s: Seq<BackupEntryView>, e: BackupEntryView)
    requires
        e.status == BackupStatus::Created,
        forall|i: int| 0 <= i < s.len() ==> (#[trigger] s[i]).created_at <= e.created_at,
    ensures
        most_recent_created(insert_by_time(s, e)) == Some(e),
{
    assert(insert_index(s, e.created_at) == 0);
    assert(insert_by_time(s, e)[0] == e);
}

/// Recording a skip marker never moves the deduplication baseline.
pub proof fn lemma_skip_keeps_baseline(s: Seq<BackupEntryView>, e: BackupEntryView)
    requires
        e.status == BackupStatus::Skipped,
    ensures
        most_recent_created(insert_by_time(s, e)) == most_recent_created(s),
    decreases s.len(),
{
    let r = insert_by_time(s, e);
    if s.len() == 0 || s[0].created_at <= e.created_at {
        assert(r[0] == e);
        assert(r.drop_first() =~= s);
    } else {
        let p = insert_index(s, e.created_at);
        lemma_insert_index(s, e.created_at);
        assert(r[0] == s[0]);
        assert(r.drop_first() =~= insert_by_time(s.drop_first(), e));
        lemma_skip_keeps_baseline(s.drop_first(), e);
    }
}

proof fn lemma_kept_wf(s: Seq<BackupEntryView>, cutoff: int)
    requires
        history_wf(s),
    ensures
        history_wf(kept_after_prune(s, cutoff)),
        forall|x: BackupEntryView| kept_after_prune(s, cutoff).contains(x) ==> s.contains(x),
    decreases s.len(),
{
    if s.len() > 0 {
        let d = s.drop_last();
        assert forall|i: int, j: int| 0 <= i < j < d.len() implies #[trigger] d[i].created_at >= #[trigger] d[j].created_at by {
            assert(s[i].created_at >= s[j].created_at);
        }
        assert forall|i: int, j: int| 0 <= i < j < d.len() implies #[trigger] d[i].id != #[trigger] d[j].id by {
            assert(s[i].id != s[j].id);
        }
        assert forall|i: int| 0 <= i < d.len() implies (#[trigger] d[i]).well_formed() by {
            assert(s[i].well_formed());
        }
        lemma_kept_wf(d, cutoff);
        let kd = kept_after_prune(d, cutoff);
        assert forall|x: BackupEntryView| d.contains(x) implies s.contains(x) by {
            let k = choose|k: int| 0 <= k < d.len() && d[k] == x;
            assert(s[k] == x);
        }
        if !is_expired(s.last(), cutoff) {
            let r = kd.push(s.last());
            let n = s.len() - 1;
            assert forall|i: int, j: int| 0 <= i < j < r.len() implies #[trigger] r[i].created_at >= #[trigger] r[j].created_at by {
                if j == r.len() - 1 {
                    assert(kd[i] == r[i]);
                    assert(kd.contains(r[i]));
                    assert(d.contains(r[i]));
                    let k = choose|k: int| 0 <= k < d.len() && d[k] == r[i];
                    assert(s[k].created_at >= s[n].created_at);
                } else {
                    assert(kd[i].created_at >= kd[j].created_at);
                }
            }
            assert forall|i: int, j: int| 0 <= i < j < r.len() implies #[trigger] r[i].id != #[trigger] r[j].id by {
                if j == r.len() - 1 {
                    assert(kd[i] == r[i]);
                    assert(kd.contains(r[i]));
                    assert(d.contains(r[i]));
                    let k = choose|k: int| 0 <= k < d.len() && d[k] == r[i];
                    assert(s[k].id != s[n].id);
                } else {
                    assert(kd[i].id != kd[j].id);
                }
            }
            assert forall|i: int| 0 <= i < r.len() implies (#[trigger] r[i]).well_formed() by {
                if i < r.len() - 1 {
                    assert(kd[i].well_formed());
                }
            }
            assert forall|x: BackupEntryView| r.contains(x) implies s.contains(x) by {
                let k = choose|k: int| 0 <= k < r.len() && r[k] == x;
                if k < r.len() - 1 {
                    assert(kd.contains(x));
                } else {
                    assert(s[n] == x);
                }
            }
        }
    }
}

/// Pruning keeps every record that is not an expired created snapshot.
pub proof fn lemma_prune_keeps_unexpired(s: Seq<BackupEntryView>, cutoff: int, i: int)
    requires
        0 <= i < s.len(),
        !is_expired(s[i], cutoff),
    ensures
        kept_after_prune(s, cutoff).contains(s[i]),
    decreases s.len(),
{
    let d = s.drop_last();
    if i == s.len() - 1 {
        assert(kept_after_prune(s, cutoff).last() == s[i]);
    } else {
        assert(d[i] == s[i]);
        lemma_prune_keeps_unexpired(d, cutoff, i);
        let k = choose|k: int| 0 <= k < kept_after_prune(d, cutoff).len() && kept_after_prune(d, cutoff)[k] == s[i];
        if !is_expired(s.last(), cutoff) {
            assert(kept_after_prune(s, cutoff)[k] == s[i]);
        }
    }
}

/// Pruning removes only expired created snapshots, and the records it keeps
/// are exactly those that are not.
pub proof fn lemma_prune_removes_only_expired(s: Seq<BackupEntryView>, cutoff: int)
    ensures
        forall|k: int| 0 <= k < removed_by_prune(s, cutoff).len() ==> is_expired(#[trigger] removed_by_prune(s, cutoff)[k], cutoff),
        forall|k: int| 0 <= k < kept_after_prune(s, cutoff).len() ==> !is_expired(#[trigger] kept_after_prune(s, cutoff)[k], cutoff),
        kept_after_prune(s, cutoff).len() + removed_by_prune(s, cutoff).len() == s.len(),
    decreases s.len(),
{
    if s.len() > 0 {
        lemma_prune_removes_only_expired(s.drop_last(), cutoff);
        let rd = removed_by_prune(s.drop_last(), cutoff);
        let kd = kept_after_prune(s.drop_last(), cutoff);
        assert forall|k: int| 0 <= k < removed_by_prune(s, cutoff).len() implies is_expired(#[trigger] removed_by_prune(s, cutoff)[k], cutoff) by {
            if k < rd.len() {
                assert(removed_by_prune(s, cutoff)[k] == rd[k]);
            }
        }
        assert forall|k: int| 0 <= k < kept_after_prune(s, cutoff).len() implies !is_expired(#[trigger] kept_after_prune(s, cutoff)[k], cutoff) by {
            if k < kd.len() {
                assert(kept_after_prune(s, cutoff)[k] == kd[k]);
            }
        }
    }
}

/// `e` is the skip marker of a run at `now` whose content had digest `hash`.
pub open spec fn is_skip_record(e: BackupEntryView, hash: Seq<char>, now: i64) -> bool {
    &&& e.status == BackupStatus::Skipped
    &&& e.skip_reason == Some(BackupSkipReason::Unchanged)
    &&& e.content_hash == hash
    &&& e.created_at == now
    &&& e.timestamp_dir.len() == 0
    &&& e.source_revision is None
    &&& e.sync_duration_ms is None
    &&& e.size_bytes == 0
    &&& e.stats is None
}

/// `e` is the record of a snapshot of `payload`, with digest `hash` and
/// statistics `stats`, taken at `now`.
pub open spec fn is_created_record(
    e: BackupEntryView,
    payload: BackupPayload,
    hash: Seq<char>,
    now: i64,
    stats: BackupStats,
) -> bool {
    &&& e.status == BackupStatus::Created
    &&& e.skip_reason is None
    &&& e.content_hash == hash
    &&& e.created_at == now
    &&& timestamp_dir_of(now) == Some(e.timestamp_dir)
    &&& e.source_revision == opt_text(payload.source_revision)
    &&& e.sync_duration_ms == payload.sync_duration_ms
    &&& e.size_bytes == payload.bytes@.len()
    &&& e.stats == Some(stats@)
}

/// The pointer that makes `e` current as of `now`.
pub open spec fn pointer_to(e: BackupEntryView, now: i64) -> CurrentPointerView {
    CurrentPointerView { backup_id: e.id, timestamp_dir: e.timestamp_dir, updated_at: now }
}

/// Dedup idempotence: once a run at a time no earlier than any record has
/// recorded content with digest `hash` (as a created snapshot, or as a skip
/// because it was already the newest), that digest is the baseline, so a
/// following run with the same digest records a skip: no directory, pointer
/// unchanged.
pub proof fn lemma_dedup_idempotence(before: Seq<BackupEntryView>, first: BackupEntryView, hash: Seq<char>)
    requires
        first.content_hash == hash,
        forall|i: int| 0 <= i < before.len() ==> (#[trigger] before[i]).created_at <= first.created_at,
        first.status == BackupStatus::Created || is_unchanged(before, hash),
    ensures
        is_unchanged(insert_by_time(before, first), hash),
{
    if first.status == BackupStatus::Created {
        lemma_newest_created_becomes_baseline(before, first);
    } else {
        lemma_skip_keeps_baseline(before, first);
    }
}

/// Distinct content always creates distinct snapshots: after a run at a time
/// no earlier than any record has created snapshot `first` with digest `h1`,
/// content with any other digest `h2` is not unchanged, so its run creates a
/// snapshot too; and that snapshot's directory, which no recorded snapshot
/// uses (as `run_once` ensures), differs from `first`'s, as do their
/// directory and collection file paths.
pub proof fn lemma_distinct_content_creates(
    root: Seq<char>,
    before: Seq<BackupEntryView>,
    first: BackupEntryView,
    h1: Seq<char>,
    h2: Seq<char>,
    second_dir: Seq<char>,
)
    requires
        first.status == BackupStatus::Created,
        first.content_hash == h1,
        h1 != h2,
        forall|i: int| 0 <= i < before.len() ==> (#[trigger] before[i]).created_at <= first.created_at,
        is_path_safe(first.timestamp_dir),
        is_path_safe(second_dir),
        !dir_in_use(insert_by_time(before, first), second_dir),
    ensures
        !is_unchanged(insert_by_time(before, first), h2),
        second_dir != first.timestamp_dir,
        snapshot_dir_path(root, first.timestamp_dir) != snapshot_dir_path(root, second_dir),
        snapshot_file_path(root, first.timestamp_dir) != snapshot_file_path(root, second_dir),
{
    lemma_newest_created_becomes_baseline(before, first);
    let after = insert_by_time(before, first);
    assert(after[0] == first);
    assert(after[0].timestamp_dir == first.timestamp_dir);
    lemma_distinct_dirs_distinct_paths(root, first.timestamp_dir, second_dir);
}

/// Distinct path-safe directory names give distinct directory and
/// collection file paths under one root.
pub proof fn lemma_distinct_dirs_distinct_paths(root: Seq<char>, d1: Seq<char>, d2: Seq<char>)
    requires
        is_path_safe(d1),
        is_path_safe(d2),
    ensures
        d1 != d2 ==> snapshot_dir_path(root, d1) != snapshot_dir_path(root, d2),
        d1 != d2 ==> snapshot_file_path(root, d1) != snapshot_file_path(root, d2),
{
    let base = join_path(root, backups_text());
    assert(base.len() > 0 && base.last() == 's') by {
        assert(backups_text().last() == 's');
        if root.len() == 0 {
        } else if root.last() == '/' {
            assert((root + backups_text()).last() == backups_text().last());
        } else {
            assert((root + seq!['/'] + backups_text()).last() == backups_text().last());
        }
    }
    let pre = base + seq!['/'];
    assert(snapshot_dir_path(root, d1) == pre + d1);
    assert(snapshot_dir_path(root, d2) == pre + d2);
    assert((pre + d1).last() == d1.last());
    assert((pre + d2).last() == d2.last());
    assert(d1.last() != '/') by {
        assert(d1[d1.len() - 1] != '/');
    }
    assert(d2.last() != '/') by {
        assert(d2[d2.len() - 1] != '/');
    }
    let suf = seq!['/'] + collection_file_text();
    assert(snapshot_file_path(root, d1) =~= pre + d1 + suf);
    assert(snapshot_file_path(root, d2) =~= pre + d2 + suf);
    if snapshot_file_path(root, d1) == snapshot_file_path(root, d2) {
        assert(d1.len() == d2.len());
        assert(d1 =~= (pre + d1 + suf).subrange(pre.len() as int, (pre.len() + d1.len()) as int));
        assert(d2 =~= (pre + d2 + suf).subrange(pre.len() as int, (pre.len() + d2.len()) as int));
    }
    if snapshot_dir_path(root, d1) == snapshot_dir_path(root, d2) {
        assert(d1 =~= (pre + d1).subrange(pre.len() as int, (pre.len() + d1.len()) as int));
        assert(d2 =~= (pre + d2).subrange(pre.len() as int, (pre.len() + d2.len()) as int));
    }
}

/// Retention correctness: pruning at `cutoff` removes every created snapshot
/// older than the cutoff and keeps every other record, in order.
pub proof fn lemma_retention_correct(s: Seq<BackupEntryView>, cutoff: int)
    ensures
        forall|i: int| 0 <= i < s.len() && is_expired(s[i], cutoff) ==> !kept_after_prune(s, cutoff).contains(#[trigger] s[i]),
        forall|i: int| 0 <= i < s.len() && !is_expired(s[i], cutoff) ==> kept_after_prune(s, cutoff).contains(#[trigger] s[i]),
        forall|k: int| 0 <= k < removed_by_prune(s, cutoff).len() ==> is_expired(#[trigger] removed_by_prune(s, cutoff)[k], cutoff),
{
    lemma_prune_removes_only_expired(s, cutoff);
    assert forall|i: int| 0 <= i < s.len() && !is_expired(s[i], cutoff) implies kept_after_prune(s, cutoff).contains(#[trigger] s[i]) by {
        lemma_prune_keeps_unexpired(s, cutoff, i);
    }
}

proof fn lemma_most_recent_created_is_newest(s: Seq<BackupEntryView>)
    requires
        sorted_newest_first(s),
    ensures
        match most_recent_created(s) {
            Some(m) => exists|i: int|
                0 <= i < s.len() && #[trigger] s[i].status == BackupStatus::Created && s[i] == m && forall|j: int|
                    0 <= j < s.len() && #[trigger] s[j].status == BackupStatus::Created ==> s[j].created_at <= m.created_at,
            None => forall|j: int| 0 <= j < s.len() ==> (#[trigger] s[j]).status != BackupStatus::Created,
        },
    decreases s.len(),
{
    if s.len() == 0 {
    } else if s[0].status == BackupStatus::Created {
        assert forall|j: int| 0 <= j < s.len() && #[trigger] s[j].status == BackupStatus::Created implies s[j].created_at
            <= s[0].created_at by {
            if j > 0 {
                assert(s[0].created_at >= s[j].created_at);
            }
        }
    } else {
        let d = s.drop_first();
        assert forall|i: int, j: int| 0 <= i < j < d.len() implies #[trigger] d[i].created_at >= #[trigger] d[j].created_at by {
            assert(s[i + 1].created_at >= s[j + 1].created_at);
        }
        lemma_most_recent_created_is_newest(d);
        match most_recent_created(d) {
            Some(m) => {
                let i = choose|i: int|
                    0 <= i < d.len() && #[trigger] d[i].status == BackupStatus::Created && d[i] == m && forall|j: int|
                        0 <= j < d.len() && #[trigger] d[j].status == BackupStatus::Created ==> d[j].created_at <= m.created_at;
                assert(s[i + 1] == d[i]);
                assert forall|j: int| 0 <= j < s.len() && #[trigger] s[j].status == BackupStatus::Created implies s[j].created_at
                    <= m.created_at by {
                    assert(j > 0);
                    assert(s[j] == d[j - 1]);
                }
            },
            None => {
                assert forall|j: int| 0 <= j < s.len() implies (#[trigger] s[j]).status != BackupStatus::Created by {
                    if j > 0 {
                        assert(s[j] == d[j - 1]);
                    }
                }
            },
        }
    }
}

/// After pruning, no record keeps the id of an expired created snapshot.
proof fn lemma_pruned_ids_gone(s: Seq<BackupEntryView>, cutoff: int)
    requires
        history_wf(s),
    ensures
        forall|i: int| 0 <= i < s.len() && is_expired(#[trigger] s[i], cutoff) ==> !has_id(kept_after_prune(s, cutoff), s[i].id),
{
    lemma_kept_wf(s, cutoff);
    lemma_prune_removes_only_expired(s, cutoff);
    let k = kept_after_prune(s, cutoff);
    assert forall|i: int| 0 <= i < s.len() && is_expired(#[trigger] s[i], cutoff) implies !has_id(k, s[i].id) by {
        if has_id(k, s[i].id) {
            let m = choose|m: int| 0 <= m < k.len() && (#[trigger] k[m]).id == s[i].id;
            assert(k.contains(k[m]));
            assert(s.contains(k[m]));
            let j = choose|j: int| 0 <= j < s.len() && s[j] == k[m];
            if j != i {
                if j < i {
                    assert(s[j].id != s[i].id);
                } else {
                    assert(s[i].id != s[j].id);
                }
            }
            assert(!is_expired(k[m], cutoff));
        }
    }
}

fn text_of(s: &str) -> (r: String)
    ensures
        r@ == s@,
{
    s.to_owned()
}

/// `a` joined with the relative component `b`.
fn join(a: &String, b: &str) -> (r: String)
    ensures
        r@ == join_path(a@, b@),
{
    let n = a.unicode_len();
    if n == 0 {
        return text_of(b);
    }
    let mut out = a.clone();
    if a.get_char(n - 1) != '/' {
        let sep = "/";
        proof {
            reveal_strlit("/");
        }
        assert(sep@ =~= seq!['/']);
        out.append(sep);
    }
    out.append(b);
    out
}

fn entry_is_well_formed(e: &BackupEntry) -> (r: bool)
    ensures
        r == e@.well_formed(),
{
    let dir_len = e.timestamp_dir.unicode_len();
    let has_stats = match &e.stats {
        Some(_) => true,
        None => false,
    };
    let has_reason = e.skip_reason.is_some();
    assert(has_stats == (e@.stats is Some));
    proof {
        match e.skip_reason {
            Some(x) => {
                assert(x is Unchanged);
                assert(x == BackupSkipReason::Unchanged);
            },
            None => {},
        }
    }
    assert(has_reason == (e@.skip_reason == Some(BackupSkipReason::Unchanged)));
    assert(dir_len == e@.timestamp_dir.len());
    match e.status {
        BackupStatus::Skipped => dir_len == 0 && !has_stats && e.size_bytes == 0 && has_reason,
        BackupStatus::Created => dir_len > 0 && has_stats && !has_reason,
    }
}

impl BackupRepository {
    /// The repository invariant: the history is newest first, its ids are
    /// unique and every record is well formed.
    pub open spec fn well_formed(&self) -> bool {
        history_wf(self@.entries)
    }

    /// An empty repository rooted at `root`.
    pub fn new(root: String) -> (r: Self)
        ensures
            r.well_formed(),
            r@.root == root@,
            r@.entries == Seq::<BackupEntryView>::empty(),
            r@.rollback_events == Seq::<RollbackEvent>::empty(),
            r@.pointer is None,
    {
        let r = BackupRepository { root, entries: Vec::new(), rollback_events: Vec::new(), pointer: None };
        assert(entries_view(r.entries@) =~= Seq::<BackupEntryView>::empty());
        r
    }

    /// The root directory.
    pub fn root(&self) -> (r: String)
        ensures
            r@ == self@.root,
    {
        self.root.clone()
    }

    fn find_index(&self, id: u128) -> (r: Option<usize>)
        ensures
            match r {
                Some(i) => i < self@.entries.len() && self@.entries[i as int].id == id,
                None => !has_id(self@.entries, id),
            },
    {
        let n = self.entries.len();
        let mut i: usize = 0;
        while i < n
            invariant
                n == self.entries@.len(),
                0 <= i <= n,
                forall|j: int| 0 <= j < i ==> (#[trigger] self@.entries[j]).id != id,
            decreases n - i,
        {
            assert(self@.entries[i as int] == self.entries@[i as int]@);
            if self.entries[i].id == id {
                return Some(i);
            }
            i = i + 1;
        }
        None
    }

    fn insert_position(&self, t: i64) -> (r: usize)
        ensures
            r == insert_index(self@.entries, t),
    {
        let ghost s = self@.entries;
        let n = self.entries.len();
        let mut i: usize = 0;
        assert(s.subrange(0, n as int) =~= s);
        while i < n
            invariant
                n == self.entries@.len(),
                s == self@.entries,
                0 <= i <= n,
                insert_index(s, t) == i + insert_index(s.subrange(i as int, n as int), t),
            decreases n - i,
        {
            let ghost sub = s.subrange(i as int, n as int);
            assert(sub[0] == s[i as int]);
            assert(s[i as int] == self.entries@[i as int]@);
            if self.entries[i].created_at <= t {
                return i;
            }
            assert(sub.drop_first() =~= s.subrange(i + 1, n as int));
            i = i + 1;
        }
        i
    }

    fn insert_entry(&mut self, entry: BackupEntry)
        requires
            old(self).well_formed(),
            entry@.well_formed(),
            !has_id(old(self)@.entries, entry.id),
        ensures
            final(self).well_formed(),
            final(self)@.entries == insert_by_time(old(self)@.entries, entry@),
            final(self)@.root == old(self)@.root,
            final(self)@.rollback_events == old(self)@.rollback_events,
            final(self)@.pointer == old(self)@.pointer,
    {
        let ghost s = self@.entries;
        let ghost ev = entry@;
        let i = self.insert_position(entry.created_at);
        proof {
            lemma_insert_keeps_wf(s, ev);
            lemma_insert_index(s, ev.created_at);
        }
        let ghost old_vec = self.entries@;
        self.entries.insert(i, entry);
        assert(self.entries@ == old_vec.insert(i as int, entry));
        assert(entries_view(self.entries@) =~= entries_view(old_vec).insert(i as int, ev));
    }

    /// Adds a stored record, as read back from a metadata store, in its
    /// place by time. A record that breaks the record invariant or whose id
    /// is taken is refused.
    pub fn load_entry(&mut self, entry: BackupEntry) -> (r: Result<(), BackupError>)
        requires
            old(self).well_formed(),
        ensures
            final(self).well_formed(),
            final(self)@.root == old(self)@.root,
            final(self)@.rollback_events == old(self)@.rollback_events,
            final(self)@.pointer == old(self)@.pointer,
            match r {
                Ok(()) => {
                    &&& entry@.well_formed()
                    &&& !has_id(old(self)@.entries, entry.id)
                    &&& final(self)@.entries == insert_by_time(old(self)@.entries, entry@)
                },
                Err(BackupError::InvalidEntry) => !entry@.well_formed() && final(self)@.entries == old(self)@.entries,
                Err(BackupError::DuplicateId) => {
                    &&& entry@.well_formed()
                    &&& has_id(old(self)@.entries, entry.id)
                    &&& final(self)@.entries == old(self)@.entries
                },
                Err(_) => false,
            },
    {
        if !entry_is_well_formed(&entry) {
            return Err(BackupError::InvalidEntry);
        }
        if self.find_index(entry.id).is_some() {
            return Err(BackupError::DuplicateId);
        }
        self.insert_entry(entry);
        Ok(())
    }

    /// Adds a stored rollback event to the audit log.
    pub fn load_rollback_event(&mut self, event: RollbackEvent)
        requires
            old(self).well_formed(),
        ensures
            final(self).well_formed(),
            final(self)@.entries == old(self)@.entries,
            final(self)@.root == old(self)@.root,
            final(self)@.pointer == old(self)@.pointer,
            final(self)@.rollback_events == old(self)@.rollback_events.push(event),
    {
        self.rollback_events.push(event);
    }

    /// Sets the current pointer as read back from disk.
    pub fn load_pointer(&mut self, pointer: CurrentPointer)
        requires
            old(self).well_formed(),
        ensures
            final(self).well_formed(),
            final(self)@.entries == old(self)@.entries,
            final(self)@.root == old(self)@.root,
            final(self)@.rollback_events == old(self)@.rollback_events,
            final(self)@.pointer == Some(pointer@),
    {
        self.pointer = Some(pointer);
    }

    /// All records, newest first.
    pub fn list_backups(&self) -> (r: Vec<BackupEntry>)
        requires
            self.well_formed(),
        ensures
            entries_view(r@) == self@.entries,
            history_wf(entries_view(r@)),
    {
        let n = self.entries.len();
        let mut out: Vec<BackupEntry> = Vec::new();
        let mut i: usize = 0;
        while i < n
            invariant
                n == self.entries@.len(),
                0 <= i <= n,
                entries_view(out@) == self@.entries.subrange(0, i as int),
            decreases n - i,
        {
            let e = self.entries[i].clone();
            assert(self@.entries[i as int] == self.entries@[i as int]@);
            let ghost before = out@;
            out.push(e);
            assert(entries_view(out@) =~= entries_view(before).push(e@));
            assert(entries_view(out@) =~= self@.entries.subrange(0, i + 1));
            i = i + 1;
        }
        assert(self@.entries.subrange(0, n as int) =~= self@.entries);
        out
    }

    /// The record with id `id`, if there is one.
    pub fn get_backup(&self, id: u128) -> (r: Option<BackupEntry>)
        requires
            self.well_formed(),
        ensures
            match r {
                Some(e) => {
                    &&& e.id == id
                    &&& exists|i: int| 0 <= i < self@.entries.len() && #[trigger] self@.entries[i] == e@
                    &&& forall|i: int| 0 <= i < self@.entries.len() && (#[trigger] self@.entries[i]).id == id ==> self@.entries[i] == e@
                },
                None => !has_id(self@.entries, id),
            },
    {
        match self.find_index(id) {
            Some(i) => {
                assert(forall|j: int| 0 <= j < self@.entries.len() && (#[trigger] self@.entries[j]).id == id ==> j == i);
                let e = self.entries[i].clone();
                assert(self@.entries[i as int] == e@);
                Some(e)
            },
            None => None,
        }
    }

    /// The digest of the newest created snapshot: the sole deduplication key.
    pub fn last_created_hash(&self) -> (r: Option<String>)
        requires
            self.well_formed(),
        ensures
            opt_text(r) == (match most_recent_created(self@.entries) {
                Some(m) => Some(m.content_hash),
                None => None,
            }),
            match r {
                Some(h) => exists|i: int|
                    0 <= i < self@.entries.len() && #[trigger] self@.entries[i].status == BackupStatus::Created
                        && self@.entries[i].content_hash == h@ && forall|j: int|
                        0 <= j < self@.entries.len() && #[trigger] self@.entries[j].status == BackupStatus::Created
                            ==> self@.entries[j].created_at <= self@.entries[i].created_at,
                None => forall|j: int| 0 <= j < self@.entries.len() ==> (#[trigger] self@.entries[j]).status != BackupStatus::Created,
            },
    {
        let r = self.scan_created_hash();
        proof {
            lemma_most_recent_created_is_newest(self@.entries);
        }
        r
    }

    fn scan_created_hash(&self) -> (r: Option<String>)
        ensures
            opt_text(r) == (match most_recent_created(self@.entries) {
                Some(m) => Some(m.content_hash),
                None => None,
            }),
    {
        let ghost s = self@.entries;
        let n = self.entries.len();
        let mut i: usize = 0;
        assert(s.subrange(0, n as int) =~= s);
        while i < n
            invariant
                n == s.len(),
                s == self@.entries,
                0 <= i <= n,
                most_recent_created(s) == most_recent_created(s.subrange(i as int, n as int)),
            decreases n - i,
        {
            let ghost sub = s.subrange(i as int, n as int);
            assert(sub[0] == s[i as int]);
            assert(s[i as int] == self.entries@[i as int]@);
            if self.entries[i].status == BackupStatus::Created {
                return Some(self.entries[i].content_hash.clone());
            }
            assert(sub.drop_first() =~= s.subrange(i + 1, n as int));
            i = i + 1;
        }
        None
    }

    /// The snapshot directory that a run at `now` with content digest
    /// `content_hash` will write: `None` when the content is unchanged and
    /// the run will record a skip.
    pub fn pending_snapshot_dir(&self, content_hash: &String, now: i64) -> (r: Result<Option<String>, BackupError>)
        requires
            self.well_formed(),
        ensures
            match r {
                Ok(None) => is_unchanged(self@.entries, content_hash@),
                Ok(Some(d)) => {
                    &&& !is_unchanged(self@.entries, content_hash@)
                    &&& timestamp_dir_of(now) == Some(d@)
                    &&& !dir_in_use(self@.entries, d@)
                },
                Err(BackupError::TimestampOutOfRange) => !is_unchanged(self@.entries, content_hash@)
                    && timestamp_dir_of(now) is None,
                Err(BackupError::DirectoryTaken) => {
                    &&& !is_unchanged(self@.entries, content_hash@)
                    &&& timestamp_dir_of(now) matches Some(d) && dir_in_use(self@.entries, d)
                },
                Err(_) => false,
            },
    {
        let last = self.last_created_hash();
        if let Some(h) = &last {
            if *h == *content_hash {
                return Ok(None);
            }
        }
        match format_timestamp_dir(now) {
            Some(d) => {
                if self.uses_dir(&d) {
                    Err(BackupError::DirectoryTaken)
                } else {
                    Ok(Some(d))
                }
            },
            None => Err(BackupError::TimestampOutOfRange),
        }
    }

    fn uses_dir(&self, dir: &String) -> (r: bool)
        ensures
            r == dir_in_use(self@.entries, dir@),
    {
        let n = self.entries.len();
        let mut i: usize = 0;
        while i < n
            invariant
                n == self.entries@.len(),
                0 <= i <= n,
                forall|j: int| 0 <= j < i ==> (#[trigger] self@.entries[j]).timestamp_dir != dir@,
            decreases n - i,
        {
            assert(self@.entries[i as int] == self.entries@[i as int]@);
            if self.entries[i].timestamp_dir == *dir {
                return true;
            }
            i = i + 1;
        }
        false
    }

    /// Records one backup run at `now` (Unix seconds) of content with digest
    /// `content_hash`. When that digest is the digest of the newest created
    /// snapshot, a skip marker is recorded and nothing else changes.
    /// Otherwise a created record for the snapshot directory derived from
    /// `now` is recorded, with `stats` (the statistics of the written
    /// collection file) and the payload's size, and the current pointer is
    /// moved to it. The record gets id `id`; when that id is already taken,
    /// or a recorded snapshot already uses the directory (a run in the same
    /// second), nothing is recorded.
    pub fn run_once_with_id(
        &mut self,
        id: u128,
        payload: BackupPayload,
        content_hash: String,
        now: i64,
        stats: BackupStats,
    ) -> (r: Result<RunOnceOutcome, BackupError>)
        requires
            old(self).well_formed(),
            payload.bytes@.len() <= i64::MAX,
        ensures
            final(self).well_formed(),
            final(self)@.root == old(self)@.root,
            final(self)@.rollback_events == old(self)@.rollback_events,
            match r {
                Ok(RunOnceOutcome::Skipped(e)) => {
                    &&& is_unchanged(old(self)@.entries, content_hash@)
                    &&& is_skip_record(e@, content_hash@, now)
                    &&& e.id == id
                    &&& !has_id(old(self)@.entries, id)
                    &&& final(self)@.entries == insert_by_time(old(self)@.entries, e@)
                    &&& final(self)@.pointer == old(self)@.pointer
                },
                Ok(RunOnceOutcome::Created(e)) => {
                    &&& !is_unchanged(old(self)@.entries, content_hash@)
                    &&& is_created_record(e@, payload, content_hash@, now, stats)
                    &&& is_path_safe(e@.timestamp_dir)
                    &&& rfc3339_secs_of(now) == Some(restore_colons(e@.timestamp_dir))
                    &&& forall|other: i64| #[trigger] rfc3339_secs_of(other) == Some(restore_colons(e@.timestamp_dir)) ==> other == now
                    &&& !dir_in_use(old(self)@.entries, e@.timestamp_dir)
                    &&& e.id == id
                    &&& !has_id(old(self)@.entries, id)
                    &&& final(self)@.entries == insert_by_time(old(self)@.entries, e@)
                    &&& final(self)@.pointer == Some(pointer_to(e@, now))
                },
                Err(BackupError::TimestampOutOfRange) => {
                    &&& !has_id(old(self)@.entries, id)
                    &&& !is_unchanged(old(self)@.entries, content_hash@)
                    &&& timestamp_dir_of(now) is None
                    &&& final(self)@ == old(self)@
                },
                Err(BackupError::DirectoryTaken) => {
                    &&& !has_id(old(self)@.entries, id)
                    &&& !is_unchanged(old(self)@.entries, content_hash@)
                    &&& timestamp_dir_of(now) matches Some(d) && dir_in_use(old(self)@.entries, d)
                    &&& final(self)@ == old(self)@
                },
                Err(BackupError::DuplicateId) => has_id(old(self)@.entries, id) && final(self)@ == old(self)@,
                Err(_) => false,
            },
    {
        if self.find_index(id).is_some() {
            return Err(BackupError::DuplicateId);
        }
        let unchanged = match self.last_created_hash() {
            Some(h) => h == content_hash,
            None => false,
        };
        if unchanged {
            let entry = NewBackupEntry::skipped_unchanged(now, content_hash).with_id(id);
            let copy = entry.clone();
            self.insert_entry(entry);
            return Ok(RunOnceOutcome::Skipped(copy));
        }
        let dir = match format_timestamp_dir(now) {
            Some(d) => d,
            None => {
                return Err(BackupError::TimestampOutOfRange);
            },
        };
        if self.uses_dir(&dir) {
            return Err(BackupError::DirectoryTaken);
        }
        let size_bytes = payload.bytes.len() as i64;
        let entry = NewBackupEntry::created(
            now,
            dir,
            content_hash,
            payload.source_revision,
            payload.sync_duration_ms,
            size_bytes,
            stats,
        ).with_id(id);
        let copy = entry.clone();
        let pointer = CurrentPointer { backup_id: id, timestamp_dir: entry.timestamp_dir.clone(), updated_at: now };
        self.insert_entry(entry);
        self.pointer = Some(pointer);
        Ok(RunOnceOutcome::Created(copy))
    }

    /// Records one backup run at `now` (Unix seconds) of content with digest
    /// `content_hash`. When that digest is the digest of the newest created
    /// snapshot, a skip marker is recorded and nothing else changes.
    /// Otherwise a created record for the snapshot directory derived from
    /// `now` is recorded, with `stats` (the statistics of the written
    /// collection file) and the payload's size, and the current pointer is
    /// moved to it. The record's id is a fresh random UUID; a run whose id is
    /// already taken, or whose directory a recorded snapshot already uses,
    /// records nothing.
    pub fn run_once(
        &mut self,
        payload: BackupPayload,
        content_hash: String,
        now: i64,
        stats: BackupStats,
    ) -> (r: Result<RunOnceOutcome, BackupError>)
        requires
            old(self).well_formed(),
            payload.bytes@.len() <= i64::MAX,
        ensures
            final(self).well_formed(),
            final(self)@.root == old(self)@.root,
            final(self)@.rollback_events == old(self)@.rollback_events,
            match r {
                Ok(RunOnceOutcome::Skipped(e)) => {
                    &&& is_unchanged(old(self)@.entries, content_hash@)
                    &&& is_skip_record(e@, content_hash@, now)
                    &&& !has_id(old(self)@.entries, e.id)
                    &&& final(self)@.entries == insert_by_time(old(self)@.entries, e@)
                    &&& final(self)@.pointer == old(self)@.pointer
                },
                Ok(RunOnceOutcome::Created(e)) => {
                    &&& !is_unchanged(old(self)@.entries, content_hash@)
                    &&& is_created_record(e@, payload, content_hash@, now, stats)
                    &&& is_path_safe(e@.timestamp_dir)
                    &&& rfc3339_secs_of(now) == Some(restore_colons(e@.timestamp_dir))
                    &&& forall|other: i64| #[trigger] rfc3339_secs_of(other) == Some(restore_colons(e@.timestamp_dir)) ==> other == now
                    &&& !dir_in_use(old(self)@.entries, e@.timestamp_dir)
                    &&& !has_id(old(self)@.entries, e.id)
                    &&& final(self)@.entries == insert_by_time(old(self)@.entries, e@)
                    &&& final(self)@.pointer == Some(pointer_to(e@, now))
                },
                Err(BackupError::TimestampOutOfRange) => {
                    &&& !is_unchanged(old(self)@.entries, content_hash@)
                    &&& timestamp_dir_of(now) is None
                    &&& final(self)@ == old(self)@
                },
                Err(BackupError::DirectoryTaken) => {
                    &&& !is_unchanged(old(self)@.entries, content_hash@)
                    &&& timestamp_dir_of(now) matches Some(d) && dir_in_use(old(self)@.entries, d)
                    &&& final(self)@ == old(self)@
                },
                Err(BackupError::DuplicateId) => old(self)@.entries.len() > 0 && final(self)@ == old(self)@,
                Err(_) => false,
            },
    {
        let id = new_uuid();
        self.run_once_with_id(id, payload, content_hash, now, stats)
    }


    fn logs_event_id(&self, event_id: u128) -> (r: bool)
        ensures
            r == exists|k: int| 0 <= k < self@.rollback_events.len() && (#[trigger] self@.rollback_events[k]).id == event_id,
    {
        let n = self.rollback_events.len();
        let mut k: usize = 0;
        while k < n
            invariant
                n == self.rollback_events@.len(),
                0 <= k <= n,
                forall|j: int| 0 <= j < k ==> (#[trigger] self.rollback_events@[j]).id != event_id,
            decreases n - k,
        {
            if self.rollback_events[k].id == event_id {
                assert(self@.rollback_events[k as int] == self.rollback_events@[k as int]);
                return true;
            }
            k = k + 1;
        }
        false
    }

    /// Makes the created snapshot `id` current again as of `now` and appends
    /// one rollback event with id `event_id`. Fails, changing nothing, when no
    /// record has that id, when the record is a skip marker, or when the log
    /// already holds an event with id `event_id`. No record is changed either
    /// way.
    pub fn rollback_to_with_event_id(&mut self, id: u128, event_id: u128, now: i64) -> (r: Result<BackupEntry, BackupError>)
        requires
            old(self).well_formed(),
        ensures
            final(self).well_formed(),
            final(self)@.root == old(self)@.root,
            final(self)@.entries == old(self)@.entries,
            match r {
                Ok(e) => {
                    &&& e.id == id
                    &&& exists|i: int| 0 <= i < old(self)@.entries.len() && #[trigger] old(self)@.entries[i] == e@
                    &&& forall|i: int| 0 <= i < old(self)@.entries.len() && (#[trigger] old(self)@.entries[i]).id == id
                        ==> old(self)@.entries[i] == e@
                    &&& e@.status == BackupStatus::Created
                    &&& final(self)@.pointer == Some(pointer_to(e@, now))
                    &&& final(self)@.rollback_events.len() == old(self)@.rollback_events.len() + 1
                    &&& final(self)@.rollback_events.drop_last() == old(self)@.rollback_events
                    &&& final(self)@.rollback_events.last().backup_id == id
                    &&& final(self)@.rollback_events.last().created_at == now
                    &&& forall|k: int| 0 <= k < old(self)@.rollback_events.len()
                        ==> (#[trigger] old(self)@.rollback_events[k]).id != final(self)@.rollback_events.last().id
                    &&& final(self)@.rollback_events.last().id == event_id
                },
                Err(BackupError::NotFound) => !has_id(old(self)@.entries, id) && final(self)@ == old(self)@,
                Err(BackupError::NotCreated) => {
                    &&& has_id(old(self)@.entries, id)
                    &&& forall|i: int| 0 <= i < old(self)@.entries.len() && (#[trigger] old(self)@.entries[i]).id == id
                        ==> old(self)@.entries[i].status == BackupStatus::Skipped
                    &&& final(self)@ == old(self)@
                },
                Err(BackupError::DuplicateId) => {
                    &&& exists|i: int| 0 <= i < old(self)@.entries.len() && (#[trigger] old(self)@.entries[i]).id == id
                        && old(self)@.entries[i].status == BackupStatus::Created
                    &&& exists|k: int| 0 <= k < old(self)@.rollback_events.len() && (#[trigger] old(self)@.rollback_events[k]).id == event_id
                    &&& final(self)@ == old(self)@
                },
                Err(_) => false,
            },
    {
        let i = match self.find_index(id) {
            Some(i) => i,
            None => {
                return Err(BackupError::NotFound);
            },
        };
        assert(self@.entries[i as int] == self.entries@[i as int]@);
        assert(forall|j: int| 0 <= j < self@.entries.len() && (#[trigger] self@.entries[j]).id == id ==> j == i);
        if self.entries[i].status != BackupStatus::Created {
            return Err(BackupError::NotCreated);
        }
        if self.logs_event_id(event_id) {
            return Err(BackupError::DuplicateId);
        }
        let backup = self.entries[i].clone();
        let pointer = CurrentPointer { backup_id: id, timestamp_dir: backup.timestamp_dir.clone(), updated_at: now };
        self.pointer = Some(pointer);
        let event = RollbackEvent { id: event_id, backup_id: id, created_at: now };
        let ghost before = self.rollback_events@;
        self.rollback_events.push(event);
        assert(self.rollback_events@.drop_last() =~= before);
        Ok(backup)
    }

    /// Makes the created snapshot `id` current again as of `now` and appends
    /// one rollback event with a fresh random id. Fails, changing nothing,
    /// when no record has that id or the record is a skip marker (and, should
    /// the drawn event id already be in the log, with `DuplicateId`). No
    /// record is changed either way.
    pub fn rollback_to(&mut self, id: u128, now: i64) -> (r: Result<BackupEntry, BackupError>)
        requires
            old(self).well_formed(),
        ensures
            final(self).well_formed(),
            final(self)@.root == old(self)@.root,
            final(self)@.entries == old(self)@.entries,
            match r {
                Ok(e) => {
                    &&& e.id == id
                    &&& exists|i: int| 0 <= i < old(self)@.entries.len() && #[trigger] old(self)@.entries[i] == e@
                    &&& forall|i: int| 0 <= i < old(self)@.entries.len() && (#[trigger] old(self)@.entries[i]).id == id
                        ==> old(self)@.entries[i] == e@
                    &&& e@.status == BackupStatus::Created
                    &&& final(self)@.pointer == Some(pointer_to(e@, now))
                    &&& final(self)@.rollback_events.len() == old(self)@.rollback_events.len() + 1
                    &&& final(self)@.rollback_events.drop_last() == old(self)@.rollback_events
                    &&& final(self)@.rollback_events.last().backup_id == id
                    &&& final(self)@.rollback_events.last().created_at == now
                    &&& forall|k: int| 0 <= k < old(self)@.rollback_events.len()
                        ==> (#[trigger] old(self)@.rollback_events[k]).id != final(self)@.rollback_events.last().id
                    
                },
                Err(BackupError::NotFound) => !has_id(old(self)@.entries, id) && final(self)@ == old(self)@,
                Err(BackupError::NotCreated) => {
                    &&& has_id(old(self)@.entries, id)
                    &&& forall|i: int| 0 <= i < old(self)@.entries.len() && (#[trigger] old(self)@.entries[i]).id == id
                        ==> old(self)@.entries[i].status == BackupStatus::Skipped
                    &&& final(self)@ == old(self)@
                },
                Err(BackupError::DuplicateId) => {
                    &&& exists|i: int| 0 <= i < old(self)@.entries.len() && (#[trigger] old(self)@.entries[i]).id == id
                        && old(self)@.entries[i].status == BackupStatus::Created
                    &&& old(self)@.rollback_events.len() > 0
                    &&& final(self)@ == old(self)@
                },
                Err(_) => false,
            },
    {
        let event_id = new_uuid();
        self.rollback_to_with_event_id(id, event_id, now)
    }

    fn split_at_cutoff(&self, cutoff: i128) -> (r: (Vec<BackupEntry>, Vec<BackupEntry>))
        ensures
            entries_view(r.0@) == kept_after_prune(self@.entries, cutoff as int),
            entries_view(r.1@) == removed_by_prune(self@.entries, cutoff as int),
    {
        let ghost s = self@.entries;
        let n = self.entries.len();
        let mut kept: Vec<BackupEntry> = Vec::new();
        let mut removed: Vec<BackupEntry> = Vec::new();
        let mut i: usize = 0;
        assert(s.subrange(0, 0) =~= Seq::<BackupEntryView>::empty());
        assert(entries_view(kept@) =~= Seq::<BackupEntryView>::empty());
        assert(entries_view(removed@) =~= Seq::<BackupEntryView>::empty());
        while i < n
            invariant
                n == self.entries@.len(),
                s == self@.entries,
                0 <= i <= n,
                entries_view(kept@) == kept_after_prune(s.subrange(0, i as int), cutoff as int),
                entries_view(removed@) == removed_by_prune(s.subrange(0, i as int), cutoff as int),
            decreases n - i,
        {
            let ghost pre = s.subrange(0, i + 1);
            assert(pre.drop_last() =~= s.subrange(0, i as int));
            assert(pre.last() == s[i as int]);
            assert(s[i as int] == self.entries@[i as int]@);
            let e = self.entries[i].clone();
            if e.status == BackupStatus::Created && (e.created_at as i128) < cutoff {
                let ghost before = removed@;
                removed.push(e);
                assert(entries_view(removed@) =~= entries_view(before).push(s[i as int]));
            } else {
                let ghost before = kept@;
                kept.push(e);
                assert(entries_view(kept@) =~= entries_view(before).push(s[i as int]));
            }
            i = i + 1;
        }
        assert(s.subrange(0, n as int) =~= s);
        (kept, removed)
    }

    /// The (id, directory) pairs of the created snapshots that a retention
    /// window of `retention_days` days ending at `now` leaves out, newest
    /// first; none when `retention_days` is not positive. Their directories
    /// are removed before their records are.
    pub fn prune_candidates(&self, retention_days: i64, now: i64) -> (r: Vec<(u128, String)>)
        ensures
            retention_days <= 0 ==> r@.len() == 0,
            retention_days > 0 ==> {
                let gone = removed_by_prune(self@.entries, retention_cutoff(now, retention_days));
                &&& r@.len() == gone.len()
                &&& forall|k: int| 0 <= k < r@.len() ==> (#[trigger] r@[k]).0 == gone[k].id && r@[k].1@ == gone[k].timestamp_dir
            },
    {
        let mut out: Vec<(u128, String)> = Vec::new();
        if retention_days <= 0 {
            return out;
        }
        let cutoff = now as i128 - (retention_days as i128) * 86400;
        let (_, removed) = self.split_at_cutoff(cutoff);
        let ghost gone = entries_view(removed@);
        let n = removed.len();
        let mut i: usize = 0;
        while i < n
            invariant
                n == removed@.len(),
                gone == entries_view(removed@),
                0 <= i <= n,
                out@.len() == i,
                forall|k: int| 0 <= k < i ==> (#[trigger] out@[k]).0 == gone[k].id && out@[k].1@ == gone[k].timestamp_dir,
            decreases n - i,
        {
            assert(gone[i as int] == removed@[i as int]@);
            out.push((removed[i].id, removed[i].timestamp_dir.clone()));
            i = i + 1;
        }
        out
    }

    /// Removes the records of the created snapshots older than
    /// `retention_days` days before `now`, and returns how many were removed.
    /// Does nothing when `retention_days` is not positive. Skip markers are
    /// never removed.
    pub fn prune_created_older_than_days(&mut self, retention_days: i64, now: i64) -> (r: usize)
        requires
            old(self).well_formed(),
        ensures
            final(self).well_formed(),
            final(self)@.root == old(self)@.root,
            final(self)@.rollback_events == old(self)@.rollback_events,
            final(self)@.pointer == old(self)@.pointer,
            retention_days <= 0 ==> r == 0 && final(self)@.entries == old(self)@.entries,
            retention_days > 0 ==> {
                let cutoff = retention_cutoff(now, retention_days);
                &&& final(self)@.entries == kept_after_prune(old(self)@.entries, cutoff)
                &&& r == removed_by_prune(old(self)@.entries, cutoff).len()
                &&& forall|i: int| 0 <= i < old(self)@.entries.len() && is_expired(#[trigger] old(self)@.entries[i], cutoff)
                    ==> !has_id(final(self)@.entries, old(self)@.entries[i].id)
                &&& forall|i: int| 0 <= i < old(self)@.entries.len() && !is_expired(#[trigger] old(self)@.entries[i], cutoff)
                    ==> final(self)@.entries.contains(old(self)@.entries[i])
            },
    {
        if retention_days <= 0 {
            return 0;
        }
        let cutoff = now as i128 - (retention_days as i128) * 86400;
        let (kept, removed) = self.split_at_cutoff(cutoff);
        proof {
            lemma_kept_wf(self@.entries, cutoff as int);
            lemma_pruned_ids_gone(self@.entries, cutoff as int);
            lemma_retention_correct(self@.entries, cutoff as int);
        }
        self.entries = kept;
        removed.len()
    }

    /// The current pointer, if a snapshot has been made current.
    pub fn current_pointer(&self) -> (r: Option<CurrentPointer>)
        ensures
            pointer_view(r) == self@.pointer,
    {
        match &self.pointer {
            Some(p) => Some(p.clone()),
            None => None,
        }
    }

    /// The rollback audit log, oldest first.
    pub fn rollback_events(&self) -> (r: Vec<RollbackEvent>)
        ensures
            r@ == self@.rollback_events,
    {
        let r = self.rollback_events.clone();
        assert(r@ =~= self.rollback_events@);
        r
    }

    /// The path of the collection file of `entry`'s snapshot: pure path
    /// derivation, no I/O.
    pub fn backup_file_path(&self, entry: &BackupEntry) -> (r: String)
        ensures
            r@ == snapshot_file_path(self@.root, entry.timestamp_dir@),
    {
        let dir = self.backup_dir_path(&entry.timestamp_dir);
        let file = "collection.anki2";
        proof {
            reveal_strlit("collection.anki2");
        }
        assert(file@ =~= collection_file_text());
        join(&dir, file)
    }

    /// The directory of the snapshot named `timestamp_dir`.
    pub fn backup_dir_path(&self, timestamp_dir: &String) -> (r: String)
        ensures
            r@ == snapshot_dir_path(self@.root, timestamp_dir@),
    {
        let sub = "backups";
        proof {
            reveal_strlit("backups");
        }
        assert(sub@ =~= backups_text());
        let base = join(&self.root, sub);
        join(&base, timestamp_dir.as_str())
    }
}

} // verus!
