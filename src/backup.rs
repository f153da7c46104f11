//! The records kept for each backup run.

use vstd::prelude::*;

verus! {

/// Outcome recorded for one backup run.
#[derive(Clone, Copy, Debug, PartialEq, Eq, Structural)]
pub enum BackupStatus {
    Created,
    Skipped,
}

/// Why a run stored no snapshot.
#[derive(Clone, Copy, Debug, PartialEq, Eq, Structural)]
pub enum BackupSkipReason {
    Unchanged,
}

/// Card count of one deck of a snapshot.
#[derive(Debug)]
pub struct DeckStats {
    pub deck_id: i64,
    pub deck_name: String,
    pub card_count: i64,
}

/// Mathematical value of a `DeckStats`.
pub struct DeckStatsView {
    pub deck_id: i64,
    pub deck_name: Seq<char>,
    pub card_count: i64,
}

impl View for DeckStats {
    type V = DeckStatsView;

    open spec fn view(&self) -> DeckStatsView {
        DeckStatsView { deck_id: self.deck_id, deck_name: self.deck_name@, card_count: self.card_count }
    }
}

impl Clone for DeckStats {
    fn clone(&self) -> (r: Self)
        ensures
            r@ == self@,
    {
        DeckStats { deck_id: self.deck_id, deck_name: self.deck_name.clone(), card_count: self.card_count }
    }
}

/// Structural counts of a snapshot; `deck_stats` is sorted by deck name.
#[derive(Debug)]
pub struct BackupStats {
    pub total_cards: i64,
    pub total_decks: i64,
    pub total_notes: i64,
    pub total_revlog: i64,
    pub deck_stats: Vec<DeckStats>,
}

/// Mathematical value of a `BackupStats`.
pub struct BackupStatsView {
    pub total_cards: i64,
    pub total_decks: i64,
    pub total_notes: i64,
    pub total_revlog: i64,
    pub deck_stats: Seq<DeckStatsView>,
}

pub open spec fn deck_stats_view(v: Seq<DeckStats>) -> Seq<DeckStatsView> {
    v.map_values(|d: DeckStats| d@)
}

impl View for BackupStats {
    type V = BackupStatsView;

    open spec fn view(&self) -> BackupStatsView {
        BackupStatsView {
            total_cards: self.total_cards,
            total_decks: self.total_decks,
            total_notes: self.total_notes,
            total_revlog: self.total_revlog,
            deck_stats: deck_stats_view(self.deck_stats@),
        }
    }
}

impl Clone for BackupStats {
    fn clone(&self) -> (r: Self)
        ensures
            r@ == self@,
    {
        let deck_stats = self.deck_stats.clone();
        proof {
            assert(deck_stats_view(deck_stats@) =~= deck_stats_view(self.deck_stats@));
        }
        BackupStats {
            total_cards: self.total_cards,
            total_decks: self.total_decks,
            total_notes: self.total_notes,
            total_revlog: self.total_revlog,
            deck_stats,
        }
    }
}

pub open spec fn opt_text(s: Option<String>) -> Option<Seq<char>> {
    match s {
        Some(t) => Some(t@),
        None => None,
    }
}

pub open spec fn opt_stats(s: Option<BackupStats>) -> Option<BackupStatsView> {
    match s {
        Some(t) => Some(t@),
        None => None,
    }
}

fn clone_opt_text(s: &Option<String>) -> (r: Option<String>)
    ensures
        opt_text(r) == opt_text(*s),
{
    match s {
        Some(t) => Some(t.clone()),
        None => None,
    }
}

fn clone_opt_stats(s: &Option<BackupStats>) -> (r: Option<BackupStats>)
    ensures
        opt_stats(r) == opt_stats(*s),
{
    match s {
        Some(t) => Some(t.clone()),
        None => None,
    }
}

/// One row of the backup history.
///
/// `id` is the 128-bit value of the entry's UUID and `created_at` is a Unix
/// time in seconds (UTC).
#[derive(Debug)]
pub struct BackupEntry {
    pub id: u128,
    pub created_at: i64,
    pub timestamp_dir: String,
    pub content_hash: String,
    pub status: BackupStatus,
    pub skip_reason: Option<BackupSkipReason>,
    pub source_revision: Option<String>,
    pub sync_duration_ms: Option<i64>,
    pub size_bytes: i64,
    pub stats: Option<BackupStats>,
}

/// Mathematical value of a `BackupEntry`.
pub struct BackupEntryView {
    pub id: u128,
    pub created_at: i64,
    pub timestamp_dir: Seq<char>,
    pub content_hash: Seq<char>,
    pub status: BackupStatus,
    pub skip_reason: Option<BackupSkipReason>,
    pub source_revision: Option<Seq<char>>,
    pub sync_duration_ms: Option<i64>,
    pub size_bytes: i64,
    pub stats: Option<BackupStatsView>,
}

impl View for BackupEntry {
    type V = BackupEntryView;

    open spec fn view(&self) -> BackupEntryView {
        BackupEntryView {
            id: self.id,
            created_at: self.created_at,
            timestamp_dir: self.timestamp_dir@,
            content_hash: self.content_hash@,
            status: self.status,
            skip_reason: self.skip_reason,
            source_revision: opt_text(self.source_revision),
            sync_duration_ms: self.sync_duration_ms,
            size_bytes: self.size_bytes,
            stats: opt_stats(self.stats),
        }
    }
}

impl Clone for BackupEntry {
    fn clone(&self) -> (r: Self)
        ensures
            r@ == self@,
    {
        BackupEntry {
            id: self.id,
            created_at: self.created_at,
            timestamp_dir: self.timestamp_dir.clone(),
            content_hash: self.content_hash.clone(),
            status: self.status,
            skip_reason: self.skip_reason,
            source_revision: clone_opt_text(&self.source_revision),
            sync_duration_ms: self.sync_duration_ms,
            size_bytes: self.size_bytes,
            stats: clone_opt_stats(&self.stats),
        }
    }
}

impl BackupEntryView {
    /// The record invariant: a skip marker has no directory, no statistics
    /// and no size; a created snapshot has a directory and statistics.
    pub open spec fn well_formed(&self) -> bool {
        match self.status {
            BackupStatus::Skipped => {
                &&& self.timestamp_dir.len() == 0
                &&& self.stats is None
                &&& self.size_bytes == 0
                &&& self.skip_reason == Some(BackupSkipReason::Unchanged)
            },
            BackupStatus::Created => {
                &&& self.timestamp_dir.len() > 0
                &&& self.stats is Some
                &&& self.skip_reason is None
            },
        }
    }
}

/// A backup record before it has been given an id.
#[derive(Debug)]
pub struct NewBackupEntry {
    pub created_at: i64,
    pub timestamp_dir: String,
    pub content_hash: String,
    pub status: BackupStatus,
    pub skip_reason: Option<BackupSkipReason>,
    pub source_revision: Option<String>,
    pub sync_duration_ms: Option<i64>,
    pub size_bytes: i64,
    pub stats: Option<BackupStats>,
}

impl NewBackupEntry {
    /// The record this becomes once it is given `id`.
    pub open spec fn view_with_id(&self, id: u128) -> BackupEntryView {
        BackupEntryView {
            id,
            created_at: self.created_at,
            timestamp_dir: self.timestamp_dir@,
            content_hash: self.content_hash@,
            status: self.status,
            skip_reason: self.skip_reason,
            source_revision: opt_text(self.source_revision),
            sync_duration_ms: self.sync_duration_ms,
            size_bytes: self.size_bytes,
            stats: opt_stats(self.stats),
        }
    }

    /// A record for a snapshot that was written to `timestamp_dir`.
    pub fn created(
        created_at: i64,
        timestamp_dir: String,
        content_hash: String,
        source_revision: Option<String>,
        sync_duration_ms: Option<i64>,
        size_bytes: i64,
        stats: BackupStats,
    ) -> (r: Self)
        ensures
            r.created_at == created_at,
            r.timestamp_dir@ == timestamp_dir@,
            r.content_hash@ == content_hash@,
            r.status == BackupStatus::Created,
            r.skip_reason is None,
            opt_text(r.source_revision) == opt_text(source_revision),
            r.sync_duration_ms == sync_duration_ms,
            r.size_bytes == size_bytes,
            opt_stats(r.stats) == Some(stats@),
    {
        NewBackupEntry {
            created_at,
            timestamp_dir,
            content_hash,
            status: BackupStatus::Created,
            skip_reason: None,
            source_revision,
            sync_duration_ms,
            size_bytes,
            stats: Some(stats),
        }
    }

    /// A skip marker: the content equalled the latest snapshot.
    pub fn skipped_unchanged(created_at: i64, content_hash: String) -> (r: Self)
        ensures
            r.created_at == created_at,
            r.timestamp_dir@ == Seq::<char>::empty(),
            r.content_hash@ == content_hash@,
            r.status == BackupStatus::Skipped,
            r.skip_reason == Some(BackupSkipReason::Unchanged),
            r.source_revision is None,
            r.sync_duration_ms is None,
            r.size_bytes == 0,
            r.stats is None,
    {
        NewBackupEntry {
            created_at,
            timestamp_dir: String::new(),
            content_hash,
            status: BackupStatus::Skipped,
            skip_reason: Some(BackupSkipReason::Unchanged),
            source_revision: None,
            sync_duration_ms: None,
            size_bytes: 0,
            stats: None,
        }
    }

    /// The record with its id.
    pub fn with_id(self, id: u128) -> (r: BackupEntry)
        ensures
            r@ == self.view_with_id(id),
    {
        BackupEntry {
            id,
            created_at: self.created_at,
            timestamp_dir: self.timestamp_dir,
            content_hash: self.content_hash,
            status: self.status,
            skip_reason: self.skip_reason,
            source_revision: self.source_revision,
            sync_duration_ms: self.sync_duration_ms,
            size_bytes: self.size_bytes,
            stats: self.stats,
        }
    }
}

pub open spec fn created_text() -> Seq<char> {
    seq!['c', 'r', 'e', 'a', 't', 'e', 'd']
}

pub open spec fn skipped_text() -> Seq<char> {
    seq!['s', 'k', 'i', 'p', 'p', 'e', 'd']
}

pub open spec fn unchanged_text() -> Seq<char> {
    seq!['u', 'n', 'c', 'h', 'a', 'n', 'g', 'e', 'd']
}

/// The stored text of a status.
pub open spec fn status_text(s: BackupStatus) -> Seq<char> {
    match s {
        BackupStatus::Created => created_text(),
        BackupStatus::Skipped => skipped_text(),
    }
}

pub open spec fn is_ascii_upper(c: char) -> bool {
    'A' <= c && c <= 'Z'
}

/// `a` and `b` are the same letter up to ASCII case.
pub open spec fn ascii_fold_eq(a: char, b: char) -> bool {
    ||| a == b
    ||| is_ascii_upper(a) && a as u32 + 32 == b as u32
    ||| is_ascii_upper(b) && b as u32 + 32 == a as u32
}

/// Equality of two texts up to ASCII case.
pub open spec fn eq_ignore_ascii_case(a: Seq<char>, b: Seq<char>) -> bool {
    &&& a.len() == b.len()
    &&& forall|i: int| 0 <= i < a.len() ==> ascii_fold_eq(#[trigger] a[i], b[i])
}

fn char_fold_eq(a: char, b: char) -> (r: bool)
    ensures
        r == ascii_fold_eq(a, b),
{
    let x = a as u32;
    let y = b as u32;
    x == y || ('A' <= a && a <= 'Z' && x + 32 == y) || ('A' <= b && b <= 'Z' && y + 32 == x)
}

/// Reads a stored status: "skipped" in any ASCII case is a skip, anything
/// else a created snapshot.
pub fn parse_status(raw: &str) -> (r: BackupStatus)
    ensures
        r == (if eq_ignore_ascii_case(raw@, skipped_text()) {
            BackupStatus::Skipped
        } else {
            BackupStatus::Created
        }),
{
    let expected: [char; 7] = ['s', 'k', 'i', 'p', 'p', 'e', 'd'];
    assert(expected@ =~= skipped_text());
    let n = raw.unicode_len();
    if n != 7 {
        return BackupStatus::Created;
    }
    let mut i: usize = 0;
    while i < 7
        invariant
            n == raw@.len(),
            n == 7,
            expected@ == skipped_text(),
            0 <= i <= 7,
            forall|j: int| 0 <= j < i ==> ascii_fold_eq(#[trigger] raw@[j], skipped_text()[j]),
        decreases 7 - i,
    {
        if !char_fold_eq(raw.get_char(i), expected[i]) {
            return BackupStatus::Created;
        }
        i = i + 1;
    }
    BackupStatus::Skipped
}

/// The stored text of a status.
pub fn status_str(status: &BackupStatus) -> (r: &'static str)
    ensures
        r@ == status_text(*status),
{
    match status {
        BackupStatus::Created => {
            proof {
                reveal_strlit("created");
            }
            "created"
        },
        BackupStatus::Skipped => {
            proof {
                reveal_strlit("skipped");
            }
            "skipped"
        },
    }
}

/// Reads a stored skip reason; `Unchanged` is the only reason there is.
pub fn parse_skip_reason(raw: &str) -> (r: BackupSkipReason)
    ensures
        r == BackupSkipReason::Unchanged,
{
    BackupSkipReason::Unchanged
}

/// The stored text of a skip reason.
pub fn skip_reason_str(reason: &BackupSkipReason) -> (r: &'static str)
    ensures
        r@ == unchanged_text(),
{
    proof {
        reveal_strlit("unchanged");
    }
    match reason {
        BackupSkipReason::Unchanged => "unchanged",
    }
}

} // verus!
