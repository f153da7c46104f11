//! Daemon configuration as plain values, with the defaults and the choice
//! of metadata backend.

use vstd::prelude::*;
use crate::sync::SyncConfig;

verus! {

/// Whole configuration; every section may be absent.
#[derive(Debug, Default)]
pub struct Config {
    pub server: ServerConfig,
    pub storage: StorageConfig,
    pub ankiweb: AnkiwebConfig,
    pub security: SecurityConfig,
}

/// Where the web server listens.
#[derive(Debug, Default)]
pub struct ServerConfig {
    pub listen: Option<String>,
}

/// Where backups are kept, for how long, and in which metadata store.
#[derive(Debug, Default)]
pub struct StorageConfig {
    pub root: Option<String>,
    pub retention_days: Option<i64>,
    pub database_url: Option<String>,
}

/// The remote account.
#[derive(Debug, Default)]
pub struct AnkiwebConfig {
    pub username: Option<String>,
    pub password: Option<String>,
    pub endpoint: Option<String>,
}

/// Tokens that guard the web interface.
#[derive(Debug, Default)]
pub struct SecurityConfig {
    pub api_token: Option<String>,
    pub csrf_token: Option<String>,
}

/// The retention window used when none is configured, in days.
pub const DEFAULT_RETENTION_DAYS: i64 = 90;

/// The metadata backend a connection string selects.
#[derive(Clone, Copy, Debug, PartialEq, Eq, Structural)]
pub enum StoreBackend {
    /// The embedded single-file engine under the repository's state directory.
    Embedded,
    /// The networked relational engine at the connection string.
    Networked,
}

/// `s` begins with `p`.
pub open spec fn has_prefix(s: Seq<char>, p: Seq<char>) -> bool {
    p.len() <= s.len() && s.subrange(0, p.len() as int) == p
}

fn starts_with(s: &String, p: &str) -> (r: bool)
    ensures
        r == has_prefix(s@, p@),
{
    let n = s.unicode_len();
    let k = p.unicode_len();
    if k > n {
        return false;
    }
    let mut i: usize = 0;
    while i < k
        invariant
            n == s@.len(),
            k == p@.len(),
            k <= n,
            0 <= i <= k,
            forall|j: int| 0 <= j < i ==> s@[j] == p@[j],
        decreases k - i,
    {
        if s.get_char(i) != p.get_char(i) {
            assert(s@.subrange(0, k as int)[i as int] != p@[i as int]);
            return false;
        }
        i = i + 1;
    }
    assert(s@.subrange(0, k as int) =~= p@);
    true
}

/// The connection string names the networked engine by its URL scheme.
pub open spec fn is_networked_url(url: Seq<char>) -> bool {
    has_prefix(url, "postgres://"@) || has_prefix(url, "postgresql://"@)
}

impl StorageConfig {
    /// The backend to use: the networked engine when the connection string
    /// has its URL scheme, else the embedded one.
    pub fn backend(&self) -> (r: StoreBackend)
        ensures
            r == (if self.database_url matches Some(u) && is_networked_url(u@) {
                StoreBackend::Networked
            } else {
                StoreBackend::Embedded
            }),
    {
        match &self.database_url {
            Some(u) => {
                if starts_with(u, "postgres://") || starts_with(u, "postgresql://") {
                    StoreBackend::Networked
                } else {
                    StoreBackend::Embedded
                }
            },
            None => StoreBackend::Embedded,
        }
    }

    /// The retention window in days: the configured one, else the default.
    /// A window that is not positive disables pruning.
    pub fn retention_days_or_default(&self) -> (r: i64)
        ensures
            r == (match self.retention_days {
                Some(d) => d,
                None => DEFAULT_RETENTION_DAYS,
            }),
    {
        match self.retention_days {
            Some(d) => d,
            None => DEFAULT_RETENTION_DAYS,
        }
    }

    /// The repository root: the configured one, else "./data".
    pub fn root_or_default(&self) -> (r: String)
        ensures
            r@ == (match self.root {
                Some(p) => p@,
                None => "./data"@,
            }),
    {
        match &self.root {
            Some(p) => p.clone(),
            None => "./data".to_owned(),
        }
    }
}

impl ServerConfig {
    /// The listen address: the configured one, else "127.0.0.1:8088".
    pub fn listen_or_default(&self) -> (r: String)
        ensures
            r@ == (match self.listen {
                Some(a) => a@,
                None => "127.0.0.1:8088"@,
            }),
    {
        match &self.listen {
            Some(a) => a.clone(),
            None => "127.0.0.1:8088".to_owned(),
        }
    }
}

fn text_or_empty(s: &Option<String>) -> (r: String)
    ensures
        r@ == (match s {
            Some(t) => t@,
            None => Seq::<char>::empty(),
        }),
{
    match s {
        Some(t) => t.clone(),
        None => String::new(),
    }
}

impl AnkiwebConfig {
    /// The sync configuration: absent credentials become empty ones, which
    /// the sync client refuses before any request.
    pub fn sync_config(&self) -> (r: SyncConfig)
        ensures
            r.username@ == (match self.username {
                Some(t) => t@,
                None => Seq::<char>::empty(),
            }),
            r.password@ == (match self.password {
                Some(t) => t@,
                None => Seq::<char>::empty(),
            }),
            (match (r.endpoint, self.endpoint) {
                (Some(a), Some(b)) => a@ == b@,
                (None, None) => true,
                _ => false,
            }),
    {
        let endpoint = match &self.endpoint {
            Some(e) => Some(e.clone()),
            None => None,
        };
        SyncConfig { username: text_or_empty(&self.username), password: text_or_empty(&self.password), endpoint }
    }
}

} // verus!
