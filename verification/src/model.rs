//! Configuration and status types shared by every part of the library.

use crate::keymap::KeyMap;
use vstd::prelude::*;

verus! {

/// Connection settings of an S3-compatible bucket.
#[derive(Debug, Clone)]
pub struct S3Config {
    pub endpoint: String,
    pub region: String,
    pub bucket: String,
    pub access_key_id: String,
    pub secret_access_key: String,
    pub prefix: String,
    pub path_style: bool,
}

/// Default of `S3Config::path_style` when a stored config omits it.
pub fn default_path_style() -> (b: bool)
    ensures
        b,
{
    true
}

/// Connection settings of a WebDAV server.
#[derive(Debug, Clone)]
pub struct WebDAVConfig {
    pub url: String,
    pub username: String,
    pub password: String,
    pub prefix: String,
}

/// A named storage backend.
#[derive(Debug, Clone)]
pub enum BackendConfig {
    S3 { name: String, s3: S3Config },
    Webdav { name: String, webdav: WebDAVConfig },
}

impl BackendConfig {
    pub open spec fn spec_name(&self) -> Seq<char> {
        match self {
            BackendConfig::S3 { name, .. } => name@,
            BackendConfig::Webdav { name, .. } => name@,
        }
    }

    /// The backend's name, whichever kind it is.
    pub fn name(&self) -> (r: &str)
        ensures
            r@ == self.spec_name(),
    {
        match self {
            BackendConfig::S3 { name, .. } => name.as_str(),
            BackendConfig::Webdav { name, .. } => name.as_str(),
        }
    }
}

/// A game whose save files are synchronised.
#[derive(Debug, Default)]
pub struct GameProfile {
    pub id: String,
    pub name: String,
    pub save_paths: Vec<String>,
    /// Glob patterns a file must match to be synced (all files when empty).
    pub include_globs: Vec<String>,
    pub exclude: Vec<String>,
    pub remote_prefix: Option<String>,
    pub auto_sync: bool,
    pub process_name: Option<String>,
    pub cover: Option<String>,
    /// Per-game backend override; `None` falls back to the default backend.
    pub backend: Option<String>,
    pub category: Option<String>,
    pub pinned: bool,
}

fn clone_opt(o: &Option<String>) -> (r: Option<String>)
    ensures
        r == *o,
{
    match o {
        Some(s) => Some(s.clone()),
        None => None,
    }
}

fn clone_strings(v: &Vec<String>) -> (r: Vec<String>)
    ensures
        r@ == v@,
{
    let mut out: Vec<String> = Vec::new();
    let mut i: usize = 0;
    while i < v.len()
        invariant
            i <= v@.len(),
            out@ == v@.subrange(0, i as int),
        decreases v@.len() - i,
    {
        out.push(v[i].clone());
        assert(out@ =~= v@.subrange(0, i + 1));
        i = i + 1;
    }
    assert(v@.subrange(0, v@.len() as int) =~= v@);
    out
}

impl GameProfile {
    /// Two profiles hold the same values (lists compared element by element).
    pub open spec fn same_as(&self, other: GameProfile) -> bool {
        &&& self.id == other.id
        &&& self.name == other.name
        &&& self.save_paths@ == other.save_paths@
        &&& self.include_globs@ == other.include_globs@
        &&& self.exclude@ == other.exclude@
        &&& self.remote_prefix == other.remote_prefix
        &&& self.auto_sync == other.auto_sync
        &&& self.process_name == other.process_name
        &&& self.cover == other.cover
        &&& self.backend == other.backend
        &&& self.category == other.category
        &&& self.pinned == other.pinned
    }
}

impl Clone for GameProfile {
    fn clone(&self) -> (r: Self)
        ensures
            r.same_as(*self),
    {
        GameProfile {
            id: self.id.clone(),
            name: self.name.clone(),
            save_paths: clone_strings(&self.save_paths),
            include_globs: clone_strings(&self.include_globs),
            exclude: clone_strings(&self.exclude),
            remote_prefix: clone_opt(&self.remote_prefix),
            auto_sync: self.auto_sync,
            process_name: clone_opt(&self.process_name),
            cover: clone_opt(&self.cover),
            backend: clone_opt(&self.backend),
            category: clone_opt(&self.category),
            pinned: self.pinned,
        }
    }
}

/// Default of `GameProfile::auto_sync` and of the boolean settings that
/// default to on.
pub fn default_true() -> (b: bool)
    ensures
        b,
{
    true
}

/// Which side a sync treats as authoritative.
#[derive(Debug, Clone, Copy, PartialEq, Eq, Structural)]
pub enum SyncDirection {
    Auto,
    Push,
    Pull,
}

/// Per-game sync state shown in the UI.
#[derive(Debug, Clone, Copy, PartialEq, Eq, Structural)]
pub enum SyncStateKind {
    Idle,
    Scanning,
    Uploading,
    Downloading,
    Synced,
    Dirty,
    Error,
}

/// Runtime sync status of one game.
#[derive(Debug)]
pub struct GameSyncStatus {
    pub game_id: String,
    pub state: SyncStateKind,
    pub message: Option<String>,
    pub local_files: usize,
    pub remote_files: usize,
    pub last_sync_at: Option<i64>,
    pub last_error: Option<String>,
}

impl Clone for GameSyncStatus {
    fn clone(&self) -> (r: Self)
        ensures
            r == *self,
    {
        GameSyncStatus {
            game_id: self.game_id.clone(),
            state: self.state,
            message: clone_opt(&self.message),
            local_files: self.local_files,
            remote_files: self.remote_files,
            last_sync_at: self.last_sync_at,
            last_error: clone_opt(&self.last_error),
        }
    }
}

/// What to do when both sides changed the same file.
#[derive(Debug, Clone, Copy, PartialEq, Eq, Structural)]
pub enum ConflictPolicy {
    /// Keep both copies, renaming the losing side with a timestamp suffix.
    RenameBoth,
    NewerWins,
    Ask,
    LocalWins,
    RemoteWins,
}

impl Default for ConflictPolicy {
    fn default() -> (p: Self)
        ensures
            p == ConflictPolicy::RenameBoth,
    {
        ConflictPolicy::RenameBoth
    }
}

/// Application settings.
#[derive(Debug, Clone)]
pub struct AppSettings {
    pub default_backend: Option<String>,
    pub auto_sync_interval_sec: u64,
    pub enable_file_watcher: bool,
    pub enable_exit_sync: bool,
    pub conflict_policy: ConflictPolicy,
    /// Concurrent in-flight transfers.
    pub max_concurrency: usize,
    /// Historical versions kept per file on the remote; 0 disables versioning.
    pub versions_to_keep: usize,
    pub always_preview: bool,
    pub close_to_tray: bool,
    /// Bandwidth cap in bytes per second; 0 means unlimited.
    pub max_bytes_per_sec: u64,
    pub notify_on_complete: bool,
    pub auto_open_devtools: bool,
    /// "light", "dark" or "auto".
    pub theme: String,
    pub auto_check_updates: bool,
}

pub open spec fn spec_default_theme() -> Seq<char> {
    seq!['l', 'i', 'g', 'h', 't']
}

/// Default UI theme.
pub fn default_theme() -> (s: String)
    ensures
        s@ == spec_default_theme(),
{
    let mut v: Vec<char> = Vec::new();
    v.push('l');
    v.push('i');
    v.push('g');
    v.push('h');
    v.push('t');
    crate::text::string_from_chars(&v)
}

/// Default auto-sync period in seconds.
pub fn default_interval() -> (n: u64)
    ensures
        n == 600,
{
    600
}

/// Default number of concurrent transfers.
pub fn default_concurrency() -> (n: usize)
    ensures
        n == 4,
{
    4
}

/// Default number of versions kept per file.
pub fn default_versions() -> (n: usize)
    ensures
        n == 5,
{
    5
}

impl AppSettings {
    /// The settings a fresh installation starts with.
    pub open spec fn is_default(&self) -> bool {
        &&& self.default_backend is None
        &&& self.auto_sync_interval_sec == 600
        &&& self.enable_file_watcher
        &&& !self.enable_exit_sync
        &&& self.conflict_policy == ConflictPolicy::RenameBoth
        &&& self.max_concurrency == 4
        &&& self.versions_to_keep == 5
        &&& self.always_preview
        &&& self.close_to_tray
        &&& self.max_bytes_per_sec == 0
        &&& self.notify_on_complete
        &&& self.auto_open_devtools
        &&& self.theme@ == spec_default_theme()
        &&& self.auto_check_updates
    }
}

impl Default for AppSettings {
    fn default() -> (s: Self)
        ensures
            s.is_default(),
    {
        AppSettings {
            default_backend: None,
            auto_sync_interval_sec: 600,
            enable_file_watcher: true,
            enable_exit_sync: false,
            conflict_policy: ConflictPolicy::RenameBoth,
            max_concurrency: default_concurrency(),
            versions_to_keep: default_versions(),
            always_preview: true,
            close_to_tray: true,
            max_bytes_per_sec: 0,
            notify_on_complete: true,
            auto_open_devtools: true,
            theme: default_theme(),
            auto_check_updates: true,
        }
    }
}

/// The whole persisted configuration.
#[derive(Debug, Clone)]
pub struct ConfigDoc {
    pub games: Vec<GameProfile>,
    pub backends: Vec<BackendConfig>,
    pub settings: AppSettings,
}

impl Default for ConfigDoc {
    fn default() -> (d: Self)
        ensures
            d.games@.len() == 0,
            d.backends@.len() == 0,
            d.settings.is_default(),
    {
        ConfigDoc { games: Vec::new(), backends: Vec::new(), settings: AppSettings::default() }
    }
}

/// One object listed on a remote backend.
#[derive(Debug, Clone)]
pub struct RemoteFileMeta {
    pub key: String,
    pub size: u64,
    pub etag: Option<String>,
    pub modified: Option<i64>,
}

/// A user-named snapshot: the game's full file set under a label.  Unlike
/// automatic versions it is never pruned.
#[derive(Debug)]
pub struct NamedSnapshot {
    pub id: String,
    pub game_id: String,
    pub name: String,
    pub created_at_ms: i64,
    pub files: KeyMap<SnapshotFileEntry>,
    pub total_size: u64,
}

/// One file of a named snapshot.
#[derive(Debug, Clone)]
pub struct SnapshotFileEntry {
    pub sha256: String,
    pub size: u64,
    pub modified_ms: i64,
    pub root_index: usize,
}

} // verus!
