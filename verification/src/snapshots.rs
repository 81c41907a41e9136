//! Named snapshots: a labelled copy of a game's whole file set, kept on the
//! remote next to (and apart from) the automatically pruned versions.
//! The library names and lays them out, and decides what restoring one
//! writes where; the transfers happen outside it.

use crate::engine::{index_map, entry_of, LocalFile, RemoteIndex, RemoteIndexEntry, upload_bytes};
use crate::error::AppError;
use crate::keymap::{entries_map, keys_of, KeyMap};
use crate::model::{NamedSnapshot, SnapshotFileEntry};
use crate::paths::{remote_key_spec, to_remote_key, LocalPath};
use crate::text::{
    chars_of, concat2, concat3, ends_with, is_ctrl, owned, seq_ends_with, split_char, split_spec,
    string_from_chars, trim, trim_spec,
};
use vstd::prelude::*;

verus! {

broadcast use vstd::string::group_string_axioms;

// ---------------------------------------------------------------------------
// Names
// ---------------------------------------------------------------------------

/// Characters replaced by `_` in a snapshot name.
pub open spec fn name_hostile(c: char) -> bool {
    c == '/' || c == '\\' || c == ':' || c == '*' || c == '?' || c == '"' || c == '<' || c == '>'
        || c == '|' || c == '\0' || is_ctrl(c)
}

/// The name with hostile characters replaced by `_`.
pub open spec fn clean_name(s: Seq<char>) -> Seq<char> {
    s.map_values(|c: char| if name_hostile(c) { '_' } else { c })
}

/// The outcome of checking a snapshot name: the cleaned name, or the text of
/// the refusal.  The length limit counts the characters of the trimmed name.
pub open spec fn sanitize_name_spec(name: Seq<char>) -> Result<Seq<char>, Seq<char>> {
    let t = trim_spec(name);
    if t.len() == 0 {
        Err("快照名称不能为空"@)
    } else if t.len() > 100 {
        Err("快照名称过长（最多 100 字符）"@)
    } else {
        Ok(clean_name(t))
    }
}

/// Trims a snapshot name, refuses an empty or over-long one, and replaces
/// path-hostile and control characters by `_`, keeping every other
/// character (any script, emoji).
pub fn sanitize_name(name: &str) -> (r: Result<String, AppError>)
    ensures
        match sanitize_name_spec(name@) {
            Ok(n) => r matches Ok(s) && s@ == n,
            Err(m) => r matches Err(AppError::Other(e)) && e@ == m,
        },
{
    let t = trim(name);
    if t.unicode_len() == 0 {
        return Err(AppError::Other(owned("快照名称不能为空")));
    }
    if t.unicode_len() > 100 {
        return Err(AppError::Other(owned("快照名称过长（最多 100 字符）")));
    }
    let x = chars_of(t.as_str());
    let mut out: Vec<char> = Vec::new();
    let mut i: usize = 0;
    while i < x.len()
        invariant
            x@ == t@,
            i <= x@.len(),
            out@ == clean_name(t@.subrange(0, i as int)),
        decreases x@.len() - i,
    {
        let c = x[i];
        let bad = c == '/' || c == '\\' || c == ':' || c == '*' || c == '?' || c == '"' || c
            == '<' || c == '>' || c == '|' || c == '\0' || crate::text::char_is_control(c);
        if bad {
            out.push('_');
        } else {
            out.push(c);
        }
        assert(clean_name(t@.subrange(0, i + 1)) =~= clean_name(t@.subrange(0, i as int)).push(
            if name_hostile(c) { '_' } else { c },
        ));
        i = i + 1;
    }
    assert(t@.subrange(0, t@.len() as int) =~= t@);
    Ok(string_from_chars(&out))
}

// ---------------------------------------------------------------------------
// Layout
// ---------------------------------------------------------------------------

/// Relative path of a snapshot's manifest.
pub open spec fn manifest_rel(id: Seq<char>) -> Seq<char> {
    ".gsyncing/snapshots/manifests/"@ + id + ".json"@
}

/// Relative path under which a snapshot's files are stored.
pub open spec fn files_rel(id: Seq<char>) -> Seq<char> {
    ".gsyncing/snapshots/files/"@ + id
}

/// A fresh random snapshot id (a hyphenated version-4 UUID); fails when
/// the random source does.
pub fn new_snapshot_id() -> (r: Result<String, AppError>)
    ensures
        r matches Ok(id) ==> exists|b: Seq<u8>|
            b.len() == 16 && id@ == crate::clock::uuid_text(crate::clock::v4_bytes(b)),
        r matches Err(e) ==> e matches AppError::Other(m) && exists|t: Seq<char>|
            m@ == "random source: "@ + t,
{
    crate::clock::new_uuid()
}

/// Key of a snapshot's manifest.
pub fn manifest_key(remote_prefix: &str, id: &str) -> (k: String)
    ensures
        k@ == remote_key_spec(remote_prefix@, manifest_rel(id@)),
{
    let rel = concat3(".gsyncing/snapshots/manifests/", id, ".json");
    to_remote_key(remote_prefix, rel.as_str())
}

/// Key prefix of a snapshot's stored files.
pub fn files_prefix(remote_prefix: &str, id: &str) -> (k: String)
    ensures
        k@ == remote_key_spec(remote_prefix@, files_rel(id@)),
{
    let rel = concat2(".gsyncing/snapshots/files/", id);
    to_remote_key(remote_prefix, rel.as_str())
}

/// Key prefix under which the manifests of all snapshots are listed.
pub fn manifests_prefix(remote_prefix: &str) -> (k: String)
    ensures
        k@ == remote_key_spec(remote_prefix@, ".gsyncing/snapshots/manifests"@),
{
    to_remote_key(remote_prefix, ".gsyncing/snapshots/manifests")
}

/// Key of one stored file: the files prefix, a slash and the relative path
/// as it is.
pub fn blob_key(files_prefix: &str, rel: &str) -> (k: String)
    ensures
        k@ == files_prefix@ + "/"@ + rel@,
{
    concat3(files_prefix, "/", rel)
}

/// Whether a listed key names a manifest (ends in `.json`).
pub fn is_manifest_key(key: &str) -> (b: bool)
    ensures
        b == seq_ends_with(key@, ".json"@),
{
    ends_with(key, ".json")
}

// ---------------------------------------------------------------------------
// Creating
// ---------------------------------------------------------------------------

/// What a snapshot records of a scanned file.
pub open spec fn snap_entry_of(f: LocalFile) -> SnapshotFileEntry {
    SnapshotFileEntry {
        sha256: f.sha256,
        size: f.size,
        modified_ms: f.modified_ms,
        root_index: f.root_index,
    }
}

/// A snapshot's file table for scanned files (the later file wins on a path
/// found under two roots).
pub open spec fn snapshot_map(fs: Seq<LocalFile>) -> Map<Seq<char>, SnapshotFileEntry>
    decreases fs.len(),
{
    if fs.len() == 0 {
        Map::empty()
    } else {
        snapshot_map(fs.drop_last()).insert(fs.last().relative@, snap_entry_of(fs.last()))
    }
}

/// Refuses to snapshot a game whose scan found nothing.
pub fn check_has_files(game_name: &str, files: &Vec<LocalFile>) -> (r: Result<(), AppError>)
    ensures
        r is Ok <==> files@.len() > 0,
        r is Err ==> (r matches Err(AppError::Other(m)) && m@ == "["@ + game_name@
            + "] no local files to snapshot"@),
{
    if files.len() == 0 {
        Err(AppError::Other(concat3("[", game_name, "] no local files to snapshot")))
    } else {
        Ok(())
    }
}

/// The manifest of a new snapshot of `files`.
pub fn manifest_for(
    id: String,
    game_id: String,
    name: String,
    created_at_ms: i64,
    files: &Vec<LocalFile>,
) -> (m: NamedSnapshot)
    requires
        upload_bytes(files@) <= u64::MAX,
    ensures
        m.id == id,
        m.game_id == game_id,
        m.name == name,
        m.created_at_ms == created_at_ms,
        m.files.wf(),
        m.files.view_map() == snapshot_map(files@),
        m.total_size == upload_bytes(files@),
{
    let mut table: KeyMap<SnapshotFileEntry> = KeyMap::new();
    let mut total: u64 = 0;
    let mut i: usize = 0;
    while i < files.len()
        invariant
            i <= files@.len(),
            upload_bytes(files@) <= u64::MAX,
            table.wf(),
            table.view_map() == snapshot_map(files@.subrange(0, i as int)),
            total == upload_bytes(files@.subrange(0, i as int)),
        decreases files@.len() - i,
    {
        let f = &files[i];
        assert(files@.subrange(0, i + 1).drop_last() =~= files@.subrange(0, i as int));
        proof {
            crate::engine::lemma_upload_bytes_prefix(files@, i + 1);
        }
        total = total + f.size;
        table.insert(
            f.relative.clone(),
            SnapshotFileEntry {
                sha256: f.sha256.clone(),
                size: f.size,
                modified_ms: f.modified_ms,
                root_index: f.root_index,
            },
        );
        i = i + 1;
    }
    assert(files@.subrange(0, files@.len() as int) =~= files@);
    NamedSnapshot { id, game_id, name, created_at_ms, files: table, total_size: total }
}


/// What the UI lists of a snapshot.
#[derive(Debug)]
pub struct SnapshotSummary {
    pub id: String,
    pub name: String,
    pub created_at_ms: i64,
    pub file_count: usize,
    pub total_size: u64,
}

impl Clone for SnapshotSummary {
    fn clone(&self) -> (r: Self)
        ensures
            r == *self,
    {
        SnapshotSummary {
            id: self.id.clone(),
            name: self.name.clone(),
            created_at_ms: self.created_at_ms,
            file_count: self.file_count,
            total_size: self.total_size,
        }
    }
}

/// The summary of a snapshot as listed: its file count is that of its
/// manifest.
pub fn summary_of(m: &NamedSnapshot) -> (s: SnapshotSummary)
    ensures
        s.id@ == m.id@,
        s.name@ == m.name@,
        s.created_at_ms == m.created_at_ms,
        s.file_count == m.files.entries@.len(),
        s.total_size == m.total_size,
{
    SnapshotSummary {
        id: m.id.clone(),
        name: m.name.clone(),
        created_at_ms: m.created_at_ms,
        file_count: m.files.len(),
        total_size: m.total_size,
    }
}

/// Inserts `x` after every summary at least as new (a stable step of a
/// newest-first sort).
pub open spec fn insert_summary(s: Seq<SnapshotSummary>, x: SnapshotSummary) -> Seq<SnapshotSummary>
    decreases s.len(),
{
    if s.len() == 0 {
        seq![x]
    } else if s[0].created_at_ms < x.created_at_ms {
        seq![x] + s
    } else {
        seq![s[0]] + insert_summary(s.drop_first(), x)
    }
}

/// Stable sort, newest snapshot first.
pub open spec fn summaries_newest_first(s: Seq<SnapshotSummary>) -> Seq<SnapshotSummary>
    decreases s.len(),
{
    if s.len() == 0 {
        s
    } else {
        insert_summary(summaries_newest_first(s.drop_last()), s.last())
    }
}

proof fn lemma_insert_summary_at(s: Seq<SnapshotSummary>, x: SnapshotSummary, p: int)
    requires
        0 <= p <= s.len(),
        forall|k: int| 0 <= k < p ==> s[k].created_at_ms >= x.created_at_ms,
        p < s.len() ==> s[p].created_at_ms < x.created_at_ms,
    ensures
        insert_summary(s, x) == s.insert(p, x),
    decreases s.len(),
{
    if s.len() == 0 {
        assert(s.insert(p, x) =~= seq![x]);
    } else if p == 0 {
        assert(s.insert(p, x) =~= seq![x] + s);
    } else {
        let t = s.drop_first();
        assert forall|k: int| 0 <= k < p - 1 implies t[k].created_at_ms >= x.created_at_ms by {
            assert(t[k] == s[k + 1]);
        }
        if p - 1 < t.len() {
            assert(t[p - 1] == s[p]);
        }
        lemma_insert_summary_at(t, x, p - 1);
        assert(seq![s[0]] + t.insert(p - 1, x) =~= s.insert(p, x));
    }
}

/// Orders listed snapshots newest first (equal times keep listing order).
pub fn sort_summaries(items: Vec<SnapshotSummary>) -> (r: Vec<SnapshotSummary>)
    ensures
        r@ == summaries_newest_first(items@),
{
    let mut out: Vec<SnapshotSummary> = Vec::new();
    let mut i: usize = 0;
    assert(items@.subrange(0, 0) =~= Seq::<SnapshotSummary>::empty());
    while i < items.len()
        invariant
            i <= items@.len(),
            out@ == summaries_newest_first(items@.subrange(0, i as int)),
        decreases items@.len() - i,
    {
        let x = items[i].clone();
        let mut p: usize = 0;
        while p < out.len() && out[p].created_at_ms >= x.created_at_ms
            invariant
                p <= out@.len(),
                forall|k: int| 0 <= k < p ==> (#[trigger] out@[k]).created_at_ms >= x.created_at_ms,
            decreases out@.len() - p,
        {
            p = p + 1;
        }
        proof {
            lemma_insert_summary_at(out@, x, p as int);
            assert(items@.subrange(0, i + 1).drop_last() =~= items@.subrange(0, i as int));
        }
        out.insert(p, x);
        i = i + 1;
    }
    assert(items@.subrange(0, items@.len() as int) =~= items@);
    out
}

// ---------------------------------------------------------------------------
// Restoring
// ---------------------------------------------------------------------------

/// Where a snapshot file is restored: its root when that root exists, else
/// the first root; and the `/`-separated segments of its path below it.
pub fn restore_target(roots: &Vec<String>, rel: &str, e: &SnapshotFileEntry) -> (r: Result<
    LocalPath,
    AppError,
>)
    ensures
        roots@.len() == 0 ==> (r matches Err(AppError::Path(m)) && m@ == "no local root for "@
            + rel@),
        roots@.len() > 0 ==> (r matches Ok(p) && p.root@ == roots@[if e.root_index
            < roots@.len() { e.root_index as int } else { 0 }]@ && p.parts@.map_values(
            |s: String| s@,
        ) == split_spec(rel@, '/')),
{
    let idx: usize = if e.root_index < roots.len() {
        e.root_index
    } else {
        0
    };
    if idx >= roots.len() {
        return Err(AppError::Path(concat2("no local root for ", rel)));
    }
    let parts = split_char(rel, '/');
    assert(parts@.map_values(|s: String| s@) =~= split_spec(rel@, '/'));
    Ok(LocalPath { root: roots[idx].clone(), parts })
}

/// The index entry recording a snapshot file.
pub open spec fn index_entry_of(e: SnapshotFileEntry) -> RemoteIndexEntry {
    RemoteIndexEntry {
        sha256: e.sha256,
        size: e.size,
        modified_ms: e.modified_ms,
        root_index: e.root_index,
    }
}

/// The index a restored snapshot leaves: its file table, entry by entry.
pub open spec fn snapshot_index(m: Map<Seq<char>, SnapshotFileEntry>) -> Map<
    Seq<char>,
    RemoteIndexEntry,
> {
    m.map_values(|e: SnapshotFileEntry| index_entry_of(e))
}

/// The index recorded (locally and on the remote) after restoring a
/// snapshot, so that the next sync finds both sides equal to it.
pub fn index_from_snapshot(m: &NamedSnapshot) -> (idx: RemoteIndex)
    requires
        m.files.wf(),
    ensures
        idx.wf(),
        idx.view() == snapshot_index(m.files.view_map()),
{
    let es = &m.files.entries;
    let mut idx = RemoteIndex { files: KeyMap::new() };
    let mut i: usize = 0;
    while i < es.len()
        invariant
            i <= es@.len(),
            idx.wf(),
            idx.view() == snapshot_index(entries_map(es@.subrange(0, i as int))),
        decreases es@.len() - i,
    {
        let (k, e) = &es[i];
        let ghost before = idx.view();
        idx.files.insert(
            k.clone(),
            RemoteIndexEntry {
                sha256: e.sha256.clone(),
                size: e.size,
                modified_ms: e.modified_ms,
                root_index: e.root_index,
            },
        );
        proof {
            let p = es@.subrange(0, i + 1);
            assert(p.drop_last() =~= es@.subrange(0, i as int));
            assert(p.last() == es@[i as int]);
            assert(idx.view() =~= snapshot_index(entries_map(p)));
        }
        i = i + 1;
    }
    assert(es@.subrange(0, es@.len() as int) =~= es@);
    idx
}

/// Restoring a snapshot records exactly the index a sync of the snapshotted
/// files would have recorded: snapshot, then restore, gives back each
/// file's hash, size, time and root.
pub proof fn law_snapshot_round_trip(fs: Seq<LocalFile>)
    ensures
        snapshot_index(snapshot_map(fs)) == index_map(fs),
    decreases fs.len(),
{
    if fs.len() > 0 {
        law_snapshot_round_trip(fs.drop_last());
        assert(snapshot_index(snapshot_map(fs)) =~= index_map(fs));
    } else {
        assert(snapshot_index(snapshot_map(fs)) =~= index_map(fs));
    }
}

/// One file copied into a snapshot: read from `absolute` (streamed when
/// large) and stored under `key`.
#[derive(Debug)]
pub struct BlobUpload {
    pub rel: String,
    pub key: String,
    pub absolute: String,
    pub size: u64,
    pub streamed: bool,
}

/// The uploads that create a snapshot of `files`, in scan order.
pub fn snapshot_uploads(files_prefix: &str, files: &Vec<LocalFile>) -> (r: Vec<BlobUpload>)
    ensures
        r@.len() == files@.len(),
        forall|i: int|
            0 <= i < r@.len() ==> {
                &&& (#[trigger] r@[i]).rel@ == files@[i].relative@
                &&& r@[i].key@ == files_prefix@ + "/"@ + files@[i].relative@
                &&& r@[i].absolute@ == files@[i].absolute@
                &&& r@[i].size == files@[i].size
                &&& r@[i].streamed == (files@[i].size > crate::run::LARGE_FILE_THRESHOLD)
            },
{
    let mut out: Vec<BlobUpload> = Vec::new();
    let mut i: usize = 0;
    while i < files.len()
        invariant
            i <= files@.len(),
            out@.len() == i,
            forall|j: int|
                0 <= j < i ==> {
                    &&& (#[trigger] out@[j]).rel@ == files@[j].relative@
                    &&& out@[j].key@ == files_prefix@ + "/"@ + files@[j].relative@
                    &&& out@[j].absolute@ == files@[j].absolute@
                    &&& out@[j].size == files@[j].size
                    &&& out@[j].streamed == (files@[j].size > crate::run::LARGE_FILE_THRESHOLD)
                },
        decreases files@.len() - i,
    {
        let f = &files[i];
        out.push(
            BlobUpload {
                rel: f.relative.clone(),
                key: blob_key(files_prefix, f.relative.as_str()),
                absolute: f.absolute.clone(),
                size: f.size,
                streamed: f.size > crate::run::LARGE_FILE_THRESHOLD,
            },
        );
        i = i + 1;
    }
    out
}

/// One file written back from a snapshot: `key` goes to `target` (streamed
/// when large).
#[derive(Debug)]
pub struct BlobRestore {
    pub rel: String,
    pub key: String,
    pub target: LocalPath,
    pub size: u64,
    pub streamed: bool,
}

/// The write-back of one snapshot file.
pub fn blob_restore(files_prefix: &str, roots: &Vec<String>, rel: &str, e: &SnapshotFileEntry) -> (r:
    Result<BlobRestore, AppError>)
    ensures
        roots@.len() == 0 ==> (r matches Err(AppError::Path(m)) && m@ == "no local root for "@
            + rel@),
        roots@.len() > 0 ==> (r matches Ok(j) && j.rel@ == rel@ && j.key@ == files_prefix@ + "/"@
            + rel@ && j.target.root@ == roots@[if e.root_index < roots@.len() {
            e.root_index as int
        } else {
            0
        }]@ && j.target.parts@.map_values(|s: String| s@) == split_spec(rel@, '/') && j.size
            == e.size && j.streamed == (e.size > crate::run::LARGE_FILE_THRESHOLD)),
{
    let target = match restore_target(roots, rel, e) {
        Ok(t) => t,
        Err(err) => {
            return Err(err);
        },
    };
    Ok(
        BlobRestore {
            rel: owned(rel),
            key: blob_key(files_prefix, rel),
            target,
            size: e.size,
            streamed: e.size > crate::run::LARGE_FILE_THRESHOLD,
        },
    )
}

/// One snapshot file copied back to its live key after a restore: when
/// `archive_first`, the current live copy is archived as a version before it
/// is overwritten, so the restore can itself be undone.
#[derive(Debug)]
pub struct LiveCopy {
    pub rel: String,
    pub snap_key: String,
    pub live_key: String,
    pub archive_first: bool,
}

/// After a restore, each snapshot file is copied back to its live key so
/// that other machines pick up the rolled-back state, in manifest order;
/// the live copies are archived first when versions are kept.
pub fn live_copies(remote_prefix: &str, files_prefix: &str, m: &NamedSnapshot, versions_to_keep: usize) -> (r: Vec<LiveCopy>)
    ensures
        r@.len() == m.files.entries@.len(),
        forall|i: int|
            0 <= i < r@.len() ==> {
                &&& (#[trigger] r@[i]).rel@ == m.files.entries@[i].0@
                &&& r@[i].snap_key@ == files_prefix@ + "/"@ + m.files.entries@[i].0@
                &&& r@[i].live_key@ == remote_key_spec(remote_prefix@, m.files.entries@[i].0@)
                &&& r@[i].archive_first == (versions_to_keep > 0)
            },
{
    let es = &m.files.entries;
    let mut out: Vec<LiveCopy> = Vec::new();
    let mut i: usize = 0;
    while i < es.len()
        invariant
            i <= es@.len(),
            out@.len() == i,
            forall|j: int|
                0 <= j < i ==> {
                    &&& (#[trigger] out@[j]).rel@ == es@[j].0@
                    &&& out@[j].snap_key@ == files_prefix@ + "/"@ + es@[j].0@
                    &&& out@[j].live_key@ == remote_key_spec(remote_prefix@, es@[j].0@)
                    &&& out@[j].archive_first == (versions_to_keep > 0)
                },
        decreases es@.len() - i,
    {
        let rel = es[i].0.as_str();
        out.push(
            LiveCopy {
                rel: owned(rel),
                snap_key: blob_key(files_prefix, rel),
                live_key: to_remote_key(remote_prefix, rel),
                archive_first: versions_to_keep > 0,
            },
        );
        i = i + 1;
    }
    out
}

/// The stages of creating a snapshot: the files are uploaded first; the
/// manifest, which makes the snapshot visible, is written only after every
/// upload succeeded, so no snapshot points at an incomplete file set.
#[derive(Debug, Clone, Copy, PartialEq, Eq, Structural)]
pub enum CreateStage {
    Uploads,
    Manifest,
    Done,
    Failed,
}

/// The stage of a snapshot creation after `stage`, whose work succeeded
/// (`ok`) or not.
pub open spec fn create_next_spec(stage: CreateStage, ok: bool) -> CreateStage {
    match stage {
        CreateStage::Uploads => if ok {
            CreateStage::Manifest
        } else {
            CreateStage::Failed
        },
        CreateStage::Manifest => if ok {
            CreateStage::Done
        } else {
            CreateStage::Failed
        },
        CreateStage::Done => CreateStage::Done,
        CreateStage::Failed => CreateStage::Failed,
    }
}

/// The next stage of creating a snapshot: the manifest only after all
/// uploads succeeded, and any failure ends the creation.
pub fn create_next(stage: CreateStage, ok: bool) -> (r: CreateStage)
    ensures
        r == create_next_spec(stage, ok),
        r is Manifest ==> stage is Uploads && ok,
        r is Done ==> stage is Done || (stage is Manifest && ok),
{
    match stage {
        CreateStage::Uploads => if ok {
            CreateStage::Manifest
        } else {
            CreateStage::Failed
        },
        CreateStage::Manifest => if ok {
            CreateStage::Done
        } else {
            CreateStage::Failed
        },
        CreateStage::Done => CreateStage::Done,
        CreateStage::Failed => CreateStage::Failed,
    }
}

/// The stages of deleting a snapshot: the manifest first, so that an
/// interrupted delete leaves only orphan files, never a snapshot with files
/// missing; then its files, whose failures are only reported.
#[derive(Debug, Clone, Copy, PartialEq, Eq, Structural)]
pub enum DeleteStage {
    Manifest,
    Files,
    Done,
    Failed,
}

/// The stage of a snapshot deletion after `stage`, whose work succeeded
/// (`ok`) or not.
pub open spec fn delete_next_spec(stage: DeleteStage, ok: bool) -> DeleteStage {
    match stage {
        DeleteStage::Manifest => if ok {
            DeleteStage::Files
        } else {
            DeleteStage::Failed
        },
        DeleteStage::Files => DeleteStage::Done,
        DeleteStage::Done => DeleteStage::Done,
        DeleteStage::Failed => DeleteStage::Failed,
    }
}

/// The next stage of deleting a snapshot: a failed manifest delete stops
/// it before any file is touched; failed file deletes do not.
pub fn delete_next(stage: DeleteStage, ok: bool) -> (r: DeleteStage)
    ensures
        r == delete_next_spec(stage, ok),
        r is Files ==> stage is Manifest && ok,
        stage is Files ==> r is Done,
{
    match stage {
        DeleteStage::Manifest => if ok {
            DeleteStage::Files
        } else {
            DeleteStage::Failed
        },
        DeleteStage::Files => DeleteStage::Done,
        DeleteStage::Done => DeleteStage::Done,
        DeleteStage::Failed => DeleteStage::Failed,
    }
}

} // verus!
