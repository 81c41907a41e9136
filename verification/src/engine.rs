//! Sync planning: comparing the local scan, the remote index and the index
//! recorded after the previous sync, and deciding per file what to upload,
//! download, delete or keep under both names.

use crate::keymap::{keys_of, lemma_entries_map, sorted_seq_of, KeyMap};
use crate::model::ConflictPolicy;
use crate::text::{concat3, str_eq};
use vstd::prelude::*;

verus! {

/// A file found by the local scan.
#[derive(Debug)]
pub struct LocalFile {
    /// Absolute path on disk.
    pub absolute: String,
    /// Path relative to its save-path root, "/"-separated.
    pub relative: String,
    /// Which save-path root the file belongs to.
    pub root_index: usize,
    pub size: u64,
    pub modified_ms: i64,
    pub sha256: String,
}

impl Clone for LocalFile {
    fn clone(&self) -> (r: Self)
        ensures
            r == *self,
    {
        LocalFile {
            absolute: self.absolute.clone(),
            relative: self.relative.clone(),
            root_index: self.root_index,
            size: self.size,
            modified_ms: self.modified_ms,
            sha256: self.sha256.clone(),
        }
    }
}

/// What the remote index records about one file.
#[derive(Debug)]
pub struct RemoteIndexEntry {
    pub sha256: String,
    pub size: u64,
    pub modified_ms: i64,
    pub root_index: usize,
}

impl Clone for RemoteIndexEntry {
    fn clone(&self) -> (r: Self)
        ensures
            r == *self,
    {
        RemoteIndexEntry {
            sha256: self.sha256.clone(),
            size: self.size,
            modified_ms: self.modified_ms,
            root_index: self.root_index,
        }
    }
}

/// The manifest of a game's files: relative path to entry, sorted by path.
#[derive(Debug)]
pub struct RemoteIndex {
    pub files: KeyMap<RemoteIndexEntry>,
}

impl RemoteIndex {
    pub open spec fn wf(&self) -> bool {
        self.files.wf()
    }

    pub open spec fn view(&self) -> Map<Seq<char>, RemoteIndexEntry> {
        self.files.view_map()
    }

    /// A copy of the index.
    pub fn duplicate(&self) -> (r: Self)
        ensures
            r.files.entries@ == self.files.entries@,
    {
        let mut v: Vec<(String, RemoteIndexEntry)> = Vec::new();
        let mut i: usize = 0;
        assert(v@ =~= self.files.entries@.subrange(0, 0));
        while i < self.files.entries.len()
            invariant
                i <= self.files.entries@.len(),
                v@ == self.files.entries@.subrange(0, i as int),
            decreases self.files.entries@.len() - i,
        {
            let e = &self.files.entries[i];
            v.push((e.0.clone(), e.1.clone()));
            assert(v@ =~= self.files.entries@.subrange(0, i + 1));
            i = i + 1;
        }
        assert(v@ =~= self.files.entries@);
        RemoteIndex { files: KeyMap { entries: v } }
    }

    /// The indexed paths, in order.
    pub fn key_list(&self) -> (r: Vec<String>)
        ensures
            strs_view(r@) == keys_of(self.files.entries@),
    {
        key_list_of(&self.files)
    }
}

impl Default for RemoteIndex {
    fn default() -> (r: Self)
        ensures
            r.wf(),
            r.files.entries@.len() == 0,
            r.view() == Map::<Seq<char>, RemoteIndexEntry>::empty(),
    {
        RemoteIndex { files: KeyMap::new() }
    }
}

/// The keys of any key map, in order.
pub fn key_list_of<V>(m: &KeyMap<V>) -> (r: Vec<String>)
    ensures
        strs_view(r@) == keys_of(m.entries@),
{
    let mut v: Vec<String> = Vec::new();
    let mut i: usize = 0;
    assert(strs_view(v@) =~= keys_of(m.entries@).subrange(0, 0));
    while i < m.entries.len()
        invariant
            i <= m.entries@.len(),
            v@.len() == i,
            strs_view(v@) == keys_of(m.entries@).subrange(0, i as int),
        decreases m.entries@.len() - i,
    {
        let k = m.entries[i].0.clone();
        assert(k@ == keys_of(m.entries@)[i as int]);
        let ghost old_v = v@;
        v.push(k);
        assert forall|j: int| 0 <= j < i + 1 implies strs_view(v@)[j] == keys_of(
            m.entries@,
        ).subrange(0, i + 1)[j] by {
            if j < i {
                assert(strs_view(old_v)[j] == keys_of(m.entries@).subrange(0, i as int)[j]);
            }
        }
        assert(strs_view(v@) =~= keys_of(m.entries@).subrange(0, i + 1));
        i = i + 1;
    }
    assert(strs_view(v@) =~= keys_of(m.entries@));
    v
}

/// Views of a sequence of strings.
pub open spec fn strs_view(v: Seq<String>) -> Seq<Seq<char>> {
    Seq::new(v.len(), |i: int| v[i]@)
}

/// Views of a sequence of (path, entry) pairs.
pub open spec fn pairs_view<E>(v: Seq<(String, E)>) -> Seq<(Seq<char>, E)> {
    Seq::new(v.len(), |i: int| (v[i].0@, v[i].1))
}

/// Views of a sequence of (path, path) pairs.
pub open spec fn str_pairs_view(v: Seq<(String, String)>) -> Seq<(Seq<char>, Seq<char>)> {
    Seq::new(v.len(), |i: int| (v[i].0@, v[i].1@))
}

/// Per-file conflict resolutions chosen by the user, keyed by relative
/// path: "local", "remote" or "rename".
pub type ConflictOverrides = KeyMap<String>;

/// The index entry recording a local file.
pub open spec fn entry_of(f: LocalFile) -> RemoteIndexEntry {
    RemoteIndexEntry {
        sha256: f.sha256,
        size: f.size,
        modified_ms: f.modified_ms,
        root_index: f.root_index,
    }
}

/// Index entry for a local file.
pub fn entry_from_local(f: &LocalFile) -> (e: RemoteIndexEntry)
    ensures
        e == entry_of(*f),
{
    RemoteIndexEntry {
        sha256: f.sha256.clone(),
        size: f.size,
        modified_ms: f.modified_ms,
        root_index: f.root_index,
    }
}

/// Local files by relative path; for a path found under two roots the later
/// file wins.
pub open spec fn local_index_map(fs: Seq<LocalFile>) -> Map<Seq<char>, LocalFile>
    decreases fs.len(),
{
    if fs.len() == 0 {
        Map::empty()
    } else {
        local_index_map(fs.drop_last()).insert(fs.last().relative@, fs.last())
    }
}

/// The index describing a set of local files (later files win on a shared
/// path).
pub open spec fn index_map(fs: Seq<LocalFile>) -> Map<Seq<char>, RemoteIndexEntry>
    decreases fs.len(),
{
    if fs.len() == 0 {
        Map::empty()
    } else {
        index_map(fs.drop_last()).insert(fs.last().relative@, entry_of(fs.last()))
    }
}

/// Relative paths present among local files.
pub open spec fn rel_set(fs: Seq<LocalFile>) -> Set<Seq<char>> {
    Set::new(|k: Seq<char>| exists|i: int| 0 <= i < fs.len() && fs[i].relative@ == k)
}

pub proof fn lemma_local_index_dom(fs: Seq<LocalFile>)
    ensures
        local_index_map(fs).dom() == rel_set(fs),
        index_map(fs).dom() == rel_set(fs),
        forall|k: Seq<char>| #[trigger] local_index_map(fs).contains_key(k) ==> index_map(fs)[k]
            == entry_of(local_index_map(fs)[k]) && local_index_map(fs)[k].relative@ == k,
    decreases fs.len(),
{
    if fs.len() > 0 {
        lemma_local_index_dom(fs.drop_last());
        assert forall|k: Seq<char>| rel_set(fs).contains(k) <==> (rel_set(fs.drop_last()).contains(k)
            || k == fs.last().relative@) by {
            if rel_set(fs).contains(k) {
                let i = choose|i: int| 0 <= i < fs.len() && fs[i].relative@ == k;
                if i < fs.len() - 1 {
                    assert(fs.drop_last()[i] == fs[i]);
                }
            }
            if rel_set(fs.drop_last()).contains(k) {
                let i = choose|i: int| 0 <= i < fs.drop_last().len() && fs.drop_last()[i].relative@ == k;
                assert(fs[i] == fs.drop_last()[i]);
            }
            if k == fs.last().relative@ {
                assert(fs[fs.len() - 1].relative@ == k);
            }
        }
        assert(local_index_map(fs).dom() =~= rel_set(fs));
        assert(index_map(fs).dom() =~= rel_set(fs));
    } else {
        assert(rel_set(fs) =~= Set::empty());
        assert(local_index_map(fs).dom() =~= rel_set(fs));
        assert(index_map(fs).dom() =~= rel_set(fs));
    }
}

/// Builds the index describing `files`.
pub fn build_index(files: &Vec<LocalFile>) -> (idx: RemoteIndex)
    ensures
        idx.wf(),
        idx.view() == index_map(files@),
{
    let mut idx = RemoteIndex { files: KeyMap::new() };
    let mut i: usize = 0;
    while i < files.len()
        invariant
            i <= files@.len(),
            idx.wf(),
            idx.view() == index_map(files@.subrange(0, i as int)),
        decreases files@.len() - i,
    {
        let f = &files[i];
        let e = entry_from_local(f);
        idx.files.insert(f.relative.clone(), e);
        assert(files@.subrange(0, i + 1).drop_last() =~= files@.subrange(0, i as int));
        i = i + 1;
    }
    assert(files@.subrange(0, files@.len() as int) =~= files@);
    idx
}

/// Map from relative path to local file (the later file wins on a path
/// shared by two roots).
pub fn index_by_relative(files: &Vec<LocalFile>) -> (m: KeyMap<LocalFile>)
    ensures
        m.wf(),
        m.view_map() == local_index_map(files@),
{
    let mut m: KeyMap<LocalFile> = KeyMap::new();
    let mut i: usize = 0;
    while i < files.len()
        invariant
            i <= files@.len(),
            m.wf(),
            m.view_map() == local_index_map(files@.subrange(0, i as int)),
        decreases files@.len() - i,
    {
        let f = &files[i];
        m.insert(f.relative.clone(), f.clone());
        assert(files@.subrange(0, i + 1).drop_last() =~= files@.subrange(0, i as int));
        i = i + 1;
    }
    assert(files@.subrange(0, files@.len() as int) =~= files@);
    m
}

// ---------------------------------------------------------------------------
// Conflict resolution
// ---------------------------------------------------------------------------

/// How a file changed on both sides is resolved.
#[derive(Debug, Clone, Copy, PartialEq, Eq, Structural)]
pub enum ConflictResolution {
    PickLocal,
    PickRemote,
    RenameBoth,
}

/// The user's explicit choice for `rel`, when it is one of the known words.
pub open spec fn override_choice(ov: Map<Seq<char>, String>, rel: Seq<char>) -> Option<
    ConflictResolution,
> {
    if ov.contains_key(rel) {
        let c = ov[rel]@;
        if c == "local"@ {
            Some(ConflictResolution::PickLocal)
        } else if c == "remote"@ {
            Some(ConflictResolution::PickRemote)
        } else if c == "rename"@ {
            Some(ConflictResolution::RenameBoth)
        } else {
            None
        }
    } else {
        None
    }
}

/// The resolution for a file present on both sides with different content.
/// A user override wins; otherwise a one-sided change is taken as is, and
/// only a change on both sides consults the policy.
pub open spec fn resolve_spec(
    local_mtime: i64,
    remote_mtime: i64,
    local_changed: bool,
    remote_changed: bool,
    policy: ConflictPolicy,
    ov: Map<Seq<char>, String>,
    rel: Seq<char>,
) -> ConflictResolution {
    match override_choice(ov, rel) {
        Some(c) => c,
        None => {
            if local_changed && !remote_changed {
                ConflictResolution::PickLocal
            } else if !local_changed && remote_changed {
                ConflictResolution::PickRemote
            } else {
                match policy {
                    ConflictPolicy::RenameBoth => ConflictResolution::RenameBoth,
                    ConflictPolicy::LocalWins => ConflictResolution::PickLocal,
                    ConflictPolicy::RemoteWins => ConflictResolution::PickRemote,
                    _ => if local_mtime >= remote_mtime {
                        ConflictResolution::PickLocal
                    } else {
                        ConflictResolution::PickRemote
                    },
                }
            }
        },
    }
}

/// Decides a file that differs between local and remote.
pub fn decide_conflict(
    local: &LocalFile,
    remote: &RemoteIndexEntry,
    local_changed: bool,
    remote_changed: bool,
    policy: ConflictPolicy,
    overrides: &ConflictOverrides,
    rel: &str,
) -> (r: ConflictResolution)
    requires
        overrides.wf(),
    ensures
        r == resolve_spec(
            local.modified_ms,
            remote.modified_ms,
            local_changed,
            remote_changed,
            policy,
            overrides.view_map(),
            rel@,
        ),
{
    match overrides.get(rel) {
        Some(choice) => {
            if str_eq(choice.as_str(), "local") {
                return ConflictResolution::PickLocal;
            } else if str_eq(choice.as_str(), "remote") {
                return ConflictResolution::PickRemote;
            } else if str_eq(choice.as_str(), "rename") {
                return ConflictResolution::RenameBoth;
            }
        },
        None => {},
    }
    if local_changed && !remote_changed {
        return ConflictResolution::PickLocal;
    }
    if !local_changed && remote_changed {
        return ConflictResolution::PickRemote;
    }
    match policy {
        ConflictPolicy::RenameBoth => ConflictResolution::RenameBoth,
        ConflictPolicy::LocalWins => ConflictResolution::PickLocal,
        ConflictPolicy::RemoteWins => ConflictResolution::PickRemote,
        ConflictPolicy::NewerWins | ConflictPolicy::Ask => {
            if local.modified_ms >= remote.modified_ms {
                ConflictResolution::PickLocal
            } else {
                ConflictResolution::PickRemote
            }
        },
    }
}

// ---------------------------------------------------------------------------
// Plans
// ---------------------------------------------------------------------------

/// A file changed on both sides, kept under two extra names.
#[derive(Debug)]
pub struct ConflictDescriptor {
    pub rel: String,
    pub local_file: LocalFile,
    /// Name under which the local copy is uploaded as well.
    pub local_rename: String,
    /// Name under which the remote copy is preserved by a server-side copy.
    pub remote_rename: String,
}

/// Everything one sync run will do.
#[derive(Debug)]
pub struct SyncPlan {
    /// Files to upload.
    pub upload: Vec<LocalFile>,
    /// (relative path, remote entry) to download.
    pub download: Vec<(String, RemoteIndexEntry)>,
    /// Relative paths to delete on the remote.
    pub delete_remote: Vec<String>,
    /// (relative path, absolute path) to delete locally.
    pub delete_local: Vec<(String, String)>,
    /// Files kept under both names.
    pub conflicts: Vec<ConflictDescriptor>,
    /// The index to persist once the plan has run.
    pub new_index: RemoteIndex,
    /// Paths already present remotely; only those get archived before an
    /// overwrite.
    pub existing_remote: Vec<String>,
    /// Local save-path roots.
    pub roots: Vec<String>,
}

/// A plan that does nothing.
pub open spec fn plan_is_empty(p: SyncPlan) -> bool {
    &&& p.upload@.len() == 0
    &&& p.download@.len() == 0
    &&& p.delete_remote@.len() == 0
    &&& p.delete_local@.len() == 0
    &&& p.conflicts@.len() == 0
}

fn copy_strings(v: &Vec<String>) -> (r: Vec<String>)
    ensures
        r@ == v@,
{
    let mut out: Vec<String> = Vec::new();
    let mut i: usize = 0;
    while i < v.len()
        invariant
            i <= v@.len(),
            out@ == v@.subrange(0, i as int),
        decreases v@.len() - i,
    {
        out.push(v[i].clone());
        assert(out@ =~= v@.subrange(0, i + 1));
        i = i + 1;
    }
    assert(out@ =~= v@);
    out
}

/// Whether a push must upload `f`: the previous index lacks it or records
/// other content.
pub open spec fn push_changed(f: LocalFile, prev: Map<Seq<char>, RemoteIndexEntry>) -> bool {
    !prev.contains_key(f.relative@) || prev[f.relative@].sha256@ != f.sha256@
}

pub open spec fn push_uploads(fs: Seq<LocalFile>, prev: Map<Seq<char>, RemoteIndexEntry>) -> Seq<
    LocalFile,
>
    decreases fs.len(),
{
    if fs.len() == 0 {
        Seq::empty()
    } else {
        let r = push_uploads(fs.drop_last(), prev);
        if push_changed(fs.last(), prev) {
            r.push(fs.last())
        } else {
            r
        }
    }
}

/// Keys of `es`, in order, that are not in `present`.
pub open spec fn missing_keys<E>(es: Seq<(String, E)>, present: Set<Seq<char>>) -> Seq<Seq<char>>
    decreases es.len(),
{
    if es.len() == 0 {
        Seq::empty()
    } else {
        let r = missing_keys(es.drop_last(), present);
        if present.contains(es.last().0@) {
            r
        } else {
            r.push(es.last().0@)
        }
    }
}

/// Push: local is authoritative and the remote mirrors it.  Changed or new
/// files are uploaded, remote files no longer present locally are deleted,
/// and the new index describes exactly the local files.
pub fn plan_push(
    local_files: &Vec<LocalFile>,
    prev: &RemoteIndex,
    existing: &Vec<String>,
    roots: &Vec<String>,
) -> (plan: SyncPlan)
    requires
        prev.wf(),
    ensures
        plan.upload@ == push_uploads(local_files@, prev.view()),
        strs_view(plan.delete_remote@) == missing_keys(prev.files.entries@, rel_set(local_files@)),
        plan.download@.len() == 0,
        plan.delete_local@.len() == 0,
        plan.conflicts@.len() == 0,
        plan.new_index.wf(),
        plan.new_index.view() == index_map(local_files@),
        plan.existing_remote@ == existing@,
        plan.roots@ == roots@,
{
    let mut upload: Vec<LocalFile> = Vec::new();
    let local_keys = index_by_relative(local_files);
    proof {
        lemma_local_index_dom(local_files@);
        lemma_entries_map(local_keys.entries@);
    }
    let mut i: usize = 0;
    while i < local_files.len()
        invariant
            i <= local_files@.len(),
            prev.wf(),
            upload@ == push_uploads(local_files@.subrange(0, i as int), prev.view()),
        decreases local_files@.len() - i,
    {
        let f = &local_files[i];
        let changed = match prev.files.get(f.relative.as_str()) {
            Some(e) => !str_eq(e.sha256.as_str(), f.sha256.as_str()),
            None => true,
        };
        if changed {
            upload.push(f.clone());
        }
        assert(local_files@.subrange(0, i + 1).drop_last() =~= local_files@.subrange(0, i as int));
        i = i + 1;
    }
    assert(local_files@.subrange(0, local_files@.len() as int) =~= local_files@);
    let mut delete_remote: Vec<String> = Vec::new();
    let mut j: usize = 0;
    while j < prev.files.entries.len()
        invariant
            j <= prev.files.entries@.len(),
            local_keys.wf(),
            local_keys.view_map().dom() == rel_set(local_files@),
            strs_view(delete_remote@) == missing_keys(
                prev.files.entries@.subrange(0, j as int),
                rel_set(local_files@),
            ),
        decreases prev.files.entries@.len() - j,
    {
        let k = &prev.files.entries[j].0;
        let ghost before = delete_remote@;
        if !local_keys.contains_key(k.as_str()) {
            delete_remote.push(k.clone());
        }
        assert(prev.files.entries@.subrange(0, j + 1).drop_last() =~= prev.files.entries@.subrange(
            0,
            j as int,
        ));
        assert(strs_view(delete_remote@) =~= missing_keys(
            prev.files.entries@.subrange(0, j + 1),
            rel_set(local_files@),
        ));
        j = j + 1;
    }
    assert(prev.files.entries@.subrange(0, prev.files.entries@.len() as int) =~= prev.files.entries@);
    SyncPlan {
        upload,
        download: Vec::new(),
        delete_remote,
        delete_local: Vec::new(),
        conflicts: Vec::new(),
        new_index: build_index(local_files),
        existing_remote: copy_strings(existing),
        roots: copy_strings(roots),
    }
}

/// Whether a pull must download the remote entry `(k, e)`: the local file
/// is missing or holds other content.
pub open spec fn pull_wanted(k: Seq<char>, e: RemoteIndexEntry, lmap: Map<Seq<char>, LocalFile>) -> bool {
    !lmap.contains_key(k) || lmap[k].sha256@ != e.sha256@
}

pub open spec fn pull_downloads(
    es: Seq<(String, RemoteIndexEntry)>,
    lmap: Map<Seq<char>, LocalFile>,
) -> Seq<(Seq<char>, RemoteIndexEntry)>
    decreases es.len(),
{
    if es.len() == 0 {
        Seq::empty()
    } else {
        let r = pull_downloads(es.drop_last(), lmap);
        if pull_wanted(es.last().0@, es.last().1, lmap) {
            r.push((es.last().0@, es.last().1))
        } else {
            r
        }
    }
}

/// Local files a pull deletes: known to the previous sync but gone from the
/// remote.  Files the previous sync never saw are left alone.
pub open spec fn pull_delete_local(
    fs: Seq<LocalFile>,
    prior: Map<Seq<char>, RemoteIndexEntry>,
    remote: Map<Seq<char>, RemoteIndexEntry>,
) -> Seq<(Seq<char>, Seq<char>)>
    decreases fs.len(),
{
    if fs.len() == 0 {
        Seq::empty()
    } else {
        let r = pull_delete_local(fs.drop_last(), prior, remote);
        let f = fs.last();
        if prior.contains_key(f.relative@) && !remote.contains_key(f.relative@) {
            r.push((f.relative@, f.absolute@))
        } else {
            r
        }
    }
}

/// Pull: the remote is authoritative and local mirrors it.  With an empty
/// remote index nothing happens at all.
pub fn plan_pull(
    local_files: &Vec<LocalFile>,
    remote_index: &RemoteIndex,
    prior: &RemoteIndex,
    roots: &Vec<String>,
) -> (plan: SyncPlan)
    requires
        remote_index.wf(),
        prior.wf(),
    ensures
        plan.upload@.len() == 0,
        plan.delete_remote@.len() == 0,
        plan.conflicts@.len() == 0,
        plan.roots@ == roots@,
        plan.new_index.wf(),
        remote_index.files.entries@.len() == 0 ==> {
            &&& plan.download@.len() == 0
            &&& plan.delete_local@.len() == 0
            &&& plan.new_index.files.entries@.len() == 0
            &&& plan.existing_remote@.len() == 0
        },
        remote_index.files.entries@.len() > 0 ==> {
            &&& pairs_view(plan.download@) == pull_downloads(
                remote_index.files.entries@,
                local_index_map(local_files@),
            )
            &&& str_pairs_view(plan.delete_local@) == pull_delete_local(
                local_files@,
                prior.view(),
                remote_index.view(),
            )
            &&& plan.new_index.files.entries@ == remote_index.files.entries@
            &&& strs_view(plan.existing_remote@) == keys_of(remote_index.files.entries@)
        },
{
    if remote_index.files.is_empty() {
        return SyncPlan {
            upload: Vec::new(),
            download: Vec::new(),
            delete_remote: Vec::new(),
            delete_local: Vec::new(),
            conflicts: Vec::new(),
            new_index: RemoteIndex { files: KeyMap::new() },
            existing_remote: Vec::new(),
            roots: copy_strings(roots),
        };
    }
    let local_idx = index_by_relative(local_files);
    let es = &remote_index.files.entries;
    let mut download: Vec<(String, RemoteIndexEntry)> = Vec::new();
    let mut j: usize = 0;
    assert(pairs_view(download@) =~= pull_downloads(es@.subrange(0, 0), local_idx.view_map()));
    while j < es.len()
        invariant
            j <= es@.len(),
            local_idx.wf(),
            local_idx.view_map() == local_index_map(local_files@),
            pairs_view(download@) == pull_downloads(es@.subrange(0, j as int), local_idx.view_map()),
        decreases es@.len() - j,
    {
        let k = &es[j].0;
        let e = &es[j].1;
        let wanted = match local_idx.get(k.as_str()) {
            Some(lf) => !str_eq(lf.sha256.as_str(), e.sha256.as_str()),
            None => true,
        };
        if wanted {
            download.push((k.clone(), e.clone()));
        }
        assert(es@.subrange(0, j + 1).drop_last() =~= es@.subrange(0, j as int));
        assert(pairs_view(download@) =~= pull_downloads(
            es@.subrange(0, j + 1),
            local_idx.view_map(),
        ));
        j = j + 1;
    }
    assert(es@.subrange(0, es@.len() as int) =~= es@);
    let mut delete_local: Vec<(String, String)> = Vec::new();
    let mut i: usize = 0;
    assert(str_pairs_view(delete_local@) =~= pull_delete_local(
        local_files@.subrange(0, 0),
        prior.view(),
        remote_index.view(),
    ));
    while i < local_files.len()
        invariant
            i <= local_files@.len(),
            prior.wf(),
            remote_index.wf(),
            str_pairs_view(delete_local@) == pull_delete_local(
                local_files@.subrange(0, i as int),
                prior.view(),
                remote_index.view(),
            ),
        decreases local_files@.len() - i,
    {
        let f = &local_files[i];
        if prior.files.contains_key(f.relative.as_str()) && !remote_index.files.contains_key(
            f.relative.as_str(),
        ) {
            delete_local.push((f.relative.clone(), f.absolute.clone()));
        }
        assert(local_files@.subrange(0, i + 1).drop_last() =~= local_files@.subrange(0, i as int));
        assert(str_pairs_view(delete_local@) =~= pull_delete_local(
            local_files@.subrange(0, i + 1),
            prior.view(),
            remote_index.view(),
        ));
        i = i + 1;
    }
    assert(local_files@.subrange(0, local_files@.len() as int) =~= local_files@);
    SyncPlan {
        upload: Vec::new(),
        download,
        delete_remote: Vec::new(),
        delete_local,
        conflicts: Vec::new(),
        new_index: remote_index.duplicate(),
        existing_remote: remote_index.key_list(),
        roots: copy_strings(roots),
    }
}

// ---------------------------------------------------------------------------
// Two-way planning
// ---------------------------------------------------------------------------

/// What a two-way sync does with one relative path.
#[derive(Debug)]
pub enum KeyAction {
    /// Same content on both sides: only recorded in the new index.
    Same(LocalFile),
    /// Upload the local file.
    Upload(LocalFile),
    /// Download the remote entry.
    Download(RemoteIndexEntry),
    /// Changed on both sides: keep both, the local copy (newer or equal
    /// mtime) becomes the live one.
    KeepBothLocal(LocalFile),
    /// Changed on both sides: keep both, the remote copy (newer) becomes the
    /// live one.
    KeepBothRemote(LocalFile, RemoteIndexEntry),
    /// Deleted remotely since the previous sync: delete locally.
    DeleteLocal(LocalFile),
    /// Deleted locally since the previous sync: delete remotely.
    DeleteRemote,
}

pub open spec fn get_opt<V>(m: Map<Seq<char>, V>, k: Seq<char>) -> Option<V> {
    if m.contains_key(k) {
        Some(m[k])
    } else {
        None
    }
}

pub open spec fn deref_opt<V>(o: Option<&V>) -> Option<V> {
    match o {
        Some(v) => Some(*v),
        None => None,
    }
}

/// The two-way decision for one path, given the local file, the remote
/// entry and the entry recorded by the previous sync (each possibly absent).
pub open spec fn key_action(
    rel: Seq<char>,
    l: Option<LocalFile>,
    r: Option<RemoteIndexEntry>,
    p: Option<RemoteIndexEntry>,
    policy: ConflictPolicy,
    ov: Map<Seq<char>, String>,
) -> KeyAction {
    match (l, r) {
        (Some(lf), Some(re)) => {
            if lf.sha256@ == re.sha256@ {
                KeyAction::Same(lf)
            } else {
                let local_changed = match p {
                    Some(pe) => pe.sha256@ != lf.sha256@,
                    None => true,
                };
                let remote_changed = match p {
                    Some(pe) => pe.sha256@ != re.sha256@,
                    None => true,
                };
                match resolve_spec(
                    lf.modified_ms,
                    re.modified_ms,
                    local_changed,
                    remote_changed,
                    policy,
                    ov,
                    rel,
                ) {
                    ConflictResolution::PickLocal => KeyAction::Upload(lf),
                    ConflictResolution::PickRemote => KeyAction::Download(re),
                    ConflictResolution::RenameBoth => if lf.modified_ms >= re.modified_ms {
                        KeyAction::KeepBothLocal(lf)
                    } else {
                        KeyAction::KeepBothRemote(lf, re)
                    },
                }
            }
        },
        (Some(lf), None) => if p is None {
            KeyAction::Upload(lf)
        } else {
            KeyAction::DeleteLocal(lf)
        },
        (None, Some(re)) => if p is None {
            KeyAction::Download(re)
        } else {
            KeyAction::DeleteRemote
        },
        (None, None) => KeyAction::DeleteRemote,
    }
}

/// The decision for one path.
pub fn decide_key(
    rel: &str,
    l: Option<&LocalFile>,
    r: Option<&RemoteIndexEntry>,
    p: Option<&RemoteIndexEntry>,
    policy: ConflictPolicy,
    overrides: &ConflictOverrides,
) -> (a: KeyAction)
    requires
        overrides.wf(),
    ensures
        a == key_action(rel@, deref_opt(l), deref_opt(r), deref_opt(p), policy, overrides.view_map()),
{
    match (l, r) {
        (Some(lf), Some(re)) => {
            if str_eq(lf.sha256.as_str(), re.sha256.as_str()) {
                KeyAction::Same(lf.clone())
            } else {
                let local_changed = match p {
                    Some(pe) => !str_eq(pe.sha256.as_str(), lf.sha256.as_str()),
                    None => true,
                };
                let remote_changed = match p {
                    Some(pe) => !str_eq(pe.sha256.as_str(), re.sha256.as_str()),
                    None => true,
                };
                match decide_conflict(lf, re, local_changed, remote_changed, policy, overrides, rel) {
                    ConflictResolution::PickLocal => KeyAction::Upload(lf.clone()),
                    ConflictResolution::PickRemote => KeyAction::Download(re.clone()),
                    ConflictResolution::RenameBoth => {
                        if lf.modified_ms >= re.modified_ms {
                            KeyAction::KeepBothLocal(lf.clone())
                        } else {
                            KeyAction::KeepBothRemote(lf.clone(), re.clone())
                        }
                    },
                }
            }
        },
        (Some(lf), None) => {
            if p.is_none() {
                KeyAction::Upload(lf.clone())
            } else {
                KeyAction::DeleteLocal(lf.clone())
            }
        },
        (None, Some(re)) => {
            if p.is_none() {
                KeyAction::Download(re.clone())
            } else {
                KeyAction::DeleteRemote
            }
        },
        (None, None) => KeyAction::DeleteRemote,
    }
}

/// The actions of a two-way sync, one per path known locally or remotely,
/// in path order.
pub open spec fn two_way_actions(
    lmap: Map<Seq<char>, LocalFile>,
    rmap: Map<Seq<char>, RemoteIndexEntry>,
    pmap: Map<Seq<char>, RemoteIndexEntry>,
    policy: ConflictPolicy,
    ov: Map<Seq<char>, String>,
) -> Seq<(Seq<char>, KeyAction)> {
    sorted_seq_of(lmap.dom().union(rmap.dom())).map_values(
        |k: Seq<char>|
            (k, key_action(k, get_opt(lmap, k), get_opt(rmap, k), get_opt(pmap, k), policy, ov)),
    )
}

pub open spec fn tw_uploads(acts: Seq<(Seq<char>, KeyAction)>) -> Seq<LocalFile>
    decreases acts.len(),
{
    if acts.len() == 0 {
        Seq::empty()
    } else {
        let r = tw_uploads(acts.drop_last());
        match acts.last().1 {
            KeyAction::Upload(f) => r.push(f),
            KeyAction::KeepBothLocal(f) => r.push(f),
            _ => r,
        }
    }
}

pub open spec fn tw_downloads(acts: Seq<(Seq<char>, KeyAction)>) -> Seq<
    (Seq<char>, RemoteIndexEntry),
>
    decreases acts.len(),
{
    if acts.len() == 0 {
        Seq::empty()
    } else {
        let r = tw_downloads(acts.drop_last());
        let k = acts.last().0;
        match acts.last().1 {
            KeyAction::Download(e) => r.push((k, e)),
            KeyAction::KeepBothRemote(_, e) => r.push((k, e)),
            _ => r,
        }
    }
}

pub open spec fn tw_delete_remote(acts: Seq<(Seq<char>, KeyAction)>) -> Seq<Seq<char>>
    decreases acts.len(),
{
    if acts.len() == 0 {
        Seq::empty()
    } else {
        let r = tw_delete_remote(acts.drop_last());
        match acts.last().1 {
            KeyAction::DeleteRemote => r.push(acts.last().0),
            _ => r,
        }
    }
}

pub open spec fn tw_delete_local(acts: Seq<(Seq<char>, KeyAction)>) -> Seq<(Seq<char>, Seq<char>)>
    decreases acts.len(),
{
    if acts.len() == 0 {
        Seq::empty()
    } else {
        let r = tw_delete_local(acts.drop_last());
        match acts.last().1 {
            KeyAction::DeleteLocal(f) => r.push((acts.last().0, f.absolute@)),
            _ => r,
        }
    }
}

/// Conflict descriptors: (path, local file, local rename, remote rename),
/// the renames being `<path>.local-<stamp>` and `<path>.remote-<stamp>`.
pub open spec fn tw_conflicts(acts: Seq<(Seq<char>, KeyAction)>, stamp: Seq<char>) -> Seq<
    (Seq<char>, LocalFile, Seq<char>, Seq<char>),
>
    decreases acts.len(),
{
    if acts.len() == 0 {
        Seq::empty()
    } else {
        let r = tw_conflicts(acts.drop_last(), stamp);
        let k = acts.last().0;
        match acts.last().1 {
            KeyAction::KeepBothLocal(f) => r.push(
                (k, f, k + ".local-"@ + stamp, k + ".remote-"@ + stamp),
            ),
            KeyAction::KeepBothRemote(f, _) => r.push(
                (k, f, k + ".local-"@ + stamp, k + ".remote-"@ + stamp),
            ),
            _ => r,
        }
    }
}

/// The index after a two-way sync: every path that is not deleted, with the
/// entry of whichever side is now live.
pub open spec fn tw_index(acts: Seq<(Seq<char>, KeyAction)>) -> Map<Seq<char>, RemoteIndexEntry>
    decreases acts.len(),
{
    if acts.len() == 0 {
        Map::empty()
    } else {
        let r = tw_index(acts.drop_last());
        let k = acts.last().0;
        match acts.last().1 {
            KeyAction::Same(f) => r.insert(k, entry_of(f)),
            KeyAction::Upload(f) => r.insert(k, entry_of(f)),
            KeyAction::KeepBothLocal(f) => r.insert(k, entry_of(f)),
            KeyAction::Download(e) => r.insert(k, e),
            KeyAction::KeepBothRemote(_, e) => r.insert(k, e),
            _ => r,
        }
    }
}

pub open spec fn conflicts_view(v: Seq<ConflictDescriptor>) -> Seq<
    (Seq<char>, LocalFile, Seq<char>, Seq<char>),
> {
    Seq::new(
        v.len(),
        |i: int| (v[i].rel@, v[i].local_file, v[i].local_rename@, v[i].remote_rename@),
    )
}

/// One more element of a prefix is the only new member.
pub(crate) proof fn lemma_prefix_contains_step(ks: Seq<Seq<char>>, i: int)
    requires
        0 <= i < ks.len(),
    ensures
        forall|x: Seq<char>|
            ks.subrange(0, i + 1).contains(x) <==> (ks.subrange(0, i).contains(x) || x == ks[i]),
{
    assert forall|x: Seq<char>|
        ks.subrange(0, i + 1).contains(x) <==> (ks.subrange(0, i).contains(x) || x == ks[i]) by {
        if ks.subrange(0, i + 1).contains(x) {
            let w = ks.subrange(0, i + 1).index_of(x);
            if w < i {
                assert(ks.subrange(0, i)[w] == x);
            }
        }
        if ks.subrange(0, i).contains(x) {
            let w = ks.subrange(0, i).index_of(x);
            assert(ks.subrange(0, i + 1)[w] == x);
        }
        if x == ks[i] {
            assert(ks.subrange(0, i + 1)[i] == x);
        }
    }
}

/// The sorted union of the local and remote paths.
fn union_keys(a: &KeyMap<LocalFile>, b: &KeyMap<RemoteIndexEntry>) -> (u: KeyMap<bool>)
    requires
        a.wf(),
        b.wf(),
    ensures
        u.wf(),
        keys_of(u.entries@) == sorted_seq_of(a.view_map().dom().union(b.view_map().dom())),
{
    let mut u: KeyMap<bool> = KeyMap::new();
    proof {
        lemma_entries_map(a.entries@);
        lemma_entries_map(b.entries@);
    }
    let mut i: usize = 0;
    assert(u.view_map().dom() =~= Set::new(|k: Seq<char>| keys_of(a.entries@).subrange(0, 0).contains(k)));
    while i < a.entries.len()
        invariant
            i <= a.entries@.len(),
            u.wf(),
            u.view_map().dom() == Set::new(
                |k: Seq<char>| keys_of(a.entries@).subrange(0, i as int).contains(k),
            ),
        decreases a.entries@.len() - i,
    {
        let k = a.entries[i].0.clone();
        assert(k@ == keys_of(a.entries@)[i as int]);
        let ghost old_dom = u.view_map().dom();
        let ghost kv = k@;
        u.insert(k, true);
        assert(u.view_map().dom() =~= old_dom.insert(kv));
        let ghost ks = keys_of(a.entries@);
        assert(ks.subrange(0, i + 1) =~= ks.subrange(0, i as int).push(ks[i as int]));
        proof {
            lemma_prefix_contains_step(ks, i as int);
        }
        assert forall|x: Seq<char>| u.view_map().dom().contains(x) <==> keys_of(a.entries@).subrange(
            0,
            i + 1,
        ).contains(x) by {
            assert(old_dom.contains(x) <==> ks.subrange(0, i as int).contains(x));
        }
        assert(u.view_map().dom() =~= Set::new(
            |k: Seq<char>| keys_of(a.entries@).subrange(0, i + 1).contains(k),
        ));
        i = i + 1;
    }
    assert(keys_of(a.entries@).subrange(0, a.entries@.len() as int) =~= keys_of(a.entries@));
    assert(u.view_map().dom() =~= a.view_map().dom());
    let mut j: usize = 0;
    assert(u.view_map().dom() =~= a.view_map().dom().union(
        Set::new(|k: Seq<char>| keys_of(b.entries@).subrange(0, 0).contains(k)),
    ));
    while j < b.entries.len()
        invariant
            j <= b.entries@.len(),
            u.wf(),
            u.view_map().dom() == a.view_map().dom().union(
                Set::new(|k: Seq<char>| keys_of(b.entries@).subrange(0, j as int).contains(k)),
            ),
        decreases b.entries@.len() - j,
    {
        let k = b.entries[j].0.clone();
        assert(k@ == keys_of(b.entries@)[j as int]);
        let ghost old_dom = u.view_map().dom();
        let ghost kv = k@;
        u.insert(k, true);
        assert(u.view_map().dom() =~= old_dom.insert(kv));
        let ghost ks = keys_of(b.entries@);
        proof {
            lemma_prefix_contains_step(ks, j as int);
        }
        assert forall|x: Seq<char>| u.view_map().dom().contains(x) <==> (a.view_map().dom().contains(x)
            || keys_of(b.entries@).subrange(0, j + 1).contains(x)) by {
            assert(old_dom.contains(x) <==> (a.view_map().dom().contains(x) || ks.subrange(
                0,
                j as int,
            ).contains(x)));
        }
        assert(u.view_map().dom() =~= a.view_map().dom().union(
            Set::new(|k: Seq<char>| keys_of(b.entries@).subrange(0, j + 1).contains(k)),
        ));
        j = j + 1;
    }
    assert(keys_of(b.entries@).subrange(0, b.entries@.len() as int) =~= keys_of(b.entries@));
    assert(u.view_map().dom() =~= a.view_map().dom().union(b.view_map().dom()));
    proof {
        crate::keymap::lemma_keys_are_sorted_domain(u.entries@);
    }
    u
}

/// Two-way sync.  Per path (in path order): identical content is only
/// recorded; a file on one side only is copied over if the previous sync
/// did not know it and deleted otherwise; a file differing on both sides is
/// resolved by `resolve_spec`, where "rename both" keeps the newer copy live
/// and preserves the other under `.local-<stamp>` / `.remote-<stamp>`.
pub fn plan_two_way(
    local_files: &Vec<LocalFile>,
    remote_index: &RemoteIndex,
    prior: &RemoteIndex,
    roots: &Vec<String>,
    policy: ConflictPolicy,
    overrides: &ConflictOverrides,
    stamp: &str,
) -> (plan: SyncPlan)
    requires
        remote_index.wf(),
        prior.wf(),
        overrides.wf(),
    ensures
        ({
            let acts = two_way_actions(
                local_index_map(local_files@),
                remote_index.view(),
                prior.view(),
                policy,
                overrides.view_map(),
            );
            &&& plan.upload@ == tw_uploads(acts)
            &&& pairs_view(plan.download@) == tw_downloads(acts)
            &&& strs_view(plan.delete_remote@) == tw_delete_remote(acts)
            &&& str_pairs_view(plan.delete_local@) == tw_delete_local(acts)
            &&& conflicts_view(plan.conflicts@) == tw_conflicts(acts, stamp@)
            &&& plan.new_index.wf()
            &&& plan.new_index.view() == tw_index(acts)
        }),
        strs_view(plan.existing_remote@) == keys_of(remote_index.files.entries@),
        plan.roots@ == roots@,
{
    let local_idx = index_by_relative(local_files);
    let all = union_keys(&local_idx, &remote_index.files);
    let ghost acts = two_way_actions(
        local_index_map(local_files@),
        remote_index.view(),
        prior.view(),
        policy,
        overrides.view_map(),
    );
    let ghost keys = keys_of(all.entries@);
    assert(acts.len() == keys.len());
    let mut upload: Vec<LocalFile> = Vec::new();
    let mut download: Vec<(String, RemoteIndexEntry)> = Vec::new();
    let mut delete_remote: Vec<String> = Vec::new();
    let mut delete_local: Vec<(String, String)> = Vec::new();
    let mut conflicts: Vec<ConflictDescriptor> = Vec::new();
    let mut new_index = RemoteIndex { files: KeyMap::new() };
    let mut i: usize = 0;
    assert(pairs_view(download@) =~= tw_downloads(acts.subrange(0, 0)));
    assert(strs_view(delete_remote@) =~= tw_delete_remote(acts.subrange(0, 0)));
    assert(str_pairs_view(delete_local@) =~= tw_delete_local(acts.subrange(0, 0)));
    assert(conflicts_view(conflicts@) =~= tw_conflicts(acts.subrange(0, 0), stamp@));
    assert(upload@ =~= tw_uploads(acts.subrange(0, 0)));
    assert(new_index.view() =~= tw_index(acts.subrange(0, 0)));
    while i < all.entries.len()
        invariant
            i <= all.entries@.len(),
            keys == keys_of(all.entries@),
            acts.len() == keys.len(),
            acts == two_way_actions(
                local_index_map(local_files@),
                remote_index.view(),
                prior.view(),
                policy,
                overrides.view_map(),
            ),
            keys == sorted_seq_of(local_idx.view_map().dom().union(remote_index.view().dom())),
            local_idx.wf(),
            local_idx.view_map() == local_index_map(local_files@),
            remote_index.wf(),
            prior.wf(),
            overrides.wf(),
            new_index.wf(),
            upload@ == tw_uploads(acts.subrange(0, i as int)),
            pairs_view(download@) == tw_downloads(acts.subrange(0, i as int)),
            strs_view(delete_remote@) == tw_delete_remote(acts.subrange(0, i as int)),
            str_pairs_view(delete_local@) == tw_delete_local(acts.subrange(0, i as int)),
            conflicts_view(conflicts@) == tw_conflicts(acts.subrange(0, i as int), stamp@),
            new_index.view() == tw_index(acts.subrange(0, i as int)),
        decreases all.entries@.len() - i,
    {
        let key = &all.entries[i].0;
        let act = decide_key(
            key.as_str(),
            local_idx.get(key.as_str()),
            remote_index.files.get(key.as_str()),
            prior.files.get(key.as_str()),
            policy,
            overrides,
        );
        let ghost pre = acts.subrange(0, i as int);
        let ghost post = acts.subrange(0, i + 1);
        assert(keys[i as int] == key@);
        assert(acts[i as int] == (key@, act));
        assert(post.drop_last() =~= pre);
        assert(post.last() == (key@, act));
        let ghost dl0 = download@;
        let ghost dr0 = delete_remote@;
        let ghost dlo0 = delete_local@;
        let ghost c0 = conflicts@;
        match act {
            KeyAction::Same(f) => {
                let e = entry_from_local(&f);
                new_index.files.insert(key.clone(), e);
            },
            KeyAction::Upload(f) => {
                let e = entry_from_local(&f);
                new_index.files.insert(key.clone(), e);
                upload.push(f);
            },
            KeyAction::Download(e) => {
                download.push((key.clone(), e.clone()));
                new_index.files.insert(key.clone(), e);
            },
            KeyAction::KeepBothLocal(f) => {
                let e = entry_from_local(&f);
                conflicts.push(
                    ConflictDescriptor {
                        rel: key.clone(),
                        local_file: f.clone(),
                        local_rename: concat3(key.as_str(), ".local-", stamp),
                        remote_rename: concat3(key.as_str(), ".remote-", stamp),
                    },
                );
                upload.push(f);
                new_index.files.insert(key.clone(), e);
            },
            KeyAction::KeepBothRemote(f, e) => {
                conflicts.push(
                    ConflictDescriptor {
                        rel: key.clone(),
                        local_file: f,
                        local_rename: concat3(key.as_str(), ".local-", stamp),
                        remote_rename: concat3(key.as_str(), ".remote-", stamp),
                    },
                );
                download.push((key.clone(), e.clone()));
                new_index.files.insert(key.clone(), e);
            },
            KeyAction::DeleteLocal(f) => {
                delete_local.push((key.clone(), f.absolute));
            },
            KeyAction::DeleteRemote => {
                delete_remote.push(key.clone());
            },
        }
        assert(pairs_view(download@) =~= tw_downloads(post));
        assert(strs_view(delete_remote@) =~= tw_delete_remote(post));
        assert(str_pairs_view(delete_local@) =~= tw_delete_local(post));
        assert(conflicts_view(conflicts@) =~= tw_conflicts(post, stamp@));
        assert(upload@ =~= tw_uploads(post));
        i = i + 1;
    }
    assert(acts.subrange(0, acts.len() as int) =~= acts);
    SyncPlan {
        upload,
        download,
        delete_remote,
        delete_local,
        conflicts,
        new_index,
        existing_remote: remote_index.key_list(),
        roots: copy_strings(roots),
    }
}

// ---------------------------------------------------------------------------
// Choosing the plan
// ---------------------------------------------------------------------------

/// What `plan_push` promises of its plan.
pub open spec fn is_push_plan(
    plan: SyncPlan,
    fs: Seq<LocalFile>,
    prev: RemoteIndex,
    roots: Seq<String>,
) -> bool {
    &&& plan.upload@ == push_uploads(fs, prev.view())
    &&& strs_view(plan.delete_remote@) == missing_keys(prev.files.entries@, rel_set(fs))
    &&& plan.download@.len() == 0
    &&& plan.delete_local@.len() == 0
    &&& plan.conflicts@.len() == 0
    &&& plan.new_index.wf()
    &&& plan.new_index.view() == index_map(fs)
    &&& strs_view(plan.existing_remote@) == keys_of(prev.files.entries@)
    &&& plan.roots@ == roots
}

/// What `plan_pull` promises of its plan.
pub open spec fn is_pull_plan(
    plan: SyncPlan,
    fs: Seq<LocalFile>,
    remote: RemoteIndex,
    prior: RemoteIndex,
    roots: Seq<String>,
) -> bool {
    &&& plan.upload@.len() == 0
    &&& plan.delete_remote@.len() == 0
    &&& plan.conflicts@.len() == 0
    &&& plan.roots@ == roots
    &&& plan.new_index.wf()
    &&& remote.files.entries@.len() == 0 ==> {
        &&& plan.download@.len() == 0
        &&& plan.delete_local@.len() == 0
        &&& plan.new_index.files.entries@.len() == 0
        &&& plan.existing_remote@.len() == 0
    }
    &&& remote.files.entries@.len() > 0 ==> {
        &&& pairs_view(plan.download@) == pull_downloads(
            remote.files.entries@,
            local_index_map(fs),
        )
        &&& str_pairs_view(plan.delete_local@) == pull_delete_local(fs, prior.view(), remote.view())
        &&& plan.new_index.files.entries@ == remote.files.entries@
        &&& strs_view(plan.existing_remote@) == keys_of(remote.files.entries@)
    }
}

/// What `plan_two_way` promises of its plan for a given conflict suffix.
pub open spec fn is_two_way_plan(
    plan: SyncPlan,
    fs: Seq<LocalFile>,
    remote: RemoteIndex,
    prior: RemoteIndex,
    roots: Seq<String>,
    policy: ConflictPolicy,
    ov: Map<Seq<char>, String>,
    stamp: Seq<char>,
) -> bool {
    let acts = two_way_actions(local_index_map(fs), remote.view(), prior.view(), policy, ov);
    &&& plan.upload@ == tw_uploads(acts)
    &&& pairs_view(plan.download@) == tw_downloads(acts)
    &&& strs_view(plan.delete_remote@) == tw_delete_remote(acts)
    &&& str_pairs_view(plan.delete_local@) == tw_delete_local(acts)
    &&& conflicts_view(plan.conflicts@) == tw_conflicts(acts, stamp)
    &&& plan.new_index.wf()
    &&& plan.new_index.view() == tw_index(acts)
    &&& strs_view(plan.existing_remote@) == keys_of(remote.files.entries@)
    &&& plan.roots@ == roots
}

/// Plans a sync in the given direction: push and pull mirror one side onto
/// the other, `Auto` reconciles both, naming conflict copies after the
/// current moment (which fails when the system clock is unusable).  Every
/// remote path counts as existing (so overwriting it archives the old copy
/// first).
pub fn plan_for_direction(
    direction: crate::model::SyncDirection,
    local_files: &Vec<LocalFile>,
    remote_index: &RemoteIndex,
    prior: &RemoteIndex,
    roots: &Vec<String>,
    policy: ConflictPolicy,
    overrides: &ConflictOverrides,
) -> (r: Result<SyncPlan, crate::error::AppError>)
    requires
        remote_index.wf(),
        prior.wf(),
        overrides.wf(),
    ensures
        direction != crate::model::SyncDirection::Auto ==> r is Ok,
        r matches Err(e) ==> (direction == crate::model::SyncDirection::Auto && (e matches crate::error::AppError::Other(m)
            && m@ == crate::clock::clock_message())),
        r matches Ok(plan) ==> direction == crate::model::SyncDirection::Push ==> is_push_plan(
            plan,
            local_files@,
            *remote_index,
            roots@,
        ),
        r matches Ok(plan) ==> direction == crate::model::SyncDirection::Pull ==> is_pull_plan(
            plan,
            local_files@,
            *remote_index,
            *prior,
            roots@,
        ),
        r matches Ok(plan) ==> direction == crate::model::SyncDirection::Auto ==> exists|ms: int|
            0 <= ms <= crate::clock::MAX_UTC_MS && is_two_way_plan(
                plan,
                local_files@,
                *remote_index,
                *prior,
                roots@,
                policy,
                overrides.view_map(),
                #[trigger] crate::clock::conflict_suffix_spec(ms),
            ),
{
    match direction {
        crate::model::SyncDirection::Push => {
            let existing = remote_index.key_list();
            Ok(plan_push(local_files, remote_index, &existing, roots))
        },
        crate::model::SyncDirection::Pull => Ok(plan_pull(local_files, remote_index, prior, roots)),
        crate::model::SyncDirection::Auto => {
            let stamp = match crate::clock::conflict_suffix() {
                Ok(s) => s,
                Err(e) => {
                    return Err(e);
                },
            };
            Ok(plan_two_way(local_files, remote_index, prior, roots, policy, overrides, stamp.as_str()))
        },
    }
}

// ---------------------------------------------------------------------------
// Remote layout
// ---------------------------------------------------------------------------

/// Characters that cannot appear in a remote folder name.
pub open spec fn is_path_hostile(c: char) -> bool {
    c == '/' || c == '\\' || c == ':' || c == '*' || c == '?' || c == '"' || c == '<' || c == '>'
        || c == '|'
}

/// `name` without path-hostile and control characters.
pub open spec fn strip_hostile(s: Seq<char>) -> Seq<char>
    decreases s.len(),
{
    if s.len() == 0 {
        Seq::empty()
    } else {
        let r = strip_hostile(s.drop_last());
        if is_path_hostile(s.last()) || crate::text::is_ctrl(s.last()) {
            r
        } else {
            r.push(s.last())
        }
    }
}

/// Eight hex characters of SHA-256 over the id and name bytes.
pub open spec fn short_hash(id: Seq<char>, name: Seq<char>) -> Seq<char> {
    crate::digest::hex_lower(
        crate::digest::sha256_of(
            vstd::utf8::encode_utf8(id) + vstd::utf8::encode_utf8(name),
        ).subrange(0, 4),
    )
}

/// The folder name derived from a game's id and display name: the cleaned
/// name followed by a short hash, or the hash alone if nothing is left of
/// the name.
pub open spec fn sanitize_id_spec(id: Seq<char>, name: Seq<char>) -> Seq<char> {
    let t = crate::text::trim_spec(strip_hostile(name));
    if t.len() == 0 {
        short_hash(id, name)
    } else {
        t + "-"@ + short_hash(id, name)
    }
}

/// Folder name for a game from its id and name.
pub fn sanitize_id(id: &str, name: &str) -> (r: String)
    ensures
        r@ == sanitize_id_spec(id@, name@),
{
    let a = vstd::slice::slice_to_vec(id.as_bytes());
    let b = vstd::slice::slice_to_vec(name.as_bytes());
    let both = crate::digest::join_bytes(&a, &b);
    let digest = crate::digest::sha256(both.as_slice());
    let first = crate::digest::take_bytes(&digest, 4);
    let short = crate::digest::hex_encode(first.as_slice());
    let x = crate::text::chars_of(name);
    let mut clean: Vec<char> = Vec::new();
    let mut i: usize = 0;
    while i < x.len()
        invariant
            i <= x@.len(),
            x@ == name@,
            clean@ == strip_hostile(name@.subrange(0, i as int)),
        decreases x@.len() - i,
    {
        let c = x[i];
        if !(c == '/' || c == '\\' || c == ':' || c == '*' || c == '?' || c == '"' || c == '<'
            || c == '>' || c == '|') && !crate::text::char_is_control(c) {
            clean.push(c);
        }
        assert(name@.subrange(0, i + 1).drop_last() =~= name@.subrange(0, i as int));
        i = i + 1;
    }
    assert(name@.subrange(0, name@.len() as int) =~= name@);
    let cleaned = crate::text::string_from_chars(&clean);
    let t = crate::text::trim(cleaned.as_str());
    if t.unicode_len() == 0 {
        short
    } else {
        concat3(t.as_str(), "-", short.as_str())
    }
}

/// A game's remote folder: its explicit prefix, or `games/<sanitized id>`.
pub open spec fn remote_prefix_spec(game: crate::model::GameProfile) -> Seq<char> {
    match game.remote_prefix {
        Some(p) => p@,
        None => "games/"@ + sanitize_id_spec(game.id@, game.name@),
    }
}

/// The remote folder of a game.
pub fn remote_prefix_for(game: &crate::model::GameProfile) -> (r: String)
    ensures
        r@ == remote_prefix_spec(*game),
{
    match &game.remote_prefix {
        Some(p) => p.clone(),
        None => {
            let id = sanitize_id(game.id.as_str(), game.name.as_str());
            crate::text::concat2("games/", id.as_str())
        },
    }
}

/// The remote folder of a game (shared by the snapshot code).
pub fn remote_prefix_for_public(game: &crate::model::GameProfile) -> (r: String)
    ensures
        r@ == remote_prefix_spec(*game),
{
    remote_prefix_for(game)
}

// ---------------------------------------------------------------------------
// Preview
// ---------------------------------------------------------------------------

/// One file to transfer, as shown before a sync.
#[derive(Debug, Clone)]
pub struct PreviewItem {
    pub rel: String,
    pub size: u64,
}

/// A conflict, as shown before a sync.
#[derive(Debug, Clone)]
pub struct PreviewConflict {
    pub rel: String,
    pub local_size: u64,
    pub local_mtime: i64,
    pub remote_size: u64,
    pub remote_mtime: i64,
}

/// What a sync would do, for the confirmation dialog.
#[derive(Debug, Clone)]
pub struct SyncPreview {
    pub game_id: String,
    pub direction: crate::model::SyncDirection,
    pub uploads: Vec<PreviewItem>,
    pub downloads: Vec<PreviewItem>,
    pub delete_remote: Vec<String>,
    pub delete_local: Vec<String>,
    pub conflicts: Vec<PreviewConflict>,
    pub total_bytes: u64,
}

pub open spec fn upload_bytes(fs: Seq<LocalFile>) -> nat
    decreases fs.len(),
{
    if fs.len() == 0 {
        0
    } else {
        upload_bytes(fs.drop_last()) + fs.last().size as nat
    }
}

pub open spec fn download_bytes(ds: Seq<(String, RemoteIndexEntry)>) -> nat
    decreases ds.len(),
{
    if ds.len() == 0 {
        0
    } else {
        download_bytes(ds.drop_last()) + ds.last().1.size as nat
    }
}

/// Summarises a plan.  Conflicts report the local side's size and mtime and
/// zero for the remote side.
pub fn plan_to_preview(plan: &SyncPlan, game_id: String, direction: crate::model::SyncDirection) -> (p: SyncPreview)
    requires
        upload_bytes(plan.upload@) + download_bytes(plan.download@) <= u64::MAX,
    ensures
        p.game_id == game_id,
        p.direction == direction,
        p.total_bytes == upload_bytes(plan.upload@) + download_bytes(plan.download@),
        p.uploads@.len() == plan.upload@.len(),
        forall|i: int| 0 <= i < p.uploads@.len() ==> #[trigger] p.uploads@[i].rel@ == plan.upload@[i].relative@
            && p.uploads@[i].size == plan.upload@[i].size,
        p.downloads@.len() == plan.download@.len(),
        forall|i: int| 0 <= i < p.downloads@.len() ==> #[trigger] p.downloads@[i].rel@ == plan.download@[i].0@
            && p.downloads@[i].size == plan.download@[i].1.size,
        p.delete_remote@ == plan.delete_remote@,
        p.delete_local@.len() == plan.delete_local@.len(),
        forall|i: int| 0 <= i < p.delete_local@.len() ==> #[trigger] p.delete_local@[i]@ == plan.delete_local@[i].0@,
        p.conflicts@.len() == plan.conflicts@.len(),
        forall|i: int| 0 <= i < p.conflicts@.len() ==> {
            &&& #[trigger] p.conflicts@[i].rel@ == plan.conflicts@[i].rel@
            &&& p.conflicts@[i].local_size == plan.conflicts@[i].local_file.size
            &&& p.conflicts@[i].local_mtime == plan.conflicts@[i].local_file.modified_ms
            &&& p.conflicts@[i].remote_size == 0
            &&& p.conflicts@[i].remote_mtime == 0
        },
{
    let mut uploads: Vec<PreviewItem> = Vec::new();
    let mut up_total: u64 = 0;
    let mut i: usize = 0;
    while i < plan.upload.len()
        invariant
            i <= plan.upload@.len(),
            upload_bytes(plan.upload@) + download_bytes(plan.download@) <= u64::MAX,
            up_total == upload_bytes(plan.upload@.subrange(0, i as int)),
            uploads@.len() == i,
            forall|j: int| 0 <= j < i ==> #[trigger] uploads@[j].rel@ == plan.upload@[j].relative@
                && uploads@[j].size == plan.upload@[j].size,
        decreases plan.upload@.len() - i,
    {
        proof {
            assert(plan.upload@.subrange(0, i + 1).drop_last() =~= plan.upload@.subrange(0, i as int));
            lemma_upload_bytes_prefix(plan.upload@, i as int + 1);
        }
        let f = &plan.upload[i];
        uploads.push(PreviewItem { rel: f.relative.clone(), size: f.size });
        up_total = up_total + f.size;
        i = i + 1;
    }
    assert(plan.upload@.subrange(0, plan.upload@.len() as int) =~= plan.upload@);
    let mut downloads: Vec<PreviewItem> = Vec::new();
    let mut down_total: u64 = 0;
    let mut j: usize = 0;
    while j < plan.download.len()
        invariant
            j <= plan.download@.len(),
            up_total == upload_bytes(plan.upload@),
            upload_bytes(plan.upload@) + download_bytes(plan.download@) <= u64::MAX,
            down_total == download_bytes(plan.download@.subrange(0, j as int)),
            downloads@.len() == j,
            forall|k: int| 0 <= k < j ==> #[trigger] downloads@[k].rel@ == plan.download@[k].0@
                && downloads@[k].size == plan.download@[k].1.size,
        decreases plan.download@.len() - j,
    {
        proof {
            assert(plan.download@.subrange(0, j + 1).drop_last() =~= plan.download@.subrange(0, j as int));
            lemma_download_bytes_prefix(plan.download@, j as int + 1);
        }
        let d = &plan.download[j];
        downloads.push(PreviewItem { rel: d.0.clone(), size: d.1.size });
        down_total = down_total + d.1.size;
        j = j + 1;
    }
    assert(plan.download@.subrange(0, plan.download@.len() as int) =~= plan.download@);
    let mut delete_local: Vec<String> = Vec::new();
    let mut k: usize = 0;
    while k < plan.delete_local.len()
        invariant
            k <= plan.delete_local@.len(),
            delete_local@.len() == k,
            forall|m: int| 0 <= m < k ==> #[trigger] delete_local@[m]@ == plan.delete_local@[m].0@,
        decreases plan.delete_local@.len() - k,
    {
        delete_local.push(plan.delete_local[k].0.clone());
        k = k + 1;
    }
    let mut conflicts: Vec<PreviewConflict> = Vec::new();
    let mut c: usize = 0;
    while c < plan.conflicts.len()
        invariant
            c <= plan.conflicts@.len(),
            conflicts@.len() == c,
            forall|m: int| 0 <= m < c ==> {
                &&& #[trigger] conflicts@[m].rel@ == plan.conflicts@[m].rel@
                &&& conflicts@[m].local_size == plan.conflicts@[m].local_file.size
                &&& conflicts@[m].local_mtime == plan.conflicts@[m].local_file.modified_ms
                &&& conflicts@[m].remote_size == 0
                &&& conflicts@[m].remote_mtime == 0
            },
        decreases plan.conflicts@.len() - c,
    {
        let d = &plan.conflicts[c];
        conflicts.push(
            PreviewConflict {
                rel: d.rel.clone(),
                local_size: d.local_file.size,
                local_mtime: d.local_file.modified_ms,
                remote_size: 0,
                remote_mtime: 0,
            },
        );
        c = c + 1;
    }
    SyncPreview {
        game_id,
        direction,
        uploads,
        downloads,
        delete_remote: copy_strings(&plan.delete_remote),
        delete_local,
        conflicts,
        total_bytes: up_total + down_total,
    }
}

/// The bytes of the first `n` files never exceed those of all files.
pub proof fn lemma_upload_bytes_prefix(fs: Seq<LocalFile>, n: int)
    requires
        0 <= n <= fs.len(),
    ensures
        upload_bytes(fs.subrange(0, n)) <= upload_bytes(fs),
    decreases fs.len() - n,
{
    if n < fs.len() {
        lemma_upload_bytes_prefix(fs, n + 1);
        assert(fs.subrange(0, n + 1).drop_last() =~= fs.subrange(0, n));
    } else {
        assert(fs.subrange(0, n) =~= fs);
    }
}

/// The bytes of the first `n` downloads never exceed those of all downloads.
pub proof fn lemma_download_bytes_prefix(ds: Seq<(String, RemoteIndexEntry)>, n: int)
    requires
        0 <= n <= ds.len(),
    ensures
        download_bytes(ds.subrange(0, n)) <= download_bytes(ds),
    decreases ds.len() - n,
{
    if n < ds.len() {
        lemma_download_bytes_prefix(ds, n + 1);
        assert(ds.subrange(0, n + 1).drop_last() =~= ds.subrange(0, n));
    } else {
        assert(ds.subrange(0, n) =~= ds);
    }
}

// ---------------------------------------------------------------------------
// Laws of planning
// ---------------------------------------------------------------------------

/// A per-file choice made by the user beats the configured policy, whatever
/// changed on either side.
pub proof fn law_override_beats_policy(
    local_mtime: i64,
    remote_mtime: i64,
    local_changed: bool,
    remote_changed: bool,
    policy: ConflictPolicy,
    ov: Map<Seq<char>, String>,
    rel: Seq<char>,
)
    requires
        override_choice(ov, rel) is Some,
    ensures
        resolve_spec(local_mtime, remote_mtime, local_changed, remote_changed, policy, ov, rel)
            == override_choice(ov, rel)->0,
{
}

/// Without an override, a file changed on one side only is taken from that
/// side, whatever the policy: the policy decides true conflicts alone.
pub proof fn law_one_sided_change_wins(
    local_mtime: i64,
    remote_mtime: i64,
    policy: ConflictPolicy,
    ov: Map<Seq<char>, String>,
    rel: Seq<char>,
)
    requires
        override_choice(ov, rel) is None,
    ensures
        resolve_spec(local_mtime, remote_mtime, true, false, policy, ov, rel)
            == ConflictResolution::PickLocal,
        resolve_spec(local_mtime, remote_mtime, false, true, policy, ov, rel)
            == ConflictResolution::PickRemote,
{
}

/// Under the rename-both policy a true conflict never overwrites a copy:
/// both are kept, and the one with the newer (or equal local) modification
/// time stays live.
pub proof fn law_rename_both_keeps_both(
    rel: Seq<char>,
    lf: LocalFile,
    re: RemoteIndexEntry,
    p: RemoteIndexEntry,
    ov: Map<Seq<char>, String>,
)
    requires
        lf.sha256@ != re.sha256@,
        p.sha256@ != lf.sha256@,
        p.sha256@ != re.sha256@,
        override_choice(ov, rel) is None,
    ensures
        key_action(rel, Some(lf), Some(re), Some(p), ConflictPolicy::RenameBoth, ov) == (if lf.modified_ms
            >= re.modified_ms {
            KeyAction::KeepBothLocal(lf)
        } else {
            KeyAction::KeepBothRemote(lf, re)
        }),
{
}

/// Files present on both sides with the same content are never transferred,
/// deleted or treated as conflicts.
pub proof fn law_identical_content_untouched(
    rel: Seq<char>,
    lf: LocalFile,
    re: RemoteIndexEntry,
    p: Option<RemoteIndexEntry>,
    policy: ConflictPolicy,
    ov: Map<Seq<char>, String>,
)
    requires
        lf.sha256@ == re.sha256@,
    ensures
        key_action(rel, Some(lf), Some(re), p, policy, ov) == KeyAction::Same(lf),
{
}

proof fn lemma_all_same_outputs(acts: Seq<(Seq<char>, KeyAction)>, stamp: Seq<char>)
    requires
        forall|i: int| 0 <= i < acts.len() ==> (#[trigger] acts[i]).1 is Same,
    ensures
        tw_uploads(acts).len() == 0,
        tw_downloads(acts).len() == 0,
        tw_delete_remote(acts).len() == 0,
        tw_delete_local(acts).len() == 0,
        tw_conflicts(acts, stamp).len() == 0,
    decreases acts.len(),
{
    if acts.len() > 0 {
        let d = acts.drop_last();
        assert forall|i: int| 0 <= i < d.len() implies (#[trigger] d[i]).1 is Same by {
            assert(d[i] == acts[i]);
        }
        lemma_all_same_outputs(d, stamp);
        assert(acts[acts.len() - 1].1 is Same);
    }
}

pub proof fn lemma_local_index_finite(fs: Seq<LocalFile>)
    ensures
        local_index_map(fs).dom().finite(),
    decreases fs.len(),
{
    if fs.len() > 0 {
        lemma_local_index_finite(fs.drop_last());
    }
}

/// When every path exists on both sides with the same content (as after a
/// successful sync or a restore), a two-way sync has nothing to do.
pub proof fn law_in_sync_plan_is_empty(
    local_files: Seq<LocalFile>,
    remote: RemoteIndex,
    prior: RemoteIndex,
    policy: ConflictPolicy,
    ov: Map<Seq<char>, String>,
    stamp: Seq<char>,
)
    requires
        local_index_map(local_files).dom() == remote.view().dom(),
        forall|k: Seq<char>| #[trigger] remote.view().contains_key(k) ==> local_index_map(
            local_files,
        )[k].sha256@ == remote.view()[k].sha256@,
    ensures
        ({
            let acts = two_way_actions(
                local_index_map(local_files),
                remote.view(),
                prior.view(),
                policy,
                ov,
            );
            &&& tw_uploads(acts).len() == 0
            &&& tw_downloads(acts).len() == 0
            &&& tw_delete_remote(acts).len() == 0
            &&& tw_delete_local(acts).len() == 0
            &&& tw_conflicts(acts, stamp).len() == 0
        }),
        forall|plan: SyncPlan, roots: Seq<String>|
            #[trigger] is_two_way_plan(plan, local_files, remote, prior, roots, policy, ov, stamp)
                ==> plan_is_empty(plan),
{
    let lmap = local_index_map(local_files);
    let rmap = remote.view();
    let u = lmap.dom().union(rmap.dom());
    lemma_local_index_finite(local_files);
    crate::keymap::lemma_entries_map_finite(remote.files.entries@);
    crate::keymap::lemma_sorted_seq_of(u);
    let keys = sorted_seq_of(u);
    let acts = two_way_actions(lmap, rmap, prior.view(), policy, ov);
    assert forall|i: int| 0 <= i < acts.len() implies (#[trigger] acts[i]).1 is Same by {
        let k = keys[i];
        assert(keys.contains(k));
        assert(u.contains(k));
        assert(rmap.contains_key(k));
    }
    lemma_all_same_outputs(acts, stamp);
    assert forall|plan: SyncPlan, roots: Seq<String>|
        #[trigger] is_two_way_plan(plan, local_files, remote, prior, roots, policy, ov, stamp)
            implies plan_is_empty(plan) by {
        assert(pairs_view(plan.download@).len() == plan.download@.len());
        assert(strs_view(plan.delete_remote@).len() == plan.delete_remote@.len());
        assert(str_pairs_view(plan.delete_local@).len() == plan.delete_local@.len());
        assert(conflicts_view(plan.conflicts@).len() == plan.conflicts@.len());
    }
}

/// A push uploads exactly the local files whose content the previous index
/// does not record, in scan order.
pub proof fn law_push_uploads_changed(fs: Seq<LocalFile>, prev: Map<Seq<char>, RemoteIndexEntry>)
    ensures
        forall|i: int| 0 <= i < fs.len() && push_changed(#[trigger] fs[i], prev) ==> push_uploads(
            fs,
            prev,
        ).contains(fs[i]),
        forall|f: LocalFile| #[trigger] push_uploads(fs, prev).contains(f) ==> fs.contains(f)
            && push_changed(f, prev),
    decreases fs.len(),
{
    if fs.len() > 0 {
        let d = fs.drop_last();
        law_push_uploads_changed(d, prev);
        let r = push_uploads(d, prev);
        let out = push_uploads(fs, prev);
        assert forall|i: int| 0 <= i < fs.len() && push_changed(#[trigger] fs[i], prev) implies out.contains(fs[i]) by {
            if i < fs.len() - 1 {
                assert(d[i] == fs[i]);
                assert(r.contains(fs[i]));
                let w = r.index_of(fs[i]);
                if push_changed(fs.last(), prev) {
                    assert(out[w] == fs[i]);
                }
            } else {
                assert(out[out.len() - 1] == fs[i]);
            }
        }
        assert forall|f: LocalFile| #[trigger] out.contains(f) implies fs.contains(f) && push_changed(f, prev) by {
            let w = out.index_of(f);
            if w < r.len() {
                assert(r[w] == f);
                assert(r.contains(f));
                let v = d.index_of(f);
                assert(fs[v] == f);
            } else {
                assert(fs[fs.len() - 1] == f);
            }
        }
    }
}

/// A push deletes on the remote exactly the indexed paths that no longer
/// exist locally.
pub proof fn law_push_deletes_only_missing<E>(es: Seq<(String, E)>, present: Set<Seq<char>>)
    ensures
        forall|k: Seq<char>| #[trigger] missing_keys(es, present).contains(k) <==> (keys_of(es).contains(k)
            && !present.contains(k)),
    decreases es.len(),
{
    if es.len() > 0 {
        let d = es.drop_last();
        law_push_deletes_only_missing(d, present);
        assert(keys_of(d) =~= keys_of(es).drop_last());
        let r = missing_keys(d, present);
        let out = missing_keys(es, present);
        assert forall|k: Seq<char>| #[trigger] out.contains(k) <==> (keys_of(es).contains(k) && !present.contains(k)) by {
            if out.contains(k) {
                let w = out.index_of(k);
                if w < r.len() {
                    assert(r[w] == k);
                    assert(r.contains(k));
                    let v = keys_of(d).index_of(k);
                    assert(keys_of(es)[v] == k);
                } else {
                    assert(keys_of(es)[es.len() - 1] == k);
                }
            }
            if keys_of(es).contains(k) && !present.contains(k) {
                let w = keys_of(es).index_of(k);
                if w < es.len() - 1 {
                    assert(keys_of(d)[w] == k);
                    assert(r.contains(k));
                    let v = r.index_of(k);
                    if !present.contains(es.last().0@) {
                        assert(out[v] == k);
                    }
                } else {
                    assert(out[out.len() - 1] == k);
                }
            }
        }
    }
}

/// A pull deletes a local file only if the previous sync knew it and the
/// remote no longer has it; files never synced are left alone.
pub proof fn law_pull_deletes_only_known(
    fs: Seq<LocalFile>,
    prior: Map<Seq<char>, RemoteIndexEntry>,
    remote: Map<Seq<char>, RemoteIndexEntry>,
)
    ensures
        forall|i: int| 0 <= i < pull_delete_local(fs, prior, remote).len() ==> prior.contains_key(
            (#[trigger] pull_delete_local(fs, prior, remote)[i]).0,
        ) && !remote.contains_key(pull_delete_local(fs, prior, remote)[i].0),
    decreases fs.len(),
{
    if fs.len() > 0 {
        let d = fs.drop_last();
        law_pull_deletes_only_known(d, prior, remote);
        let r = pull_delete_local(d, prior, remote);
        let out = pull_delete_local(fs, prior, remote);
        assert forall|i: int| 0 <= i < out.len() implies prior.contains_key((#[trigger] out[i]).0)
            && !remote.contains_key(out[i].0) by {
            if i < r.len() {
                assert(out[i] == r[i]);
            }
        }
    }
}

/// A plan list's entries come out of the actions in order: whatever an
/// action puts in it is there.
proof fn lemma_tw_delete_remote_has(acts: Seq<(Seq<char>, KeyAction)>, i: int)
    requires
        0 <= i < acts.len(),
        acts[i].1 is DeleteRemote,
    ensures
        tw_delete_remote(acts).contains(acts[i].0),
    decreases acts.len(),
{
    let d = acts.drop_last();
    let r = tw_delete_remote(d);
    let out = tw_delete_remote(acts);
    if i < acts.len() - 1 {
        assert(d[i] == acts[i]);
        lemma_tw_delete_remote_has(d, i);
        let w = r.index_of(acts[i].0);
        if acts.last().1 is DeleteRemote {
            assert(out == r.push(acts.last().0));
            assert(out[w] == r[w]);
        } else {
            assert(out == r);
        }
    } else {
        assert(out == r.push(acts.last().0));
        assert(out[out.len() - 1] == acts[i].0);
    }
}

proof fn lemma_tw_delete_local_has(acts: Seq<(Seq<char>, KeyAction)>, i: int, f: LocalFile)
    requires
        0 <= i < acts.len(),
        acts[i].1 == KeyAction::DeleteLocal(f),
    ensures
        tw_delete_local(acts).contains((acts[i].0, f.absolute@)),
    decreases acts.len(),
{
    let d = acts.drop_last();
    let r = tw_delete_local(d);
    let out = tw_delete_local(acts);
    if i < acts.len() - 1 {
        assert(d[i] == acts[i]);
        lemma_tw_delete_local_has(d, i, f);
        let w = r.index_of((acts[i].0, f.absolute@));
        match acts.last().1 {
            KeyAction::DeleteLocal(g) => {
                assert(out == r.push((acts.last().0, g.absolute@)));
                assert(out[w] == r[w]);
            },
            _ => {
                assert(out == r);
            },
        }
    } else {
        assert(out == r.push((acts[i].0, f.absolute@)));
        assert(out[out.len() - 1] == (acts[i].0, f.absolute@));
    }
}

proof fn lemma_tw_uploads_has(acts: Seq<(Seq<char>, KeyAction)>, i: int, f: LocalFile)
    requires
        0 <= i < acts.len(),
        acts[i].1 == KeyAction::Upload(f),
    ensures
        tw_uploads(acts).contains(f),
    decreases acts.len(),
{
    let d = acts.drop_last();
    let r = tw_uploads(d);
    let out = tw_uploads(acts);
    if i < acts.len() - 1 {
        assert(d[i] == acts[i]);
        lemma_tw_uploads_has(d, i, f);
        let w = r.index_of(f);
        match acts.last().1 {
            KeyAction::Upload(g) => {
                assert(out == r.push(g));
                assert(out[w] == r[w]);
            },
            KeyAction::KeepBothLocal(g) => {
                assert(out == r.push(g));
                assert(out[w] == r[w]);
            },
            _ => {
                assert(out == r);
            },
        }
    } else {
        assert(out == r.push(f));
        assert(out[out.len() - 1] == f);
    }
}

proof fn lemma_tw_downloads_has(acts: Seq<(Seq<char>, KeyAction)>, i: int, e: RemoteIndexEntry)
    requires
        0 <= i < acts.len(),
        acts[i].1 == KeyAction::Download(e),
    ensures
        tw_downloads(acts).contains((acts[i].0, e)),
    decreases acts.len(),
{
    let d = acts.drop_last();
    let r = tw_downloads(d);
    let out = tw_downloads(acts);
    if i < acts.len() - 1 {
        assert(d[i] == acts[i]);
        lemma_tw_downloads_has(d, i, e);
        let w = r.index_of((acts[i].0, e));
        match acts.last().1 {
            KeyAction::Download(g) => {
                assert(out == r.push((acts.last().0, g)));
                assert(out[w] == r[w]);
            },
            KeyAction::KeepBothRemote(_, g) => {
                assert(out == r.push((acts.last().0, g)));
                assert(out[w] == r[w]);
            },
            _ => {
                assert(out == r);
            },
        }
    } else {
        assert(out == r.push((acts[i].0, e)));
        assert(out[out.len() - 1] == (acts[i].0, e));
    }
}

/// Every download of a plan comes from an action that downloads that path.
proof fn lemma_tw_downloads_from(acts: Seq<(Seq<char>, KeyAction)>, j: int) -> (i: int)
    requires
        0 <= j < tw_downloads(acts).len(),
    ensures
        0 <= i < acts.len(),
        acts[i].0 == tw_downloads(acts)[j].0,
        acts[i].1 is Download || acts[i].1 is KeepBothRemote,
    decreases acts.len(),
{
    let d = acts.drop_last();
    let r = tw_downloads(d);
    let out = tw_downloads(acts);
    if j < r.len() {
        match acts.last().1 {
            KeyAction::Download(g) => {
                assert(out == r.push((acts.last().0, g)));
            },
            KeyAction::KeepBothRemote(_, g) => {
                assert(out == r.push((acts.last().0, g)));
            },
            _ => {
                assert(out == r);
            },
        }
        assert(out[j] == r[j]);
        let i = lemma_tw_downloads_from(d, j);
        assert(acts[i] == d[i]);
        i
    } else {
        match acts.last().1 {
            KeyAction::Download(g) => {
                assert(out == r.push((acts.last().0, g)));
            },
            KeyAction::KeepBothRemote(_, g) => {
                assert(out == r.push((acts.last().0, g)));
            },
            _ => {
                assert(out == r);
            },
        }
        (acts.len() - 1) as int
    }
}

/// The single position of a path among the actions of a two-way sync, and
/// its action there.
proof fn lemma_two_way_action_at(
    fs: Seq<LocalFile>,
    remote: RemoteIndex,
    prior: RemoteIndex,
    policy: ConflictPolicy,
    ov: Map<Seq<char>, String>,
    k: Seq<char>,
) -> (i: int)
    requires
        local_index_map(fs).contains_key(k) || remote.view().contains_key(k),
    ensures
        ({
            let lmap = local_index_map(fs);
            let rmap = remote.view();
            let pmap = prior.view();
            let acts = two_way_actions(lmap, rmap, pmap, policy, ov);
            &&& 0 <= i < acts.len()
            &&& acts[i].0 == k
            &&& acts[i].1 == key_action(k, get_opt(lmap, k), get_opt(rmap, k), get_opt(pmap, k), policy, ov)
            &&& forall|j: int| 0 <= j < acts.len() && (#[trigger] acts[j]).0 == k ==> j == i
        }),
{
    let lmap = local_index_map(fs);
    let rmap = remote.view();
    let u = lmap.dom().union(rmap.dom());
    lemma_local_index_finite(fs);
    crate::keymap::lemma_entries_map_finite(remote.files.entries@);
    crate::keymap::lemma_sorted_seq_of(u);
    let keys = sorted_seq_of(u);
    assert(u.contains(k));
    assert(keys.contains(k));
    let i = keys.index_of(k);
    let acts = two_way_actions(lmap, rmap, prior.view(), policy, ov);
    assert forall|j: int| 0 <= j < acts.len() && (#[trigger] acts[j]).0 == k implies j == i by {
        assert(keys[j] == k);
        crate::text::lemma_seq_lt_irreflexive(k);
        if j < i {
            assert(crate::text::seq_lt(keys[j], keys[i]));
        } else if i < j {
            assert(crate::text::seq_lt(keys[i], keys[j]));
        }
    }
    i
}

/// A save deleted locally since the previous sync is deleted on the remote
/// and not brought back: a two-way plan deletes every path that the
/// previous sync recorded, the remote still has and the local side no
/// longer has, and downloads nothing under that path.
pub proof fn law_local_deletion_propagates(
    plan: SyncPlan,
    fs: Seq<LocalFile>,
    remote: RemoteIndex,
    prior: RemoteIndex,
    roots: Seq<String>,
    policy: ConflictPolicy,
    ov: Map<Seq<char>, String>,
    stamp: Seq<char>,
    k: Seq<char>,
)
    requires
        is_two_way_plan(plan, fs, remote, prior, roots, policy, ov, stamp),
        !local_index_map(fs).contains_key(k),
        remote.view().contains_key(k),
        prior.view().contains_key(k),
    ensures
        strs_view(plan.delete_remote@).contains(k),
        forall|j: int| 0 <= j < plan.download@.len() ==> (#[trigger] plan.download@[j]).0@ != k,
{
    let acts = two_way_actions(local_index_map(fs), remote.view(), prior.view(), policy, ov);
    let i = lemma_two_way_action_at(fs, remote, prior, policy, ov, k);
    assert(acts[i].1 is DeleteRemote);
    lemma_tw_delete_remote_has(acts, i);
    assert forall|j: int| 0 <= j < plan.download@.len() implies (#[trigger] plan.download@[j]).0@ != k by {
        assert(pairs_view(plan.download@)[j].0 == plan.download@[j].0@);
        let i2 = lemma_tw_downloads_from(acts, j);
        if plan.download@[j].0@ == k {
            assert(acts[i2].0 == k);
        }
    }
}

/// A save deleted remotely since the previous sync is deleted locally: a
/// two-way plan deletes the local file of every path that the previous
/// sync recorded, the local side still has and the remote no longer has.
pub proof fn law_remote_deletion_propagates(
    plan: SyncPlan,
    fs: Seq<LocalFile>,
    remote: RemoteIndex,
    prior: RemoteIndex,
    roots: Seq<String>,
    policy: ConflictPolicy,
    ov: Map<Seq<char>, String>,
    stamp: Seq<char>,
    k: Seq<char>,
)
    requires
        is_two_way_plan(plan, fs, remote, prior, roots, policy, ov, stamp),
        local_index_map(fs).contains_key(k),
        !remote.view().contains_key(k),
        prior.view().contains_key(k),
    ensures
        str_pairs_view(plan.delete_local@).contains((k, local_index_map(fs)[k].absolute@)),
{
    let acts = two_way_actions(local_index_map(fs), remote.view(), prior.view(), policy, ov);
    let i = lemma_two_way_action_at(fs, remote, prior, policy, ov, k);
    lemma_tw_delete_local_has(acts, i, local_index_map(fs)[k]);
}

/// A file new on one side only (unknown to the previous sync) is copied to
/// the other: a new local file is uploaded, a new remote file downloaded.
pub proof fn law_new_files_are_copied(
    plan: SyncPlan,
    fs: Seq<LocalFile>,
    remote: RemoteIndex,
    prior: RemoteIndex,
    roots: Seq<String>,
    policy: ConflictPolicy,
    ov: Map<Seq<char>, String>,
    stamp: Seq<char>,
    k: Seq<char>,
)
    requires
        is_two_way_plan(plan, fs, remote, prior, roots, policy, ov, stamp),
        !prior.view().contains_key(k),
    ensures
        local_index_map(fs).contains_key(k) && !remote.view().contains_key(k) ==> plan.upload@.contains(
            local_index_map(fs)[k],
        ),
        !local_index_map(fs).contains_key(k) && remote.view().contains_key(k) ==> pairs_view(
            plan.download@,
        ).contains((k, remote.view()[k])),
{
    let acts = two_way_actions(local_index_map(fs), remote.view(), prior.view(), policy, ov);
    if local_index_map(fs).contains_key(k) && !remote.view().contains_key(k) {
        let i = lemma_two_way_action_at(fs, remote, prior, policy, ov, k);
        lemma_tw_uploads_has(acts, i, local_index_map(fs)[k]);
    }
    if !local_index_map(fs).contains_key(k) && remote.view().contains_key(k) {
        let i = lemma_two_way_action_at(fs, remote, prior, policy, ov, k);
        lemma_tw_downloads_has(acts, i, remote.view()[k]);
    }
}

/// A push uploads every local file that the previous index lacks or
/// records with another hash, and nothing whose recorded hash is the
/// local one.
pub proof fn law_push_uploads_edited_files(
    plan: SyncPlan,
    fs: Seq<LocalFile>,
    prev: RemoteIndex,
    roots: Seq<String>,
)
    requires
        is_push_plan(plan, fs, prev, roots),
    ensures
        forall|i: int|
            0 <= i < fs.len() && (!prev.view().contains_key((#[trigger] fs[i]).relative@)
                || prev.view()[fs[i].relative@].sha256@ != fs[i].sha256@) ==> plan.upload@.contains(
                fs[i],
            ),
        forall|f: LocalFile| #[trigger] plan.upload@.contains(f) ==> fs.contains(f) && !(
        prev.view().contains_key(f.relative@) && prev.view()[f.relative@].sha256@ == f.sha256@),
{
    law_push_uploads_changed(fs, prev.view());
}

} // verus!
