//! The steps of carrying out a sync plan and of reporting a finished run.
//!
//! A run goes: rescue copies for conflicts, uploads, downloads, remote
//! deletions (archiving first when versions are kept), local deletions, then
//! the new index.  The library turns a plan into these concrete jobs, with
//! their keys and local targets, and turns the outcome into the status and
//! statistics shown to the user; performing the transfers is left to the
//! caller.

use crate::engine::{strs_view, ConflictDescriptor, LocalFile, RemoteIndexEntry, SyncPlan, upload_bytes, download_bytes};
use crate::error::AppError;
use crate::model::{GameSyncStatus, RemoteFileMeta, SyncDirection, SyncStateKind};
use crate::paths::{remote_key_spec, to_remote_key, LocalPath};
use crate::stats::StatEntry;
use crate::text::{concat3, contains_str, owned, seq_contains_sub, split_spec, str_eq, u64_to_string, decimal};
use crate::versions::resolve_local_path;
use vstd::prelude::*;

verus! {

broadcast use vstd::string::group_string_axioms;

/// Files larger than this (64 MiB) are streamed from or to disk instead of
/// being held in memory.
pub const LARGE_FILE_THRESHOLD: u64 = 67108864;

/// Transfers in flight at once: the configured number, at least one.
pub fn effective_concurrency(max_concurrency: usize) -> (n: usize)
    ensures
        n == if max_concurrency == 0 { 1 } else { max_concurrency },
{
    if max_concurrency == 0 {
        1
    } else {
        max_concurrency
    }
}

// ---------------------------------------------------------------------------
// Jobs
// ---------------------------------------------------------------------------

/// Both copies of a conflicting file: the remote original is copied
/// server-side to `remote_dst`, and the local file is uploaded to
/// `local_dst`.
#[derive(Debug)]
pub struct ConflictCopy {
    pub rel: String,
    pub remote_src: String,
    pub remote_dst: String,
    pub local_abs: String,
    pub local_dst: String,
}

/// The rescue copies of a plan's conflicts, in plan order.
pub fn conflict_copies(remote_prefix: &str, conflicts: &Vec<ConflictDescriptor>) -> (r: Vec<
    ConflictCopy,
>)
    ensures
        r@.len() == conflicts@.len(),
        forall|i: int|
            0 <= i < r@.len() ==> {
                let c = #[trigger] conflicts@[i];
                &&& r@[i].rel@ == c.rel@
                &&& r@[i].remote_src@ == remote_key_spec(remote_prefix@, c.rel@)
                &&& r@[i].remote_dst@ == remote_key_spec(remote_prefix@, c.remote_rename@)
                &&& r@[i].local_abs@ == c.local_file.absolute@
                &&& r@[i].local_dst@ == remote_key_spec(remote_prefix@, c.local_rename@)
            },
{
    let mut out: Vec<ConflictCopy> = Vec::new();
    let mut i: usize = 0;
    while i < conflicts.len()
        invariant
            i <= conflicts@.len(),
            out@.len() == i,
            forall|j: int|
                0 <= j < i ==> {
                    let c = #[trigger] conflicts@[j];
                    &&& out@[j].rel@ == c.rel@
                    &&& out@[j].remote_src@ == remote_key_spec(remote_prefix@, c.rel@)
                    &&& out@[j].remote_dst@ == remote_key_spec(remote_prefix@, c.remote_rename@)
                    &&& out@[j].local_abs@ == c.local_file.absolute@
                    &&& out@[j].local_dst@ == remote_key_spec(remote_prefix@, c.local_rename@)
                },
        decreases conflicts@.len() - i,
    {
        let c = &conflicts[i];
        out.push(
            ConflictCopy {
                rel: c.rel.clone(),
                remote_src: to_remote_key(remote_prefix, c.rel.as_str()),
                remote_dst: to_remote_key(remote_prefix, c.remote_rename.as_str()),
                local_abs: c.local_file.absolute.clone(),
                local_dst: to_remote_key(remote_prefix, c.local_rename.as_str()),
            },
        );
        i = i + 1;
    }
    out
}

/// One upload: the file at `absolute` goes to `key`; when `archive_first`
/// the current remote copy is archived as a version before it is
/// overwritten; `streamed` files go from disk without being read whole.
#[derive(Debug)]
pub struct UploadJob {
    pub rel: String,
    pub key: String,
    pub absolute: String,
    pub size: u64,
    pub archive_first: bool,
    pub streamed: bool,
}

/// What the upload of file `f` does.
pub open spec fn upload_job_ok(
    j: UploadJob,
    f: LocalFile,
    remote_prefix: Seq<char>,
    versions_to_keep: usize,
    existing: Seq<Seq<char>>,
) -> bool {
    &&& j.rel@ == f.relative@
    &&& j.key@ == remote_key_spec(remote_prefix, f.relative@)
    &&& j.absolute@ == f.absolute@
    &&& j.size == f.size
    &&& j.archive_first == (versions_to_keep > 0 && existing.contains(f.relative@))
    &&& j.streamed == (f.size > LARGE_FILE_THRESHOLD)
}

fn contains_text(v: &Vec<String>, s: &str) -> (b: bool)
    ensures
        b == strs_view(v@).contains(s@),
{
    let mut i: usize = 0;
    while i < v.len()
        invariant
            i <= v@.len(),
            forall|j: int| 0 <= j < i ==> v@[j]@ != s@,
        decreases v@.len() - i,
    {
        if str_eq(v[i].as_str(), s) {
            assert(strs_view(v@)[i as int] == s@);
            return true;
        }
        i = i + 1;
    }
    assert forall|j: int| 0 <= j < strs_view(v@).len() implies strs_view(v@)[j] != s@ by {
        assert(strs_view(v@)[j] == v@[j]@);
    }
    false
}

/// The uploads of a plan, in plan order.  Only paths already on the
/// remote (`existing`) are archived, and only when versions are kept.
pub fn upload_jobs(
    remote_prefix: &str,
    files: &Vec<LocalFile>,
    versions_to_keep: usize,
    existing: &Vec<String>,
) -> (r: Vec<UploadJob>)
    ensures
        r@.len() == files@.len(),
        forall|i: int|
            0 <= i < r@.len() ==> upload_job_ok(
                #[trigger] r@[i],
                files@[i],
                remote_prefix@,
                versions_to_keep,
                strs_view(existing@),
            ),
{
    let mut out: Vec<UploadJob> = Vec::new();
    let mut i: usize = 0;
    while i < files.len()
        invariant
            i <= files@.len(),
            out@.len() == i,
            forall|j: int|
                0 <= j < i ==> upload_job_ok(
                    #[trigger] out@[j],
                    files@[j],
                    remote_prefix@,
                    versions_to_keep,
                    strs_view(existing@),
                ),
        decreases files@.len() - i,
    {
        let f = &files[i];
        let archive = versions_to_keep > 0 && contains_text(existing, f.relative.as_str());
        out.push(
            UploadJob {
                rel: f.relative.clone(),
                key: to_remote_key(remote_prefix, f.relative.as_str()),
                absolute: f.absolute.clone(),
                size: f.size,
                archive_first: archive,
                streamed: f.size > LARGE_FILE_THRESHOLD,
            },
        );
        i = i + 1;
    }
    out
}

/// One download: `key` is written to `target`; `streamed` files are written
/// straight to disk.
#[derive(Debug)]
pub struct DownloadJob {
    pub rel: String,
    pub key: String,
    pub target: LocalPath,
    pub size: u64,
    pub streamed: bool,
}

/// The download of `rel` into the save-path root its entry names; a root
/// index beyond the roots fails that download.
pub fn download_job(remote_prefix: &str, roots: &Vec<String>, rel: &str, e: &RemoteIndexEntry) -> (r:
    Result<DownloadJob, AppError>)
    ensures
        e.root_index < roots@.len() ==> (r matches Ok(j) && j.rel@ == rel@ && j.key@
            == remote_key_spec(remote_prefix@, rel@) && j.target.root@ == roots@[e.root_index as int]@
            && j.target.parts@.map_values(|s: String| s@) == split_spec(rel@, '/') && j.size == e.size
            && j.streamed == (e.size > LARGE_FILE_THRESHOLD)),
        e.root_index >= roots@.len() ==> (r matches Err(AppError::Path(m)) && m@
            == "save path index "@ + decimal(e.root_index as nat) + " out of range (only "@
            + decimal(roots@.len() as nat) + " roots)"@),
{
    let target = match resolve_local_path(roots, e.root_index, rel) {
        Ok(t) => t,
        Err(err) => {
            return Err(err);
        },
    };
    Ok(
        DownloadJob {
            rel: owned(rel),
            key: to_remote_key(remote_prefix, rel),
            target,
            size: e.size,
            streamed: e.size > LARGE_FILE_THRESHOLD,
        },
    )
}

/// One remote deletion, archiving the file first when versions are kept.
#[derive(Debug)]
pub struct RemoteDeleteJob {
    pub rel: String,
    pub key: String,
    pub archive_first: bool,
}

/// The remote deletions of a plan, in plan order.
pub fn remote_delete_jobs(remote_prefix: &str, rels: &Vec<String>, versions_to_keep: usize) -> (r:
    Vec<RemoteDeleteJob>)
    ensures
        r@.len() == rels@.len(),
        forall|i: int|
            0 <= i < r@.len() ==> {
                &&& (#[trigger] r@[i]).rel@ == rels@[i]@
                &&& r@[i].key@ == remote_key_spec(remote_prefix@, rels@[i]@)
                &&& r@[i].archive_first == (versions_to_keep > 0)
            },
{
    let mut out: Vec<RemoteDeleteJob> = Vec::new();
    let mut i: usize = 0;
    while i < rels.len()
        invariant
            i <= rels@.len(),
            out@.len() == i,
            forall|j: int|
                0 <= j < i ==> {
                    &&& (#[trigger] out@[j]).rel@ == rels@[j]@
                    &&& out@[j].key@ == remote_key_spec(remote_prefix@, rels@[j]@)
                    &&& out@[j].archive_first == (versions_to_keep > 0)
                },
        decreases rels@.len() - i,
    {
        out.push(
            RemoteDeleteJob {
                rel: rels[i].clone(),
                key: to_remote_key(remote_prefix, rels[i].as_str()),
                archive_first: versions_to_keep > 0,
            },
        );
        i = i + 1;
    }
    out
}

/// Status text while uploading `n` files.
pub fn uploading_message(n: usize) -> (s: String)
    ensures
        s@ == "上传 "@ + decimal(n as nat) + " 个文件"@,
{
    let d = u64_to_string(n as u64);
    concat3("上传 ", d.as_str(), " 个文件")
}

/// Status text while downloading `n` files.
pub fn downloading_message(n: usize) -> (s: String)
    ensures
        s@ == "下载 "@ + decimal(n as nat) + " 个文件"@,
{
    let d = u64_to_string(n as u64);
    concat3("下载 ", d.as_str(), " 个文件")
}

// ---------------------------------------------------------------------------
// Order of a run
// ---------------------------------------------------------------------------

/// The stages of carrying out a plan, in the order they run.
#[derive(Debug, Clone, Copy, PartialEq, Eq, Structural)]
pub enum RunStage {
    /// Rescue copies of both sides of each conflict, before anything is
    /// overwritten.
    ConflictCopies,
    Uploads,
    Downloads,
    RemoteDeletes,
    LocalDeletes,
    /// The new remote index, written once the transfers are done.
    SaveIndex,
    /// Pruning old versions, when versions are kept.
    Prune,
    /// The local record of the synced state.
    SavePrior,
    /// The plan ran to its end.
    Done,
    /// A transfer or the index failed; nothing further runs.
    Failed,
}

/// The position of a stage in the order of a run.
pub open spec fn stage_rank(s: RunStage) -> int {
    match s {
        RunStage::ConflictCopies => 0,
        RunStage::Uploads => 1,
        RunStage::Downloads => 2,
        RunStage::RemoteDeletes => 3,
        RunStage::LocalDeletes => 4,
        RunStage::SaveIndex => 5,
        RunStage::Prune => 6,
        RunStage::SavePrior => 7,
        RunStage::Done => 8,
        RunStage::Failed => 9,
    }
}

/// The working stage at a position (`Done` past the last).
pub open spec fn stage_at(k: int) -> RunStage {
    if k <= 0 {
        RunStage::ConflictCopies
    } else if k == 1 {
        RunStage::Uploads
    } else if k == 2 {
        RunStage::Downloads
    } else if k == 3 {
        RunStage::RemoteDeletes
    } else if k == 4 {
        RunStage::LocalDeletes
    } else if k == 5 {
        RunStage::SaveIndex
    } else if k == 6 {
        RunStage::Prune
    } else if k == 7 {
        RunStage::SavePrior
    } else {
        RunStage::Done
    }
}

/// Whether a run is over.
pub open spec fn stage_is_final(s: RunStage) -> bool {
    s is Done || s is Failed
}

/// Whether a stage has work in a plan: each list stage when its list is
/// not empty, pruning when versions are kept, the two records always.
pub open spec fn stage_has_work(s: RunStage, p: SyncPlan, versions_to_keep: usize) -> bool {
    match s {
        RunStage::ConflictCopies => p.conflicts@.len() > 0,
        RunStage::Uploads => p.upload@.len() > 0,
        RunStage::Downloads => p.download@.len() > 0,
        RunStage::RemoteDeletes => p.delete_remote@.len() > 0,
        RunStage::LocalDeletes => p.delete_local@.len() > 0,
        RunStage::SaveIndex => true,
        RunStage::Prune => versions_to_keep > 0,
        RunStage::SavePrior => true,
        RunStage::Done => false,
        RunStage::Failed => false,
    }
}

/// Whether a failure of the stage's work fails the run: the transfers and
/// the index.  The other stages log a failure and go on.
pub open spec fn stage_is_critical(s: RunStage) -> bool {
    s is Uploads || s is Downloads || s is SaveIndex
}

/// The first stage from position `k` on that has work.
pub open spec fn first_stage_from(k: int, p: SyncPlan, versions_to_keep: usize) -> RunStage
    decreases 8 - k,
{
    if k >= 8 {
        RunStage::Done
    } else if stage_has_work(stage_at(k), p, versions_to_keep) {
        stage_at(k)
    } else {
        first_stage_from(k + 1, p, versions_to_keep)
    }
}

/// The stage after `s`, whose work succeeded (`ok`) or not.
pub open spec fn next_stage_spec(s: RunStage, ok: bool, p: SyncPlan, versions_to_keep: usize) -> RunStage {
    if stage_is_final(s) {
        s
    } else if !ok && stage_is_critical(s) {
        RunStage::Failed
    } else {
        first_stage_from(stage_rank(s) + 1, p, versions_to_keep)
    }
}

proof fn lemma_first_stage_from(k: int, p: SyncPlan, v: usize)
    requires
        0 <= k,
    ensures
        first_stage_from(k, p, v) is Done || (stage_has_work(first_stage_from(k, p, v), p, v)
            && stage_rank(first_stage_from(k, p, v)) >= k && !stage_is_final(
            first_stage_from(k, p, v),
        )),
        stage_rank(first_stage_from(k, p, v)) >= k || first_stage_from(k, p, v) is Done,
    decreases 8 - k,
{
    if k < 8 && !stage_has_work(stage_at(k), p, v) {
        lemma_first_stage_from(k + 1, p, v);
    }
}

fn stage_of_rank(k: u8) -> (s: RunStage)
    ensures
        s == stage_at(k as int),
{
    if k == 0 {
        RunStage::ConflictCopies
    } else if k == 1 {
        RunStage::Uploads
    } else if k == 2 {
        RunStage::Downloads
    } else if k == 3 {
        RunStage::RemoteDeletes
    } else if k == 4 {
        RunStage::LocalDeletes
    } else if k == 5 {
        RunStage::SaveIndex
    } else if k == 6 {
        RunStage::Prune
    } else if k == 7 {
        RunStage::SavePrior
    } else {
        RunStage::Done
    }
}

fn rank_of(s: RunStage) -> (k: u8)
    ensures
        k == stage_rank(s),
{
    match s {
        RunStage::ConflictCopies => 0,
        RunStage::Uploads => 1,
        RunStage::Downloads => 2,
        RunStage::RemoteDeletes => 3,
        RunStage::LocalDeletes => 4,
        RunStage::SaveIndex => 5,
        RunStage::Prune => 6,
        RunStage::SavePrior => 7,
        RunStage::Done => 8,
        RunStage::Failed => 9,
    }
}

fn has_work(s: RunStage, plan: &SyncPlan, versions_to_keep: usize) -> (b: bool)
    ensures
        b == stage_has_work(s, *plan, versions_to_keep),
{
    match s {
        RunStage::ConflictCopies => plan.conflicts.len() > 0,
        RunStage::Uploads => plan.upload.len() > 0,
        RunStage::Downloads => plan.download.len() > 0,
        RunStage::RemoteDeletes => plan.delete_remote.len() > 0,
        RunStage::LocalDeletes => plan.delete_local.len() > 0,
        RunStage::SaveIndex => true,
        RunStage::Prune => versions_to_keep > 0,
        RunStage::SavePrior => true,
        RunStage::Done => false,
        RunStage::Failed => false,
    }
}

fn first_stage_at(k: u8, plan: &SyncPlan, versions_to_keep: usize) -> (s: RunStage)
    requires
        k <= 9,
    ensures
        s == first_stage_from(k as int, *plan, versions_to_keep),
{
    let mut i: u8 = k;
    while i < 8
        invariant
            k <= i <= 9,
            first_stage_from(k as int, *plan, versions_to_keep) == first_stage_from(
                i as int,
                *plan,
                versions_to_keep,
            ),
        decreases 9 - i,
    {
        let st = stage_of_rank(i);
        if has_work(st, plan, versions_to_keep) {
            return st;
        }
        i = i + 1;
    }
    RunStage::Done
}

/// Where carrying out a plan starts: the first stage with work.
pub fn first_stage(plan: &SyncPlan, versions_to_keep: usize) -> (s: RunStage)
    ensures
        s == first_stage_from(0, *plan, versions_to_keep),
{
    first_stage_at(0, plan, versions_to_keep)
}

/// The stage after `stage`, whose work succeeded (`ok`) or not: a failed
/// transfer or index fails the run; otherwise the next stage with work, in
/// the order of `RunStage`.  A finished run stays where it is.
pub fn next_stage(stage: RunStage, ok: bool, plan: &SyncPlan, versions_to_keep: usize) -> (s: RunStage)
    ensures
        s == next_stage_spec(stage, ok, *plan, versions_to_keep),
        !stage_is_final(stage) ==> stage_rank(s) > stage_rank(stage),
        !ok && stage_is_critical(stage) ==> s is Failed,
        s is Failed ==> stage is Failed || (!ok && stage_is_critical(stage)),
{
    proof {
        if !stage_is_final(stage) {
            lemma_first_stage_from(stage_rank(stage) + 1, *plan, versions_to_keep);
        }
    }
    match stage {
        RunStage::Done => RunStage::Done,
        RunStage::Failed => RunStage::Failed,
        _ => {
            let critical = match stage {
                RunStage::Uploads => true,
                RunStage::Downloads => true,
                RunStage::SaveIndex => true,
                _ => false,
            };
            if !ok && critical {
                RunStage::Failed
            } else {
                first_stage_at(rank_of(stage) + 1, plan, versions_to_keep)
            }
        },
    }
}

proof fn lemma_first_stage_not_past(k: int, t: RunStage, p: SyncPlan, v: usize)
    requires
        0 <= k <= stage_rank(t),
        stage_rank(t) < 8,
        stage_has_work(t, p, v),
    ensures
        stage_rank(first_stage_from(k, p, v)) <= stage_rank(t),
    decreases 8 - k,
{
    if !stage_has_work(stage_at(k), p, v) {
        assert(k != stage_rank(t));
        lemma_first_stage_not_past(k + 1, t, p, v);
    }
}

/// A run never passes over work the plan holds: it starts at or before,
/// and from every earlier stage that does not fail the run moves on to at
/// most, the conflict copies when there are conflicts, the uploads when
/// there are uploads, the downloads, the remote deletions and the local
/// deletions when there are any, the index always, pruning when versions
/// are kept, and the local record always.
pub proof fn law_run_visits_planned_work(s: RunStage, ok: bool, p: SyncPlan, v: usize)
    ensures
        p.conflicts@.len() > 0 ==> stage_rank(first_stage_from(0, p, v)) <= 0,
        p.upload@.len() > 0 ==> stage_rank(first_stage_from(0, p, v)) <= 1,
        p.download@.len() > 0 ==> stage_rank(first_stage_from(0, p, v)) <= 2,
        p.delete_remote@.len() > 0 ==> stage_rank(first_stage_from(0, p, v)) <= 3,
        p.delete_local@.len() > 0 ==> stage_rank(first_stage_from(0, p, v)) <= 4,
        stage_rank(first_stage_from(0, p, v)) <= 5,
        !stage_is_final(s) && (ok || !stage_is_critical(s)) ==> {
            let n = next_stage_spec(s, ok, p, v);
            &&& (p.upload@.len() > 0 && stage_rank(s) < 1) ==> stage_rank(n) <= 1
            &&& (p.download@.len() > 0 && stage_rank(s) < 2) ==> stage_rank(n) <= 2
            &&& (p.delete_remote@.len() > 0 && stage_rank(s) < 3) ==> stage_rank(n) <= 3
            &&& (p.delete_local@.len() > 0 && stage_rank(s) < 4) ==> stage_rank(n) <= 4
            &&& stage_rank(s) < 5 ==> stage_rank(n) <= 5
            &&& (v > 0 && stage_rank(s) < 6) ==> stage_rank(n) <= 6
            &&& stage_rank(s) < 7 ==> stage_rank(n) <= 7
        },
{
    if p.conflicts@.len() > 0 {
        lemma_first_stage_not_past(0, RunStage::ConflictCopies, p, v);
    }
    if p.upload@.len() > 0 {
        lemma_first_stage_not_past(0, RunStage::Uploads, p, v);
    }
    if p.download@.len() > 0 {
        lemma_first_stage_not_past(0, RunStage::Downloads, p, v);
    }
    if p.delete_remote@.len() > 0 {
        lemma_first_stage_not_past(0, RunStage::RemoteDeletes, p, v);
    }
    if p.delete_local@.len() > 0 {
        lemma_first_stage_not_past(0, RunStage::LocalDeletes, p, v);
    }
    lemma_first_stage_not_past(0, RunStage::SaveIndex, p, v);
    if !stage_is_final(s) && (ok || !stage_is_critical(s)) {
        let k = stage_rank(s) + 1;
        if p.upload@.len() > 0 && stage_rank(s) < 1 {
            lemma_first_stage_not_past(k, RunStage::Uploads, p, v);
        }
        if p.download@.len() > 0 && stage_rank(s) < 2 {
            lemma_first_stage_not_past(k, RunStage::Downloads, p, v);
        }
        if p.delete_remote@.len() > 0 && stage_rank(s) < 3 {
            lemma_first_stage_not_past(k, RunStage::RemoteDeletes, p, v);
        }
        if p.delete_local@.len() > 0 && stage_rank(s) < 4 {
            lemma_first_stage_not_past(k, RunStage::LocalDeletes, p, v);
        }
        if stage_rank(s) < 5 {
            lemma_first_stage_not_past(k, RunStage::SaveIndex, p, v);
        }
        if v > 0 && stage_rank(s) < 6 {
            lemma_first_stage_not_past(k, RunStage::Prune, p, v);
        }
        if stage_rank(s) < 7 {
            lemma_first_stage_not_past(k, RunStage::SavePrior, p, v);
        }
    }
}

/// The stages a run passes through from `s`, the work of the `i`-th having
/// come to `outcomes[i]`, until it is over or the outcomes run out.
pub open spec fn run_trace(s: RunStage, outcomes: Seq<bool>, p: SyncPlan, versions_to_keep: usize) -> Seq<
    RunStage,
>
    decreases outcomes.len(),
{
    if stage_is_final(s) || outcomes.len() == 0 {
        seq![s]
    } else {
        seq![s] + run_trace(
            next_stage_spec(s, outcomes[0], p, versions_to_keep),
            outcomes.drop_first(),
            p,
            versions_to_keep,
        )
    }
}

/// A run keeps the order of its stages: conflict copies before any
/// transfer, uploads before downloads, the deletions after them and the
/// index after all of these; no stage runs twice.  And the index is written
/// only when every transfer before it succeeded: after a failed upload or
/// download the run stops.
pub proof fn law_run_order(s: RunStage, outcomes: Seq<bool>, p: SyncPlan, versions_to_keep: usize)
    ensures
        forall|i: int, j: int|
            0 <= i < j < run_trace(s, outcomes, p, versions_to_keep).len() ==> stage_rank(
                #[trigger] run_trace(s, outcomes, p, versions_to_keep)[i],
            ) < stage_rank(#[trigger] run_trace(s, outcomes, p, versions_to_keep)[j]),
        forall|i: int, j: int|
            0 <= i < j < run_trace(s, outcomes, p, versions_to_keep).len() && (#[trigger] run_trace(
                s,
                outcomes,
                p,
                versions_to_keep,
            )[j]) is SaveIndex && stage_is_critical(
                #[trigger] run_trace(s, outcomes, p, versions_to_keep)[i],
            ) ==> outcomes[i],
    decreases outcomes.len(),
{
    let t = run_trace(s, outcomes, p, versions_to_keep);
    if !(stage_is_final(s) || outcomes.len() == 0) {
        let n = next_stage_spec(s, outcomes[0], p, versions_to_keep);
        let rest = outcomes.drop_first();
        law_run_order(n, rest, p, versions_to_keep);
        let t2 = run_trace(n, rest, p, versions_to_keep);
        assert(t == seq![s] + t2);
        lemma_first_stage_from(stage_rank(s) + 1, p, versions_to_keep);
        assert(stage_rank(n) > stage_rank(s));
        assert(t2[0] == n) by {
            reveal_with_fuel(run_trace, 2);
        }
        lemma_trace_rank_from(n, rest, p, versions_to_keep);
        assert forall|i: int, j: int| 0 <= i < j < t.len() implies stage_rank(#[trigger] t[i])
            < stage_rank(#[trigger] t[j]) by {
            if i == 0 {
                assert(t[j] == t2[j - 1]);
            } else {
                assert(t[i] == t2[i - 1]);
                assert(t[j] == t2[j - 1]);
            }
        }
        assert forall|i: int, j: int|
            0 <= i < j < t.len() && (#[trigger] t[j]) is SaveIndex && stage_is_critical(
                #[trigger] t[i],
            ) implies outcomes[i] by {
            assert(t[j] == t2[j - 1]);
            if i == 0 {
                if !outcomes[0] {
                    assert(n is Failed);
                    assert(t2 =~= seq![n]);
                }
            } else {
                assert(t[i] == t2[i - 1]);
                assert(outcomes[i] == rest[i - 1]);
            }
        }
    } else {
        assert(t =~= seq![s]);
    }
}

proof fn lemma_trace_rank_from(s: RunStage, outcomes: Seq<bool>, p: SyncPlan, v: usize)
    ensures
        1 <= run_trace(s, outcomes, p, v).len() <= outcomes.len() + 1,
        run_trace(s, outcomes, p, v)[0] == s,
        forall|j: int| 0 <= j < run_trace(s, outcomes, p, v).len() ==> stage_rank(s) <= stage_rank(
            #[trigger] run_trace(s, outcomes, p, v)[j],
        ),
    decreases outcomes.len(),
{
    let t = run_trace(s, outcomes, p, v);
    if !(stage_is_final(s) || outcomes.len() == 0) {
        let n = next_stage_spec(s, outcomes[0], p, v);
        lemma_first_stage_from(stage_rank(s) + 1, p, v);
        lemma_trace_rank_from(n, outcomes.drop_first(), p, v);
        let t2 = run_trace(n, outcomes.drop_first(), p, v);
        assert forall|j: int| 0 <= j < t.len() implies stage_rank(s) <= stage_rank(#[trigger] t[j]) by {
            if j > 0 {
                assert(t[j] == t2[j - 1]);
            }
        }
    }
}

// ---------------------------------------------------------------------------
// Progress
// ---------------------------------------------------------------------------

/// Progress of a batch of transfers.
#[derive(Debug, Clone, Copy)]
pub struct TransferProgress {
    pub done: usize,
    pub total: usize,
    pub done_bytes: u64,
    pub total_bytes: u64,
}

/// The start of a batch of `total` transfers of `total_bytes` bytes.
pub fn start_progress(total: usize, total_bytes: u64) -> (p: TransferProgress)
    ensures
        p.done == 0,
        p.done_bytes == 0,
        p.total == total,
        p.total_bytes == total_bytes,
{
    TransferProgress { done: 0, total, done_bytes: 0, total_bytes }
}

/// One more transfer of `size` bytes finished.
pub fn advance(p: &mut TransferProgress, size: u64)
    requires
        old(p).done < usize::MAX,
        old(p).done_bytes + size <= u64::MAX,
    ensures
        final(p).done == old(p).done + 1,
        final(p).done_bytes == old(p).done_bytes + size,
        final(p).total == old(p).total,
        final(p).total_bytes == old(p).total_bytes,
{
    p.done = p.done + 1;
    p.done_bytes = p.done_bytes + size;
}

/// Total size of the files to upload.
pub fn total_upload_bytes(files: &Vec<LocalFile>) -> (n: u64)
    requires
        upload_bytes(files@) <= u64::MAX,
    ensures
        n == upload_bytes(files@),
{
    let mut t: u64 = 0;
    let mut i: usize = 0;
    while i < files.len()
        invariant
            i <= files@.len(),
            upload_bytes(files@) <= u64::MAX,
            t == upload_bytes(files@.subrange(0, i as int)),
        decreases files@.len() - i,
    {
        proof {
            crate::engine::lemma_upload_bytes_prefix(files@, i + 1);
            assert(files@.subrange(0, i + 1).drop_last() =~= files@.subrange(0, i as int));
        }
        t = t + files[i].size;
        i = i + 1;
    }
    assert(files@.subrange(0, files@.len() as int) =~= files@);
    t
}


/// Total size of the files to download.
pub fn total_download_bytes(items: &Vec<(String, RemoteIndexEntry)>) -> (n: u64)
    requires
        download_bytes(items@) <= u64::MAX,
    ensures
        n == download_bytes(items@),
{
    let mut t: u64 = 0;
    let mut i: usize = 0;
    while i < items.len()
        invariant
            i <= items@.len(),
            download_bytes(items@) <= u64::MAX,
            t == download_bytes(items@.subrange(0, i as int)),
        decreases items@.len() - i,
    {
        proof {
            crate::engine::lemma_download_bytes_prefix(items@, i + 1);
            assert(items@.subrange(0, i + 1).drop_last() =~= items@.subrange(0, i as int));
        }
        t = t + items[i].1.size;
        i = i + 1;
    }
    assert(items@.subrange(0, items@.len() as int) =~= items@);
    t
}


// ---------------------------------------------------------------------------
// Reporting
// ---------------------------------------------------------------------------

/// Remote objects that are game files, not the library's own bookkeeping
/// under `.gsyncing/`.
pub open spec fn user_file_count(es: Seq<RemoteFileMeta>) -> nat
    decreases es.len(),
{
    if es.len() == 0 {
        0
    } else {
        user_file_count(es.drop_last()) + if seq_contains_sub(es.last().key@, "/.gsyncing/"@) {
            0nat
        } else {
            1nat
        }
    }
}

/// Counts the remote objects that are game files.
pub fn count_user_files(entries: &Vec<RemoteFileMeta>) -> (n: usize)
    ensures
        n == user_file_count(entries@),
{
    let mut n: usize = 0;
    let mut i: usize = 0;
    while i < entries.len()
        invariant
            i <= entries@.len(),
            n == user_file_count(entries@.subrange(0, i as int)),
            n <= i,
        decreases entries@.len() - i,
    {
        assert(entries@.subrange(0, i + 1).drop_last() =~= entries@.subrange(0, i as int));
        if !contains_str(entries[i].key.as_str(), "/.gsyncing/") {
            n = n + 1;
        }
        i = i + 1;
    }
    assert(entries@.subrange(0, entries@.len() as int) =~= entries@);
    n
}

/// The direction as recorded in statistics.
pub open spec fn direction_label_spec(d: SyncDirection) -> Seq<char> {
    match d {
        SyncDirection::Auto => "auto"@,
        SyncDirection::Push => "push"@,
        SyncDirection::Pull => "pull"@,
    }
}

/// `auto`, `push` or `pull`.
pub fn direction_label(d: SyncDirection) -> (s: String)
    ensures
        s@ == direction_label_spec(d),
{
    match d {
        SyncDirection::Auto => owned("auto"),
        SyncDirection::Push => owned("push"),
        SyncDirection::Pull => owned("pull"),
    }
}

/// Status of a game whose sync was refused (for instance by another
/// machine's lock).
pub fn refused_status(game_id: String, message: String) -> (s: GameSyncStatus)
    ensures
        s.game_id == game_id,
        s.state == SyncStateKind::Error,
        s.message == Some(message),
        s.local_files == 0,
        s.remote_files == 0,
        s.last_sync_at is None,
        s.last_error matches Some(e) && e@ == message@,
{
    let e = message.clone();
    GameSyncStatus {
        game_id,
        state: SyncStateKind::Error,
        message: Some(message),
        local_files: 0,
        remote_files: 0,
        last_sync_at: None,
        last_error: Some(e),
    }
}

/// What a finished run reports: the game's status, its statistics line,
/// and (when notifications are on) the notification's title and body.
#[derive(Debug)]
pub struct RunReport {
    pub status: GameSyncStatus,
    pub stat: StatEntry,
    pub notify_title: Option<String>,
    pub notify_body: Option<String>,
}

/// The report of a run that started at `started_ms`, ended at `now_ms` and
/// failed with the text `error` (or succeeded).
pub fn finish_run(
    game_id: &str,
    game_name: &str,
    direction: SyncDirection,
    started_ms: i64,
    now_ms: i64,
    local_files: usize,
    remote_files: usize,
    error: Option<String>,
    notify: bool,
) -> (r: RunReport)
    requires
        i64::MIN <= now_ms - started_ms <= i64::MAX,
    ensures
        r.status.game_id@ == game_id@,
        r.status.local_files == local_files,
        r.status.remote_files == remote_files,
        r.stat.ts == now_ms,
        r.stat.game_id@ == game_id@,
        r.stat.direction@ == direction_label_spec(direction),
        r.stat.uploaded_files == 0,
        r.stat.downloaded_files == 0,
        r.stat.total_bytes == 0,
        r.stat.duration_ms == now_ms - started_ms,
        match error {
            None => {
                &&& r.status.state == SyncStateKind::Synced
                &&& r.status.message matches Some(m) && m@ == "已同步"@
                &&& r.status.last_sync_at == Some(now_ms)
                &&& r.status.last_error is None
                &&& r.stat.success
                &&& r.stat.error is None
                &&& (notify ==> (r.notify_title matches Some(t) && t@ == game_name@ + " 同步完成"@
                    && r.notify_body is None))
            },
            Some(e) => {
                &&& r.status.state == SyncStateKind::Error
                &&& r.status.message matches Some(m) && m@ == e@
                &&& r.status.last_sync_at is None
                &&& r.status.last_error matches Some(m) && m@ == e@
                &&& !r.stat.success
                &&& r.stat.error matches Some(m) && m@ == e@
                &&& (notify ==> (r.notify_title matches Some(t) && t@ == game_name@ + " 同步失败"@))
                &&& (notify ==> (r.notify_body matches Some(b) && b@ == e@))
            },
        },
        !notify ==> r.notify_title is None && r.notify_body is None,
{
    let duration = now_ms - started_ms;
    let label = direction_label(direction);
    match error {
        None => {
            let title = if notify {
                Some(crate::text::concat2(game_name, " 同步完成"))
            } else {
                None
            };
            RunReport {
                status: GameSyncStatus {
                    game_id: owned(game_id),
                    state: SyncStateKind::Synced,
                    message: Some(owned("已同步")),
                    local_files,
                    remote_files,
                    last_sync_at: Some(now_ms),
                    last_error: None,
                },
                stat: StatEntry {
                    ts: now_ms,
                    game_id: owned(game_id),
                    direction: label,
                    success: true,
                    uploaded_files: 0,
                    downloaded_files: 0,
                    total_bytes: 0,
                    duration_ms: duration,
                    error: None,
                },
                notify_title: title,
                notify_body: None,
            }
        },
        Some(e) => {
            let title = if notify {
                Some(crate::text::concat2(game_name, " 同步失败"))
            } else {
                None
            };
            let body = if notify {
                Some(e.clone())
            } else {
                None
            };
            RunReport {
                status: GameSyncStatus {
                    game_id: owned(game_id),
                    state: SyncStateKind::Error,
                    message: Some(e.clone()),
                    local_files,
                    remote_files,
                    last_sync_at: None,
                    last_error: Some(e.clone()),
                },
                stat: StatEntry {
                    ts: now_ms,
                    game_id: owned(game_id),
                    direction: label,
                    success: false,
                    uploaded_files: 0,
                    downloaded_files: 0,
                    total_bytes: 0,
                    duration_ms: duration,
                    error: Some(e),
                },
                notify_title: title,
                notify_body: body,
            }
        },
    }
}

/// Burst size of the bandwidth limiter: one second's worth at the given
/// rate, or 1 MiB when unlimited (rate 0).
pub fn bucket_capacity(rate_bytes_per_sec: u64) -> (c: u64)
    ensures
        c == if rate_bytes_per_sec == 0 { 1048576 } else { rate_bytes_per_sec },
{
    if rate_bytes_per_sec == 0 {
        1048576
    } else {
        rate_bytes_per_sec
    }
}

} // verus!
