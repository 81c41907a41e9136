use gsyncing::run::{first_stage, next_stage, RunStage};
use gsyncing::engine::{
    build_index, decide_conflict, plan_pull, plan_push, plan_to_preview, plan_two_way,
    remote_prefix_for, sanitize_id, ConflictOverrides, ConflictResolution, LocalFile, RemoteIndex,
    RemoteIndexEntry,
};
use gsyncing::keymap::KeyMap;
use gsyncing::model::{ConflictPolicy, GameProfile, SyncDirection};

fn lf(rel: &str, sha: &str, size: u64, mtime: i64) -> LocalFile {
    LocalFile {
        absolute: format!("/tmp/{rel}"),
        relative: rel.into(),
        root_index: 0,
        size,
        modified_ms: mtime,
        sha256: sha.into(),
    }
}

fn re(sha: &str, size: u64, mtime: i64) -> RemoteIndexEntry {
    RemoteIndexEntry { sha256: sha.into(), size, modified_ms: mtime, root_index: 0 }
}

fn no_ov() -> ConflictOverrides {
    KeyMap::new()
}

fn roots() -> Vec<String> {
    vec!["/r".to_string()]
}

#[test]
fn decide_local_only_changed_picks_local() {
    let l = lf("a", "L", 1, 200);
    let r = re("R", 1, 100);
    match decide_conflict(&l, &r, true, false, ConflictPolicy::RenameBoth, &no_ov(), "a") {
        ConflictResolution::PickLocal => {}
        _ => panic!("expected PickLocal when only local changed"),
    }
}

#[test]
fn decide_remote_only_changed_picks_remote() {
    let l = lf("a", "L", 1, 100);
    let r = re("R", 1, 200);
    match decide_conflict(&l, &r, false, true, ConflictPolicy::RenameBoth, &no_ov(), "a") {
        ConflictResolution::PickRemote => {}
        _ => panic!("expected PickRemote when only remote changed"),
    }
}

#[test]
fn decide_both_changed_rename_both() {
    let l = lf("a", "L", 1, 200);
    let r = re("R", 1, 100);
    match decide_conflict(&l, &r, true, true, ConflictPolicy::RenameBoth, &no_ov(), "a") {
        ConflictResolution::RenameBoth => {}
        _ => panic!("expected RenameBoth under that policy"),
    }
}

#[test]
fn decide_both_changed_newer_wins_local() {
    let l = lf("a", "L", 1, 300);
    let r = re("R", 1, 200);
    match decide_conflict(&l, &r, true, true, ConflictPolicy::NewerWins, &no_ov(), "a") {
        ConflictResolution::PickLocal => {}
        _ => panic!("local has newer mtime under newer-wins"),
    }
}

#[test]
fn decide_both_changed_newer_wins_remote() {
    let l = lf("a", "L", 1, 100);
    let r = re("R", 1, 200);
    match decide_conflict(&l, &r, true, true, ConflictPolicy::NewerWins, &no_ov(), "a") {
        ConflictResolution::PickRemote => {}
        _ => panic!("remote has newer mtime under newer-wins"),
    }
}

#[test]
fn decide_override_beats_policy() {
    let l = lf("a", "L", 1, 100);
    let r = re("R", 1, 999);
    let mut ov = no_ov();
    ov.insert("a".into(), "local".into());
    match decide_conflict(&l, &r, true, true, ConflictPolicy::RemoteWins, &ov, "a") {
        ConflictResolution::PickLocal => {}
        _ => panic!("override should beat policy"),
    }
    match decide_conflict(&l, &r, true, true, ConflictPolicy::RemoteWins, &ov, "b") {
        ConflictResolution::PickRemote => {}
        _ => panic!("policy should win when override key doesn't match"),
    }
}

#[test]
fn decide_local_wins_policy_ignores_changes() {
    let l = lf("a", "L", 1, 100);
    let r = re("R", 1, 999);
    match decide_conflict(&l, &r, true, true, ConflictPolicy::LocalWins, &no_ov(), "a") {
        ConflictResolution::PickLocal => {}
        _ => panic!("policy=LocalWins should always pick local on tie"),
    }
}

#[test]
fn plan_push_new_files_get_uploaded() {
    let prev = RemoteIndex::default();
    let existing: Vec<String> = Vec::new();
    let local = vec![lf("a/b.dat", "h1", 10, 1)];
    let plan = plan_push(&local, &prev, &existing, &roots());
    assert_eq!(plan.upload.len(), 1);
    assert!(plan.delete_remote.is_empty());
}

#[test]
fn plan_push_unchanged_files_skipped() {
    let mut prev = RemoteIndex::default();
    prev.files.insert("a/b.dat".into(), re("h1", 10, 1));
    let existing = prev.key_list();
    let local = vec![lf("a/b.dat", "h1", 10, 1)];
    let plan = plan_push(&local, &prev, &existing, &roots());
    assert!(plan.upload.is_empty());
}

#[test]
fn plan_push_missing_local_marks_for_remote_deletion() {
    let mut prev = RemoteIndex::default();
    prev.files.insert("gone.dat".into(), re("hX", 1, 0));
    let existing = prev.key_list();
    let local: Vec<LocalFile> = vec![];
    let plan = plan_push(&local, &prev, &existing, &roots());
    assert_eq!(plan.delete_remote, vec!["gone.dat".to_string()]);
}

#[test]
fn plan_pull_empty_remote_is_noop() {
    let local = vec![lf("a", "h", 1, 1)];
    let plan = plan_pull(&local, &RemoteIndex::default(), &RemoteIndex::default(), &roots());
    assert!(plan.download.is_empty());
    assert!(plan.delete_local.is_empty());
}

#[test]
fn plan_pull_downloads_changed_and_deletes_vanished() {
    let local = vec![lf("keep", "same", 1, 1), lf("old", "o", 1, 1), lf("stale", "s1", 1, 1)];
    let mut remote = RemoteIndex::default();
    remote.files.insert("keep".into(), re("same", 1, 1));
    remote.files.insert("stale".into(), re("s2", 2, 2));
    remote.files.insert("new".into(), re("n", 3, 3));
    let mut prior = RemoteIndex::default();
    prior.files.insert("old".into(), re("o", 1, 1));
    let plan = plan_pull(&local, &remote, &prior, &roots());
    let dl: Vec<&str> = plan.download.iter().map(|(r, _)| r.as_str()).collect();
    assert_eq!(dl, vec!["new", "stale"]);
    assert_eq!(plan.delete_local, vec![("old".to_string(), "/tmp/old".to_string())]);
}

#[test]
fn two_way_rename_both_keeps_both_copies() {
    let local = vec![lf("s.dat", "L", 5, 300)];
    let mut remote = RemoteIndex::default();
    remote.files.insert("s.dat".into(), re("R", 6, 200));
    let mut prior = RemoteIndex::default();
    prior.files.insert("s.dat".into(), re("P", 4, 100));
    let plan = plan_two_way(&local, &remote, &prior, &roots(), ConflictPolicy::RenameBoth, &no_ov(), "STAMP");
    assert_eq!(plan.conflicts.len(), 1);
    assert_eq!(plan.conflicts[0].local_rename, "s.dat.local-STAMP");
    assert_eq!(plan.conflicts[0].remote_rename, "s.dat.remote-STAMP");
    assert_eq!(plan.upload.len(), 1);
    assert!(plan.download.is_empty());
}

#[test]
fn two_way_in_sync_files_do_nothing() {
    let local = vec![lf("a", "h", 1, 1)];
    let mut remote = RemoteIndex::default();
    remote.files.insert("a".into(), re("h", 1, 1));
    let plan = plan_two_way(&local, &remote, &remote.duplicate(), &roots(), ConflictPolicy::RenameBoth, &no_ov(), "S");
    assert!(plan.upload.is_empty() && plan.download.is_empty());
    assert!(plan.delete_local.is_empty() && plan.delete_remote.is_empty());
    assert!(plan.conflicts.is_empty());
}

#[test]
fn two_way_one_sided_changes() {
    let local = vec![lf("newlocal", "x", 1, 1), lf("gone_remote", "g", 1, 1)];
    let mut remote = RemoteIndex::default();
    remote.files.insert("newremote".into(), re("y", 2, 2));
    let mut prior = RemoteIndex::default();
    prior.files.insert("gone_remote".into(), re("g", 1, 1));
    let plan = plan_two_way(&local, &remote, &prior, &roots(), ConflictPolicy::RenameBoth, &no_ov(), "S");
    let up: Vec<&str> = plan.upload.iter().map(|f| f.relative.as_str()).collect();
    assert_eq!(up, vec!["newlocal"]);
    let dl: Vec<&str> = plan.download.iter().map(|(r, _)| r.as_str()).collect();
    assert_eq!(dl, vec!["newremote"]);
    assert_eq!(plan.delete_local.len(), 1);
    assert_eq!(plan.delete_local[0].0, "gone_remote");
}

#[test]
fn build_index_records_each_file() {
    let idx = build_index(&vec![lf("b", "hb", 2, 20), lf("a", "ha", 1, 10)]);
    assert_eq!(idx.key_list(), vec!["a".to_string(), "b".to_string()]);
    assert_eq!(idx.files.get("b").unwrap().sha256, "hb");
}

#[test]
fn sanitize_id_exact_value() {
    // The suffix is the first four bytes of SHA-256 over "g1" and the raw name.
    assert_eq!(sanitize_id("g1", "My: Game?"), "My Game-171ca13d");
    assert_eq!(sanitize_id("g1", "///"), "8203e173");
}

#[test]
fn remote_prefix_prefers_explicit() {
    let mut g = GameProfile::default();
    g.id = "x".into();
    g.name = "Game".into();
    g.remote_prefix = Some("custom/p".into());
    assert_eq!(remote_prefix_for(&g), "custom/p");
    g.remote_prefix = None;
    assert!(remote_prefix_for(&g).starts_with("games/Game-"));
}

#[test]
fn preview_totals_bytes() {
    let local = vec![lf("a", "h", 10, 1), lf("b", "h2", 5, 1)];
    let plan = plan_push(&local, &RemoteIndex::default(), &Vec::new(), &roots());
    let p = plan_to_preview(&plan, "g".into(), SyncDirection::Push);
    assert_eq!(p.total_bytes, 15);
    assert_eq!(p.uploads.len(), 2);
}

#[test]
fn run_stages_follow_the_plan_and_stop_on_failed_transfer() {
    let prev = RemoteIndex::default();
    let existing: Vec<String> = Vec::new();
    let local = vec![lf("a/b.dat", "h1", 10, 1)];
    let plan = plan_push(&local, &prev, &existing, &roots());
    // No conflict: the run starts with the uploads.
    let s = first_stage(&plan, 5);
    assert_eq!(s, RunStage::Uploads);
    // A failed upload stops the run before the index.
    assert_eq!(next_stage(s, false, &plan, 5), RunStage::Failed);
    // A successful one goes on to the index, pruning, the local record.
    let s = next_stage(s, true, &plan, 5);
    assert_eq!(s, RunStage::SaveIndex);
    let s = next_stage(s, true, &plan, 5);
    assert_eq!(s, RunStage::Prune);
    assert_eq!(next_stage(RunStage::SaveIndex, true, &plan, 0), RunStage::SavePrior);
    let s = next_stage(s, false, &plan, 5);
    assert_eq!(s, RunStage::SavePrior);
    assert_eq!(next_stage(s, true, &plan, 5), RunStage::Done);
    assert_eq!(next_stage(RunStage::Done, false, &plan, 5), RunStage::Done);
}
