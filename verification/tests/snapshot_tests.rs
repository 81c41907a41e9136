use gsyncing::snapshots::{create_next, delete_next, CreateStage, DeleteStage};
use gsyncing::engine::{LocalFile, RemoteIndexEntry};
use gsyncing::model::SnapshotFileEntry;
use gsyncing::snapshots::{
    blob_key, files_prefix, index_from_snapshot, live_copies, manifest_for, manifest_key, restore_target,
    sanitize_name, sort_summaries, SnapshotSummary,
};

#[test]
fn sanitize_empty_rejected() {
    assert!(sanitize_name("").is_err());
    assert!(sanitize_name("   ").is_err());
    assert!(sanitize_name("\t").is_err());
}

#[test]
fn sanitize_too_long_rejected() {
    let s = "a".repeat(101);
    assert!(sanitize_name(&s).is_err());
    assert!(sanitize_name(&"a".repeat(100)).is_ok());
}

#[test]
fn sanitize_replaces_path_hostile_chars() {
    assert_eq!(sanitize_name(r#"foo/bar\baz:qux*?"<>|"#).unwrap(), "foo_bar_baz_qux______");
}

#[test]
fn sanitize_keeps_chinese_and_emoji() {
    assert_eq!(sanitize_name("黑暗剧情线 - 决战前 🎮").unwrap(), "黑暗剧情线 - 决战前 🎮");
}

#[test]
fn sanitize_strips_control_chars() {
    let with_control = "name\x01\x02\twith\x1Fcontrol";
    let out = sanitize_name(with_control).unwrap();
    assert!(!out.chars().any(|c| c.is_control()));
    assert!(out.contains("name"));
    assert!(out.contains("with"));
    assert!(out.contains("control"));
}

#[test]
fn sanitize_error_texts() {
    match sanitize_name("") {
        Err(gsyncing::error::AppError::Other(m)) => assert_eq!(m, "快照名称不能为空"),
        _ => panic!(),
    }
    match sanitize_name(&"黑".repeat(101)) {
        Err(gsyncing::error::AppError::Other(m)) => assert_eq!(m, "快照名称过长（最多 100 字符）"),
        _ => panic!(),
    }
}

#[test]
fn sanitize_limit_counts_characters() {
    // Forty wide characters are 120 bytes but only 40 characters.
    assert_eq!(sanitize_name(&"黑".repeat(40)).unwrap(), "黑".repeat(40));
    assert_eq!(sanitize_name(&"黑".repeat(100)).unwrap(), "黑".repeat(100));
    assert!(sanitize_name(&"黑".repeat(101)).is_err());
}

#[test]
fn snapshot_layout_keys() {
    assert_eq!(manifest_key("games/g", "id1"), "games/g/.gsyncing/snapshots/manifests/id1.json");
    assert_eq!(files_prefix("games/g", "id1"), "games/g/.gsyncing/snapshots/files/id1");
    assert_eq!(blob_key("p", "a/b.sav"), "p/a/b.sav");
}

fn lf(rel: &str, sha: &str, size: u64) -> LocalFile {
    LocalFile {
        absolute: format!("/r/{rel}"),
        relative: rel.to_string(),
        root_index: 0,
        size,
        modified_ms: 7,
        sha256: sha.to_string(),
    }
}

#[test]
fn snapshot_round_trip_gives_sync_index() {
    let files = vec![lf("b", "hb", 2), lf("a", "ha", 3)];
    let m = manifest_for("id".into(), "g".into(), "n".into(), 1, &files);
    assert_eq!(m.total_size, 5);
    assert_eq!(m.files.len(), 2);
    let idx = index_from_snapshot(&m);
    assert_eq!(idx.key_list(), vec!["a".to_string(), "b".to_string()]);
    let e: &RemoteIndexEntry = idx.files.get("a").unwrap();
    assert_eq!(e.sha256, "ha");
    assert_eq!(e.size, 3);
}

#[test]
fn restore_target_falls_back_to_first_root() {
    let roots = vec!["/r0".to_string(), "/r1".to_string()];
    let e = SnapshotFileEntry { sha256: "h".into(), size: 1, modified_ms: 1, root_index: 9 };
    let t = restore_target(&roots, "a/b.sav", &e).unwrap();
    assert_eq!(t.root, "/r0");
    assert_eq!(t.parts, vec!["a".to_string(), "b.sav".to_string()]);
    assert!(restore_target(&Vec::new(), "x", &e).is_err());
}

#[test]
fn summaries_sorted_newest_first() {
    let s = |id: &str, t: i64| SnapshotSummary {
        id: id.into(),
        name: id.into(),
        created_at_ms: t,
        file_count: 0,
        total_size: 0,
    };
    let out = sort_summaries(vec![s("a", 1), s("b", 3), s("c", 2), s("d", 3)]);
    let ids: Vec<&str> = out.iter().map(|x| x.id.as_str()).collect();
    assert_eq!(ids, vec!["b", "d", "c", "a"]);
}

#[test]
fn snapshot_ids_are_fresh_uuids() {
    let a = gsyncing::snapshots::new_snapshot_id().unwrap();
    let b = gsyncing::snapshots::new_snapshot_id().unwrap();
    assert_eq!(a.len(), 36);
    assert_eq!(a.matches('-').count(), 4);
    // Version 4, RFC 4122 variant, lowercase hex.
    assert_eq!(&a[14..15], "4");
    assert!(matches!(&a[19..20], "8" | "9" | "a" | "b"));
    assert!(a.chars().all(|c| c == '-' || c.is_ascii_digit() || ('a'..='f').contains(&c)));
    assert_ne!(a, b);
}

#[test]
fn restore_archives_live_copies_when_versions_kept() {
    let files = vec![lf("b.sav", "hb", 2), lf("a.sav", "ha", 3)];
    let m = manifest_for("id".into(), "g".into(), "n".into(), 1, &files);
    let fp = files_prefix("games/g", "id");
    let jobs = live_copies("games/g", &fp, &m, 5);
    assert_eq!(jobs.len(), 2);
    assert_eq!(jobs[0].rel, "a.sav");
    assert_eq!(jobs[0].snap_key, "games/g/.gsyncing/snapshots/files/id/a.sav");
    assert_eq!(jobs[0].live_key, "games/g/a.sav");
    assert!(jobs.iter().all(|j| j.archive_first));
    let plain = live_copies("games/g", &fp, &m, 0);
    assert!(plain.iter().all(|j| !j.archive_first));
    assert_eq!(plain[1].live_key, "games/g/b.sav");
}

#[test]
fn snapshot_create_and_delete_order() {
    assert_eq!(create_next(CreateStage::Uploads, true), CreateStage::Manifest);
    assert_eq!(create_next(CreateStage::Uploads, false), CreateStage::Failed);
    assert_eq!(create_next(CreateStage::Manifest, true), CreateStage::Done);
    assert_eq!(create_next(CreateStage::Manifest, false), CreateStage::Failed);
    assert_eq!(delete_next(DeleteStage::Manifest, false), DeleteStage::Failed);
    assert_eq!(delete_next(DeleteStage::Manifest, true), DeleteStage::Files);
    assert_eq!(delete_next(DeleteStage::Files, false), DeleteStage::Done);
}
