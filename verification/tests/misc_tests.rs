use gsyncing::auto::watcher_starts;
use gsyncing::config::InFlight;
use gsyncing::auto::{
    affected_games, auto_sync_games, batch_done_message, batch_record, batch_result,
    batch_running_message, batch_start, BatchKind,
};
use gsyncing::engine::{ConflictDescriptor, LocalFile, RemoteIndexEntry};
use gsyncing::error::AppError;
use gsyncing::model::{GameProfile, GameSyncStatus, RemoteFileMeta, SyncDirection, SyncStateKind};
use gsyncing::procwatch::{exited_games, games_running, normalize_names, watched_processes};
use gsyncing::remote::{
    base_prefix_of, copy_unsupported, deletion_error, dirs_to_create, folder_to_descend,
    full_path, listing_error, listing_path, percent_decode, s3_etag, s3_modified_ms,
    strip_webdav_prefix, webdav_root,
};
use gsyncing::run::{
    conflict_copies, count_user_files, direction_label, download_job, effective_concurrency,
    finish_run, remote_delete_jobs, upload_jobs, uploading_message,
};
use gsyncing::keymap::KeyMap;
use gsyncing::tray::{menu_action, recent_games, recent_item_label, truncate, MenuAction};

fn game(id: &str, name: &str) -> GameProfile {
    let mut g = GameProfile::default();
    g.id = id.into();
    g.name = name.into();
    g
}

#[test]
fn truncate_cuts_with_ellipsis() {
    assert_eq!(truncate("short", 22), "short");
    assert_eq!(truncate("abcdef", 4), "abc…");
    assert_eq!(truncate("原神原神原神", 3), "原神…");
    assert_eq!(recent_item_label("Game"), "同步「Game」");
}

#[test]
fn recent_games_rank_by_last_sync() {
    let games: Vec<GameProfile> = (0..7).map(|i| game(&format!("g{i}"), &format!("G{i}"))).collect();
    let st = |id: &str, t: Option<i64>| GameSyncStatus {
        game_id: id.into(),
        state: SyncStateKind::Synced,
        message: None,
        local_files: 0,
        remote_files: 0,
        last_sync_at: t,
        last_error: None,
    };
    let statuses = vec![st("g3", Some(30)), st("g5", Some(50)), st("g1", None)];
    let r = recent_games(&games, &statuses);
    let ids: Vec<&str> = r.iter().map(|(i, _)| i.as_str()).collect();
    assert_eq!(ids, vec!["g5", "g3", "g0", "g1", "g2"]);
}

#[test]
fn tray_menu_actions() {
    assert!(matches!(menu_action("recent:abc"), MenuAction::SyncGame(g) if g == "abc"));
    assert!(matches!(menu_action("show"), MenuAction::ShowWindow));
    assert!(matches!(menu_action("sync_all"), MenuAction::SyncAll));
    assert!(matches!(menu_action("quit"), MenuAction::Quit));
    assert!(matches!(menu_action("other"), MenuAction::Nothing));
}

#[test]
fn exit_sync_detection() {
    let mut a = game("a", "A");
    a.process_name = Some("YuanShen.EXE".into());
    let b = game("b", "B");
    let mut c = game("c", "C");
    c.process_name = Some(" game.exe ".into());
    let watched = watched_processes(&vec![a, b, c]);
    assert_eq!(watched, vec![("a".to_string(), "yuanshen.exe".to_string()), ("c".to_string(), " game.exe ".to_string())]);
    let running = normalize_names(&vec!["C:\\Games\\YuanShen.exe".to_string(), "other".to_string()]);
    let now = games_running(&watched, &running);
    assert_eq!(now, vec!["a".to_string()]);
    let running2 = normalize_names(&vec!["GAME.EXE".to_string()]);
    assert_eq!(games_running(&watched, &running2), vec!["c".to_string()]);
    let exited = exited_games(&vec!["a".to_string(), "c".to_string()], &now);
    assert_eq!(exited, vec!["c".to_string()]);
}

#[test]
fn webdav_paths() {
    assert_eq!(percent_decode("%E5%8E%9F%E7%A5%9E.sav"), "原神.sav");
    assert_eq!(percent_decode("100%"), "100%");
    assert_eq!(percent_decode("a%zz"), "a%zz");
    assert_eq!(percent_decode("%+F"), "\u{f}");
    assert_eq!(strip_webdav_prefix("/dav/saves/g/a%20b.dat", "saves"), "g/a b.dat");
    assert_eq!(strip_webdav_prefix("https://host/dav/x.dat", ""), "dav/x.dat");
    assert_eq!(strip_webdav_prefix("//x/y", ""), "x/y");
    assert_eq!(base_prefix_of("/saves/"), "saves");
    assert_eq!(full_path("saves", "/g/a.dat"), "/saves/g/a.dat");
    assert_eq!(full_path("", "g/a.dat"), "/g/a.dat");
    assert_eq!(listing_path("saves", "g"), "/saves/g/");
    assert_eq!(webdav_root(""), "/");
    assert_eq!(webdav_root("p"), "/p/");
    let mut created: KeyMap<bool> = KeyMap::new();
    created.insert("/saves".to_string(), true);
    assert_eq!(dirs_to_create("/saves/g/sub/a.dat", &created), vec!["/saves/g".to_string(), "/saves/g/sub".to_string()]);
    assert!(dirs_to_create("/a.dat", &created).is_empty());
}

#[test]
fn webdav_error_classification() {
    assert!(listing_error("/p/", "404 Not Found").is_ok());
    match listing_error("/p/", "401 Unauthorized") {
        Err(AppError::Storage(m)) => assert_eq!(m, "WebDAV 凭据无效或权限不足 (401 Unauthorized)"),
        _ => panic!(),
    }
    match listing_error("/p/", "boom") {
        Err(AppError::Storage(m)) => assert_eq!(m, "list /p/: boom"),
        _ => panic!(),
    }
    assert!(deletion_error("/x", "404").is_ok());
    assert!(deletion_error("/x", "500").is_err());
    assert_eq!(folder_to_descend("g/", "g"), None);
    assert_eq!(folder_to_descend("g/sub/", "g"), Some("g/sub".to_string()));
    assert!(copy_unsupported(405) && copy_unsupported(501) && copy_unsupported(400));
    assert!(!copy_unsupported(500));
    assert_eq!(s3_etag("\"abc\""), "abc");
    assert_eq!(s3_modified_ms(2, 5_000_000), 2005);
}

fn lf(rel: &str, size: u64) -> LocalFile {
    LocalFile {
        absolute: format!("/r/{rel}"),
        relative: rel.to_string(),
        root_index: 0,
        size,
        modified_ms: 1,
        sha256: "h".to_string(),
    }
}

#[test]
fn run_jobs() {
    assert_eq!(effective_concurrency(0), 1);
    assert_eq!(effective_concurrency(3), 3);
    let jobs = upload_jobs("g", &vec![lf("a", 1), lf("b", 70 * 1024 * 1024)], 5, &vec!["a".to_string()]);
    assert_eq!(jobs[0].key, "g/a");
    assert!(jobs[0].archive_first && !jobs[0].streamed);
    assert!(!jobs[1].archive_first && jobs[1].streamed);
    let no_versions = upload_jobs("g", &vec![lf("a", 1)], 0, &vec!["a".to_string()]);
    assert!(!no_versions[0].archive_first);
    let e = RemoteIndexEntry { sha256: "h".into(), size: 2, modified_ms: 1, root_index: 1 };
    match download_job("g", &vec!["/r".to_string()], "a/b", &e) {
        Err(AppError::Path(m)) => assert_eq!(m, "save path index 1 out of range (only 1 roots)"),
        _ => panic!(),
    }
    let del = remote_delete_jobs("g", &vec!["x".to_string()], 0);
    assert_eq!(del[0].key, "g/x");
    assert!(!del[0].archive_first);
    let c = ConflictDescriptor {
        rel: "s".into(),
        local_file: lf("s", 1),
        local_rename: "s.local-T".into(),
        remote_rename: "s.remote-T".into(),
    };
    let copies = conflict_copies("g", &vec![c]);
    assert_eq!(copies[0].remote_src, "g/s");
    assert_eq!(copies[0].remote_dst, "g/s.remote-T");
    assert_eq!(copies[0].local_dst, "g/s.local-T");
    assert_eq!(uploading_message(3), "上传 3 个文件");
}

#[test]
fn run_reports() {
    let ok = finish_run("g", "Game", SyncDirection::Auto, 100, 350, 2, 3, None, true);
    assert!(matches!(ok.status.state, SyncStateKind::Synced));
    assert_eq!(ok.status.message.as_deref(), Some("已同步"));
    assert_eq!(ok.stat.duration_ms, 250);
    assert_eq!(ok.stat.direction, "auto");
    assert_eq!(ok.notify_title.as_deref(), Some("Game 同步完成"));
    let bad = finish_run("g", "Game", SyncDirection::Push, 0, 1, 0, 0, Some("boom".into()), true);
    assert!(matches!(bad.status.state, SyncStateKind::Error));
    assert_eq!(bad.status.last_error.as_deref(), Some("boom"));
    assert_eq!(bad.notify_body.as_deref(), Some("boom"));
    assert_eq!(bad.stat.direction, "push");
    assert_eq!(direction_label(SyncDirection::Pull), "pull");
    let quiet = finish_run("g", "Game", SyncDirection::Auto, 0, 1, 0, 0, None, false);
    assert!(quiet.notify_title.is_none());
    let metas = vec![
        RemoteFileMeta { key: "g/a".into(), size: 1, etag: None, modified: None },
        RemoteFileMeta { key: "g/.gsyncing/index.json".into(), size: 1, etag: None, modified: None },
    ];
    assert_eq!(count_user_files(&metas), 1);
}

#[test]
fn batches() {
    let mut a = game("a", "A");
    a.auto_sync = true;
    let b = game("b", "B");
    let targets = auto_sync_games(&vec![a, b]);
    assert_eq!(targets, vec![("a".to_string(), "A".to_string())]);
    let mut batch = batch_start();
    batch_record(&mut batch, "A", Some("x"));
    batch_record(&mut batch, "B", None);
    assert_eq!(batch.last_error.as_deref(), Some("A: x"));
    assert_eq!(batch_running_message(BatchKind::Periodic), "自动同步中");
    assert_eq!(batch_done_message(BatchKind::All, &batch), "同步完成（含错误）");
    match batch_result(batch) {
        Err(AppError::Other(m)) => assert_eq!(m, "A: x"),
        _ => panic!(),
    }
    let roots = vec![
        ("g1".to_string(), vec!["/".to_string(), "saves".to_string()]),
        ("g2".to_string(), vec!["/".to_string(), "other".to_string()]),
    ];
    let events = vec![
        vec!["/".to_string(), "saves".to_string(), "a.dat".to_string()],
        vec!["/".to_string(), "savesX".to_string()],
        vec!["/".to_string(), "saves".to_string()],
        vec!["/".to_string(), "other".to_string(), "b".to_string()],
    ];
    assert_eq!(affected_games(&events, &roots), vec!["g1".to_string(), "g2".to_string()]);
}

#[test]
fn watcher_pushes_games_not_under_way() {
    let mut held = InFlight::new();
    assert!(held.try_acquire("b"));
    let affected = vec!["a".to_string(), "b".to_string(), "c".to_string(), "a".to_string()];
    let starts = watcher_starts(&affected, &mut held);
    assert_eq!(
        starts,
        vec![("a".to_string(), SyncDirection::Push), ("c".to_string(), SyncDirection::Push)]
    );
    // Every affected game is now under way.
    assert!(!held.try_acquire("a"));
    assert!(!held.try_acquire("c"));
}
