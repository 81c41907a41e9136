use gsyncing::error::{AppError, IoKind};
use gsyncing::lock::{
    check_lock, check_lock_now, fresh_lock, lock_key, new_lock, pick_host, refresh_now, refreshed,
    should_delete_on_release, RemoteLock, HEARTBEAT_MS, STALE_TTL_MS,
};
use gsyncing::retry::{is_retryable, retry_delay};
use gsyncing::versions::{
    archive_key, check_version_key, list_versions_from, meta_key, parse_version_key,
    resolve_local_path, restore_rel, select_prunable, versions_prefix,
};
use gsyncing::model::RemoteFileMeta;

#[test]
fn current_host_is_non_empty() {
    let h = pick_host(Some("box".into()), None, None);
    assert!(!h.is_empty());
    assert_eq!(pick_host(None, None, None), "unknown");
    assert_eq!(pick_host(None, Some("PC".into()), Some("h".into())), "PC");
}

fn lock(host: &str, at: i64) -> RemoteLock {
    RemoteLock { host: host.into(), acquired_at: at, nonce: "n".into() }
}

#[test]
fn fresh_foreign_lock_refuses() {
    match check_lock(&lock("OTHER", 1_000), 61_000, "ME") {
        Err(AppError::Other(m)) => {
            assert_eq!(m, "另一台机器「OTHER」正在同步 (已持有锁 60 秒，TTL 300 秒)")
        }
        other => panic!("unexpected {other:?}"),
    }
}

#[test]
fn stale_own_or_future_lock_is_taken() {
    assert!(check_lock(&lock("OTHER", 0), 300_000, "ME").is_ok());
    assert!(check_lock(&lock("ME", 0), 10, "ME").is_ok());
    assert!(check_lock(&lock("OTHER", 100), 50, "ME").is_ok());
}

#[test]
fn lock_helpers() {
    assert_eq!(lock_key("games/x"), "games/x/.gsyncing/lock.json");
    let l = new_lock("H".into(), 5, "abc".into());
    let r = refreshed(&l, 9);
    assert_eq!((r.host.as_str(), r.acquired_at, r.nonce.as_str()), ("H", 9, "abc"));
    assert!(should_delete_on_release(&l, &None));
    let same = RemoteLock { host: "X".into(), acquired_at: 1, nonce: "abc".into() };
    assert!(should_delete_on_release(&l, &Some(same)));
    assert!(!should_delete_on_release(&l, &Some(lock("X", 1))));
}

#[test]
fn retry_classification() {
    assert!(is_retryable(&AppError::Storage("503 Service Unavailable".into())));
    assert!(!is_retryable(&AppError::Storage("HTTP 404 NoSuchKey".into())));
    assert!(!is_retryable(&AppError::Storage("AccessDenied".into())));
    assert!(!is_retryable(&AppError::Config("x".into())));
    assert!(!is_retryable(&AppError::Path("x".into())));
    assert!(!is_retryable(&AppError::Io { kind: IoKind::PermissionDenied, message: "x".into() }));
    assert!(is_retryable(&AppError::Io { kind: IoKind::Other, message: "timed out".into() }));
}

#[test]
fn retry_schedule() {
    let e = AppError::Storage("connection reset".into());
    assert_eq!(retry_delay(0, &e), Some(500));
    assert_eq!(retry_delay(1, &e), Some(2000));
    assert_eq!(retry_delay(2, &e), Some(8000));
    assert_eq!(retry_delay(3, &e), None);
    assert_eq!(retry_delay(0, &AppError::Storage("403 Forbidden".into())), None);
}

fn meta(key: &str, size: u64) -> RemoteFileMeta {
    RemoteFileMeta { key: key.into(), size, etag: None, modified: None }
}

#[test]
fn version_keys() {
    assert_eq!(meta_key("g"), "g/.gsyncing/index.json");
    let vp = versions_prefix("g");
    assert_eq!(vp, "g/.gsyncing/versions");
    assert_eq!(archive_key("g", "a/b.sav", 1700), "g/.gsyncing/versions/a/b.sav.1700");
    assert_eq!(parse_version_key(&vp, "g/.gsyncing/versions/a/b.sav.1700"), Some(("a/b.sav".to_string(), 1700)));
    assert_eq!(parse_version_key(&vp, "g/.gsyncing/versions/a/b.sav.x1"), None);
    assert_eq!(parse_version_key(&vp, "other/a.1"), None);
    assert!(check_version_key(&vp, "g/.gsyncing/versions/a.1").is_ok());
    match check_version_key(&vp, "h/a.1") {
        Err(AppError::Other(m)) => assert_eq!(m, "key 'h/a.1' is not under this game's versions prefix"),
        _ => panic!(),
    }
    assert_eq!(restore_rel(&vp, "g/.gsyncing/versions/a.b.5").unwrap(), "a.b");
    match restore_rel(&vp, "g/.gsyncing/versions/noext") {
        Err(AppError::Other(m)) => assert_eq!(m, "malformed version key: g/.gsyncing/versions/noext"),
        _ => panic!(),
    }
    match restore_rel(&vp, "x") {
        Err(AppError::Other(m)) => assert_eq!(m, "version key not under prefix: x"),
        _ => panic!(),
    }
}

#[test]
fn versions_listed_newest_first() {
    let vp = "g/.gsyncing/versions";
    let entries = vec![
        meta("g/.gsyncing/versions/a.100", 1),
        meta("g/.gsyncing/versions/b.300", 2),
        meta("g/.gsyncing/versions/junk", 3),
        meta("g/.gsyncing/versions/a.200", 4),
        meta("g/.gsyncing/versions/c.300", 5),
    ];
    let out = list_versions_from(vp, &entries);
    let got: Vec<(&str, i64)> = out.iter().map(|v| (v.rel.as_str(), v.timestamp_ms)).collect();
    assert_eq!(got, vec![("b", 300), ("c", 300), ("a", 200), ("a", 100)]);
}

#[test]
fn prune_keeps_newest_per_file() {
    let vp = "g/.gsyncing/versions";
    let entries = vec![
        meta("g/.gsyncing/versions/a.1", 1),
        meta("g/.gsyncing/versions/a.3", 1),
        meta("g/.gsyncing/versions/b.1", 1),
        meta("g/.gsyncing/versions/a.2", 1),
        meta("g/.gsyncing/versions/odd", 1),
    ];
    let sel = select_prunable(vp, &entries, 2);
    assert_eq!(sel.delete, vec!["g/.gsyncing/versions/a.1".to_string()]);
    assert_eq!(sel.skipped, 1);
    let none = select_prunable(vp, &entries, 5);
    assert!(none.delete.is_empty());
}

#[test]
fn resolve_local_path_checks_root_index() {
    let roots = vec!["/r".to_string()];
    let p = resolve_local_path(&roots, 0, "a/b").unwrap();
    assert_eq!(p.root, "/r");
    assert_eq!(p.parts, vec!["a".to_string(), "b".to_string()]);
    match resolve_local_path(&roots, 3, "a") {
        Err(AppError::Path(m)) => assert_eq!(m, "save path index 3 out of range (only 1 roots)"),
        _ => panic!(),
    }
}

#[test]
fn prune_leaves_snapshots_and_odd_names() {
    let vp = "games/g/.gsyncing/versions";
    let entries = vec![
        meta("games/g/.gsyncing/versions/a.dat.1", 1),
        meta("games/g/.gsyncing/versions/a.dat.2", 1),
        meta("games/g/.gsyncing/versions/a.dat.3", 1),
        meta("games/g/.gsyncing/versions/readme", 1),
        meta("games/g/.gsyncing/snapshots/files/s1/a.dat", 1),
        meta("games/g/a.dat", 1),
    ];
    let sel = select_prunable(vp, &entries, 0);
    assert_eq!(
        sel.delete,
        vec![
            "games/g/.gsyncing/versions/a.dat.1".to_string(),
            "games/g/.gsyncing/versions/a.dat.2".to_string(),
            "games/g/.gsyncing/versions/a.dat.3".to_string(),
        ]
    );
    assert_eq!(sel.skipped, 1);
}

#[test]
fn heartbeat_keeps_lock_fresh() {
    assert_eq!(2 * HEARTBEAT_MS as i64, STALE_TTL_MS);
    let held = lock("OTHER", 1_000);
    assert!(check_lock(&held, 1_000 + HEARTBEAT_MS as i64, "ME").is_err());
    assert!(check_lock(&held, 1_000 + STALE_TTL_MS - 1, "ME").is_err());
    assert!(check_lock(&held, 1_000 + STALE_TTL_MS, "ME").is_ok());
}

#[test]
fn lock_age_out_of_range_never_blocks() {
    assert!(check_lock(&lock("OTHER", i64::MIN), 10, "ME").is_ok());
    assert!(check_lock(&lock("OTHER", i64::MAX), -10, "ME").is_ok());
}

#[test]
fn locks_taken_now() {
    let mine = fresh_lock("PC-A".to_string()).unwrap();
    assert_eq!(mine.host, "PC-A");
    assert_eq!(mine.nonce.len(), 36);
    assert!(mine.acquired_at > 1_600_000_000_000);
    // Just taken by another host: refused; an hour-old lock: taken over.
    assert!(check_lock_now(&mine, "PC-B").is_err());
    assert!(check_lock_now(&mine, "PC-A").is_ok());
    let old = lock("PC-A", mine.acquired_at - 3_600_000);
    assert!(check_lock_now(&old, "PC-B").is_ok());
    let again = refresh_now(&old).unwrap();
    assert_eq!(again.nonce, old.nonce);
    assert!(again.acquired_at >= mine.acquired_at);
    assert!(check_lock_now(&again, "PC-B").is_err());
}

#[test]
fn archive_keys_carry_the_moment() {
    let k = gsyncing::versions::archive_key_now("games/g", "save/a.dat").unwrap();
    let head = "games/g/.gsyncing/versions/save/a.dat.";
    assert!(k.starts_with(head));
    let stamp: i64 = k[head.len()..].parse().unwrap();
    assert!(stamp > 1_600_000_000_000);
    assert_eq!(
        gsyncing::versions::parse_version_key("games/g/.gsyncing/versions", &k),
        Some(("save/a.dat".to_string(), stamp))
    );
}
