use gsyncing::config::{
    apply_import, ciphertexts_to_open, decrypt_in_place, decrypt_in_place_with, default_backend, delete_backend,
    delete_game, encrypt_in_place, encrypt_in_place_with, secrets_to_seal,
    get_backend, get_game, merge_backend, parse_import_mode, require_backends, save_backend,
    save_game, strip_secrets, upsert_game, ImportMode, InFlight, StatusBoard,
};
use gsyncing::error::AppError;
use gsyncing::logs::{log_entry, LogRing, RING_CAPACITY};
use gsyncing::model::{
    AppSettings, BackendConfig, ConfigDoc, GameProfile, S3Config, SyncStateKind, WebDAVConfig,
};
use gsyncing::stats::{stamp_entry, stat_lines, trim_stats, StatEntry};

fn game(id: &str, name: &str) -> GameProfile {
    let mut g = GameProfile::default();
    g.id = id.into();
    g.name = name.into();
    g
}

fn dav(name: &str, pw: &str) -> BackendConfig {
    BackendConfig::Webdav {
        name: name.into(),
        webdav: WebDAVConfig {
            url: "https://dav".into(),
            username: "u".into(),
            password: pw.into(),
            prefix: "".into(),
        },
    }
}

fn s3(name: &str, ak: &str, sk: &str) -> BackendConfig {
    BackendConfig::S3 {
        name: name.into(),
        s3: S3Config {
            endpoint: "e".into(),
            region: "r".into(),
            bucket: "b".into(),
            access_key_id: ak.into(),
            secret_access_key: sk.into(),
            prefix: "".into(),
            path_style: true,
        },
    }
}

fn doc() -> ConfigDoc {
    ConfigDoc::default()
}

#[test]
fn saved_game_is_found_and_replaced() {
    let mut d = doc();
    upsert_game(&mut d, game("a", "A"));
    upsert_game(&mut d, game("b", "B"));
    upsert_game(&mut d, game("a", "A2"));
    assert_eq!(d.games.len(), 2);
    assert_eq!(get_game(&d, "a").unwrap().name, "A2");
    let fresh = save_game(&mut d, game("", "New")).unwrap();
    assert_eq!(fresh.id.len(), 36);
    assert_eq!(get_game(&d, &fresh.id).unwrap().name, "New");
}

#[test]
fn deleting_games() {
    let mut d = doc();
    upsert_game(&mut d, game("a", "A"));
    upsert_game(&mut d, game("b", "B"));
    assert!(delete_game(&mut d, "a").is_ok());
    assert!(get_game(&d, "a").is_err());
    assert_eq!(get_game(&d, "b").unwrap().name, "B");
    match delete_game(&mut d, "zz") {
        Err(AppError::GameNotFound(m)) => assert_eq!(m, "zz"),
        other => panic!("unexpected {other:?}"),
    }
}

#[test]
fn backends_and_default() {
    let mut d = doc();
    match default_backend(&d) {
        Err(AppError::Config(m)) => assert_eq!(m, "no backend configured"),
        _ => panic!(),
    }
    assert!(require_backends(&d).is_err());
    save_backend(&mut d, dav("one", "p"));
    save_backend(&mut d, s3("two", "k", "s"));
    assert!(require_backends(&d).is_ok());
    assert_eq!(default_backend(&d).unwrap().name(), "one");
    d.settings.default_backend = Some("two".into());
    assert_eq!(default_backend(&d).unwrap().name(), "two");
    assert!(delete_backend(&mut d, "two").is_ok());
    assert!(d.settings.default_backend.is_none());
    assert!(get_backend(&d, "two").is_err());
    match delete_backend(&mut d, "two") {
        Err(AppError::BackendNotFound(m)) => assert_eq!(m, "two"),
        _ => panic!(),
    }
    d.settings.default_backend = Some("ghost".into());
    match default_backend(&d) {
        Err(AppError::BackendNotFound(m)) => assert_eq!(m, "ghost"),
        _ => panic!(),
    }
}

#[test]
fn secrets_encrypted_then_decrypted() {
    let mut bs = vec![dav("d", "pw"), s3("s", "AK", "")];
    encrypt_in_place(&mut bs);
    match &bs[0] {
        BackendConfig::Webdav { webdav, .. } => assert_eq!(webdav.password, "gsy0:cHc="),
        _ => panic!(),
    }
    let once = format!("{:?}", bs);
    encrypt_in_place(&mut bs);
    assert_eq!(format!("{:?}", bs), once);
    let warnings = decrypt_in_place(&mut bs);
    assert!(warnings.is_empty());
    match &bs[1] {
        BackendConfig::S3 { s3, .. } => {
            assert_eq!(s3.access_key_id, "AK");
            assert_eq!(s3.secret_access_key, "");
        }
        _ => panic!(),
    }
    let mut bad = vec![dav("d", "gsy1:xxxx")];
    let w = decrypt_in_place(&mut bad);
    assert_eq!(w, vec!["decrypt webdav pw: ciphertext present but DPAPI not available on this platform".to_string()]);
}

#[test]
fn export_without_secrets() {
    let mut bs = vec![dav("d", "pw"), s3("s", "AK", "SK")];
    strip_secrets(&mut bs);
    match (&bs[0], &bs[1]) {
        (BackendConfig::Webdav { webdav, .. }, BackendConfig::S3 { s3, .. }) => {
            assert_eq!(webdav.password, "");
            assert_eq!(s3.access_key_id, "");
            assert_eq!(s3.secret_access_key, "");
            assert_eq!(s3.bucket, "b");
        }
        _ => panic!(),
    }
}

#[test]
fn import_modes() {
    assert_eq!(parse_import_mode("replace").unwrap(), ImportMode::Replace);
    assert_eq!(parse_import_mode("merge").unwrap(), ImportMode::Merge);
    match parse_import_mode("other") {
        Err(AppError::Other(m)) => assert_eq!(m, "unknown mode: other"),
        _ => panic!(),
    }
}

#[test]
fn merge_import_keeps_local_secrets() {
    let mut cur = doc();
    cur.games = vec![game("a", "A"), game("b", "B")];
    cur.backends = vec![dav("nas", "secret"), s3("s3", "AK", "SK")];
    cur.settings.max_concurrency = 9;
    let mut inc = doc();
    inc.games = vec![game("b", "B2"), game("c", "C")];
    inc.backends = vec![dav("nas", ""), s3("s3", "", "NEW")];
    let merged = apply_import(cur, inc, ImportMode::Merge);
    let names: Vec<(&str, &str)> = merged.games.iter().map(|g| (g.id.as_str(), g.name.as_str())).collect();
    assert_eq!(names, vec![("a", "A"), ("b", "B2"), ("c", "C")]);
    assert_eq!(merged.settings.max_concurrency, 9);
    for b in &merged.backends {
        match b {
            BackendConfig::Webdav { webdav, .. } => assert_eq!(webdav.password, "secret"),
            BackendConfig::S3 { s3, .. } => {
                assert_eq!(s3.access_key_id, "AK");
                assert_eq!(s3.secret_access_key, "NEW");
            }
        }
    }
    let kept = merge_backend(Some(&dav("x", "old")), s3("x", "", ""));
    assert!(matches!(kept, BackendConfig::S3 { .. }));
}

#[test]
fn status_board_and_in_flight() {
    let mut board = StatusBoard::new();
    let s = board.set_state("g", SyncStateKind::Scanning, Some("扫描本地文件"));
    assert_eq!(s.message.as_deref(), Some("扫描本地文件"));
    let got = board.get("g").unwrap();
    assert_eq!(got.game_id, "g");
    assert!(matches!(got.state, SyncStateKind::Scanning));
    let mut err = board.get("g").unwrap().clone();
    err.state = SyncStateKind::Error;
    err.last_error = Some("boom".into());
    board.update(err);
    let after = board.set_state("g", SyncStateKind::Synced, None);
    assert!(after.last_error.is_none());
    assert_eq!(board.list().len(), 1);
    board.remove("g");
    assert!(board.get("g").is_none());

    let mut f = InFlight::new();
    assert!(f.try_acquire("g"));
    assert!(!f.try_acquire("g"));
    f.release("g");
    assert!(f.try_acquire("g"));
}

#[test]
fn log_ring_keeps_latest() {
    let mut ring = LogRing::new();
    for i in 0..(RING_CAPACITY as i64 + 5) {
        ring.push(log_entry(i, "info", "t", format!("m{i}")));
    }
    assert_eq!(ring.len(), RING_CAPACITY);
    let snap = ring.snapshot(2);
    assert_eq!(snap.len(), 2);
    assert_eq!(snap[1].message, format!("m{}", RING_CAPACITY + 4));
    assert_eq!(snap[0].ts, RING_CAPACITY as i64 + 3);
    let all = ring.snapshot(10_000);
    assert_eq!(all[0].ts, 5);
}

#[test]
fn stats_trim_and_lines() {
    let mut bytes: Vec<u8> = Vec::new();
    for i in 0..5000 {
        bytes.extend_from_slice(format!("{{\"n\":{i}}}\n").as_bytes());
    }
    let out = trim_stats(&bytes).unwrap();
    let lines = stat_lines(&out);
    assert_eq!(lines.len(), 4000);
    assert_eq!(lines[0], b"{\"n\":1000}".to_vec());
    assert!(trim_stats(&b"a\nb\n".to_vec()).is_none());
    let l = stat_lines(&b"a\n\nb".to_vec());
    assert_eq!(l, vec![b"a".to_vec(), b"b".to_vec()]);
    let e = StatEntry {
        ts: 0,
        game_id: "g".into(),
        direction: "auto".into(),
        success: true,
        uploaded_files: 3,
        downloaded_files: 0,
        total_bytes: 1234,
        duration_ms: 980,
        error: None,
    };
    assert_eq!(stamp_entry(e, 42).ts, 42);
}

#[test]
fn default_settings() {
    let s = AppSettings::default();
    assert_eq!(s.max_concurrency, 4);
    assert_eq!(s.versions_to_keep, 5);
    assert_eq!(s.theme, "light");
}

#[test]
fn secrets_sealed_by_the_service_then_opened() {
    let mut bs = vec![dav("d", "pw"), s3("s", "AK", "gsy0:U0s=")];
    assert_eq!(secrets_to_seal(&bs), vec!["pw".to_string(), "AK".to_string()]);
    // The service protected "pw" only; "AK" falls back to the plain marker.
    let sealed = vec![("pw".to_string(), vec![7u8, 7, 7])];
    encrypt_in_place_with(&mut bs, &sealed);
    match (&bs[0], &bs[1]) {
        (BackendConfig::Webdav { webdav, .. }, BackendConfig::S3 { s3, .. }) => {
            assert_eq!(webdav.password, "gsy1:BwcH");
            assert_eq!(s3.access_key_id, "gsy0:QUs=");
            assert_eq!(s3.secret_access_key, "gsy0:U0s=");
        }
        _ => panic!(),
    }
    assert!(secrets_to_seal(&bs).is_empty());
    let asks = ciphertexts_to_open(&bs);
    assert_eq!(asks, vec![("gsy1:BwcH".to_string(), vec![7u8, 7, 7])]);
    let answers = vec![("gsy1:BwcH".to_string(), Ok(b"pw".to_vec()))];
    let w = decrypt_in_place_with(&mut bs, true, &answers);
    assert!(w.is_empty());
    match (&bs[0], &bs[1]) {
        (BackendConfig::Webdav { webdav, .. }, BackendConfig::S3 { s3, .. }) => {
            assert_eq!(webdav.password, "pw");
            assert_eq!(s3.access_key_id, "AK");
            assert_eq!(s3.secret_access_key, "SK");
        }
        _ => panic!(),
    }
    let mut refused = vec![dav("d", "gsy1:BwcH")];
    let w = decrypt_in_place_with(&mut refused, true, &vec![("gsy1:BwcH".to_string(), Err("denied".to_string()))]);
    assert_eq!(w, vec!["decrypt webdav pw: DPAPI decrypt: denied".to_string()]);
}
