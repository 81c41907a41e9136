use gsyncing::digest::sha256_hex;
use gsyncing::engine::LocalFile;
use gsyncing::keymap::KeyMap;
use gsyncing::model::GameProfile;
use gsyncing::paths::{known_dirs, LocalPath};
use gsyncing::scan::{
    finish_scan, is_selected, scan_roots, scan_step, selector_for, ScanHint, ScanHints, ScanStep,
    ScannedGame,
};
use std::io::{Read, Write};
use std::path::{Path, PathBuf};

fn to_path(p: &LocalPath) -> PathBuf {
    let mut out = PathBuf::from(&p.root);
    for part in &p.parts {
        out = out.join(part);
    }
    out
}

/// Files written for a test, kept open so their contents can be read back.
struct Written {
    files: Vec<(PathBuf, tempfile::NamedTempFile)>,
    _dirs: Vec<tempfile::TempDir>,
}

impl Written {
    fn read(&self, p: &Path) -> Vec<u8> {
        for (path, f) in &self.files {
            if path == p {
                let mut h = f.reopen().unwrap();
                let mut buf = Vec::new();
                h.read_to_end(&mut buf).unwrap();
                return buf;
            }
        }
        panic!("not written: {}", p.display());
    }
}

fn write_dir(root: &Path, files: &[(&str, &[u8])]) -> Written {
    let mut out = Written { files: Vec::new(), _dirs: Vec::new() };
    for (rel, body) in files {
        let mut dir = root.to_path_buf();
        let parts: Vec<&str> = rel.split('/').collect();
        for seg in &parts[..parts.len() - 1] {
            let d = tempfile::Builder::new().prefix(*seg).rand_bytes(0).tempdir_in(&dir).unwrap();
            dir = d.path().to_path_buf();
            out._dirs.push(d);
        }
        let name = parts[parts.len() - 1];
        let mut f = tempfile::Builder::new().prefix(name).rand_bytes(0).tempfile_in(&dir).unwrap();
        f.write_all(body).unwrap();
        f.flush().unwrap();
        out.files.push((dir.join(name), f));
    }
    out
}

/// Walks the game's roots the way the application does, deciding each file
/// with the library.
fn scan_with_hints(game: &GameProfile, hints: &ScanHints, disk: &Written) -> ScannedGame {
    let roots = scan_roots(game, &known_dirs()).unwrap();
    let sel = selector_for(game).unwrap();
    let mut files: Vec<LocalFile> = Vec::new();
    let mut reused = 0usize;
    for (idx, root) in roots.iter().enumerate() {
        let root_path = to_path(root);
        if !root_path.exists() {
            continue;
        }
        for entry in walkdir::WalkDir::new(&root_path).follow_links(false) {
            let entry = entry.unwrap();
            if !entry.file_type().is_file() {
                continue;
            }
            let abs = entry.path();
            let rel = abs.strip_prefix(&root_path).unwrap().to_string_lossy().replace('\\', "/");
            let meta = abs.metadata().unwrap();
            let mtime = meta
                .modified()
                .ok()
                .and_then(|t| t.duration_since(std::time::UNIX_EPOCH).ok())
                .map(|d| d.as_millis() as i64)
                .unwrap_or(0);
            let sha = match scan_step(&sel, hints, &rel, meta.len(), mtime) {
                ScanStep::Skip => continue,
                ScanStep::Hashed { sha256, reused: r } => {
                    if r {
                        reused += 1;
                    }
                    sha256
                }
                ScanStep::NeedsContent => sha256_hex(&disk.read(abs)),
            };
            files.push(LocalFile {
                absolute: abs.to_string_lossy().to_string(),
                relative: rel,
                root_index: idx,
                size: meta.len(),
                modified_ms: mtime,
                sha256: sha,
            });
        }
    }
    finish_scan(game.id.clone(), roots, files, reused)
}

#[test]
fn glob_include_exclude_filters_correctly() {
    let tmp = tempfile::tempdir().unwrap();
    let root = tmp.path();
    let disk = write_dir(
        root,
        &[("save.dat", b"a"), ("cache/index.bin", b"b"), ("screenshot.png", b"c")],
    );
    let mut game = GameProfile::default();
    game.id = "test".into();
    game.name = "test".into();
    game.save_paths = vec![root.to_string_lossy().into()];
    game.include_globs = vec!["**/*.dat".into()];
    game.exclude = vec!["**/cache/**".into()];
    let scanned = scan_with_hints(&game, &KeyMap::new(), &disk);
    let rels: Vec<&str> = scanned.files.iter().map(|f| f.relative.as_str()).collect();
    assert_eq!(rels, vec!["save.dat"]);
}

#[test]
fn hints_reuse_skips_rehash() {
    let tmp = tempfile::tempdir().unwrap();
    let root = tmp.path();
    let disk = write_dir(root, &[("save.dat", b"identical")]);
    let mut game = GameProfile::default();
    game.id = "test".into();
    game.name = "test".into();
    game.save_paths = vec![root.to_string_lossy().into()];
    game.include_globs = vec!["**/*".into()];
    let first = scan_with_hints(&game, &KeyMap::new(), &disk);
    let real_sha = first.files[0].sha256.clone();
    let size = first.files[0].size;
    let mtime = first.files[0].modified_ms;
    let mut hints: ScanHints = KeyMap::new();
    hints.insert(
        "save.dat".to_string(),
        ScanHint { size, modified_ms: mtime, sha256: "FAKE".to_string() },
    );
    let second = scan_with_hints(&game, &hints, &disk);
    assert_eq!(second.files[0].sha256, "FAKE");
    assert_eq!(second.reused_hashes, 1);
    assert_ne!(real_sha, "FAKE", "real SHA shouldn't collide with marker");
}

#[test]
fn selector_defaults_to_every_file_and_reports_bad_globs() {
    let mut game = GameProfile::default();
    game.id = "g".into();
    game.name = "g".into();
    let sel = selector_for(&game).unwrap();
    assert!(is_selected(&sel, "a/b/c.sav"));
    game.include_globs = vec!["   ".into(), "*.sav".into()];
    game.exclude = vec!["a/**".into()];
    let sel2 = selector_for(&game).unwrap();
    assert!(is_selected(&sel2, "x.sav"));
    assert!(!is_selected(&sel2, "a/x.sav"));
    assert!(!is_selected(&sel2, "x.txt"));
    game.include_globs = vec!["[abc".into()];
    match selector_for(&game) {
        Err(gsyncing::error::AppError::Config(m)) => assert!(m.starts_with("bad glob [abc: ")),
        _ => panic!("expected a glob error"),
    }
}

#[test]
fn scan_step_chooses_hash_source() {
    let mut game = GameProfile::default();
    game.id = "g".into();
    let sel = selector_for(&game).unwrap();
    let mut hints: ScanHints = KeyMap::new();
    hints.insert("a".to_string(), ScanHint { size: 5, modified_ms: 7, sha256: "OLD".to_string() });
    match scan_step(&sel, &hints, "a", 5, 7) {
        ScanStep::Hashed { sha256, reused } => {
            assert_eq!(sha256, "OLD");
            assert!(reused);
        }
        _ => panic!("expected reuse"),
    }
    assert!(matches!(scan_step(&sel, &hints, "a", 6, 7), ScanStep::NeedsContent));
    match scan_step(&sel, &hints, "big", 300 * 1024 * 1024, 9) {
        ScanStep::Hashed { sha256, reused } => {
            assert!(!reused);
            assert_eq!(sha256, gsyncing::digest::fallback_hash(300 * 1024 * 1024, 9));
        }
        _ => panic!("expected the stand-in hash"),
    }
}

#[test]
fn scan_without_save_paths_is_config_error() {
    let mut game = GameProfile::default();
    game.name = "Nope".into();
    match scan_roots(&game, &known_dirs()) {
        Err(gsyncing::error::AppError::Config(m)) => assert_eq!(m, "game Nope has no save paths"),
        other => panic!("unexpected {other:?}"),
    }
}

#[test]
fn finish_scan_sorts_by_relative_path() {
    let f = |rel: &str| LocalFile {
        absolute: rel.to_string(),
        relative: rel.to_string(),
        root_index: 0,
        size: 1,
        modified_ms: 1,
        sha256: "h".to_string(),
    };
    let s = finish_scan("g".into(), Vec::new(), vec![f("b"), f("a/z"), f("a")], 0);
    let rels: Vec<&str> = s.files.iter().map(|f| f.relative.as_str()).collect();
    assert_eq!(rels, vec!["a", "a/z", "b"]);
}

#[test]
fn backslash_rule_decides_how_patterns_parse() {
    let backslash_separates = std::path::is_separator('\\');
    let mut game = GameProfile::default();
    game.id = "g".into();
    game.name = "g".into();
    game.include_globs = vec!["a\\*".into()];
    let sel = selector_for(&game).unwrap();
    if backslash_separates {
        // `a\*` is `a/*`.
        assert!(is_selected(&sel, "a/x"));
        assert!(!is_selected(&sel, "a*"));
    } else {
        // A backslash escapes: `a\*` is the literal name `a*`.
        assert!(is_selected(&sel, "a*"));
        assert!(!is_selected(&sel, "ab"));
    }
    // A trailing backslash escapes nothing; where it is a separator the
    // pattern parses.
    game.include_globs = vec!["x\\".into()];
    match selector_for(&game) {
        Err(gsyncing::error::AppError::Config(m)) => {
            assert!(!backslash_separates);
            assert!(m.starts_with("bad glob x\\: "));
        }
        Ok(_) => assert!(backslash_separates),
        Err(_) => panic!("unexpected error"),
    }
    // Backslashes in a relative path are read as slashes.
    game.include_globs = vec!["dir/*.sav".into()];
    let sel = selector_for(&game).unwrap();
    assert!(is_selected(&sel, "dir\\x.sav"));
    assert!(is_selected(&sel, "dir/x.sav"));
}
