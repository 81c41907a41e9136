use gsyncing::paths::{case_insensitive_replace, data_dir_from, expand, expand_with, to_remote_key, KnownDirs};
use gsyncing::error::AppError;

#[test]
fn to_remote_key_handles_separators() {
    assert_eq!(to_remote_key("games/x", "a/b.dat"), "games/x/a/b.dat");
    assert_eq!(to_remote_key("games/x/", "a/b.dat"), "games/x/a/b.dat");
    assert_eq!(to_remote_key("games/x", "/a/b.dat"), "games/x/a/b.dat");
    assert_eq!(to_remote_key("games/x", "a\\b\\c.dat"), "games/x/a/b/c.dat");
    assert_eq!(to_remote_key("", "a/b"), "a/b");
}

#[test]
fn case_insensitive_replace_ascii_token() {
    let out =
        case_insensitive_replace("C:\\Users\\foo\\%appdata%\\Game", "%APPDATA%", "C:/Roaming");
    assert_eq!(out, "C:\\Users\\foo\\C:/Roaming\\Game");
}

#[test]
fn case_insensitive_replace_preserves_non_ascii() {
    let s = "C:/用户/张三/AppData";
    let out = case_insensitive_replace(s, "%APPDATA%", "X");
    assert_eq!(out, s);
}

#[test]
fn case_insensitive_replace_empty_needle_is_noop() {
    let out = case_insensitive_replace("hello", "", "x");
    assert_eq!(out, "hello");
}

#[test]
fn expand_empty_errors() {
    assert!(expand("").is_err());
    assert!(expand("   ").is_err());
}

#[test]
fn expand_tilde_uses_home() {
    let home = dirs::home_dir().expect("test env has HOME");
    let out = expand("~/foo").unwrap();
    assert_eq!(out.root, home.to_string_lossy().to_string());
    assert_eq!(out.parts, vec!["foo".to_string()]);
    let out2 = expand("~").unwrap();
    assert_eq!(out2.root, home.to_string_lossy().to_string());
    assert_eq!(out2.parts, vec!["".to_string()]);
}

fn dirs_for_test() -> KnownDirs {
    KnownDirs {
        home: Some("/home/u".to_string()),
        config: Some("/home/u/.config".to_string()),
        data_local: Some("/home/u/.local/share".to_string()),
        documents: None,
    }
}

#[test]
fn expand_replaces_windows_tokens_case_insensitively() {
    let d = dirs_for_test();
    let p = expand_with("%AppData%/Game/Saves", &d).unwrap();
    assert_eq!(p.root, "/home/u/.config/Game/Saves");
    assert!(p.parts.is_empty());
    let q = expand_with("%USERPROFILE%/x", &d).unwrap();
    assert_eq!(q.root, "/home/u/x");
}

#[test]
fn expand_unknown_directory_keeps_token() {
    let d = dirs_for_test();
    let p = expand_with("%DOCUMENTS%/My Games", &d).unwrap();
    assert_eq!(p.root, "%DOCUMENTS%/My Games");
}

#[test]
fn expand_posix_home_variable() {
    let d = dirs_for_test();
    let p = expand_with("  $HOME/.local/game  ", &d).unwrap();
    assert_eq!(p.root, "/home/u/.local/game");
}

#[test]
fn expand_tilde_without_home_errors() {
    let d = KnownDirs { home: None, config: None, data_local: None, documents: None };
    match expand_with("~/x", &d) {
        Err(AppError::Path(m)) => assert_eq!(m, "no home dir"),
        other => panic!("unexpected {other:?}"),
    }
    match expand_with(" ", &d) {
        Err(AppError::Path(m)) => assert_eq!(m, "empty path"),
        other => panic!("unexpected {other:?}"),
    }
}

#[test]
fn data_dir_prefers_local_then_roaming() {
    let p = data_dir_from(Some("/L".to_string()), Some("/R".to_string())).unwrap();
    assert_eq!(p.root, "/L");
    assert_eq!(p.parts, vec!["GSyncing".to_string()]);
    let q = data_dir_from(None, Some("/R".to_string())).unwrap();
    assert_eq!(q.root, "/R");
    match data_dir_from(None, None) {
        Err(AppError::Path(m)) => assert_eq!(m, "no data dir"),
        other => panic!("unexpected {other:?}"),
    }
}

#[test]
fn case_insensitive_replace_replaces_every_occurrence() {
    assert_eq!(case_insensitive_replace("%a%-%A%", "%A%", "x"), "x-x");
    assert_eq!(case_insensitive_replace("ab", "abc", "x"), "ab");
}

#[test]
fn remote_key_normal_form() {
    let k = to_remote_key("games/x", "saves/a.dat");
    assert_eq!(to_remote_key("games/x/", "saves/a.dat"), k);
    assert_eq!(to_remote_key("games/x", "/saves/a.dat"), k);
    assert_eq!(to_remote_key("games/x", "saves\\a.dat"), k);
    assert!(!k["games/x".len()..].contains('\\'));
}
