use gsyncing::clock::{conflict_suffix, conflict_suffix_at};
use gsyncing::config::save_game;
use gsyncing::digest::{fallback_hash, sha256_hex};
use gsyncing::logs::{log_entry, log_line};
use gsyncing::model::{ConfigDoc, GameProfile};

#[test]
fn sha256_and_hex_exact() {
    assert_eq!(
        sha256_hex(b"abc"),
        "ba7816bf8f01cfea414140de5dae2223b00361a396177a9cb410ff61f20015ad"
    );
    assert_eq!(
        sha256_hex(b""),
        "e3b0c44298fc1c149afbf4c8996fb92427ae41e4649b934ca495991b7852b855"
    );
}

#[test]
fn fallback_hash_exact() {
    assert_eq!(
        fallback_hash(300 * 1024 * 1024, 9),
        "5199edda5ea570a12c140c7aff2fae059673aba688b4b7ef20f9272afccd1538"
    );
}

#[test]
fn conflict_suffix_formats_utc() {
    assert_eq!(conflict_suffix_at(0), "19700101-000000-000");
    assert_eq!(conflict_suffix_at(1_700_000_000_123), "20231114-221320-123");
    let now = conflict_suffix().unwrap();
    assert_eq!(now.len(), "19700101-000000-000".len());
    assert!(now.as_str() > "2020");
}

#[test]
fn fresh_ids_differ() {
    let mut d = ConfigDoc::default();
    let mut g = GameProfile::default();
    g.name = "A".into();
    let a = save_game(&mut d, g.clone()).unwrap();
    let b = save_game(&mut d, g).unwrap();
    assert_eq!(a.id.len(), 36);
    assert_eq!(b.id.len(), 36);
    assert_ne!(a.id, b.id);
    assert_eq!(d.games.len(), 2);
}

#[test]
fn log_line_exact() {
    let e = log_entry(0, "warn", "sync", "hello".to_string());
    assert_eq!(log_line(&e), "1970-01-01 00:00:00.000 [WARN] sync: hello\n");
}
