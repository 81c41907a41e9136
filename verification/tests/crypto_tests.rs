use gsyncing::crypto::{
    base64_decode, base64_encode, ciphertext, decrypt, decrypt_with, encrypt, is_already_protected, seal,
};
use gsyncing::error::AppError;

#[test]
fn empty_round_trips_as_empty() {
    let enc = encrypt("").unwrap();
    assert_eq!(enc, "");
    let dec = decrypt("").unwrap();
    assert_eq!(dec, "");
}

#[test]
fn round_trip_simple() {
    let enc = encrypt("hello world").unwrap();
    assert!(enc.starts_with("gsy1:") || enc.starts_with("gsy0:"));
    let dec = decrypt(&enc).unwrap();
    assert_eq!(dec, "hello world");
}

#[test]
fn round_trip_unicode() {
    let s = "密钥 - 黑暗剧情线 🎮";
    let enc = encrypt(s).unwrap();
    let dec = decrypt(&enc).unwrap();
    assert_eq!(dec, s);
}

#[test]
fn legacy_plaintext_pass_through() {
    let dec = decrypt("AKIA-LEGACY-KEY").unwrap();
    assert_eq!(dec, "AKIA-LEGACY-KEY");
}

#[test]
fn already_protected_detects_markers() {
    assert!(is_already_protected("gsy1:foo"));
    assert!(is_already_protected("gsy0:foo"));
    assert!(!is_already_protected("AKIA-LEGACY"));
    assert!(!is_already_protected(""));
}

#[test]
fn base64_round_trip() {
    let data = b"the quick brown fox jumps over the lazy dog";
    let enc = base64_encode(data);
    let dec = base64_decode(&enc).unwrap();
    assert_eq!(dec, data.to_vec());
}

#[test]
fn base64_encode_exact_values() {
    assert_eq!(base64_encode(b""), "");
    assert_eq!(base64_encode(b"f"), "Zg==");
    assert_eq!(base64_encode(b"fo"), "Zm8=");
    assert_eq!(base64_encode(b"foo"), "Zm9v");
    assert_eq!(base64_encode(b"foobar"), "Zm9vYmFy");
}

#[test]
fn encrypt_writes_marked_base64() {
    assert_eq!(encrypt("foo").unwrap(), "gsy0:Zm9v");
}

#[test]
fn base64_decode_rejects_bad_char() {
    match base64_decode("Zm9v!") {
        Err(AppError::Other(m)) => assert_eq!(m, "bad base64 char 0x21"),
        other => panic!("unexpected {other:?}"),
    }
}

#[test]
fn decrypt_dpapi_ciphertext_is_refused_here() {
    match decrypt("gsy1:AAAA") {
        Err(AppError::Other(m)) => {
            assert_eq!(m, "ciphertext present but DPAPI not available on this platform")
        }
        other => panic!("unexpected {other:?}"),
    }
}

#[test]
fn decrypt_bad_payload_errors() {
    assert!(decrypt("gsy0:%%%%").is_err());
}

#[test]
fn decrypt_reports_bytes_that_are_not_text() {
    match decrypt("gsy0:/w==") {
        Err(AppError::Other(m)) => {
            assert_eq!(m, "utf8: invalid utf-8 sequence of 1 bytes from index 0")
        }
        other => panic!("unexpected {other:?}"),
    }
    assert_eq!(decrypt("gsy0:Zm9v").unwrap(), "foo");
}

#[test]
fn base64_refuses_foreign_byte_before_padding() {
    assert!(matches!(base64_decode("QU!JD"), Err(AppError::Other(_))));
    assert!(matches!(base64_decode("QUJD.xyz"), Err(AppError::Other(_))));
    // Whitespace is skipped and everything after the first `=` is ignored.
    assert_eq!(base64_decode("QU JD\n").unwrap(), b"ABC".to_vec());
    assert_eq!(base64_decode("QQ==!!").unwrap(), b"A".to_vec());
}

#[test]
fn seal_frames_protected_and_plain() {
    assert_eq!(seal("", Some(vec![1, 2, 3])), "");
    assert_eq!(seal("pw", Some(vec![1, 2, 3])), "gsy1:AQID");
    assert_eq!(seal("pw", None), "gsy0:cHc=");
    assert_eq!(ciphertext("gsy1:AQID"), Some(vec![1, 2, 3]));
    assert_eq!(ciphertext("gsy1:!"), None);
    assert_eq!(ciphertext("gsy0:cHc="), None);
}

#[test]
fn decrypt_with_service_answers() {
    let stored = seal("密钥", Some(vec![9, 9]));
    let answers = vec![(stored.clone(), Ok("密钥".as_bytes().to_vec()))];
    assert_eq!(decrypt_with(&stored, true, &answers).unwrap(), "密钥");
    // Without a service the ciphertext cannot be opened.
    match decrypt_with(&stored, false, &answers) {
        Err(AppError::Other(m)) => assert_eq!(m, "ciphertext present but DPAPI not available on this platform"),
        _ => panic!(),
    }
    let failed = vec![(stored.clone(), Err("access denied".to_string()))];
    match decrypt_with(&stored, true, &failed) {
        Err(AppError::Other(m)) => assert_eq!(m, "DPAPI decrypt: access denied"),
        _ => panic!(),
    }
    let not_text = vec![(stored.clone(), Ok(vec![0xff, 0xfe]))];
    match decrypt_with(&stored, true, &not_text) {
        Err(AppError::Other(m)) => assert!(m.starts_with("utf8 after dpapi: ")),
        _ => panic!(),
    }
    match decrypt_with("gsy1:!!", true, &answers) {
        Err(AppError::Other(m)) => assert_eq!(m, "bad base64 char 0x21"),
        _ => panic!(),
    }
    assert_eq!(decrypt_with("gsy0:cHc=", true, &answers).unwrap(), "pw");
    assert_eq!(decrypt_with("legacy", true, &answers).unwrap(), "legacy");
}
