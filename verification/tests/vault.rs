use cybervault::crypto::{derive_key, encrypt};
use cybervault::vault::{frame, open, seal, seal_with, split, FileError, OpenError, HEADER_LEN};

const VAULT_JSON: &[u8] =
    br#"{"entries":{"github":{"secret":"hunter2","created":"2026-09-12","note":null}}}"#;

#[test]
fn saves_and_loads_round_trip() {
    let sealed = seal("master-password", VAULT_JSON);
    let loaded = open("master-password", &sealed).ok().unwrap();
    let value: serde_json::Value = serde_json::from_slice(&loaded).unwrap();
    assert_eq!(value["entries"]["github"]["secret"], "hunter2");
}

#[test]
fn wrong_master_password_fails_to_load() {
    let sealed = seal("correct-password", br#"{"entries":{}}"#);
    let result = open("wrong-password", &sealed);
    assert!(result.is_err());
    assert!(matches!(result, Err(OpenError::Undecryptable(_))));
}

#[test]
fn rejects_a_file_with_bad_magic_bytes() {
    let result = open("any-password", b"NOTAVAULTFILEATALL_______________");
    assert!(result.is_err());
    let err = result.err().unwrap();
    assert!(err.describe().contains("not a CyberVault file"));
}

#[test]
fn rejects_a_truncated_file() {
    let result = open("any-password", b"CVL1short");
    assert!(result.is_err());
    let err = result.err().unwrap();
    assert!(err.describe().contains("too short"));
}

#[test]
fn each_save_uses_a_fresh_salt_and_nonce() {
    // Same password, same data, sealed twice: the bytes (header included)
    // must differ, since a reused nonce with the same key breaks the cipher.
    let a = seal("same-password", br#"{"entries":{}}"#);
    let b = seal("same-password", br#"{"entries":{}}"#);
    assert_ne!(
        a, b,
        "identical inputs must not produce identical vault files (salt/nonce must be fresh each time)"
    );
    assert_ne!(a[4..20], b[4..20]);
    assert_ne!(a[20..32], b[20..32]);
}

#[test]
fn frame_lays_out_magic_salt_nonce_ciphertext() {
    let salt = [1u8; 16];
    let nonce = [2u8; 12];
    let out = frame(&salt, &nonce, &[9, 8, 7]);
    assert_eq!(&out[..4], b"CVL1");
    assert_eq!(&out[4..20], &salt[..]);
    assert_eq!(&out[20..32], &nonce[..]);
    assert_eq!(&out[32..], &[9, 8, 7]);
    assert_eq!(out.len(), HEADER_LEN + 3);
}

#[test]
fn split_gives_back_what_frame_laid_out() {
    let salt = [5u8; 16];
    let nonce = [6u8; 12];
    let out = frame(&salt, &nonce, b"payload");
    let parts = split(&out).ok().unwrap();
    assert_eq!(parts.salt, salt);
    assert_eq!(parts.nonce, nonce);
    assert_eq!(parts.ciphertext, b"payload".to_vec());
}

#[test]
fn split_reports_each_file_error() {
    assert_eq!(split(&[0u8; 31]).err(), Some(FileError::TooShort));
    assert_eq!(split(b"").err(), Some(FileError::TooShort));
    let mut bad = vec![0u8; 32];
    bad[..4].copy_from_slice(b"CVL2");
    assert_eq!(split(&bad).err(), Some(FileError::BadMagic));
    let mut good = vec![0u8; 32];
    good[..4].copy_from_slice(b"CVL1");
    let parts = split(&good).ok().unwrap();
    assert!(parts.ciphertext.is_empty());
}

#[test]
fn seal_with_matches_the_crypto_layer() {
    let salt = [3u8; 16];
    let nonce = [4u8; 12];
    let sealed = seal_with("pw", &salt, &nonce, b"hello");
    let key = derive_key("pw", &salt);
    let expected = frame(&salt, &nonce, &encrypt(&key, &nonce, b"hello"));
    assert_eq!(sealed, expected);
    assert_eq!(open("pw", &sealed).ok().unwrap(), b"hello".to_vec());
}

#[test]
fn a_damaged_header_salt_fails_to_open() {
    let mut sealed = seal("pw", b"data");
    sealed[5] ^= 1;
    let err = open("pw", &sealed).err().unwrap();
    assert_eq!(
        err.describe(),
        "wrong password, or the vault file is corrupted/tampered"
    );
}

#[test]
fn a_flipped_ciphertext_byte_fails_to_open() {
    let mut sealed = seal("pw", b"some secret data");
    sealed[HEADER_LEN + 3] ^= 0x01;
    assert!(matches!(open("pw", &sealed), Err(OpenError::Undecryptable(_))));
}

#[test]
fn describe_texts_for_malformed_files() {
    assert_eq!(OpenError::TooShort.describe(), "is too short to be a valid vault file");
    assert_eq!(OpenError::BadMagic.describe(), "is not a CyberVault file (bad magic bytes)");
}
