use cybervault::crypto::{decrypt, derive_key, encrypt, NONCE_LEN, SALT_LEN, TAG_LEN};

#[test]
fn round_trips_correctly() {
    let salt = [7u8; SALT_LEN];
    let nonce = [3u8; NONCE_LEN];
    let key = derive_key("correct horse battery staple", &salt);
    let ciphertext = encrypt(&key, &nonce, b"a secret");
    let plaintext = decrypt(&key, &nonce, &ciphertext).unwrap();
    assert_eq!(plaintext, b"a secret");
}

#[test]
fn wrong_password_fails_to_decrypt() {
    let salt = [7u8; SALT_LEN];
    let nonce = [3u8; NONCE_LEN];
    let key = derive_key("right password", &salt);
    let ciphertext = encrypt(&key, &nonce, b"a secret");

    let wrong_key = derive_key("wrong password", &salt);
    assert!(decrypt(&wrong_key, &nonce, &ciphertext).is_err());
}

#[test]
fn tampered_ciphertext_fails_to_decrypt() {
    let salt = [7u8; SALT_LEN];
    let nonce = [3u8; NONCE_LEN];
    let key = derive_key("a password", &salt);
    let mut ciphertext = encrypt(&key, &nonce, b"a secret");
    let last = ciphertext.len() - 1;
    ciphertext[last] ^= 0xFF; // flip a bit in the auth tag

    assert!(
        decrypt(&key, &nonce, &ciphertext).is_err(),
        "tampered ciphertext must fail the integrity check, not silently decrypt garbage"
    );
}

#[test]
fn same_password_and_salt_derive_the_same_key() {
    let salt = [1u8; SALT_LEN];
    let a = derive_key("consistent", &salt);
    let b = derive_key("consistent", &salt);
    assert_eq!(a, b);
}

#[test]
fn different_salt_derives_a_different_key_from_the_same_password() {
    let a = derive_key("consistent", &[1u8; SALT_LEN]);
    let b = derive_key("consistent", &[2u8; SALT_LEN]);
    assert_ne!(a, b);
}

#[test]
fn ciphertext_is_the_message_plus_a_tag_and_differs_from_it() {
    let key = derive_key("pw", &[9u8; SALT_LEN]);
    let nonce = [0u8; NONCE_LEN];
    let message = b"attack at dawn";
    let ciphertext = encrypt(&key, &nonce, message);
    assert_eq!(ciphertext.len(), message.len() + TAG_LEN);
    assert_ne!(&ciphertext[..message.len()], &message[..]);
}

#[test]
fn decrypting_less_than_a_tag_fails_with_the_fixed_message() {
    let key = derive_key("pw", &[9u8; SALT_LEN]);
    let err = decrypt(&key, &[0u8; NONCE_LEN], &[1, 2, 3]).unwrap_err();
    assert_eq!(err, "wrong password, or the vault file is corrupted/tampered");
}

#[test]
fn empty_message_round_trips() {
    let key = derive_key("", &[0u8; 8]);
    let nonce = [5u8; NONCE_LEN];
    let ciphertext = encrypt(&key, &nonce, b"");
    assert_eq!(ciphertext.len(), TAG_LEN);
    assert_eq!(decrypt(&key, &nonce, &ciphertext).unwrap(), Vec::<u8>::new());
}

#[test]
fn key_depends_on_the_password() {
    let salt = [4u8; SALT_LEN];
    assert_ne!(derive_key("one", &salt), derive_key("two", &salt));
}
