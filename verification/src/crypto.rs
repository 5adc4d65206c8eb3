//! Key derivation (Argon2id, default parameters) and authenticated
//! encryption (ChaCha20-Poly1305). Both primitives come from their
//! RustCrypto crates; this module fixes how they are called and states
//! what the library relies on of them.
use chacha20poly1305::aead::{Aead, KeyInit};
use chacha20poly1305::{ChaCha20Poly1305, Key, Nonce};
use vstd::prelude::*;
use vstd::string::StringSliceAdditionalSpecFns;

verus! {

pub const SALT_LEN: usize = 16;

pub const NONCE_LEN: usize = 12;

pub const KEY_LEN: usize = 32;

/// Length of the Poly1305 tag that ChaCha20-Poly1305 appends to a ciphertext.
pub const TAG_LEN: usize = 16;

/// Argon2 refuses passwords longer than this many bytes.
pub const MAX_PASSWORD_LEN: u64 = 0xFFFF_FFFF;

/// Argon2 refuses salts shorter than this many bytes.
pub const MIN_SALT_LEN: usize = 8;

/// Argon2 refuses salts longer than this many bytes.
pub const MAX_SALT_LEN: u64 = 0xFFFF_FFFF;

/// The key that Argon2id with its default parameters derives into a
/// 32-byte output from these password bytes and this salt.
pub uninterp spec fn argon2id_key(password: Seq<u8>, salt: Seq<u8>) -> Seq<u8>;

/// The ciphertext (message followed by its tag) that ChaCha20-Poly1305
/// produces under this key and nonce, with no associated data.
pub uninterp spec fn chacha_seal(key: Seq<u8>, nonce: Seq<u8>, plaintext: Seq<u8>) -> Seq<u8>;

/// What ChaCha20-Poly1305 decryption gives back under this key and nonce,
/// with no associated data: `None` when the tag does not verify.
pub uninterp spec fn chacha_open(key: Seq<u8>, nonce: Seq<u8>, ciphertext: Seq<u8>) -> Option<Seq<u8>>;

/// Whether Argon2 accepts a password of `password_len` bytes and a salt of
/// `salt_len` bytes.
pub open spec fn key_inputs_ok(password_len: int, salt_len: int) -> bool {
    &&& password_len <= MAX_PASSWORD_LEN
    &&& MIN_SALT_LEN <= salt_len <= MAX_SALT_LEN
}

/// Whether a message of `len` bytes can be encrypted: the keystream,
/// which starts at block 1 of the 32-bit block counter, covers at most
/// `u32::MAX - 1` blocks of 64 bytes, and the ciphertext, 16 bytes longer,
/// must fit in one allocation.
pub open spec fn encryptable_len(len: int) -> bool {
    &&& len <= 274_877_906_816
    &&& len + TAG_LEN <= isize::MAX
}

/// Whether a ciphertext of `len` bytes can be handed to decryption: a
/// message part that the length check lets through but the keystream does
/// not cover (16 bytes of tag plus 274 877 906 817 to 274 877 906 879
/// bytes) makes decryption panic once its tag verifies.
pub open spec fn decryptable_len(len: int) -> bool {
    len <= 274_877_906_832 || len >= 274_877_906_896
}

/// The message text that a failed decryption reports.
pub open spec fn decrypt_failure_message() -> Seq<char> {
    "wrong password, or the vault file is corrupted/tampered"@
}

pub open spec fn opened_view(o: Option<Vec<u8>>) -> Option<Seq<u8>> {
    match o {
        Some(v) => Some(v@),
        None => None,
    }
}

/// Calls `argon2::Argon2::default().hash_password_into` with a 32-byte
/// output buffer. Its source returns an error only for a password over
/// `0xFFFF_FFFF` bytes or a salt outside `8..=0xFFFF_FFFF` bytes (the
/// output length, 32, is in range and the memory it allocates itself is
/// always large enough), so under `requires` it succeeds; the contract
/// claims the key is the Argon2id key of the two inputs.
#[verifier::external_body]
fn argon2id_hash_into(password: &[u8], salt: &[u8]) -> (key: [u8; KEY_LEN])
    requires
        key_inputs_ok(password@.len() as int, salt@.len() as int),
    ensures
        key@ == argon2id_key(password@, salt@),
{
    let mut key = [0u8; KEY_LEN];
    argon2::Argon2::default()
        .hash_password_into(password, salt, &mut key)
        .expect("Argon2id key derivation should not fail for valid, bounded inputs");
    key
}

/// Calls `ChaCha20Poly1305::encrypt` (the `aead::Aead` impl) with no
/// associated data. Its source fails only for a message of `u32::MAX`
/// blocks or more, and appends the 16-byte tag to the encrypted message;
/// the contract claims the result is the ChaCha20-Poly1305 ciphertext of
/// the three inputs, is 16 bytes longer than the message, and decrypts
/// under the same key and nonce to the message (decryption recomputes the
/// same tag and applies the same keystream).
#[verifier::external_body]
fn chacha_encrypt(key: &[u8; KEY_LEN], nonce: &[u8; NONCE_LEN], plaintext: &[u8]) -> (ciphertext: Vec<u8>)
    requires
        encryptable_len(plaintext@.len() as int),
    ensures
        ciphertext@ == chacha_seal(key@, nonce@, plaintext@),
        ciphertext@.len() == plaintext@.len() + TAG_LEN,
        chacha_open(key@, nonce@, ciphertext@) == Some(plaintext@),
{
    let cipher = ChaCha20Poly1305::new(Key::from_slice(key));
    cipher.encrypt(Nonce::from_slice(nonce), plaintext).expect("encryption with a fresh nonce should not fail")
}

/// Calls `ChaCha20Poly1305::decrypt` (the `aead::Aead` impl) with no
/// associated data, its error turned into `None`. Under `requires` it does
/// not panic (lengths in the keystream gap are left out). The contract
/// claims the result is the ChaCha20-Poly1305 decryption of the three
/// inputs; that an input shorter than the tag fails and a success is 16
/// bytes shorter than its input (the source checks the length and
/// truncates the tag); and that a success is the message whose encryption
/// under the same key and nonce is exactly the input (the source succeeds
/// only when the tag it computes over the ciphertext equals the stored
/// one, and the message is the ciphertext under the same keystream).
#[verifier::external_body]
fn chacha_decrypt(key: &[u8; KEY_LEN], nonce: &[u8; NONCE_LEN], ciphertext: &[u8]) -> (plaintext: Option<Vec<u8>>)
    requires
        decryptable_len(ciphertext@.len() as int),
    ensures
        opened_view(plaintext) == chacha_open(key@, nonce@, ciphertext@),
        ciphertext@.len() < TAG_LEN ==> plaintext is None,
        plaintext matches Some(p) ==> p@.len() + TAG_LEN == ciphertext@.len(),
        plaintext matches Some(p) ==> chacha_seal(key@, nonce@, p@) == ciphertext@,
{
    let cipher = ChaCha20Poly1305::new(Key::from_slice(key));
    cipher.decrypt(Nonce::from_slice(nonce), ciphertext).ok()
}

/// Derives the cipher key from the master password and a salt with
/// Argon2id. The same password and salt always give the same key.
pub fn derive_key(password: &str, salt: &[u8]) -> (key: [u8; KEY_LEN])
    requires
        key_inputs_ok(password.spec_bytes().len() as int, salt@.len() as int),
    ensures
        key@ == argon2id_key(password.spec_bytes(), salt@),
{
    argon2id_hash_into(password.as_bytes(), salt)
}

/// Encrypts `plaintext` under `key` and `nonce`; the result carries the
/// authentication tag at its end, and decrypting it under the same key and
/// nonce gives `plaintext` back.
pub fn encrypt(key: &[u8; KEY_LEN], nonce: &[u8; NONCE_LEN], plaintext: &[u8]) -> (ciphertext: Vec<u8>)
    requires
        encryptable_len(plaintext@.len() as int),
    ensures
        ciphertext@ == chacha_seal(key@, nonce@, plaintext@),
        ciphertext@.len() == plaintext@.len() + TAG_LEN,
        chacha_open(key@, nonce@, ciphertext@) == Some(plaintext@),
{
    chacha_encrypt(key, nonce, plaintext)
}

/// Decrypts and authenticates `ciphertext`. `Err` covers both a wrong key
/// and a corrupted or tampered ciphertext: the two cannot be told apart.
/// A success is always the message whose encryption under the same key
/// and nonce is exactly `ciphertext`, so a changed ciphertext never
/// decrypts to something else.
pub fn decrypt(key: &[u8; KEY_LEN], nonce: &[u8; NONCE_LEN], ciphertext: &[u8]) -> (result: Result<Vec<u8>, String>)
    requires
        decryptable_len(ciphertext@.len() as int),
    ensures
        match chacha_open(key@, nonce@, ciphertext@) {
            Some(p) => result matches Ok(v) && v@ == p,
            None => result matches Err(e) && e@ == decrypt_failure_message(),
        },
        ciphertext@.len() < TAG_LEN ==> result is Err,
        result matches Ok(v) ==> v@.len() + TAG_LEN == ciphertext@.len(),
        result matches Ok(v) ==> chacha_seal(key@, nonce@, v@) == ciphertext@,
{
    match chacha_decrypt(key, nonce, ciphertext) {
        Some(plaintext) => Ok(plaintext),
        None => Err(String::from_str("wrong password, or the vault file is corrupted/tampered")),
    }
}

} // verus!
