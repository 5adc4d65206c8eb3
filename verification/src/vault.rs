//! The on-disk vault format. Layout:
//! `MAGIC(4) | salt(16) | nonce(12) | ciphertext(rest, includes the
//! Poly1305 auth tag)`. Salt and nonce are not secret: they are stored so
//! that the same key can be derived again; only the ciphertext and the
//! master password are.
use crate::crypto::{
    self, argon2id_key, chacha_open, chacha_seal, decrypt_failure_message, decryptable_len, encryptable_len,
    MAX_PASSWORD_LEN, NONCE_LEN, SALT_LEN, TAG_LEN,
};
use crate::entry_map::EntryMap;
use vstd::prelude::*;
use vstd::string::StringSliceAdditionalSpecFns;

verus! {

/// One stored secret.
#[derive(Clone, Debug)]
pub struct Entry {
    pub secret: String,
    pub created: String,
    pub note: Option<String>,
}

/// The contents of an `Entry`.
pub struct EntryView {
    pub secret: Seq<char>,
    pub created: Seq<char>,
    pub note: Option<Seq<char>>,
}

pub open spec fn note_view(note: Option<String>) -> Option<Seq<char>> {
    match note {
        Some(n) => Some(n@),
        None => None,
    }
}

impl View for Entry {
    type V = EntryView;

    open spec fn view(&self) -> EntryView {
        EntryView { secret: self.secret@, created: self.created@, note: note_view(self.note) }
    }
}

/// Everything a vault stores: its entries, keyed by label.
pub struct VaultData {
    pub entries: EntryMap,
}

impl View for VaultData {
    type V = Map<Seq<char>, EntryView>;

    open spec fn view(&self) -> Map<Seq<char>, EntryView> {
        self.entries@
    }
}

impl Default for VaultData {
    /// An empty vault.
    fn default() -> (data: Self)
        ensures
            data@ == Map::<Seq<char>, EntryView>::empty(),
    {
        VaultData { entries: EntryMap::new() }
    }
}

/// Length of `MAGIC`, salt and nonce together.
pub const HEADER_LEN: usize = 32;

/// The four bytes `CVL1` that open every vault file.
pub open spec fn magic() -> Seq<u8> {
    seq![0x43u8, 0x56u8, 0x4Cu8, 0x31u8]
}

/// The bytes of a vault file with this salt, nonce and ciphertext.
pub open spec fn framed(salt: Seq<u8>, nonce: Seq<u8>, ciphertext: Seq<u8>) -> Seq<u8> {
    magic() + salt + nonce + ciphertext
}

/// Why a byte string is not a vault file.
#[derive(Clone, Copy, Debug, PartialEq, Eq, Structural)]
pub enum FileError {
    /// Shorter than the header.
    TooShort,
    /// The first four bytes are not `CVL1`.
    BadMagic,
}

/// How a byte string splits into salt, nonce and ciphertext.
pub open spec fn split_spec(raw: Seq<u8>) -> Result<(Seq<u8>, Seq<u8>, Seq<u8>), FileError> {
    if raw.len() < HEADER_LEN {
        Err(FileError::TooShort)
    } else if raw.take(4) != magic() {
        Err(FileError::BadMagic)
    } else {
        Ok((raw.subrange(4, 20), raw.subrange(20, 32), raw.skip(32)))
    }
}

/// A vault file split at its header.
pub struct SealedParts {
    pub salt: [u8; SALT_LEN],
    pub nonce: [u8; NONCE_LEN],
    pub ciphertext: Vec<u8>,
}

/// Splitting the framing of a salt and nonce of the right lengths gives
/// them back, with the ciphertext.
pub proof fn lemma_split_framed(salt: Seq<u8>, nonce: Seq<u8>, ciphertext: Seq<u8>)
    requires
        salt.len() == SALT_LEN,
        nonce.len() == NONCE_LEN,
    ensures
        split_spec(framed(salt, nonce, ciphertext)) == Ok::<_, FileError>((salt, nonce, ciphertext)),
{
    let raw = framed(salt, nonce, ciphertext);
    assert(raw.take(4) =~= magic());
    assert(raw.subrange(4, 20) =~= salt);
    assert(raw.subrange(20, 32) =~= nonce);
    assert(raw.skip(32) =~= ciphertext);
}

/// Framing the parts that a vault file splits into gives the file back.
pub proof fn lemma_framed_split(raw: Seq<u8>)
    requires
        split_spec(raw) is Ok,
    ensures
        split_spec(raw) matches Ok((salt, nonce, ciphertext)) && framed(salt, nonce, ciphertext) == raw,
{
    assert(framed(raw.subrange(4, 20), raw.subrange(20, 32), raw.skip(32)) =~= raw);
}

/// Lays out a vault file: `MAGIC | salt | nonce | ciphertext`.
pub fn frame(salt: &[u8; SALT_LEN], nonce: &[u8; NONCE_LEN], ciphertext: &[u8]) -> (out: Vec<u8>)
    requires
        ciphertext@.len() + HEADER_LEN <= usize::MAX,
    ensures
        out@ == framed(salt@, nonce@, ciphertext@),
{
    let mut out: Vec<u8> = Vec::with_capacity(HEADER_LEN + ciphertext.len());
    out.push(0x43u8);
    out.push(0x56u8);
    out.push(0x4Cu8);
    out.push(0x31u8);
    assert(out@ =~= magic());
    out.extend_from_slice(salt.as_slice());
    out.extend_from_slice(nonce.as_slice());
    out.extend_from_slice(ciphertext);
    assert(out@ =~= framed(salt@, nonce@, ciphertext@));
    out
}

/// Splits a vault file at its header, refusing one that is too short to
/// hold the header or that does not open with `CVL1`.
pub fn split(raw: &[u8]) -> (result: Result<SealedParts, FileError>)
    ensures
        match split_spec(raw@) {
            Ok((salt, nonce, ciphertext)) => result matches Ok(p) && p.salt@ == salt
                && p.nonce@ == nonce && p.ciphertext@ == ciphertext,
            Err(e) => result == Err::<SealedParts, FileError>(e),
        },
{
    if raw.len() < HEADER_LEN {
        return Err(FileError::TooShort);
    }
    if !(raw[0] == 0x43u8 && raw[1] == 0x56u8 && raw[2] == 0x4Cu8 && raw[3] == 0x31u8) {
        assert(raw@.take(4) != magic()) by {
            if raw@.take(4) == magic() {
                assert(raw@.take(4)[0] == raw@[0]);
                assert(raw@.take(4)[1] == raw@[1]);
                assert(raw@.take(4)[2] == raw@[2]);
                assert(raw@.take(4)[3] == raw@[3]);
            }
        }
        return Err(FileError::BadMagic);
    }
    assert(raw@.take(4) =~= magic());
    let mut salt = [0u8; SALT_LEN];
    let mut i: usize = 0;
    while i < SALT_LEN
        invariant
            i <= SALT_LEN,
            raw@.len() >= HEADER_LEN,
            forall|j: int| 0 <= j < i ==> salt@[j] == raw@[4 + j],
        decreases SALT_LEN - i,
    {
        salt[i] = raw[4 + i];
        i = i + 1;
    }
    let mut nonce = [0u8; NONCE_LEN];
    let mut k: usize = 0;
    while k < NONCE_LEN
        invariant
            k <= NONCE_LEN,
            raw@.len() >= HEADER_LEN,
            forall|j: int| 0 <= j < k ==> nonce@[j] == raw@[20 + j],
        decreases NONCE_LEN - k,
    {
        nonce[k] = raw[20 + k];
        k = k + 1;
    }
    let mut ciphertext: Vec<u8> = Vec::new();
    let mut n: usize = HEADER_LEN;
    while n < raw.len()
        invariant
            HEADER_LEN <= n <= raw@.len(),
            ciphertext@ =~= raw@.subrange(HEADER_LEN as int, n as int),
        decreases raw@.len() - n,
    {
        ciphertext.push(raw[n]);
        n = n + 1;
    }
    assert(salt@ =~= raw@.subrange(4, 20));
    assert(nonce@ =~= raw@.subrange(20, 32));
    assert(ciphertext@ =~= raw@.skip(32));
    Ok(SealedParts { salt, nonce, ciphertext })
}


/// Calls `rand::thread_rng().fill_bytes` on an `N`-byte buffer. The bytes
/// come from the thread's CSPRNG: nothing is claimed of them.
#[verifier::external_body]
fn random_bytes<const N: usize>() -> (bytes: [u8; N]) {
    let mut buf = [0u8; N];
    rand::RngCore::fill_bytes(&mut rand::thread_rng(), &mut buf);
    buf
}

/// The vault file that sealing `plaintext` under `password` with this salt
/// and nonce produces.
pub open spec fn sealed_bytes(password: Seq<u8>, salt: Seq<u8>, nonce: Seq<u8>, plaintext: Seq<u8>) -> Seq<u8> {
    framed(salt, nonce, chacha_seal(argon2id_key(password, salt), nonce, plaintext))
}

/// What opening the vault file `raw` with these password bytes decrypts
/// to: nothing when it is not a vault file or its tag does not verify.
pub open spec fn opened(password: Seq<u8>, raw: Seq<u8>) -> Option<Seq<u8>> {
    match split_spec(raw) {
        Ok((salt, nonce, ciphertext)) => chacha_open(argon2id_key(password, salt), nonce, ciphertext),
        Err(_) => None,
    }
}

/// Whether a password and a plaintext can be sealed: Argon2 takes the
/// password and ChaCha20-Poly1305 takes the plaintext.
pub open spec fn sealable(password: &str, plaintext: Seq<u8>) -> bool {
    &&& password.spec_bytes().len() <= MAX_PASSWORD_LEN
    &&& encryptable_len(plaintext.len() as int)
}

/// Why a vault file could not be opened.
pub enum OpenError {
    /// Shorter than the header.
    TooShort,
    /// Does not open with `CVL1`.
    BadMagic,
    /// The tag did not verify: a wrong password or a damaged file.
    Undecryptable(String),
}

impl OpenError {
    /// The reason, as text: for a malformed file the words that follow
    /// the file's path in the report; for a failed decryption the whole
    /// message.
    pub fn describe(&self) -> (text: String)
        ensures
            text@ == match self {
                OpenError::TooShort => "is too short to be a valid vault file"@,
                OpenError::BadMagic => "is not a CyberVault file (bad magic bytes)"@,
                OpenError::Undecryptable(m) => m@,
            },
    {
        match self {
            OpenError::TooShort => String::from_str("is too short to be a valid vault file"),
            OpenError::BadMagic => String::from_str("is not a CyberVault file (bad magic bytes)"),
            OpenError::Undecryptable(m) => m.clone(),
        }
    }
}

/// Seals `plaintext` under `password` with the given salt and nonce: the
/// key is derived from the password and salt, the plaintext encrypted, and
/// the result framed.
pub fn seal_with(password: &str, salt: &[u8; SALT_LEN], nonce: &[u8; NONCE_LEN], plaintext: &[u8]) -> (out: Vec<u8>)
    requires
        sealable(password, plaintext@),
    ensures
        out@ == sealed_bytes(password.spec_bytes(), salt@, nonce@, plaintext@),
        out@.len() == HEADER_LEN + plaintext@.len() + TAG_LEN,
        opened(password.spec_bytes(), out@) == Some(plaintext@),
{
    let key = crypto::derive_key(password, salt.as_slice());
    let ciphertext = crypto::encrypt(&key, nonce, plaintext);
    let out = frame(salt, nonce, ciphertext.as_slice());
    proof {
        lemma_split_framed(salt@, nonce@, ciphertext@);
    }
    out
}

/// Seals `plaintext` under `password` with a fresh random salt and nonce.
/// Whatever they are, the result is the sealing with the salt and nonce
/// that it stores in its header, and opening it with the same password
/// gives `plaintext` back.
pub fn seal(password: &str, plaintext: &[u8]) -> (out: Vec<u8>)
    requires
        sealable(password, plaintext@),
    ensures
        out@.len() == HEADER_LEN + plaintext@.len() + TAG_LEN,
        out@ == sealed_bytes(password.spec_bytes(), out@.subrange(4, 20), out@.subrange(20, 32), plaintext@),
        opened(password.spec_bytes(), out@) == Some(plaintext@),
{
    let salt: [u8; SALT_LEN] = random_bytes();
    let nonce: [u8; NONCE_LEN] = random_bytes();
    let out = seal_with(password, &salt, &nonce, plaintext);
    proof {
        lemma_split_framed(salt@, nonce@, chacha_seal(argon2id_key(password.spec_bytes(), salt@), nonce@, plaintext@));
    }
    out
}

/// Whether `raw` can be handed to `open` with these password bytes: a
/// vault file needs a password Argon2 accepts and a ciphertext length
/// that decryption takes.
pub open spec fn openable(password: Seq<u8>, raw: Seq<u8>) -> bool {
    split_spec(raw) is Ok ==> {
        &&& password.len() <= MAX_PASSWORD_LEN
        &&& decryptable_len(raw.len() - HEADER_LEN)
    }
}

/// Opens a vault file with `password`: refuses bytes too short for the
/// header or without the `CVL1` magic, then derives the key from the
/// password and the stored salt and decrypts. A success is always the
/// plaintext that seals, under this password and the file's salt and
/// nonce, to exactly the file: a tampered file never opens to anything.
pub fn open(password: &str, raw: &[u8]) -> (result: Result<Vec<u8>, OpenError>)
    requires
        openable(password.spec_bytes(), raw@),
    ensures
        match split_spec(raw@) {
            Err(FileError::TooShort) => result matches Err(OpenError::TooShort),
            Err(FileError::BadMagic) => result matches Err(OpenError::BadMagic),
            Ok(_) => match opened(password.spec_bytes(), raw@) {
                Some(p) => result matches Ok(v) && v@ == p,
                None => result matches Err(OpenError::Undecryptable(e)) && e@ == decrypt_failure_message(),
            },
        },
        result matches Ok(v) ==> raw@ == sealed_bytes(
            password.spec_bytes(),
            raw@.subrange(4, 20),
            raw@.subrange(20, 32),
            v@,
        ),
{
    let parts = match split(raw) {
        Ok(parts) => parts,
        Err(FileError::TooShort) => return Err(OpenError::TooShort),
        Err(FileError::BadMagic) => return Err(OpenError::BadMagic),
    };
    let key = crypto::derive_key(password, parts.salt.as_slice());
    proof {
        lemma_framed_split(raw@);
    }
    match crypto::decrypt(&key, &parts.nonce, parts.ciphertext.as_slice()) {
        Ok(plaintext) => Ok(plaintext),
        Err(e) => Err(OpenError::Undecryptable(e)),
    }
}

} // verus!
