//! Sealing and opening the verification phrase with AES-256-GCM.
use crate::digest::{append_bytes, sha256, sha256_of};
use aes_gcm::aead::{Aead, AeadCore, KeyInit, OsRng};
use aes_gcm::{Aes256Gcm, Key, Nonce};
use vstd::prelude::*;
use vstd::string::StringSliceAdditionalSpecFns;
use vstd::utf8::{decode_utf8, valid_utf8};

verus! {

/// The phrase that every record seals and every verification opens.
pub const VERIFICATION_PHRASE: &'static str = "No vendo cigarros sueltos";

/// Bytes of key that AES-256-GCM takes.
pub const KEY_LEN: usize = 32;

/// Bytes of nonce that lead every sealed blob.
pub const NONCE_LEN: usize = 12;

/// The UTF-8 bytes of the verification phrase.
pub open spec fn phrase_bytes() -> Seq<u8> {
    VERIFICATION_PHRASE.spec_bytes()
}

/// The ciphertext and 16-byte tag that AES-256-GCM produces for `plaintext`
/// under `key` and `nonce`, with no associated data.
pub uninterp spec fn aes256gcm_sealed_of(key: Seq<u8>, nonce: Seq<u8>, plaintext: Seq<u8>) -> Seq<u8>;

/// The plaintext that AES-256-GCM recovers from `sealed` under `key` and
/// `nonce`, or `None` where the tag does not check.
pub uninterp spec fn aes256gcm_opened_of(key: Seq<u8>, nonce: Seq<u8>, sealed: Seq<u8>) -> Option<Seq<u8>>;

/// Why sealing or opening the phrase failed.
#[derive(Debug, Clone, Copy, PartialEq, Eq, Structural)]
pub enum CipherError {
    /// The blob is shorter than its nonce.
    TooShort,
    /// The tag did not check: wrong key or altered blob.
    Authentication,
    /// The opened plaintext is not UTF-8.
    InvalidUtf8,
    /// The cipher refused to seal the plaintext.
    Encryption,
}

/// Relies on aes_gcm's `Aead::encrypt` for `Aes256Gcm` (key given by
/// `KeyInit::new`, no associated data): it returns the ciphertext followed by
/// the 16-byte tag, a function of key, nonce and plaintext; it fails only on a
/// plaintext over 2^36 bytes; what it returns opens again to the plaintext.
#[verifier::external_body]
fn aes256gcm_seal(key: &[u8], nonce: &[u8], plaintext: &[u8]) -> (r: Option<Vec<u8>>)
    requires
        key@.len() == 32,
        nonce@.len() == 12,
    ensures
        plaintext@.len() <= 0x10_0000_0000 ==> r is Some,
        r matches Some(c) ==> c@ == aes256gcm_sealed_of(key@, nonce@, plaintext@),
        r matches Some(c) ==> c@.len() == plaintext@.len() + 16,
        r matches Some(c) ==> aes256gcm_opened_of(key@, nonce@, c@) == Some(plaintext@),
{
    let cipher = Aes256Gcm::new(Key::<Aes256Gcm>::from_slice(key));
    cipher.encrypt(Nonce::from_slice(nonce), plaintext).ok()
}

/// Relies on aes_gcm's `Aead::decrypt` for `Aes256Gcm` (no associated data):
/// the plaintext where the tag checks, an error otherwise; input shorter
/// than the 16-byte tag is always an error.
#[verifier::external_body]
fn aes256gcm_open(key: &[u8], nonce: &[u8], sealed: &[u8]) -> (r: Option<Vec<u8>>)
    requires
        key@.len() == 32,
        nonce@.len() == 12,
    ensures
        match r {
            Some(p) => aes256gcm_opened_of(key@, nonce@, sealed@) == Some(p@),
            None => aes256gcm_opened_of(key@, nonce@, sealed@) is None,
        },
        sealed@.len() < 16 ==> r is None,
{
    let cipher = Aes256Gcm::new(Key::<Aes256Gcm>::from_slice(key));
    cipher.decrypt(Nonce::from_slice(nonce), sealed).ok()
}

/// Relies on aes_gcm's `AeadCore::generate_nonce` with `OsRng`: twelve bytes
/// from the operating system's secure random source.
#[verifier::external_body]
fn random_nonce() -> (r: Vec<u8>)
    ensures
        r@.len() == 12,
{
    Aes256Gcm::generate_nonce(&mut OsRng).to_vec()
}

/// Relies on `String::from_utf8`: it succeeds exactly on valid UTF-8, with
/// the characters that the bytes encode.
#[verifier::external_body]
fn utf8_string(bytes: Vec<u8>) -> (r: Option<String>)
    ensures
        r is Some <==> valid_utf8(bytes@),
        r matches Some(s) ==> s@ == decode_utf8(bytes@),
{
    String::from_utf8(bytes).ok()
}

/// A key of any length brought to 32 bytes: a longer one is cut to its first
/// 32 bytes, a shorter one is replaced by its SHA-256 digest.
pub open spec fn normalized_key(key: Seq<u8>) -> Seq<u8> {
    if key.len() > 32 {
        key.take(32)
    } else if key.len() < 32 {
        sha256_of(key)
    } else {
        key
    }
}

/// The 32-byte key that the cipher uses for `key`.
pub fn normalize_key(key: &[u8]) -> (r: Vec<u8>)
    ensures
        r@ == normalized_key(key@),
        r@.len() == KEY_LEN,
{
    if key.len() < KEY_LEN {
        sha256(key)
    } else {
        let mut out: Vec<u8> = Vec::new();
        let mut k: usize = 0;
        while k < KEY_LEN
            invariant
                k <= KEY_LEN <= key@.len(),
                out@ == key@.subrange(0, k as int),
            decreases KEY_LEN - k,
        {
            out.push(key[k]);
            assert(key@.subrange(0, k + 1) =~= key@.subrange(0, k as int).push(key@[k as int]));
            k = k + 1;
        }
        assert(key@.len() == 32 ==> key@.subrange(0, 32) =~= key@);
        out
    }
}

/// The blob that seals the phrase under `key` with the given nonce.
pub open spec fn sealed_phrase(key: Seq<u8>, nonce: Seq<u8>) -> Seq<u8> {
    nonce + aes256gcm_sealed_of(normalized_key(key), nonce, phrase_bytes())
}

/// Whether `blob` (nonce, then ciphertext and tag) opens to the phrase under
/// `key`.
pub open spec fn opens_to_phrase(key: Seq<u8>, blob: Seq<u8>) -> bool {
    blob.len() >= 12 && aes256gcm_opened_of(normalized_key(key), blob.take(12), blob.skip(12))
        == Some(phrase_bytes())
}

/// Seals the phrase under `key` with the given nonce: the nonce, then the
/// ciphertext and its tag.
pub fn encrypt_phrase_with_nonce(key: &[u8], nonce: &[u8]) -> (r: Result<Vec<u8>, CipherError>)
    requires
        nonce@.len() == NONCE_LEN,
    ensures
        r matches Ok(blob) && blob@ == sealed_phrase(key@, nonce@) && opens_to_phrase(key@, blob@)
            && blob@.len() == NONCE_LEN + phrase_bytes().len() + 16 && blob@.len() == 53,
{
    let key = normalize_key(key);
    let plaintext = VERIFICATION_PHRASE.as_bytes();
    proof {
        reveal_strlit("No vendo cigarros sueltos");
        vstd::string::is_ascii_spec_bytes(VERIFICATION_PHRASE);
    }
    assert(plaintext@.len() == 25);
    match aes256gcm_seal(key.as_slice(), nonce, plaintext) {
        Some(sealed) => {
            let mut blob: Vec<u8> = Vec::new();
            append_bytes(&mut blob, nonce);
            append_bytes(&mut blob, sealed.as_slice());
            assert(blob@.take(12) =~= nonce@);
            assert(blob@.skip(12) =~= sealed@);
            Ok(blob)
        },
        None => Err(CipherError::Encryption),
    }
}

/// Seals the phrase under `key` with a fresh random nonce. The result
/// opens to the phrase under the same key, whatever nonce was drawn.
pub fn encrypt_phrase(key: &[u8]) -> (r: Result<Vec<u8>, CipherError>)
    ensures
        r matches Ok(blob) && blob@ == sealed_phrase(key@, blob@.take(12)) && opens_to_phrase(
            key@,
            blob@,
        ) && blob@.len() == NONCE_LEN + phrase_bytes().len() + 16 && blob@.len() == 53,
{
    let nonce = random_nonce();
    let r = encrypt_phrase_with_nonce(key, nonce.as_slice());
    assert(r matches Ok(blob) && blob@.take(12) =~= nonce@);
    r
}

/// What opening `blob` under `key` gives: the plaintext, or why it failed.
pub open spec fn opened_blob(key: Seq<u8>, blob: Seq<u8>) -> Result<Seq<u8>, CipherError> {
    if blob.len() < 12 {
        Err(CipherError::TooShort)
    } else {
        match aes256gcm_opened_of(normalized_key(key), blob.take(12), blob.skip(12)) {
            Some(p) => Ok(p),
            None => Err(CipherError::Authentication),
        }
    }
}

/// A blob that seals the phrase under `key`, as `encrypt_phrase` returns it,
/// opens under the same key to exactly the phrase's bytes.
pub proof fn lemma_sealed_blob_opens(key: Seq<u8>, blob: Seq<u8>)
    requires
        opens_to_phrase(key, blob),
    ensures
        opened_blob(key, blob) == Ok::<Seq<u8>, CipherError>(phrase_bytes()),
{
}

/// Opens `blob` (nonce, then ciphertext and tag) under `key`.
pub fn decrypt_bytes(key: &[u8], blob: &[u8]) -> (r: Result<Vec<u8>, CipherError>)
    ensures
        match r {
            Ok(p) => opened_blob(key@, blob@) == Ok::<Seq<u8>, CipherError>(p@),
            Err(e) => opened_blob(key@, blob@) == Err::<Seq<u8>, CipherError>(e),
        },
        blob@.len() < NONCE_LEN + 16 ==> r is Err,
{
    let key = normalize_key(key);
    if blob.len() < NONCE_LEN {
        return Err(CipherError::TooShort);
    }
    let mut nonce: Vec<u8> = Vec::new();
    let mut sealed: Vec<u8> = Vec::new();
    let mut k: usize = 0;
    while k < blob.len()
        invariant
            NONCE_LEN <= blob@.len(),
            k <= blob@.len(),
            k <= NONCE_LEN ==> nonce@ == blob@.subrange(0, k as int) && sealed@.len() == 0,
            k > NONCE_LEN ==> nonce@ == blob@.take(12) && sealed@ == blob@.subrange(12, k as int),
        decreases blob@.len() - k,
    {
        if k < NONCE_LEN {
            nonce.push(blob[k]);
            assert(blob@.subrange(0, k + 1) =~= blob@.subrange(0, k as int).push(blob@[k as int]));
        } else {
            sealed.push(blob[k]);
            assert(blob@.subrange(12, k + 1) =~= blob@.subrange(12, k as int).push(blob@[k as int]));
        }
        k = k + 1;
    }
    assert(sealed@ =~= blob@.skip(12));
    match aes256gcm_open(key.as_slice(), nonce.as_slice(), sealed.as_slice()) {
        Some(p) => Ok(p),
        None => Err(CipherError::Authentication),
    }
}

/// Opens `blob` under `key` and reads the plaintext as text.
pub fn decrypt_phrase(key: &[u8], encrypted_data: &[u8]) -> (r: Result<String, CipherError>)
    ensures
        match opened_blob(key@, encrypted_data@) {
            Err(e) => r == Err::<String, CipherError>(e),
            Ok(p) => if valid_utf8(p) {
                r matches Ok(s) && s@ == decode_utf8(p)
            } else {
                r == Err::<String, CipherError>(CipherError::InvalidUtf8)
            },
        },
        encrypted_data@.len() < NONCE_LEN + 16 ==> r is Err,
{
    match decrypt_bytes(key, encrypted_data) {
        Ok(p) => match utf8_string(p) {
            Some(s) => Ok(s),
            None => Err(CipherError::InvalidUtf8),
        },
        Err(e) => Err(e),
    }
}

/// Whether the two byte sequences are equal.
pub fn bytes_equal(a: &[u8], b: &[u8]) -> (r: bool)
    ensures
        r == (a@ == b@),
{
    if a.len() != b.len() {
        return false;
    }
    let mut k: usize = 0;
    while k < a.len()
        invariant
            a@.len() == b@.len(),
            k <= a@.len(),
            forall|t: int| 0 <= t < k ==> a@[t] == b@[t],
        decreases a@.len() - k,
    {
        if a[k] != b[k] {
            return false;
        }
        k = k + 1;
    }
    assert(a@ =~= b@);
    true
}

/// Whether `blob` opens under `key` to exactly the phrase.
pub fn unlocks_phrase(key: &[u8], blob: &[u8]) -> (r: bool)
    ensures
        r == opens_to_phrase(key@, blob@),
{
    match decrypt_bytes(key, blob) {
        Ok(p) => bytes_equal(p.as_slice(), VERIFICATION_PHRASE.as_bytes()),
        Err(_) => false,
    }
}

} // verus!
