//! The encryption service: AES-256-GCM authenticated encryption with fresh
//! random 96-bit nonces, and URL-safe base64 key transport.
//!
//! The cipher and the base64 codec are outside calls; their results are
//! named at the specification level (`aead_seal`, `aead_open`, `b64url_of`,
//! ...) and everything around them is verified against those names.

use vstd::prelude::*;
use vstd::string::StringSliceAdditionalSpecFns;
use aes_gcm::KeyInit;
use aes_gcm::aead::Aead;
use base64::Engine;
use crate::error::EncryptionError;

verus! {

/// The largest payload AES-GCM will seal (2^36 bytes).
pub const AEAD_P_MAX: u64 = 0x1000000000;

/// What AES-256-GCM encryption returns for a key, nonce and plaintext: a
/// function of its arguments alone.
pub uninterp spec fn aead_seal(key: Seq<u8>, nonce: Seq<u8>, data: Seq<u8>) -> Seq<u8>;

/// What AES-256-GCM decryption returns for a key, nonce and ciphertext:
/// `Some` plaintext when the authentication tag verifies, `None` otherwise.
pub uninterp spec fn aead_open(key: Seq<u8>, nonce: Seq<u8>, ct: Seq<u8>) -> Option<Seq<u8>>;

/// The URL-safe, unpadded base64 rendering of a byte sequence.
pub uninterp spec fn b64url_of(b: Seq<u8>) -> Seq<char>;

/// What URL-safe, unpadded base64 decoding returns for a character sequence.
pub uninterp spec fn b64url_decode_of(s: Seq<char>) -> Option<Seq<u8>>;

/// The standard, padded base64 rendering of a byte sequence.
pub uninterp spec fn b64std_of(b: Seq<u8>) -> Seq<char>;

/// What standard, padded base64 decoding returns for a character sequence.
pub uninterp spec fn b64std_decode_of(s: Seq<char>) -> Option<Seq<u8>>;

/// Relies on `rand::rngs::OsRng` (`RngCore::fill_bytes`): `n` bytes from the
/// operating system's secure random source.  Nothing is promised of the
/// values; the call diverges only if the operating system's source fails.
#[verifier::external_body]
fn random_bytes(n: usize) -> (r: Vec<u8>)
    ensures
        r@.len() == n,
{
    let mut buf = vec![0u8; n];
    rand::RngCore::fill_bytes(&mut rand::rngs::OsRng, &mut buf);
    buf
}

/// Relies on `base64::engine::general_purpose::URL_SAFE_NO_PAD.encode`: the
/// URL-safe unpadded rendering, which its own decoder inverts, four
/// characters for each three bytes rounded up.
#[verifier::external_body]
fn b64url_encode(b: &[u8]) -> (r: String)
    requires
        b@.len() <= 0x1000000000000,
    ensures
        r@ == b64url_of(b@),
        b64url_decode_of(r@) == Some(b@),
        r@.len() == (b@.len() * 4 + 2) / 3,
{
    base64::engine::general_purpose::URL_SAFE_NO_PAD.encode(b)
}

/// Relies on `base64::engine::general_purpose::URL_SAFE_NO_PAD.decode`:
/// succeeds exactly on well-formed URL-safe unpadded base64.
#[verifier::external_body]
fn b64url_decode(s: &str) -> (r: Result<Vec<u8>, ()>)
    ensures
        r is Ok <==> b64url_decode_of(s@) is Some,
        r matches Ok(b) ==> Some(b@) == b64url_decode_of(s@),
{
    match base64::engine::general_purpose::URL_SAFE_NO_PAD.decode(s) {
        Ok(b) => Ok(b),
        Err(_) => Err(()),
    }
}

/// Relies on `base64::engine::general_purpose::STANDARD.encode`: the padded
/// standard rendering, which its own decoder inverts.
#[verifier::external_body]
fn b64std_encode(b: &[u8]) -> (r: String)
    requires
        b@.len() <= 0x1000000000000,
    ensures
        r@ == b64std_of(b@),
        b64std_decode_of(r@) == Some(b@),
{
    base64::engine::general_purpose::STANDARD.encode(b)
}

/// Relies on `base64::engine::general_purpose::STANDARD.decode`: succeeds
/// exactly on well-formed padded standard base64.
#[verifier::external_body]
fn b64std_decode(s: &str) -> (r: Result<Vec<u8>, ()>)
    ensures
        r is Ok <==> b64std_decode_of(s@) is Some,
        r matches Ok(b) ==> Some(b@) == b64std_decode_of(s@),
{
    match base64::engine::general_purpose::STANDARD.decode(s) {
        Ok(b) => Ok(b),
        Err(_) => Err(()),
    }
}

/// Relies on `aes_gcm::Aes256Gcm` (`Aead::encrypt`): with a 32-byte key, a
/// 12-byte nonce and a payload within the AEAD limit it always succeeds,
/// appends the 16-byte tag, and its own decryption inverts it.
#[verifier::external_body]
fn aead_seal_bytes(key: &[u8], nonce: &[u8], data: &[u8]) -> (r: Vec<u8>)
    requires
        key@.len() == 32,
        nonce@.len() == 12,
        data@.len() <= AEAD_P_MAX,
    ensures
        r@ == aead_seal(key@, nonce@, data@),
        r@.len() == data@.len() + 16,
        aead_open(key@, nonce@, r@) == Some(data@),
{
    let cipher = aes_gcm::Aes256Gcm::new(aes_gcm::Key::<aes_gcm::Aes256Gcm>::from_slice(key));
    let n = aes_gcm::Nonce::from_slice(nonce);
    cipher.encrypt(n, data).expect("payload within AEAD limit")
}

/// Relies on `aes_gcm::Aes256Gcm` (`Aead::decrypt`): succeeds exactly when
/// the authentication tag verifies, conflating a wrong key with tampering.
#[verifier::external_body]
fn aead_open_bytes(key: &[u8], nonce: &[u8], ct: &[u8]) -> (r: Result<Vec<u8>, ()>)
    requires
        key@.len() == 32,
        nonce@.len() == 12,
    ensures
        r is Ok <==> aead_open(key@, nonce@, ct@) is Some,
        r matches Ok(p) ==> Some(p@) == aead_open(key@, nonce@, ct@),
{
    let cipher = aes_gcm::Aes256Gcm::new(aes_gcm::Key::<aes_gcm::Aes256Gcm>::from_slice(key));
    let n = aes_gcm::Nonce::from_slice(nonce);
    match cipher.decrypt(n, ct) {
        Ok(p) => Ok(p),
        Err(_) => Err(()),
    }
}

/// A 256-bit secret key, generated fresh per upload and never persisted
/// server-side.
#[derive(Debug)]
pub struct EncryptionKey {
    /// The key's 32 bytes.
    pub key: Vec<u8>,
}

impl EncryptionKey {
    /// The key's structural invariant: exactly 32 bytes.
    pub open spec fn wf(self) -> bool {
        self.key@.len() == 32
    }

    /// Generates a fresh random key.
    pub fn generate() -> (r: EncryptionKey)
        ensures
            r.wf(),
    {
        EncryptionKey { key: random_bytes(32) }
    }

    /// Decodes a key from its URL-safe unpadded base64 transport form.
    /// Succeeds exactly on strings that decode to 32 bytes; an undecodable
    /// string and a wrong length are distinct failures.
    pub fn from_base64(encoded: &str) -> (r: Result<EncryptionKey, EncryptionError>)
        ensures
            b64url_decode_of(encoded@) is None ==> r == Err::<EncryptionKey, EncryptionError>(
                EncryptionError::Base64Error,
            ),
            b64url_decode_of(encoded@) matches Some(b) ==> (if b.len() == 32 {
                r matches Ok(k) && k.wf() && k.key@ == b
            } else {
                r == Err::<EncryptionKey, EncryptionError>(EncryptionError::InvalidKeyFormat)
            }),
    {
        match b64url_decode(encoded) {
            Err(_) => Err(EncryptionError::Base64Error),
            Ok(decoded) => {
                if decoded.len() != 32 {
                    Err(EncryptionError::InvalidKeyFormat)
                } else {
                    Ok(EncryptionKey { key: decoded })
                }
            },
        }
    }

    /// Decodes a key from a URL fragment (the same transport form).
    pub fn from_url_encoded(encoded: &str) -> (r: Result<EncryptionKey, EncryptionError>)
        ensures
            b64url_decode_of(encoded@) is None ==> r == Err::<EncryptionKey, EncryptionError>(
                EncryptionError::Base64Error,
            ),
            b64url_decode_of(encoded@) matches Some(b) ==> (if b.len() == 32 {
                r matches Ok(k) && k.wf() && k.key@ == b
            } else {
                r == Err::<EncryptionKey, EncryptionError>(EncryptionError::InvalidKeyFormat)
            }),
    {
        Self::from_base64(encoded)
    }

    /// The key's URL-safe unpadded base64 transport form.
    pub fn to_base64(&self) -> (r: String)
        requires
            self.wf(),
        ensures
            r@ == b64url_of(self.key@),
            b64url_decode_of(r@) == Some(self.key@),
            r@.len() == 43,
    {
        b64url_encode(self.key.as_slice())
    }

    /// The raw key bytes.
    pub fn as_bytes(&self) -> (r: &[u8])
        ensures
            r@ == self.key@,
    {
        self.key.as_slice()
    }

    /// An independent copy of this key.
    pub fn dup(&self) -> (r: EncryptionKey)
        ensures
            r.key@ == self.key@,
    {
        EncryptionKey { key: self.key.clone() }
    }
}

/// A ciphertext together with the nonce it was sealed under.
#[derive(Debug)]
pub struct EncryptedData {
    /// The sealed bytes, tag included.
    pub ciphertext: Vec<u8>,
    /// The 96-bit nonce used for this sealing.
    pub nonce: Vec<u8>,
}

/// The encryption and decryption entry points.
pub struct Encryption;

impl Encryption {
    /// Seals `data` under `key` with a fresh random nonce.  Always succeeds
    /// for payloads within the AEAD limit, and what it returns opens back to
    /// `data` under the same key and nonce.
    pub fn encrypt(data: &[u8], key: &EncryptionKey) -> (r: Result<EncryptedData, EncryptionError>)
        requires
            key.wf(),
            data@.len() <= AEAD_P_MAX,
        ensures
            r is Ok,
            r matches Ok(ed) ==> {
                &&& ed.nonce@.len() == 12
                &&& ed.ciphertext@ == aead_seal(key.key@, ed.nonce@, data@)
                &&& ed.ciphertext@.len() == data@.len() + 16
                &&& aead_open(key.key@, ed.nonce@, ed.ciphertext@) == Some(data@)
            },
    {
        let nonce = Self::generate_nonce();
        let ciphertext = aead_seal_bytes(key.key.as_slice(), nonce.as_slice(), data);
        Ok(EncryptedData { ciphertext, nonce })
    }

    /// Seals `data` under `key` with a caller-chosen nonce.  A nonce must
    /// never be reused under one key; prefer `encrypt`.
    pub fn encrypt_with_nonce(data: &[u8], key: &EncryptionKey, nonce: &[u8]) -> (r: Result<
        EncryptedData,
        EncryptionError,
    >)
        requires
            key.wf(),
            nonce@.len() == 12,
            data@.len() <= AEAD_P_MAX,
        ensures
            r is Ok,
            r matches Ok(ed) ==> {
                &&& ed.nonce@ == nonce@
                &&& ed.ciphertext@ == aead_seal(key.key@, nonce@, data@)
                &&& aead_open(key.key@, nonce@, ed.ciphertext@) == Some(data@)
            },
    {
        let ciphertext = aead_seal_bytes(key.key.as_slice(), nonce, data);
        let mut n: Vec<u8> = Vec::new();
        n.extend_from_slice(nonce);
        proof {
            assert(n@ =~= nonce@);
        }
        Ok(EncryptedData { ciphertext, nonce: n })
    }

    /// Opens `encrypted_data` under `key`.  Fails on a malformed nonce
    /// length, and on tag mismatch (wrong key or corrupted data, not
    /// distinguished); succeeds exactly when the cipher accepts the tag.
    pub fn decrypt(encrypted_data: &EncryptedData, key: &EncryptionKey) -> (r: Result<
        Vec<u8>,
        EncryptionError,
    >)
        requires
            key.wf(),
        ensures
            encrypted_data.nonce@.len() != 12 ==> r == Err::<Vec<u8>, EncryptionError>(
                EncryptionError::InvalidNonceLength,
            ),
            encrypted_data.nonce@.len() == 12 ==> {
                &&& (r is Ok <==> aead_open(
                    key.key@,
                    encrypted_data.nonce@,
                    encrypted_data.ciphertext@,
                ) is Some)
                &&& (r matches Ok(p) ==> Some(p@) == aead_open(
                    key.key@,
                    encrypted_data.nonce@,
                    encrypted_data.ciphertext@,
                ))
                &&& (r is Err ==> r == Err::<Vec<u8>, EncryptionError>(
                    EncryptionError::DecryptionFailed,
                ))
            },
    {
        if encrypted_data.nonce.len() != 12 {
            return Err(EncryptionError::InvalidNonceLength);
        }
        match aead_open_bytes(
            key.key.as_slice(),
            encrypted_data.nonce.as_slice(),
            encrypted_data.ciphertext.as_slice(),
        ) {
            Ok(p) => Ok(p),
            Err(_) => Err(EncryptionError::DecryptionFailed),
        }
    }

    /// A fresh random key in its base64 transport form.
    pub fn generate_key_string() -> (r: String)
        ensures
            exists|k: Seq<u8>|
                k.len() == 32 && r@ == b64url_of(k) && #[trigger] b64url_decode_of(r@) == Some(k),
            r@.len() == 43,
    {
        let key = EncryptionKey::generate();
        let s = key.to_base64();
        proof {
            assert(key.key@.len() == 32 && s@ == b64url_of(key.key@) && b64url_decode_of(s@)
                == Some(key.key@));
        }
        s
    }

    /// A fresh random 96-bit nonce.
    pub fn generate_nonce() -> (r: Vec<u8>)
        ensures
            r@.len() == 12,
    {
        random_bytes(12)
    }

    /// Seals a short string and renders nonce-plus-ciphertext as one padded
    /// base64 blob, for auxiliary strings that are not file content.
    pub fn encrypt_string(text: &str, key: &EncryptionKey) -> (r: Result<String, EncryptionError>)
        requires
            key.wf(),
            text.spec_bytes().len() <= AEAD_P_MAX,
        ensures
            r is Ok,
            r matches Ok(s) ==> exists|n: Seq<u8>|
                {
                    &&& n.len() == 12
                    &&& s@ == b64std_of(
                        n + aead_seal(key.key@, n, vstd::utf8::encode_utf8(text@)),
                    )
                    &&& #[trigger] b64std_decode_of(s@) == Some(
                        n + aead_seal(key.key@, n, vstd::utf8::encode_utf8(text@)),
                    )
                    &&& aead_open(key.key@, n, aead_seal(key.key@, n, vstd::utf8::encode_utf8(text@)))
                        == Some(vstd::utf8::encode_utf8(text@))
                },
    {
        let bytes = text.as_bytes();
        let encrypted = Self::encrypt(bytes, key)?;
        let mut combined: Vec<u8> = Vec::new();
        combined.extend_from_slice(encrypted.nonce.as_slice());
        combined.extend_from_slice(encrypted.ciphertext.as_slice());
        proof {
            assert(combined@ =~= encrypted.nonce@ + encrypted.ciphertext@);
        }
        let s = b64std_encode(combined.as_slice());
        proof {
            let n = encrypted.nonce@;
            assert(n.len() == 12 && s@ == b64std_of(
                n + aead_seal(key.key@, n, vstd::utf8::encode_utf8(text@)),
            ) && b64std_decode_of(s@) == Some(
                n + aead_seal(key.key@, n, vstd::utf8::encode_utf8(text@)),
            ) && aead_open(key.key@, n, aead_seal(key.key@, n, vstd::utf8::encode_utf8(text@)))
                == Some(vstd::utf8::encode_utf8(text@)));
        }
        Ok(s)
    }

    /// Opens a padded base64 blob of nonce-plus-ciphertext back into a
    /// string.  Each malformation is a distinct failure; a tag mismatch and
    /// a non-UTF-8 plaintext are both reported as decryption failure.
    pub fn decrypt_string(encoded: &str, key: &EncryptionKey) -> (r: Result<
        String,
        EncryptionError,
    >)
        requires
            key.wf(),
        ensures
            b64std_decode_of(encoded@) is None ==> r == Err::<String, EncryptionError>(
                EncryptionError::Base64Error,
            ),
            b64std_decode_of(encoded@) matches Some(c) ==> (if c.len() < 12 {
                r == Err::<String, EncryptionError>(EncryptionError::InvalidNonceLength)
            } else {
                match aead_open(key.key@, c.take(12), c.skip(12)) {
                    None => r == Err::<String, EncryptionError>(EncryptionError::DecryptionFailed),
                    Some(p) => {
                        &&& (r matches Ok(s) ==> vstd::utf8::valid_utf8(p)
                            && vstd::utf8::encode_utf8(s@) == p)
                        &&& (r is Err ==> !vstd::utf8::valid_utf8(p) && r == Err::<
                            String,
                            EncryptionError,
                        >(EncryptionError::DecryptionFailed))
                    },
                }
            }),
    {
        let mut combined = match b64std_decode(encoded) {
            Err(_) => {
                return Err(EncryptionError::Base64Error);
            },
            Ok(c) => c,
        };
        if combined.len() < 12 {
            return Err(EncryptionError::InvalidNonceLength);
        }
        let ghost c = combined@;
        let ciphertext = combined.split_off(12);
        proof {
            assert(combined@ =~= c.take(12));
            assert(ciphertext@ =~= c.skip(12));
        }
        let encrypted_data = EncryptedData { nonce: combined, ciphertext };
        let decrypted = match Self::decrypt(&encrypted_data, key) {
            Err(e) => {
                return Err(e);
            },
            Ok(p) => p,
        };
        match crate::text::string_from_utf8(decrypted) {
            Ok(s) => Ok(s),
            Err(_) => Err(EncryptionError::DecryptionFailed),
        }
    }
}

} // verus!
