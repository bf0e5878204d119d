//! The cipher service: key derivation from the passphrase and authenticated
//! encryption of payloads, over named results of the outside primitives.

use vstd::prelude::*;

use aes_gcm_siv::KeyInit;
use aes_gcm_siv::aead::Aead;
use sha2::Digest;

use crate::data::Payload;
use crate::data::dec_payload;
use crate::error::Error;

verus! {

/// What sealing a plaintext with AES-256-GCM-SIV returns for a given key and
/// nonce. The result depends on those three arguments alone.
pub uninterp spec fn aead_seal(key: Seq<u8>, nonce: Seq<u8>, plain: Seq<u8>) -> Seq<u8>;

/// What opening a ciphertext with AES-256-GCM-SIV returns for a given key
/// and nonce: the plaintext for an authentic ciphertext, nothing otherwise.
/// The result depends on the three arguments alone.
pub uninterp spec fn aead_open(key: Seq<u8>, nonce: Seq<u8>, ct: Seq<u8>) -> Option<Seq<u8>>;

/// What SHA-256 returns for a byte string.
pub uninterp spec fn sha256_of(data: Seq<u8>) -> Seq<u8>;

/// Relies on sha2's `Sha256::digest`: the digest is 32 bytes and a function
/// of the input alone.
#[verifier::external_body]
fn sha256(data: &[u8]) -> (r: Vec<u8>)
    ensures
        r@ == sha256_of(data@),
        r@.len() == 32,
{
    sha2::Sha256::digest(data).to_vec()
}

/// Relies on rand's `random`: twelve bytes from the thread-local CSPRNG.
/// Nothing is promised of their values.
#[verifier::external_body]
fn random_nonce() -> (r: Vec<u8>)
    ensures
        r@.len() == 12,
{
    let a: [u8; 12] = rand::random();
    a.to_vec()
}

/// Relies on aes-gcm-siv's `Aead::encrypt`: the ciphertext is the plaintext
/// sealed under the key and nonce, it carries a 16-byte postfix tag, and
/// decrypting it with the same key and nonce yields the plaintext back. The
/// backend refuses only plaintexts beyond two to the thirty-sixth bytes, so
/// anything shorter is owed success.
#[verifier::external_body]
fn aead_encrypt(key: &[u8], nonce: &[u8], plain: &[u8]) -> (r: Result<Vec<u8>, Error>)
    requires
        key@.len() == 32,
        nonce@.len() == 12,
    ensures
        match r {
            Ok(ct) => ct@ == aead_seal(key@, nonce@, plain@) && aead_open(key@, nonce@, ct@)
                == Some(plain@) && ct@.len() == plain@.len() + 16,
            Err(e) => e == Error::Cipher,
        },
        plain@.len() <= 0x1000000000 ==> r is Ok,
{
    let cipher = match aes_gcm_siv::Aes256GcmSiv::new_from_slice(key) {
        Ok(c) => c,
        Err(_) => return Err(Error::Cipher),
    };
    let arr: [u8; 12] = match nonce.try_into() {
        Ok(a) => a,
        Err(_) => return Err(Error::Cipher),
    };
    cipher.encrypt(&aes_gcm_siv::Nonce::from(arr), plain).map_err(|_| Error::Cipher)
}

/// Relies on aes-gcm-siv's `Aead::decrypt`: opening is a function of key,
/// nonce and ciphertext alone, and fails exactly on inauthentic ciphertexts.
#[verifier::external_body]
fn aead_decrypt(key: &[u8], nonce: &[u8], ct: &[u8]) -> (r: Result<Vec<u8>, Error>)
    requires
        key@.len() == 32,
        nonce@.len() == 12,
    ensures
        match r {
            Ok(p) => aead_open(key@, nonce@, ct@) == Some(p@),
            Err(e) => e == Error::Cipher && aead_open(key@, nonce@, ct@) is None,
        },
{
    let cipher = match aes_gcm_siv::Aes256GcmSiv::new_from_slice(key) {
        Ok(c) => c,
        Err(_) => return Err(Error::Cipher),
    };
    let arr: [u8; 12] = match nonce.try_into() {
        Ok(a) => a,
        Err(_) => return Err(Error::Cipher),
    };
    cipher.decrypt(&aes_gcm_siv::Nonce::from(arr), ct).map_err(|_| Error::Cipher)
}

/// The cipher service: the AEAD key derived from the user's passphrase by
/// SHA-256, alongside the passphrase itself, which room-id derivation
/// appends to room addresses.
#[derive(Debug, Clone, PartialEq, Eq)]
pub struct Cipher {
    pub key: Vec<u8>,
    pub origin_key: Vec<u8>,
}

impl Cipher {
    /// The key is exactly the digest of the passphrase.
    pub open spec fn wf(self) -> bool {
        self.key@ == sha256_of(self.origin_key@) && self.key@.len() == 32
    }

    /// Derives the symmetric key from a passphrase of any length.
    pub fn init(key: Vec<u8>) -> (c: Cipher)
        ensures
            c.wf(),
            c.origin_key@ == key@,
    {
        let derived = sha256(key.as_slice());
        Cipher { key: derived, origin_key: key }
    }

    /// Twelve fresh random bytes, drawn anew for every encryption.
    pub fn new_nonce() -> (r: Vec<u8>)
        ensures
            r@.len() == 12,
    {
        random_nonce()
    }

    /// Seals a plaintext under this key and the given nonce. Fails only with
    /// `Error::Cipher`: on a nonce that is not 12 bytes, or when the backend
    /// refuses the plaintext — which it does only beyond two to the
    /// thirty-sixth bytes, so a 12-byte nonce and anything shorter is owed
    /// success.
    pub fn encrypt(&self, nonce: &Vec<u8>, plain: &Vec<u8>) -> (r: Result<Vec<u8>, Error>)
        requires
            self.wf(),
        ensures
            match r {
                Ok(ct) => nonce@.len() == 12 && ct@ == aead_seal(self.key@, nonce@, plain@)
                    && aead_open(self.key@, nonce@, ct@) == Some(plain@) && ct@.len() == plain@.len()
                    + 16,
                Err(e) => e == Error::Cipher,
            },
            nonce@.len() == 12 && plain@.len() <= 0x1000000000 ==> r is Ok,
    {
        if nonce.len() != 12 {
            return Err(Error::Cipher);
        }
        aead_encrypt(self.key.as_slice(), nonce.as_slice(), plain.as_slice())
    }

    /// Opens a ciphertext under this key and the given nonce. Fails with
    /// `Error::Cipher` exactly on a nonce that is not 12 bytes or on an
    /// inauthentic ciphertext.
    pub fn decrypt(&self, nonce: &Vec<u8>, ct: &Vec<u8>) -> (r: Result<Vec<u8>, Error>)
        requires
            self.wf(),
        ensures
            match r {
                Ok(p) => nonce@.len() == 12 && aead_open(self.key@, nonce@, ct@) == Some(p@),
                Err(e) => e == Error::Cipher && (nonce@.len() != 12 || aead_open(
                    self.key@,
                    nonce@,
                    ct@,
                ) is None),
            },
    {
        if nonce.len() != 12 {
            return Err(Error::Cipher);
        }
        aead_decrypt(self.key.as_slice(), nonce.as_slice(), ct.as_slice())
    }

    /// Opens a ciphertext and parses the plaintext as a payload.
    pub fn decrypt_payload(&self, nonce: &Vec<u8>, content: &Vec<u8>) -> (r: Result<Payload, Error>)
        requires
            self.wf(),
        ensures
            match r {
                Ok(p) => {
                    &&& nonce@.len() == 12
                    &&& aead_open(self.key@, nonce@, content@) is Some
                    &&& dec_payload(aead_open(self.key@, nonce@, content@)->Some_0) == Some(p@)
                    &&& p@.wf()
                },
                Err(e) => {
                    ||| (e == Error::Cipher && (nonce@.len() != 12 || aead_open(
                        self.key@,
                        nonce@,
                        content@,
                    ) is None))
                    ||| (e == Error::Decode && aead_open(self.key@, nonce@, content@) is Some
                        && dec_payload(aead_open(self.key@, nonce@, content@)->Some_0) is None)
                },
            },
    {
        let plain = match self.decrypt(nonce, content) {
            Ok(p) => p,
            Err(e) => {
                return Err(e);
            },
        };
        Payload::from_cbor(plain.as_slice())
    }
}

} // verus!
