//! The AES-256-GCM cipher of a connection: a key and the nonce for the next
//! message, done by `aes-gcm`.

use vstd::prelude::*;
use crate::common::PacketError;

verus! {

/// The largest plaintext `aes-gcm` encrypts: `2^36` bytes.
pub open spec fn aes_p_max() -> int {
    0x10_0000_0000
}

/// The ciphertext and tag that AES-256-GCM gives for `plaintext` under `key`
/// and `nonce`, with no associated data.
pub uninterp spec fn aes_gcm_seal(key: Seq<u8>, nonce: Seq<u8>, plaintext: Seq<u8>) -> Seq<u8>;

/// The plaintext that AES-256-GCM recovers from `ciphertext` (ending in its
/// tag) under `key` and `nonce`, with no associated data; `None` when the tag
/// does not verify.
pub uninterp spec fn aes_gcm_open(key: Seq<u8>, nonce: Seq<u8>, ciphertext: Seq<u8>) -> Option<Seq<u8>>;

/// Encrypts `plaintext` in place and appends the tag.
///
/// Calls `AeadInPlace::encrypt_in_place` of `aes_gcm::Aes256Gcm` with no
/// associated data. Trusted: it fails exactly on plaintexts over `2^36` bytes;
/// the result is the one `aes_gcm_seal` names, 16 bytes (the tag) longer than
/// the plaintext, and decrypting it under the same key and nonce gives the
/// plaintext back.
#[verifier::external_body]
pub(crate) fn aes_encrypt(key: &[u8; 32], nonce: &[u8; 12], plaintext: Vec<u8>) -> (r: Result<
    Vec<u8>,
    aes_gcm::aead::Error,
>)
    ensures
        r is Ok <==> plaintext@.len() <= aes_p_max(),
        r matches Ok(c) ==> c@ == aes_gcm_seal(key@, nonce@, plaintext@),
        r matches Ok(c) ==> c@.len() == plaintext@.len() + 16,
        r matches Ok(c) ==> aes_gcm_open(key@, nonce@, c@) == Some(plaintext@),
{
    let cipher = <aes_gcm::Aes256Gcm as aes_gcm::KeyInit>::new(&(*key).into());
    let mut buffer = plaintext;
    match aes_gcm::aead::AeadInPlace::encrypt_in_place(&cipher, &(*nonce).into(), &[], &mut buffer) {
        Ok(()) => Ok(buffer),
        Err(e) => Err(e),
    }
}

/// Decrypts `ciphertext` (ending in its tag) in place.
///
/// Calls `AeadInPlace::decrypt_in_place` of `aes_gcm::Aes256Gcm` with no
/// associated data. Trusted: the result is the one `aes_gcm_open` names, and
/// a ciphertext shorter than the 16-byte tag fails.
#[verifier::external_body]
pub(crate) fn aes_decrypt(key: &[u8; 32], nonce: &[u8; 12], ciphertext: Vec<u8>) -> (r: Result<
    Vec<u8>,
    aes_gcm::aead::Error,
>)
    ensures
        match r {
            Ok(p) => aes_gcm_open(key@, nonce@, ciphertext@) == Some(p@),
            Err(_) => aes_gcm_open(key@, nonce@, ciphertext@) is None,
        },
        ciphertext@.len() < 16 ==> r is Err,
{
    let cipher = <aes_gcm::Aes256Gcm as aes_gcm::KeyInit>::new(&(*key).into());
    let mut buffer = ciphertext;
    match aes_gcm::aead::AeadInPlace::decrypt_in_place(&cipher, &(*nonce).into(), &[], &mut buffer) {
        Ok(()) => Ok(buffer),
        Err(e) => Err(e),
    }
}

/// A fresh random nonce.
///
/// Calls `AeadCore::generate_nonce` of `aes_gcm::Aes256Gcm` with
/// `rand::thread_rng()`. Random: nothing is stated of it.
#[verifier::external_body]
pub(crate) fn generate_nonce() -> [u8; 12] {
    <aes_gcm::Aes256Gcm as aes_gcm::AeadCore>::generate_nonce(&mut rand::thread_rng()).into()
}

/// A fresh random AES-256 key.
///
/// Calls `KeyInit::generate_key` of `aes_gcm::Aes256Gcm` with
/// `rand::thread_rng()`. Random: nothing is stated of it.
#[verifier::external_body]
pub(crate) fn generate_key() -> [u8; 32] {
    <aes_gcm::Aes256Gcm as aes_gcm::KeyInit>::generate_key(&mut rand::thread_rng()).into()
}

/// The cipher of one side of a connection: a key and the nonce of the next
/// message, or nothing once an operation failed half-way ("broken").
pub struct Cipher {
    state: Option<([u8; 32], [u8; 12])>,
}

impl View for Cipher {
    type V = Option<(Seq<u8>, Seq<u8>)>;

    closed spec fn view(&self) -> Option<(Seq<u8>, Seq<u8>)> {
        match self.state {
            Some((k, n)) => Some((k@, n@)),
            None => None,
        }
    }
}

/// Key and nonce of a cipher state have their lengths.
pub open spec fn cipher_state_wf(s: Option<(Seq<u8>, Seq<u8>)>) -> bool {
    s matches Some((k, n)) ==> k.len() == 32 && n.len() == 12
}

impl Cipher {
    /// The key and nonce of a cipher that is not broken have their lengths.
    pub proof fn lemma_wf(&self)
        ensures
            cipher_state_wf(self@),
    {
    }

    /// A cipher with `key` and `nonce`.
    pub fn new(key: [u8; 32], nonce: [u8; 12]) -> (r: Cipher)
        ensures
            r@ == Some((key@, nonce@)),
    {
        Cipher { state: Some((key, nonce)) }
    }

    /// Takes the key and nonce out, leaving the cipher broken until `reset`;
    /// fails with `Broken` when it is broken already.
    pub fn get(&mut self) -> (r: Result<([u8; 32], [u8; 12]), PacketError>)
        ensures
            final(self)@ is None,
            old(self)@ matches Some((k, n)) ==> (r matches Ok((a, b)) && a@ == k && b@ == n),
            old(self)@ is None ==> r matches Err(PacketError::Broken()),
    {
        match self.state.take() {
            Some(s) => Ok(s),
            None => Err(PacketError::Broken()),
        }
    }

    /// Puts a key and nonce back.
    pub fn reset(&mut self, key: [u8; 32], nonce: [u8; 12])
        ensures
            final(self)@ == Some((key@, nonce@)),
    {
        self.state = Some((key, nonce));
    }

    /// Whether an earlier failure lost the key and nonce.
    pub fn is_broken(&self) -> (r: bool)
        ensures
            r == self@ is None,
    {
        self.state.is_none()
    }
}

} // verus!
