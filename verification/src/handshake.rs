//! The key exchange of the encrypting variants: the client sends an RSA public
//! key after its head; the server answers with a fresh AES key, encrypted with
//! it, and the first nonce. RSA is done by `rsa`.

use vstd::prelude::*;
use crate::cipher::{generate_key, generate_nonce, Cipher};
use crate::common::{head_bytes, starter_read_error, write_head, ProtocolVariant, ReadError, StarterError};
use crate::wire::{
    copy_array_12, copy_array_32, copy_range, lemma_first_stop_some, lemma_read_u8_vec, lemma_read_u8_vec_decided,
    lemma_read_u8_vec_len, read_u8_vec, spec_read_u8_vec, u8_vec_bytes, write_more, write_u8_vec, WireError,
};

verus! {

#[verifier::external_type_specification]
#[verifier::external_body]
pub struct ExRsaPrivateKey(rsa::RsaPrivateKey);

#[verifier::external_type_specification]
#[verifier::external_body]
pub struct ExRsaPublicKey(rsa::RsaPublicKey);

/// A fresh 2048-bit RSA private key.
///
/// Calls `rsa::RsaPrivateKey::new` with `rand::thread_rng()`. Random: nothing
/// is stated of it.
#[verifier::external_body]
pub(crate) fn generate_rsa_key() -> Result<rsa::RsaPrivateKey, rsa::Error> {
    rsa::RsaPrivateKey::new(&mut rand::thread_rng(), 2048)
}

/// The number that little-endian bytes stand for.
pub open spec fn le_value(s: Seq<u8>) -> nat
    decreases s.len(),
{
    if s.len() == 0 {
        0
    } else {
        s[0] as nat + 256 * le_value(s.drop_first())
    }
}

/// The smallest public exponent an RSA key may have.
pub open spec fn min_public_exponent() -> nat {
    2
}

/// The largest public exponent an RSA key may have: `2^33 - 1`.
pub open spec fn max_public_exponent() -> nat {
    0x1_ffff_ffff
}

/// What every RSA key holds of its modulus `n` and public exponent `e` (as
/// little-endian bytes): both odd, the exponent between the smallest and the
/// largest allowed, and below the modulus.
pub open spec fn rsa_parts_ordered(n: Seq<u8>, e: Seq<u8>) -> bool {
    &&& le_value(n) % 2 == 1
    &&& le_value(e) % 2 == 1
    &&& min_public_exponent() <= le_value(e) <= max_public_exponent()
    &&& le_value(e) < le_value(n)
}

/// The modulus and public exponent (as little-endian bytes) of which a public
/// key can be made: those of an RSA key, with a modulus of at most 4096 bits.
pub open spec fn rsa_public_parts_ok(n: Seq<u8>, e: Seq<u8>) -> bool {
    &&& rsa_parts_ordered(n, e)
    &&& le_value(n) < vstd::arithmetic::power2::pow2(4096)
}

/// The modulus and the public exponent of `key`, as little-endian bytes.
///
/// Calls `PublicKeyParts::n` and `PublicKeyParts::e`, and `BigUint::to_bytes_le`
/// on each. Trusted: every `rsa::RsaPrivateKey` has passed the library's
/// public-key check when it was made, so the parts are ordered as
/// `rsa_parts_ordered` says (the exponent odd, between 2 and `2^33 - 1`, below
/// the odd modulus). Which key the bytes belong to is not stated: the key is
/// opaque here.
#[verifier::external_body]
pub(crate) fn rsa_key_parts(key: &rsa::RsaPrivateKey) -> (r: (Vec<u8>, Vec<u8>))
    ensures
        rsa_parts_ordered(r.0@, r.1@),
{
    (rsa::traits::PublicKeyParts::n(key).to_bytes_le(), rsa::traits::PublicKeyParts::e(key).to_bytes_le())
}

/// The RSA public key with modulus `n` and public exponent `e`, given as
/// little-endian bytes.
///
/// Calls `rsa::RsaPublicKey::new` on `BigUint::from_bytes_le` of each. Trusted:
/// it succeeds exactly on the parts that `rsa_public_parts_ok` admits (a
/// modulus of at most 4096 bits, odd; an odd exponent from 2 to `2^33 - 1`,
/// below the modulus). The key is opaque here: nothing more is stated of it.
#[verifier::external_body]
pub(crate) fn compose_rsa_public(n: &[u8], e: &[u8]) -> (r: Result<rsa::RsaPublicKey, rsa::Error>)
    ensures
        r is Ok <==> rsa_public_parts_ok(n@, e@),
{
    rsa::RsaPublicKey::new(rsa::BigUint::from_bytes_le(n), rsa::BigUint::from_bytes_le(e))
}

/// Encrypts `data` with `key`, OAEP padding over SHA-512.
///
/// Calls `rsa::RsaPublicKey::encrypt` with `rand::thread_rng()` and
/// `rsa::Oaep::new::<rsa::sha2::Sha512>()`. Trusted: a ciphertext is as long
/// as the key, which must be at least 130 bytes longer than `data` (two 64-byte
/// digests and two bytes of padding); so it is at least 130 bytes longer than
/// `data`. The padding is random: nothing more is stated of it.
#[verifier::external_body]
pub(crate) fn rsa_encrypt(key: &rsa::RsaPublicKey, data: &[u8]) -> (r: Result<Vec<u8>, rsa::Error>)
    ensures
        r matches Ok(c) ==> c@.len() >= data@.len() + 130,
{
    key.encrypt(&mut rand::thread_rng(), rsa::Oaep::new::<rsa::sha2::Sha512>(), data)
}

/// Decrypts `data` with `key`, OAEP padding over SHA-512.
///
/// Calls `rsa::RsaPrivateKey::decrypt` with `rsa::Oaep::new::<rsa::sha2::Sha512>()`.
/// Trusted: a decrypted message is at least 130 bytes shorter than `data`
/// (OAEP over SHA-512 takes a ciphertext as long as the key and spends two
/// 64-byte digests and two bytes of it on padding). The key is opaque here:
/// nothing more is stated of the result.
#[verifier::external_body]
pub(crate) fn rsa_decrypt(key: &rsa::RsaPrivateKey, data: &[u8]) -> (r: Result<Vec<u8>, rsa::Error>)
    ensures
        r matches Ok(p) ==> p@.len() + 130 <= data@.len(),
{
    key.decrypt(rsa::Oaep::new::<rsa::sha2::Sha512>(), data)
}

/// What the client of an encrypting variant sends first: its head, then the
/// modulus and the public exponent of its RSA key as byte strings.
pub open spec fn hello_bytes(
    protocol: ProtocolVariant,
    identifier: Seq<char>,
    version: Seq<char>,
    n: Seq<u8>,
    e: Seq<u8>,
) -> Seq<u8> {
    head_bytes(protocol, identifier, version) + u8_vec_bytes(n) + u8_vec_bytes(e)
}

/// Appends the client's head and RSA public key parts.
pub fn write_hello(
    out: &mut Vec<u8>,
    protocol: ProtocolVariant,
    identifier: &str,
    version: &str,
    n: &[u8],
    e: &[u8],
)
    ensures
        final(out)@ == old(out)@ + hello_bytes(protocol, identifier@, version@, n@, e@),
{
    write_head(out, protocol, identifier, version);
    write_u8_vec(out, n);
    write_u8_vec(out, e);
    assert(out@ =~= old(out)@ + hello_bytes(protocol, identifier@, version@, n@, e@));
}

/// Starts the client of an encrypting variant: makes an RSA key and gives it
/// with the bytes to send (`write_hello` of its parts).
pub fn client_init(protocol: ProtocolVariant, identifier: &str, version: &str) -> (r: Result<
    (rsa::RsaPrivateKey, Vec<u8>),
    StarterError,
>)
    ensures
        r matches Ok((_, b)) ==> exists|n: Seq<u8>, e: Seq<u8>|
            b@ == hello_bytes(protocol, identifier@, version@, n, e) && rsa_parts_ordered(n, e),
        r matches Err(e) ==> e is RSA,
{
    let key = match generate_rsa_key() {
        Ok(k) => k,
        Err(e) => return Err(StarterError::RSA(e)),
    };
    let (n, e) = rsa_key_parts(&key);
    let mut out: Vec<u8> = Vec::new();
    write_hello(&mut out, protocol, identifier, version, &n, &e);
    assert(out@ == hello_bytes(protocol, identifier@, version@, n@, e@));
    Ok((key, out))
}

/// Reading the client's RSA key parts from `s`: modulus, public exponent and
/// the bytes taken.
pub open spec fn spec_read_key_parts(s: Seq<u8>) -> Result<(Seq<u8>, Seq<u8>, usize), WireError> {
    match spec_read_u8_vec(s) {
        Err(e) => Err(e),
        Ok((n, a)) => match spec_read_u8_vec(s.skip(a as int)) {
            Err(e) => Err(e),
            Ok((e, b)) => Ok((n, e, (a + b) as usize)),
        },
    }
}

/// Reads the client's RSA key parts, in the server, and makes the public key.
/// Reading fails as `spec_read_key_parts` says; once both parts are read, the
/// key is made, or the RSA error is given.
pub fn read_client_key(input: &[u8]) -> (r: Result<(rsa::RsaPublicKey, usize), ReadError<StarterError>>)
    ensures
        match spec_read_key_parts(input@) {
            Ok((n, e, m)) => match r {
                Ok((_, k)) => k == m && rsa_public_parts_ok(n, e),
                Err(ReadError::Failed(StarterError::RSA(_))) => !rsa_public_parts_ok(n, e),
                _ => false,
            },
            Err(WireError::Incomplete) => r matches Err(ReadError::Incomplete),
            Err(_) => r matches Err(ReadError::Failed(StarterError::IO(_))),
        },
{
    let (n, a) = match read_u8_vec(input) {
        Ok(p) => p,
        Err(e) => return Err(starter_read_error(e)),
    };
    proof {
        lemma_first_stop_some(input@);
    }
    let rest = copy_range(input, a, input.len());
    assert(rest@ =~= input@.skip(a as int));
    let (e, b) = match read_u8_vec(&rest) {
        Ok(p) => p,
        Err(e) => return Err(starter_read_error(e)),
    };
    proof {
        lemma_first_stop_some(rest@);
    }
    match compose_rsa_public(&n, &e) {
        Ok(key) => Ok((key, a + b)),
        Err(err) => Err(ReadError::Failed(StarterError::RSA(err))),
    }
}

/// What the server sends after accepting: the encrypted AES key as a byte
/// string, then the first nonce.
pub open spec fn offer_bytes(encrypted: Seq<u8>, nonce: Seq<u8>) -> Seq<u8> {
    u8_vec_bytes(encrypted) + nonce
}

/// Appends the server's offer.
pub fn write_offer(out: &mut Vec<u8>, encrypted: &[u8], nonce: &[u8; 12])
    ensures
        final(out)@ == old(out)@ + offer_bytes(encrypted@, nonce@),
{
    write_u8_vec(out, encrypted);
    write_more(out, nonce);
    assert(out@ =~= old(out)@ + offer_bytes(encrypted@, nonce@));
}

/// The bytes `bytes` hold an offer with `nonce`, and nothing more.
pub open spec fn offer_gives(bytes: Seq<u8>, nonce: Seq<u8>) -> bool {
    &&& spec_read_offer(bytes) matches Ok((_, got, m))
    &&& got == nonce
    &&& m == bytes.len()
}

/// Makes the server's cipher from a fresh AES key and nonce, and appends the
/// offer: the key encrypted with the client's RSA key, and the nonce. On an
/// RSA error nothing is appended.
pub fn server_offer(out: &mut Vec<u8>, client_key: &rsa::RsaPublicKey) -> (r: Result<Cipher, StarterError>)
    ensures
        r matches Ok(c) ==> final(out)@.take(old(out)@.len() as int) == old(out)@ && (c@ matches Some(
            (k, n),
        ) && k.len() == 32 && offer_gives(final(out)@.skip(old(out)@.len() as int), n)),
        r matches Err(e) ==> e is RSA && final(out)@ == old(out)@,
{
    let key = generate_key();
    let nonce = generate_nonce();
    let encrypted = match rsa_encrypt(client_key, &key) {
        Ok(e) => e,
        Err(e) => return Err(StarterError::RSA(e)),
    };
    write_offer(out, &encrypted, &nonce);
    let c = Cipher::new(key, nonce);
    proof {
        let added = offer_bytes(encrypted@, nonce@);
        assert(out@.take(old(out)@.len() as int) =~= old(out)@);
        assert(out@.skip(old(out)@.len() as int) =~= added);
        assert(out@.len() == out.len());
        lemma_offer_roundtrip(encrypted@, nonce@, Seq::empty());
        assert(added + Seq::<u8>::empty() =~= added);
    }
    Ok(c)
}

/// Reading the server's offer from `s`: the encrypted key, the nonce and the
/// bytes taken.
pub open spec fn spec_read_offer(s: Seq<u8>) -> Result<(Seq<u8>, Seq<u8>, usize), WireError> {
    match spec_read_u8_vec(s) {
        Err(e) => Err(e),
        Ok((enc, a)) => if a + 12 <= s.len() {
            Ok((enc, s.subrange(a as int, a + 12), (a + 12) as usize))
        } else {
            Err(WireError::Incomplete)
        },
    }
}

/// Reads the server's offer, in the client.
pub fn read_offer(input: &[u8]) -> (r: Result<((Vec<u8>, [u8; 12]), usize), ReadError<StarterError>>)
    ensures
        match (r, spec_read_offer(input@)) {
            (Ok(((enc, nonce), k)), Ok((e, n, m))) => enc@ == e && nonce@ == n && k == m,
            (Err(ReadError::Incomplete), Err(WireError::Incomplete)) => true,
            (Err(ReadError::Failed(StarterError::IO(_))), Err(e)) => e != WireError::Incomplete,
            _ => false,
        },
{
    let (encrypted, a) = match read_u8_vec(input) {
        Ok(p) => p,
        Err(e) => return Err(starter_read_error(e)),
    };
    proof {
        lemma_first_stop_some(input@);
    }
    if input.len() - a < 12 {
        return Err(ReadError::Incomplete);
    }
    let nonce: [u8; 12] = copy_array_12(input, a);
    assert(nonce@ =~= input@.subrange(a as int, a + 12));
    Ok(((encrypted, nonce), a + 12))
}

/// The cipher made of an AES key and a nonce.
pub fn cipher_from_parts(key: &[u8], nonce: [u8; 12]) -> (r: Cipher)
    requires
        key@.len() == 32,
    ensures
        r@ == Some((key@, nonce@)),
{
    let k: [u8; 32] = copy_array_32(&key);
    assert(k@ =~= key@);
    Cipher::new(k, nonce)
}

/// Makes the client's cipher from the server's offer: decrypts the AES key
/// with the client's RSA key. Gives `None` when the decrypted key is not 32
/// bytes long (an AES-256 key cannot be made of it).
///
/// Decryption fails on an `encrypted` shorter than 130 bytes, and gives no
/// 32-byte key from one shorter than 162 bytes; what comes back is handled as
/// `cipher_from_decrypted` says.
pub fn client_cipher(client_key: &rsa::RsaPrivateKey, encrypted: &[u8], nonce: [u8; 12]) -> (r: Result<
    Option<Cipher>,
    StarterError,
>)
    ensures
        r matches Ok(Some(c)) ==> (c@ matches Some((k, n)) && k.len() == 32 && n == nonce@),
        r matches Err(e) ==> e is RSA,
        encrypted@.len() < 130 ==> r matches Err(StarterError::RSA(_)),
        encrypted@.len() < 162 ==> !(r matches Ok(Some(_))),
{
    cipher_from_decrypted(rsa_decrypt(client_key, encrypted), nonce)
}

/// The client's cipher from the outcome of decrypting the server's AES key:
/// the RSA error as a starter error; `None` for a key that is not 32 bytes
/// long; otherwise the cipher of that key and `nonce`.
pub fn cipher_from_decrypted(decrypted: Result<Vec<u8>, rsa::Error>, nonce: [u8; 12]) -> (r: Result<
    Option<Cipher>,
    StarterError,
>)
    ensures
        match (decrypted, r) {
            (Err(e), Err(StarterError::RSA(f))) => e == f,
            (Ok(k), Ok(None)) => k@.len() != 32,
            (Ok(k), Ok(Some(c))) => k@.len() == 32 && c@ == Some((k@, nonce@)),
            _ => false,
        },
{
    let key = match decrypted {
        Ok(k) => k,
        Err(e) => return Err(StarterError::RSA(e)),
    };
    if key.len() != 32 {
        return Ok(None);
    }
    Ok(Some(cipher_from_parts(&key, nonce)))
}

/// The server accepts every hello that a client makes: whatever the protocol,
/// identifier and version, the server reads the head's bytes up to the key
/// parts, then the modulus and the exponent in that order (not swapped), and a
/// public key can be made of them (for keys of up to 4096 bits).
pub proof fn lemma_hello_key_accepted(
    protocol: ProtocolVariant,
    identifier: Seq<char>,
    version: Seq<char>,
    n: Seq<u8>,
    e: Seq<u8>,
    rest: Seq<u8>,
)
    requires
        rsa_parts_ordered(n, e),
        le_value(n) < vstd::arithmetic::power2::pow2(4096),
        (u8_vec_bytes(n) + u8_vec_bytes(e)).len() <= usize::MAX,
    ensures
        hello_bytes(protocol, identifier, version, n, e) + rest == head_bytes(protocol, identifier, version)
            + (u8_vec_bytes(n) + u8_vec_bytes(e) + rest),
        spec_read_key_parts(u8_vec_bytes(n) + u8_vec_bytes(e) + rest) == Ok::<
            (Seq<u8>, Seq<u8>, usize),
            WireError,
        >((n, e, (u8_vec_bytes(n) + u8_vec_bytes(e)).len() as usize)),
        rsa_public_parts_ok(n, e),
        !rsa_public_parts_ok(e, n),
{
    assert(hello_bytes(protocol, identifier, version, n, e) + rest =~= head_bytes(protocol, identifier, version)
        + (u8_vec_bytes(n) + u8_vec_bytes(e) + rest));
    lemma_key_parts_roundtrip(n, e, rest);
}

/// The server reads the client's key parts back after the client's head.
pub proof fn lemma_key_parts_roundtrip(n: Seq<u8>, e: Seq<u8>, rest: Seq<u8>)
    requires
        (u8_vec_bytes(n) + u8_vec_bytes(e)).len() <= usize::MAX,
    ensures
        spec_read_key_parts(u8_vec_bytes(n) + u8_vec_bytes(e) + rest) == Ok::<
            (Seq<u8>, Seq<u8>, usize),
            WireError,
        >((n, e, (u8_vec_bytes(n) + u8_vec_bytes(e)).len() as usize)),
{
    let s = u8_vec_bytes(n) + u8_vec_bytes(e) + rest;
    assert(s =~= u8_vec_bytes(n) + (u8_vec_bytes(e) + rest));
    lemma_read_u8_vec(n, u8_vec_bytes(e) + rest);
    assert(s.skip(u8_vec_bytes(n).len() as int) =~= u8_vec_bytes(e) + rest);
    lemma_read_u8_vec(e, rest);
}

/// The client reads the server's offer back: the encrypted key and the nonce.
pub proof fn lemma_offer_roundtrip(encrypted: Seq<u8>, nonce: Seq<u8>, rest: Seq<u8>)
    requires
        nonce.len() == 12,
        offer_bytes(encrypted, nonce).len() <= usize::MAX,
    ensures
        spec_read_offer(offer_bytes(encrypted, nonce) + rest) == Ok::<
            (Seq<u8>, Seq<u8>, usize),
            WireError,
        >((encrypted, nonce, offer_bytes(encrypted, nonce).len() as usize)),
{
    let s = offer_bytes(encrypted, nonce) + rest;
    let h = u8_vec_bytes(encrypted);
    assert(s =~= h + (nonce + rest));
    lemma_read_u8_vec(encrypted, nonce + rest);
    assert(s.subrange(h.len() as int, h.len() + 12int) =~= nonce);
}

/// Once the bytes at hand decide the client's key parts, bytes that follow do
/// not change them.
pub proof fn lemma_read_key_parts_decided(s: Seq<u8>, t: Seq<u8>)
    ensures
        spec_read_key_parts(s) != Err::<(Seq<u8>, Seq<u8>, usize), WireError>(WireError::Incomplete)
            ==> spec_read_key_parts(s + t) == spec_read_key_parts(s),
{
    lemma_read_u8_vec_decided(s, t);
    lemma_read_u8_vec_len(s);
    if let Ok((_, a)) = spec_read_u8_vec(s) {
        assert((s + t).skip(a as int) =~= s.skip(a as int) + t);
        lemma_read_u8_vec_decided(s.skip(a as int), t);
    }
}

/// Once the bytes at hand decide the server's offer, bytes that follow do not
/// change it.
pub proof fn lemma_read_offer_decided(s: Seq<u8>, t: Seq<u8>)
    ensures
        spec_read_offer(s) != Err::<(Seq<u8>, Seq<u8>, usize), WireError>(WireError::Incomplete)
            ==> spec_read_offer(s + t) == spec_read_offer(s),
{
    lemma_read_u8_vec_decided(s, t);
    if let Ok((_, a)) = spec_read_u8_vec(s) {
        if a + 12 <= s.len() {
            assert((s + t).subrange(a as int, a + 12) =~= s.subrange(a as int, a + 12));
        }
    }
}

} // verus!
