//! Encrypted packets of protocol version 0. The client encrypts with the
//! current nonce and keeps it; the server encrypts with the current nonce and
//! sends the next nonce in the clear right after the packet.

use vstd::prelude::*;
use crate::cipher::{aes_decrypt, aes_encrypt, aes_gcm_open, aes_gcm_seal, aes_p_max, generate_nonce};
use crate::common::{lemma_packet_roundtrip, packet_bytes, spec_read_packet, write_packet, PacketError};
use crate::config::Config;
use crate::protocols::{framed, payload_result_matches, PayloadFailure};
use crate::starter::AesCipher;
use crate::wire::write_more;

verus! {

/// Sending `message` encrypted under `key` and `nonce`: the packet or the
/// failure.
pub open spec fn spec_send(message: Seq<u8>, key: Seq<u8>, nonce: Seq<u8>, max: usize) -> Result<Seq<u8>, PayloadFailure> {
    if message.len() > aes_p_max() {
        Err(PayloadFailure::AES)
    } else {
        framed(aes_gcm_seal(key, nonce, message), max)
    }
}

/// Receiving the message `payload` of a packet encrypted under `key` and
/// `nonce`.
pub open spec fn spec_recv(payload: Seq<u8>, key: Seq<u8>, nonce: Seq<u8>) -> Result<Seq<u8>, PayloadFailure> {
    match aes_gcm_open(key, nonce, payload) {
        Some(p) => Ok(p),
        None => Err(PayloadFailure::AES),
    }
}

/// The packet at the front of `bytes` is read back, under `key` and `nonce`, as
/// `message`; `after` are the bytes that follow it.
pub open spec fn packet_holds(
    bytes: Seq<u8>,
    max: usize,
    key: Seq<u8>,
    nonce: Seq<u8>,
    message: Seq<u8>,
    after: Seq<u8>,
) -> bool {
    &&& spec_read_packet(bytes, max) matches Ok((payload, n))
    &&& bytes.skip(n as int) == after
    &&& spec_recv(payload, key, nonce) == Ok::<Seq<u8>, PayloadFailure>(message)
}

/// Encrypts `message` and gives the packet, or the failure.
fn seal_packet(message: Vec<u8>, key: &[u8; 32], nonce: &[u8; 12], config: &Config) -> (r: Result<
    Vec<u8>,
    PacketError,
>)
    ensures
        payload_result_matches(r, spec_send(message@, key@, nonce@, config.max_packet_size)),
        r matches Ok(b) ==> packet_holds(
            b@,
            config.max_packet_size,
            key@,
            nonce@,
            message@,
            Seq::empty(),
        ),
        message@.len() <= aes_p_max() && message@.len() + 16 <= config.max_packet_size ==> r is Ok,
{
    let ghost m = message@;
    let sealed = match aes_encrypt(key, nonce, message) {
        Ok(s) => s,
        Err(e) => return Err(PacketError::AES(e)),
    };
    let mut out: Vec<u8> = Vec::new();
    match write_packet(&mut out, &sealed, config) {
        Ok(()) => {},
        Err(e) => return Err(e),
    }
    proof {
        assert(out@.len() == out.len());
        assert(out@ =~= packet_bytes(sealed@));
        lemma_packet_roundtrip(sealed@, Seq::empty(), config.max_packet_size);
        assert(out@ + Seq::<u8>::empty() =~= out@);
        assert(out@.skip(out@.len() as int) =~= Seq::<u8>::empty());
    }
    Ok(out)
}

/// Sends `message` encrypted with the cipher's key and nonce.
pub fn send_with_encrypt(message: &[u8], cipher: &AesCipher, config: &Config) -> (r: Result<
    Vec<u8>,
    PacketError,
>)
    ensures
        payload_result_matches(
            r,
            spec_send(message@, cipher.0@, cipher.1@, config.max_packet_size),
        ),
        r matches Ok(b) ==> packet_holds(
            b@,
            config.max_packet_size,
            cipher.0@,
            cipher.1@,
            message@,
            Seq::empty(),
        ),
        message@.len() <= aes_p_max() && message@.len() + 16 <= config.max_packet_size ==> r is Ok,
{
    let mut plain: Vec<u8> = Vec::new();
    write_more(&mut plain, message);
    assert(plain@ =~= message@);
    seal_packet(plain, &cipher.0, &cipher.1, config)
}

/// The receiving counterpart of `send_with_encrypt`: decrypts the message
/// `payload` of a packet with the cipher's key and nonce.
pub fn recv_with_encrypt(payload: &[u8], cipher: &AesCipher) -> (r: Result<Vec<u8>, PacketError>)
    ensures
        payload_result_matches(r, spec_recv(payload@, cipher.0@, cipher.1@)),
{
    let mut data: Vec<u8> = Vec::new();
    write_more(&mut data, payload);
    assert(data@ =~= payload@);
    match aes_decrypt(&cipher.0, &cipher.1, data) {
        Ok(m) => Ok(m),
        Err(e) => Err(PacketError::AES(e)),
    }
}

/// Sends `message` from the client: encrypted with the cipher's key and
/// nonce, which the client keeps. Gives the packet and the cipher.
pub fn client_send_with_dynamic_encrypt(message: &[u8], cipher: AesCipher, config: &Config) -> (r: Result<
    (Vec<u8>, AesCipher),
    PacketError,
>)
    ensures
        match r {
            Ok((b, c)) => c == cipher && payload_result_matches(
                Ok(b),
                spec_send(message@, cipher.0@, cipher.1@, config.max_packet_size),
            ) && packet_holds(
                b@,
                config.max_packet_size,
                cipher.0@,
                cipher.1@,
                message@,
                Seq::empty(),
            ),
            Err(e) => payload_result_matches(
                Err(e),
                spec_send(message@, cipher.0@, cipher.1@, config.max_packet_size),
            ),
        },
        message@.len() <= aes_p_max() && message@.len() + 16 <= config.max_packet_size ==> r is Ok,
{
    match send_with_encrypt(message, &cipher, config) {
        Ok(b) => Ok((b, cipher)),
        Err(e) => Err(e),
    }
}

/// Receives the message `payload` of a packet from the client, in the server.
pub fn server_recv_with_dynamic_encrypt(payload: Vec<u8>, cipher: AesCipher) -> (r: Result<
    (Vec<u8>, AesCipher),
    PacketError,
>)
    ensures
        match r {
            Ok((m, c)) => c == cipher && payload_result_matches(
                Ok(m),
                spec_recv(payload@, cipher.0@, cipher.1@),
            ),
            Err(e) => payload_result_matches(Err(e), spec_recv(payload@, cipher.0@, cipher.1@)),
        },
{
    match aes_decrypt(&cipher.0, &cipher.1, payload) {
        Ok(m) => Ok((m, cipher)),
        Err(e) => Err(PacketError::AES(e)),
    }
}

/// Sends `message` from the server: encrypted with the cipher's key and
/// nonce, followed by `new_nonce` in the clear, which becomes the cipher's
/// nonce. Gives the bytes to write and the new cipher.
///
/// The client reads the packet back as `message`, and `new_nonce` right after
/// it.
pub fn server_send_with_dynamic_encrypt_with_nonce(
    message: &[u8],
    cipher: AesCipher,
    config: &Config,
    new_nonce: [u8; 12],
) -> (r: Result<(Vec<u8>, AesCipher), PacketError>)
    ensures
        match r {
            Ok((b, c)) => c == (cipher.0, new_nonce) && packet_holds(
                b@,
                config.max_packet_size,
                cipher.0@,
                cipher.1@,
                message@,
                new_nonce@,
            ),
            Err(e) => payload_result_matches(
                Err(e),
                spec_send(message@, cipher.0@, cipher.1@, config.max_packet_size),
            ),
        },
        spec_send(message@, cipher.0@, cipher.1@, config.max_packet_size) matches Ok(p) ==> (r matches Ok(
            (b, _),
        ) && b@ == p + new_nonce@),
        message@.len() <= aes_p_max() && message@.len() + 16 <= config.max_packet_size ==> r is Ok,
{
    let mut plain: Vec<u8> = Vec::new();
    write_more(&mut plain, message);
    assert(plain@ =~= message@);
    let mut out = match seal_packet(plain, &cipher.0, &cipher.1, config) {
        Ok(b) => b,
        Err(e) => return Err(e),
    };
    let ghost packet = out@;
    write_more(&mut out, &new_nonce);
    proof {
        assert(out@.len() == out.len());
        let payload = aes_gcm_seal(cipher.0@, cipher.1@, message@);
        assert(packet == packet_bytes(payload));
        lemma_packet_roundtrip(payload, Seq::empty(), config.max_packet_size);
        assert(packet + Seq::<u8>::empty() =~= packet);
        assert(spec_recv(payload, cipher.0@, cipher.1@) == Ok::<Seq<u8>, PayloadFailure>(message@));
        lemma_packet_roundtrip(payload, new_nonce@, config.max_packet_size);
        assert(out@ =~= packet_bytes(payload) + new_nonce@);
        assert(out@.skip(packet_bytes(payload).len() as int) =~= new_nonce@);
    }
    Ok((out, (cipher.0, new_nonce)))
}

/// Sends `message` from the server with a random next nonce (see
/// `server_send_with_dynamic_encrypt_with_nonce`).
pub fn server_send_with_dynamic_encrypt(message: &[u8], cipher: AesCipher, config: &Config) -> (r: Result<
    (Vec<u8>, AesCipher),
    PacketError,
>)
    ensures
        match r {
            Ok((b, c)) => c.0 == cipher.0 && packet_holds(
                b@,
                config.max_packet_size,
                cipher.0@,
                cipher.1@,
                message@,
                c.1@,
            ),
            Err(e) => payload_result_matches(
                Err(e),
                spec_send(message@, cipher.0@, cipher.1@, config.max_packet_size),
            ),
        },
        spec_send(message@, cipher.0@, cipher.1@, config.max_packet_size) matches Ok(p) ==> (r matches Ok(
            (b, c),
        ) && b@ == p + c.1@),
        message@.len() <= aes_p_max() && message@.len() + 16 <= config.max_packet_size ==> r is Ok,
{
    let new_nonce = generate_nonce();
    server_send_with_dynamic_encrypt_with_nonce(message, cipher, config, new_nonce)
}

/// Receives the message `payload` of a packet from the server, in the client.
/// The next nonce follows the packet on the stream; the caller reads it after
/// a successful decryption and makes it the cipher's nonce.
pub fn client_recv_with_dynamic_encrypt(payload: Vec<u8>, cipher: &AesCipher) -> (r: Result<
    Vec<u8>,
    PacketError,
>)
    ensures
        payload_result_matches(r, spec_recv(payload@, cipher.0@, cipher.1@)),
{
    match aes_decrypt(&cipher.0, &cipher.1, payload) {
        Ok(m) => Ok(m),
        Err(e) => Err(PacketError::AES(e)),
    }
}

} // verus!
