//! Compression and encryption: the message, behind a fresh nonce, is
//! compressed and then encrypted with the current key and nonce; the fresh
//! nonce becomes the cipher's next nonce on both sides.

use vstd::prelude::*;
use crate::cipher::{
    aes_decrypt, aes_encrypt, aes_gcm_open, aes_gcm_seal, aes_p_max, generate_nonce, Cipher,
};
use crate::codec::{deflate, deflate_spec, inflate, inflate_spec};
use crate::common::{
    lemma_packet_roundtrip, packet_bytes, spec_read_packet, unexpected_eof_error, write_packet,
    PacketError,
};
use crate::config::{get_compression, Config};
use crate::protocols::{framed, payload_result_matches, PayloadFailure};
use crate::wire::{copy_array_12, copy_range};

verus! {

/// Sending `message` with cipher state `state`, compression level `level`,
/// fresh nonce `new_nonce` and largest packet `max`: the packet or the
/// failure, and the cipher state afterwards.
pub open spec fn spec_send(
    message: Seq<u8>,
    state: Option<(Seq<u8>, Seq<u8>)>,
    level: u32,
    new_nonce: Seq<u8>,
    max: usize,
) -> (Result<Seq<u8>, PayloadFailure>, Option<(Seq<u8>, Seq<u8>)>) {
    match deflate_spec(new_nonce + message, level) {
        None => (Err(PayloadFailure::IO), state),
        Some(c) => match state {
            None => (Err(PayloadFailure::Broken), None),
            Some((k, n)) => if c.len() > aes_p_max() {
                (Err(PayloadFailure::AES), None)
            } else {
                (framed(aes_gcm_seal(k, n, c), max), Some((k, new_nonce)))
            },
        },
    }
}

/// Receiving the message `payload` of a packet with cipher state `state`: the
/// sent message or the failure, and the cipher state afterwards.
pub open spec fn spec_recv(payload: Seq<u8>, state: Option<(Seq<u8>, Seq<u8>)>) -> (
    Result<Seq<u8>, PayloadFailure>,
    Option<(Seq<u8>, Seq<u8>)>,
) {
    match state {
        None => (Err(PayloadFailure::Broken), None),
        Some((k, n)) => match aes_gcm_open(k, n, payload) {
            None => (Err(PayloadFailure::AES), None),
            Some(c) => match inflate_spec(c) {
                None => (Err(PayloadFailure::IO), None),
                Some(p) => if p.len() < 12 {
                    (Err(PayloadFailure::IO), None)
                } else {
                    (Ok(p.skip(12)), Some((k, p.take(12))))
                },
            },
        },
    }
}

/// A receiver whose cipher state is `state` reads the packet `bytes` and gets
/// `message`, its cipher state becoming `after`.
pub open spec fn received_as(
    bytes: Seq<u8>,
    max: usize,
    state: Option<(Seq<u8>, Seq<u8>)>,
    message: Seq<u8>,
    after: Option<(Seq<u8>, Seq<u8>)>,
) -> bool {
    &&& spec_read_packet(bytes, max) matches Ok((payload, n))
    &&& n == bytes.len()
    &&& spec_recv(payload, state) == (Ok::<Seq<u8>, PayloadFailure>(message), after)
}

/// Sends `message` with the fresh nonce `new_nonce`: compresses the nonce and
/// the message, encrypts them with the cipher's key and nonce, and makes the
/// fresh nonce the cipher's next one. Gives the packet to write.
///
/// A receiver whose cipher was the sender's before the call reads the packet
/// back as `message` and ends with the sender's new cipher.
pub fn send_with_nonce(message: &[u8], cipher: &mut Cipher, config: &Config, new_nonce: [u8; 12]) -> (r:
    Result<Vec<u8>, PacketError>)
    requires
        config.compression.spec_level() <= 10,
    ensures
        !(r matches Err(PacketError::IO(_))),
        ({
            let (s, after) = spec_send(
                message@,
                old(cipher)@,
                config.compression.spec_level(),
                new_nonce@,
                config.max_packet_size,
            );
            payload_result_matches(r, s) && final(cipher)@ == after
        }),
        r matches Ok(b) ==> received_as(
            b@,
            config.max_packet_size,
            old(cipher)@,
            message@,
            final(cipher)@,
        ),
        old(cipher)@ matches Some((k, n)) ==> (deflate_spec(
            new_nonce@ + message@,
            config.compression.spec_level(),
        ) matches Some(c) ==> (c.len() <= aes_p_max() ==> ({
            &&& r is Ok <==> c.len() + 16 <= config.max_packet_size
            &&& r matches Ok(b) ==> b@ == packet_bytes(aes_gcm_seal(k, n, c))
            &&& r matches Err(PacketError::TooLarge(a, b)) ==> a == c.len() + 16 && b
                == config.max_packet_size
            &&& final(cipher)@ == Some((k, new_nonce@))
        }))),
{
    let level = get_compression(config).level();
    let mut plain: Vec<u8> = Vec::new();
    crate::wire::write_more(&mut plain, &new_nonce);
    crate::wire::write_more(&mut plain, message);
    assert(plain@ =~= new_nonce@ + message@);
    let compressed = match deflate(&plain, level) {
        Ok(c) => c,
        Err(e) => return Err(PacketError::IO(e)),
    };
    let (key, nonce) = match cipher.get() {
        Ok(s) => s,
        Err(e) => return Err(e),
    };
    let sealed = match aes_encrypt(&key, &nonce, compressed) {
        Ok(s) => s,
        Err(e) => return Err(PacketError::AES(e)),
    };
    cipher.reset(key, new_nonce);
    let mut out: Vec<u8> = Vec::new();
    match write_packet(&mut out, &sealed, config) {
        Ok(()) => {},
        Err(e) => return Err(e),
    }
    proof {
        assert(out@.len() == out.len());
        assert(out@ =~= packet_bytes(sealed@));
        lemma_packet_roundtrip(sealed@, Seq::empty(), config.max_packet_size);
        assert(out@ + Seq::<u8>::empty() =~= out@);
        assert((new_nonce@ + message@).skip(12) =~= message@);
        assert((new_nonce@ + message@).take(12) =~= new_nonce@);
        assert(spec_recv(sealed@, old(cipher)@) == (Ok::<Seq<u8>, PayloadFailure>(message@), final(cipher)@));
    }
    Ok(out)
}

/// Whether sending `message` from `before` could have given `r` and `after`,
/// with some fresh nonce.
pub open spec fn sent_with_some_nonce(
    message: Seq<u8>,
    before: Option<(Seq<u8>, Seq<u8>)>,
    level: u32,
    max: usize,
    r: Result<Vec<u8>, PacketError>,
    after: Option<(Seq<u8>, Seq<u8>)>,
) -> bool {
    exists|nonce: Seq<u8>|
        #![trigger spec_send(message, before, level, nonce, max)]
        nonce.len() == 12 && payload_result_matches(
            r,
            spec_send(message, before, level, nonce, max).0,
        ) && after == spec_send(message, before, level, nonce, max).1
}

/// Sends `message` with a random fresh nonce (see `send_with_nonce`).
pub fn send(message: &[u8], cipher: &mut Cipher, config: &Config) -> (r: Result<Vec<u8>, PacketError>)
    requires
        config.compression.spec_level() <= 10,
    ensures
        !(r matches Err(PacketError::IO(_))),
        sent_with_some_nonce(
            message@,
            old(cipher)@,
            config.compression.spec_level(),
            config.max_packet_size,
            r,
            final(cipher)@,
        ),
        r matches Ok(b) ==> received_as(
            b@,
            config.max_packet_size,
            old(cipher)@,
            message@,
            final(cipher)@,
        ),
{
    let new_nonce = generate_nonce();
    let r = send_with_nonce(message, cipher, config, new_nonce);
    assert(new_nonce@.len() == 12);
    r
}

/// Receives the message `payload` of a packet: decrypts it with the cipher's
/// key and nonce, decompresses it, and takes the nonce in front as the
/// cipher's next one.
pub fn recv(payload: Vec<u8>, cipher: &mut Cipher) -> (r: Result<Vec<u8>, PacketError>)
    ensures
        ({
            let (s, after) = spec_recv(payload@, old(cipher)@);
            payload_result_matches(r, s) && final(cipher)@ == after
        }),
        r matches Ok(m) ==> (old(cipher)@ matches Some((k, n)) && aes_gcm_open(k, n, payload@) matches Some(
            c,
        ) && inflate_spec(c) matches Some(p) && p.len() >= 12 && m@ == p.skip(12) && final(cipher)@ == Some(
            (k, p.take(12)),
        )),
{
    let (key, nonce) = match cipher.get() {
        Ok(s) => s,
        Err(e) => return Err(e),
    };
    let compressed = match aes_decrypt(&key, &nonce, payload) {
        Ok(c) => c,
        Err(e) => return Err(PacketError::AES(e)),
    };
    let data = match inflate(&compressed) {
        Ok(d) => d,
        Err(e) => return Err(PacketError::IO(e)),
    };
    if data.len() < 12 {
        return Err(PacketError::IO(unexpected_eof_error()));
    }
    let new_nonce: [u8; 12] = copy_array_12(&data, 0);
    let message = copy_range(&data, 12, data.len());
    cipher.reset(key, new_nonce);
    assert(new_nonce@ =~= data@.take(12));
    assert(message@ =~= data@.skip(12));
    Ok(message)
}

/// A broken cipher stays broken: sending and receiving with it fail and leave
/// it broken. A failed receive breaks the cipher.
pub proof fn lemma_broken_stays_broken(
    message: Seq<u8>,
    payload: Seq<u8>,
    state: Option<(Seq<u8>, Seq<u8>)>,
    level: u32, new_nonce: Seq<u8>,
    max: usize,
)
    ensures
        spec_send(message, None, level, new_nonce, max).0 is Err,
        spec_send(message, None, level, new_nonce, max).1 is None,
        spec_recv(payload, None) == (Err::<Seq<u8>, PayloadFailure>(PayloadFailure::Broken), None::<(Seq<u8>, Seq<u8>)>),
        spec_recv(payload, state).0 is Err ==> spec_recv(payload, state).1 is None,
{
}

/// The sealed size decides, and sending moves the cipher to the fresh nonce:
/// with key `k`, nonce `n` and fresh nonce `nn`, when `nn + message`
/// compresses to `c`, the packet is that of `c` sealed under `k` and `n` if
/// that fits in the largest packet, however long the message itself is, and
/// otherwise the refusal reports the sealed size; either way the sender then
/// holds `k` and `nn`.
pub proof fn lemma_sealed_size_decides(
    message: Seq<u8>,
    k: Seq<u8>,
    n: Seq<u8>,
    level: u32,
    nn: Seq<u8>,
    max: usize,
    c: Seq<u8>,
)
    requires
        deflate_spec(nn + message, level) == Some(c),
        c.len() <= aes_p_max(),
    ensures
        spec_send(message, Some((k, n)), level, nn, max).1 == Some((k, nn)),
        aes_gcm_seal(k, n, c).len() <= max ==> spec_send(message, Some((k, n)), level, nn, max).0 == Ok::<
            Seq<u8>,
            PayloadFailure,
        >(packet_bytes(aes_gcm_seal(k, n, c))),
        aes_gcm_seal(k, n, c).len() > max ==> spec_send(message, Some((k, n)), level, nn, max).0 == Err::<
            Seq<u8>,
            PayloadFailure,
        >(PayloadFailure::TooLarge(aes_gcm_seal(k, n, c).len() as usize, max)),
{
}

/// Receiving moves the receiver's cipher to the nonce that the packet
/// carries: a payload that opens under `k` and `n` and decompresses to `p` (at
/// least 12 bytes) gives the message after the first 12 bytes, and the
/// receiver then holds `k` and those 12 bytes.
pub proof fn lemma_recv_moves_to_carried_nonce(
    payload: Seq<u8>,
    k: Seq<u8>,
    n: Seq<u8>,
    c: Seq<u8>,
    p: Seq<u8>,
)
    requires
        aes_gcm_open(k, n, payload) == Some(c),
        inflate_spec(c) == Some(p),
        p.len() >= 12,
    ensures
        spec_recv(payload, Some((k, n))) == (Ok::<Seq<u8>, PayloadFailure>(p.skip(12)), Some((k, p.take(12)))),
{
}

} // verus!
