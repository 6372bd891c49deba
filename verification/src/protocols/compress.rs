//! Compression: the message is compressed at the configured level.

use vstd::prelude::*;
use crate::codec::{deflate, deflate_spec, inflate, inflate_spec};
use crate::common::{
    lemma_packet_roundtrip, packet_bytes, spec_read_packet, write_packet, PacketError,
};
use crate::config::{get_compression, Config};
use crate::protocols::{framed, payload_result_matches, PayloadFailure};

verus! {

/// Sending `message` at compression level `level` with largest packet `max`.
pub open spec fn spec_send(message: Seq<u8>, level: u32, max: usize) -> Result<Seq<u8>, PayloadFailure> {
    match deflate_spec(message, level) {
        None => Err(PayloadFailure::IO),
        Some(c) => framed(c, max),
    }
}

/// Receiving the message `payload` of a packet.
pub open spec fn spec_recv(payload: Seq<u8>) -> Result<Seq<u8>, PayloadFailure> {
    match inflate_spec(payload) {
        None => Err(PayloadFailure::IO),
        Some(p) => Ok(p),
    }
}

/// Sends `message`: compresses it and gives the packet to write. A receiver
/// reads the packet back as `message`.
pub fn send(message: &[u8], config: &Config) -> (r: Result<Vec<u8>, PacketError>)
    requires
        config.compression.spec_level() <= 10,
    ensures
        !(r matches Err(PacketError::IO(_))),
        payload_result_matches(
            r,
            spec_send(message@, config.compression.spec_level(), config.max_packet_size),
        ),
        r matches Ok(b) ==> (spec_read_packet(b@, config.max_packet_size) matches Ok((payload, n))
            && n == b@.len() && spec_recv(payload) == Ok::<Seq<u8>, PayloadFailure>(message@)),
        deflate_spec(message@, config.compression.spec_level()) matches Some(c) && ({
            &&& r is Ok <==> c.len() <= config.max_packet_size
            &&& r matches Ok(b) ==> b@ == packet_bytes(c)
            &&& r matches Err(PacketError::TooLarge(a, b)) ==> a == c.len() && b == config.max_packet_size
        }),
{
    let level = get_compression(config).level();
    let compressed = match deflate(message, level) {
        Ok(c) => c,
        Err(e) => return Err(PacketError::IO(e)),
    };
    let mut out: Vec<u8> = Vec::new();
    match write_packet(&mut out, &compressed, config) {
        Ok(()) => {},
        Err(e) => return Err(e),
    }
    proof {
        assert(out@.len() == out.len());
        assert(out@ =~= packet_bytes(compressed@));
        lemma_packet_roundtrip(compressed@, Seq::empty(), config.max_packet_size);
        assert(out@ + Seq::<u8>::empty() =~= out@);
    }
    Ok(out)
}

/// Receives the message `payload` of a packet: decompresses it.
pub fn recv(payload: &[u8]) -> (r: Result<Vec<u8>, PacketError>)
    ensures
        payload_result_matches(r, spec_recv(payload@)),
{
    match inflate(payload) {
        Ok(p) => Ok(p),
        Err(e) => Err(PacketError::IO(e)),
    }
}

/// The compressed size decides: a message whose compressed stream `c` fits in
/// the largest packet is sent as the packet of `c`, however long the message
/// itself is; otherwise the refusal reports the compressed size.
pub proof fn lemma_compressed_size_decides(message: Seq<u8>, level: u32, max: usize, c: Seq<u8>)
    requires
        deflate_spec(message, level) == Some(c),
    ensures
        c.len() <= max ==> spec_send(message, level, max) == Ok::<Seq<u8>, PayloadFailure>(packet_bytes(c)),
        c.len() > max ==> spec_send(message, level, max) == Err::<Seq<u8>, PayloadFailure>(
            PayloadFailure::TooLarge(c.len() as usize, max),
        ),
{
}

} // verus!
