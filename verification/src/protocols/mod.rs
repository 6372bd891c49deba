//! The payloads of the protocol variants: what a message becomes on the way
//! out, and what a received packet's message becomes on the way in.
//!
//! Sending returns the whole packet to write; receiving takes the message of a
//! packet read by `common::read_packet`.

pub mod compress;
pub mod compress_encrypt;
pub mod encrypt;

use vstd::prelude::*;
use crate::common::PacketError;

verus! {

/// Why a message cannot be sent or received.
pub enum PayloadFailure {
    /// Compressing or decompressing failed, or the data ends too early.
    IO,
    /// The cipher was lost by an earlier failure.
    Broken,
    /// Encrypting or decrypting failed.
    AES,
    /// The packet (first) is larger than allowed (second).
    TooLarge(usize, usize),
}

/// A result of sending or receiving, compared with its specification.
pub open spec fn payload_result_matches(r: Result<Vec<u8>, PacketError>, s: Result<Seq<u8>, PayloadFailure>) -> bool {
    match (r, s) {
        (Ok(v), Ok(w)) => v@ == w,
        (Err(PacketError::IO(_)), Err(PayloadFailure::IO)) => true,
        (Err(PacketError::Broken()), Err(PayloadFailure::Broken)) => true,
        (Err(PacketError::AES(_)), Err(PayloadFailure::AES)) => true,
        (Err(PacketError::TooLarge(a, b)), Err(PayloadFailure::TooLarge(c, d))) => a == c && b == d,
        _ => false,
    }
}

/// A packet of `payload`, or the failure when it is too large.
pub open spec fn framed(payload: Seq<u8>, max: usize) -> Result<Seq<u8>, PayloadFailure> {
    if payload.len() <= max {
        Ok(crate::common::packet_bytes(payload))
    } else {
        Err(PayloadFailure::TooLarge(payload.len() as usize, max))
    }
}

} // verus!
