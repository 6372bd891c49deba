//! The wire logic of a small protocol for exchanging byte messages over a
//! stream: the handshake, the packet framing, and the payloads of its four
//! variants (raw, compressed, encrypted, compressed and encrypted), with
//! contracts proved by Verus.
//!
//! - `wire`: the primitive encodings (varints, packed flags, strings).
//! - `common`: protocol variants, errors, the handshake and the packets.
//! - `config`: the packet size limit and the compression level.
//! - `codec`, `cipher`: DEFLATE (by `flate2`) and AES-256-GCM (by `aes-gcm`),
//!   and the cipher state of a connection.
//! - `handshake`: the RSA key exchange of the encrypting variants (by `rsa`).
//! - `protocols`: what a message becomes on the way out and back in.
//! - `starter`, `packet`: the handshake and the encrypted packets of protocol
//!   version 0.
//!
//! Every function works on bytes in memory: a writer appends what is to be
//! sent, and a reader takes the bytes received so far and says whether they
//! decide a value.

pub mod common;
pub mod wire;
pub mod config;
pub mod codec;
pub mod cipher;
pub mod protocols;
pub mod handshake;
pub mod starter;
pub mod packet;

pub use crate::config::Compression;
