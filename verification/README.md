# tcp_handler

The wire logic of a small protocol for sending byte messages over a stream,
verified with Verus.

A connection starts with a handshake: the client sends magic bytes, the
protocol version, two flags (compression, encryption), an identifier and a
version string; the server answers with two flags. In the encrypting
variants the client also sends its RSA public key and the server answers
with an AES-256-GCM key, encrypted for the client, and the first nonce.
After that each message travels as a packet: a varint length and the
payload, which may be deflated and may be sealed with AES-GCM, with the next
nonce sealed inside the packet.

## Layout

- `src/`: the verified library. Everything works on bytes in memory: writers
  append to a `Vec<u8>`, readers take the bytes received so far and say
  whether they decide a value, need more, or are malformed.
  - `wire.rs`: varints, packed flags, big-endian `u16`, byte and UTF-8 strings.
  - `common.rs`: protocol variants, error types, the handshake head and
    answer, packet framing.
  - `config.rs`: the packet size limit and the compression level.
  - `codec.rs`, `cipher.rs`: DEFLATE through `flate2`, AES-256-GCM through
    `aes-gcm`, and the cipher state that a connection carries.
  - `handshake.rs`: the RSA key exchange through `rsa`.
  - `protocols/`: what a message becomes on the way out and back in, for the
    compressed, encrypted, and compressed-and-encrypted variants.
  - `starter.rs`, `packet.rs`: the handshake and encrypted packets of the
    older protocol version 0.
- `tests/`: tests of the library on concrete values.
- `app/`: the asynchronous stream handlers on top of `tokio`, which read and
  write sockets and call the library for every decision.

Calls into outside crates go through small trusted wrappers whose contracts
state what the crates' documentation promises; everything else is proved.
