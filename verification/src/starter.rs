//! The handshake of protocol version 0: six magic bytes, then one packet with
//! the compression and encryption flags, the identifier and the version (and,
//! when encrypting, the client's RSA key parts); the server answers with three
//! flags, and, when encrypting, a packet with the encrypted AES key and the
//! first nonce.

use vstd::prelude::*;
use vstd::utf8::*;
use crate::cipher::{generate_key, generate_nonce};
use crate::common::{
    lemma_packet_roundtrip, lemma_read_packet_decided, malformed_error, packet_bytes, read_packet, spec_read_packet,
    unexpected_eof_error, write_packet, PacketError, PacketFailure, ReadError,
};
use crate::config::Config;
use crate::handshake::{
    compose_rsa_public, generate_rsa_key, le_value, rsa_parts_ordered, rsa_public_parts_ok, lemma_key_parts_roundtrip, lemma_offer_roundtrip,
    offer_bytes, rsa_decrypt, rsa_encrypt, rsa_key_parts, spec_read_key_parts, spec_read_offer,
};
use crate::wire::{
    bools2_byte, bools3_byte, string_is, copy_array_12, copy_array_32, copy_range, lemma_first_stop_some, lemma_read_bools2,
    lemma_read_bools3, lemma_read_bools3_decided, lemma_read_string, read_bools_2, read_bools_3, read_string, read_u8_vec,
    spec_read_bools2, spec_read_bools3, spec_read_string, spec_read_u8_vec, string_bytes,
    u8_vec_bytes, write_bools_2, write_bools_3, write_more, write_string, write_u8_vec, WireError,
};

verus! {

#[verifier::external_type_specification]
#[verifier::external_body]
pub struct ExInvalidLength(aes_gcm::aes::cipher::InvalidLength);

/// Error when starting a connection with the version-0 handshake.
#[derive(Debug)]
pub enum StarterError {
    /// The magic bytes do not match.
    InvalidStream(),
    /// The client's compression and encryption flags (received by the server)
    /// are not the server's.
    ClientInvalidState(bool, bool),
    /// The client's identifier (received by the server) is not the server's.
    ClientInvalidIdentifier(String),
    /// The client's version (received by the server) is not accepted.
    ClientInvalidVersion(String),
    /// The server refused the flags.
    ServerInvalidState(),
    /// The server refused the identifier.
    ServerInvalidIdentifier(),
    /// The server refused the version.
    ServerInvalidVersion(),
    /// Reading or writing bytes failed, or the bytes were malformed.
    IO(std::io::Error),
    /// Reading or writing a packet failed.
    Packet(PacketError),
    /// Generating, encrypting or decrypting with an RSA key failed.
    RSA(rsa::Error),
    /// The decrypted AES key has the wrong length.
    AES(aes_gcm::aes::cipher::InvalidLength),
}

/// The cipher of the version-0 protocols: an AES-256 key and a nonce.
pub type AesCipher = ([u8; 32], [u8; 12]);

/// Checks that `key` can be an AES-256 key.
///
/// Calls `KeyInit::new_from_slice` of `aes_gcm::Aes256Gcm`; trusted to fail
/// exactly on keys that are not 32 bytes long.
#[verifier::external_body]
fn check_aes_key(key: &[u8]) -> (r: Result<(), aes_gcm::aes::cipher::InvalidLength>)
    ensures
        r is Ok <==> key@.len() == 32,
{
    match <aes_gcm::Aes256Gcm as aes_gcm::KeyInit>::new_from_slice(key) {
        Ok(_) => Ok(()),
        Err(e) => Err(e),
    }
}

/// The error for a value inside a received packet that cannot be read: the
/// packet is complete, so a value that runs past its end is an I/O error too.
fn inner_error(e: WireError) -> (r: StarterError)
    ensures
        r is IO,
{
    if e == WireError::Incomplete {
        StarterError::IO(unexpected_eof_error())
    } else {
        StarterError::IO(malformed_error(e))
    }
}

/// The six bytes that open a connection.
pub open spec fn magic_bytes() -> Seq<u8> {
    seq![208u8, 8u8, 166u8, 104u8, 0u8, 0u8]
}

/// The head fields: the two flags, the identifier and the version.
pub open spec fn head_fields(compression: bool, encryption: bool, identifier: Seq<char>, version: Seq<char>) -> Seq<u8> {
    seq![bools2_byte([compression, encryption])] + string_bytes(identifier) + string_bytes(version)
}

/// Appends the magic bytes and a packet of the head fields followed by
/// `extra`. When that packet is too large, only the magic bytes are appended.
pub fn write_head(
    out: &mut Vec<u8>,
    identifier: &str,
    version: &str,
    compression: bool,
    encryption: bool,
    extra: &[u8],
    config: &Config,
) -> (r: Result<(), StarterError>)
    ensures
        ({
            let m = head_fields(compression, encryption, identifier@, version@) + extra@;
            &&& m.len() <= config.max_packet_size ==> r is Ok && final(out)@ == old(out)@
                + magic_bytes() + packet_bytes(m)
            &&& m.len() > config.max_packet_size ==> final(out)@ == old(out)@ + magic_bytes() && (r matches Err(
                StarterError::Packet(PacketError::TooLarge(a, b)),
            ) && a == m.len() && b == config.max_packet_size)
        }),
{
    out.push(208);
    out.push(8);
    out.push(166);
    out.push(104);
    out.push(0);
    out.push(0);
    let ghost with_magic = out@;
    assert(with_magic =~= old(out)@ + magic_bytes());
    let mut fields: Vec<u8> = Vec::new();
    write_bools_2(&mut fields, [compression, encryption]);
    write_string(&mut fields, identifier);
    write_string(&mut fields, version);
    write_more(&mut fields, extra);
    assert(fields@ =~= head_fields(compression, encryption, identifier@, version@) + extra@);
    match write_packet(out, &fields, config) {
        Ok(()) => Ok(()),
        Err(e) => Err(StarterError::Packet(e)),
    }
}

/// Starts a client that does not encrypt: appends its head.
pub fn client_init(out: &mut Vec<u8>, identifier: &str, version: &str, compression: bool, config: &Config) -> (r:
    Result<(), StarterError>)
    ensures
        ({
            let m = head_fields(compression, false, identifier@, version@);
            &&& m.len() <= config.max_packet_size ==> r is Ok && final(out)@ == old(out)@
                + magic_bytes() + packet_bytes(m)
            &&& m.len() > config.max_packet_size ==> r matches Err(StarterError::Packet(_))
        }),
{
    let r = write_head(out, identifier, version, compression, false, &[], config);
    assert(head_fields(compression, false, identifier@, version@) + Seq::<u8>::empty() =~= head_fields(
        compression,
        false,
        identifier@,
        version@,
    ));
    r
}

/// Starts a client that encrypts: makes an RSA key and appends its head with
/// the key's parts. Nothing is appended when the key cannot be made.
pub fn client_init_with_encrypt(
    out: &mut Vec<u8>,
    identifier: &str,
    version: &str,
    compression: bool,
    config: &Config,
) -> (r: Result<rsa::RsaPrivateKey, StarterError>)
    ensures
        r is Ok ==> exists|n: Seq<u8>, e: Seq<u8>|
            final(out)@ == old(out)@ + magic_bytes() + packet_bytes(
                head_fields(compression, true, identifier@, version@) + u8_vec_bytes(n) + u8_vec_bytes(e),
            ) && rsa_parts_ordered(n, e),
        r matches Err(e) ==> (e is RSA && final(out)@ == old(out)@) || (e matches StarterError::Packet(
            PacketError::TooLarge(a, b),
        ) && b == config.max_packet_size && a > b && final(out)@ == old(out)@ + magic_bytes() && exists|
            n: Seq<u8>,
            e: Seq<u8>,
        |
            a == (head_fields(compression, true, identifier@, version@) + u8_vec_bytes(n) + u8_vec_bytes(
                e,
            )).len() && rsa_parts_ordered(n, e)),
{
    let key = match generate_rsa_key() {
        Ok(k) => k,
        Err(e) => return Err(StarterError::RSA(e)),
    };
    let (n, e) = rsa_key_parts(&key);
    let mut parts: Vec<u8> = Vec::new();
    write_u8_vec(&mut parts, &n);
    write_u8_vec(&mut parts, &e);
    assert(head_fields(compression, true, identifier@, version@) + parts@ =~= head_fields(
        compression,
        true,
        identifier@,
        version@,
    ) + u8_vec_bytes(n@) + u8_vec_bytes(e@));
    match write_head(out, identifier, version, compression, true, &parts, config) {
        Ok(()) => {},
        Err(err) => {
            assert(parts@ == u8_vec_bytes(n@) + u8_vec_bytes(e@));
            return Err(err);
        },
    }
    Ok(key)
}

/// Why the server does not accept a head, before the version is judged.
pub enum HeadFailure {
    /// More bytes are needed.
    Incomplete,
    /// The magic bytes do not match.
    InvalidStream,
    /// The packet cannot be read.
    Packet(PacketFailure),
    /// A field inside the packet cannot be read.
    IO,
    /// The client's flags are not the server's.
    ClientInvalidState(bool, bool),
    /// The client's identifier is not the server's.
    ClientInvalidIdentifier(Seq<char>),
}

/// What the server reads from the client's head `s`, given its identifier and
/// flags: the client's version, the rest of the head packet, and the bytes
/// taken; or why it stops.
pub open spec fn spec_read_head(
    s: Seq<u8>,
    identifier: Seq<char>,
    compression: bool,
    encryption: bool,
    max: usize,
) -> Result<(Seq<char>, Seq<u8>, usize), HeadFailure> {
    if s.len() < 6 {
        Err(HeadFailure::Incomplete)
    } else if s.take(6) != magic_bytes() {
        Err(HeadFailure::InvalidStream)
    } else {
        match spec_read_packet(s.skip(6), max) {
            Err(PacketFailure::Incomplete) => Err(HeadFailure::Incomplete),
            Err(f) => Err(HeadFailure::Packet(f)),
            Ok((m, n)) => match spec_read_bools2(m) {
                Err(_) => Err(HeadFailure::IO),
                Ok((b, _)) => if b[0] != compression || b[1] != encryption {
                    Err(HeadFailure::ClientInvalidState(b[0], b[1]))
                } else {
                    match spec_read_string(m.skip(1)) {
                        Err(_) => Err(HeadFailure::IO),
                        Ok((id, k)) => if id != identifier {
                            Err(HeadFailure::ClientInvalidIdentifier(id))
                        } else {
                            match spec_read_string(m.skip(1 + k)) {
                                Err(_) => Err(HeadFailure::IO),
                                Ok((ver, j)) => Ok((ver, m.skip(1 + k + j), (6 + n) as usize)),
                            }
                        }
                    }
                },
            },
        }
    }
}

/// A head read by `read_head`, compared with `spec_read_head`.
pub open spec fn head_read_matches(
    r: Result<((String, Vec<u8>), usize), ReadError<StarterError>>,
    s: Result<(Seq<char>, Seq<u8>, usize), HeadFailure>,
) -> bool {
    match (r, s) {
        (Ok(((v, rest), n)), Ok((w, t, m))) => v@ == w && rest@ == t && n == m,
        (Err(ReadError::Incomplete), Err(HeadFailure::Incomplete)) => true,
        (Err(ReadError::Failed(StarterError::InvalidStream())), Err(HeadFailure::InvalidStream)) => true,
        (Err(ReadError::Failed(StarterError::Packet(PacketError::IO(_)))), Err(HeadFailure::Packet(PacketFailure::Malformed))) => true,
        (
            Err(ReadError::Failed(StarterError::Packet(PacketError::TooLarge(a, b)))),
            Err(HeadFailure::Packet(PacketFailure::TooLarge(c, d))),
        ) => a == c && b == d,
        (Err(ReadError::Failed(StarterError::IO(_))), Err(HeadFailure::IO)) => true,
        (
            Err(ReadError::Failed(StarterError::ClientInvalidState(a, b))),
            Err(HeadFailure::ClientInvalidState(c, d)),
        ) => a == c && b == d,
        (
            Err(ReadError::Failed(StarterError::ClientInvalidIdentifier(a))),
            Err(HeadFailure::ClientInvalidIdentifier(b)),
        ) => a@ == b,
        _ => false,
    }
}

/// Reads the client's head, in the server, checking every field but the
/// version: gives the client's version, the rest of the head packet (the RSA
/// key parts when encrypting) and the bytes taken.
pub fn read_head(input: &[u8], identifier: &str, compression: bool, encryption: bool, config: &Config) -> (r:
    Result<((String, Vec<u8>), usize), ReadError<StarterError>>)
    ensures
        head_read_matches(
            r,
            spec_read_head(input@, identifier@, compression, encryption, config.max_packet_size),
        ),
{
    let ghost s = input@;
    if input.len() < 6 {
        return Err(ReadError::Incomplete);
    }
    if !(input[0] == 208 && input[1] == 8 && input[2] == 166 && input[3] == 104 && input[4] == 0
        && input[5] == 0) {
        proof {
            if s.take(6) == magic_bytes() {
                assert(s.take(6)[0] == s[0] && s.take(6)[1] == s[1] && s.take(6)[2] == s[2]);
                assert(s.take(6)[3] == s[3] && s.take(6)[4] == s[4] && s.take(6)[5] == s[5]);
            }
        }
        return Err(ReadError::Failed(StarterError::InvalidStream()));
    }
    assert(s.take(6) =~= magic_bytes());
    let body = copy_range(input, 6, input.len());
    assert(body@ =~= s.skip(6));
    let (m, n) = match read_packet(&body, config) {
        Ok(p) => p,
        Err(ReadError::Incomplete) => return Err(ReadError::Incomplete),
        Err(ReadError::Failed(e)) => return Err(ReadError::Failed(StarterError::Packet(e))),
    };
    let (flags, _) = match read_bools_2(&m) {
        Ok(p) => p,
        Err(e) => return Err(ReadError::Failed(inner_error(e))),
    };
    if flags[0] != compression || flags[1] != encryption {
        return Err(ReadError::Failed(StarterError::ClientInvalidState(flags[0], flags[1])));
    }
    let after_flags = copy_range(&m, 1, m.len());
    assert(after_flags@ =~= m@.skip(1));
    let (identifier_read, k) = match read_string(&after_flags) {
        Ok(p) => p,
        Err(e) => return Err(ReadError::Failed(inner_error(e))),
    };
    if !string_is(&identifier_read, identifier) {
        return Err(ReadError::Failed(StarterError::ClientInvalidIdentifier(identifier_read)));
    }
    proof {
        lemma_first_stop_some(after_flags@);
    }
    let after_identifier = copy_range(&m, 1 + k, m.len());
    assert(after_identifier@ =~= m@.skip(1 + k));
    let (version_read, j) = match read_string(&after_identifier) {
        Ok(p) => p,
        Err(e) => return Err(ReadError::Failed(inner_error(e))),
    };
    proof {
        lemma_first_stop_some(after_identifier@);
        lemma_first_stop_some(body@);
    }
    let rest = copy_range(&m, 1 + k + j, m.len());
    assert(rest@ =~= m@.skip(1 + k + j));
    Ok(((version_read, rest), 6 + n))
}

/// Applies the application's judgement of the client's version, `accepted`.
pub fn check_version(version: String, accepted: bool) -> (r: Result<String, StarterError>)
    ensures
        accepted ==> r == Ok::<String, StarterError>(version),
        !accepted ==> (r matches Err(StarterError::ClientInvalidVersion(v)) && v == version),
{
    if accepted {
        Ok(version)
    } else {
        Err(StarterError::ClientInvalidVersion(version))
    }
}

/// Makes the client's RSA public key from the rest of its head packet. Parts
/// that cannot be read are an I/O error; parts that make no key, an RSA error.
pub fn read_client_key(rest: &[u8]) -> (r: Result<rsa::RsaPublicKey, StarterError>)
    ensures
        spec_read_key_parts(rest@) is Err ==> r matches Err(StarterError::IO(_)),
        spec_read_key_parts(rest@) matches Ok((n, e, _)) ==> (r is Ok <==> rsa_public_parts_ok(n, e)),
        spec_read_key_parts(rest@) is Ok ==> (r is Ok || r matches Err(StarterError::RSA(_))),
{
    let (n, a) = match read_u8_vec(rest) {
        Ok(p) => p,
        Err(e) => return Err(inner_error(e)),
    };
    proof {
        lemma_first_stop_some(rest@);
    }
    let tail = copy_range(rest, a, rest.len());
    assert(tail@ =~= rest@.skip(a as int));
    let (e, _) = match read_u8_vec(&tail) {
        Ok(p) => p,
        Err(err) => return Err(inner_error(err)),
    };
    match compose_rsa_public(&n, &e) {
        Ok(key) => Ok(key),
        Err(err) => Err(StarterError::RSA(err)),
    }
}

/// The server's answer to the head, as three flags: everything accepted, or
/// which check failed. For other failures it sends nothing.
pub open spec fn last_bytes<E>(last: Result<E, StarterError>) -> Seq<u8> {
    match last {
        Ok(_) => seq![bools3_byte([true, true, true])],
        Err(StarterError::ClientInvalidState(_, _)) => seq![bools3_byte([false, false, false])],
        Err(StarterError::ClientInvalidIdentifier(_)) => seq![bools3_byte([true, false, false])],
        Err(StarterError::ClientInvalidVersion(_)) => seq![bools3_byte([true, true, false])],
        Err(_) => Seq::empty(),
    }
}

/// Appends the server's answer to the head and hands `last` back.
pub fn write_last<E>(out: &mut Vec<u8>, last: Result<E, StarterError>) -> (r: Result<E, StarterError>)
    ensures
        final(out)@ == old(out)@ + last_bytes(last),
        r == last,
{
    match last {
        Err(e) => {
            match &e {
                StarterError::ClientInvalidState(_, _) => write_bools_3(out, [false, false, false]),
                StarterError::ClientInvalidIdentifier(_) => write_bools_3(out, [true, false, false]),
                StarterError::ClientInvalidVersion(_) => write_bools_3(out, [true, true, false]),
                _ => {},
            }
            assert(out@ =~= old(out)@ + last_bytes(last));
            Err(e)
        },
        Ok(k) => {
            write_bools_3(out, [true, true, true]);
            assert(out@ =~= old(out)@ + last_bytes(last));
            Ok(k)
        },
    }
}

/// Why the client does not get an accepting answer.
pub enum LastFailure {
    /// More bytes are needed.
    Incomplete,
    /// The flags are malformed.
    IO,
    /// The server refused the flags.
    ServerInvalidState,
    /// The server refused the identifier.
    ServerInvalidIdentifier,
    /// The server refused the version.
    ServerInvalidVersion,
}

/// What the client reads from the server's answer `s`.
pub open spec fn spec_read_last(s: Seq<u8>) -> Result<usize, LastFailure> {
    match spec_read_bools3(s) {
        Err(e) => if e == WireError::Incomplete {
            Err(LastFailure::Incomplete)
        } else {
            Err(LastFailure::IO)
        },
        Ok((b, n)) => if !b[0] {
            Err(LastFailure::ServerInvalidState)
        } else if !b[1] {
            Err(LastFailure::ServerInvalidIdentifier)
        } else if !b[2] {
            Err(LastFailure::ServerInvalidVersion)
        } else {
            Ok(n)
        },
    }
}

/// Reads the server's answer, in the client. When the client's own start
/// already failed (`last` is an error), that error is given back and nothing is
/// read.
pub fn read_last<E>(input: &[u8], last: Result<E, StarterError>) -> (r: Result<
    (E, usize),
    ReadError<StarterError>,
>)
    ensures
        last matches Err(e) ==> r == Err::<(E, usize), ReadError<StarterError>>(
            ReadError::Failed(e),
        ),
        last matches Ok(extra) ==> match (r, spec_read_last(input@)) {
            (Ok((k, n)), Ok(m)) => k == extra && n == m,
            (Err(ReadError::Incomplete), Err(LastFailure::Incomplete)) => true,
            (Err(ReadError::Failed(StarterError::IO(_))), Err(LastFailure::IO)) => true,
            (Err(ReadError::Failed(StarterError::ServerInvalidState())), Err(LastFailure::ServerInvalidState)) => true,
            (
                Err(ReadError::Failed(StarterError::ServerInvalidIdentifier())),
                Err(LastFailure::ServerInvalidIdentifier),
            ) => true,
            (
                Err(ReadError::Failed(StarterError::ServerInvalidVersion())),
                Err(LastFailure::ServerInvalidVersion),
            ) => true,
            _ => false,
        },
{
    let extra = match last {
        Ok(k) => k,
        Err(e) => return Err(ReadError::Failed(e)),
    };
    let (flags, n) = match read_bools_3(input) {
        Ok(p) => p,
        Err(WireError::Incomplete) => return Err(ReadError::Incomplete),
        Err(e) => return Err(ReadError::Failed(StarterError::IO(malformed_error(e)))),
    };
    if !flags[0] {
        return Err(ReadError::Failed(StarterError::ServerInvalidState()));
    }
    if !flags[1] {
        return Err(ReadError::Failed(StarterError::ServerInvalidIdentifier()));
    }
    if !flags[2] {
        return Err(ReadError::Failed(StarterError::ServerInvalidVersion()));
    }
    Ok((extra, n))
}

/// The packet `bytes` holds an offer with `nonce`, and nothing more.
pub open spec fn offer_packet_gives(bytes: Seq<u8>, max: usize, nonce: Seq<u8>) -> bool {
    &&& spec_read_packet(bytes, max) matches Ok((m, n))
    &&& n == bytes.len()
    &&& spec_read_offer(m) matches Ok((_, got, k))
    &&& got == nonce
    &&& k == m.len()
}

/// Appends a packet of the offer: `encrypted` as a byte string, then `nonce`.
/// When that packet is too large, nothing is appended and the sizes are
/// reported.
pub fn write_offer_packet(out: &mut Vec<u8>, encrypted: &[u8], nonce: [u8; 12], config: &Config) -> (r:
    Result<(), StarterError>)
    ensures
        offer_bytes(encrypted@, nonce@).len() <= config.max_packet_size ==> r is Ok && final(out)@ == old(
            out,
        )@ + packet_bytes(offer_bytes(encrypted@, nonce@)),
        offer_bytes(encrypted@, nonce@).len() > config.max_packet_size ==> final(out)@ == old(out)@ && (
        r matches Err(StarterError::Packet(PacketError::TooLarge(a, b))) && a == offer_bytes(
            encrypted@,
            nonce@,
        ).len() && b == config.max_packet_size),
{
    let mut message: Vec<u8> = Vec::new();
    write_u8_vec(&mut message, encrypted);
    write_more(&mut message, &nonce);
    assert(message@ =~= offer_bytes(encrypted@, nonce@));
    match write_packet(out, &message, config) {
        Ok(()) => Ok(()),
        Err(e) => Err(StarterError::Packet(e)),
    }
}

/// Makes the server's cipher from a fresh AES key and nonce, and appends a
/// packet with the key encrypted by the client's RSA key, and the nonce.
/// Nothing is appended on an error. A packet error comes only when the offer
/// packet is larger than the limit; the encrypted key takes at least 162
/// bytes, so the offer at least 175.
pub fn server_offer(out: &mut Vec<u8>, client_key: &rsa::RsaPublicKey, config: &Config) -> (r: Result<
    AesCipher,
    StarterError,
>)
    ensures
        r matches Ok(c) ==> final(out)@.take(old(out)@.len() as int) == old(out)@
            && offer_packet_gives(
            final(out)@.skip(old(out)@.len() as int),
            config.max_packet_size,
            c.1@,
        ),
        r matches Err(e) ==> final(out)@ == old(out)@ && (e is RSA || (e matches StarterError::Packet(
            PacketError::TooLarge(a, b),
        ) && b == config.max_packet_size && a > b && a >= 175)),
        config.max_packet_size < 175 ==> r is Err,
{
    let key = generate_key();
    let nonce = generate_nonce();
    let encrypted = match rsa_encrypt(client_key, &key) {
        Ok(e) => e,
        Err(e) => return Err(StarterError::RSA(e)),
    };
    assert(offer_bytes(encrypted@, nonce@).len() >= 175);
    match write_offer_packet(out, &encrypted, nonce, config) {
        Ok(()) => {
            let c: AesCipher = (key, nonce);
            proof {
                let added = packet_bytes(offer_bytes(encrypted@, nonce@));
                assert(out@.take(old(out)@.len() as int) =~= old(out)@);
                assert(out@.skip(old(out)@.len() as int) =~= added);
                lemma_packet_roundtrip(offer_bytes(encrypted@, nonce@), Seq::empty(), config.max_packet_size);
                assert(added + Seq::<u8>::empty() =~= added);
                lemma_offer_roundtrip(encrypted@, nonce@, Seq::empty());
                assert(offer_bytes(encrypted@, nonce@) + Seq::<u8>::empty() =~= offer_bytes(encrypted@, nonce@));
                assert(out@.len() == out.len());
            }
            Ok(c)
        },
        Err(e) => Err(e),
    }
}

/// Makes the client's cipher from the message of the server's offer packet:
/// reads the encrypted AES key and the nonce, decrypts the key with the
/// client's RSA key, and gives what `aes_cipher_from_decrypted` makes of it.
/// A 32-byte key cannot come out of fewer than 162 encrypted bytes.
pub fn client_cipher(client_key: &rsa::RsaPrivateKey, message: &[u8]) -> (r: Result<AesCipher, StarterError>)
    ensures
        spec_read_offer(message@) is Err ==> r matches Err(StarterError::IO(_)),
        spec_read_offer(message@) matches Ok((encrypted, nonce, _)) ==> match r {
            Ok(c) => c.1@ == nonce && encrypted.len() >= 162,
            Err(e) => e is RSA || e is AES,
        },
{
    let (encrypted, a) = match read_u8_vec(message) {
        Ok(p) => p,
        Err(e) => return Err(inner_error(e)),
    };
    proof {
        lemma_first_stop_some(message@);
    }
    if message.len() - a < 12 {
        return Err(StarterError::IO(unexpected_eof_error()));
    }
    let nonce: [u8; 12] = copy_array_12(message, a);
    assert(nonce@ =~= message@.subrange(a as int, a + 12));
    aes_cipher_from_decrypted(rsa_decrypt(client_key, &encrypted), nonce)
}

/// The client's cipher from the outcome of decrypting the server's AES key:
/// the RSA error as a starter error; an AES error when the key is not 32 bytes
/// long; otherwise that key with `nonce`.
pub fn aes_cipher_from_decrypted(decrypted: Result<Vec<u8>, rsa::Error>, nonce: [u8; 12]) -> (r: Result<
    AesCipher,
    StarterError,
>)
    ensures
        match (decrypted, r) {
            (Err(e), Err(StarterError::RSA(f))) => e == f,
            (Ok(k), Err(StarterError::AES(_))) => k@.len() != 32,
            (Ok(k), Ok(c)) => k@.len() == 32 && c.0@ == k@ && c.1 == nonce,
            _ => false,
        },
{
    let key = match decrypted {
        Ok(k) => k,
        Err(e) => return Err(StarterError::RSA(e)),
    };
    match check_aes_key(&key) {
        Ok(()) => {},
        Err(e) => return Err(StarterError::AES(e)),
    }
    Ok((copy_array_32(&key), nonce))
}

/// The server reading a client's head gets the client's version and the extra
/// bytes back when flags and identifier agree; otherwise it reports the
/// client's flags, or the client's identifier, in that order.
pub proof fn lemma_head_roundtrip(
    identifier: Seq<char>,
    version: Seq<char>,
    compression: bool,
    encryption: bool,
    extra: Seq<u8>,
    server_identifier: Seq<char>,
    server_compression: bool,
    server_encryption: bool,
    max: usize,
    rest: Seq<u8>,
)
    requires
        (head_fields(compression, encryption, identifier, version) + extra).len() <= max,
        (magic_bytes() + packet_bytes(head_fields(compression, encryption, identifier, version) + extra)).len()
            <= usize::MAX,
    ensures
        spec_read_head(
            magic_bytes() + packet_bytes(head_fields(compression, encryption, identifier, version) + extra)
                + rest,
            server_identifier,
            server_compression,
            server_encryption,
            max,
        ) == if compression != server_compression || encryption != server_encryption {
            Err::<(Seq<char>, Seq<u8>, usize), HeadFailure>(
                HeadFailure::ClientInvalidState(compression, encryption),
            )
        } else if identifier != server_identifier {
            Err(HeadFailure::ClientInvalidIdentifier(identifier))
        } else {
            Ok(
                (
                    version,
                    extra,
                    (magic_bytes() + packet_bytes(
                        head_fields(compression, encryption, identifier, version) + extra,
                    )).len() as usize,
                ),
            )
        },
{
    let m = head_fields(compression, encryption, identifier, version) + extra;
    let s = magic_bytes() + packet_bytes(m) + rest;
    assert(s.take(6) =~= magic_bytes());
    assert(s.skip(6) =~= packet_bytes(m) + rest);
    lemma_packet_roundtrip(m, rest, max);
    lemma_head_fields_read(identifier, version, compression, encryption, extra);
}

/// Reading the head fields back, one after the other.
proof fn lemma_head_fields_read(
    identifier: Seq<char>,
    version: Seq<char>,
    compression: bool,
    encryption: bool,
    extra: Seq<u8>,
)
    requires
        (head_fields(compression, encryption, identifier, version) + extra).len() <= usize::MAX,
    ensures
        ({
            let m = head_fields(compression, encryption, identifier, version) + extra;
            let k = string_bytes(identifier).len() as int;
            let j = string_bytes(version).len() as int;
            &&& spec_read_bools2(m) matches Ok((b, n)) && n == 1 && b[0] == compression && b[1]
                == encryption
            &&& spec_read_string(m.skip(1)) == Ok::<(Seq<char>, usize), WireError>(
                (identifier, k as usize),
            )
            &&& spec_read_string(m.skip(1 + k)) == Ok::<(Seq<char>, usize), WireError>(
                (version, j as usize),
            )
            &&& m.skip(1 + k + j) == extra
        }),
{
    let ib = string_bytes(identifier);
    let vb = string_bytes(version);
    let flag = bools2_byte([compression, encryption]);
    let m = head_fields(compression, encryption, identifier, version) + extra;
    assert(m =~= seq![flag] + (ib + (vb + extra)));
    lemma_read_bools2([compression, encryption], ib + (vb + extra));
    assert(m.skip(1) =~= ib + (vb + extra));
    lemma_read_string(identifier, vb + extra);
    assert(m.skip(1 + ib.len() as int) =~= vb + extra);
    lemma_read_string(version, extra);
    assert(m.skip(1 + ib.len() as int + vb.len() as int) =~= extra);
}

/// The client reading the server's answer learns which check failed, or that
/// all passed; after another failure the server sends nothing, and the client
/// reads on.
pub proof fn lemma_last_roundtrip<E>(last: Result<E, StarterError>, rest: Seq<u8>)
    ensures
        spec_read_last(last_bytes(last) + rest) == match last {
            Ok(_) => Ok::<usize, LastFailure>(1),
            Err(StarterError::ClientInvalidState(_, _)) => Err(LastFailure::ServerInvalidState),
            Err(StarterError::ClientInvalidIdentifier(_)) => Err(LastFailure::ServerInvalidIdentifier),
            Err(StarterError::ClientInvalidVersion(_)) => Err(LastFailure::ServerInvalidVersion),
            Err(_) => spec_read_last(rest),
        },
{
    match last {
        Ok(_) => lemma_read_bools3([true, true, true], rest),
        Err(StarterError::ClientInvalidState(_, _)) => lemma_read_bools3([false, false, false], rest),
        Err(StarterError::ClientInvalidIdentifier(_)) => lemma_read_bools3([true, false, false], rest),
        Err(StarterError::ClientInvalidVersion(_)) => lemma_read_bools3([true, true, false], rest),
        Err(_) => assert(last_bytes(last) + rest =~= rest),
    }
}

/// Once the bytes at hand decide what the server reads from the client's
/// head, bytes that follow do not change it.
pub proof fn lemma_read_head_decided(
    s: Seq<u8>,
    t: Seq<u8>,
    identifier: Seq<char>,
    compression: bool,
    encryption: bool,
    max: usize,
)
    ensures
        spec_read_head(s, identifier, compression, encryption, max) != Err::<
            (Seq<char>, Seq<u8>, usize),
            HeadFailure,
        >(HeadFailure::Incomplete) ==> spec_read_head(s + t, identifier, compression, encryption, max)
            == spec_read_head(s, identifier, compression, encryption, max),
{
    if s.len() >= 6 {
        assert((s + t).take(6) =~= s.take(6));
        assert((s + t).skip(6) =~= s.skip(6) + t);
        lemma_read_packet_decided(s.skip(6), t, max);
    }
}

/// Once the bytes at hand decide the server's answer, bytes that follow do not
/// change it.
pub proof fn lemma_read_last_decided(s: Seq<u8>, t: Seq<u8>)
    ensures
        spec_read_last(s) != Err::<usize, LastFailure>(LastFailure::Incomplete) ==> spec_read_last(s + t)
            == spec_read_last(s),
{
    lemma_read_bools3_decided(s, t);
}

/// The key parts that an encrypting client puts after its head fields are
/// read back by the server as the modulus and then the exponent (never
/// swapped), and a public key can be made of them (for keys of up to 4096
/// bits).
pub proof fn lemma_head_key_accepted(n: Seq<u8>, e: Seq<u8>)
    requires
        rsa_parts_ordered(n, e),
        le_value(n) < vstd::arithmetic::power2::pow2(4096),
        (u8_vec_bytes(n) + u8_vec_bytes(e)).len() <= usize::MAX,
    ensures
        spec_read_key_parts(u8_vec_bytes(n) + u8_vec_bytes(e)) == Ok::<(Seq<u8>, Seq<u8>, usize), WireError>(
            (n, e, (u8_vec_bytes(n) + u8_vec_bytes(e)).len() as usize),
        ),
        rsa_public_parts_ok(n, e),
        !rsa_public_parts_ok(e, n),
{
    lemma_key_parts_roundtrip(n, e, Seq::empty());
    assert(u8_vec_bytes(n) + u8_vec_bytes(e) + Seq::<u8>::empty() =~= u8_vec_bytes(n) + u8_vec_bytes(e));
}

} // verus!
