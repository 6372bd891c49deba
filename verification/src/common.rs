//! Protocol variants, errors, and the handshake and packet framing.

use vstd::prelude::*;
use vstd::utf8::*;
use crate::config::{get_max_packet_size, Config};
use crate::wire::{
    bools2_byte, string_is, lemma_read_u8_vec_prefix, lemma_first_stop_some, read_bools_2, read_string, read_u16_raw_be, spec_read_bools2,
    spec_read_string, spec_read_u16_be, string_bytes, u16_be_bytes, write_bools_2, write_string,
    write_u16_raw_be, WireError, copy_range, read_varint, spec_read_varint, u8_vec_bytes,
    write_u8_vec, lemma_read_u16_be, lemma_read_bools2, lemma_read_string, lemma_read_u8_vec,
    lemma_read_varint_bytes, varint_bytes, lemma_read_u16_be_decided, lemma_read_bools2_decided,
    lemma_read_string_decided, lemma_read_u8_vec_len, lemma_read_varint_decided,
};

verus! {

#[verifier::external_type_specification]
#[verifier::external_body]
pub struct ExIoError(std::io::Error);

#[verifier::external_type_specification]
#[verifier::external_body]
pub struct ExRsaError(rsa::Error);

#[verifier::external_type_specification]
#[verifier::external_body]
pub struct ExAeadError(aes_gcm::aead::Error);

/// Error when sending or receiving packets.
#[derive(Debug)]
pub enum PacketError {
    /// The packet size (first) is larger than the largest allowed (second).
    TooLarge(usize, usize),
    /// Reading or writing bytes failed, or the bytes were malformed.
    IO(std::io::Error),
    /// Encrypting or decrypting failed.
    AES(aes_gcm::aead::Error),
    /// The cipher was lost by an earlier failed send or receive.
    Broken(),
}

/// Error when starting a connection.
#[derive(Debug)]
pub enum StarterError {
    /// The magic bytes or the protocol version do not match.
    InvalidStream(),
    /// The other side speaks another protocol variant (the one received).
    InvalidProtocol(ProtocolVariant),
    /// The other side has another application identifier (the one received).
    InvalidIdentifier(String),
    /// The other side's application version is not accepted (the one received).
    InvalidVersion(String),
    /// Reading or writing bytes failed, or the bytes were malformed.
    IO(std::io::Error),
    /// Generating, encrypting or decrypting with an RSA key failed.
    RSA(rsa::Error),
}

/// Why a reader of received bytes stopped without a value.
#[derive(Debug)]
pub enum ReadError<E> {
    /// More bytes are needed.
    Incomplete,
    /// The bytes at hand decide that reading fails, with this error.
    Failed(E),
}

/// The variants of the protocol.
#[derive(Debug, Copy, Clone, PartialEq, Eq, Structural)]
pub enum ProtocolVariant {
    /// No compression, no encryption.
    Raw,
    /// Compression only.
    Compression,
    /// Encryption only.
    Encryption,
    /// Compression, then encryption.
    CompressEncryption,
}

/// The two flags `[encryption, compression]` that stand for a variant on the wire.
pub open spec fn variant_flags(p: ProtocolVariant) -> [bool; 2] {
    match p {
        ProtocolVariant::Raw => [false, false],
        ProtocolVariant::Compression => [false, true],
        ProtocolVariant::Encryption => [true, false],
        ProtocolVariant::CompressEncryption => [true, true],
    }
}

/// The variant that two flags stand for.
pub open spec fn flags_variant(b: [bool; 2]) -> ProtocolVariant {
    if !b[0] && !b[1] {
        ProtocolVariant::Raw
    } else if !b[0] && b[1] {
        ProtocolVariant::Compression
    } else if b[0] && !b[1] {
        ProtocolVariant::Encryption
    } else {
        ProtocolVariant::CompressEncryption
    }
}

impl From<[bool; 2]> for ProtocolVariant {
    fn from(value: [bool; 2]) -> (r: Self) {
        if !value[0] && !value[1] {
            ProtocolVariant::Raw
        } else if !value[0] && value[1] {
            ProtocolVariant::Compression
        } else if value[0] && !value[1] {
            ProtocolVariant::Encryption
        } else {
            ProtocolVariant::CompressEncryption
        }
    }
}

impl vstd::std_specs::convert::FromSpecImpl<[bool; 2]> for ProtocolVariant {
    open spec fn obeys_from_spec() -> bool {
        true
    }

    open spec fn from_spec(v: [bool; 2]) -> Self {
        flags_variant(v)
    }
}

impl From<ProtocolVariant> for [bool; 2] {
    fn from(value: ProtocolVariant) -> (r: Self) {
        match value {
            ProtocolVariant::Raw => [false, false],
            ProtocolVariant::Compression => [false, true],
            ProtocolVariant::Encryption => [true, false],
            ProtocolVariant::CompressEncryption => [true, true],
        }
    }
}

impl vstd::std_specs::convert::FromSpecImpl<ProtocolVariant> for [bool; 2] {
    open spec fn obeys_from_spec() -> bool {
        true
    }

    open spec fn from_spec(v: ProtocolVariant) -> Self {
        variant_flags(v)
    }
}

/// Converting a variant to its flags and back gives the variant; converting
/// two flags to a variant and back gives the flags.
pub proof fn lemma_variant_flags_roundtrip(p: ProtocolVariant, b: [bool; 2])
    ensures
        flags_variant(variant_flags(p)) == p,
        variant_flags(flags_variant(b)) =~= b,
{
}

} // verus!

verus! {

/// The I/O error that `std::io::Error::new` makes of the kind `InvalidData`
/// and `message`: its kind is `InvalidData` and its text is `message`.
pub uninterp spec fn io_invalid_data(message: Seq<char>) -> std::io::Error;

/// An I/O error of kind `InvalidData` with a message.
///
/// Calls `std::io::Error::new` with `std::io::ErrorKind::InvalidData`.
/// Trusted: the error is the one `io_invalid_data` names for the message.
#[verifier::external_body]
fn invalid_data_error(message: &str) -> (r: std::io::Error)
    ensures
        r == io_invalid_data(message@),
{
    std::io::Error::new(std::io::ErrorKind::InvalidData, message)
}

/// The I/O error of kind `UnexpectedEof`, for data that ends too early.
///
/// Calls `std::io::Error::from`; nothing is stated of the error value.
#[verifier::external_body]
pub(crate) fn unexpected_eof_error() -> std::io::Error {
    std::io::Error::from(std::io::ErrorKind::UnexpectedEof)
}

/// The message that a malformed wire value is reported with.
pub open spec fn malformed_message(e: WireError) -> Seq<char> {
    match e {
        WireError::VarintTooLong => "Too long varint value."@,
        WireError::InvalidBools(_) => "Invalid bools."@,
        _ => "Invalid utf-8 string."@,
    }
}

/// The I/O error that a malformed wire value is reported as: of kind
/// `InvalidData`, with the message `malformed_message` gives.
pub fn malformed_error(e: WireError) -> (r: std::io::Error)
    requires
        e != WireError::Incomplete,
    ensures
        r == io_invalid_data(malformed_message(e)),
{
    match e {
        WireError::VarintTooLong => invalid_data_error("Too long varint value."),
        WireError::InvalidBools(_) => invalid_data_error("Invalid bools."),
        _ => invalid_data_error("Invalid utf-8 string."),
    }
}

/// Turns a wire error into a read error of a starter.
pub(crate) fn starter_read_error(e: WireError) -> (r: ReadError<StarterError>)
    ensures
        e == WireError::Incomplete ==> r is Incomplete,
        e != WireError::Incomplete ==> r matches ReadError::Failed(StarterError::IO(_)),
{
    if e == WireError::Incomplete {
        ReadError::Incomplete
    } else {
        ReadError::Failed(StarterError::IO(malformed_error(e)))
    }
}

/// Turns a wire error into a read error of a packet.
fn packet_read_error(e: WireError) -> (r: ReadError<PacketError>)
    ensures
        e == WireError::Incomplete ==> r is Incomplete,
        e != WireError::Incomplete ==> r matches ReadError::Failed(PacketError::IO(_)),
{
    if e == WireError::Incomplete {
        ReadError::Incomplete
    } else {
        ReadError::Failed(PacketError::IO(malformed_error(e)))
    }
}

/// `input[start..]`.
fn tail(input: &[u8], start: usize) -> (r: &[u8])
    requires
        start <= input@.len(),
    ensures
        r@ == input@.skip(start as int),
{
    &input[start..input.len()]
}

/// The version of the handshake protocol.
pub const MAGIC_VERSION: u16 = 1;

/// The four bytes that open a connection.
pub open spec fn magic_bytes() -> Seq<u8> {
    seq![208u8, 8u8, 166u8, 104u8]
}

/// What the client sends first: the magic bytes, the protocol version, the
/// protocol variant, the application identifier and the application version.
pub open spec fn head_bytes(protocol: ProtocolVariant, identifier: Seq<char>, version: Seq<char>) -> Seq<u8> {
    magic_bytes() + u16_be_bytes(1) + seq![bools2_byte(variant_flags(protocol))]
        + string_bytes(identifier) + string_bytes(version)
}

/// Why the server does not accept a head, before the version is judged.
pub enum HeadFailure {
    /// More bytes are needed.
    Incomplete,
    /// A value is malformed.
    Malformed,
    /// The magic bytes or the protocol version do not match.
    InvalidStream,
    /// Another protocol variant was received.
    InvalidProtocol(ProtocolVariant),
    /// Another identifier was received.
    InvalidIdentifier(Seq<char>),
}

/// Turns a failure of a wire reader into the failure of the head.
pub open spec fn head_wire_failure(e: WireError) -> HeadFailure {
    if e == WireError::Incomplete {
        HeadFailure::Incomplete
    } else {
        HeadFailure::Malformed
    }
}

/// What the server reads from the client's head `s`, given its own variant and
/// identifier: the protocol version, the client's application version and the
/// bytes taken; or why it stops. Checks come in the order of the fields.
pub open spec fn spec_read_head(s: Seq<u8>, protocol: ProtocolVariant, identifier: Seq<char>) -> Result<
    (u16, Seq<char>, usize),
    HeadFailure,
> {
    if s.len() < 4 {
        Err(HeadFailure::Incomplete)
    } else if s.take(4) != magic_bytes() {
        Err(HeadFailure::InvalidStream)
    } else {
        match spec_read_u16_be(s.skip(4)) {
            Err(e) => Err(head_wire_failure(e)),
            Ok((v, _)) => if v != 1 {
                Err(HeadFailure::InvalidStream)
            } else {
                match spec_read_bools2(s.skip(6)) {
                    Err(e) => Err(head_wire_failure(e)),
                    Ok((b, _)) => if flags_variant(b) != protocol {
                        Err(HeadFailure::InvalidProtocol(flags_variant(b)))
                    } else {
                        match spec_read_string(s.skip(7)) {
                            Err(e) => Err(head_wire_failure(e)),
                            Ok((id, n)) => if id != identifier {
                                Err(HeadFailure::InvalidIdentifier(id))
                            } else {
                                match spec_read_string(s.skip(7 + n)) {
                                    Err(e) => Err(head_wire_failure(e)),
                                    Ok((ver, m)) => Ok((1, ver, (7 + n + m) as usize)),
                                }
                            }
                        }
                    }
                }
            }
        }
    }
}

/// A head read by `read_head`, compared with `spec_read_head`.
pub open spec fn head_read_matches(
    r: Result<((u16, String), usize), ReadError<StarterError>>,
    s: Result<(u16, Seq<char>, usize), HeadFailure>,
) -> bool {
    match (r, s) {
        (Ok(((v, ver), n)), Ok((w, t, m))) => v == w && ver@ == t && n == m,
        (Err(ReadError::Incomplete), Err(HeadFailure::Incomplete)) => true,
        (Err(ReadError::Failed(StarterError::IO(_))), Err(HeadFailure::Malformed)) => true,
        (Err(ReadError::Failed(StarterError::InvalidStream())), Err(HeadFailure::InvalidStream)) => true,
        (
            Err(ReadError::Failed(StarterError::InvalidProtocol(p))),
            Err(HeadFailure::InvalidProtocol(q)),
        ) => p == q,
        (
            Err(ReadError::Failed(StarterError::InvalidIdentifier(a))),
            Err(HeadFailure::InvalidIdentifier(b)),
        ) => a@ == b,
        _ => false,
    }
}

/// Appends the client's head.
pub fn write_head(out: &mut Vec<u8>, protocol: ProtocolVariant, identifier: &str, version: &str)
    ensures
        final(out)@ == old(out)@ + head_bytes(protocol, identifier@, version@),
{
    out.push(208);
    out.push(8);
    out.push(166);
    out.push(104);
    write_u16_raw_be(out, MAGIC_VERSION);
    let flags: [bool; 2] = protocol.into();
    write_bools_2(out, flags);
    write_string(out, identifier);
    write_string(out, version);
    assert(out@ =~= old(out)@ + head_bytes(protocol, identifier@, version@));
}

/// Reads the client's head, in the server, checking every field but the
/// application version: gives the protocol version, the client's application
/// version and the bytes taken.
pub fn read_head(input: &[u8], protocol: ProtocolVariant, identifier: &str) -> (r: Result<
    ((u16, String), usize),
    ReadError<StarterError>,
>)
    ensures
        head_read_matches(r, spec_read_head(input@, protocol, identifier@)),
{
    let ghost s = input@;
    if input.len() < 4 {
        return Err(ReadError::Incomplete);
    }
    if !(input[0] == 208 && input[1] == 8 && input[2] == 166 && input[3] == 104) {
        proof {
            if s.take(4) == magic_bytes() {
                assert(s.take(4)[0] == s[0] && s.take(4)[1] == s[1]);
                assert(s.take(4)[2] == s[2] && s.take(4)[3] == s[3]);
            }
        }
        return Err(ReadError::Failed(StarterError::InvalidStream()));
    }
    assert(s.take(4) =~= magic_bytes());
    let (protocol_version, _) = match read_u16_raw_be(tail(input, 4)) {
        Ok(p) => p,
        Err(e) => return Err(starter_read_error(e)),
    };
    if protocol_version != MAGIC_VERSION {
        return Err(ReadError::Failed(StarterError::InvalidStream()));
    }
    assert(s.len() >= 6);
    let (flags, _) = match read_bools_2(tail(input, 6)) {
        Ok(p) => p,
        Err(e) => return Err(starter_read_error(e)),
    };
    let protocol_read: ProtocolVariant = flags.into();
    if protocol_read != protocol {
        return Err(ReadError::Failed(StarterError::InvalidProtocol(protocol_read)));
    }
    let (identifier_read, n) = match read_string(tail(input, 7)) {
        Ok(p) => p,
        Err(e) => return Err(starter_read_error(e)),
    };
    if !string_is(&identifier_read, identifier) {
        return Err(ReadError::Failed(StarterError::InvalidIdentifier(identifier_read)));
    }
    proof {
        lemma_first_stop_some(s.skip(7));
    }
    let (version_read, m) = match read_string(tail(input, 7 + n)) {
        Ok(p) => p,
        Err(e) => return Err(starter_read_error(e)),
    };
    proof {
        lemma_first_stop_some(s.skip(7 + n));
    }
    Ok(((protocol_version, version_read), 7 + n + m))
}

/// Applies the application's judgement of the client's version, `accepted`, to
/// a head read by `read_head`.
pub fn check_version(head: (u16, String), accepted: bool) -> (r: Result<(u16, String), StarterError>)
    ensures
        accepted ==> r == Ok::<(u16, String), StarterError>(head),
        !accepted ==> (r matches Err(StarterError::InvalidVersion(v)) && v == head.1),
{
    if accepted {
        Ok(head)
    } else {
        Err(StarterError::InvalidVersion(head.1))
    }
}

/// What the server answers to a head: nothing extra when accepted; otherwise,
/// for a wrong variant, identifier or version, its own one, so that the client
/// can report it. For other failures it sends nothing.
pub open spec fn last_bytes<E>(
    protocol: ProtocolVariant,
    identifier: Seq<char>,
    version: Seq<char>,
    last: Result<E, StarterError>,
) -> Seq<u8> {
    match last {
        Ok(_) => seq![bools2_byte([true, true])],
        Err(StarterError::InvalidProtocol(_)) => seq![
            bools2_byte([false, false]),
            bools2_byte(variant_flags(protocol)),
        ],
        Err(StarterError::InvalidIdentifier(_)) => seq![bools2_byte([false, true])] + string_bytes(
            identifier,
        ),
        Err(StarterError::InvalidVersion(_)) => seq![bools2_byte([true, false])] + string_bytes(
            version,
        ),
        Err(_) => Seq::empty(),
    }
}

/// Appends the server's answer to the head (see `last_bytes`) and hands `last`
/// back.
pub fn write_last<E>(
    out: &mut Vec<u8>,
    protocol: ProtocolVariant,
    identifier: &str,
    version: &str,
    last: Result<E, StarterError>,
) -> (r: Result<E, StarterError>)
    ensures
        final(out)@ == old(out)@ + last_bytes(protocol, identifier@, version@, last),
        r == last,
{
    match last {
        Err(e) => {
            match &e {
                StarterError::InvalidProtocol(_) => {
                    write_bools_2(out, [false, false]);
                    let flags: [bool; 2] = protocol.into();
                    write_bools_2(out, flags);
                },
                StarterError::InvalidIdentifier(_) => {
                    write_bools_2(out, [false, true]);
                    write_string(out, identifier);
                },
                StarterError::InvalidVersion(_) => {
                    write_bools_2(out, [true, false]);
                    write_string(out, version);
                },
                _ => {},
            }
            assert(out@ =~= old(out)@ + last_bytes(protocol, identifier@, version@, last));
            Err(e)
        },
        Ok(k) => {
            write_bools_2(out, [true, true]);
            assert(out@ =~= old(out)@ + last_bytes(protocol, identifier@, version@, last));
            Ok(k)
        },
    }
}

/// Why the client does not get an accepting answer.
pub enum LastFailure {
    /// More bytes are needed.
    Incomplete,
    /// A value is malformed.
    Malformed,
    /// The server speaks this variant.
    InvalidProtocol(ProtocolVariant),
    /// The server has this identifier.
    InvalidIdentifier(Seq<char>),
    /// The server recommends this version.
    InvalidVersion(Seq<char>),
}

/// Turns a failure of a wire reader into the failure of the answer.
pub open spec fn last_wire_failure(e: WireError) -> LastFailure {
    if e == WireError::Incomplete {
        LastFailure::Incomplete
    } else {
        LastFailure::Malformed
    }
}

/// What the client reads from the server's answer `s`: the bytes taken when
/// accepted, or why not.
pub open spec fn spec_read_last(s: Seq<u8>) -> Result<usize, LastFailure> {
    match spec_read_bools2(s) {
        Err(e) => Err(last_wire_failure(e)),
        Ok((b, _)) => if b[0] && b[1] {
            Ok(1)
        } else if !b[0] && !b[1] {
            match spec_read_bools2(s.skip(1)) {
                Err(e) => Err(last_wire_failure(e)),
                Ok((c, _)) => Err(LastFailure::InvalidProtocol(flags_variant(c))),
            }
        } else if !b[0] && b[1] {
            match spec_read_string(s.skip(1)) {
                Err(e) => Err(last_wire_failure(e)),
                Ok((t, _)) => Err(LastFailure::InvalidIdentifier(t)),
            }
        } else {
            match spec_read_string(s.skip(1)) {
                Err(e) => Err(last_wire_failure(e)),
                Ok((t, _)) => Err(LastFailure::InvalidVersion(t)),
            }
        },
    }
}

/// An answer read by `read_last`, compared with `spec_read_last`.
pub open spec fn last_read_matches<E>(
    r: Result<(E, usize), ReadError<StarterError>>,
    extra: E,
    s: Result<usize, LastFailure>,
) -> bool {
    match (r, s) {
        (Ok((k, n)), Ok(m)) => k == extra && n == m,
        (Err(ReadError::Incomplete), Err(LastFailure::Incomplete)) => true,
        (Err(ReadError::Failed(StarterError::IO(_))), Err(LastFailure::Malformed)) => true,
        (
            Err(ReadError::Failed(StarterError::InvalidProtocol(p))),
            Err(LastFailure::InvalidProtocol(q)),
        ) => p == q,
        (
            Err(ReadError::Failed(StarterError::InvalidIdentifier(a))),
            Err(LastFailure::InvalidIdentifier(b)),
        ) => a@ == b,
        (
            Err(ReadError::Failed(StarterError::InvalidVersion(a))),
            Err(LastFailure::InvalidVersion(b)),
        ) => a@ == b,
        _ => false,
    }
}

/// Reads the server's answer, in the client. When the client's own start
/// already failed (`last` is an error), that error is given back and nothing is
/// read.
pub fn read_last<E>(input: &[u8], last: Result<E, StarterError>) -> (r: Result<
    (E, usize),
    ReadError<StarterError>,
>)
    ensures
        last matches Err(e) ==> r == Err::<(E, usize), ReadError<StarterError>>(
            ReadError::Failed(e),
        ),
        last matches Ok(extra) ==> last_read_matches(r, extra, spec_read_last(input@)),
{
    let extra = match last {
        Ok(k) => k,
        Err(e) => return Err(ReadError::Failed(e)),
    };
    let ghost s = input@;
    let (state, _) = match read_bools_2(input) {
        Ok(p) => p,
        Err(e) => return Err(starter_read_error(e)),
    };
    if state[0] && state[1] {
        Ok((extra, 1))
    } else if !state[0] && !state[1] {
        match read_bools_2(tail(input, 1)) {
            Ok((flags, _)) => {
                let p: ProtocolVariant = flags.into();
                Err(ReadError::Failed(StarterError::InvalidProtocol(p)))
            },
            Err(e) => Err(starter_read_error(e)),
        }
    } else if !state[0] && state[1] {
        match read_string(tail(input, 1)) {
            Ok((t, _)) => Err(ReadError::Failed(StarterError::InvalidIdentifier(t))),
            Err(e) => Err(starter_read_error(e)),
        }
    } else {
        match read_string(tail(input, 1)) {
            Ok((t, _)) => Err(ReadError::Failed(StarterError::InvalidVersion(t))),
            Err(e) => Err(starter_read_error(e)),
        }
    }
}

// ----------------------------------------------------------------------------
// Packets
// ----------------------------------------------------------------------------

/// A packet on the wire: the length of its message as a varint, then the
/// message.
pub open spec fn packet_bytes(message: Seq<u8>) -> Seq<u8> {
    u8_vec_bytes(message)
}

/// Checks a packet length against the largest allowed in `config`.
pub fn check_bytes_len(len: usize, config: &Config) -> (r: Result<(), PacketError>)
    ensures
        r is Ok <==> len <= config.max_packet_size,
        r matches Err(e) ==> (e matches PacketError::TooLarge(a, b) && a == len && b
            == config.max_packet_size),
{
    let max = get_max_packet_size(config);
    if len > max {
        Err(PacketError::TooLarge(len, max))
    } else {
        Ok(())
    }
}

/// Appends a packet holding `message`, if it is not larger than allowed;
/// otherwise appends nothing.
pub fn write_packet(out: &mut Vec<u8>, message: &[u8], config: &Config) -> (r: Result<(), PacketError>)
    ensures
        r is Ok <==> message@.len() <= config.max_packet_size,
        r is Ok ==> final(out)@ == old(out)@ + packet_bytes(message@),
        r matches Err(e) ==> final(out)@ == old(out)@ && (e matches PacketError::TooLarge(a, b)
            && a == message@.len() && b == config.max_packet_size),
{
    match check_bytes_len(message.len(), config) {
        Err(e) => return Err(e),
        Ok(()) => {},
    }
    write_u8_vec(out, message);
    Ok(())
}

/// Why a packet cannot be read.
pub enum PacketFailure {
    /// More bytes are needed.
    Incomplete,
    /// The length is malformed.
    Malformed,
    /// The length (first) is larger than allowed (second).
    TooLarge(usize, usize),
}

/// What a receiver reads as the head of a packet in `s`: the message length
/// and the bytes of the length field, or why it stops.
pub open spec fn spec_read_packet_len(s: Seq<u8>, max: usize) -> Result<(usize, usize), PacketFailure> {
    match spec_read_varint(s) {
        Err(e) => if e == WireError::Incomplete {
            Err(PacketFailure::Incomplete)
        } else {
            Err(PacketFailure::Malformed)
        },
        Ok((len, n)) => if len > max {
            Err(PacketFailure::TooLarge(len, max))
        } else {
            Ok((len, n))
        },
    }
}

/// What a receiver reads as a packet in `s`: the message and the bytes taken.
pub open spec fn spec_read_packet(s: Seq<u8>, max: usize) -> Result<(Seq<u8>, usize), PacketFailure> {
    match spec_read_packet_len(s, max) {
        Err(f) => Err(f),
        Ok((len, n)) => if n + len <= s.len() {
            Ok((s.subrange(n as int, n + len), (n + len) as usize))
        } else {
            Err(PacketFailure::Incomplete)
        },
    }
}

/// Whether a read error stands for a packet failure.
pub open spec fn packet_failure_matches(e: ReadError<PacketError>, f: PacketFailure) -> bool {
    match (e, f) {
        (ReadError::Incomplete, PacketFailure::Incomplete) => true,
        (ReadError::Failed(PacketError::IO(_)), PacketFailure::Malformed) => true,
        (ReadError::Failed(PacketError::TooLarge(a, b)), PacketFailure::TooLarge(c, d)) => a == c
            && b == d,
        _ => false,
    }
}

/// Reads the length field of a packet and checks the length.
pub fn read_packet_len(input: &[u8], config: &Config) -> (r: Result<(usize, usize), ReadError<PacketError>>)
    ensures
        match (r, spec_read_packet_len(input@, config.max_packet_size)) {
            (Ok(a), Ok(b)) => a == b,
            (Err(e), Err(f)) => packet_failure_matches(e, f),
            _ => false,
        },
{
    let (len, n) = match read_varint(input) {
        Ok(p) => p,
        Err(e) => return Err(packet_read_error(e)),
    };
    match check_bytes_len(len, config) {
        Err(e) => return Err(ReadError::Failed(e)),
        Ok(()) => {},
    }
    Ok((len, n))
}

/// Reads a packet: its message and the bytes taken.
pub fn read_packet(input: &[u8], config: &Config) -> (r: Result<(Vec<u8>, usize), ReadError<PacketError>>)
    ensures
        match (r, spec_read_packet(input@, config.max_packet_size)) {
            (Ok((v, n)), Ok((w, m))) => v@ == w && n == m,
            (Err(e), Err(f)) => packet_failure_matches(e, f),
            _ => false,
        },
{
    let (len, n) = match read_packet_len(input, config) {
        Ok(p) => p,
        Err(e) => return Err(e),
    };
    proof {
        lemma_first_stop_some(input@);
    }
    if len > input.len() - n {
        return Err(ReadError::Incomplete);
    }
    let message = copy_range(input, n, n + len);
    Ok((message, n + len))
}

// ----------------------------------------------------------------------------
// Laws
// ----------------------------------------------------------------------------

/// The server reading a client's head gets the client's application version
/// back when variant and identifier agree; otherwise it reports the client's
/// variant, or the client's identifier, in that order.
pub proof fn lemma_head_roundtrip(
    protocol: ProtocolVariant,
    identifier: Seq<char>,
    version: Seq<char>,
    server_protocol: ProtocolVariant,
    server_identifier: Seq<char>,
    rest: Seq<u8>,
)
    requires
        head_bytes(protocol, identifier, version).len() <= usize::MAX,
    ensures
        spec_read_head(head_bytes(protocol, identifier, version) + rest, server_protocol, server_identifier)
            == if protocol != server_protocol {
            Err::<(u16, Seq<char>, usize), HeadFailure>(HeadFailure::InvalidProtocol(protocol))
        } else if identifier != server_identifier {
            Err(HeadFailure::InvalidIdentifier(identifier))
        } else {
            Ok((1, version, head_bytes(protocol, identifier, version).len() as usize))
        },
{
    let ib = string_bytes(identifier);
    let vb = string_bytes(version);
    let flag = bools2_byte(variant_flags(protocol));
    let s = head_bytes(protocol, identifier, version) + rest;
    assert(s.take(4) =~= magic_bytes());
    assert(s.skip(4) =~= u16_be_bytes(1) + (seq![flag] + ib + vb + rest));
    lemma_read_u16_be(1, seq![flag] + ib + vb + rest);
    assert(s.skip(6) =~= seq![flag] + (ib + vb + rest));
    lemma_read_bools2(variant_flags(protocol), ib + vb + rest);
    lemma_variant_flags_roundtrip(protocol, variant_flags(protocol));
    assert(s.skip(7) =~= ib + (vb + rest));
    lemma_read_string(identifier, vb + rest);
    assert(s.skip(7 + ib.len() as int) =~= vb + rest);
    lemma_read_string(version, rest);
}

/// The client reading the server's answer learns what the server decided:
/// acceptance, or the server's own variant, identifier or version; after
/// another failure the server sends nothing, and the client reads on.
pub proof fn lemma_last_roundtrip<E>(
    protocol: ProtocolVariant,
    identifier: Seq<char>,
    version: Seq<char>,
    last: Result<E, StarterError>,
    rest: Seq<u8>,
)
    requires
        encode_utf8(identifier).len() <= usize::MAX,
        encode_utf8(version).len() <= usize::MAX,
    ensures
        spec_read_last(last_bytes(protocol, identifier, version, last) + rest) == match last {
            Ok(_) => Ok::<usize, LastFailure>(1),
            Err(StarterError::InvalidProtocol(_)) => Err(LastFailure::InvalidProtocol(protocol)),
            Err(StarterError::InvalidIdentifier(_)) => Err(LastFailure::InvalidIdentifier(identifier)),
            Err(StarterError::InvalidVersion(_)) => Err(LastFailure::InvalidVersion(version)),
            Err(_) => spec_read_last(rest),
        },
{
    let s = last_bytes(protocol, identifier, version, last) + rest;
    match last {
        Ok(_) => {
            lemma_read_bools2([true, true], rest);
        },
        Err(StarterError::InvalidProtocol(_)) => {
            let flag = bools2_byte(variant_flags(protocol));
            assert(s =~= seq![bools2_byte([false, false])] + (seq![flag] + rest));
            lemma_read_bools2([false, false], seq![flag] + rest);
            assert(s.skip(1) =~= seq![flag] + rest);
            lemma_read_bools2(variant_flags(protocol), rest);
            lemma_variant_flags_roundtrip(protocol, variant_flags(protocol));
        },
        Err(StarterError::InvalidIdentifier(_)) => {
            let b = string_bytes(identifier);
            assert(s =~= seq![bools2_byte([false, true])] + (b + rest));
            lemma_read_bools2([false, true], b + rest);
            assert(s.skip(1) =~= b + rest);
            lemma_read_string(identifier, rest);
        },
        Err(StarterError::InvalidVersion(_)) => {
            let b = string_bytes(version);
            assert(s =~= seq![bools2_byte([true, false])] + (b + rest));
            lemma_read_bools2([true, false], b + rest);
            assert(s.skip(1) =~= b + rest);
            lemma_read_string(version, rest);
        },
        Err(_) => {
            assert(s =~= rest);
        },
    }
}

/// A packet that is not too large is read back as the message it holds,
/// taking exactly its bytes.
pub proof fn lemma_packet_roundtrip(message: Seq<u8>, rest: Seq<u8>, max: usize)
    requires
        message.len() <= max,
    ensures
        spec_read_packet(packet_bytes(message) + rest, max) == Ok::<(Seq<u8>, usize), PacketFailure>(
            (message, packet_bytes(message).len() as usize),
        ),
{
    lemma_read_u8_vec(message, rest);
    let s = packet_bytes(message) + rest;
    let h = varint_bytes(message.len());
    assert(s =~= h + (message + rest));
    lemma_read_varint_bytes(message.len() as usize, message + rest);
    assert(s.subrange(h.len() as int, (h.len() + message.len()) as int) =~= message);
}

/// Once the bytes at hand decide the client's head (a value or a refusal),
/// bytes that follow do not change it: reading never depends on what comes
/// after the head.
pub proof fn lemma_read_head_decided(s: Seq<u8>, t: Seq<u8>, protocol: ProtocolVariant, identifier: Seq<char>)
    ensures
        spec_read_head(s, protocol, identifier) != Err::<(u16, Seq<char>, usize), HeadFailure>(
            HeadFailure::Incomplete,
        ) ==> spec_read_head(s + t, protocol, identifier) == spec_read_head(s, protocol, identifier),
{
    if s.len() >= 4 {
        assert((s + t).take(4) =~= s.take(4));
        assert((s + t).skip(4) =~= s.skip(4) + t);
        lemma_read_u16_be_decided(s.skip(4), t);
        if s.len() >= 6 {
            assert((s + t).skip(6) =~= s.skip(6) + t);
            lemma_read_bools2_decided(s.skip(6), t);
        }
        if s.len() >= 7 {
            assert((s + t).skip(7) =~= s.skip(7) + t);
            lemma_read_string_decided(s.skip(7), t);
            lemma_read_u8_vec_len(s.skip(7));
            if let Ok((_, n)) = spec_read_string(s.skip(7)) {
                assert((s + t).skip(7 + n) =~= s.skip(7 + n) + t);
                lemma_read_string_decided(s.skip(7 + n), t);
            }
        }
    }
}

/// The client takes exactly the server's answer: no proper prefix of it
/// decides what the client reads (with `lemma_last_roundtrip` and
/// `lemma_read_last_decided`, the answer is read once all of its bytes are at
/// hand, whatever follows them).
pub proof fn lemma_last_prefix<E>(
    protocol: ProtocolVariant,
    identifier: Seq<char>,
    version: Seq<char>,
    last: Result<E, StarterError>,
    k: int,
)
    requires
        last_bytes(protocol, identifier, version, last).len() <= usize::MAX,
        0 <= k < last_bytes(protocol, identifier, version, last).len(),
    ensures
        spec_read_last(last_bytes(protocol, identifier, version, last).take(k)) == Err::<
            usize,
            LastFailure,
        >(LastFailure::Incomplete),
{
    let b = last_bytes(protocol, identifier, version, last);
    let p = b.take(k);
    if k >= 1 {
        assert(p[0] == b[0]);
        match last {
            Err(StarterError::InvalidProtocol(_)) => {
                assert(p.skip(1) =~= Seq::<u8>::empty());
            },
            Err(StarterError::InvalidIdentifier(_)) => {
                let t = string_bytes(identifier);
                assert(b =~= seq![bools2_byte([false, true])] + t);
                assert(p.skip(1) =~= t.take(k - 1));
                lemma_read_u8_vec_prefix(encode_utf8(identifier), k - 1);
            },
            Err(StarterError::InvalidVersion(_)) => {
                let t = string_bytes(version);
                assert(b =~= seq![bools2_byte([true, false])] + t);
                assert(p.skip(1) =~= t.take(k - 1));
                lemma_read_u8_vec_prefix(encode_utf8(version), k - 1);
            },
            _ => {},
        }
    }
}

/// Once the bytes at hand decide the server's answer, bytes that follow do not
/// change it.
pub proof fn lemma_read_last_decided(s: Seq<u8>, t: Seq<u8>)
    ensures
        spec_read_last(s) != Err::<usize, LastFailure>(LastFailure::Incomplete) ==> spec_read_last(s + t)
            == spec_read_last(s),
{
    lemma_read_bools2_decided(s, t);
    if s.len() >= 1 {
        assert((s + t).skip(1) =~= s.skip(1) + t);
        lemma_read_bools2_decided(s.skip(1), t);
        lemma_read_string_decided(s.skip(1), t);
    }
}

/// Once the bytes at hand decide a packet, bytes that follow do not change it.
pub proof fn lemma_read_packet_decided(s: Seq<u8>, t: Seq<u8>, max: usize)
    ensures
        spec_read_packet_len(s, max) != Err::<(usize, usize), PacketFailure>(PacketFailure::Incomplete)
            ==> spec_read_packet_len(s + t, max) == spec_read_packet_len(s, max),
        spec_read_packet(s, max) != Err::<(Seq<u8>, usize), PacketFailure>(PacketFailure::Incomplete)
            ==> spec_read_packet(s + t, max) == spec_read_packet(s, max),
{
    lemma_read_varint_decided(s, t);
    if let Ok((len, n)) = spec_read_packet_len(s, max) {
        if n + len <= s.len() {
            assert((s + t).subrange(n as int, n + len) =~= s.subrange(n as int, n + len));
        }
    }
}

} // verus!
