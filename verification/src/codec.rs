//! Raw DEFLATE compression, done by `flate2`.

use vstd::prelude::*;

verus! {

/// The raw DEFLATE stream that `flate2` produces for `data` at `level`, or
/// `None` when it reports an error.
pub uninterp spec fn deflate_spec(data: Seq<u8>, level: u32) -> Option<Seq<u8>>;

/// The bytes that `flate2` decompresses a raw DEFLATE stream `data` into, or
/// `None` when it reports an error.
pub uninterp spec fn inflate_spec(data: Seq<u8>) -> Option<Seq<u8>>;

/// Compresses `data` at `level`.
///
/// Writes `data` into a `flate2::write::DeflateEncoder` over a vector (with
/// `flate2::Compression::new(level)`) and finishes it. `flate2` takes levels
/// up to 10 (it asserts this in debug builds). Trusted: compressing into
/// memory succeeds; the result is the one `deflate_spec` names, and
/// decompressing it gives `data` back.
#[verifier::external_body]
pub(crate) fn deflate(data: &[u8], level: u32) -> (r: Result<Vec<u8>, std::io::Error>)
    requires
        level <= 10,
    ensures
        r is Ok,
        match r {
            Ok(c) => deflate_spec(data@, level) == Some(c@),
            Err(_) => deflate_spec(data@, level) is None,
        },
        r matches Ok(c) ==> inflate_spec(c@) == Some(data@),
{
    let mut encoder = flate2::write::DeflateEncoder::new(Vec::new(), flate2::Compression::new(level));
    match std::io::Write::write_all(&mut encoder, data) {
        Ok(()) => encoder.finish(),
        Err(e) => Err(e),
    }
}

/// Decompresses the raw DEFLATE stream `data`.
///
/// Writes `data` into a `flate2::write::DeflateDecoder` over a vector and
/// finishes it. Trusted: the result is the one `inflate_spec` names.
#[verifier::external_body]
pub(crate) fn inflate(data: &[u8]) -> (r: Result<Vec<u8>, std::io::Error>)
    ensures
        match r {
            Ok(p) => inflate_spec(data@) == Some(p@),
            Err(_) => inflate_spec(data@) is None,
        },
{
    let mut decoder = flate2::write::DeflateDecoder::new(Vec::new());
    match std::io::Write::write_all(&mut decoder, data) {
        Ok(()) => decoder.finish(),
        Err(e) => Err(e),
    }
}

} // verus!
