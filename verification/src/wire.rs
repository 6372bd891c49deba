//! Primitive encodings of the wire format: varints, packed flags, big-endian
//! `u16`, and length-prefixed byte strings.
//!
//! Every reader takes the bytes received so far and either decodes a value,
//! reports that more bytes are needed, or rejects the input. It rejects as soon
//! as the bytes at hand decide it, in the order a reader of the stream meets
//! them, so feeding it byte by byte reproduces a streaming read.

use vstd::prelude::*;
use vstd::utf8::*;

verus! {

/// Why a reader could not produce a value.
#[derive(Debug, Clone, Copy, PartialEq, Eq, Structural)]
pub enum WireError {
    /// The input ends before the value does.
    Incomplete,
    /// A varint runs over 19 bytes, the most a 128-bit value may take.
    VarintTooLong,
    /// A byte of packed flags sets bits beyond the flags.
    InvalidBools(u8),
    /// A string is not valid UTF-8.
    InvalidUtf8,
}

/// `usize::MAX + 1`: decoded lengths are taken modulo this.
pub open spec fn usize_modulus() -> int {
    usize::MAX as int + 1
}

/// `128` to the power `n`.
pub open spec fn pow128(n: nat) -> nat
    decreases n,
{
    if n == 0 {
        1
    } else {
        128 * pow128((n - 1) as nat)
    }
}

/// The number that varint bytes stand for: the low seven bits of each byte,
/// least significant group first.
pub open spec fn varint_value(s: Seq<u8>) -> nat
    decreases s.len(),
{
    if s.len() == 0 {
        0
    } else {
        (s[0] % 128) as nat + 128 * varint_value(s.drop_first())
    }
}

/// The varint encoding of `v`: seven bits per byte, least significant group
/// first, the high bit set on every byte but the last.
pub open spec fn varint_bytes(v: nat) -> Seq<u8>
    decreases v,
{
    if v < 128 {
        seq![v as u8]
    } else {
        seq![(v % 128 + 128) as u8] + varint_bytes(v / 128)
    }
}

/// The index of the first byte of `s` that is below 128, if there is one.
pub open spec fn first_stop(s: Seq<u8>) -> Option<nat>
    decreases s.len(),
{
    if s.len() == 0 {
        None
    } else if s[0] < 128 {
        Some(0)
    } else {
        match first_stop(s.drop_first()) {
            Some(k) => Some(k + 1),
            None => None,
        }
    }
}

/// Reading a varint length from `s`: the value (modulo `usize::MAX + 1`) and the
/// number of bytes it takes. A value may take at most 19 bytes.
pub open spec fn spec_read_varint(s: Seq<u8>) -> Result<(usize, usize), WireError> {
    match first_stop(s) {
        Some(k) if k < 19 => Ok(
            ((varint_value(s.take((k + 1) as int)) as int % usize_modulus()) as usize, (k + 1) as usize),
        ),
        _ => if s.len() >= 19 {
            Err(WireError::VarintTooLong)
        } else {
            Err(WireError::Incomplete)
        },
    }
}

/// The byte that packs two flags: bit 0 for the first, bit 1 for the second.
pub open spec fn bools2_byte(b: [bool; 2]) -> u8 {
    ((if b[0] {
        1int
    } else {
        0int
    }) + (if b[1] {
        2int
    } else {
        0int
    })) as u8
}

/// Reading two packed flags from `s`.
pub open spec fn spec_read_bools2(s: Seq<u8>) -> Result<([bool; 2], usize), WireError> {
    if s.len() == 0 {
        Err(WireError::Incomplete)
    } else if s[0] > 3 {
        Err(WireError::InvalidBools(s[0]))
    } else {
        Ok(([s[0] % 2 == 1, s[0] / 2 == 1], 1))
    }
}

/// The byte that packs three flags: bit 0 for the first, bit 1 for the second,
/// bit 2 for the third.
pub open spec fn bools3_byte(b: [bool; 3]) -> u8 {
    ((if b[0] {
        1int
    } else {
        0int
    }) + (if b[1] {
        2int
    } else {
        0int
    }) + (if b[2] {
        4int
    } else {
        0int
    })) as u8
}

/// Reading three packed flags from `s`.
pub open spec fn spec_read_bools3(s: Seq<u8>) -> Result<([bool; 3], usize), WireError> {
    if s.len() == 0 {
        Err(WireError::Incomplete)
    } else if s[0] > 7 {
        Err(WireError::InvalidBools(s[0]))
    } else {
        Ok(([s[0] % 2 == 1, (s[0] / 2) % 2 == 1, s[0] / 4 == 1], 1))
    }
}

/// The big-endian bytes of `v`.
pub open spec fn u16_be_bytes(v: u16) -> Seq<u8> {
    seq![(v / 256) as u8, (v % 256) as u8]
}

/// Reading a big-endian `u16` from `s`.
pub open spec fn spec_read_u16_be(s: Seq<u8>) -> Result<(u16, usize), WireError> {
    if s.len() < 2 {
        Err(WireError::Incomplete)
    } else {
        Ok(((s[0] as int * 256 + s[1] as int) as u16, 2))
    }
}

/// A byte string on the wire: its length as a varint, then its bytes.
pub open spec fn u8_vec_bytes(data: Seq<u8>) -> Seq<u8> {
    varint_bytes(data.len()) + data
}

/// Reading a length-prefixed byte string from `s`.
pub open spec fn spec_read_u8_vec(s: Seq<u8>) -> Result<(Seq<u8>, usize), WireError> {
    match spec_read_varint(s) {
        Err(e) => Err(e),
        Ok((len, n)) => if n + len <= s.len() {
            Ok((s.subrange(n as int, n + len), (n + len) as usize))
        } else {
            Err(WireError::Incomplete)
        },
    }
}

/// A string on the wire: its UTF-8 bytes, length-prefixed.
pub open spec fn string_bytes(s: Seq<char>) -> Seq<u8> {
    u8_vec_bytes(encode_utf8(s))
}

/// Reading a length-prefixed UTF-8 string from `s`.
pub open spec fn spec_read_string(s: Seq<u8>) -> Result<(Seq<char>, usize), WireError> {
    match spec_read_u8_vec(s) {
        Err(e) => Err(e),
        Ok((b, n)) => if valid_utf8(b) {
            Ok((decode_utf8(b), n))
        } else {
            Err(WireError::InvalidUtf8)
        },
    }
}

/// A decoded string, compared with the outcome of `spec_read_string`.
pub open spec fn string_read_matches(
    r: Result<(String, usize), WireError>,
    s: Result<(Seq<char>, usize), WireError>,
) -> bool {
    match (r, s) {
        (Ok((a, n)), Ok((b, m))) => a@ == b && n == m,
        (Err(e), Err(f)) => e == f,
        _ => false,
    }
}

// ----------------------------------------------------------------------------
// Lemmas
// ----------------------------------------------------------------------------

/// Appending a byte to varint bytes adds its low seven bits at the next place.
pub proof fn lemma_varint_value_push(s: Seq<u8>, x: u8)
    ensures
        varint_value(s.push(x)) == varint_value(s) + (x % 128) as nat * pow128(s.len()),
    decreases s.len(),
{
    let t = s.push(x);
    if s.len() == 0 {
        assert(t.drop_first() =~= Seq::<u8>::empty());
        assert(varint_value(Seq::<u8>::empty()) == 0);
        assert(t[0] == x);
        assert(pow128(0) == 1);
    } else {
        assert(t.drop_first() =~= s.drop_first().push(x));
        assert(t[0] == s[0]);
        lemma_varint_value_push(s.drop_first(), x);
        let a = varint_value(s.drop_first());
        let p = pow128((s.len() - 1) as nat);
        let l = (x % 128) as nat;
        assert(pow128(s.len()) == 128 * p);
        assert(varint_value(t) == (s[0] % 128) as nat + 128 * (a + l * p));
        assert(varint_value(s) == (s[0] % 128) as nat + 128 * a);
        assert(128 * (a + l * p) == 128 * a + l * (128 * p)) by (nonlinear_arith);
    }
}

/// The first byte below 128, found by a scan from the front.
pub proof fn lemma_first_stop_at(s: Seq<u8>, i: nat)
    requires
        i < s.len(),
        s[i as int] < 128,
        forall|j: int| 0 <= j < i ==> s[j] >= 128,
    ensures
        first_stop(s) == Some(i),
    decreases i,
{
    if i > 0 {
        lemma_first_stop_at(s.drop_first(), (i - 1) as nat);
    }
}

/// No byte below 128: no stop.
pub proof fn lemma_first_stop_none(s: Seq<u8>)
    requires
        forall|j: int| 0 <= j < s.len() ==> s[j] >= 128,
    ensures
        first_stop(s) is None,
    decreases s.len(),
{
    if s.len() > 0 {
        lemma_first_stop_none(s.drop_first());
    }
}

/// A stop at `k` means every earlier byte is at least 128.
pub proof fn lemma_first_stop_some(s: Seq<u8>)
    ensures
        first_stop(s) matches Some(k) ==> k < s.len() && s[k as int] < 128 && forall|j: int|
            0 <= j < k ==> s[j] >= 128,
    decreases s.len(),
{
    if s.len() > 0 && s[0] >= 128 {
        let t = s.drop_first();
        lemma_first_stop_some(t);
        if let Some(k) = first_stop(t) {
            assert(s[k + 1int] == t[k as int]);
            assert forall|j: int| 0 <= j < k + 1 implies s[j] >= 128 by {
                if j > 0 {
                    assert(s[j] == t[j - 1]);
                }
            }
        }
    }
}

/// The facts about the encoding of `v` that a reader needs: the stop byte is
/// the last, the bytes stand for `v`, and the length grows with `v`.
pub proof fn lemma_varint_bytes(v: nat, k: nat)
    ensures
        varint_bytes(v).len() >= 1,
        first_stop(varint_bytes(v)) == Some((varint_bytes(v).len() - 1) as nat),
        varint_value(varint_bytes(v)) == v,
        k >= 1 && v < pow128(k) ==> varint_bytes(v).len() <= k,
    decreases v,
{
    let e = varint_bytes(v);
    if v < 128 {
        assert(e.drop_first() =~= Seq::<u8>::empty());
        assert(varint_value(Seq::<u8>::empty()) == 0);
        assert(e[0] == v as u8);
        assert((v as u8) % 128 == v);
    } else {
        let rest = varint_bytes(v / 128);
        let kk: nat = if k > 1 {
            (k - 1) as nat
        } else {
            1
        };
        lemma_varint_bytes(v / 128, kk);
        assert(e.drop_first() =~= rest);
        assert(e[0] == (v % 128 + 128) as u8);
        assert(e[0] >= 128);
        assert(first_stop(e) == Some((e.len() - 1) as nat));
        assert((v % 128 + 128) as u8 % 128 == v % 128);
        vstd::arithmetic::div_mod::lemma_fundamental_div_mod(v as int, 128);
        assert(varint_value(e) == (v % 128) + 128 * (v / 128));
        if k >= 1 && v < pow128(k) {
            if k == 1 {
                assert(pow128(1) == 128 * pow128(0));
            } else {
                assert(pow128(k) == 128 * pow128(kk));
                assert(v / 128 < pow128(kk)) by (nonlinear_arith)
                    requires
                        v < 128 * pow128(kk),
                ;
            }
        }
    }
}

/// `128^18 = 2^126`, a multiple of `usize::MAX + 1`.
pub proof fn lemma_pow128_18()
    ensures
        pow128(18) == 0x4000_0000_0000_0000_0000_0000_0000_0000,
        pow128(18) as int % usize_modulus() == 0,
        pow128(10) > usize::MAX,
{
    reveal_with_fuel(pow128, 19);
    assert(pow128(18) == 0x4000_0000_0000_0000_0000_0000_0000_0000);
    assert(pow128(10) == 0x40_0000_0000_0000_0000);
    if usize::MAX == 0xffff_ffff {
        assert(0x4000_0000_0000_0000_0000_0000_0000_0000int % 0x1_0000_0000int == 0);
    } else {
        assert(usize::MAX == 0xffff_ffff_ffff_ffff);
        assert(0x4000_0000_0000_0000_0000_0000_0000_0000int % 0x1_0000_0000_0000_0000int == 0);
    }
}

/// Reading back the encoding of `v`, whatever follows it, gives `v` and the
/// length of the encoding.
pub proof fn lemma_read_varint_bytes(v: usize, rest: Seq<u8>)
    ensures
        spec_read_varint(varint_bytes(v as nat) + rest) == Ok::<(usize, usize), WireError>(
            (v, varint_bytes(v as nat).len() as usize),
        ),
        varint_bytes(v as nat).len() <= 10,
{
    let e = varint_bytes(v as nat);
    let s = e + rest;
    lemma_pow128_18();
    lemma_varint_bytes(v as nat, 10);
    lemma_first_stop_some(e);
    assert forall|j: int| 0 <= j < e.len() - 1 implies s[j] >= 128 by {}
    lemma_first_stop_at(s, (e.len() - 1) as nat);
    assert(s.take(e.len() as int) =~= e);
    assert(v < usize_modulus());
    vstd::arithmetic::div_mod::lemma_small_mod(v as nat, usize_modulus() as nat);
}

/// Reading back two packed flags gives them back.
pub proof fn lemma_read_bools2(b: [bool; 2], rest: Seq<u8>)
    ensures
        spec_read_bools2(seq![bools2_byte(b)] + rest) matches Ok((c, n)) && n == 1 && c =~= b,
{
    let s = seq![bools2_byte(b)] + rest;
    assert(s[0] == bools2_byte(b));
}

/// Reading back three packed flags gives them back.
pub proof fn lemma_read_bools3(b: [bool; 3], rest: Seq<u8>)
    ensures
        spec_read_bools3(seq![bools3_byte(b)] + rest) matches Ok((c, n)) && n == 1 && c =~= b,
{
    let s = seq![bools3_byte(b)] + rest;
    assert(s[0] == bools3_byte(b));
}

/// Reading back a big-endian `u16` gives it back.
pub proof fn lemma_read_u16_be(v: u16, rest: Seq<u8>)
    ensures
        spec_read_u16_be(u16_be_bytes(v) + rest) == Ok::<(u16, usize), WireError>((v, 2)),
{
    let s = u16_be_bytes(v) + rest;
    assert(s[0] == (v / 256) as u8 && s[1] == (v % 256) as u8);
}

/// Reading back a length-prefixed byte string gives it back.
pub proof fn lemma_read_u8_vec(data: Seq<u8>, rest: Seq<u8>)
    requires
        data.len() <= usize::MAX,
    ensures
        spec_read_u8_vec(u8_vec_bytes(data) + rest) == Ok::<(Seq<u8>, usize), WireError>(
            (data, u8_vec_bytes(data).len() as usize),
        ),
{
    let h = varint_bytes(data.len());
    let s = u8_vec_bytes(data) + rest;
    assert(s =~= h + (data + rest));
    lemma_read_varint_bytes(data.len() as usize, data + rest);
    assert(s.subrange(h.len() as int, (h.len() + data.len()) as int) =~= data);
}

/// Reading back a length-prefixed string gives it back.
pub proof fn lemma_read_string(c: Seq<char>, rest: Seq<u8>)
    requires
        encode_utf8(c).len() <= usize::MAX,
    ensures
        spec_read_string(string_bytes(c) + rest) == Ok::<(Seq<char>, usize), WireError>(
            (c, string_bytes(c).len() as usize),
        ),
{
    lemma_read_u8_vec(encode_utf8(c), rest);
    encode_utf8_valid_utf8(c);
    encode_utf8_decode_utf8(c);
}

/// No proper prefix of a byte string's encoding decides it: every one of them
/// reads as incomplete, as a byte string and as a string.
pub proof fn lemma_read_u8_vec_prefix(data: Seq<u8>, k: int)
    requires
        u8_vec_bytes(data).len() <= usize::MAX,
        0 <= k < u8_vec_bytes(data).len(),
    ensures
        spec_read_u8_vec(u8_vec_bytes(data).take(k)) == Err::<(Seq<u8>, usize), WireError>(
            WireError::Incomplete,
        ),
        spec_read_string(u8_vec_bytes(data).take(k)) == Err::<(Seq<char>, usize), WireError>(
            WireError::Incomplete,
        ),
{
    let len = data.len() as usize;
    let e = varint_bytes(len as nat);
    let s = e + data;
    let p = s.take(k);
    lemma_read_varint_bytes(len, Seq::empty());
    lemma_varint_bytes(len as nat, 10);
    lemma_first_stop_some(e);
    if k < e.len() {
        assert forall|j: int| 0 <= j < p.len() implies p[j] >= 128 by {
            assert(p[j] == e[j]);
        }
        lemma_first_stop_none(p);
    } else {
        let t = data.take(k - e.len());
        assert(p =~= e + t);
        lemma_read_varint_bytes(len, t);
    }
}

/// A stop found in `s` stays where it is when bytes are appended.
pub proof fn lemma_first_stop_extend(s: Seq<u8>, t: Seq<u8>)
    ensures
        first_stop(s) matches Some(k) ==> first_stop(s + t) == Some(k),
        first_stop(s) is None ==> first_stop(s + t) == match first_stop(t) {
            Some(k) => Some(k + s.len()),
            None => None::<nat>,
        },
    decreases s.len(),
{
    if s.len() > 0 {
        assert((s + t).drop_first() =~= s.drop_first() + t);
        assert((s + t)[0] == s[0]);
        lemma_first_stop_extend(s.drop_first(), t);
    } else {
        assert(s + t =~= t);
    }
}

/// Once the bytes at hand decide a varint (a value or an error), bytes that
/// follow do not change it.
pub proof fn lemma_read_varint_decided(s: Seq<u8>, t: Seq<u8>)
    ensures
        spec_read_varint(s) != Err::<(usize, usize), WireError>(WireError::Incomplete)
            ==> spec_read_varint(s + t) == spec_read_varint(s),
{
    lemma_first_stop_extend(s, t);
    lemma_first_stop_some(s);
    lemma_first_stop_some(s + t);
    if let Some(k) = first_stop(s) {
        assert((s + t).take(k + 1int) =~= s.take(k + 1int));
    }
}

/// Once the bytes at hand decide two packed flags, bytes that follow do not
/// change them.
pub proof fn lemma_read_bools2_decided(s: Seq<u8>, t: Seq<u8>)
    ensures
        spec_read_bools2(s) != Err::<([bool; 2], usize), WireError>(WireError::Incomplete)
            ==> spec_read_bools2(s + t) == spec_read_bools2(s),
{
    if s.len() > 0 {
        assert((s + t)[0] == s[0]);
    }
}

/// Once the bytes at hand decide three packed flags, bytes that follow do not
/// change them.
pub proof fn lemma_read_bools3_decided(s: Seq<u8>, t: Seq<u8>)
    ensures
        spec_read_bools3(s) != Err::<([bool; 3], usize), WireError>(WireError::Incomplete)
            ==> spec_read_bools3(s + t) == spec_read_bools3(s),
{
    if s.len() > 0 {
        assert((s + t)[0] == s[0]);
    }
}

/// Once the bytes at hand decide a big-endian `u16`, bytes that follow do not
/// change it.
pub proof fn lemma_read_u16_be_decided(s: Seq<u8>, t: Seq<u8>)
    ensures
        spec_read_u16_be(s) != Err::<(u16, usize), WireError>(WireError::Incomplete)
            ==> spec_read_u16_be(s + t) == spec_read_u16_be(s),
{
    if s.len() >= 2 {
        assert((s + t)[0] == s[0] && (s + t)[1] == s[1]);
    }
}

/// Once the bytes at hand decide a byte string, bytes that follow do not
/// change it.
pub proof fn lemma_read_u8_vec_decided(s: Seq<u8>, t: Seq<u8>)
    ensures
        spec_read_u8_vec(s) != Err::<(Seq<u8>, usize), WireError>(WireError::Incomplete)
            ==> spec_read_u8_vec(s + t) == spec_read_u8_vec(s),
{
    lemma_read_varint_decided(s, t);
    if let Ok((len, n)) = spec_read_varint(s) {
        if n + len <= s.len() {
            assert((s + t).subrange(n as int, n + len) =~= s.subrange(n as int, n + len));
        }
    }
}

/// A decoded byte string or string takes no more bytes than there are.
pub proof fn lemma_read_u8_vec_len(s: Seq<u8>)
    ensures
        spec_read_u8_vec(s) matches Ok((_, n)) ==> n <= s.len(),
        spec_read_string(s) matches Ok((_, n)) ==> n <= s.len(),
{
}

/// Once the bytes at hand decide a string, bytes that follow do not change it.
pub proof fn lemma_read_string_decided(s: Seq<u8>, t: Seq<u8>)
    ensures
        spec_read_string(s) != Err::<(Seq<char>, usize), WireError>(WireError::Incomplete)
            ==> spec_read_string(s + t) == spec_read_string(s),
{
    lemma_read_u8_vec_decided(s, t);
}

// ----------------------------------------------------------------------------
// Writers
// ----------------------------------------------------------------------------

/// Appends the varint encoding of `value`.
pub fn write_varint(out: &mut Vec<u8>, value: usize)
    ensures
        final(out)@ == old(out)@ + varint_bytes(value as nat),
{
    let mut v = value;
    while v >= 128
        invariant
            old(out)@ + varint_bytes(value as nat) == out@ + varint_bytes(v as nat),
        decreases v,
    {
        let ghost prev = out@;
        let byte: u8 = (v % 128) as u8 + 128;
        out.push(byte);
        assert(varint_bytes(v as nat) == seq![byte] + varint_bytes((v / 128) as nat));
        assert(prev + varint_bytes(v as nat) =~= out@ + varint_bytes((v / 128) as nat));
        v = v / 128;
    }
    out.push(v as u8);
    assert(varint_bytes(v as nat) == seq![v as u8]);
}

/// Appends the byte packing two flags.
pub fn write_bools_2(out: &mut Vec<u8>, bools: [bool; 2])
    ensures
        final(out)@ == old(out)@.push(bools2_byte(bools)),
{
    let mut b: u8 = 0;
    if bools[0] {
        b = b + 1;
    }
    if bools[1] {
        b = b + 2;
    }
    out.push(b);
}

/// Appends the byte packing three flags.
pub fn write_bools_3(out: &mut Vec<u8>, bools: [bool; 3])
    ensures
        final(out)@ == old(out)@.push(bools3_byte(bools)),
{
    let mut b: u8 = 0;
    if bools[0] {
        b = b + 1;
    }
    if bools[1] {
        b = b + 2;
    }
    if bools[2] {
        b = b + 4;
    }
    out.push(b);
}

/// Appends the big-endian bytes of `value`.
pub fn write_u16_raw_be(out: &mut Vec<u8>, value: u16)
    ensures
        final(out)@ == old(out)@ + u16_be_bytes(value),
{
    out.push((value / 256) as u8);
    out.push((value % 256) as u8);
    assert(out@ =~= old(out)@ + u16_be_bytes(value));
}

/// Appends bytes as they are.
pub fn write_more(out: &mut Vec<u8>, data: &[u8])
    ensures
        final(out)@ == old(out)@ + data@,
{
    let mut i: usize = 0;
    while i < data.len()
        invariant
            i <= data@.len(),
            out@ == old(out)@ + data@.take(i as int),
        decreases data@.len() - i,
    {
        out.push(data[i]);
        i = i + 1;
        assert(out@ =~= old(out)@ + data@.take(i as int));
    }
    assert(data@.take(i as int) =~= data@);
}

/// Appends a length-prefixed byte string.
pub fn write_u8_vec(out: &mut Vec<u8>, data: &[u8])
    ensures
        final(out)@ == old(out)@ + u8_vec_bytes(data@),
{
    write_varint(out, data.len());
    write_more(out, data);
    assert(out@ =~= old(out)@ + u8_vec_bytes(data@));
}

/// Appends a length-prefixed UTF-8 string.
pub fn write_string(out: &mut Vec<u8>, string: &str)
    ensures
        final(out)@ == old(out)@ + string_bytes(string@),
{
    write_u8_vec(out, string.as_bytes());
}

// ----------------------------------------------------------------------------
// Readers
// ----------------------------------------------------------------------------

/// Reads a varint length: its value modulo `usize::MAX + 1` and the number of
/// bytes it takes.
pub fn read_varint(input: &[u8]) -> (r: Result<(usize, usize), WireError>)
    ensures
        r == spec_read_varint(input@),
{
    let ghost s = input@;
    let modulus: u128 = usize::MAX as u128 + 1;
    let mut acc: u128 = 0;
    let mut scale: u128 = 1;
    let mut i: usize = 0;
    proof {
        lemma_pow128_18();
        assert(s.take(0) =~= Seq::<u8>::empty());
    }
    while i < input.len()
        invariant
            s == input@,
            modulus == usize_modulus(),
            i <= 18,
            i <= s.len(),
            forall|j: int| 0 <= j < i ==> s[j] >= 128,
            scale == pow128(i as nat),
            acc == varint_value(s.take(i as int)),
            pow128(18) == 0x4000_0000_0000_0000_0000_0000_0000_0000,
            pow128(18) as int % usize_modulus() == 0,
        decreases s.len() - i,
    {
        let b = input[i];
        proof {
            lemma_varint_value_push(s.take(i as int), b);
            assert(s.take(i as int).push(b) =~= s.take(i + 1));
            assert(pow128(i as nat) <= pow128(18)) by {
                lemma_pow128_mono(i as nat, 18);
            }
            assert(acc < pow128(i as nat)) by {
                lemma_varint_value_bound(s.take(i as int));
            }
        }
        let low: u128 = (b % 128) as u128;
        if b < 128 {
            proof {
                lemma_first_stop_at(s, i as nat);
            }
            if i < 18 {
                proof {
                    assert(pow128((i + 1) as nat) == 128 * pow128(i as nat));
                    assert(pow128((i + 1) as nat) <= pow128(18)) by {
                        lemma_pow128_mono((i + 1) as nat, 18);
                    }
                    assert(low * scale < 128 * scale) by (nonlinear_arith)
                        requires
                            low < 128,
                            scale > 0,
                    ;
                }
                let total = acc + low * scale;
                return Ok(((total % modulus) as usize, i + 1));
            } else {
                proof {
                    let m = usize_modulus();
                    let q = pow128(18) as int / m;
                    vstd::arithmetic::div_mod::lemma_fundamental_div_mod(pow128(18) as int, m);
                    assert(low * pow128(18) == m * (low * q)) by (nonlinear_arith)
                        requires
                            pow128(18) == m * q,
                    ;
                    vstd::arithmetic::div_mod::lemma_mod_multiples_vanish(
                        (low * q) as int,
                        acc as int,
                        m,
                    );
                }
                return Ok(((acc % modulus) as usize, i + 1));
            }
        }
        if i == 18 {
            proof {
                assert forall|j: int| 0 <= j < 19 implies s[j] >= 128 by {}
                if let Some(k) = first_stop(s) {
                    lemma_first_stop_some(s);
                }
            }
            return Err(WireError::VarintTooLong);
        }
        proof {
            assert(pow128((i + 1) as nat) == 128 * pow128(i as nat));
            assert(pow128((i + 1) as nat) <= pow128(18)) by {
                lemma_pow128_mono((i + 1) as nat, 18);
            }
            assert(low * scale < 128 * scale) by (nonlinear_arith)
                requires
                    low < 128,
                    scale > 0,
            ;
        }
        acc = acc + low * scale;
        scale = scale * 128;
        i = i + 1;
    }
    proof {
        lemma_first_stop_none(s);
    }
    Err(WireError::Incomplete)
}

/// `pow128` grows with its exponent.
pub proof fn lemma_pow128_mono(a: nat, b: nat)
    requires
        a <= b,
    ensures
        1 <= pow128(a) <= pow128(b),
    decreases b,
{
    if b > a {
        lemma_pow128_mono(a, (b - 1) as nat);
    } else if a > 0 {
        lemma_pow128_mono((a - 1) as nat, (a - 1) as nat);
    }
}

/// Varint bytes stand for less than `128` to the power of their number.
pub proof fn lemma_varint_value_bound(s: Seq<u8>)
    ensures
        varint_value(s) < pow128(s.len()),
    decreases s.len(),
{
    if s.len() > 0 {
        lemma_varint_value_bound(s.drop_first());
        let a = varint_value(s.drop_first());
        let p = pow128((s.len() - 1) as nat);
        let l = (s[0] % 128) as nat;
        assert(l + 128 * a < 128 * p) by (nonlinear_arith)
            requires
                a < p,
                l < 128,
        ;
    }
}

/// Reads two packed flags.
pub fn read_bools_2(input: &[u8]) -> (r: Result<([bool; 2], usize), WireError>)
    ensures
        r == spec_read_bools2(input@),
{
    if input.len() == 0 {
        return Err(WireError::Incomplete);
    }
    let b = input[0];
    if b > 3 {
        return Err(WireError::InvalidBools(b));
    }
    Ok(([b % 2 == 1, b / 2 == 1], 1))
}

/// Reads three packed flags.
pub fn read_bools_3(input: &[u8]) -> (r: Result<([bool; 3], usize), WireError>)
    ensures
        r == spec_read_bools3(input@),
{
    if input.len() == 0 {
        return Err(WireError::Incomplete);
    }
    let b = input[0];
    if b > 7 {
        return Err(WireError::InvalidBools(b));
    }
    Ok(([b % 2 == 1, (b / 2) % 2 == 1, b / 4 == 1], 1))
}

/// Reads a big-endian `u16`.
pub fn read_u16_raw_be(input: &[u8]) -> (r: Result<(u16, usize), WireError>)
    ensures
        r == spec_read_u16_be(input@),
{
    if input.len() < 2 {
        return Err(WireError::Incomplete);
    }
    let v: u16 = input[0] as u16 * 256 + input[1] as u16;
    Ok((v, 2))
}

/// Whether two byte strings are equal.
pub fn bytes_equal(a: &[u8], b: &[u8]) -> (r: bool)
    ensures
        r == (a@ == b@),
{
    if a.len() != b.len() {
        return false;
    }
    let mut i: usize = 0;
    while i < a.len()
        invariant
            a@.len() == b@.len(),
            i <= a@.len(),
            forall|j: int| 0 <= j < i ==> a@[j] == b@[j],
        decreases a@.len() - i,
    {
        if a[i] != b[i] {
            return false;
        }
        i = i + 1;
    }
    assert(a@ =~= b@);
    true
}

/// Whether a received string is the expected one.
pub fn string_is(received: &String, expected: &str) -> (r: bool)
    ensures
        r == (received@ == expected@),
{
    let a = received.as_str();
    let r = bytes_equal(a.as_bytes(), expected.as_bytes());
    proof {
        encode_utf8_decode_utf8(received@);
        encode_utf8_decode_utf8(expected@);
    }
    r
}

/// Copies the 12 bytes of `input` from `start` into an array (a nonce).
pub fn copy_array_12(input: &[u8], start: usize) -> (r: [u8; 12])
    requires
        start + 12 <= input@.len(),
    ensures
        r@ == input@.subrange(start as int, start + 12),
{
    let mut out: [u8; 12] = [0u8; 12];
    let mut i: usize = 0;
    while i < 12
        invariant
            i <= 12,
            start + 12 <= input@.len(),
            input@.len() == input.len(),
            forall|j: int| 0 <= j < i ==> out@[j] == input@[start + j],
        decreases 12 - i,
    {
        out[i] = input[start + i];
        i = i + 1;
    }
    assert(out@ =~= input@.subrange(start as int, start + 12));
    out
}

/// Copies the 32 bytes of `input` into an array (a key).
pub fn copy_array_32(input: &[u8]) -> (r: [u8; 32])
    requires
        input@.len() == 32,
    ensures
        r@ == input@,
{
    let mut out: [u8; 32] = [0u8; 32];
    let mut i: usize = 0;
    while i < 32
        invariant
            i <= 32,
            input@.len() == 32,
            forall|j: int| 0 <= j < i ==> out@[j] == input@[j],
        decreases 32 - i,
    {
        out[i] = input[i];
        i = i + 1;
    }
    assert(out@ =~= input@);
    out
}

/// Copies `input[start..end]` into a new vector.
pub fn copy_range(input: &[u8], start: usize, end: usize) -> (r: Vec<u8>)
    requires
        start <= end <= input@.len(),
    ensures
        r@ == input@.subrange(start as int, end as int),
{
    let mut out: Vec<u8> = Vec::new();
    let mut i = start;
    while i < end
        invariant
            start <= i <= end,
            end <= input@.len(),
            out@ == input@.subrange(start as int, i as int),
        decreases end - i,
    {
        out.push(input[i]);
        i = i + 1;
        assert(out@ =~= input@.subrange(start as int, i as int));
    }
    out
}

/// Reads a length-prefixed byte string.
pub fn read_u8_vec(input: &[u8]) -> (r: Result<(Vec<u8>, usize), WireError>)
    ensures
        match (r, spec_read_u8_vec(input@)) {
            (Ok((v, n)), Ok((w, m))) => v@ == w && n == m,
            (Err(e), Err(f)) => e == f,
            _ => false,
        },
{
    let (len, n) = match read_varint(input) {
        Ok(p) => p,
        Err(e) => return Err(e),
    };
    proof {
        lemma_first_stop_some(input@);
    }
    if len > input.len() - n {
        return Err(WireError::Incomplete);
    }
    let data = copy_range(input, n, n + len);
    Ok((data, n + len))
}

/// Makes a `String` from bytes if they are valid UTF-8.
///
/// Calls `String::from_utf8`; trusted to succeed exactly on valid UTF-8 and to
/// give the string those bytes encode.
#[verifier::external_body]
fn string_from_utf8(bytes: Vec<u8>) -> (r: Option<String>)
    ensures
        r is Some <==> valid_utf8(bytes@),
        r matches Some(s) ==> s@ == decode_utf8(bytes@),
{
    String::from_utf8(bytes).ok()
}

/// Reads a length-prefixed UTF-8 string.
pub fn read_string(input: &[u8]) -> (r: Result<(String, usize), WireError>)
    ensures
        string_read_matches(r, spec_read_string(input@)),
{
    let (bytes, n) = match read_u8_vec(input) {
        Ok(p) => p,
        Err(e) => return Err(e),
    };
    match string_from_utf8(bytes) {
        Some(s) => Ok((s, n)),
        None => Err(WireError::InvalidUtf8),
    }
}

} // verus!
