//! Binary encoding of the wire's primitive fields.
//!
//! Integers are little-endian and fixed-width. Strings are a varint length
//! (the count of UTF-8 bytes) followed by those bytes. A varint below 251 is a
//! single byte; otherwise a tag byte (251, 252 or 253) announces a 2-, 4- or
//! 8-byte little-endian value.
use vstd::prelude::*;
use vstd::utf8::*;

verus! {


/// Largest string length, in bytes, that the decoder accepts (16 MiB).
pub const MAX_STRING_LEN: u64 = 16777216;

/// Why a sequence of bytes could not be decoded.
#[derive(Debug, Clone, Copy, PartialEq, Eq, Structural)]
pub enum CodecError {
    /// The bytes end before the value does.
    UnexpectedEnd,
    /// A varint starts with a tag byte that no length form uses.
    InvalidTag,
    /// A string's length prefix is above `MAX_STRING_LEN`.
    LimitExceeded,
    /// A string's bytes are not valid UTF-8.
    InvalidUtf8,
}

pub open spec fn spec_u16_le(v: u16) -> Seq<u8> {
    seq![v as u8, (v >> 8u16) as u8]
}

pub open spec fn spec_u32_le(v: u32) -> Seq<u8> {
    seq![v as u8, (v >> 8u32) as u8, (v >> 16u32) as u8, (v >> 24u32) as u8]
}

pub open spec fn spec_u64_le(v: u64) -> Seq<u8> {
    seq![
        v as u8, (v >> 8u64) as u8, (v >> 16u64) as u8, (v >> 24u64) as u8,
        (v >> 32u64) as u8, (v >> 40u64) as u8, (v >> 48u64) as u8, (v >> 56u64) as u8,
    ]
}

pub open spec fn spec_u16_of(b0: u8, b1: u8) -> u16 {
    (b0 as u16) | ((b1 as u16) << 8u16)
}

pub open spec fn spec_u32_of(b0: u8, b1: u8, b2: u8, b3: u8) -> u32 {
    (b0 as u32) | ((b1 as u32) << 8u32) | ((b2 as u32) << 16u32) | ((b3 as u32) << 24u32)
}

pub open spec fn spec_u64_of(s: Seq<u8>) -> u64
    recommends
        s.len() >= 8,
{
    (s[0] as u64) | ((s[1] as u64) << 8u64) | ((s[2] as u64) << 16u64) | ((s[3] as u64)
        << 24u64) | ((s[4] as u64) << 32u64) | ((s[5] as u64) << 40u64) | ((s[6] as u64)
        << 48u64) | ((s[7] as u64) << 56u64)
}

/// The varint form of `v`: the shortest of the four forms that holds it.
pub open spec fn spec_varint(v: u64) -> Seq<u8> {
    if v < 251 {
        seq![v as u8]
    } else if v <= 0xffff {
        seq![251u8] + spec_u16_le(v as u16)
    } else if v <= 0xffff_ffff {
        seq![252u8] + spec_u32_le(v as u32)
    } else {
        seq![253u8] + spec_u64_le(v)
    }
}

/// The string form: varint byte count, then the UTF-8 bytes.
pub open spec fn spec_str(s: Seq<char>) -> Seq<u8> {
    spec_varint(encode_utf8(s).len() as u64) + encode_utf8(s)
}

/// Reading a `u16` from the front of `b`: the value and the bytes it took.
#[verifier::opaque]
pub open spec fn spec_read_u16(b: Seq<u8>) -> Result<(u16, nat), CodecError> {
    if b.len() < 2 {
        Err(CodecError::UnexpectedEnd)
    } else {
        Ok((spec_u16_of(b[0], b[1]), 2))
    }
}

#[verifier::opaque]
pub open spec fn spec_read_u32(b: Seq<u8>) -> Result<(u32, nat), CodecError> {
    if b.len() < 4 {
        Err(CodecError::UnexpectedEnd)
    } else {
        Ok((spec_u32_of(b[0], b[1], b[2], b[3]), 4))
    }
}

#[verifier::opaque]
pub open spec fn spec_read_varint(b: Seq<u8>) -> Result<(u64, nat), CodecError> {
    if b.len() < 1 {
        Err(CodecError::UnexpectedEnd)
    } else if b[0] < 251 {
        Ok((b[0] as u64, 1))
    } else if b[0] == 251 {
        if b.len() < 3 {
            Err(CodecError::UnexpectedEnd)
        } else {
            Ok((spec_u16_of(b[1], b[2]) as u64, 3))
        }
    } else if b[0] == 252 {
        if b.len() < 5 {
            Err(CodecError::UnexpectedEnd)
        } else {
            Ok((spec_u32_of(b[1], b[2], b[3], b[4]) as u64, 5))
        }
    } else if b[0] == 253 {
        if b.len() < 9 {
            Err(CodecError::UnexpectedEnd)
        } else {
            Ok((spec_u64_of(b.subrange(1, 9)), 9))
        }
    } else {
        Err(CodecError::InvalidTag)
    }
}

/// Reading a string from the front of `b`: its characters and the bytes it took.
#[verifier::opaque]
pub open spec fn spec_read_str(b: Seq<u8>) -> Result<(Seq<char>, nat), CodecError> {
    match spec_read_varint(b) {
        Err(e) => Err(e),
        Ok((len, n)) => if len > MAX_STRING_LEN {
            Err(CodecError::LimitExceeded)
        } else if b.len() < n + len {
            Err(CodecError::UnexpectedEnd)
        } else if !valid_utf8(b.subrange(n as int, n + len)) {
            Err(CodecError::InvalidUtf8)
        } else {
            Ok((decode_utf8(b.subrange(n as int, n + len)), (n + len) as nat))
        },
    }
}

/// A string fits the wire when its UTF-8 form is at most `MAX_STRING_LEN` bytes.
pub open spec fn str_fits(s: Seq<char>) -> bool {
    encode_utf8(s).len() <= MAX_STRING_LEN
}

/// `r` is what reading at `pos` gives when reading the bytes from `pos` on
/// gives `s`: the same value and the position after it, or the same error.
pub open spec fn reads_as<T>(
    r: Result<(T, usize), CodecError>,
    s: Result<(T, nat), CodecError>,
    pos: usize,
) -> bool {
    match s {
        Ok((v, n)) => r matches Ok((w, p)) && w == v && p == pos + n,
        Err(e) => r == Err::<(T, usize), CodecError>(e),
    }
}

pub proof fn lemma_u16_round_trip(v: u16)
    ensures
        spec_u16_of(v as u8, (v >> 8u16) as u8) == v,
{
    assert((v as u8) as u16 | (((v >> 8u16) as u8) as u16) << 8u16 == v) by (bit_vector);
}

pub proof fn lemma_u32_round_trip(v: u32)
    ensures
        spec_u32_of(v as u8, (v >> 8u32) as u8, (v >> 16u32) as u8, (v >> 24u32) as u8) == v,
{
    assert((v as u8) as u32 | (((v >> 8u32) as u8) as u32) << 8u32 | (((v >> 16u32) as u8) as u32)
        << 16u32 | (((v >> 24u32) as u8) as u32) << 24u32 == v) by (bit_vector);
}

pub proof fn lemma_u64_round_trip(v: u64)
    ensures
        spec_u64_of(spec_u64_le(v)) == v,
{
    assert((v as u8) as u64 | (((v >> 8u64) as u8) as u64) << 8u64 | (((v >> 16u64) as u8) as u64)
        << 16u64 | (((v >> 24u64) as u8) as u64) << 24u64 | (((v >> 32u64) as u8) as u64)
        << 32u64 | (((v >> 40u64) as u8) as u64) << 40u64 | (((v >> 48u64) as u8) as u64)
        << 48u64 | (((v >> 56u64) as u8) as u64) << 56u64 == v) by (bit_vector);
}

/// Reading a `u16` back from its encoding, whatever follows it.
pub proof fn lemma_read_u16(v: u16, rest: Seq<u8>)
    ensures
        spec_read_u16(spec_u16_le(v) + rest) == Ok::<(u16, nat), CodecError>((v, 2)),
{
    reveal(spec_read_u16);
    lemma_u16_round_trip(v);
}

/// Reading a `u32` back from its encoding, whatever follows it.
pub proof fn lemma_read_u32(v: u32, rest: Seq<u8>)
    ensures
        spec_read_u32(spec_u32_le(v) + rest) == Ok::<(u32, nat), CodecError>((v, 4)),
{
    reveal(spec_read_u32);
    lemma_u32_round_trip(v);
}

/// Reading a varint back from its encoding, whatever follows it.
pub proof fn lemma_read_varint(v: u64, rest: Seq<u8>)
    ensures
        spec_read_varint(spec_varint(v) + rest) == Ok::<(u64, nat), CodecError>(
            (v, spec_varint(v).len()),
        ),
{
    reveal(spec_read_varint);
    let b = spec_varint(v) + rest;
    if v < 251 {
        assert(b[0] == v as u8);
        assert((v as u8) as u64 == v) by (bit_vector)
            requires
                v < 251,
        ;
    } else if v <= 0xffff {
        lemma_u16_round_trip(v as u16);
        assert(b[1] == (v as u16) as u8 && b[2] == ((v as u16) >> 8u16) as u8);
        assert((v as u16) as u64 == v) by (bit_vector)
            requires
                v <= 0xffff,
        ;
    } else if v <= 0xffff_ffff {
        lemma_u32_round_trip(v as u32);
        assert((v as u32) as u64 == v) by (bit_vector)
            requires
                v <= 0xffff_ffff,
        ;
    } else {
        lemma_u64_round_trip(v);
        assert(b.subrange(1, 9) =~= spec_u64_le(v));
    }
}

/// Reading a string back from its encoding, whatever follows it.
pub proof fn lemma_read_str(s: Seq<char>, rest: Seq<u8>)
    requires
        str_fits(s),
    ensures
        spec_read_str(spec_str(s) + rest) == Ok::<(Seq<char>, nat), CodecError>(
            (s, spec_str(s).len()),
        ),
{
    let bytes = encode_utf8(s);
    let len = bytes.len() as u64;
    let b = spec_str(s) + rest;
    let pre = spec_varint(len);
    assert(b =~= pre + (bytes + rest));
    reveal(spec_read_str);
    lemma_read_varint(len, bytes + rest);
    assert(b.subrange(pre.len() as int, pre.len() + len) =~= bytes);
    vstd::utf8::encode_utf8_valid_utf8(s);
    vstd::utf8::encode_utf8_decode_utf8(s);
}

/// Appends the two little-endian bytes of `v`.
pub fn write_u16(out: &mut Vec<u8>, v: u16)
    ensures
        final(out)@ == old(out)@ + spec_u16_le(v),
{
    out.push(v as u8);
    out.push((v >> 8) as u8);
    assert(final(out)@ =~= old(out)@ + spec_u16_le(v));
}

/// Appends the four little-endian bytes of `v`.
pub fn write_u32(out: &mut Vec<u8>, v: u32)
    ensures
        final(out)@ == old(out)@ + spec_u32_le(v),
{
    out.push(v as u8);
    out.push((v >> 8) as u8);
    out.push((v >> 16) as u8);
    out.push((v >> 24) as u8);
    assert(final(out)@ =~= old(out)@ + spec_u32_le(v));
}

/// Appends the varint form of `v`.
pub fn write_varint(out: &mut Vec<u8>, v: u64)
    ensures
        final(out)@ == old(out)@ + spec_varint(v),
{
    if v < 251 {
        out.push(v as u8);
    } else if v <= 0xffff {
        out.push(251u8);
        write_u16(out, v as u16);
    } else if v <= 0xffff_ffff {
        out.push(252u8);
        write_u32(out, v as u32);
    } else {
        out.push(253u8);
        out.push(v as u8);
        out.push((v >> 8) as u8);
        out.push((v >> 16) as u8);
        out.push((v >> 24) as u8);
        out.push((v >> 32) as u8);
        out.push((v >> 40) as u8);
        out.push((v >> 48) as u8);
        out.push((v >> 56) as u8);
    }
    assert(final(out)@ =~= old(out)@ + spec_varint(v));
}

/// Appends the string form of `s`.
pub fn write_str(out: &mut Vec<u8>, s: &str)
    ensures
        final(out)@ == old(out)@ + spec_str(s@),
{
    let bytes = s.as_bytes();
    write_varint(out, bytes.len() as u64);
    let ghost mid = out@;
    let mut i: usize = 0;
    while i < bytes.len()
        invariant
            i <= bytes@.len(),
            bytes@ == encode_utf8(s@),
            out@ == mid + bytes@.subrange(0, i as int),
        decreases bytes@.len() - i,
    {
        out.push(bytes[i]);
        i = i + 1;
        assert(out@ =~= mid + bytes@.subrange(0, i as int));
    }
    assert(bytes@.subrange(0, bytes@.len() as int) =~= bytes@);
}

/// Reads a `u16` at `pos`; on success returns it with the position after it.
pub fn read_u16(b: &[u8], pos: usize) -> (r: Result<(u16, usize), CodecError>)
    requires
        pos <= b@.len(),
    ensures
        reads_as(r, spec_read_u16(b@.subrange(pos as int, b@.len() as int)), pos),
        r matches Ok((_, p)) ==> p == pos + 2 && p <= b@.len(),
{
    reveal(spec_read_u16);
    if b.len() - pos < 2 {
        Err(CodecError::UnexpectedEnd)
    } else {
        let v = (b[pos] as u16) | ((b[pos + 1] as u16) << 8);
        Ok((v, pos + 2))
    }
}

/// Reads a `u32` at `pos`; on success returns it with the position after it.
pub fn read_u32(b: &[u8], pos: usize) -> (r: Result<(u32, usize), CodecError>)
    requires
        pos <= b@.len(),
    ensures
        reads_as(r, spec_read_u32(b@.subrange(pos as int, b@.len() as int)), pos),
        r matches Ok((_, p)) ==> p == pos + 4 && p <= b@.len(),
{
    reveal(spec_read_u32);
    if b.len() - pos < 4 {
        Err(CodecError::UnexpectedEnd)
    } else {
        let v = (b[pos] as u32) | ((b[pos + 1] as u32) << 8) | ((b[pos + 2] as u32) << 16) | ((
        b[pos + 3] as u32) << 24);
        Ok((v, pos + 4))
    }
}

/// Reads a varint at `pos`; on success returns it with the position after it.
pub fn read_varint(b: &[u8], pos: usize) -> (r: Result<(u64, usize), CodecError>)
    requires
        pos <= b@.len(),
    ensures
        reads_as(r, spec_read_varint(b@.subrange(pos as int, b@.len() as int)), pos),
        r matches Ok((_, p)) ==> pos < p <= b@.len(),
{
    reveal(spec_read_varint);
    let ghost s = b@.subrange(pos as int, b@.len() as int);
    let avail = b.len() - pos;
    if avail < 1 {
        return Err(CodecError::UnexpectedEnd);
    }
    let tag = b[pos];
    if tag < 251 {
        Ok((tag as u64, pos + 1))
    } else if tag == 251 {
        if avail < 3 {
            Err(CodecError::UnexpectedEnd)
        } else {
            let v = (b[pos + 1] as u16) | ((b[pos + 2] as u16) << 8);
            Ok((v as u64, pos + 3))
        }
    } else if tag == 252 {
        if avail < 5 {
            Err(CodecError::UnexpectedEnd)
        } else {
            let v = (b[pos + 1] as u32) | ((b[pos + 2] as u32) << 8) | ((b[pos + 3] as u32) << 16)
                | ((b[pos + 4] as u32) << 24);
            Ok((v as u64, pos + 5))
        }
    } else if tag == 253 {
        if avail < 9 {
            Err(CodecError::UnexpectedEnd)
        } else {
            let v = (b[pos + 1] as u64) | ((b[pos + 2] as u64) << 8) | ((b[pos + 3] as u64) << 16)
                | ((b[pos + 4] as u64) << 24) | ((b[pos + 5] as u64) << 32) | ((b[pos + 6] as u64)
                << 40) | ((b[pos + 7] as u64) << 48) | ((b[pos + 8] as u64) << 56);
            assert(s.subrange(1, 9)[0] == b[pos + 1]);
            Ok((v, pos + 9))
        }
    } else {
        Err(CodecError::InvalidTag)
    }
}

/// Relies on `String::from_utf8`: it fails exactly on bytes that are not
/// valid UTF-8, and otherwise the string holds those same bytes.
#[verifier::external_body]
fn string_from_utf8(v: Vec<u8>) -> (r: Option<String>)
    ensures
        r is Some <==> valid_utf8(v@),
        r matches Some(s) ==> encode_utf8(s@) == v@,
{
    String::from_utf8(v).ok()
}

/// Reads a string at `pos`; on success returns it with the position after it.
pub fn read_str(b: &[u8], pos: usize) -> (r: Result<(String, usize), CodecError>)
    requires
        pos <= b@.len(),
    ensures
        match spec_read_str(b@.subrange(pos as int, b@.len() as int)) {
            Ok((s, n)) => r matches Ok((t, p)) && t@ == s && p == pos + n,
            Err(e) => r == Err::<(String, usize), CodecError>(e),
        },
        r matches Ok((_, p)) ==> pos < p <= b@.len(),
{
    reveal(spec_read_str);
    let ghost s = b@.subrange(pos as int, b@.len() as int);
    let (len, p) = match read_varint(b, pos) {
        Ok(x) => x,
        Err(e) => return Err(e),
    };
    if len > MAX_STRING_LEN {
        return Err(CodecError::LimitExceeded);
    }
    if ((b.len() - p) as u64) < len {
        return Err(CodecError::UnexpectedEnd);
    }
    let end = p + len as usize;
    let mut v: Vec<u8> = Vec::new();
    let mut i: usize = p;
    while i < end
        invariant
            p <= i <= end <= b@.len(),
            v@ == b@.subrange(p as int, i as int),
        decreases end - i,
    {
        v.push(b[i]);
        i = i + 1;
        assert(v@ =~= b@.subrange(p as int, i as int));
    }
    let ghost n = (p - pos) as nat;
    assert(s.subrange(n as int, n + len) =~= v@);
    match string_from_utf8(v) {
        Some(t) => {
            proof {
                vstd::utf8::encode_utf8_decode_utf8(t@);
            }
            Ok((t, end))
        },
        None => Err(CodecError::InvalidUtf8),
    }
}

} // verus!
