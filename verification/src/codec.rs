//! Binary primitives of the wire format: little-endian unsigned fields,
//! sign-and-magnitude signed fields, and length-prefixed byte strings.
//!
//! Every primitive has a specification-level encoder, a specification-level
//! decoder that consumes a prefix of a byte sequence and yields the value
//! with the remainder, and a proved round-trip lemma; the executable
//! readers and writers are contracted against those.

use vstd::prelude::*;

verus! {

/// A blob failed to decode: it is discarded and processing continues.
#[derive(Clone, Copy, Debug, PartialEq, Eq, Structural)]
pub struct DecodeError;

/// Concatenation of byte sequences is associative.
pub proof fn lemma_seq_add_assoc(a: Seq<u8>, b: Seq<u8>, c: Seq<u8>)
    ensures
        (a + b) + c == a + (b + c),
{
    assert((a + b) + c =~= a + (b + c));
}

// ---------------------------------------------------------------- u8

/// One byte.
pub open spec fn enc_u8(x: u8) -> Seq<u8> {
    seq![x]
}

/// Read one byte from the front.
pub open spec fn dec_u8(s: Seq<u8>) -> Option<(u8, Seq<u8>)> {
    if s.len() < 1 {
        None
    } else {
        Some((s[0], s.skip(1)))
    }
}

pub fn write_u8(out: &mut Vec<u8>, x: u8)
    ensures
        final(out)@ == old(out)@ + enc_u8(x),
{
    out.push(x);
    proof {
        assert(final(out)@ =~= old(out)@ + enc_u8(x));
    }
}

pub fn read_u8(bytes: &Vec<u8>, pos: &mut usize) -> (r: Result<u8, DecodeError>)
    requires
        *old(pos) <= bytes@.len(),
    ensures
        *old(pos) <= *final(pos) <= bytes@.len(),
        match r {
            Ok(v) => dec_u8(bytes@.skip(*old(pos) as int)) == Some(
                (v, bytes@.skip(*final(pos) as int)),
            ),
            Err(_) => dec_u8(bytes@.skip(*old(pos) as int)) is None && *final(pos) == *old(
                pos,
            ),
        },
{
    if bytes.len() - *pos < 1 {
        return Err(DecodeError);
    }
    let b0 = bytes[*pos];
    *pos = *pos + 1;
    proof {
        let t = bytes@.skip((*old(pos)) as int);
        assert(t[0] == b0);
        assert(t.skip(1) =~= bytes@.skip((*final(pos)) as int));
    }
    Ok(b0)
}

// ---------------------------------------------------------------- u16

/// Two bytes, little endian.
pub open spec fn enc_u16(x: u16) -> Seq<u8> {
    seq![(x % 256) as u8, (x / 256) as u8]
}

/// Read two little-endian bytes from the front.
pub open spec fn dec_u16(s: Seq<u8>) -> Option<(u16, Seq<u8>)> {
    if s.len() < 2 {
        None
    } else {
        Some((((s[0] + 256 * s[1]) as u16), s.skip(2)))
    }
}

pub proof fn lemma_u16_round_trip(x: u16, rest: Seq<u8>)
    ensures
        dec_u16(enc_u16(x) + rest) == Some((x, rest)),
{
    let s = enc_u16(x) + rest;
    assert(x % 256 + 256 * (x / 256) == x) by (bit_vector);
    assert(s.skip(2) =~= rest);
}

pub fn write_u16(out: &mut Vec<u8>, x: u16)
    ensures
        final(out)@ == old(out)@ + enc_u16(x),
{
    out.push((x % 256) as u8);
    out.push((x / 256) as u8);
    proof {
        assert(final(out)@ =~= old(out)@ + enc_u16(x));
    }
}

pub fn read_u16(bytes: &Vec<u8>, pos: &mut usize) -> (r: Result<u16, DecodeError>)
    requires
        *old(pos) <= bytes@.len(),
    ensures
        *old(pos) <= *final(pos) <= bytes@.len(),
        match r {
            Ok(v) => dec_u16(bytes@.skip(*old(pos) as int)) == Some(
                (v, bytes@.skip(*final(pos) as int)),
            ),
            Err(_) => dec_u16(bytes@.skip(*old(pos) as int)) is None && *final(pos) == *old(
                pos,
            ),
        },
{
    if bytes.len() - *pos < 2 {
        return Err(DecodeError);
    }
    let b0 = bytes[*pos];
    let b1 = bytes[*pos + 1];
    *pos = *pos + 2;
    proof {
        let t = bytes@.skip((*old(pos)) as int);
        assert(t[0] == b0 && t[1] == b1);
        assert(t.skip(2) =~= bytes@.skip((*final(pos)) as int));
    }
    Ok(b0 as u16 + 256 * (b1 as u16))
}

// ---------------------------------------------------------------- u32

/// Four bytes, little endian.
pub open spec fn enc_u32(x: u32) -> Seq<u8> {
    seq![
        (x % 256) as u8,
        ((x / 256) % 256) as u8,
        ((x / 65536) % 256) as u8,
        (x / 16777216) as u8,
    ]
}

/// Read four little-endian bytes from the front.
pub open spec fn dec_u32(s: Seq<u8>) -> Option<(u32, Seq<u8>)> {
    if s.len() < 4 {
        None
    } else {
        Some(
            (
                ((s[0] + 256 * s[1] + 65536 * s[2] + 16777216 * s[3]) as u32),
                s.skip(4),
            ),
        )
    }
}

pub proof fn lemma_u32_round_trip(x: u32, rest: Seq<u8>)
    ensures
        dec_u32(enc_u32(x) + rest) == Some((x, rest)),
{
    let s = enc_u32(x) + rest;
    assert(x % 256 + 256 * ((x / 256) % 256) + 65536 * ((x / 65536) % 256) + 16777216 * (x
        / 16777216) == x) by (bit_vector);
    assert(s.skip(4) =~= rest);
}

pub fn write_u32(out: &mut Vec<u8>, x: u32)
    ensures
        final(out)@ == old(out)@ + enc_u32(x),
{
    out.push((x % 256) as u8);
    out.push(((x / 256) % 256) as u8);
    out.push(((x / 65536) % 256) as u8);
    out.push((x / 16777216) as u8);
    proof {
        assert(final(out)@ =~= old(out)@ + enc_u32(x));
    }
}

pub fn read_u32(bytes: &Vec<u8>, pos: &mut usize) -> (r: Result<u32, DecodeError>)
    requires
        *old(pos) <= bytes@.len(),
    ensures
        *old(pos) <= *final(pos) <= bytes@.len(),
        match r {
            Ok(v) => dec_u32(bytes@.skip(*old(pos) as int)) == Some(
                (v, bytes@.skip(*final(pos) as int)),
            ),
            Err(_) => dec_u32(bytes@.skip(*old(pos) as int)) is None && *final(pos) == *old(
                pos,
            ),
        },
{
    if bytes.len() - *pos < 4 {
        return Err(DecodeError);
    }
    let b0 = bytes[*pos];
    let b1 = bytes[*pos + 1];
    let b2 = bytes[*pos + 2];
    let b3 = bytes[*pos + 3];
    *pos = *pos + 4;
    proof {
        let t = bytes@.skip((*old(pos)) as int);
        assert(t[0] == b0 && t[1] == b1 && t[2] == b2 && t[3] == b3);
        assert(t.skip(4) =~= bytes@.skip((*final(pos)) as int));
    }
    Ok(b0 as u32 + 256 * (b1 as u32) + 65536 * (b2 as u32) + 16777216 * (b3 as u32))
}

// ---------------------------------------------------------------- u64

/// Eight bytes, little endian.
pub open spec fn enc_u64(x: u64) -> Seq<u8> {
    seq![
        (x % 256) as u8,
        ((x / 256) % 256) as u8,
        ((x / 65536) % 256) as u8,
        ((x / 16777216) % 256) as u8,
        ((x / 4294967296) % 256) as u8,
        ((x / 1099511627776) % 256) as u8,
        ((x / 281474976710656) % 256) as u8,
        (x / 72057594037927936) as u8,
    ]
}

/// Read eight little-endian bytes from the front.
pub open spec fn dec_u64(s: Seq<u8>) -> Option<(u64, Seq<u8>)> {
    if s.len() < 8 {
        None
    } else {
        Some(
            (
                ((s[0] + 256 * s[1] + 65536 * s[2] + 16777216 * s[3] + 4294967296 * s[4]
                    + 1099511627776 * s[5] + 281474976710656 * s[6] + 72057594037927936
                    * s[7]) as u64),
                s.skip(8),
            ),
        )
    }
}

pub proof fn lemma_u64_round_trip(x: u64, rest: Seq<u8>)
    ensures
        dec_u64(enc_u64(x) + rest) == Some((x, rest)),
{
    let s = enc_u64(x) + rest;
    assert(x % 256 + 256 * ((x / 256) % 256) + 65536 * ((x / 65536) % 256) + 16777216 * ((x
        / 16777216) % 256) + 4294967296 * ((x / 4294967296) % 256) + 1099511627776 * ((x
        / 1099511627776) % 256) + 281474976710656 * ((x / 281474976710656) % 256)
        + 72057594037927936 * (x / 72057594037927936) == x) by (bit_vector);
    assert(s.skip(8) =~= rest);
}

pub fn write_u64(out: &mut Vec<u8>, x: u64)
    ensures
        final(out)@ == old(out)@ + enc_u64(x),
{
    out.push((x % 256) as u8);
    out.push(((x / 256) % 256) as u8);
    out.push(((x / 65536) % 256) as u8);
    out.push(((x / 16777216) % 256) as u8);
    out.push(((x / 4294967296) % 256) as u8);
    out.push(((x / 1099511627776) % 256) as u8);
    out.push(((x / 281474976710656) % 256) as u8);
    out.push((x / 72057594037927936) as u8);
    proof {
        assert(final(out)@ =~= old(out)@ + enc_u64(x));
    }
}

pub fn read_u64(bytes: &Vec<u8>, pos: &mut usize) -> (r: Result<u64, DecodeError>)
    requires
        *old(pos) <= bytes@.len(),
    ensures
        *old(pos) <= *final(pos) <= bytes@.len(),
        match r {
            Ok(v) => dec_u64(bytes@.skip(*old(pos) as int)) == Some(
                (v, bytes@.skip(*final(pos) as int)),
            ),
            Err(_) => dec_u64(bytes@.skip(*old(pos) as int)) is None && *final(pos) == *old(
                pos,
            ),
        },
{
    if bytes.len() - *pos < 8 {
        return Err(DecodeError);
    }
    let b0 = bytes[*pos];
    let b1 = bytes[*pos + 1];
    let b2 = bytes[*pos + 2];
    let b3 = bytes[*pos + 3];
    let b4 = bytes[*pos + 4];
    let b5 = bytes[*pos + 5];
    let b6 = bytes[*pos + 6];
    let b7 = bytes[*pos + 7];
    *pos = *pos + 8;
    proof {
        let t = bytes@.skip((*old(pos)) as int);
        assert(t[0] == b0 && t[1] == b1 && t[2] == b2 && t[3] == b3 && t[4] == b4 && t[5]
            == b5 && t[6] == b6 && t[7] == b7);
        assert(t.skip(8) =~= bytes@.skip((*final(pos)) as int));
    }
    Ok(
        b0 as u64 + 256 * (b1 as u64) + 65536 * (b2 as u64) + 16777216 * (b3 as u64)
            + 4294967296 * (b4 as u64) + 1099511627776 * (b5 as u64) + 281474976710656 * (
        b6 as u64) + 72057594037927936 * (b7 as u64),
    )
}

// ---------------------------------------------------------------- i64

/// Magnitude of a signed value as an unsigned one; the most negative
/// value maps to two to the sixty-third.
pub open spec fn spec_magnitude(x: i64) -> u64 {
    if x >= 0 {
        x as u64
    } else {
        (-(x as int)) as u64
    }
}

/// A sign byte, zero for nonnegative, then the magnitude little endian.
pub open spec fn enc_i64(x: i64) -> Seq<u8> {
    seq![if x >= 0 { 0u8 } else { 1u8 }] + enc_u64(spec_magnitude(x))
}

/// Read a sign byte and a magnitude; reject unknown sign bytes and
/// magnitudes that do not fit the signed range.
pub open spec fn dec_i64(s: Seq<u8>) -> Option<(i64, Seq<u8>)> {
    if s.len() < 1 {
        None
    } else {
        let sign = s[0];
        match dec_u64(s.skip(1)) {
            Some((mag, rest)) => {
                if sign == 0 && mag <= 0x7fffffffffffffff {
                    Some(((mag as i64), rest))
                } else if sign == 1 && mag >= 1 && mag <= 0x8000000000000000 {
                    Some(((-(mag as int)) as i64, rest))
                } else {
                    None
                }
            },
            None => None,
        }
    }
}

pub proof fn lemma_i64_round_trip(x: i64, rest: Seq<u8>)
    ensures
        dec_i64(enc_i64(x) + rest) == Some((x, rest)),
{
    let s = enc_i64(x) + rest;
    assert(s.skip(1) =~= enc_u64(spec_magnitude(x)) + rest);
    lemma_u64_round_trip(spec_magnitude(x), rest);
}

pub fn write_i64(out: &mut Vec<u8>, x: i64)
    ensures
        final(out)@ == old(out)@ + enc_i64(x),
{
    if x >= 0 {
        out.push(0u8);
        write_u64(out, x as u64);
    } else {
        out.push(1u8);
        let mag: u64 = if x == i64::MIN {
            0x8000000000000000u64
        } else {
            (-x) as u64
        };
        assert(mag == spec_magnitude(x));
        write_u64(out, mag);
    }
    proof {
        assert(final(out)@ =~= old(out)@ + enc_i64(x));
    }
}

pub fn read_i64(bytes: &Vec<u8>, pos: &mut usize) -> (r: Result<i64, DecodeError>)
    requires
        *old(pos) <= bytes@.len(),
    ensures
        *old(pos) <= *final(pos) <= bytes@.len(),
        match r {
            Ok(v) => dec_i64(bytes@.skip(*old(pos) as int)) == Some(
                (v, bytes@.skip(*final(pos) as int)),
            ),
            Err(_) => dec_i64(bytes@.skip(*old(pos) as int)) is None,
        },
{
    let ghost t = bytes@.skip(*old(pos) as int);
    if bytes.len() - *pos < 1 {
        return Err(DecodeError);
    }
    let sign = bytes[*pos];
    *pos = *pos + 1;
    proof {
        assert(t[0] == sign);
        assert(t.skip(1) =~= bytes@.skip(*pos as int));
    }
    let mag = match read_u64(bytes, pos) {
        Ok(m) => m,
        Err(e) => {
            return Err(e);
        },
    };
    if sign == 0 && mag <= 0x7fffffffffffffffu64 {
        Ok(mag as i64)
    } else if sign == 1 && mag >= 1 && mag <= 0x8000000000000000u64 {
        if mag == 0x8000000000000000u64 {
            Ok(i64::MIN)
        } else {
            Ok(-(mag as i64))
        }
    } else {
        Err(DecodeError)
    }
}

// ------------------------------------------------- length-prefixed bytes

/// A two-byte count then the raw bytes; only byte strings shorter than
/// the count's range are encodable.
pub open spec fn enc_lp_bytes(s: Seq<u8>) -> Seq<u8> {
    enc_u16(s.len() as u16) + s
}

/// Read a two-byte count then that many raw bytes.
pub open spec fn dec_lp_bytes(s: Seq<u8>) -> Option<(Seq<u8>, Seq<u8>)> {
    match dec_u16(s) {
        Some((n, rest)) => {
            if rest.len() < n {
                None
            } else {
                Some((rest.take(n as int), rest.skip(n as int)))
            }
        },
        None => None,
    }
}

pub proof fn lemma_lp_bytes_round_trip(s: Seq<u8>, rest: Seq<u8>)
    requires
        s.len() < 65536,
    ensures
        dec_lp_bytes(enc_lp_bytes(s) + rest) == Some((s, rest)),
{
    let whole = enc_lp_bytes(s) + rest;
    assert(whole =~= enc_u16(s.len() as u16) + (s + rest));
    lemma_u16_round_trip(s.len() as u16, s + rest);
    assert((s + rest).take(s.len() as int) =~= s);
    assert((s + rest).skip(s.len() as int) =~= rest);
}

pub fn write_lp_bytes(out: &mut Vec<u8>, s: &Vec<u8>)
    requires
        s@.len() < 65536,
    ensures
        final(out)@ == old(out)@ + enc_lp_bytes(s@),
{
    write_u16(out, s.len() as u16);
    let mut i: usize = 0;
    while i < s.len()
        invariant
            i <= s@.len(),
            s@.len() < 65536,
            out@ == old(out)@ + enc_u16(s@.len() as u16) + s@.take(i as int),
        decreases s@.len() - i,
    {
        out.push(s[i]);
        proof {
            assert(out@ =~= old(out)@ + enc_u16(s@.len() as u16) + s@.take(i as int + 1));
        }
        i = i + 1;
    }
    proof {
        assert(s@.take(s@.len() as int) =~= s@);
        assert(final(out)@ =~= old(out)@ + enc_lp_bytes(s@));
    }
}

pub fn read_lp_bytes(bytes: &Vec<u8>, pos: &mut usize) -> (r: Result<Vec<u8>, DecodeError>)
    requires
        *old(pos) <= bytes@.len(),
    ensures
        *old(pos) <= *final(pos) <= bytes@.len(),
        match r {
            Ok(v) => dec_lp_bytes(bytes@.skip(*old(pos) as int)) == Some(
                (v@, bytes@.skip(*final(pos) as int)),
            ),
            Err(_) => dec_lp_bytes(bytes@.skip(*old(pos) as int)) is None,
        },
{
    let ghost t = bytes@.skip(*old(pos) as int);
    let n = match read_u16(bytes, pos) {
        Ok(n) => n,
        Err(e) => {
            return Err(e);
        },
    };
    let ghost after_len = bytes@.skip(*pos as int);
    if bytes.len() - *pos < n as usize {
        return Err(DecodeError);
    }
    let mut v: Vec<u8> = Vec::new();
    let start: usize = *pos;
    let blen: usize = bytes.len();
    let mut i: usize = 0;
    while i < n as usize
        invariant
            blen == bytes@.len(),
            start + n <= blen,
            i <= n,
            v@ == bytes@.skip(start as int).take(i as int),
        decreases n - i,
    {
        v.push(bytes[start + i]);
        proof {
            assert(v@ =~= bytes@.skip(start as int).take(i as int + 1));
        }
        i = i + 1;
    }
    *pos = start + n as usize;
    proof {
        assert(v@ =~= after_len.take(n as int));
        assert(after_len.skip(n as int) =~= bytes@.skip(*pos as int));
    }
    Ok(v)
}

} // verus!
