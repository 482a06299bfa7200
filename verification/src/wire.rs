//! The building blocks of the wire format: fixed-width integers in
//! little-endian order, compact integers, and byte strings with their length
//! in front.
//!
//! Integers are written and read by `parity_scale_codec`; what it writes is
//! stated here byte by byte.

use parity_scale_codec::{Compact, Decode, Encode};
use vstd::prelude::*;

verus! {

/// The four bytes of `x`, the least significant first.
pub open spec fn spec_u32_le(x: u32) -> Seq<u8> {
    seq![
        (x % 256) as u8,
        ((x / 0x100) % 256) as u8,
        ((x / 0x1_0000) % 256) as u8,
        ((x / 0x100_0000) % 256) as u8,
    ]
}

/// The number whose four bytes, the least significant first, `s` begins with.
pub open spec fn spec_u32_from(s: Seq<u8>) -> u32 {
    (s[0] as int + 0x100 * (s[1] as int) + 0x1_0000 * (s[2] as int) + 0x100_0000 * (
    s[3] as int)) as u32
}

/// The eight bytes of `x`, the least significant first.
pub open spec fn spec_u64_le(x: u64) -> Seq<u8> {
    seq![
        (x % 256) as u8,
        ((x / 0x100) % 256) as u8,
        ((x / 0x1_0000) % 256) as u8,
        ((x / 0x100_0000) % 256) as u8,
        ((x / 0x1_0000_0000) % 256) as u8,
        ((x / 0x100_0000_0000) % 256) as u8,
        ((x / 0x1_0000_0000_0000) % 256) as u8,
        ((x / 0x100_0000_0000_0000) % 256) as u8,
    ]
}

/// The number whose eight bytes, the least significant first, `s` begins with.
pub open spec fn spec_u64_from(s: Seq<u8>) -> u64 {
    (s[0] as int + 0x100 * (s[1] as int) + 0x1_0000 * (s[2] as int) + 0x100_0000 * (s[3] as int)
        + 0x1_0000_0000 * (s[4] as int) + 0x100_0000_0000 * (s[5] as int) + 0x1_0000_0000_0000 * (
    s[6] as int) + 0x100_0000_0000_0000 * (s[7] as int)) as u64
}

/// Reads a `u32` from the front of `s`, if `s` has the four bytes.
pub open spec fn spec_parse_u32(s: Seq<u8>) -> Option<(u32, int)> {
    if s.len() >= 4 {
        Some((spec_u32_from(s), 4))
    } else {
        None
    }
}

/// Reads a `u64` from the front of `s`, if `s` has the eight bytes.
pub open spec fn spec_parse_u64(s: Seq<u8>) -> Option<(u64, int)> {
    if s.len() >= 8 {
        Some((spec_u64_from(s), 8))
    } else {
        None
    }
}

/// The compact form of `n`. The two low bits of the first byte tell the form:
/// one byte for numbers below 2^6, two below 2^14, four below 2^30, each
/// holding the number times four plus the form; else a byte 3 and the four
/// bytes of the number.
pub open spec fn spec_compact(n: u32) -> Seq<u8> {
    if n < 0x40 {
        seq![(4 * n) as u8]
    } else if n < 0x4000 {
        seq![((4 * n + 1) % 256) as u8, ((4 * n + 1) / 256) as u8]
    } else if n < 0x4000_0000 {
        spec_u32_le((4 * n + 2) as u32)
    } else {
        seq![3u8] + spec_u32_le(n)
    }
}

/// Number of bytes of the compact form of `n`.
pub open spec fn spec_compact_len(n: u32) -> int {
    if n < 0x40 {
        1
    } else if n < 0x4000 {
        2
    } else if n < 0x4000_0000 {
        4
    } else {
        5
    }
}

/// Reads a compact number from the front of `s`. A number written in a longer
/// form than it needs is refused.
pub open spec fn spec_parse_compact(s: Seq<u8>) -> Option<(u32, int)> {
    if s.len() == 0 {
        None
    } else if s[0] % 4 == 0 {
        Some(((s[0] / 4) as u32, 1))
    } else if s[0] % 4 == 1 {
        if s.len() < 2 {
            None
        } else {
            let x = (s[0] as int + 256 * (s[1] as int)) / 4;
            if x > 0x3f {
                Some((x as u32, 2))
            } else {
                None
            }
        }
    } else if s[0] % 4 == 2 {
        if s.len() < 4 {
            None
        } else {
            let x = spec_u32_from(s) / 4;
            if x > 0x3fff {
                Some((x as u32, 4))
            } else {
                None
            }
        }
    } else {
        if s[0] / 4 != 0 || s.len() < 5 {
            None
        } else {
            let x = spec_u32_from(s.skip(1));
            if x > 0x3fff_ffff {
                Some((x, 5))
            } else {
                None
            }
        }
    }
}

/// A byte string on the wire: its length in compact form, then its bytes.
pub open spec fn spec_bytes(b: Seq<u8>) -> Seq<u8> {
    spec_compact(b.len() as u32) + b
}

/// Reads a byte string from the front of `s`.
pub open spec fn spec_parse_bytes(s: Seq<u8>) -> Option<(Seq<u8>, int)> {
    match spec_parse_compact(s) {
        Some((n, k)) => if s.len() - k >= n {
            Some((s.subrange(k, k + n), k + n))
        } else {
            None
        },
        None => None,
    }
}

/// Calls `parity_scale_codec::Encode::encode` on a `u32`. Claimed of it: the
/// result is the four bytes of `x`, the least significant first.
#[verifier::external_body]
pub(crate) fn encode_u32(x: u32) -> (r: Vec<u8>)
    ensures
        r@ == spec_u32_le(x),
{
    x.encode()
}

/// Calls `parity_scale_codec::Encode::encode` on a `u64`. Claimed of it: the
/// result is the eight bytes of `x`, the least significant first.
#[verifier::external_body]
pub(crate) fn encode_u64(x: u64) -> (r: Vec<u8>)
    ensures
        r@ == spec_u64_le(x),
{
    x.encode()
}

/// Calls `parity_scale_codec::Encode::encode` on a `Compact<u32>`. Claimed of
/// it: the result is `n` in the shortest of the four compact forms, as
/// `spec_compact` writes them out.
#[verifier::external_body]
pub(crate) fn encode_compact(n: u32) -> (r: Vec<u8>)
    ensures
        r@ == spec_compact(n),
{
    Compact(n).encode()
}

/// Calls `parity_scale_codec::Decode::decode` for a `u32` on the bytes at
/// `pos` and after. Claimed of it: it gives the number whose four bytes come
/// next, the least significant first, and fails if fewer than four are left.
#[verifier::external_body]
pub(crate) fn decode_u32(bytes: &[u8], pos: usize) -> (r: Option<u32>)
    requires
        pos <= bytes@.len(),
    ensures
        r == match spec_parse_u32(bytes@.skip(pos as int)) {
            Some((x, _)) => Some(x),
            None => None,
        },
{
    let mut input: &[u8] = &bytes[pos..];
    match u32::decode(&mut input) {
        Ok(x) => Some(x),
        Err(_) => None,
    }
}

/// Calls `parity_scale_codec::Decode::decode` for a `u64` on the bytes at
/// `pos` and after. Claimed of it: it gives the number whose eight bytes come
/// next, the least significant first, and fails if fewer than eight are left.
#[verifier::external_body]
pub(crate) fn decode_u64(bytes: &[u8], pos: usize) -> (r: Option<u64>)
    requires
        pos <= bytes@.len(),
    ensures
        r == match spec_parse_u64(bytes@.skip(pos as int)) {
            Some((x, _)) => Some(x),
            None => None,
        },
{
    let mut input: &[u8] = &bytes[pos..];
    match u64::decode(&mut input) {
        Ok(x) => Some(x),
        Err(_) => None,
    }
}

/// Calls `parity_scale_codec::Decode::decode` for a `Compact<u32>` on the
/// bytes at `pos` and after. Claimed of it: it reads one of the four compact
/// forms, as `spec_parse_compact` writes them out, and fails if the bytes end
/// too early, if the form is longer than the number needs, or if the number
/// does not fit 32 bits.
#[verifier::external_body]
pub(crate) fn decode_compact(bytes: &[u8], pos: usize) -> (r: Option<u32>)
    requires
        pos <= bytes@.len(),
    ensures
        r == match spec_parse_compact(bytes@.skip(pos as int)) {
            Some((n, _)) => Some(n),
            None => None,
        },
{
    let mut input: &[u8] = &bytes[pos..];
    match Compact::<u32>::decode(&mut input) {
        Ok(n) => Some(n.0),
        Err(_) => None,
    }
}

/// Four bytes read back give the number written.
pub proof fn lemma_u32_round_trip(x: u32, rest: Seq<u8>)
    ensures
        spec_parse_u32(spec_u32_le(x) + rest) == Some((x, 4int)),
        spec_u32_le(x).len() == 4,
{
    let s = spec_u32_le(x) + rest;
    assert(s[0] == spec_u32_le(x)[0]);
    assert(s[1] == spec_u32_le(x)[1]);
    assert(s[2] == spec_u32_le(x)[2]);
    assert(s[3] == spec_u32_le(x)[3]);
}

/// The eight bytes of a number add up to it.
proof fn lemma_u64_bytes_sum(x: u64)
    ensures
        (x % 256) + 0x100 * ((x / 0x100) % 256) + 0x1_0000 * ((x / 0x1_0000) % 256) + 0x100_0000 * (
        (x / 0x100_0000) % 256) + 0x1_0000_0000 * ((x / 0x1_0000_0000) % 256) + 0x100_0000_0000 * (
        (x / 0x100_0000_0000) % 256) + 0x1_0000_0000_0000 * ((x / 0x1_0000_0000_0000) % 256)
            + 0x100_0000_0000_0000 * ((x / 0x100_0000_0000_0000) % 256) == x,
{
    let a: int = x as int;
    let a1 = a / 256;
    let a2 = a1 / 256;
    let a3 = a2 / 256;
    let a4 = a3 / 256;
    let a5 = a4 / 256;
    let a6 = a5 / 256;
    let a7 = a6 / 256;
    assert(a1 == a / 0x100);
    assert(a2 == a / 0x1_0000);
    assert(a3 == a / 0x100_0000);
    assert(a4 == a / 0x1_0000_0000);
    assert(a5 == a / 0x100_0000_0000);
    assert(a6 == a / 0x1_0000_0000_0000);
    assert(a7 == a / 0x100_0000_0000_0000);
    assert(a7 < 256);
    assert(a == a % 256 + 256 * a1);
    assert(a1 == a1 % 256 + 256 * a2);
    assert(a2 == a2 % 256 + 256 * a3);
    assert(a3 == a3 % 256 + 256 * a4);
    assert(a4 == a4 % 256 + 256 * a5);
    assert(a5 == a5 % 256 + 256 * a6);
    assert(a6 == a6 % 256 + 256 * a7);
}

/// Eight bytes read back give the number written.
pub proof fn lemma_u64_round_trip(x: u64, rest: Seq<u8>)
    ensures
        spec_parse_u64(spec_u64_le(x) + rest) == Some((x, 8int)),
        spec_u64_le(x).len() == 8,
{
    let e = spec_u64_le(x);
    let s = e + rest;
    assert(s[0] == e[0] && s[1] == e[1] && s[2] == e[2] && s[3] == e[3]);
    assert(s[4] == e[4] && s[5] == e[5] && s[6] == e[6] && s[7] == e[7]);
    lemma_u64_bytes_sum(x);
}

/// A compact number read back gives the number written.
pub proof fn lemma_compact_round_trip(n: u32, rest: Seq<u8>)
    ensures
        spec_parse_compact(spec_compact(n) + rest) == Some((n, spec_compact_len(n))),
        spec_compact(n).len() == spec_compact_len(n),
{
    let c = spec_compact(n);
    let s = c + rest;
    if n < 0x40 {
        assert(s[0] == c[0]);
    } else if n < 0x4000 {
        assert(s[0] == c[0]);
        assert(s[1] == c[1]);
    } else if n < 0x4000_0000 {
        let v = (4 * n + 2) as u32;
        lemma_u32_round_trip(v, rest);
        assert(s[0] == c[0]);
        assert(c[0] == (v % 256) as u8);
    } else {
        assert(s[0] == c[0]);
        assert(s.skip(1) =~= spec_u32_le(n) + rest);
        lemma_u32_round_trip(n, rest);
    }
}

/// What is read as a compact number takes as many bytes as the number's
/// compact form.
pub proof fn lemma_parse_compact_len(s: Seq<u8>)
    ensures
        match spec_parse_compact(s) {
            Some((n, k)) => k == spec_compact_len(n) && k <= s.len(),
            None => true,
        },
{
}

/// A byte string read back gives the bytes written.
pub proof fn lemma_bytes_round_trip(b: Seq<u8>, rest: Seq<u8>)
    requires
        b.len() <= u32::MAX,
    ensures
        spec_parse_bytes(spec_bytes(b) + rest) == Some((b, spec_bytes(b).len() as int)),
{
    let n = b.len() as u32;
    let s = spec_bytes(b) + rest;
    assert(s =~= spec_compact(n) + (b + rest));
    lemma_compact_round_trip(n, b + rest);
    let k = spec_compact_len(n);
    assert(s.subrange(k, k + n) =~= b);
}

/// Number of bytes of the compact form of `n`.
pub(crate) fn compact_len(n: u32) -> (r: usize)
    ensures
        r == spec_compact_len(n),
{
    if n < 0x40 {
        1
    } else if n < 0x4000 {
        2
    } else if n < 0x4000_0000 {
        4
    } else {
        5
    }
}

/// Appends `x` to `out`.
pub(crate) fn put_u32(out: &mut Vec<u8>, x: u32)
    ensures
        final(out)@ == old(out)@ + spec_u32_le(x),
{
    let e = encode_u32(x);
    out.extend_from_slice(e.as_slice());
}

/// Appends `x` to `out`.
pub(crate) fn put_u64(out: &mut Vec<u8>, x: u64)
    ensures
        final(out)@ == old(out)@ + spec_u64_le(x),
{
    let e = encode_u64(x);
    out.extend_from_slice(e.as_slice());
}

/// Appends the compact form of `n` to `out`.
pub(crate) fn put_compact(out: &mut Vec<u8>, n: u32)
    ensures
        final(out)@ == old(out)@ + spec_compact(n),
{
    let e = encode_compact(n);
    out.extend_from_slice(e.as_slice());
}

/// Appends the byte string `b` to `out`, its length in front.
pub(crate) fn put_bytes(out: &mut Vec<u8>, b: &Vec<u8>)
    requires
        b@.len() <= u32::MAX,
    ensures
        final(out)@ == old(out)@ + spec_bytes(b@),
{
    put_compact(out, b.len() as u32);
    out.extend_from_slice(b.as_slice());
    proof {
        assert(out@ =~= old(out)@ + spec_bytes(b@));
    }
}

/// Reads a `u32` at `pos`. Returns it with the place behind it.
pub(crate) fn take_u32(bytes: &[u8], pos: usize) -> (r: Option<(u32, usize)>)
    requires
        pos <= bytes@.len(),
    ensures
        match spec_parse_u32(bytes@.skip(pos as int)) {
            Some((x, k)) => r.is_some() && r.unwrap().0 == x && r.unwrap().1 == pos + k && 0 <= k && pos
                + k <= bytes@.len(),
            None => r.is_none(),
        },
{
    let len: usize = bytes.len();
    proof {
        assert(bytes@.skip(pos as int).len() == len - pos);
    }
    match decode_u32(bytes, pos) {
        Some(x) => Some((x, pos + 4)),
        None => None,
    }
}

/// Reads a `u64` at `pos`. Returns it with the place behind it.
pub(crate) fn take_u64(bytes: &[u8], pos: usize) -> (r: Option<(u64, usize)>)
    requires
        pos <= bytes@.len(),
    ensures
        match spec_parse_u64(bytes@.skip(pos as int)) {
            Some((x, k)) => r.is_some() && r.unwrap().0 == x && r.unwrap().1 == pos + k && 0 <= k && pos
                + k <= bytes@.len(),
            None => r.is_none(),
        },
{
    let len: usize = bytes.len();
    proof {
        assert(bytes@.skip(pos as int).len() == len - pos);
    }
    match decode_u64(bytes, pos) {
        Some(x) => Some((x, pos + 8)),
        None => None,
    }
}

/// Reads a compact number at `pos`. Returns it with the place behind it.
pub(crate) fn take_compact(bytes: &[u8], pos: usize) -> (r: Option<(u32, usize)>)
    requires
        pos <= bytes@.len(),
    ensures
        match spec_parse_compact(bytes@.skip(pos as int)) {
            Some((n, k)) => r.is_some() && r.unwrap().0 == n && r.unwrap().1 == pos + k && 0 <= k && pos
                + k <= bytes@.len(),
            None => r.is_none(),
        },
{
    let len: usize = bytes.len();
    proof {
        assert(bytes@.skip(pos as int).len() == len - pos);
        lemma_parse_compact_len(bytes@.skip(pos as int));
    }
    match decode_compact(bytes, pos) {
        Some(n) => {
            Some((n, pos + compact_len(n)))
        },
        None => None,
    }
}

/// Reads a byte string at `pos`. Returns it with the place behind it.
pub(crate) fn take_bytes(bytes: &[u8], pos: usize) -> (r: Option<(Vec<u8>, usize)>)
    requires
        pos <= bytes@.len(),
    ensures
        match spec_parse_bytes(bytes@.skip(pos as int)) {
            Some((b, k)) => r.is_some() && r.unwrap().0@ == b && r.unwrap().1 == pos + k && 0 <= k && pos + k <= bytes@.len(),
            None => r.is_none(),
        },
{
    let (n, start) = match take_compact(bytes, pos) {
        Some(x) => x,
        None => {
            return None;
        },
    };
    if bytes.len() - start < n as usize {
        return None;
    }
    let out = take_raw(bytes, start, n as usize);
    proof {
        let s = bytes@.skip(pos as int);
        let k = start - pos;
        assert(s.subrange(k, k + n) =~= bytes@.subrange(start as int, start + n));
    }
    Some((out, start + n as usize))
}

/// The `n` bytes at `pos`.
pub(crate) fn take_raw(bytes: &[u8], pos: usize, n: usize) -> (r: Vec<u8>)
    requires
        pos + n <= bytes@.len(),
    ensures
        r@ == bytes@.subrange(pos as int, pos + n),
{
    let mut out: Vec<u8> = Vec::new();
    let mut i: usize = 0;
    let len: usize = bytes.len();
    while i < n
        invariant
            i <= n,
            len == bytes@.len(),
            pos + n <= bytes@.len(),
            out@ == bytes@.subrange(pos as int, pos + i),
        decreases n - i,
    {
        out.push(bytes[pos + i]);
        proof {
            assert(bytes@.subrange(pos as int, pos + i + 1) =~= bytes@.subrange(
                pos as int,
                pos + i,
            ).push(bytes@[pos + i]));
        }
        i = i + 1;
    }
    out
}

} // verus!
