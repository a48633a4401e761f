//! Reading fixed-size values out of a byte buffer.
use vstd::prelude::*;

use crate::sqpack::common::Endian;

verus! {

/// The `u32` stored at `b[pos..pos + 4]` in the byte order `endian`.
pub open spec fn spec_u32_at(b: Seq<u8>, pos: int, endian: Endian) -> u32 {
    match endian {
        Endian::Little => (b[pos] + b[pos + 1] * 0x100 + b[pos + 2] * 0x1_0000 + b[pos + 3]
            * 0x100_0000) as u32,
        Endian::Big => (b[pos + 3] + b[pos + 2] * 0x100 + b[pos + 1] * 0x1_0000 + b[pos]
            * 0x100_0000) as u32,
    }
}

/// The four bytes that store `v` in the byte order `endian`.
pub open spec fn spec_u32_bytes(v: u32, endian: Endian) -> Seq<u8> {
    let b0 = (v % 0x100) as u8;
    let b1 = ((v / 0x100) % 0x100) as u8;
    let b2 = ((v / 0x1_0000) % 0x100) as u8;
    let b3 = (v / 0x100_0000) as u8;
    match endian {
        Endian::Little => seq![b0, b1, b2, b3],
        Endian::Big => seq![b3, b2, b1, b0],
    }
}

/// Whether `len` bytes starting at `pos` lie inside `b`.
pub open spec fn spec_in_bounds(b: Seq<u8>, pos: int, len: int) -> bool {
    0 <= pos && pos + len <= b.len()
}

/// Reads the `u32` at `b[pos..pos + 4]`, if those bytes exist.
pub fn read_u32(b: &[u8], pos: u64, endian: Endian) -> (r: Option<u32>)
    ensures
        r == (if spec_in_bounds(b@, pos as int, 4) {
            Some(spec_u32_at(b@, pos as int, endian))
        } else {
            None
        }),
{
    let len = b.len() as u64;
    if pos > len || len - pos < 4 {
        return None;
    }
    let p = pos as usize;
    let b0 = b[p] as u32;
    let b1 = b[p + 1] as u32;
    let b2 = b[p + 2] as u32;
    let b3 = b[p + 3] as u32;
    match endian {
        Endian::Little => Some(b0 + b1 * 0x100 + b2 * 0x1_0000 + b3 * 0x100_0000),
        Endian::Big => Some(b3 + b2 * 0x100 + b1 * 0x1_0000 + b0 * 0x100_0000),
    }
}

/// Reads the byte `b[pos]`, if it exists.
pub fn read_u8(b: &[u8], pos: u64) -> (r: Option<u8>)
    ensures
        r == (if spec_in_bounds(b@, pos as int, 1) {
            Some(b@[pos as int])
        } else {
            None
        }),
{
    if pos < b.len() as u64 {
        Some(b[pos as usize])
    } else {
        None
    }
}

/// Reads the `N` bytes `b[pos..pos + N]`, if they exist.
pub fn read_array<const N: usize>(b: &[u8], pos: u64) -> (r: Option<[u8; N]>)
    ensures
        r is Some <==> spec_in_bounds(b@, pos as int, N as int),
        r matches Some(a) ==> a@ == b@.subrange(pos as int, pos + N),
{
    let len = b.len() as u64;
    if pos > len || len - pos < N as u64 {
        return None;
    }
    let pos = pos as usize;
    let mut a: [u8; N] = [0u8; N];
    let mut i: usize = 0;
    while i < N
        invariant
            i <= N,
            pos + N <= b.len(),
            a@.len() == N,
            forall|j: int| 0 <= j < i ==> a@[j] == b@[pos + j],
        decreases N - i,
    {
        a[i] = b[pos + i];
        i = i + 1;
    }
    assert(a@ =~= b@.subrange(pos as int, pos + N));
    Some(a)
}

/// The bytes that store `v` in the byte order `endian`.
pub fn u32_bytes(v: u32, endian: Endian) -> (r: Vec<u8>)
    ensures
        r@ == spec_u32_bytes(v, endian),
{
    let b0 = (v % 0x100) as u8;
    let b1 = ((v / 0x100) % 0x100) as u8;
    let b2 = ((v / 0x1_0000) % 0x100) as u8;
    let b3 = (v / 0x100_0000) as u8;
    let mut r: Vec<u8> = Vec::new();
    match endian {
        Endian::Little => {
            r.push(b0);
            r.push(b1);
            r.push(b2);
            r.push(b3);
        },
        Endian::Big => {
            r.push(b3);
            r.push(b2);
            r.push(b1);
            r.push(b0);
        },
    }
    assert(r@ =~= spec_u32_bytes(v, endian));
    r
}

/// Reading back the bytes that store a `u32` gives the `u32`.
pub proof fn lemma_u32_bytes_roundtrip(v: u32, endian: Endian)
    ensures
        spec_u32_at(spec_u32_bytes(v, endian), 0, endian) == v,
{
    assert(((v % 0x100) as u8) + ((v / 0x100) % 0x100) as u8 * 0x100 + ((v / 0x1_0000) % 0x100) as u8
        * 0x1_0000 + ((v / 0x100_0000) as u8) * 0x100_0000 == v) by (bit_vector);
}

} // verus!
