//! The CRC-32 variant used for the file path hashes of index files: the
//! reflected polynomial `0xEDB88320`, an initial value of `0xFFFFFFFF` and no
//! final inversion.
use vstd::prelude::*;
use vstd::slice::slice_subrange;

verus! {

/// The reflected CRC-32 polynomial.
pub const POLYNOMIAL: u32 = 0xEDB8_8320u32;

/// The register value that a checksum starts from.
pub const INITIAL: u32 = 0xFFFF_FFFFu32;

/// One shift of the register, feeding the polynomial back in when the bit
/// shifted out is set.
pub open spec fn crc_shift(c: u32) -> u32 {
    if c & 1 == 1 {
        POLYNOMIAL ^ (c >> 1)
    } else {
        c >> 1
    }
}

/// `n` shifts of the register.
pub open spec fn crc_shifts(c: u32, n: nat) -> u32
    decreases n,
{
    if n == 0 {
        c
    } else {
        crc_shift(crc_shifts(c, (n - 1) as nat))
    }
}

/// Entry `i` of the usual 256-entry lookup table: eight shifts of `i`.
pub open spec fn crc_table_entry(i: u32) -> u32 {
    crc_shifts(i, 8)
}

/// Feeds one byte into the register.
pub open spec fn crc_update(c: u32, byte: u8) -> u32 {
    crc_table_entry((c ^ (byte as u32)) & 0xFF) ^ (c >> 8)
}

/// Feeds `bytes`, first to last, into a register holding `c`.
pub open spec fn crc_feed(c: u32, bytes: Seq<u8>) -> u32
    decreases bytes.len(),
{
    if bytes.len() == 0 {
        c
    } else {
        crc_feed(crc_update(c, bytes[0]), bytes.drop_first())
    }
}

/// The checksum of `bytes`.
pub open spec fn spec_checksum(bytes: Seq<u8>) -> u32 {
    crc_feed(INITIAL, bytes)
}

/// One shift distributes over `^`.
proof fn lemma_shift_xor(x: u32, y: u32)
    ensures
        crc_shift(x ^ y) == crc_shift(x) ^ crc_shift(y),
{
    assert((if (x ^ y) & 1 == 1 { 0xEDB8_8320u32 ^ ((x ^ y) >> 1) } else { (x ^ y) >> 1 }) == (if x & 1
        == 1 { 0xEDB8_8320u32 ^ (x >> 1) } else { x >> 1 }) ^ (if y & 1 == 1 { 0xEDB8_8320u32 ^ (y >> 1) } else {
        y >> 1
    })) by (bit_vector);
}

/// Shifts distribute over `^`.
proof fn lemma_shifts_xor(x: u32, y: u32, n: nat)
    ensures
        crc_shifts(x ^ y, n) == crc_shifts(x, n) ^ crc_shifts(y, n),
    decreases n,
{
    if n > 0 {
        lemma_shifts_xor(x, y, (n - 1) as nat);
        lemma_shift_xor(crc_shifts(x, (n - 1) as nat), crc_shifts(y, (n - 1) as nat));
    }
}

/// A register whose low eight bits are clear is only shifted right by the
/// first eight shifts: no polynomial is fed back.
proof fn lemma_shifts_high(y: u32, n: nat)
    requires
        y & 0xFF == 0,
        n <= 8,
    ensures
        crc_shifts(y, n) == y >> (n as u32),
    decreases n,
{
    if n > 0 {
        let k = (n - 1) as u32;
        lemma_shifts_high(y, (n - 1) as nat);
        assert(((y >> k) & 1) == 0 && ((y >> k) >> 1) == y >> (k + 1)) by (bit_vector)
            requires
                y & 0xFF == 0,
                k < 8,
        ;
        assert((n as u32) == k + 1);
        assert(crc_shifts(y, n) == crc_shift(y >> k));
    } else {
        assert(y >> 0u32 == y) by (bit_vector);
    }
}

/// Feeding a byte through the table is feeding it bit by bit: the byte is
/// xored into the register, which is then shifted eight times.
pub proof fn lemma_crc_update_bitwise(c: u32, byte: u8)
    ensures
        crc_update(c, byte) == crc_shifts(c ^ (byte as u32), 8),
{
    let x = c ^ (byte as u32);
    let lo = x & 0xFF;
    let hi = x & 0xFFFF_FF00;
    assert(x == lo ^ hi && hi & 0xFF == 0) by (bit_vector)
        requires
            lo == x & 0xFF,
            hi == x & 0xFFFF_FF00,
    ;
    let b = byte as u32;
    assert(b < 256);
    assert((hi >> 8u32) == (c >> 8u32)) by (bit_vector)
        requires
            hi == (c ^ b) & 0xFFFF_FF00,
            b < 256,
    ;
    lemma_shifts_xor(lo, hi, 8);
    lemma_shifts_high(hi, 8);
}

fn table_entry(i: u32) -> (r: u32)
    ensures
        r == crc_table_entry(i),
{
    let mut c: u32 = i;
    let mut j: u32 = 0;
    while j < 8
        invariant
            j <= 8,
            c == crc_shifts(i, j as nat),
        decreases 8 - j,
    {
        if c & 1 == 1 {
            c = POLYNOMIAL ^ (c >> 1);
        } else {
            c = c >> 1;
        }
        j = j + 1;
    }
    c
}

/// The checksum of `bytes`.
pub fn checksum(bytes: &[u8]) -> (r: u32)
    ensures
        r == spec_checksum(bytes@),
{
    let mut c: u32 = INITIAL;
    let mut i: usize = 0;
    assert(bytes@.skip(0) =~= bytes@);
    while i < bytes.len()
        invariant
            i <= bytes@.len(),
            crc_feed(c, bytes@.skip(i as int)) == spec_checksum(bytes@),
        decreases bytes@.len() - i,
    {
        assert(bytes@.skip(i as int).drop_first() =~= bytes@.skip(i + 1));
        c = table_entry((c ^ (bytes[i] as u32)) & 0xFF) ^ (c >> 8);
        i = i + 1;
    }
    assert(bytes@.skip(i as int) =~= Seq::<u8>::empty());
    c
}

/// The checksum of `bytes[lo..hi]`.
pub fn checksum_range(bytes: &[u8], lo: usize, hi: usize) -> (r: u32)
    requires
        lo <= hi <= bytes@.len(),
    ensures
        r == spec_checksum(bytes@.subrange(lo as int, hi as int)),
{
    checksum(slice_subrange(bytes, lo, hi))
}

} // verus!
