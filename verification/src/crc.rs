//! CRC32 (IEEE), as the raw log and the book checksum use it.
use vstd::prelude::*;

verus! {

/// The remainder `c` after `n` more bits, the lowest first: whenever a one
/// goes out, the polynomial is taken off.
pub open spec fn crc_bits(c: u32, n: nat) -> u32
    decreases n,
{
    if n == 0 {
        c
    } else if c & 1 == 1 {
        crc_bits((c >> 1) ^ 0xedb8_8320, (n - 1) as nat)
    } else {
        crc_bits(c >> 1, (n - 1) as nat)
    }
}

/// The remainder of the bytes `b`, starting from all ones.
pub open spec fn crc_of_bytes(b: Seq<u8>) -> u32
    decreases b.len(),
{
    if b.len() == 0 {
        0xffff_ffff
    } else {
        crc_bits(crc_of_bytes(b.drop_last()) ^ (b.last() as u32), 8)
    }
}

/// The CRC32 (IEEE) of the bytes `b`: their remainder, with all bits turned.
pub open spec fn crc32_of(b: Seq<u8>) -> u32 {
    crc_of_bytes(b) ^ 0xffff_ffff
}

/// `crc32fast::hash`: the CRC32 (IEEE) of the bytes.
#[verifier::external_body]
pub(crate) fn crc32(b: &[u8]) -> (r: u32)
    ensures
        r == crc32_of(b@),
{
    crc32fast::hash(b)
}

/// The CRC32 of no bytes at all is zero.
pub proof fn lemma_crc_of_nothing()
    ensures
        crc32_of(Seq::empty()) == 0,
{
    assert(0xffff_ffffu32 ^ 0xffff_ffffu32 == 0) by (bit_vector);
}

} // verus!
