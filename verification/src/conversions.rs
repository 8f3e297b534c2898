//! Conversions between the multi-byte integers of the wire format and their
//! big-endian byte representations, together with the bit-level facts the
//! codecs rely on.

use vstd::prelude::*;

verus! {

/// The big-endian u16 denoted by two bytes.
pub open spec fn be16(b0: u8, b1: u8) -> u16 {
    ((b0 as u16) << 8) | (b1 as u16)
}

/// The big-endian u32 denoted by four bytes.
pub open spec fn be32(b0: u8, b1: u8, b2: u8, b3: u8) -> u32 {
    ((b0 as u32) << 24) | ((b1 as u32) << 16) | ((b2 as u32) << 8) | (b3 as u32)
}

/// The big-endian byte representation of a u16: most significant byte first.
pub open spec fn u16_bytes(num: u16) -> Seq<u8> {
    seq![(num >> 8) as u8, num as u8]
}

/// The big-endian byte representation of a u32.
pub open spec fn u32_bytes(num: u32) -> Seq<u8> {
    seq![(num >> 24) as u8, (num >> 16) as u8, (num >> 8) as u8, num as u8]
}

/// Splits a u32 into its four bytes, most significant first.
pub fn u32_to_u8(num: u32) -> (r: [u8; 4])
    ensures
        r@ == u32_bytes(num),
{
    let seg_1 = ((num & 0xff000000) >> 24) as u8;
    let seg_2 = ((num & 0xff0000) >> 16) as u8;
    let seg_3 = ((num & 0xff00) >> 8) as u8;
    let seg_4 = (num & 0xff) as u8;
    proof {
        assert(((num & 0xff000000) >> 24) as u8 == (num >> 24) as u8
            && ((num & 0xff0000) >> 16) as u8 == (num >> 16) as u8
            && ((num & 0xff00) >> 8) as u8 == (num >> 8) as u8
            && (num & 0xff) as u8 == num as u8) by (bit_vector);
        assert([seg_1, seg_2, seg_3, seg_4]@ =~= u32_bytes(num));
    }
    [seg_1, seg_2, seg_3, seg_4]
}

/// Reads a u32 from four bytes, most significant first.
pub fn u8_slice_to_u32(nums: &[u8]) -> (r: u32)
    requires
        nums@.len() == 4,
    ensures
        r == be32(nums@[0], nums@[1], nums@[2], nums@[3]),
{
    ((nums[0] as u32) << 24) | ((nums[1] as u32) << 16) | ((nums[2] as u32) << 8) | (nums[3]
        as u32)
}

/// Splits a u16 into its two bytes, most significant first.
pub fn u16_to_u8(num: u16) -> (r: [u8; 2])
    ensures
        r@ == u16_bytes(num),
{
    let seg_1 = ((num & 0xff00) >> 8) as u8;
    let seg_2 = (num & 0xff) as u8;
    proof {
        assert(((num & 0xff00) >> 8) as u8 == (num >> 8) as u8 && (num & 0xff) as u8 == num as u8)
            by (bit_vector);
        assert([seg_1, seg_2]@ =~= u16_bytes(num));
    }
    [seg_1, seg_2]
}

/// Reads a u16 from two bytes, most significant first.
pub fn u8_to_u16(nums: [u8; 2]) -> (r: u16)
    ensures
        r == be16(nums@[0], nums@[1]),
{
    ((nums[0] as u16) << 8) | (nums[1] as u16)
}

/// Maps true to 1 and false to 0, as the header flag bits require.
pub fn bool_to_u16(boolean: bool) -> (r: u16)
    ensures
        r == if boolean {
            1u16
        } else {
            0u16
        },
{
    match boolean {
        true => 1,
        false => 0,
    }
}

/// Maps 1 to true and 0 to false; no other value denotes a flag bit.
pub fn u16_to_bool(num: u16) -> (r: bool)
    requires
        num == 0 || num == 1,
    ensures
        r == (num == 1),
{
    match num {
        1 => true,
        _ => false,
    }
}


/// The big-endian byte representation of a u128.
pub open spec fn u128_bytes(num: u128) -> Seq<u8> {
    seq![
        (num >> 120) as u8,
        (num >> 112) as u8,
        (num >> 104) as u8,
        (num >> 96) as u8,
        (num >> 88) as u8,
        (num >> 80) as u8,
        (num >> 72) as u8,
        (num >> 64) as u8,
        (num >> 56) as u8,
        (num >> 48) as u8,
        (num >> 40) as u8,
        (num >> 32) as u8,
        (num >> 24) as u8,
        (num >> 16) as u8,
        (num >> 8) as u8,
        num as u8,
    ]
}

/// Splitting a u16 into bytes and reading them back is the identity.
pub proof fn lemma_u16_bytes_roundtrip(num: u16)
    ensures
        be16(u16_bytes(num)[0], u16_bytes(num)[1]) == num,
{
    assert(((((num >> 8) as u8) as u16) << 8) | (((num as u8) as u16)) == num) by (bit_vector);
}

/// Splitting a u32 into bytes and reading them back is the identity.
pub proof fn lemma_u32_bytes_roundtrip(num: u32)
    ensures
        be32(u32_bytes(num)[0], u32_bytes(num)[1], u32_bytes(num)[2], u32_bytes(num)[3]) == num,
{
    assert(((((num >> 24) as u8) as u32) << 24) | ((((num >> 16) as u8) as u32) << 16) | ((((num
        >> 8) as u8) as u32) << 8) | (((num as u8) as u32)) == num) by (bit_vector);
}

/// A u32 read as two big-endian u16 halves, most significant first, equals
/// the u32 read from its four bytes directly.
pub proof fn lemma_be32_from_be16(b0: u8, b1: u8, b2: u8, b3: u8)
    ensures
        ((be16(b0, b1) as u32) << 16) | (be16(b2, b3) as u32) == be32(b0, b1, b2, b3),
{
    assert((((((b0 as u16) << 8) | (b1 as u16)) as u32) << 16) | ((((b2 as u16) << 8) | (b3
        as u16)) as u32) == (((b0 as u32) << 24) | ((b1 as u32) << 16) | ((b2 as u32) << 8) | (b3
        as u32))) by (bit_vector);
}

} // verus!
