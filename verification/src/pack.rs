//! The bit packer: regroups 3 bytes (24 bits) into four 6-bit values and
//! back, by shifts and masks alone.

use vstd::prelude::*;

verus! {

/// The first 6-bit value of a 3-byte group: the high 6 bits of byte 0.
pub open spec fn split0(b0: u8) -> u8 {
    b0 >> 2
}

/// The second 6-bit value: the low 2 bits of byte 0 and the high 4 of byte 1.
pub open spec fn split1(b0: u8, b1: u8) -> u8 {
    ((b0 & 0x03) << 4) | (b1 >> 4)
}

/// The third 6-bit value: the low 4 bits of byte 1 and the high 2 of byte 2.
pub open spec fn split2(b1: u8, b2: u8) -> u8 {
    ((b1 & 0x0f) << 2) | (b2 >> 6)
}

/// The fourth 6-bit value: the low 6 bits of byte 2.
pub open spec fn split3(b2: u8) -> u8 {
    b2 & 0x3f
}

/// The first byte rebuilt from the first two 6-bit values.
pub open spec fn combine0(i0: u8, i1: u8) -> u8 {
    ((i0 & 0x3f) << 2) | (i1 >> 4)
}

/// The second byte rebuilt from the middle two 6-bit values.
pub open spec fn combine1(i1: u8, i2: u8) -> u8 {
    ((i1 & 0x0f) << 4) | (i2 >> 2)
}

/// The third byte rebuilt from the last two 6-bit values.
pub open spec fn combine2(i2: u8, i3: u8) -> u8 {
    ((i2 & 0x03) << 6) | (i3 & 0x3f)
}

/// Splitting any 3 bytes yields four values that fit in 6 bits.
pub proof fn lemma_split_in_range(b0: u8, b1: u8, b2: u8)
    ensures
        split0(b0) < 64,
        split1(b0, b1) < 64,
        split2(b1, b2) < 64,
        split3(b2) < 64,
{
    assert(b0 >> 2 < 64) by (bit_vector);
    assert(((b0 & 0x03) << 4) | (b1 >> 4) < 64) by (bit_vector);
    assert(((b1 & 0x0f) << 2) | (b2 >> 6) < 64) by (bit_vector);
    assert(b2 & 0x3f < 64) by (bit_vector);
}

/// Combining the four 6-bit values of a split returns the 3 bytes unchanged.
pub proof fn lemma_combine_split(b0: u8, b1: u8, b2: u8)
    ensures
        combine0(split0(b0), split1(b0, b1)) == b0,
        combine1(split1(b0, b1), split2(b1, b2)) == b1,
        combine2(split2(b1, b2), split3(b2)) == b2,
{
    assert((((b0 >> 2) & 0x3f) << 2) | ((((b0 & 0x03) << 4) | (b1 >> 4)) >> 4) == b0)
        by (bit_vector);
    assert((((((b0 & 0x03) << 4) | (b1 >> 4)) & 0x0f) << 4) | ((((b1 & 0x0f) << 2) | (b2 >> 6))
        >> 2) == b1) by (bit_vector);
    assert((((((b1 & 0x0f) << 2) | (b2 >> 6)) & 0x03) << 6) | ((b2 & 0x3f) & 0x3f) == b2)
        by (bit_vector);
}

/// Splits a 3-byte group into four 6-bit values, redistributing its 24 bits
/// in order from the highest.
pub fn split_bytes(chunk: &[u8]) -> (r: [u8; 4])
    requires
        chunk@.len() == 3,
    ensures
        r@ == seq![
            split0(chunk@[0]),
            split1(chunk@[0], chunk@[1]),
            split2(chunk@[1], chunk@[2]),
            split3(chunk@[2]),
        ],
{
    let b0 = chunk[0];
    let b1 = chunk[1];
    let b2 = chunk[2];
    let r = [b0 >> 2, ((b0 & 0x03) << 4) | (b1 >> 4), ((b1 & 0x0f) << 2) | (b2 >> 6), b2 & 0x3f];
    proof {
        assert(r@ =~= seq![
            split0(chunk@[0]),
            split1(chunk@[0], chunk@[1]),
            split2(chunk@[1], chunk@[2]),
            split3(chunk@[2]),
        ]);
    }
    r
}

/// Combines four 6-bit values back into the 3-byte group they came from.
pub fn combine_bytes(chunk: &[u8]) -> (r: [u8; 3])
    requires
        chunk@.len() == 4,
    ensures
        r@ == seq![
            combine0(chunk@[0], chunk@[1]),
            combine1(chunk@[1], chunk@[2]),
            combine2(chunk@[2], chunk@[3]),
        ],
{
    let i0 = chunk[0];
    let i1 = chunk[1];
    let i2 = chunk[2];
    let i3 = chunk[3];
    let r = [((i0 & 0x3f) << 2) | (i1 >> 4), ((i1 & 0x0f) << 4) | (i2 >> 2), ((i2 & 0x03) << 6) | (
    i3 & 0x3f)];
    proof {
        assert(r@ =~= seq![
            combine0(chunk@[0], chunk@[1]),
            combine1(chunk@[1], chunk@[2]),
            combine2(chunk@[2], chunk@[3]),
        ]);
    }
    r
}

} // verus!
