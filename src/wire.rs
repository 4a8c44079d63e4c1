use vstd::prelude::*;

verus! {

/// The big-endian value of two bytes.
pub open spec fn be16(hi: u8, lo: u8) -> u16 {
    (hi as int * 256 + lo as int) as u16
}

/// The big-endian value of four bytes.
pub open spec fn be32(b0: u8, b1: u8, b2: u8, b3: u8) -> u32 {
    (b0 as int * 0x100_0000 + b1 as int * 0x1_0000 + b2 as int * 0x100 + b3 as int) as u32
}

/// Reads a big-endian `u16` from the first two bytes.
pub fn read_u16(d: &[u8]) -> (r: u16)
    requires
        d@.len() >= 2,
    ensures
        r == be16(d@[0], d@[1]),
{
    (d[0] as u16) * 256 + (d[1] as u16)
}

/// Reads a big-endian `u32` from the first four bytes.
pub fn read_u32(d: &[u8]) -> (r: u32)
    requires
        d@.len() >= 4,
    ensures
        r == be32(d@[0], d@[1], d@[2], d@[3]),
{
    (d[0] as u32) * 0x100_0000 + (d[1] as u32) * 0x1_0000 + (d[2] as u32) * 0x100 + (d[3] as u32)
}

/// The two bytes of a `u16` in network order.
pub open spec fn be16_bytes(x: u16) -> Seq<u8> {
    seq![(x / 256) as u8, (x % 256) as u8]
}

/// The four bytes of a `u32` in network order.
pub open spec fn be32_bytes(x: u32) -> Seq<u8> {
    seq![(x / 0x100_0000) as u8, (x / 0x1_0000 % 256) as u8, (x / 0x100 % 256) as u8, (x % 256) as u8]
}

} // verus!
