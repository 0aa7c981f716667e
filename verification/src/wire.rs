//! Big-endian integers as they stand in a frame.

use vstd::prelude::*;

verus! {

/// The two bytes of `v`, most significant first.
pub open spec fn be_u16(v: u16) -> Seq<u8> {
    seq![(v / 256) as u8, (v % 256) as u8]
}

/// The four bytes of `v`, most significant first.
pub open spec fn be_u32(v: u32) -> Seq<u8> {
    seq![
        (v / 0x100_0000) as u8,
        ((v / 0x1_0000) % 256) as u8,
        ((v / 256) % 256) as u8,
        (v % 256) as u8,
    ]
}

/// `v` as the unsigned number with the same 32 bits.
pub open spec fn i32_bits(v: i32) -> u32 {
    if v < 0 {
        (v + 0x1_0000_0000) as u32
    } else {
        v as u32
    }
}

/// The signed number with the same 32 bits as `v`.
pub open spec fn u32_signed(v: u32) -> i32 {
    if v >= 0x8000_0000 {
        (v - 0x1_0000_0000) as i32
    } else {
        v as i32
    }
}

/// The four bytes of `v` in two's complement, most significant first.
pub open spec fn be_i32(v: i32) -> Seq<u8> {
    be_u32(i32_bits(v))
}

/// The number that two big-endian bytes stand for.
pub open spec fn u16_of(b0: u8, b1: u8) -> u16 {
    (b0 as int * 256 + b1 as int) as u16
}

/// The number that four big-endian bytes stand for.
pub open spec fn u32_of(b0: u8, b1: u8, b2: u8, b3: u8) -> u32 {
    (b0 as int * 0x100_0000 + b1 as int * 0x1_0000 + b2 as int * 256 + b3 as int) as u32
}

/// Reading back what `be_u16` wrote gives the number.
pub proof fn lemma_u16_round_trip(v: u16)
    ensures
        be_u16(v).len() == 2,
        u16_of(be_u16(v)[0], be_u16(v)[1]) == v,
{
}

/// Reading back what `be_u32` wrote gives the number.
pub proof fn lemma_u32_round_trip(v: u32)
    ensures
        be_u32(v).len() == 4,
        u32_of(be_u32(v)[0], be_u32(v)[1], be_u32(v)[2], be_u32(v)[3]) == v,
{
}

/// Reading back what `be_i32` wrote gives the number.
pub proof fn lemma_i32_round_trip(v: i32)
    ensures
        be_i32(v).len() == 4,
        u32_signed(u32_of(be_i32(v)[0], be_i32(v)[1], be_i32(v)[2], be_i32(v)[3])) == v,
{
    lemma_u32_round_trip(i32_bits(v));
}

/// The first `n` bytes of `text`, or all of it where it is shorter.
pub open spec fn clipped(text: Seq<u8>, n: int) -> Seq<u8> {
    if text.len() > n {
        text.take(n)
    } else {
        text
    }
}

/// A text behind its length in one byte, cut after 255 bytes.
pub open spec fn string_u8(text: Seq<u8>) -> Seq<u8> {
    seq![clipped(text, 255).len() as u8] + clipped(text, 255)
}

/// A text behind its length in two bytes, cut after 65535 bytes.
pub open spec fn string_u16(text: Seq<u8>) -> Seq<u8> {
    be_u16(clipped(text, 65535).len() as u16) + clipped(text, 65535)
}

} // verus!
