//! Little-endian bytes.

use vstd::prelude::*;

verus! {

/// The number that two bytes spell, the low one first.
pub open spec fn le16(low: u8, high: u8) -> u16 {
    (low + high * 256) as u16
}

/// The number that four bytes spell, the lowest first.
pub open spec fn le32(b0: u8, b1: u8, b2: u8, b3: u8) -> u32 {
    (b0 + b1 * 256 + b2 * 65536 + b3 * 16777216) as u32
}

/// The two bytes of a number, the low one first.
pub open spec fn le16_bytes(value: u16) -> Seq<u8> {
    seq![(value % 256) as u8, (value / 256) as u8]
}

/// The four bytes of a number, the lowest first.
pub open spec fn le32_bytes(value: u32) -> Seq<u8> {
    seq![
        (value % 256) as u8,
        (value / 256 % 256) as u8,
        (value / 65536 % 256) as u8,
        (value / 16777216) as u8,
    ]
}

/// The number that two bytes spell.
pub fn u16_from(low: u8, high: u8) -> (value: u16)
    ensures
        value == le16(low, high),
{
    low as u16 + high as u16 * 256
}

/// The number that four bytes spell.
pub fn u32_from(b0: u8, b1: u8, b2: u8, b3: u8) -> (value: u32)
    ensures
        value == le32(b0, b1, b2, b3),
{
    b0 as u32 + b1 as u32 * 256 + b2 as u32 * 65536 + b3 as u32 * 16777216
}

/// The two bytes of a number.
pub fn u16_bytes(value: u16) -> (bytes: [u8; 2])
    ensures
        bytes@ == le16_bytes(value),
{
    let bytes: [u8; 2] = [(value % 256) as u8, (value / 256) as u8];
    assert(bytes@ =~= le16_bytes(value));
    bytes
}

/// The four bytes of a number.
pub fn u32_bytes(value: u32) -> (bytes: [u8; 4])
    ensures
        bytes@ == le32_bytes(value),
{
    let bytes: [u8; 4] = [
        (value % 256) as u8,
        (value / 256 % 256) as u8,
        (value / 65536 % 256) as u8,
        (value / 16777216) as u8,
    ];
    assert(bytes@ =~= le32_bytes(value));
    bytes
}

/// The lowest byte comes first: each byte counts 256 times as much as the one before it.
pub proof fn law_lowest_first(b0: u8, b1: u8, b2: u8, b3: u8)
    ensures
        le16(b0, b1) == b0 + 256 * b1,
        le32(b0, b1, b2, b3) == b0 + 256 * (b1 + 256 * (b2 + 256 * b3)),
{
}

/// Two bytes spell the number that they are the bytes of.
pub proof fn law_le16(value: u16)
    ensures
        le16_bytes(value).len() == 2,
        le16(le16_bytes(value)[0], le16_bytes(value)[1]) == value,
{
}

/// Four bytes spell the number that they are the bytes of.
pub proof fn law_le32(value: u32)
    ensures
        le32_bytes(value).len() == 4,
        le32(
            le32_bytes(value)[0],
            le32_bytes(value)[1],
            le32_bytes(value)[2],
            le32_bytes(value)[3],
        ) == value,
{
}

/// A number's bytes are the bytes that spell it.
pub proof fn law_le32_spelled(b0: u8, b1: u8, b2: u8, b3: u8)
    ensures
        le32_bytes(le32(b0, b1, b2, b3)) == seq![b0, b1, b2, b3],
{
    let value: int = b0 + b1 * 256 + b2 * 65536 + b3 * 16777216;
    assert(value % 256 == b0);
    assert(value / 256 == b1 + b2 * 256 + b3 * 65536);
    assert(value / 65536 == b2 + b3 * 256);
    assert(value / 16777216 == b3);
    assert(le32_bytes(le32(b0, b1, b2, b3)) =~= seq![b0, b1, b2, b3]);
}

} // verus!
