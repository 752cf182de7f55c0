//! Integers inside kernel structures, which are laid out in the byte order of
//! the machine.

use vstd::prelude::*;

verus! {

/// The order in which a machine stores the bytes of an integer.
#[derive(Clone, Copy, Debug, PartialEq, Eq, Structural)]
pub enum ByteOrder {
    Little,
    Big,
}

/// The value of two bytes read in `order`.
pub open spec fn u16_of(order: ByteOrder, b: Seq<u8>) -> int {
    match order {
        ByteOrder::Little => b[0] + 0x100 * b[1],
        ByteOrder::Big => b[1] + 0x100 * b[0],
    }
}

/// The value of four bytes read in `order`.
pub open spec fn u32_of(order: ByteOrder, b: Seq<u8>) -> int {
    match order {
        ByteOrder::Little => b[0] + 0x100 * b[1] + 0x1_0000 * b[2] + 0x100_0000 * b[3],
        ByteOrder::Big => b[3] + 0x100 * b[2] + 0x1_0000 * b[1] + 0x100_0000 * b[0],
    }
}

/// The two's complement value of four bytes read in `order`.
pub open spec fn i32_of(order: ByteOrder, b: Seq<u8>) -> int {
    let v = u32_of(order, b);
    if v < 0x8000_0000 {
        v
    } else {
        v - 0x1_0000_0000
    }
}

/// Calls `u16::from_ne_bytes`, which reads the two bytes in the machine's own
/// order. Which of the two orders that is depends on the machine, so the result
/// is claimed to be the value in one of them.
#[verifier::external_body]
fn u16_from_ne_bytes(b: [u8; 2]) -> (v: u16)
    ensures
        v == u16_of(ByteOrder::Little, b@) || v == u16_of(ByteOrder::Big, b@),
{
    u16::from_ne_bytes(b)
}

/// The order in which the bytes 1 and 0 come to `v`: the value is 1 where the
/// low byte is first, and 0x100 where it is last.
pub open spec fn order_reading(v: u16) -> ByteOrder {
    if v == 1 {
        ByteOrder::Little
    } else {
        ByteOrder::Big
    }
}

/// The order in which a machine reads the bytes 1 and 0 as `v`.
pub fn order_of_probe(v: u16) -> (order: ByteOrder)
    ensures
        order == order_reading(v),
        v == 1 || v == 0x100 ==> v == u16_of(order, seq![1u8, 0u8]),
{
    if v == 1 {
        ByteOrder::Little
    } else {
        ByteOrder::Big
    }
}

/// Whether `order` is one in which the machine has read the bytes 1 and 0.
pub closed spec fn is_native(order: ByteOrder) -> bool {
    exists|v: u16|
        call_ensures(u16_from_ne_bytes, ([1u8, 0u8],), v) && order == #[trigger] order_reading(v)
}

/// The byte order of the machine this runs on: the one in which it reads the
/// bytes 1 and 0.
pub(crate) fn native_order() -> (order: ByteOrder)
    ensures
        is_native(order),
{
    let v: u16 = u16_from_ne_bytes([1, 0]);
    order_of_probe(v)
}

/// The 16-bit integer at byte `at`.
pub fn u16_at(order: ByteOrder, raw: &[u8], at: usize) -> (v: u16)
    requires
        at + 2 <= raw@.len(),
    ensures
        v == u16_of(order, raw@.skip(at as int)),
{
    let (b0, b1): (u16, u16) = (raw[at] as u16, raw[at + 1] as u16);
    match order {
        ByteOrder::Little => b0 + 0x100 * b1,
        ByteOrder::Big => b1 + 0x100 * b0,
    }
}

/// The 32-bit unsigned integer at byte `at`.
pub fn u32_at(order: ByteOrder, raw: &[u8], at: usize) -> (v: u32)
    requires
        at + 4 <= raw@.len(),
    ensures
        v == u32_of(order, raw@.skip(at as int)),
{
    let (b0, b1): (u32, u32) = (raw[at] as u32, raw[at + 1] as u32);
    let (b2, b3): (u32, u32) = (raw[at + 2] as u32, raw[at + 3] as u32);
    match order {
        ByteOrder::Little => b0 + 0x100 * b1 + 0x1_0000 * b2 + 0x100_0000 * b3,
        ByteOrder::Big => b3 + 0x100 * b2 + 0x1_0000 * b1 + 0x100_0000 * b0,
    }
}

/// The 32-bit signed integer at byte `at`.
pub fn i32_at(order: ByteOrder, raw: &[u8], at: usize) -> (v: i32)
    requires
        at + 4 <= raw@.len(),
    ensures
        v == i32_of(order, raw@.skip(at as int)),
{
    let v: u32 = u32_at(order, raw, at);
    if v < 0x8000_0000 {
        v as i32
    } else {
        (v as i64 - 0x1_0000_0000) as i32
    }
}

/// The first byte of an integer is its lowest in little-endian order and its
/// highest in big-endian order, and a signed integer is the unsigned one up to a
/// multiple of its range.
pub proof fn law_integers_are_their_bytes(b: Seq<u8>)
    requires
        b.len() >= 4,
    ensures
        u16_of(ByteOrder::Little, b) == b[0] + 256 * b[1],
        u16_of(ByteOrder::Big, b) == 256 * b[0] + b[1],
        u32_of(ByteOrder::Little, b) == b[0] + 256 * (b[1] + 256 * (b[2] + 256 * b[3])),
        u32_of(ByteOrder::Big, b) == ((256 * b[0] + b[1]) * 256 + b[2]) * 256 + b[3],
        forall|order: ByteOrder|
            -0x8000_0000 <= #[trigger] i32_of(order, b) < 0x8000_0000 && (i32_of(order, b)
                - u32_of(order, b)) % 0x1_0000_0000 == 0,
{
}

} // verus!
