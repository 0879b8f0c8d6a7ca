//! The database has signed integers only. An unsigned value is stored as the signed one with the
//! same bits, and read back the same way.

use vstd::prelude::*;

verus! {

/// The signed 32-bit integer with the bits of `x`.
pub open spec fn signed32(x: u32) -> i32 {
    if x < 0x8000_0000 {
        x as i32
    } else {
        (x - 0x1_0000_0000) as i32
    }
}

/// The unsigned 32-bit integer with the bits of `x`.
pub open spec fn unsigned32(x: i32) -> u32 {
    if x >= 0 {
        x as u32
    } else {
        (x + 0x1_0000_0000) as u32
    }
}

/// The signed 64-bit integer with the bits of `x`.
pub open spec fn signed64(x: u64) -> i64 {
    if x < 0x8000_0000_0000_0000 {
        x as i64
    } else {
        (x - 0x1_0000_0000_0000_0000) as i64
    }
}

/// The unsigned 64-bit integer with the bits of `x`.
pub open spec fn unsigned64(x: i64) -> u64 {
    if x >= 0 {
        x as u64
    } else {
        (x + 0x1_0000_0000_0000_0000) as u64
    }
}

/// What is stored of an unsigned 32-bit value.
pub fn to_signed32(x: u32) -> (r: i32)
    ensures
        r == signed32(x),
        x <= i32::MAX ==> r == x,
        x > i32::MAX ==> r == x - 0x1_0000_0000,
{
    assert(x >= 0x8000_0000u32 ==> (x as i32) == x - 0x1_0000_0000) by (bit_vector);
    x as i32
}

/// The unsigned 32-bit value that was stored.
pub fn to_unsigned32(x: i32) -> (r: u32)
    ensures
        r == unsigned32(x),
        x >= 0 ==> r == x,
        x < 0 ==> r == x + 0x1_0000_0000,
{
    assert(x < 0i32 ==> (x as u32) == x + 0x1_0000_0000) by (bit_vector);
    x as u32
}

/// What is stored of an unsigned 64-bit value.
pub fn to_signed64(x: u64) -> (r: i64)
    ensures
        r == signed64(x),
        x <= i64::MAX ==> r == x,
        x > i64::MAX ==> r == x - 0x1_0000_0000_0000_0000,
{
    assert(x >= 0x8000_0000_0000_0000u64 ==> (x as i64) == x - 0x1_0000_0000_0000_0000)
        by (bit_vector);
    x as i64
}

/// The unsigned 64-bit value that was stored.
pub fn to_unsigned64(x: i64) -> (r: u64)
    ensures
        r == unsigned64(x),
        x >= 0 ==> r == x,
        x < 0 ==> r == x + 0x1_0000_0000_0000_0000,
{
    assert(x < 0i64 ==> (x as u64) == x + 0x1_0000_0000_0000_0000) by (bit_vector);
    x as u64
}

/// Every unsigned 32-bit value comes back as it was stored, and every signed one is the stored
/// form of what it is read as.
pub proof fn law_u32_round_trip(x: u32, y: i32)
    ensures
        unsigned32(signed32(x)) == x,
        signed32(unsigned32(y)) == y,
{
}

/// Every unsigned 64-bit value comes back as it was stored, and every signed one is the stored
/// form of what it is read as.
pub proof fn law_u64_round_trip(x: u64, y: i64)
    ensures
        unsigned64(signed64(x)) == x,
        signed64(unsigned64(y)) == y,
{
}

/// A 32-bit value that fits is stored and read as it is, and any other as the one value of the other
/// type that differs from it by a multiple of the number of 32-bit values.
pub proof fn law_u32_keeps_values(x: u32, y: i32)
    ensures
        x <= i32::MAX ==> signed32(x) == x,
        y >= 0 ==> unsigned32(y) == y,
        (x - signed32(x)) % 0x1_0000_0000 == 0,
        (unsigned32(y) - y) % 0x1_0000_0000 == 0,
{
}

/// A 64-bit value that fits is stored and read as it is, and any other as the one value of the other
/// type that differs from it by a multiple of the number of 64-bit values.
pub proof fn law_u64_keeps_values(x: u64, y: i64)
    ensures
        x <= i64::MAX ==> signed64(x) == x,
        y >= 0 ==> unsigned64(y) == y,
        (x - signed64(x)) % 0x1_0000_0000_0000_0000 == 0,
        (unsigned64(y) - y) % 0x1_0000_0000_0000_0000 == 0,
{
}

/// Values that fit keep their order, and so do those that do not.
pub proof fn law_casts_keep_order(a: u32, b: u32, x: u64, y: u64)
    ensures
        a < b && (b <= i32::MAX || a > i32::MAX) ==> signed32(a) < signed32(b),
        x < y && (y <= i64::MAX || x > i64::MAX) ==> signed64(x) < signed64(y),
{
}

} // verus!
