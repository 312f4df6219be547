//! Fixed-width big-endian integers read from byte windows.

use vstd::prelude::*;

verus! {

/// The unsigned 16-bit value whose high byte is `hi` and whose low byte is `lo`.
pub open spec fn u16_be(hi: u8, lo: u8) -> int {
    hi as int * 256 + lo as int
}

/// The unsigned 32-bit value of four bytes, most significant first.
pub open spec fn u32_be(b0: u8, b1: u8, b2: u8, b3: u8) -> int {
    b0 as int * 16777216 + b1 as int * 65536 + b2 as int * 256 + b3 as int
}

/// The two's-complement signed reading of four bytes, most significant first.
pub open spec fn i32_be(b0: u8, b1: u8, b2: u8, b3: u8) -> int {
    if b0 >= 128 {
        u32_be(b0, b1, b2, b3) - 4294967296
    } else {
        u32_be(b0, b1, b2, b3)
    }
}

/// The big-endian `u16` stored at `bytes[at]`, `bytes[at + 1]`.
pub open spec fn u16_at(bytes: Seq<u8>, at: int) -> u16
    recommends
        0 <= at,
        at + 2 <= bytes.len(),
{
    u16_be(bytes[at], bytes[at + 1]) as u16
}

/// The big-endian `i32` stored at `bytes[at] .. bytes[at + 4]`.
pub open spec fn i32_at(bytes: Seq<u8>, at: int) -> i32
    recommends
        0 <= at,
        at + 4 <= bytes.len(),
{
    i32_be(bytes[at], bytes[at + 1], bytes[at + 2], bytes[at + 3]) as i32
}

/// Reads a two-byte window as a big-endian unsigned integer.
pub fn as_u16_be(ar: &[u8]) -> (v: u16)
    requires
        ar@.len() == 2,
    ensures
        v as int == u16_be(ar@[0], ar@[1]),
        v == u16_at(ar@, 0),
{
    let hi: u16 = ar[0] as u16;
    let lo: u16 = ar[1] as u16;
    hi * 256 + lo
}

/// Reads a four-byte window as a big-endian signed integer.
pub fn as_i32_be(ar: &[u8]) -> (v: i32)
    requires
        ar@.len() == 4,
    ensures
        v as int == i32_be(ar@[0], ar@[1], ar@[2], ar@[3]),
        v == i32_at(ar@, 0),
{
    let b0: i64 = ar[0] as i64;
    let b1: i64 = ar[1] as i64;
    let b2: i64 = ar[2] as i64;
    let b3: i64 = ar[3] as i64;
    let u: i64 = b0 * 16777216 + b1 * 65536 + b2 * 256 + b3;
    if b0 >= 128 {
        (u - 4294967296) as i32
    } else {
        u as i32
    }
}

} // verus!
