//! The zigzag transform, which folds signed integers onto unsigned ones so that
//! values of small magnitude, of either sign, map to small unsigned values.
use vstd::prelude::*;
use crate::varint::{lemma_varint_len_monotone, varint_bytes};

verus! {

/// The zigzag image of `v`: `2v` for `v >= 0`, `-2v - 1` for `v < 0`.
pub open spec fn zigzag(v: int) -> int {
    if v >= 0 {
        2 * v
    } else {
        -2 * v - 1
    }
}

/// The inverse of `zigzag`: even values map to `u / 2`, odd values to `-(u + 1) / 2`.
pub open spec fn unzigzag(u: int) -> int {
    if u % 2 == 0 {
        u / 2
    } else {
        -((u + 1) / 2)
    }
}

pub open spec fn abs(v: int) -> int {
    if v >= 0 {
        v
    } else {
        -v
    }
}

/// Encodes `value` with the zigzag transform.
pub fn zig_zag_encode_i64(value: i64) -> (r: u64)
    ensures
        r as int == zigzag(value as int),
{
    let s: i64 = (value << 1u32) ^ (value >> 63u32);
    let r: u64 = #[verifier::truncate] (s as u64);
    proof {
        assert(value >= 0 ==> #[verifier::truncate] (((value << 1u32) ^ (value >> 63u32)) as u64)
            == 2 * (value as u64)) by (bit_vector);
        assert(value < 0 ==> #[verifier::truncate] (((value << 1u32) ^ (value >> 63u32)) as u64)
            == 2 * ((!value) as u64) + 1 && !value == -1 - value) by (bit_vector);
    }
    r
}

/// Reverses `zig_zag_encode_i64`.
pub fn zig_zag_decode_i64(value: u64) -> (r: i64)
    ensures
        r as int == unzigzag(value as int),
{
    let shr1: u64 = value >> 1u32;
    proof {
        assert(value & 1u64 <= 1) by (bit_vector);
    }
    let a1: i64 = (value & 1u64) as i64;
    let neg: u64 = #[verifier::truncate] ((-a1) as u64);
    let or: u64 = shr1 ^ neg;
    let r: i64 = #[verifier::truncate] (or as i64);
    proof {
        assert(value & 1 == value % 2 && value >> 1u32 == value / 2) by (bit_vector);
        assert(value & 1 == 0 ==> #[verifier::truncate] (((value >> 1u32) ^ #[verifier::truncate] ((-((value & 1u64) as i64)) as u64)) as i64)
            == value / 2) by (bit_vector);
        assert(value & 1 == 1 ==> #[verifier::truncate] (((value >> 1u32) ^ #[verifier::truncate] ((-((value & 1u64) as i64)) as u64)) as i64)
            == -1 - (value / 2)) by (bit_vector);
    }
    r
}

/// The zigzag transform is a bijection between the 64-bit signed and unsigned
/// integers: decoding inverts encoding, in both directions.
pub proof fn lemma_zigzag_bijective(v: i64, u: u64)
    ensures
        0 <= zigzag(v as int) <= u64::MAX,
        unzigzag(zigzag(v as int)) == v,
        i64::MIN <= unzigzag(u as int) <= i64::MAX,
        zigzag(unzigzag(u as int)) == u,
{
}

/// The zigzag transform keeps values compact: the image of `v` is at most twice
/// its magnitude, and a value of smaller magnitude has a smaller image.
pub proof fn lemma_zigzag_compact(a: int, b: int)
    ensures
        zigzag(a) <= 2 * abs(a),
        abs(a) < abs(b) ==> zigzag(a) < zigzag(b),
{
}

/// An exponent of smaller magnitude never takes more varint bytes once
/// zigzag-encoded.
pub proof fn lemma_zigzag_varint_len_monotone(a: int, b: int)
    requires
        abs(a) < abs(b),
    ensures
        varint_bytes(zigzag(a) as nat).len() <= varint_bytes(zigzag(b) as nat).len(),
{
    lemma_zigzag_compact(a, b);
    lemma_varint_len_monotone(zigzag(a) as nat, zigzag(b) as nat);
}

} // verus!
