//! Small arithmetic helpers shared by the codec's fixed-point code.
use vstd::prelude::*;

verus! {

/// `x`, but no less than `lo` and no more than `hi`.
pub open spec fn limited(x: int, lo: int, hi: int) -> int {
    if x < lo {
        lo
    } else if x > hi {
        hi
    } else {
        x
    }
}

/// `x`, but no less than `lo` and no more than `hi`.
pub fn clamp_i32(x: i32, lo: i32, hi: i32) -> (y: i32)
    requires
        lo <= hi,
    ensures
        y == limited(x as int, lo as int, hi as int),
{
    if x < lo {
        lo
    } else if x > hi {
        hi
    } else {
        x
    }
}

/// `x / d`, rounded towards zero.
pub open spec fn quotient(x: int, d: int) -> int {
    if x >= 0 {
        x / d
    } else {
        -((-x) / d)
    }
}

/// The 32-bit signed number that equals `x` up to a multiple of 2^32.
pub open spec fn wrapped_i32(x: int) -> int {
    (x + 0x8000_0000) % 0x1_0000_0000 - 0x8000_0000
}

/// `x`, wrapped around to 32 bits.
pub fn wrap_i32(x: i64) -> (y: i32)
    ensures
        y == wrapped_i32(x as int),
{
    assert(#[verifier::truncate] (x as i32) == (x + 0x8000_0000) % 0x1_0000_0000 - 0x8000_0000)
        by (bit_vector);
    #[verifier::truncate]
    (x as i32)
}

/// Numbers that fit in 32 bits are not wrapped, and others keep their remainder by 2^32.
pub proof fn law_wrapped(x: int)
    ensures
        -0x8000_0000 <= wrapped_i32(x) < 0x8000_0000,
        (wrapped_i32(x) - x) % 0x1_0000_0000 == 0,
        -0x8000_0000 <= x < 0x8000_0000 ==> wrapped_i32(x) == x,
{
}

/// Sums and differences of wrapped numbers are those of the numbers up to a multiple of 2^32.
pub proof fn lemma_wrapped_pair(x: int, y: int)
    ensures
        (wrapped_i32(x) + wrapped_i32(y) - (x + y)) % 0x1_0000_0000 == 0,
        (wrapped_i32(x) - wrapped_i32(y) - (x - y)) % 0x1_0000_0000 == 0,
{
    let (p, q) = ((x + 0x8000_0000) / 0x1_0000_0000, (y + 0x8000_0000) / 0x1_0000_0000);
    assert(wrapped_i32(x) == x - 0x1_0000_0000 * p);
    assert(wrapped_i32(y) == y - 0x1_0000_0000 * q);
    assert((0x1_0000_0000 * (-p - q)) % 0x1_0000_0000 == 0);
    assert((0x1_0000_0000 * (q - p)) % 0x1_0000_0000 == 0);
}

/// Shifting right by 1 divides by 2, rounding down.
pub proof fn lemma_shr1(x: i32)
    ensures
        x >> 1 == x as int / 2,
{
    assert(x >> 1 == x / 2) by (bit_vector);
}

/// Shifting right by 2 divides by 4, rounding down.
pub proof fn lemma_shr2(x: i32)
    ensures
        x >> 2 == x as int / 4,
{
    assert(x >> 2 == x / 4) by (bit_vector);
}

/// Shifting right by 3 divides by 8, rounding down.
pub proof fn lemma_shr3(x: i32)
    ensures
        x >> 3 == x as int / 8,
{
    assert(x >> 3 == x / 8) by (bit_vector);
}

/// Shifting right by 8 divides by 256, rounding down.
pub proof fn lemma_shr8(x: i32)
    ensures
        x >> 8 == x as int / 256,
{
    assert(x >> 8 == x / 256) by (bit_vector);
}

/// Shifting right by 16 divides by 65536, rounding down.
pub proof fn lemma_shr16(x: i32)
    ensures
        x >> 16 == x as int / 65536,
{
    assert(x >> 16 == x / 65536) by (bit_vector);
}

/// Shifting right by 16 divides by 65536, rounding down.
pub proof fn lemma_shr16_wide(x: i64)
    ensures
        x >> 16 == x as int / 65536,
{
    assert(x >> 16 == x / 65536) by (bit_vector);
}

/// Limiting leaves what lies between the limits and moves the rest to the nearer one.
pub proof fn law_limited(x: int, lo: int, hi: int)
    requires
        lo <= hi,
    ensures
        lo <= limited(x, lo, hi) <= hi,
        lo <= x <= hi ==> limited(x, lo, hi) == x,
        x <= lo ==> limited(x, lo, hi) == lo,
        x >= hi ==> limited(x, lo, hi) == hi,
{
}

/// Division towards zero: what is left over is smaller than the divisor and has the sign of the
/// dividend.
pub proof fn law_quotient(x: int, d: int)
    requires
        d > 0,
    ensures
        x >= 0 ==> 0 <= x - quotient(x, d) * d < d,
        x <= 0 ==> 0 <= quotient(x, d) * d - x < d,
{
    let m = if x >= 0 {
        x
    } else {
        -x
    };
    vstd::arithmetic::div_mod::lemma_fundamental_div_mod(m, d);
    vstd::arithmetic::div_mod::lemma_mod_bound(m, d);
    let q = m / d;
    assert(d * q == q * d && (-q) * d == -(q * d)) by (nonlinear_arith);
}

} // verus!
