//! The cosine table behind the frequency-to-filter conversion.
use vstd::prelude::*;

verus! {

/// `4096 * cos(pi * i / 128)`, rounded.
pub const COS_Q12: [i32; 129] = [
    4096, 4095, 4091, 4085, 4076, 4065, 4052, 4036, 4017, 3997, 3973, 3948, 3920, 3889, 3857,
    3822, 3784, 3745, 3703, 3659, 3613, 3564, 3513, 3461, 3406, 3349, 3290, 3229, 3166, 3102,
    3035, 2967, 2896, 2824, 2751, 2676, 2599, 2520, 2440, 2359, 2276, 2191, 2106, 2019, 1931,
    1842, 1751, 1660, 1568, 1474, 1380, 1285, 1189, 1093, 995, 897, 799, 700, 601, 501, 401, 301,
    201, 101, 0, -101, -201, -301, -401, -501, -601, -700, -799, -897, -995, -1093, -1189, -1285,
    -1380, -1474, -1568, -1660, -1751, -1842, -1931, -2019, -2106, -2191, -2276, -2359, -2440,
    -2520, -2599, -2676, -2751, -2824, -2896, -2967, -3035, -3102, -3166, -3229, -3290, -3349,
    -3406, -3461, -3513, -3564, -3613, -3659, -3703, -3745, -3784, -3822, -3857, -3889, -3920,
    -3948, -3973, -3997, -4017, -4036, -4052, -4065, -4076, -4085, -4091, -4095, -4096,
];

/// Entry `i` of the cosine table.
pub closed spec fn cos_q12(i: int) -> int {
    COS_Q12@[i] as int
}

/// Entry `i` of the cosine table.
pub fn cosine(i: usize) -> (v: i32)
    requires
        i <= 128,
    ensures
        v == cos_q12(i as int),
        -4096 <= v <= 4096,
{
    proof {
        law_cosine_range(i as int);
    }
    COS_Q12[i]
}

/// The entries are those of the table.
pub proof fn law_cosine_entries(i: int)
    ensures
        cos_q12(i) == COS_Q12@[i],
{
}

/// The table holds values from -1 to 1.
#[verifier::spinoff_prover]
pub proof fn law_cosine_range(i: int)
    requires
        0 <= i <= 128,
    ensures
        -4096 <= cos_q12(i) <= 4096,
        cos_q12(0) == 4096,
        cos_q12(64) == 0,
        cos_q12(128) == -4096,
{
}

/// The cosine falls strictly from 0 to pi.
#[verifier::spinoff_prover]
pub proof fn law_cosine_falls(i: int)
    requires
        0 <= i < 128,
    ensures
        cos_q12(i) > cos_q12(i + 1),
{
}

/// The table is antisymmetric about its middle.
#[verifier::spinoff_prover]
pub proof fn law_cosine_antisymmetric(i: int)
    requires
        0 <= i <= 128,
    ensures
        cos_q12(128 - i) == -cos_q12(i),
{
}

} // verus!
