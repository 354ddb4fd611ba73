//! Gains: from a logarithmic index to a linear factor (Q16) and back.
use vstd::arithmetic::power2::{lemma2_to64, lemma_pow2_adds, lemma_pow2_pos, pow2};
use vstd::bits::lemma_u32_shl_is_mul;
use vstd::prelude::*;

use crate::arith::{clamp_i32, lemma_shr16, limited};

verus! {

/// Correction that bends the straight line between two powers of two towards the exponential.
pub open spec fn bend(f: int) -> int {
    (-(174 * (f * (128 - f)))) / 65536 + f
}

/// `2^(x / 128)`, by a parabola between powers of two. Zero below zero, and saturated where the
/// result would not fit in 31 bits.
pub open spec fn log2lin(x: int) -> int {
    if x < 0 {
        0
    } else if x / 128 >= 31 {
        i32::MAX as int
    } else {
        pow2((x / 128) as nat) as int + bend(x % 128) * (pow2((x / 128) as nat) as int / 128)
    }
}

/// The logarithm (Q7) that index `idx` stands for.
pub open spec fn log_of_index(idx: int) -> int {
    (0x1D1C71 * limited(idx, 0, 63)) / 65536 + 2090
}

/// The linear gain (Q16) that index `idx` stands for. Indices outside 0 to 63 count as the nearest
/// one inside.
pub open spec fn gain_q16(idx: int) -> int {
    log2lin(log_of_index(idx))
}

/// How far `gain` is from the gain of index `idx`.
pub open spec fn gain_error(idx: int, gain: int) -> int {
    if gain_q16(idx) >= gain {
        gain_q16(idx) - gain
    } else {
        gain - gain_q16(idx)
    }
}

/// `idx` is the first index whose gain comes closest to `gain`.
pub open spec fn nearest_index(idx: int, gain: int) -> bool {
    &&& 0 <= idx <= 63
    &&& forall|k: int| 0 <= k <= 63 ==> gain_error(idx, gain) <= #[trigger] gain_error(k, gain)
    &&& forall|k: int| 0 <= k < idx ==> gain_error(idx, gain) < #[trigger] gain_error(k, gain)
}

proof fn lemma_bend(f: int)
    requires
        0 <= f <= 127,
    ensures
        0 <= bend(f) <= f,
        -3_000_000 <= -(174 * (f * (128 - f))) <= 0,
{
    assert(0 <= f * (128 - f) <= 4096) by (nonlinear_arith)
        requires
            0 <= f <= 127,
    ;
    if f >= 1 {
        assert(f * (128 - f) <= 127 * f) by (nonlinear_arith)
            requires
                1 <= f <= 127,
        ;
        assert(-(174 * (f * (128 - f))) >= -(22098 * f));
    }
}

/// A step of two or more bends upwards.
proof fn lemma_bend_rises(f: int, g: int)
    requires
        0 <= f,
        f + 2 <= g <= 127,
    ensures
        bend(f) < bend(g),
{
    let a = -(174 * (f * (128 - f)));
    let b = -(174 * (g * (128 - g)));
    let d = g - f;
    assert(g * (128 - g) - f * (128 - f) == d * (128 - f - g)) by (nonlinear_arith)
        requires
            d == g - f,
    ;
    assert(d * (128 - f - g) <= 126 * d) by (nonlinear_arith)
        requires
            d >= 2,
            f >= 0,
            g >= f + 2,
    ;
    assert(b - a == -(174 * (d * (128 - f - g))));
    assert(b >= a - 21924 * d);
    assert(b / 65536 + d > a / 65536);
}

/// `2^(x / 128)` lies in the octave of `x`.
proof fn lemma_octave(x: int)
    requires
        0 <= x,
        x / 128 < 31,
    ensures
        pow2((x / 128) as nat) <= log2lin(x) < 2 * pow2((x / 128) as nat),
{
    let p = pow2((x / 128) as nat) as int;
    let b = bend(x % 128);
    lemma_pow2_pos((x / 128) as nat);
    lemma_bend(x % 128);
    assert(0 <= b * (p / 128) <= 127 * (p / 128)) by (nonlinear_arith)
        requires
            0 <= b <= 127,
            p >= 0,
    ;
}

/// The exponential rises strictly over steps of two or more, once the octaves are fine enough to
/// be divided.
pub proof fn law_log2lin_rises(x: int, y: int)
    requires
        896 <= x,
        x + 2 <= y < 31 * 128,
    ensures
        log2lin(x) < log2lin(y),
{
    lemma_octave(x);
    lemma_octave(y);
    let i = x / 128;
    let j = y / 128;
    if i == j {
        let p = pow2(i as nat) as int;
        lemma_bend_rises(x % 128, y % 128);
        lemma_pow2_adds(7, (i - 7) as nat);
        lemma2_to64();
        lemma_pow2_pos((i - 7) as nat);
        let s = p / 128;
        assert(s >= 1);
        assert(bend(x % 128) * s < bend(y % 128) * s) by (nonlinear_arith)
            requires
                bend(x % 128) < bend(y % 128),
                s >= 1,
        ;
    } else {
        lemma_pow2_adds(1, i as nat);
        lemma_pow2_adds((i + 1) as nat, (j - i - 1) as nat);
        lemma_pow2_pos((j - i - 1) as nat);
        lemma2_to64();
        let q = pow2((i + 1) as nat) as int;
        let r = pow2((j - i - 1) as nat) as int;
        assert(q * r >= q) by (nonlinear_arith)
            requires
                q >= 0,
                r >= 1,
        ;
    }
}

/// A higher index is a higher gain.
pub proof fn law_gain_rises(a: int, b: int)
    requires
        0 <= a < b <= 63,
    ensures
        gain_q16(a) < gain_q16(b),
{
    law_log2lin_rises(log_of_index(a), log_of_index(b));
}

/// Gains run from 1.25 to 25728.
pub proof fn law_gain_range(idx: int)
    ensures
        81920 <= gain_q16(idx) <= 1_686_110_208,
        gain_q16(0) == 81920,
        gain_q16(63) == 1_686_110_208,
{
    lemma2_to64();
    assert(bend(42) == 32);
    assert(log_of_index(0) == 2090);
    assert(log_of_index(63) == 3923);
    assert(bend(83) == 73);
    assert(2090int / 128 == 16 && 2090int % 128 == 42);
    assert(3923int / 128 == 30 && 3923int % 128 == 83);
    assert(log2lin(2090) == pow2(16) + 32 * (pow2(16) as int / 128));
    assert(log2lin(3923) == pow2(30) + 73 * (pow2(30) as int / 128));
    let k = limited(idx, 0, 63);
    assert(gain_q16(idx) == gain_q16(k));
    if k > 0 {
        law_gain_rises(0, k);
    }
    if k < 63 {
        law_gain_rises(k, 63);
    }
}

/// Each index is found again from its gain.
pub proof fn law_index_found_again(idx: int, found: int)
    requires
        0 <= idx <= 63,
        nearest_index(found, gain_q16(idx)),
    ensures
        found == idx,
{
    assert(gain_error(idx, gain_q16(idx)) == 0);
    if found < idx {
        law_gain_rises(found, idx);
    } else if found > idx {
        law_gain_rises(idx, found);
    }
}

/// `2^(x / 128)`, by a parabola between powers of two.
pub fn silk_log2lin(in_log_q7: i32) -> (g: i32)
    ensures
        g == log2lin(in_log_q7 as int),
{
    if in_log_q7 < 0 {
        return 0;
    }
    let i: i32 = in_log_q7 / 128;
    let f: i32 = in_log_q7 % 128;
    if i >= 31 {
        return i32::MAX;
    }
    proof {
        lemma2_to64();
        lemma_octave(in_log_q7 as int);
        lemma_bend(f as int);
        if i < 30 {
            lemma_pow2_adds(i as nat, (30 - i) as nat);
            lemma_pow2_pos((30 - i) as nat);
            assert(pow2(i as nat) <= pow2(30)) by (nonlinear_arith)
                requires
                    pow2(i as nat) * pow2((30 - i) as nat) == pow2(30),
                    pow2((30 - i) as nat) >= 1,
            ;
        }
        lemma_u32_shl_is_mul(1, i as u32);
    }
    let one_shl_i: i32 = (1u32 << (i as u32)) as i32;
    assert(0 <= f * (128 - f) <= 16256) by (nonlinear_arith)
        requires
            0 <= f <= 127,
    ;
    let arch: i32 = -(174 * (f * (128 - f)));
    proof {
        lemma_shr16(arch);
    }
    let inner: i32 = (arch >> 16) + f;
    let part: i32 = one_shl_i / 128;
    assert(0 <= inner * part <= 127 * part) by (nonlinear_arith)
        requires
            0 <= inner <= 127,
            part >= 0,
    ;
    let extra: i32 = inner * part;
    one_shl_i + extra
}

/// The linear gain (Q16) that index `idx` stands for.
pub fn gain_index_to_q16(idx: i32) -> (g: i32)
    ensures
        g == gain_q16(idx as int),
        81920 <= g <= 1_686_110_208,
        idx <= 0 ==> g == 81920,
        idx >= 63 ==> g == 1_686_110_208,
{
    let log_gain: i32 = clamp_i32(idx, 0, 63);
    let x: i32 = 0x1D1C71 * log_gain;
    proof {
        lemma_shr16(x);
        law_gain_range(idx as int);
    }
    silk_log2lin((x >> 16) + 2090)
}

/// The first index whose gain comes closest to `gain`.
pub fn gain_index_of_q16(gain: i32) -> (idx: i32)
    ensures
        nearest_index(idx as int, gain as int),
{
    let mut best_idx: i32 = 0;
    let mut best_err: i64 = i64::MAX;
    for idx in 0..64i32
        invariant
            0 <= best_idx <= 63,
            idx == 0 ==> best_idx == 0 && best_err == i64::MAX,
            idx > 0 ==> best_idx < idx && best_err == gain_error(best_idx as int, gain as int),
            forall|k: int|
                0 <= k < idx ==> best_err <= #[trigger] gain_error(k, gain as int),
            forall|k: int|
                0 <= k < best_idx ==> best_err < #[trigger] gain_error(k, gain as int),
    {
        let g: i32 = gain_index_to_q16(idx);
        let diff: i64 = g as i64 - gain as i64;
        let err: i64 = if diff < 0 {
            -diff
        } else {
            diff
        };
        assert(err == gain_error(idx as int, gain as int));
        if err < best_err {
            best_err = err;
            best_idx = idx;
        }
    }
    best_idx
}

/// The logarithm rises evenly: an index adds 0x1D1C71 / 65536, a little over 29, to the logarithm
/// of the one before, up to rounding down. Indices outside 0 to 63 count as the nearest one inside.
pub proof fn law_log_rises_evenly(idx: int)
    ensures
        0 <= idx <= 63 ==> 0 <= 0x1D1C71 * idx - 65536 * (log_of_index(idx) - 2090) < 65536,
        0 <= idx < 63 ==> 29 <= log_of_index(idx + 1) - log_of_index(idx) <= 30,
        idx < 0 ==> log_of_index(idx) == log_of_index(0),
        idx > 63 ==> log_of_index(idx) == log_of_index(63),
{
}

/// A whole number of octaves is a power of two, and below zero there is nothing.
pub proof fn law_whole_octaves(n: int, f: int)
    requires
        0 <= f < 128,
    ensures
        0 <= n < 31 ==> log2lin(128 * n) == pow2(n as nat),
        0 <= n < 7 ==> log2lin(128 * n + f) == pow2(n as nat),
        n < 0 ==> log2lin(128 * n + f) == 0,
        n >= 31 ==> log2lin(128 * n + f) == 0x7fff_ffff,
{
    lemma2_to64();
    let x = 128 * n + f;
    assert(x / 128 == n && x % 128 == f);
    assert((128 * n) / 128 == n && (128 * n) % 128 == 0);
    if 0 <= n < 31 {
        assert(bend(0) == 0);
        lemma_pow2_pos(n as nat);
    }
    if 0 <= n < 7 {
        let p = pow2(n as nat) as int;
        assert(p == 1 || p == 2 || p == 4 || p == 8 || p == 16 || p == 32 || p == 64);
        assert(p / 128 == 0);
    }
}

/// An octave further up, the exponential is twice as large.
pub proof fn law_octave_doubles(x: int)
    requires
        896 <= x < 30 * 128,
    ensures
        log2lin(x + 128) == 2 * log2lin(x),
{
    let i = x / 128;
    assert((x + 128) / 128 == i + 1 && (x + 128) % 128 == x % 128);
    lemma_pow2_adds(1, i as nat);
    lemma_pow2_adds(7, (i - 7) as nat);
    lemma2_to64();
    let p = pow2(i as nat) as int;
    let b = bend(x % 128);
    assert(p == 128 * pow2((i - 7) as nat));
    assert((2 * p) / 128 == 2 * (p / 128));
    assert(b * (2 * (p / 128)) == 2 * (b * (p / 128))) by (nonlinear_arith);
}

/// Within an octave the exponential keeps to the parabola through its ends: `f` steps of 128 into
/// the octave of `2^n`, the part above `2^n` is `f - 174 * f * (128 - f) / 65536` parts of 128,
/// rounded down to whole parts.
pub proof fn law_parabola_in_octave(n: int, f: int)
    requires
        7 <= n < 31,
        0 <= f < 128,
    ensures
        ({
            let p = pow2(n as nat) as int;
            let parts = (log2lin(128 * n + f) - p) / (p / 128);
            &&& log2lin(128 * n + f) == p + parts * (p / 128)
            &&& 0 <= 65536 * f - 174 * (f * (128 - f)) - 65536 * parts < 65536
        }),
{
    let x = 128 * n + f;
    assert(x / 128 == n && x % 128 == f);
    lemma_pow2_adds(7, (n - 7) as nat);
    lemma2_to64();
    lemma_pow2_pos((n - 7) as nat);
    let p = pow2(n as nat) as int;
    let unit = p / 128;
    assert(unit >= 1);
    let b = bend(f);
    vstd::arithmetic::div_mod::lemma_div_multiples_vanish(b, unit);
    assert((b * unit) / unit == b) by (nonlinear_arith)
        requires
            (unit * b) / unit == b,
    ;
}

/// Gains are the exponential of logarithms that lie evenly: the logarithm of gain `idx` is the
/// whole number `x` with `65536 * (x - 2090)` at most `0x1D1C71 * idx` and less than 65536 below.
pub proof fn law_gain_is_exponential(idx: int, x: int)
    requires
        0 <= idx <= 63,
        0 <= 0x1D1C71 * idx - 65536 * (x - 2090) < 65536,
    ensures
        gain_q16(idx) == log2lin(x),
{
    law_log_rises_evenly(idx);
}

/// No gain comes closer to the one that was asked for than the gain of the index found, and none
/// of a lower index comes as close.
pub proof fn law_found_gain_is_closest(found: int, gain: int, k: int)
    requires
        nearest_index(found, gain),
        0 <= k <= 63,
    ensures
        0 <= found <= 63,
        ({
            let (here, there) = (gain_q16(found) - gain, gain_q16(k) - gain);
            &&& here * here <= there * there
            &&& k < found ==> here * here < there * there
        }),
{
    let (here, there) = (gain_q16(found) - gain, gain_q16(k) - gain);
    let (a, b) = (gain_error(found, gain), gain_error(k, gain));
    assert(a * a <= b * b && (a < b ==> a * a < b * b)) by (nonlinear_arith)
        requires
            0 <= a <= b,
    ;
    assert(a * a == here * here && b * b == there * there) by (nonlinear_arith)
        requires
            a == here || a == -here,
            b == there || b == -there,
    ;
}

} // verus!
