//! Reconstruction of the normalised line spectral frequencies (NLSFs).
//!
//! A frame's NLSFs are a codebook row plus residuals. The residuals are predicted from the top
//! down, and weighted by how far apart the neighbouring codebook entries are.
use oxideav_celt::range_decoder::RangeDecoder;
use vstd::arithmetic::power2::pow2;
use vstd::prelude::*;

use crate::arith::{clamp_i32, lemma_shr16, lemma_shr8, limited, quotient};
use crate::error::SilkError;
use crate::range_coder::{can_read, has_read, read_log, read_symbol};
use crate::silk::dither::sign_of;
use crate::silk::lsf_models::{
    decode_stage2, in_residual_range, interp_icdf, limited_residuals, nlsf_log, order_of,
    stage1_icdf,
};
use crate::silk::lsf_tables::{
    codebook_row, codebook_values, gap_above, gap_below, lemma_pred_bounds, pred_weight,
    pred_weight_q8,
};
use crate::silk::shell::signed_ints;
use crate::silk::stabilize::{min_deltas, short_ints, stabilised, stabilize};
use crate::toc::OpusBandwidth;

verus! {

/// The number of bits of `x`.
pub open spec fn bits_of(x: int) -> int
    decreases x,
{
    if x <= 0 {
        0
    } else {
        1 + bits_of(x / 2)
    }
}

/// An approximate square root: of a number in Q18, in Q9.
#[verifier::opaque]
pub open spec fn root_q9(w2_q18: int) -> int {
    if w2_q18 == 0 {
        1
    } else {
        let i = bits_of(w2_q18);
        let shift = if i > 8 {
            i - 8
        } else {
            0
        };
        let f = (w2_q18 / (pow2(shift as nat) as int)) % 128;
        let base = if i % 2 == 1 {
            32768int
        } else {
            46214
        };
        let y = base / (pow2(((32 - i) / 2) as nat) as int);
        limited(y + (213 * f * y) / 65536, 1, 65535)
    }
}

/// The weight of entry `k` of a codebook row (Q9).
pub open spec fn weight_q9(c: Seq<int>, k: int) -> int {
    root_q9((1024int / gap_below(c, k) + 1024int / gap_above(c, k)) * 65536)
}

/// Entry `k` differs from its neighbours by numbers that fit in 32 bits.
pub open spec fn entry_in_range(c: Seq<int>, k: int) -> bool {
    &&& i32::MIN <= c[k] - (if k == 0 {
        0
    } else {
        c[k - 1]
    }) <= i32::MAX
    &&& i32::MIN <= (if k + 1 == c.len() {
        256
    } else {
        c[k + 1]
    }) - c[k] <= i32::MAX
}

/// Neighbouring entries differ by numbers that fit in 32 bits.
pub open spec fn row_in_range(c: Seq<int>) -> bool {
    forall|k: int| 0 <= k < c.len() ==> #[trigger] entry_in_range(c, k)
}

/// The quantisation step of the residuals (Q16).
pub open spec fn step_q16(is_wb: bool) -> int {
    if is_wb {
        9830
    } else {
        11796
    }
}

/// The dequantised residual `k` (Q10): its own step, plus what is predicted from the one above.
pub open spec fn residual_q10(is_wb: bool, i1: int, res: Seq<int>, k: int) -> int
    decreases res.len() - k,
{
    if k < 0 || k >= res.len() {
        0
    } else {
        (residual_q10(is_wb, i1, res, k + 1) * pred_weight(is_wb, i1, k)) / 256 + ((res[k] * 1024
            - sign_of(res[k]) * 102) * step_q16(is_wb)) / 65536
    }
}

/// NLSF `k` before it is limited: the codebook entry plus the weighted residual (Q15).
pub open spec fn raw_nlsf(is_wb: bool, i1: int, res: Seq<int>, k: int) -> int {
    let c = codebook_row(is_wb, i1);
    c[k] * 128 + quotient(residual_q10(is_wb, i1, res, k) * 16384, weight_q9(c, k))
}

/// The NLSFs before stabilisation.
pub open spec fn limited_nlsfs(is_wb: bool, i1: int, res: Seq<int>) -> Seq<int> {
    Seq::new(order_of(is_wb) as nat, |k: int| limited(raw_nlsf(is_wb, i1, res, k), 0, 32767))
}

/// The number of bits of `x`.
fn bit_length(x: u32) -> (n: u32)
    ensures
        n == bits_of(x as int),
        n <= 32,
{
    let mut n: u32 = 0;
    let mut y: u32 = x;
    proof {
        vstd::arithmetic::power2::lemma2_to64();
        lemma_bits_most(x as int, 32);
    }
    while y > 0
        invariant
            n + bits_of(y as int) == bits_of(x as int),
            bits_of(x as int) <= 32,
            bits_of(y as int) >= 0,
        decreases y,
    {
        proof {
            lemma_bits_natural(y as int / 2);
        }
        n = n + 1;
        y = y / 2;
    }
    n
}

proof fn lemma_bits_natural(x: int)
    ensures
        bits_of(x) >= 0,
    decreases x,
{
    if x > 0 {
        lemma_bits_natural(x / 2);
    }
}

/// A number below `2^n` has at most `n` bits.
proof fn lemma_bits_most(x: int, n: nat)
    requires
        x < pow2(n),
    ensures
        0 <= bits_of(x) <= n,
    decreases n,
{
    if x > 0 {
        if n == 0 {
            vstd::arithmetic::power2::lemma2_to64();
        } else {
            vstd::arithmetic::power2::lemma_pow2_unfold(n);
            lemma_bits_most(x / 2, (n - 1) as nat);
        }
    }
}

/// An approximate square root: of a number in Q18, in Q9.
pub fn isqrt_q9_approx(w2_q18: u32) -> (w: u16)
    ensures
        w == root_q9(w2_q18 as int),
        w >= 1,
{
    if w2_q18 == 0 {
        assert(root_q9(0) == 1) by {
            reveal(root_q9);
        }
        return 1;
    }
    let i: u32 = bit_length(w2_q18);
    proof {
        assert(i >= 1) by {
            lemma_bits_natural(w2_q18 as int / 2);
        }
    }
    let shift: u32 = if i > 8 {
        i - 8
    } else {
        0
    };
    let down: u32 = (32 - i) / 2;
    let base: u32 = if i % 2 == 1 {
        32768
    } else {
        46214
    };
    proof {
        vstd::bits::lemma_u32_shr_is_div(w2_q18, shift);
        vstd::bits::lemma_u32_shr_is_div(base, down);
    }
    let f: u32 = (w2_q18 >> shift) % 128;
    let y: u32 = base >> down;
    proof {
        vstd::arithmetic::power2::lemma_pow2_pos(down as nat);
        assert(y <= base) by (nonlinear_arith)
            requires
                y == base as int / pow2(down as nat) as int,
                pow2(down as nat) >= 1,
        ;
        assert(213 * f * y <= 213 * 127 * 46214) by (nonlinear_arith)
            requires
                0 <= f <= 127,
                0 <= y <= 46214,
        ;
    }
    let w: u32 = y + (213 * f * y) / 65536;
    let limit: u16 = if w < 1 {
        1
    } else if w > 65535 {
        65535
    } else {
        w as u16
    };
    assert(limit == root_q9(w2_q18 as int)) by {
        reveal(root_q9);
    }
    limit
}

/// The weights of the entries of a codebook row (Q9).
pub fn compute_ihmw_weights(cb1_q8: &[i32]) -> (w: Vec<u16>)
    requires
        row_in_range(signed_ints(cb1_q8@)),
    ensures
        w@.len() == cb1_q8@.len(),
        forall|k: int|
            0 <= k < w@.len() ==> #[trigger] w@[k] == weight_q9(signed_ints(cb1_q8@), k) && w@[k]
                >= 1,
{
    let order: usize = cb1_q8.len();
    let ghost c = signed_ints(cb1_q8@);
    let mut w: Vec<u16> = Vec::with_capacity(order);
    for k in 0..order
        invariant
            order == cb1_q8@.len(),
            c == signed_ints(cb1_q8@),
            row_in_range(c),
            w@.len() == k,
            forall|j: int| 0 <= j < k ==> #[trigger] w@[j] == weight_q9(c, j) && w@[j] >= 1,
    {
        assert(entry_in_range(c, k as int));
        let prev: i32 = if k == 0 {
            0
        } else {
            cb1_q8[k - 1]
        };
        let next: i32 = if k + 1 == order {
            256
        } else {
            cb1_q8[k + 1]
        };
        let below: i32 = cb1_q8[k] - prev;
        let above: i32 = next - cb1_q8[k];
        let lo: i32 = if below < 1 {
            1
        } else {
            below
        };
        let hi: i32 = if above < 1 {
            1
        } else {
            above
        };
        assert(lo == gap_below(c, k as int) && hi == gap_above(c, k as int));
        proof {
            lemma_share(lo as int);
            lemma_share(hi as int);
        }
        let w2_q18: u32 = (1024 / (lo as u32) + 1024 / (hi as u32)) * 65536;
        w.push(isqrt_q9_approx(w2_q18));
    }
    w
}

proof fn lemma_share(d: int)
    requires
        d >= 1,
    ensures
        0 <= 1024int / d <= 1024,
{
    assert(0 <= 1024int / d <= 1024) by (nonlinear_arith)
        requires
            d >= 1,
    ;
}

/// A dequantised residual is bounded by the number of residuals from it on.
proof fn lemma_residual_bound(is_wb: bool, i1: int, res: Seq<int>, k: int)
    requires
        in_residual_range(res),
        res.len() == order_of(is_wb),
        0 <= i1 < 32,
        0 <= k <= res.len(),
    ensures
        -1900 * (res.len() - k) <= residual_q10(is_wb, i1, res, k) <= 1900 * (res.len() - k),
    decreases res.len() - k,
{
    if k < res.len() {
        lemma_residual_bound(is_wb, i1, res, k + 1);
        let r = residual_q10(is_wb, i1, res, k + 1);
        let w = pred_weight(is_wb, i1, k);
        assert(-10 <= res[k] <= 10);
        let raw = res[k] * 1024 - sign_of(res[k]) * 102;
        let q = step_q16(is_wb);
        assert(-10138 <= raw <= 10138);
        if k + 1 < res.len() {
            lemma_pred_bounds(is_wb, i1, k);
            let b = 1900 * (res.len() - k - 1);
            assert(-b * 255 <= r * w <= b * 255) by (nonlinear_arith)
                requires
                    -b <= r <= b,
                    0 <= w <= 255,
            ;
        } else {
            assert(r == 0);
        }
    }
}

/// Dequantises the residuals `res` (Q10).
fn dequantise(is_wb: bool, i1: usize, res: &Vec<i32>) -> (out: Vec<i32>)
    requires
        i1 < 32,
        res@.len() == order_of(is_wb),
        in_residual_range(signed_ints(res@)),
    ensures
        out@.len() == res@.len(),
        forall|k: int|
            0 <= k < out@.len() ==> #[trigger] out@[k] == residual_q10(
                is_wb,
                i1 as int,
                signed_ints(res@),
                k,
            ),
{
    let order: usize = res.len();
    let ghost r = signed_ints(res@);
    let mut out: Vec<i32> = vec![0i32; order];
    let qstep: i32 = if is_wb {
        9830
    } else {
        11796
    };
    let mut k: usize = order;
    while k > 0
        invariant
            i1 < 32,
            order == res@.len(),
            order == order_of(is_wb),
            r == signed_ints(res@),
            in_residual_range(r),
            qstep == step_q16(is_wb),
            out@.len() == order,
            k <= order,
            forall|j: int|
                k <= j < order ==> #[trigger] out@[j] == residual_q10(is_wb, i1 as int, r, j),
        decreases k,
    {
        k = k - 1;
        proof {
            lemma_residual_bound(is_wb, i1 as int, r, k as int);
            lemma_residual_bound(is_wb, i1 as int, r, k + 1);
        }
        let prev_term: i32 = if k + 1 < order {
            let pred: i32 = pred_weight_q8(i1, k, is_wb) as i32;
            let above: i32 = out[k + 1];
            assert(above == residual_q10(is_wb, i1 as int, r, k + 1));
            assert(-28500 * 255 <= above * pred <= 28500 * 255) by (nonlinear_arith)
                requires
                    -28500 <= above <= 28500,
                    0 <= pred <= 255,
            ;
            proof {
                lemma_shr8((above * pred) as i32);
            }
            (above * pred) >> 8
        } else {
            assert(residual_q10(is_wb, i1 as int, r, k + 1) * pred_weight(
                is_wb,
                i1 as int,
                k as int,
            ) == 0) by (nonlinear_arith)
                requires
                    residual_q10(is_wb, i1 as int, r, k + 1) == 0,
            ;
            0
        };
        let i2: i32 = res[k];
        assert(-10 <= r[k as int] <= 10);
        let sign: i32 = if i2 < 0 {
            -1
        } else if i2 > 0 {
            1
        } else {
            0
        };
        let raw: i32 = i2 * 1024 - sign * 102;
        proof {
            lemma_shr16((raw * qstep) as i32);
        }
        let own: i32 = (raw * qstep) >> 16;
        assert(prev_term + own == residual_q10(is_wb, i1 as int, r, k as int));
        out[k] = prev_term + own;
    }
    out
}

/// The NLSFs of a stage-1 index and residuals, before stabilisation.
fn reconstruct(is_wb: bool, i1: usize, res: &Vec<i32>) -> (out: Vec<i16>)
    requires
        i1 < 32,
        res@.len() == order_of(is_wb),
        in_residual_range(signed_ints(res@)),
    ensures
        out@.len() == order_of(is_wb),
        short_ints(out@) == limited_nlsfs(is_wb, i1 as int, signed_ints(res@)),
{
    let order: usize = res.len();
    let ghost r = signed_ints(res@);
    let res_q10: Vec<i32> = dequantise(is_wb, i1, res);
    let cb1_q8: Vec<i32> = codebook_values(is_wb, i1);
    let ghost c = codebook_row(is_wb, i1 as int);
    proof {
        assert(c.len() == order);
        assert forall|k: int| 0 <= k < order implies 0 <= #[trigger] c[k] <= 255 by {
            assert(c[k] == cb1_q8@[k]);
        }
        assert forall|k: int| 0 <= k < order implies #[trigger] entry_in_range(c, k) by {
            assert(0 <= c[k] <= 255);
            if k > 0 {
                assert(0 <= c[k - 1] <= 255);
            }
            if k + 1 < order {
                assert(0 <= c[k + 1] <= 255);
            }
        }
    }
    let w_q9: Vec<u16> = compute_ihmw_weights(cb1_q8.as_slice());
    let mut out: Vec<i16> = Vec::new();
    for k in 0..order
        invariant
            i1 < 32,
            order == order_of(is_wb),
            r == signed_ints(res@),
            r.len() == order,
            in_residual_range(r),
            c == codebook_row(is_wb, i1 as int),
            c == signed_ints(cb1_q8@),
            res_q10@.len() == order,
            cb1_q8@.len() == order,
            w_q9@.len() == order,
            forall|j: int|
                0 <= j < order ==> #[trigger] res_q10@[j] == residual_q10(is_wb, i1 as int, r, j),
            forall|j: int| 0 <= j < order ==> 0 <= #[trigger] cb1_q8@[j] <= 255,
            forall|j: int|
                0 <= j < order ==> #[trigger] w_q9@[j] == weight_q9(c, j) && w_q9@[j] >= 1,
            out@.len() == k,
            forall|j: int|
                0 <= j < k ==> #[trigger] out@[j] == limited(
                    raw_nlsf(is_wb, i1 as int, r, j),
                    0,
                    32767,
                ),
    {
        proof {
            lemma_residual_bound(is_wb, i1 as int, r, k as int);
        }
        let scaled: i32 = res_q10[k] * 16384;
        let w: i32 = w_q9[k] as i32;
        let weighted: i32 = scaled / w;
        proof {
            lemma_quotient_bound(scaled as int, w as int);
            assert(weighted == quotient(scaled as int, w as int));
            assert(c[k as int] == cb1_q8@[k as int]);
        }
        let v: i32 = clamp_i32(cb1_q8[k] * 128 + weighted, 0, 32767);
        out.push(v as i16);
    }
    assert(short_ints(out@) =~= limited_nlsfs(is_wb, i1 as int, r));
    out
}

/// Dividing does not make a number larger.
proof fn lemma_quotient_bound(x: int, d: int)
    requires
        d >= 1,
    ensures
        x >= 0 ==> 0 <= quotient(x, d) <= x,
        x < 0 ==> x <= quotient(x, d) <= 0,
{
    if x >= 0 {
        assert(0 <= x / d <= x) by (nonlinear_arith)
            requires
                x >= 0,
                d >= 1,
        ;
    } else {
        let m = -x;
        assert(0 <= m / d <= m) by (nonlinear_arith)
            requires
                m >= 0,
                d >= 1,
        ;
    }
}

/// Between `before` and `after` the NLSFs of a frame were read: the stage-1 index `i1`, the
/// residuals `res` and the interpolation factor `interp`, which is 4 in 10 ms frames.
pub open spec fn read_nlsf(
    before: &RangeDecoder<'_>,
    after: &RangeDecoder<'_>,
    is_wb: bool,
    voiced: bool,
    is_20ms: bool,
    i1: int,
    res: Seq<int>,
    interp: int,
) -> bool {
    &&& 0 <= i1 < 32
    &&& res.len() == order_of(is_wb)
    &&& in_residual_range(res)
    &&& 0 <= interp <= 4
    &&& !is_20ms ==> interp == 4
    &&& has_read(before, after, nlsf_log(is_wb, voiced, i1, res, is_20ms, interp))
}

/// Signal type 2 is voiced.
pub open spec fn is_voiced(signal_type: int) -> bool {
    signal_type == 2
}

/// The decoder's NLSFs for a stage-1 index and residuals.
pub open spec fn decoded_nlsfs(is_wb: bool, i1: int, res: Seq<int>) -> Seq<int> {
    stabilised(limited_nlsfs(is_wb, i1, res), min_deltas(is_wb))
}

/// Between `before` and `after` a frame's NLSFs `nlsf` and their interpolation factor were read.
pub open spec fn read_frame_nlsf(
    before: &RangeDecoder<'_>,
    after: &RangeDecoder<'_>,
    bw: OpusBandwidth,
    signal_type: int,
    is_20ms: bool,
    i1: int,
    res: Seq<int>,
    nlsf: Seq<int>,
    interp: int,
) -> bool {
    &&& read_nlsf(before, after, bw.wide(), is_voiced(signal_type), is_20ms, i1, res, interp)
    &&& nlsf == decoded_nlsfs(bw.wide(), i1, res)
}

/// The NLSFs that stage-1 index `i1` and residuals `res` stand for.
pub fn nlsf_from_indices(is_wb: bool, i1: usize, res: &Vec<i32>) -> (out: Vec<i16>)
    requires
        i1 < 32,
        res@.len() == order_of(is_wb),
        in_residual_range(signed_ints(res@)),
    ensures
        out@.len() == order_of(is_wb),
        short_ints(out@) == decoded_nlsfs(is_wb, i1 as int, signed_ints(res@)),
        forall|k: int| 0 <= k < out@.len() ==> 1 <= #[trigger] out@[k],
{
    let raw: Vec<i16> = reconstruct(is_wb, i1, res);
    stabilize(raw.as_slice(), is_wb)
}

/// Reads the NLSFs of a frame (Q15) and the interpolation factor.
pub fn decode_nlsf(
    rc: &mut RangeDecoder<'_>,
    bw: OpusBandwidth,
    signal_type: u8,
    is_20ms: bool,
) -> (r: Result<(Vec<i16>, u8), SilkError>)
    requires
        can_read(old(rc), 34),
    ensures
        r is Ok,
        r->Ok_0.0@.len() == order_of(bw.wide()),
        forall|k: int| 0 <= k < r->Ok_0.0@.len() ==> 1 <= #[trigger] r->Ok_0.0@[k],
        exists|i1: int, res: Seq<int>|
            #[trigger] read_frame_nlsf(
                old(rc),
                final(rc),
                bw,
                signal_type as int,
                is_20ms,
                i1,
                res,
                short_ints(r->Ok_0.0@),
                r->Ok_0.1 as int,
            ),
        read_log(final(rc)).len() <= read_log(old(rc)).len() + 34,
{
    let voiced: bool = signal_type == 2;
    let is_wb: bool = bw == OpusBandwidth::Wideband;
    let i1: usize = read_symbol(rc, stage1_icdf(is_wb, voiced));
    let res: Vec<i32> = decode_stage2(rc, is_wb, i1);
    let interp_coef: u8 = if is_20ms {
        read_symbol(rc, interp_icdf()) as u8
    } else {
        4
    };
    proof {
        assert(read_log(rc) =~= read_log(old(rc)) + nlsf_log(
            is_wb,
            voiced,
            i1 as int,
            signed_ints(res@),
            is_20ms,
            interp_coef as int,
        ));
    }
    let nlsf: Vec<i16> = nlsf_from_indices(is_wb, i1, &res);
    let out: Result<(Vec<i16>, u8), SilkError> = Ok((nlsf, interp_coef));
    assert(read_frame_nlsf(
        old(rc),
        rc,
        bw,
        signal_type as int,
        is_20ms,
        i1 as int,
        signed_ints(res@),
        short_ints(out->Ok_0.0@),
        out->Ok_0.1 as int,
    ));
    out
}

/// The decoder's NLSFs for a stage-1 index and the first `order` residuals, before stabilisation.
/// Residuals are limited as they are when written.
pub fn synthesize_nlsf_like_decoder(
    stage1: usize,
    _voiced: bool,
    order: usize,
    residuals: &[i32],
) -> (out: Vec<i16>)
    requires
        stage1 < 32,
        order == 10 || order == 16,
        residuals@.len() >= order,
    ensures
        out@.len() == order,
        short_ints(out@) == limited_nlsfs(
            order == 16,
            stage1 as int,
            limited_residuals(signed_ints(residuals@).take(order as int)),
        ),
{
    let mut res: Vec<i32> = Vec::new();
    for k in 0..order
        invariant
            residuals@.len() >= order,
            res@.len() == k,
            forall|j: int|
                0 <= j < k ==> #[trigger] res@[j] == limited(residuals@[j] as int, -10, 10),
    {
        res.push(clamp_i32(residuals[k], -10, 10));
    }
    assert(signed_ints(res@) =~= limited_residuals(
        signed_ints(residuals@).take(order as int),
    ));
    reconstruct(order == 16, stage1, &res)
}

} // verus!
