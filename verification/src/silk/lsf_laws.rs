//! What holds of the NLSF coding as a whole.
use oxideav_celt::range_decoder::RangeDecoder;
use vstd::arithmetic::power2::pow2;
use vstd::prelude::*;

use crate::arith::{limited, quotient};
use crate::range_coder::{carries, read_log, symbol, Coded};
use crate::silk::lsf::{
    bits_of, decoded_nlsfs, limited_nlsfs, raw_nlsf, read_frame_nlsf, residual_q10, root_q9,
    weight_q9,
};
use crate::silk::lsf_models::{
    extension_model, in_residual_range, interp_model, limited_residuals, nlsf_log, order_of,
    residual_log, stage1_model, stage2_log, stage2_model,
};
use crate::silk::lsf_tables::{
    codebook_row, gap_above, gap_below, lemma_pred_bounds, lemma_spread, pred_weight,
};
use crate::silk::shell_laws::lemma_next_symbol;
use crate::silk::stabilize::{law_stabilised_spaced, min_deltas, spaced, stabilised};
use crate::toc::OpusBandwidth;

verus! {

/// A number between two powers of two has as many bits as the upper one's exponent.
proof fn lemma_bits_between(x: int, n: nat)
    requires
        n >= 1,
        pow2((n - 1) as nat) <= x < pow2(n),
    ensures
        bits_of(x) == n,
    decreases n,
{
    vstd::arithmetic::power2::lemma2_to64();
    vstd::arithmetic::power2::lemma_pow2_unfold(n);
    vstd::arithmetic::power2::lemma_pow2_pos((n - 1) as nat);
    if n > 1 {
        vstd::arithmetic::power2::lemma_pow2_unfold((n - 1) as nat);
        lemma_bits_between(x / 2, (n - 1) as nat);
    } else {
        assert(x == 1);
        assert(bits_of(0) == 0);
    }
}

/// The approximate root of a moderate number of whole units.
proof fn lemma_root_range(s: int)
    requires
        52 <= s <= 427,
    ensures
        1819 <= root_q9(s * 65536) <= 5227,
{
    vstd::arithmetic::power2::lemma2_to64();
    let x = s * 65536;
    if s < 64 {
        lemma_bits_between(x, 22);
        assert(pow2(14) == 16384);
        assert(pow2(5) == 32 && 46214int / 32 == 1444);
        assert(x / 16384 == s * 4);
        assert((s * 4) % 128 == s * 4 - 128);
        lemma_root_at(x, 22, 14, 5, s * 4 - 128, 1444);
    } else if s < 128 {
        lemma_bits_between(x, 23);
        assert(pow2(15) == 32768);
        assert(pow2(4) == 16 && 32768int / 16 == 2048);
        assert(x / 32768 == s * 2);
        assert((s * 2) % 128 == s * 2 - 128);
        lemma_root_at(x, 23, 15, 4, s * 2 - 128, 2048);
    } else if s < 256 {
        lemma_bits_between(x, 24);
        assert(pow2(16) == 65536);
        assert(pow2(4) == 16 && 46214int / 16 == 2888);
        assert(x / 65536 == s);
        assert((s) % 128 == s - 128);
        lemma_root_at(x, 24, 16, 4, s - 128, 2888);
    } else {
        lemma_bits_between(x, 25);
        assert(pow2(17) == 131072);
        assert(pow2(3) == 8 && 32768int / 8 == 4096);
        assert(x / 131072 == s / 2);
        assert((s / 2) % 128 == s / 2 - 128);
        lemma_root_at(x, 25, 17, 3, s / 2 - 128, 4096);
    }
}

/// The approximate root of a number of `i` bits, from its parts.
proof fn lemma_root_at(x: int, i: int, shift: int, down: int, f: int, y: int)
    requires
        x > 0,
        i == bits_of(x),
        i > 8,
        shift == i - 8,
        down == (32 - i) / 2,
        f == (x / (pow2(shift as nat) as int)) % 128,
        y == (if i % 2 == 1 {
            32768int
        } else {
            46214
        }) / (pow2(down as nat) as int),
    ensures
        root_q9(x) == limited(y + (213 * (f * y)) / 65536, 1, 65535),
{
    reveal(root_q9);
    assert(213 * f * y == 213 * (f * y)) by (nonlinear_arith);
}

/// The weights of all codebook entries lie between 1819 and 5227.
pub proof fn law_weights_in_range(is_wb: bool, i1: int, k: int)
    requires
        0 <= i1 < 32,
        0 <= k < order_of(is_wb),
    ensures
        1819 <= weight_q9(codebook_row(is_wb, i1), k) <= 5227,
{
    lemma_spread(is_wb, i1, k);
    let c = codebook_row(is_wb, i1);
    lemma_root_range(1024int / gap_below(c, k) + 1024int / gap_above(c, k));
}

proof fn lemma_zero_residual(is_wb: bool, i1: int, res: Seq<int>, k: int)
    requires
        forall|j: int| 0 <= j < res.len() ==> #[trigger] res[j] == 0,
        0 <= k <= res.len(),
    ensures
        residual_q10(is_wb, i1, res, k) == 0,
    decreases res.len() - k,
{
    if k < res.len() {
        lemma_zero_residual(is_wb, i1, res, k + 1);
        let w = pred_weight(is_wb, i1, k);
        let r = residual_q10(is_wb, i1, res, k + 1);
        assert(r * w == 0) by (nonlinear_arith)
            requires
                r == 0,
        ;
    }
}

/// Without residuals the NLSFs before stabilisation are the codebook row itself.
pub proof fn law_template_is_codebook_row(is_wb: bool, i1: int, res: Seq<int>, k: int)
    requires
        0 <= i1 < 32,
        res.len() == order_of(is_wb),
        forall|j: int| 0 <= j < res.len() ==> #[trigger] res[j] == 0,
        0 <= k < order_of(is_wb),
    ensures
        limited_nlsfs(is_wb, i1, res)[k] == codebook_row(is_wb, i1)[k] * 128,
{
    lemma_zero_residual(is_wb, i1, res, k);
    lemma_spread(is_wb, i1, k);
    law_weights_in_range(is_wb, i1, k);
    let w = weight_q9(codebook_row(is_wb, i1), k);
    assert(0int / w == 0) by (nonlinear_arith)
        requires
            w > 0,
    ;
    assert(quotient(0, w) == 0);
}

/// The encoder works with the decoder's NLSFs.
pub proof fn law_encoder_mirrors_decoder(is_wb: bool, i1: int, res: Seq<int>)
    requires
        in_residual_range(res),
    ensures
        limited_residuals(res) == res,
        stabilised(limited_nlsfs(is_wb, i1, limited_residuals(res)), min_deltas(is_wb))
            == decoded_nlsfs(is_wb, i1, res),
{
    assert(limited_residuals(res) =~= res);
}

/// Decoded NLSFs keep their least distances, whatever was coded.
pub proof fn law_decoded_nlsfs_spaced(is_wb: bool, i1: int, res: Seq<int>)
    ensures
        spaced(decoded_nlsfs(is_wb, i1, res), min_deltas(is_wb)),
        decoded_nlsfs(is_wb, i1, res).len() == order_of(is_wb),
        forall|k: int|
            0 <= k < order_of(is_wb) ==> 1 <= #[trigger] decoded_nlsfs(is_wb, i1, res)[k]
                <= 32767,
{
    let x = limited_nlsfs(is_wb, i1, res);
    assert forall|k: int| 0 <= k < x.len() implies -32768 <= #[trigger] x[k] <= 32767 by {}
    law_stabilised_spaced(x, is_wb);
}

/// A residual is read back.
proof fn lemma_residual_unique(
    bytes: Seq<u8>,
    past: Seq<Coded>,
    model: Seq<u8>,
    a: int,
    ta: Seq<Coded>,
    b: int,
    tb: Seq<Coded>,
)
    requires
        -10 <= a <= 10,
        -10 <= b <= 10,
        carries(bytes, past + residual_log(model, a) + ta),
        carries(bytes, past + residual_log(model, b) + tb),
    ensures
        a == b,
{
    let none = Seq::<Coded>::empty();
    let sa: int = limited(a, -4, 4) + 4;
    let sb: int = limited(b, -4, 4) + 4;
    let ra = residual_log(model, a).skip(1);
    let rb = residual_log(model, b).skip(1);
    assert(past + residual_log(model, a) + ta =~= past + seq![symbol(model, sa)] + (ra + ta));
    assert(past + residual_log(model, b) + tb =~= past + seq![symbol(model, sb)] + (rb + tb));
    lemma_next_symbol(bytes, past, model, sa, ra + ta, sb, rb + tb);
    if sa == 8 || sa == 0 {
        let p = past + seq![symbol(model, sa)];
        let ea: int = if a >= 4 {
            a - 4
        } else {
            -a - 4
        };
        let eb: int = if b >= 4 {
            b - 4
        } else {
            -b - 4
        };
        assert(past + residual_log(model, a) + ta =~= p + seq![symbol(extension_model(), ea)]
            + ta);
        assert(past + residual_log(model, b) + tb =~= p + seq![symbol(extension_model(), eb)]
            + tb);
        lemma_next_symbol(bytes, p, extension_model(), ea, ta, eb, tb);
    }
}

/// All residuals are read back, given the stage-1 index.
pub proof fn law_stage2_reads_back(
    bytes: Seq<u8>,
    past: Seq<Coded>,
    is_wb: bool,
    i1: int,
    a: Seq<int>,
    ta: Seq<Coded>,
    b: Seq<int>,
    tb: Seq<Coded>,
)
    requires
        a.len() == b.len(),
        in_residual_range(a),
        in_residual_range(b),
        carries(bytes, past + stage2_log(is_wb, i1, a) + ta),
        carries(bytes, past + stage2_log(is_wb, i1, b) + tb),
    ensures
        a == b,
    decreases a.len(),
{
    if a.len() > 0 {
        let n = a.len() - 1;
        let model = stage2_model(is_wb, i1, n);
        let ha = stage2_log(is_wb, i1, a.drop_last());
        let hb = stage2_log(is_wb, i1, b.drop_last());
        let ea = residual_log(model, a.last());
        let eb = residual_log(model, b.last());
        assert(past + stage2_log(is_wb, i1, a) + ta =~= past + ha + (ea + ta));
        assert(past + stage2_log(is_wb, i1, b) + tb =~= past + hb + (eb + tb));
        assert(in_residual_range(a.drop_last())) by {
            assert forall|k: int| 0 <= k < n implies -10 <= #[trigger] a.drop_last()[k] <= 10 by {
                assert(-10 <= a[k] <= 10);
            }
        }
        assert(in_residual_range(b.drop_last())) by {
            assert forall|k: int| 0 <= k < n implies -10 <= #[trigger] b.drop_last()[k] <= 10 by {
                assert(-10 <= b[k] <= 10);
            }
        }
        law_stage2_reads_back(
            bytes,
            past,
            is_wb,
            i1,
            a.drop_last(),
            ea + ta,
            b.drop_last(),
            eb + tb,
        );
        assert(-10 <= a[n] <= 10 && -10 <= b[n] <= 10);
        assert(past + ha + (ea + ta) =~= (past + ha) + ea + ta);
        assert(past + hb + (eb + tb) =~= (past + ha) + eb + tb);
        lemma_residual_unique(bytes, past + ha, model, a.last(), ta, b.last(), tb);
        assert(a =~= a.drop_last().push(a.last()));
        assert(b =~= b.drop_last().push(b.last()));
    } else {
        assert(a =~= b);
    }
}

/// The indices of a frame's NLSFs are read back.
pub proof fn law_nlsf_reads_back(
    bytes: Seq<u8>,
    past: Seq<Coded>,
    is_wb: bool,
    voiced: bool,
    is_20ms: bool,
    ia: int,
    a: Seq<int>,
    wa: int,
    ta: Seq<Coded>,
    ib: int,
    b: Seq<int>,
    wb: int,
    tb: Seq<Coded>,
)
    requires
        0 <= ia,
        0 <= ib,
        0 <= wa,
        0 <= wb,
        a.len() == b.len(),
        in_residual_range(a),
        in_residual_range(b),
        carries(bytes, past + nlsf_log(is_wb, voiced, ia, a, is_20ms, wa) + ta),
        carries(bytes, past + nlsf_log(is_wb, voiced, ib, b, is_20ms, wb) + tb),
    ensures
        ia == ib,
        a == b,
        is_20ms ==> wa == wb,
{
    let model = stage1_model(is_wb, voiced);
    let none = Seq::<Coded>::empty();
    let fa = if is_20ms {
        seq![symbol(interp_model(), wa)]
    } else {
        none
    };
    let fb = if is_20ms {
        seq![symbol(interp_model(), wb)]
    } else {
        none
    };
    let la = past + nlsf_log(is_wb, voiced, ia, a, is_20ms, wa) + ta;
    let lb = past + nlsf_log(is_wb, voiced, ib, b, is_20ms, wb) + tb;
    let sa = stage2_log(is_wb, ia, a);
    let sb = stage2_log(is_wb, ib, b);
    assert(la =~= past + seq![symbol(model, ia)] + (sa + fa + ta));
    assert(lb =~= past + seq![symbol(model, ib)] + (sb + fb + tb));
    lemma_next_symbol(bytes, past, model, ia, sa + fa + ta, ib, sb + fb + tb);
    let p = past + seq![symbol(model, ia)];
    assert(la =~= p + sa + (fa + ta));
    assert(lb =~= p + sb + (fb + tb));
    law_stage2_reads_back(bytes, p, is_wb, ia, a, fa + ta, b, fb + tb);
    if is_20ms {
        assert(la =~= (p + sa) + seq![symbol(interp_model(), wa)] + ta);
        assert(lb =~= (p + sa) + seq![symbol(interp_model(), wb)] + tb);
        lemma_next_symbol(bytes, p + sa, interp_model(), wa, ta, wb, tb);
    }
}

/// Residuals that are zero from `k + 1` on.
pub open spec fn none_above(res: Seq<int>, k: int) -> bool {
    forall|j: int| k < j < res.len() ==> #[trigger] res[j] == 0
}

/// A residual with none above it: its size less a tenth of a step (102 of 1024), with its sign,
/// times the step of 11796 (9830 in wide band) in 65536, rounded down.
pub proof fn law_residual_step(is_wb: bool, i1: int, res: Seq<int>, k: int)
    requires
        0 <= k < res.len(),
        none_above(res, k),
    ensures
        ({
            let size = if res[k] > 0 {
                1024 * res[k] - 102
            } else if res[k] < 0 {
                1024 * res[k] + 102
            } else {
                0
            };
            let q = residual_q10(is_wb, i1, res, k);
            &&& is_wb ==> 0 <= size * 9830 - 65536 * q < 65536
            &&& !is_wb ==> 0 <= size * 11796 - 65536 * q < 65536
        }),
{
    lemma_nothing_above(is_wb, i1, res, k + 1);
    let w = pred_weight(is_wb, i1, k);
    assert(0 * w == 0) by (nonlinear_arith);
}

proof fn lemma_nothing_above(is_wb: bool, i1: int, res: Seq<int>, k: int)
    requires
        0 < k <= res.len(),
        none_above(res, k - 1),
    ensures
        residual_q10(is_wb, i1, res, k) == 0,
    decreases res.len() - k,
{
    if k < res.len() {
        lemma_nothing_above(is_wb, i1, res, k + 1);
        assert(res[k] == 0);
        let w = pred_weight(is_wb, i1, k);
        assert(0 * w == 0) by (nonlinear_arith);
    }
}

/// `res` without what lies above `k`.
pub open spec fn up_to(res: Seq<int>, k: int) -> Seq<int> {
    Seq::new(
        res.len(),
        |j: int|
            if j <= k {
                res[j]
            } else {
                0
            },
    )
}

/// Prediction adds: a residual is what it would be by itself plus the one above it times their
/// weight in 256, rounded down.
pub proof fn law_prediction_adds(is_wb: bool, i1: int, res: Seq<int>, k: int)
    requires
        0 <= k < res.len(),
    ensures
        ({
            let gain = residual_q10(is_wb, i1, res, k) - residual_q10(is_wb, i1, up_to(res, k), k);
            let above = residual_q10(is_wb, i1, res, k + 1);
            0 <= above * pred_weight(is_wb, i1, k) - 256 * gain < 256
        }),
        k + 1 == res.len() ==> residual_q10(is_wb, i1, res, k + 1) == 0,
{
    let alone = up_to(res, k);
    assert(none_above(alone, k));
    lemma_nothing_above(is_wb, i1, alone, k + 1);
    let w = pred_weight(is_wb, i1, k);
    assert(0 * w == 0) by (nonlinear_arith);
    assert(alone[k] == res[k]);
}

/// An NLSF is 128 times its codebook entry plus its residual times 16384 over its weight, rounded
/// towards zero.
pub proof fn law_nlsf_is_entry_plus_weighted_residual(is_wb: bool, i1: int, res: Seq<int>, k: int)
    requires
        0 <= i1 < 32,
        0 <= k < order_of(is_wb),
    ensures
        ({
            let off = raw_nlsf(is_wb, i1, res, k) - 128 * codebook_row(is_wb, i1)[k];
            let r = residual_q10(is_wb, i1, res, k);
            let w = weight_q9(codebook_row(is_wb, i1), k);
            &&& r >= 0 ==> off >= 0 && 0 <= 16384 * r - off * w < w
            &&& r <= 0 ==> off <= 0 && 0 <= off * w - 16384 * r < w
        }),
{
    law_weights_in_range(is_wb, i1, k);
    let r = residual_q10(is_wb, i1, res, k);
    let w = weight_q9(codebook_row(is_wb, i1), k);
    lemma_division(r * 16384, w);
    lemma_division(-(r * 16384), w);
    let off = quotient(r * 16384, w);
    if r <= 0 {
        let m = (-(r * 16384)) / w;
        assert(off == -m) by {
            if r == 0 {
                assert(0int / w == 0) by (nonlinear_arith)
                    requires
                        w > 0,
                ;
            }
        }
        assert(off * w == -(m * w)) by (nonlinear_arith)
            requires
                off == -m,
        ;
    }
}

proof fn lemma_division(x: int, d: int)
    requires
        d > 0,
    ensures
        0 <= x - (x / d) * d < d,
        x >= 0 ==> x / d >= 0,
{
    vstd::arithmetic::div_mod::lemma_fundamental_div_mod(x, d);
    vstd::arithmetic::div_mod::lemma_mod_bound(x, d);
    assert(d * (x / d) == (x / d) * d) by (nonlinear_arith);
    if x >= 0 {
        vstd::arithmetic::div_mod::lemma_div_pos_is_pos(x, d);
    }
}

/// Before stabilisation NLSFs lie within 0 and 32767, and are not touched where they did before.
pub proof fn law_nlsfs_are_limited(is_wb: bool, i1: int, res: Seq<int>, k: int)
    requires
        0 <= k < order_of(is_wb),
    ensures
        ({
            let n = limited_nlsfs(is_wb, i1, res)[k];
            let raw = raw_nlsf(is_wb, i1, res, k);
            &&& raw < 0 ==> n == 0
            &&& 0 <= raw <= 32767 ==> n == raw
            &&& raw > 32767 ==> n == 32767
        }),
        limited_nlsfs(is_wb, i1, res).len() == order_of(is_wb),
{
}

/// Larger residuals mean larger dequantised ones.
proof fn lemma_residuals_rise(is_wb: bool, i1: int, a: Seq<int>, b: Seq<int>, k: int)
    requires
        0 <= i1 < 32,
        a.len() == order_of(is_wb),
        b.len() == a.len(),
        0 <= k <= a.len(),
        forall|j: int| 0 <= j < a.len() ==> #[trigger] a[j] <= b[j],
    ensures
        residual_q10(is_wb, i1, a, k) <= residual_q10(is_wb, i1, b, k),
    decreases a.len() - k,
{
    if k < a.len() {
        lemma_residuals_rise(is_wb, i1, a, b, k + 1);
        let (x, y) = (residual_q10(is_wb, i1, a, k + 1), residual_q10(is_wb, i1, b, k + 1));
        let w = pred_weight(is_wb, i1, k);
        if k + 1 < a.len() {
            lemma_pred_bounds(is_wb, i1, k);
            assert(x * w <= y * w) by (nonlinear_arith)
                requires
                    x <= y,
                    w >= 0,
            ;
        } else {
            assert(x == 0 && y == 0);
        }
        assert(a[k] <= b[k]);
    }
}

/// NLSFs rise with the residuals: where no residual is smaller, no NLSF before stabilisation is.
/// So raising the residual above one, too, never lowers it.
pub proof fn law_nlsfs_rise_with_residuals(
    is_wb: bool,
    i1: int,
    a: Seq<int>,
    b: Seq<int>,
    k: int,
)
    requires
        0 <= i1 < 32,
        a.len() == order_of(is_wb),
        b.len() == a.len(),
        0 <= k < a.len(),
        forall|j: int| 0 <= j < a.len() ==> #[trigger] a[j] <= b[j],
    ensures
        limited_nlsfs(is_wb, i1, a)[k] <= limited_nlsfs(is_wb, i1, b)[k],
{
    lemma_residuals_rise(is_wb, i1, a, b, k);
    law_weights_in_range(is_wb, i1, k);
    let w = weight_q9(codebook_row(is_wb, i1), k);
    lemma_quotient_rises(
        residual_q10(is_wb, i1, a, k) * 16384,
        residual_q10(is_wb, i1, b, k) * 16384,
        w,
    );
}

proof fn lemma_quotient_rises(x: int, y: int, d: int)
    requires
        x <= y,
        d > 0,
    ensures
        quotient(x, d) <= quotient(y, d),
{
    if x >= 0 {
        vstd::arithmetic::div_mod::lemma_div_is_ordered(x, y, d);
    } else if y < 0 {
        vstd::arithmetic::div_mod::lemma_div_is_ordered(-y, -x, d);
    } else {
        lemma_division(-x, d);
        lemma_division(y, d);
    }
}

/// A positive residual lifts the NLSF below it, where that has none of its own, by the weight of
/// its prediction.
pub proof fn law_residual_lifts_its_neighbour(is_wb: bool, i1: int, res: Seq<int>, k: int)
    requires
        0 <= i1 < 32,
        res.len() == order_of(is_wb),
        0 <= k,
        k + 1 < res.len(),
        res[k] == 0,
        res[k + 1] > 0,
        none_above(res, k + 1),
    ensures
        ({
            let above = residual_q10(is_wb, i1, res, k + 1);
            let lift = residual_q10(is_wb, i1, res, k);
            &&& above > 0
            &&& 0 <= above * pred_weight(is_wb, i1, k) - 256 * lift < 256
            &&& lift >= 0
            &&& raw_nlsf(is_wb, i1, res, k) >= 128 * codebook_row(is_wb, i1)[k]
        }),
{
    law_residual_step(is_wb, i1, res, k + 1);
    law_prediction_adds(is_wb, i1, res, k);
    law_residual_step(is_wb, i1, up_to(res, k), k);
    lemma_pred_bounds(is_wb, i1, k);
    let above = residual_q10(is_wb, i1, res, k + 1);
    let w = pred_weight(is_wb, i1, k);
    assert(above * w >= 0) by (nonlinear_arith)
        requires
            above >= 0,
            w >= 0,
    ;
    law_nlsf_is_entry_plus_weighted_residual(is_wb, i1, res, k);
}

/// Straight lines from octave to octave keep close to the root.
proof fn lemma_lines_accurate(s: u32, w: u32)
    requires
        52 <= s <= 427,
        s < 64 ==> -65536 < 65536 * w - 1444 * (65536 + 213 * (4 * s - 128)) <= 0,
        64 <= s < 128 ==> -65536 < 65536 * w - 2048 * (65536 + 213 * (2 * s - 128)) <= 0,
        128 <= s < 256 ==> -65536 < 65536 * w - 2888 * (65536 + 213 * (s - 128)) <= 0,
        256 <= s ==> -65536 < 65536 * w - 4096 * (65536 + 213 * (s / 2 - 128)) <= 0,
    ensures
        27 * (s * 65536) <= 28 * (w * w) <= 29 * (s * 65536),
{
    if s < 64 {
        assert(27 * (s * 65536) <= 28 * (w * w) && 28 * (w * w) <= 29 * (s * 65536))
            by (bit_vector)
            requires
                s >= 52,
                s < 64,
                w <= 6000,
                65536 * w <= 1444 * (65536 + 213 * (4 * s - 128)),
                1444 * (65536 + 213 * (4 * s - 128)) < 65536 * w + 65536,
        ;
    } else if s < 128 {
        assert(27 * (s * 65536) <= 28 * (w * w) && 28 * (w * w) <= 29 * (s * 65536))
            by (bit_vector)
            requires
                s >= 64,
                s < 128,
                w <= 6000,
                65536 * w <= 2048 * (65536 + 213 * (2 * s - 128)),
                2048 * (65536 + 213 * (2 * s - 128)) < 65536 * w + 65536,
        ;
    } else if s < 256 {
        assert(27 * (s * 65536) <= 28 * (w * w) && 28 * (w * w) <= 29 * (s * 65536))
            by (bit_vector)
            requires
                s >= 128,
                s < 256,
                w <= 6000,
                65536 * w <= 2888 * (65536 + 213 * (1 * s - 128)),
                2888 * (65536 + 213 * (1 * s - 128)) < 65536 * w + 65536,
        ;
    } else {
        let h: u32 = s / 2;
        assert(27 * (s * 65536) <= 28 * (w * w) && 28 * (w * w) <= 29 * (s * 65536))
            by (bit_vector)
            requires
                h >= 128,
                h <= 213,
                2 * h <= s,
                s <= 2 * h + 1,
                w <= 6000,
                65536 * w <= 4096 * (65536 + 213 * (h - 128)),
                4096 * (65536 + 213 * (h - 128)) < 65536 * w + 65536,
        ;
    }
}

proof fn lemma_root_accurate(s: int)
    requires
        52 <= s <= 427,
    ensures
        27 * (s * 65536) <= 28 * (root_q9(s * 65536) * root_q9(s * 65536)) <= 29 * (s * 65536),
{
    law_root_by_straight_lines(s);
    lemma_root_range(s);
    lemma_lines_accurate(s as u32, root_q9(s * 65536) as u32);
}

/// The weight of a codebook entry is close to the square root of 65536 times the sum of 1024 over
/// its distances from its neighbours, each quotient rounded down: its square is off by less than a
/// part in 28.
pub proof fn law_weight_is_near_the_root(is_wb: bool, i1: int, k: int)
    requires
        0 <= i1 < 32,
        0 <= k < order_of(is_wb),
    ensures
        ({
            let c = codebook_row(is_wb, i1);
            let x = (1024int / gap_below(c, k) + 1024int / gap_above(c, k)) * 65536;
            let w = weight_q9(c, k);
            27 * x <= 28 * (w * w) <= 29 * x
        }),
{
    let c = codebook_row(is_wb, i1);
    lemma_spread(is_wb, i1, k);
    lemma_root_accurate(1024int / gap_below(c, k) + 1024int / gap_above(c, k));
}

/// The approximate root of a moderate number of whole units, as straight lines from octave to
/// octave.
pub proof fn law_root_by_straight_lines(s: int)
    requires
        32 <= s < 512,
    ensures
        ({
            let w = 65536 * root_q9(s * 65536);
            &&& s < 64 ==> -65536 < w - 1444 * (65536 + 213 * (4 * s - 128)) <= 0
            &&& 64 <= s < 128 ==> -65536 < w - 2048 * (65536 + 213 * (2 * s - 128)) <= 0
            &&& 128 <= s < 256 ==> -65536 < w - 2888 * (65536 + 213 * (s - 128)) <= 0
            &&& 256 <= s ==> -65536 < w - 4096 * (65536 + 213 * (s / 2 - 128)) <= 0
        }),
{
    vstd::arithmetic::power2::lemma2_to64();
    let x = s * 65536;
    if s < 64 {
        lemma_bits_between(x, 22);
        assert(pow2(5) == 32 && 46214int / 32 == 1444);
        assert(x / 16384 == s * 4);
        lemma_root_at(x, 22, 14, 5, s * 4 - 128, 1444);
    } else if s < 128 {
        lemma_bits_between(x, 23);
        assert(pow2(4) == 16 && 32768int / 16 == 2048);
        assert(x / 32768 == s * 2);
        lemma_root_at(x, 23, 15, 4, s * 2 - 128, 2048);
    } else if s < 256 {
        lemma_bits_between(x, 24);
        assert(pow2(4) == 16 && 46214int / 16 == 2888);
        assert(x / 65536 == s);
        lemma_root_at(x, 24, 16, 4, s - 128, 2888);
    } else {
        lemma_bits_between(x, 25);
        assert(pow2(3) == 8 && 32768int / 8 == 4096);
        assert(x / 131072 == s / 2);
        lemma_root_at(x, 25, 17, 3, s / 2 - 128, 4096);
    }
}

/// What is read of a frame's NLSFs: the indices, whose symbols follow those read before, and the
/// NLSFs that they decode to. A frame of 10 ms has no interpolation factor and counts as 4.
pub proof fn law_nlsfs_as_read(
    before: &RangeDecoder<'_>,
    after: &RangeDecoder<'_>,
    bw: OpusBandwidth,
    signal_type: int,
    is_20ms: bool,
    i1: int,
    res: Seq<int>,
    nlsf: Seq<int>,
    interp: int,
)
    requires
        read_frame_nlsf(before, after, bw, signal_type, is_20ms, i1, res, nlsf, interp),
    ensures
        nlsf == decoded_nlsfs(bw is Wideband, i1, res),
        read_log(after) == read_log(before) + nlsf_log(
            bw is Wideband,
            signal_type == 2,
            i1,
            res,
            is_20ms,
            interp,
        ),
        !is_20ms ==> interp == 4,
        0 <= interp <= 4,
        res.len() == (if bw is Wideband {
            16int
        } else {
            10
        }),
{
    assert(bw.wide() == (bw is Wideband));
}

} // verus!
