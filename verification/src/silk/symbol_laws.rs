//! How values are put together from their symbols, and the order in which symbols are coded.
use vstd::arithmetic::power2::{lemma_pow2_adds, lemma_pow2_pos, lemma2_to64, pow2};
use vstd::prelude::*;

use crate::range_coder::{flag, symbol, Coded};
use crate::silk::frame_code::{
    bare_pitch_log, frame_type_log, gains_log, pitch_log, FrameCode, FrameShape, PitchCode,
};
use crate::silk::frame_models::{
    frame_type_model, gain_delta_model, gain_high_model, gain_low_model, mid_only_model,
    redundancy_model, seed_model,
};
use crate::silk::lsf_models::{
    extension_model, interp_model, nlsf_log, residual_log, stage1_model, stage2_log, stage2_model,
};
use crate::silk::ltp::{primary_lag_coded, primary_lag_log, sent_absolutely, sent_lag};
use crate::silk::ltp_models::{
    contour_model, filter_model, lag_delta_model, lag_high_model, lag_low_model, periodicity_model,
    scaling_model,
};
use crate::silk::packet_code::{has_bit, HeaderCode, PacketCode, PacketShape};
use crate::silk::shell::{
    count_log, counts_log, escape_log, excitation_log, halved, low_log, low_row,
    lows_log, sign_log, signs_log, split_log, splits_log, total, ShellFrame,
};
use crate::silk::shell_tables::{rate_model, sign_model, split_model, LSB_ICDF, PULSE_COUNT_ICDF};
use crate::toc::OpusBandwidth;

verus! {

/// A flag is a bit that is as likely set as not, and a symbol carries its own number.
pub proof fn law_flags_and_symbols(bit: bool, icdf: Seq<u8>, sym: nat)
    ensures
        flag(bit) == (Coded::Bit { logp: 1, bit }),
        symbol(icdf, sym as int) == (Coded::Icdf { icdf, sym }),
{
}

/// The shortest pitch lag of a bandwidth.
spec fn least_lag(bw: OpusBandwidth) -> int {
    if bw is Narrowband {
        16
    } else if bw is Mediumband {
        24
    } else {
        32
    }
}

/// A pitch lag that stands by itself, or has none before it, is the shortest plus four times its
/// second symbol plus its third. Any other is the one before plus its second symbol, less 9. The
/// first symbol tells which.
pub proof fn law_lag_symbols(bw: OpusBandwidth, absolute: bool, lag: int, prev_lag: int)
    requires
        primary_lag_coded(bw, absolute, lag, prev_lag),
    ensures
        ({
            let l = primary_lag_log(bw, absolute, lag, prev_lag);
            let least = if bw is Narrowband {
                16int
            } else if bw is Mediumband {
                24int
            } else {
                32int
            };
            &&& l[0] == (Coded::Bit { logp: 1, bit: absolute })
            &&& absolute || prev_lag == 0 ==> l.len() == 3 && exists|h: int, m: int|
                {
                    &&& #[trigger] symbol(lag_high_model(), h) == l[1]
                    &&& #[trigger] symbol(lag_low_model(), m) == l[2]
                    &&& 0 <= h < 32
                    &&& 0 <= m < 4
                    &&& lag == least + 4 * h + m
                }
            &&& !absolute && prev_lag != 0 ==> l.len() == 2 && exists|d: int|
                #[trigger] symbol(lag_delta_model(), d) == l[1] && 0 <= d <= 20 && lag == prev_lag
                    + d - 9
        }),
{
    let l = primary_lag_log(bw, absolute, lag, prev_lag);
    if absolute || prev_lag == 0 {
        let raw = lag - least_lag(bw);
        assert(l.len() == 3);
        assert(symbol(lag_high_model(), raw / 4) == l[1]);
        assert(symbol(lag_low_model(), raw % 4) == l[2]);
    } else {
        assert(l.len() == 2);
        assert(symbol(lag_delta_model(), lag - prev_lag + 9) == l[1]);
    }
}

/// A lag within range goes as a change where it is at most 9 below or 11 above the one before, and
/// by itself otherwise. By itself, it is cut off at 127 above the shortest.
pub proof fn law_lag_choice(bw: OpusBandwidth, lag: int, prev_lag: int)
    ensures
        ({
            let least = if bw is Narrowband {
                16int
            } else if bw is Mediumband {
                24int
            } else {
                32int
            };
            &&& lag < least ==> sent_lag(bw, lag, prev_lag) == sent_lag(bw, least, prev_lag)
            &&& lag > 9 * least ==> sent_lag(bw, lag, prev_lag) == sent_lag(
                bw,
                9 * least,
                prev_lag,
            )
            &&& least <= lag <= 9 * least ==> {
                let near = prev_lag != 0 && -9 <= lag - prev_lag <= 11;
                &&& sent_absolutely(bw, lag, prev_lag) == !near
                &&& near || lag <= least + 127 ==> sent_lag(bw, lag, prev_lag) == lag
                &&& !near && lag > least + 127 ==> sent_lag(bw, lag, prev_lag) == least + 127
            }
        }),
{
}

/// A residual within 3 of zero is its symbol less 4. Symbols 8 and 0 stand for 4 and -4, and a
/// second symbol takes them further from zero.
pub proof fn law_residual_symbols(model: Seq<u8>, r: int)
    requires
        -10 <= r <= 10,
    ensures
        ({
            let l = residual_log(model, r);
            exists|s: int|
                {
                    &&& #[trigger] symbol(model, s) == l[0]
                    &&& 0 <= s <= 8
                    &&& 1 <= s <= 7 ==> l.len() == 1 && r == s - 4
                    &&& s == 8 ==> l.len() == 2 && r >= 4 && l[1] == symbol(
                        extension_model(),
                        r - 4,
                    )
                    &&& s == 0 ==> l.len() == 2 && r <= -4 && l[1] == symbol(
                        extension_model(),
                        -4 - r,
                    )
                }
        }),
{
    let s = if r >= 4 {
        8
    } else if r <= -4 {
        0
    } else {
        r + 4
    };
    assert(symbol(model, s) == residual_log(model, r)[0]);
}

/// NLSFs are coded as the stage-1 index, the residuals from the lowest up, each under its own
/// model, and in 20 ms frames the interpolation factor.
pub proof fn law_nlsf_layout(
    is_wb: bool,
    voiced: bool,
    i1: int,
    res: Seq<int>,
    r: int,
    is_20ms: bool,
    interp: int,
)
    ensures
        nlsf_log(is_wb, voiced, i1, res, is_20ms, interp)[0] == symbol(
            stage1_model(is_wb, voiced),
            i1,
        ),
        !is_20ms ==> nlsf_log(is_wb, voiced, i1, res, is_20ms, interp).skip(1) == stage2_log(
            is_wb,
            i1,
            res,
        ),
        is_20ms ==> nlsf_log(is_wb, voiced, i1, res, is_20ms, interp).skip(1) == stage2_log(
            is_wb,
            i1,
            res,
        ).push(symbol(interp_model(), interp)),
        stage2_log(is_wb, i1, Seq::empty()) == Seq::<Coded>::empty(),
        stage2_log(is_wb, i1, res.push(r)) == stage2_log(is_wb, i1, res) + residual_log(
            stage2_model(is_wb, i1, res.len() as int),
            r,
        ),
{
    let l = nlsf_log(is_wb, voiced, i1, res, is_20ms, interp);
    let s = stage2_log(is_wb, i1, res);
    if is_20ms {
        assert(l.skip(1) =~= s.push(symbol(interp_model(), interp)));
    } else {
        assert(l.skip(1) =~= s);
    }
    assert(res.push(r).drop_last() =~= res);
}

/// The gain index is eight times its first symbol plus its second. The changes follow, one symbol
/// each.
pub proof fn law_gain_symbols(signal_type: int, gain: int, deltas: Seq<int>, k: int)
    requires
        0 <= gain <= 63,
        0 <= k < deltas.len(),
    ensures
        ({
            let l = gains_log(signal_type, gain, deltas);
            &&& l.len() == deltas.len() + 2
            &&& exists|h: int, m: int|
                {
                    &&& #[trigger] symbol(gain_high_model(signal_type), h) == l[0]
                    &&& #[trigger] symbol(gain_low_model(), m) == l[1]
                    &&& 0 <= h < 8
                    &&& 0 <= m < 8
                    &&& gain == 8 * h + m
                }
            &&& l[k + 2] == symbol(gain_delta_model(), deltas[k])
        }),
{
    let l = gains_log(signal_type, gain, deltas);
    assert(symbol(gain_high_model(signal_type), gain / 8) == l[0]);
    assert(symbol(gain_low_model(), gain % 8) == l[1]);
}

/// The frame type is its symbol, and two more in active frames.
pub proof fn law_frame_type_symbol(active: bool, frame_type: int)
    requires
        active ==> 2 <= frame_type <= 5,
        !active ==> 0 <= frame_type <= 1,
    ensures
        exists|s: int|
            {
                &&& frame_type_log(active, frame_type) == seq![
                    #[trigger] symbol(frame_type_model(active), s),
                ]
                &&& active ==> frame_type == s + 2
                &&& !active ==> frame_type == s
            },
{
    let s = if active {
        frame_type - 2
    } else {
        frame_type
    };
    assert(frame_type_log(active, frame_type) =~= seq![symbol(frame_type_model(active), s)]);
}

/// Long-term prediction is coded as the lag, the contour, the periodicity class, a filter for each
/// subframe in turn and the scale.
pub proof fn law_pitch_layout(bw: OpusBandwidth, prev_lag: int, p: PitchCode, k: int)
    requires
        0 <= k < p.filters.len(),
    ensures
        ({
            let l = pitch_log(bw, prev_lag, p);
            let lag = primary_lag_log(bw, p.absolute, p.lag, prev_lag);
            let n = lag.len() as int;
            &&& l.len() == n + 3 + p.filters.len()
            &&& l.take(n) == lag
            &&& l[n] == symbol(contour_model(), p.contour)
            &&& l[n + 1] == symbol(periodicity_model(), p.periodicity)
            &&& l[n + 2 + k] == symbol(filter_model(p.periodicity), p.filters[k])
            &&& l.last() == symbol(scaling_model(), p.scaling)
            &&& bare_pitch_log(bw, prev_lag, p) == l.drop_last()
        }),
{
    let l = pitch_log(bw, prev_lag, p);
    let lag = primary_lag_log(bw, p.absolute, p.lag, prev_lag);
    assert(l.take(lag.len() as int) =~= lag);
    assert(bare_pitch_log(bw, prev_lag, p) =~= l.drop_last());
}

/// A frame is coded as its type, its gains, its NLSFs, its long-term prediction where it is voiced,
/// the seed and the excitation, in this order.
pub proof fn law_frame_layout(code: FrameCode, shape: FrameShape)
    requires
        0 <= code.frame_type <= 5,
    ensures
        ({
            let l = code.log(shape);
            let (st, qot) = (code.frame_type / 2, code.frame_type % 2);
            let g = gains_log(st, code.gain, code.deltas);
            let wide = shape.bw is Wideband;
            let s = nlsf_log(wide, st == 2, code.i1, code.res, shape.subframes == 4, code.interp);
            let p = if st == 2 {
                pitch_log(shape.bw, shape.prev_lag, code.pitch)
            } else {
                Seq::empty()
            };
            let e = excitation_log(st, qot, code.rate, code.x);
            let i = 1 + g.len() as int;
            let j = i + s.len() as int;
            let m = j + p.len() as int;
            &&& l.len() == m + 1 + e.len()
            &&& l.take(1) == frame_type_log(shape.active, code.frame_type)
            &&& l.subrange(1, i) == g
            &&& l.subrange(i, j) == s
            &&& l.subrange(j, m) == p
            &&& l[m] == symbol(seed_model(), code.seed)
            &&& l.skip(m + 1) == e
        }),
{
    reveal(FrameCode::log);
    let l = code.log(shape);
    let st = code.frame_type / 2;
    let g = gains_log(st, code.gain, code.deltas);
    let wide = shape.bw is Wideband;
    let s = nlsf_log(wide, st == 2, code.i1, code.res, shape.subframes == 4, code.interp);
    let p = if st == 2 {
        pitch_log(shape.bw, shape.prev_lag, code.pitch)
    } else {
        Seq::empty()
    };
    let e = excitation_log(st, code.frame_type % 2, code.rate, code.x);
    let i = 1 + g.len() as int;
    let j = i + s.len() as int;
    let m = j + p.len() as int;
    assert(shape.bw.wide() == wide);
    let t = frame_type_log(shape.active, code.frame_type);
    assert(l == t + g + s + p + seq![symbol(seed_model(), code.seed)] + e);
    assert(l.take(1) =~= t);
    assert(l.subrange(1, i) =~= g);
    assert(l.subrange(i, j) =~= s);
    assert(l.subrange(j, m) =~= p);
    assert(l.skip(m + 1) =~= e);
}

/// Each low-order bit of a block is announced by symbol 17: the first under the model of the rate
/// level, the others under model 9. The number of pulses follows, under the model of the rate level
/// where there are no low-order bits, under model 10 where there are ten, and else under model 9.
pub proof fn law_count_symbols(rate: int, shift: int, count: int, i: int)
    requires
        0 <= shift <= 10,
        0 <= i < shift,
    ensures
        count_log(rate, shift, count).len() == shift + 1,
        count_log(rate, shift, count)[i] == symbol(
            PULSE_COUNT_ICDF@[if i == 0 {
                rate
            } else {
                9
            }]@,
            17,
        ),
        count_log(rate, shift, count).last() == symbol(
            PULSE_COUNT_ICDF@[if shift == 10 {
                10
            } else {
                9
            }]@,
            count,
        ),
        count_log(rate, 0, count) == seq![symbol(PULSE_COUNT_ICDF@[rate]@, count)],
{
    lemma_escapes(rate, shift, i);
    assert(count_log(rate, 0, count) =~= seq![symbol(PULSE_COUNT_ICDF@[rate]@, count)]);
}

proof fn lemma_escapes(rate: int, n: int, i: int)
    requires
        0 <= i < n <= 10,
    ensures
        escape_log(rate, n).len() == n,
        escape_log(rate, n)[i] == symbol(
            PULSE_COUNT_ICDF@[if i == 0 {
                rate
            } else {
                9
            }]@,
            17,
        ),
    decreases n,
{
    assert(escape_log(rate, 0).len() == 0);
    if n > 1 && i < n - 1 {
        lemma_escapes(rate, n - 1, i);
    } else if n > 1 {
        lemma_escapes(rate, n - 1, 0);
    }
}

/// How the pulses of a block are placed: first the number of them in the first half, under the
/// model for so many samples and so many pulses in all, then each half in the same way. Samples
/// without pulses, and single ones, need no symbols.
pub proof fn law_split_symbols(p: Seq<int>)
    requires
        p.len() == 2 || p.len() == 4 || p.len() == 8 || p.len() == 16,
    ensures
        total(p) == 0 ==> split_log(p).len() == 0,
        total(p) != 0 ==> {
            let half = (p.len() / 2) as int;
            let (a, b) = (p.subrange(0, half), p.subrange(half, p.len() as int));
            &&& total(a) + total(b) == total(p)
            &&& split_log(p)[0] == symbol(split_model(p.len() as int, total(p)), total(a))
            &&& split_log(p).skip(1) == split_log(a) + split_log(b)
        },
        forall|x: int| split_log(#[trigger] seq![x]).len() == 0,
{
    let half = (p.len() / 2) as int;
    let (a, b) = (p.subrange(0, half), p.subrange(half, p.len() as int));
    assert(a =~= p.take(half));
    assert(b =~= p.skip(half));
    crate::silk::shell::lemma_total_split(p, half);
    if total(p) != 0 {
        assert(split_log(p).skip(1) =~= split_log(a) + split_log(b));
    }
}

/// The low-order bits go from the highest down, all samples of one bit together: symbol
/// `n * b + i` is bit `shift - 1 - b` of sample `i`.
pub proof fn law_low_bit_symbols(m: Seq<int>, shift: int, b: int, i: int)
    requires
        0 <= b < shift,
        0 <= i < m.len(),
        forall|j: int| 0 <= j < m.len() ==> #[trigger] m[j] >= 0,
    ensures
        low_log(m, shift).len() == m.len() * shift,
        low_log(m, shift)[m.len() * b + i] == symbol(
            LSB_ICDF@,
            (m[i] / (pow2((shift - 1 - b) as nat) as int)) % 2,
        ),
    decreases shift,
{
    let n = m.len() as int;
    lemma_low_len(m, shift);
    lemma_low_len(halved(m), shift - 1);
    assert(n * shift == n * (shift - 1) + n) by (nonlinear_arith);
    if b == shift - 1 {
        lemma2_to64();
        assert(m[i] / 1 == m[i]);
        assert(low_log(m, shift)[n * b + i] == low_row(m)[i]);
    } else {
        assert(n * b + i < n * (shift - 1)) by (nonlinear_arith)
            requires
                b <= shift - 2,
                0 <= i < n,
        ;
        assert(n * b >= 0) by (nonlinear_arith)
            requires
                n >= 0,
                b >= 0,
        ;
        assert forall|j: int| 0 <= j < halved(m).len() implies #[trigger] halved(m)[j] >= 0 by {
            assert(m[j] >= 0);
        }
        law_low_bit_symbols(halved(m), shift - 1, b, i);
        let e = shift - 2 - b;
        lemma_pow2_adds(1, e as nat);
        lemma_pow2_pos(e as nat);
        lemma2_to64();
        vstd::arithmetic::div_mod::lemma_div_denominator(m[i], 2, pow2(e as nat) as int);
        assert(low_log(m, shift)[n * b + i] == low_log(halved(m), shift - 1)[n * b + i]);
    }
}

proof fn lemma_low_len(m: Seq<int>, shift: int)
    requires
        shift >= 0,
    ensures
        low_log(m, shift).len() == m.len() * shift,
    decreases shift,
{
    let n = m.len() as int;
    if shift > 0 {
        lemma_low_len(halved(m), shift - 1);
        assert(n * shift == n * (shift - 1) + n) by (nonlinear_arith);
    } else {
        assert(n * 0 == 0) by (nonlinear_arith);
    }
}

/// Signs go in the order of the samples, one symbol for each that is not zero: 0 for a negative
/// one, 1 for a positive one.
pub proof fn law_sign_symbols(model: Seq<u8>, v: Seq<int>, x: int)
    ensures
        sign_log(model, Seq::empty(), 0).len() == 0,
        x == 0 ==> sign_log(model, v.push(x), (v.len() + 1) as int) == sign_log(
            model,
            v,
            v.len() as int,
        ),
        x < 0 ==> sign_log(model, v.push(x), (v.len() + 1) as int) == sign_log(
            model,
            v,
            v.len() as int,
        ).push(symbol(model, 0)),
        x > 0 ==> sign_log(model, v.push(x), (v.len() + 1) as int) == sign_log(
            model,
            v,
            v.len() as int,
        ).push(symbol(model, 1)),
{
    lemma_signs_before(model, v, x, v.len() as int);
}

proof fn lemma_signs_before(model: Seq<u8>, v: Seq<int>, x: int, n: int)
    requires
        n <= v.len(),
    ensures
        sign_log(model, v.push(x), n) == sign_log(model, v, n),
    decreases n,
{
    if n > 0 {
        lemma_signs_before(model, v, x, n - 1);
    }
}

/// An excitation of one block is coded as the rate level, the number of pulses with what announces
/// low-order bits, where there are pulses their places, the low-order bits and the signs.
pub proof fn law_excitation_of_one_block(
    signal_type: int,
    quant_offset_type: int,
    rate: int,
    x: ShellFrame,
)
    requires
        x.shifts.len() == 1,
        x.counts.len() == 1,
        x.values.len() == 1,
    ensures
        excitation_log(signal_type, quant_offset_type, rate, x) == seq![
            symbol(rate_model(signal_type), rate),
        ] + count_log(rate, x.shifts[0], x.counts[0]) + (if x.counts[0] == 0 {
            Seq::empty()
        } else {
            split_log(x.pulses(0))
        }) + low_log(x.all_magnitudes()[0], x.shifts[0]) + sign_log(
            sign_model(signal_type, quant_offset_type, x.counts[0]),
            x.values[0],
            16,
        ),
{
    let none = Seq::<Coded>::empty();
    let c = count_log(rate, x.shifts[0], x.counts[0]);
    let p = if x.counts[0] == 0 {
        none
    } else {
        split_log(x.pulses(0))
    };
    let l = low_log(x.all_magnitudes()[0], x.shifts[0]);
    let s = sign_log(
        sign_model(signal_type, quant_offset_type, x.counts[0]),
        x.values[0],
        16,
    );
    reveal_with_fuel(counts_log, 2);
    reveal_with_fuel(splits_log, 2);
    reveal_with_fuel(lows_log, 2);
    reveal_with_fuel(signs_log, 2);
    assert(counts_log(rate, x.shifts, x.counts) =~= none + c);
    assert(splits_log(x.counts, x.all_pulses()) =~= none + p);
    assert(lows_log(x.shifts, x.all_magnitudes()) =~= none + l);
    assert(signs_log(signal_type, quant_offset_type, x.counts, x.values) =~= none + s);
    assert(none + c =~= c && none + p =~= p && none + l =~= l && none + s =~= s);
}

/// The blocks of an excitation, one after the other.
pub open spec fn joined(a: ShellFrame, b: ShellFrame) -> ShellFrame {
    ShellFrame {
        shifts: a.shifts + b.shifts,
        counts: a.counts + b.counts,
        values: a.values + b.values,
    }
}

/// An excitation of more blocks has each kind of symbol for all blocks in turn: what follows the
/// rate level falls into four parts, and each part of two excitations together is that of the first
/// and then that of the second.
pub proof fn law_excitation_of_more_blocks(
    signal_type: int,
    quant_offset_type: int,
    rate: int,
    a: ShellFrame,
    b: ShellFrame,
)
    requires
        a.shifts.len() == a.counts.len() == a.values.len(),
        b.shifts.len() == b.counts.len() == b.values.len(),
    ensures
        excitation_log(signal_type, quant_offset_type, rate, joined(a, b)) == seq![
            symbol(rate_model(signal_type), rate),
        ] + (counts_log(rate, a.shifts, a.counts) + counts_log(rate, b.shifts, b.counts)) + (
        splits_log(a.counts, a.all_pulses()) + splits_log(b.counts, b.all_pulses())) + (lows_log(
            a.shifts,
            a.all_magnitudes(),
        ) + lows_log(b.shifts, b.all_magnitudes())) + (signs_log(
            signal_type,
            quant_offset_type,
            a.counts,
            a.values,
        ) + signs_log(signal_type, quant_offset_type, b.counts, b.values)),
{
    let x = joined(a, b);
    lemma_counts_join(rate, a.shifts, a.counts, b.shifts, b.counts);
    assert(x.all_pulses() =~= a.all_pulses() + b.all_pulses());
    assert(x.all_magnitudes() =~= a.all_magnitudes() + b.all_magnitudes());
    lemma_splits_join(a.counts, a.all_pulses(), b.counts, b.all_pulses());
    lemma_lows_join(a.shifts, a.all_magnitudes(), b.shifts, b.all_magnitudes());
    lemma_signs_join(signal_type, quant_offset_type, a.counts, a.values, b.counts, b.values);
}

proof fn lemma_counts_join(rate: int, sa: Seq<int>, ca: Seq<int>, sb: Seq<int>, cb: Seq<int>)
    requires
        sa.len() == ca.len(),
        sb.len() == cb.len(),
    ensures
        counts_log(rate, sa + sb, ca + cb) == counts_log(rate, sa, ca) + counts_log(rate, sb, cb),
    decreases cb.len(),
{
    if cb.len() == 0 {
        assert(sa + sb =~= sa && ca + cb =~= ca);
        assert(counts_log(rate, sa, ca) + Seq::<Coded>::empty() =~= counts_log(rate, sa, ca));
    } else {
        lemma_counts_join(rate, sa, ca, sb.drop_last(), cb.drop_last());
        assert((sa + sb).drop_last() =~= sa + sb.drop_last());
        assert((ca + cb).drop_last() =~= ca + cb.drop_last());
        assert(counts_log(rate, sa + sb, ca + cb) =~= counts_log(rate, sa, ca) + counts_log(
            rate,
            sb,
            cb,
        ));
    }
}

proof fn lemma_splits_join(ca: Seq<int>, pa: Seq<Seq<int>>, cb: Seq<int>, pb: Seq<Seq<int>>)
    requires
        ca.len() == pa.len(),
        cb.len() == pb.len(),
    ensures
        splits_log(ca + cb, pa + pb) == splits_log(ca, pa) + splits_log(cb, pb),
    decreases cb.len(),
{
    if cb.len() == 0 {
        assert(ca + cb =~= ca && pa + pb =~= pa);
        assert(splits_log(ca, pa) + Seq::<Coded>::empty() =~= splits_log(ca, pa));
    } else {
        lemma_splits_join(ca, pa, cb.drop_last(), pb.drop_last());
        assert((ca + cb).drop_last() =~= ca + cb.drop_last());
        assert((pa + pb).drop_last() =~= pa + pb.drop_last());
        assert(splits_log(ca + cb, pa + pb) =~= splits_log(ca, pa) + splits_log(cb, pb));
    }
}

proof fn lemma_lows_join(sa: Seq<int>, ma: Seq<Seq<int>>, sb: Seq<int>, mb: Seq<Seq<int>>)
    requires
        sa.len() == ma.len(),
        sb.len() == mb.len(),
    ensures
        lows_log(sa + sb, ma + mb) == lows_log(sa, ma) + lows_log(sb, mb),
    decreases sb.len(),
{
    if sb.len() == 0 {
        assert(sa + sb =~= sa && ma + mb =~= ma);
        assert(lows_log(sa, ma) + Seq::<Coded>::empty() =~= lows_log(sa, ma));
    } else {
        lemma_lows_join(sa, ma, sb.drop_last(), mb.drop_last());
        assert((sa + sb).drop_last() =~= sa + sb.drop_last());
        assert((ma + mb).drop_last() =~= ma + mb.drop_last());
        assert(lows_log(sa + sb, ma + mb) =~= lows_log(sa, ma) + lows_log(sb, mb));
    }
}

proof fn lemma_signs_join(
    st: int,
    qot: int,
    ca: Seq<int>,
    va: Seq<Seq<int>>,
    cb: Seq<int>,
    vb: Seq<Seq<int>>,
)
    requires
        ca.len() == va.len(),
        cb.len() == vb.len(),
    ensures
        signs_log(st, qot, ca + cb, va + vb) == signs_log(st, qot, ca, va) + signs_log(
            st,
            qot,
            cb,
            vb,
        ),
    decreases cb.len(),
{
    if cb.len() == 0 {
        assert(ca + cb =~= ca && va + vb =~= va);
        assert(signs_log(st, qot, ca, va) + Seq::<Coded>::empty() =~= signs_log(st, qot, ca, va));
    } else {
        lemma_signs_join(st, qot, ca, va, cb.drop_last(), vb.drop_last());
        assert((ca + cb).drop_last() =~= ca + cb.drop_last());
        assert((va + vb).drop_last() =~= va + vb.drop_last());
        assert(signs_log(st, qot, ca + cb, va + vb) =~= signs_log(st, qot, ca, va) + signs_log(
            st,
            qot,
            cb,
            vb,
        ));
    }
}

/// What a shell frame's samples, pulses and magnitudes are: sample `16 * s + i` is sample `i` of
/// block `s`, and without its sign it is its pulses times 2 to the number of low-order bits, plus
/// those bits.
pub proof fn law_samples_from_pulses(x: ShellFrame, s: int, i: int)
    requires
        0 <= s < x.values.len(),
        x.values[s].len() == 16,
        0 <= i < 16,
    ensures
        ({
            let v = x.values[s][i];
            let unit = pow2(x.shifts[s] as nat) as int;
            let m = x.all_magnitudes()[s][i];
            &&& x.samples()[16 * s + i] == v
            &&& m == v || m == -v
            &&& m >= 0
            &&& 0 <= m - x.pulses(s)[i] * unit < unit
        }),
{
    assert((16 * s + i) / 16 == s && (16 * s + i) % 16 == i);
    let unit = pow2(x.shifts[s] as nat) as int;
    lemma_pow2_pos(x.shifts[s] as nat);
    let m = x.all_magnitudes()[s][i];
    vstd::arithmetic::div_mod::lemma_fundamental_div_mod(m, unit);
    vstd::arithmetic::div_mod::lemma_mod_bound(m, unit);
    assert(unit * (m / unit) == (m / unit) * unit) by (nonlinear_arith);
}

/// A set of up to three frames as a number: one for the first, two for the second, four for the
/// third.
pub proof fn law_set_bits(bits: int)
    requires
        0 <= bits <= 7,
    ensures
        bits == (if has_bit(bits, 0) {
            1int
        } else {
            0
        }) + (if has_bit(bits, 1) {
            2int
        } else {
            0
        }) + (if has_bit(bits, 2) {
            4int
        } else {
            0
        }),
{
}

/// The head of a packet in one channel: a flag for each frame that tells whether it is active, a
/// flag that tells whether there are redundant copies, and in packets of more frames, where there
/// are, one less than the number of their set.
pub proof fn law_head_of_one_channel(h: HeaderCode, frames: int, i: int)
    requires
        h.coded(1, frames),
        1 <= frames <= 3,
        0 <= i < frames,
    ensures
        ({
            let l = h.log(1, frames);
            let more = frames > 1 && h.redundant[0] != 0;
            &&& l.len() == frames + (if more {
                2int
            } else {
                1int
            })
            &&& l[i] == (Coded::Bit { logp: 1, bit: h.active[0][i] })
            &&& l[frames] == (Coded::Bit { logp: 1, bit: h.redundant[0] != 0 })
            &&& more ==> l[frames + 1] == symbol(redundancy_model(frames), h.redundant[0] - 1)
        }),
{
    assert(h.active[0].len() == frames);
    reveal_with_fuel(HeaderCode::flags_log, 2);
    reveal_with_fuel(HeaderCode::sets_log, 2);
    let none = Seq::<Coded>::empty();
    assert(none + h.channel_flags(0) =~= h.channel_flags(0));
}

/// The head of a packet in two channels: the flags of the first, the flags of the second, and then
/// the sets of both, as far as there are any.
pub proof fn law_head_of_two_channels(h: HeaderCode, frames: int, i: int)
    requires
        h.coded(2, frames),
        1 <= frames <= 3,
        0 <= i < frames,
    ensures
        ({
            let l = h.log(2, frames);
            let n = frames + 1;
            let (a, b) = (
                frames > 1 && h.redundant[0] != 0,
                frames > 1 && h.redundant[1] != 0,
            );
            &&& l.len() == 2 * n + (if a {
                1int
            } else {
                0
            }) + (if b {
                1int
            } else {
                0
            })
            &&& l[i] == (Coded::Bit { logp: 1, bit: h.active[0][i] })
            &&& l[frames] == (Coded::Bit { logp: 1, bit: h.redundant[0] != 0 })
            &&& l[n + i] == (Coded::Bit { logp: 1, bit: h.active[1][i] })
            &&& l[n + frames] == (Coded::Bit { logp: 1, bit: h.redundant[1] != 0 })
            &&& a ==> l[2 * n] == symbol(redundancy_model(frames), h.redundant[0] - 1)
            &&& b ==> l.last() == symbol(redundancy_model(frames), h.redundant[1] - 1)
        }),
{
    assert(h.active[0].len() == frames && h.active[1].len() == frames);
    reveal_with_fuel(HeaderCode::flags_log, 3);
    reveal_with_fuel(HeaderCode::sets_log, 3);
    let none = Seq::<Coded>::empty();
    assert(none + h.channel_flags(0) =~= h.channel_flags(0));
}

/// A block of a packet is coded as its stereo parameters, where there are two channels, the frame
/// of the mid channel, and that of the side channel where it is coded. Whether only the mid channel
/// is coded is said after the weights, and only where the side channel is inactive.
pub proof fn law_block_layout(p: PacketCode, shape: PacketShape, i: int)
    ensures
        ({
            let b = p.blocks[i];
            let mid = b.mid.log(p.mid_shape(shape, i));
            let side = b.side.log(p.side_shape(shape, i));
            let w = b.weights.log();
            &&& shape.channels == 1 ==> p.block_log(shape, i) == mid
            &&& shape.channels == 2 && p.header.active[1][i] && !b.only_mid ==> p.block_log(
                shape,
                i,
            ) == w + mid + side
            &&& shape.channels == 2 && !p.header.active[1][i] && !b.only_mid ==> p.block_log(
                shape,
                i,
            ) == w.push(symbol(mid_only_model(), 0)) + mid + side
            &&& shape.channels == 2 && !p.header.active[1][i] && b.only_mid ==> p.block_log(
                shape,
                i,
            ) == w.push(symbol(mid_only_model(), 1)) + mid
        }),
{
    let b = p.blocks[i];
    let mid = b.mid.log(p.mid_shape(shape, i));
    let none = Seq::<Coded>::empty();
    let w = b.weights.log();
    let said = symbol(mid_only_model(), if b.only_mid {
        1
    } else {
        0
    });
    assert(none + mid + none =~= mid);
    assert(w + none =~= w);
    assert(w + seq![said] =~= w.push(said));
    assert(w.push(said) + mid + none =~= w.push(said) + mid);
}

/// A packet is coded as its head, its redundant copies frame by frame and channel by channel, and
/// its blocks in turn.
pub proof fn law_packet_layout(p: PacketCode, shape: PacketShape, k: int)
    requires
        k >= 0,
        shape.channels == 1 || shape.channels == 2,
    ensures
        p.log(shape) == p.header.log(shape.channels, shape.frames) + p.copies_log(
            shape,
            shape.frames * shape.channels,
        ) + p.blocks_log(shape, shape.frames),
        p.copies_log(shape, 0).len() == 0,
        p.blocks_log(shape, 0).len() == 0,
        p.blocks_log(shape, k + 1) == p.blocks_log(shape, k) + p.block_log(shape, k),
        ({
            let (n, i) = (k % shape.channels, k / shape.channels);
            &&& p.has_copy(n, i) ==> p.copies_log(shape, k + 1) == p.copies_log(shape, k)
                + p.copies[k].log(p.copy_shape(shape, n, i))
            &&& !p.has_copy(n, i) ==> p.copies_log(shape, k + 1) == p.copies_log(shape, k)
        }),
{
}

} // verus!
