//! Stereo prediction weights: their quantiser, and how they are written and read.
use oxideav_celt::range_decoder::RangeDecoder;
use oxideav_celt::range_encoder::RangeEncoder;
use vstd::prelude::*;

use crate::arith::lemma_shr16;
use crate::range_coder::{
    can_read, can_write, carries, codable, has_read, has_written, read_log, read_symbol, symbol,
    write_log, write_symbol, Coded,
};
use crate::silk::frame_models::{
    joint_weight_icdf, joint_weight_model, weight_step_icdf, weight_step_model, weight_third_icdf,
    weight_third_model,
};
use crate::silk::shell_laws::lemma_next_symbol;
use crate::silk::tables::STEREO_PRED_QUANT_Q13;

verus! {

/// Lower end (Q13) of a quantiser cell.
pub closed spec fn cell_low(cell: int) -> int {
    STEREO_PRED_QUANT_Q13@[cell] as int
}

/// The lower ends are those of the quantiser's table.
pub proof fn law_cell_entries(cell: int)
    ensures
        cell_low(cell) == STEREO_PRED_QUANT_Q13@[cell],
{
}

/// A tenth of the width of a quantiser cell.
pub open spec fn cell_step(cell: int) -> int {
    ((cell_low(cell + 1) - cell_low(cell)) * 6554) / 65536
}

/// The weight (Q13) at fifth `sub` of a quantiser cell: the middle of that fifth.
pub open spec fn level(cell: int, sub: int) -> int {
    cell_low(cell) + cell_step(cell) * (2 * sub + 1)
}

/// A cell and a fifth of it.
pub open spec fn in_grid(cell: int, sub: int) -> bool {
    0 <= cell < 15 && 0 <= sub < 5
}

/// How far a level is from the weight `w`.
pub open spec fn level_error(cell: int, sub: int, w: int) -> int {
    if level(cell, sub) >= w {
        level(cell, sub) - w
    } else {
        w - level(cell, sub)
    }
}

/// `(cell, sub)` is the first level that comes closest to the weight `w`.
pub open spec fn nearest_level(cell: int, sub: int, w: int) -> bool {
    &&& in_grid(cell, sub)
    &&& forall|c: int, s: int|
        in_grid(c, s) ==> level_error(cell, sub, w) <= #[trigger] level_error(c, s, w)
    &&& forall|c: int, s: int|
        in_grid(c, s) && 5 * c + s < 5 * cell + sub ==> level_error(cell, sub, w)
            < #[trigger] level_error(c, s, w)
}

/// The levels of two weights, as coded.
pub struct WeightCode {
    pub cell0: int,
    pub sub0: int,
    pub cell1: int,
    pub sub1: int,
}

impl WeightCode {
    /// Every part has a symbol.
    pub open spec fn coded(self) -> bool {
        in_grid(self.cell0, self.sub0) && in_grid(self.cell1, self.sub1)
    }

    /// The symbols: both coarse parts in one, then the finer parts of each.
    pub open spec fn log(self) -> Seq<Coded> {
        seq![
            symbol(joint_weight_model(), 5 * (self.cell0 / 3) + self.cell1 / 3),
            symbol(weight_third_model(), self.cell0 % 3),
            symbol(weight_step_model(), self.sub0),
            symbol(weight_third_model(), self.cell1 % 3),
            symbol(weight_step_model(), self.sub1),
        ]
    }

    /// The two prediction weights. The first is coded as the sum of both.
    pub open spec fn weights(self) -> (int, int) {
        (level(self.cell0, self.sub0) - level(self.cell1, self.sub1), level(self.cell1, self.sub1))
    }
}

/// `code` is what is sent for the weights `w0` and `w1`.
pub open spec fn sent_weights(code: WeightCode, w0: int, w1: int) -> bool {
    &&& nearest_level(code.cell0, code.sub0, w0 + w1)
    &&& nearest_level(code.cell1, code.sub1, w1)
}

/// Weights that can be compared to every level.
pub open spec fn comparable(w: int) -> bool {
    13362 - i32::MAX <= w <= i32::MAX - 13364
}

/// Levels run from -13364 to 13362.
#[verifier::spinoff_prover]
pub proof fn law_level_range(cell: int, sub: int)
    requires
        in_grid(cell, sub),
    ensures
        -13364 <= level(cell, sub) <= 13362,
        -13732 <= cell_low(cell) <= 13732,
        -13732 <= cell_low(cell + 1) <= 13732,
        0 <= cell_step(cell) <= 500,
{
    let low = cell_low(cell);
    let step = cell_step(cell);
    assert(step * (2 * sub + 1) <= step * 9) by (nonlinear_arith)
        requires
            step >= 0,
            sub <= 4,
    ;
    assert(step * (2 * sub + 1) >= step) by (nonlinear_arith)
        requires
            step >= 0,
            sub >= 0,
    ;
}

/// Levels rise strictly from cell to cell and from fifth to fifth.
#[verifier::spinoff_prover]
pub proof fn law_levels_rise(cell: int, sub: int)
    requires
        in_grid(cell, sub),
    ensures
        sub < 4 ==> level(cell, sub) < level(cell, sub + 1),
        cell < 14 ==> level(cell, 4) < level(cell + 1, 0),
{
    let step = cell_step(cell);
    assert(step * (2 * (sub + 1) + 1) == step * (2 * sub + 1) + 2 * step) by (nonlinear_arith);
    assert(step >= 1);
    if cell < 14 {
        let next = cell_step(cell + 1);
        assert(next >= 1);
        assert(step * (2 * 4 + 1) == 9 * step) by (nonlinear_arith);
        assert(next * (2 * 0 + 1) == next) by (nonlinear_arith);
        assert(cell_low(cell) + 9 * step < cell_low(cell + 1));
    }
}

/// The weight (Q13) at fifth `sub` of a quantiser cell.
pub fn weight_level(cell: usize, sub: i32) -> (w: i32)
    requires
        in_grid(cell as int, sub as int),
    ensures
        w == level(cell as int, sub as int),
        -13364 <= w <= 13362,
{
    let low: i32 = STEREO_PRED_QUANT_Q13[cell] as i32;
    let high: i32 = STEREO_PRED_QUANT_Q13[cell + 1] as i32;
    proof {
        law_level_range(cell as int, sub as int);
    }
    let wide: i32 = (high - low) * 6554;
    proof {
        lemma_shr16(wide);
    }
    let step: i32 = wide >> 16;
    assert(0 <= step * (2 * sub + 1) <= 500 * 9) by (nonlinear_arith)
        requires
            0 <= step <= 500,
            0 <= sub <= 4,
    ;
    low + step * (2 * sub + 1)
}

/// The first level that comes closest to a weight, as position in a third of the range, fifth of
/// the cell, and third: cell `r[0] + 3 * r[2]`, fifth `r[1]`.
pub fn quantise_pred_weight_q13(weight_q13: i32) -> (r: [i32; 3])
    requires
        comparable(weight_q13 as int),
    ensures
        0 <= r@[0] <= 2,
        0 <= r@[2] <= 4,
        nearest_level(r@[0] + 3 * r@[2], r@[1] as int, weight_q13 as int),
{
    let ghost w = weight_q13 as int;
    let mut best: i32 = i32::MAX;
    let mut best_cell: usize = 0;
    let mut best_sub: i32 = 0;
    let mut cell: usize = 0;
    while cell < 15
        invariant
            w == weight_q13,
            comparable(w),
            cell <= 15,
            in_grid(best_cell as int, best_sub as int),
            best == i32::MAX ==> best_cell == 0 && best_sub == 0,
            best == level_error(best_cell as int, best_sub as int, w) || best == i32::MAX,
            forall|c: int, s: int|
                in_grid(c, s) && c < cell ==> best <= #[trigger] level_error(c, s, w),
            forall|c: int, s: int|
                in_grid(c, s) && 5 * c + s < 5 * best_cell + best_sub ==> best
                    < #[trigger] level_error(c, s, w),
            best_cell < cell || best_cell == 0 && best_sub == 0,
        decreases 15 - cell,
    {
        let mut sub: i32 = 0;
        while sub < 5
            invariant
                w == weight_q13,
                comparable(w),
                cell < 15,
                0 <= sub <= 5,
                in_grid(best_cell as int, best_sub as int),
                best == i32::MAX ==> best_cell == 0 && best_sub == 0,
                best == level_error(best_cell as int, best_sub as int, w) || best == i32::MAX,
                forall|c: int, s: int|
                    in_grid(c, s) && 5 * c + s < 5 * cell + sub ==> best <= #[trigger] level_error(
                        c,
                        s,
                        w,
                    ),
                forall|c: int, s: int|
                    in_grid(c, s) && 5 * c + s < 5 * best_cell + best_sub ==> best
                        < #[trigger] level_error(c, s, w),
                5 * best_cell + best_sub < 5 * cell + sub || best_cell == 0 && best_sub == 0,
            decreases 5 - sub,
        {
            let l: i32 = weight_level(cell, sub);
            let signed: i32 = l - weight_q13;
            let diff: i32 = if signed < 0 {
                -signed
            } else {
                signed
            };
            assert(diff == level_error(cell as int, sub as int, w));
            if diff < best {
                best = diff;
                best_cell = cell;
                best_sub = sub;
            }
            proof {
                assert forall|c: int, s: int|
                    in_grid(c, s) && 5 * c + s < 5 * cell + sub + 1 implies best
                    <= #[trigger] level_error(c, s, w) by {
                    if 5 * c + s == 5 * cell + sub {
                        assert(c == cell && s == sub);
                    }
                }
            }
            sub = sub + 1;
        }
        cell = cell + 1;
    }
    proof {
        law_level_range(0, 0);
        assert(level_error(0, 0, w) <= i32::MAX);
        if best == i32::MAX {
            assert(best <= level_error(0, 0, w));
        }
        let c = best_cell as int;
        assert(c % 3 + 3 * (c / 3) == c);
    }
    let third: usize = best_cell / 3;
    let place: usize = best_cell - 3 * third;
    [place as i32, best_sub, third as i32]
}

/// Reads the two stereo prediction weights (Q13).
pub fn stereo_decode_pred(rc: &mut RangeDecoder<'_>) -> (pred: [i32; 2])
    requires
        can_read(old(rc), 5),
    ensures
        exists|code: WeightCode|
            #[trigger] code.coded() && has_read(old(rc), final(rc), code.log()) && (
            pred@[0] as int,
            pred@[1] as int,
        ) == code.weights(),
        -26726 <= pred@[0] <= 26726,
        -13364 <= pred@[1] <= 13362,
        read_log(final(rc)).len() == read_log(old(rc)).len() + 5,
{
    let n: usize = read_symbol(rc, joint_weight_icdf());
    let place0: usize = read_symbol(rc, weight_third_icdf());
    let sub0: usize = read_symbol(rc, weight_step_icdf());
    let place1: usize = read_symbol(rc, weight_third_icdf());
    let sub1: usize = read_symbol(rc, weight_step_icdf());
    let third0: usize = n / 5;
    let third1: usize = n % 5;
    let cell0: usize = place0 + 3 * third0;
    let cell1: usize = place1 + 3 * third1;
    let w0: i32 = weight_level(cell0, sub0 as i32);
    let w1: i32 = weight_level(cell1, sub1 as i32);
    let pred: [i32; 2] = [w0 - w1, w1];
    proof {
        let code = WeightCode {
            cell0: cell0 as int,
            sub0: sub0 as int,
            cell1: cell1 as int,
            sub1: sub1 as int,
        };
        assert(code.cell0 / 3 == third0 && code.cell0 % 3 == place0);
        assert(code.cell1 / 3 == third1 && code.cell1 % 3 == place1);
        assert(5 * third0 + third1 == n);
        assert(read_log(rc) =~= read_log(old(rc)) + code.log());
        assert(code.coded());
    }
    pred
}

/// Writes the levels closest to two stereo prediction weights (Q13).
pub fn encode_stereo_pred_weights(enc: &mut RangeEncoder, pred_q13: [i32; 2])
    requires
        can_write(old(enc), 5),
        comparable(pred_q13@[0] + pred_q13@[1]),
        comparable(pred_q13@[1] as int),
    ensures
        exists|code: WeightCode|
            #[trigger] code.coded() && has_written(old(enc), final(enc), code.log())
                && sent_weights(code, pred_q13@[0] as int, pred_q13@[1] as int),
{
    let ix0: [i32; 3] = quantise_pred_weight_q13(pred_q13[0] + pred_q13[1]);
    let ix1: [i32; 3] = quantise_pred_weight_q13(pred_q13[1]);
    let n: usize = (5 * ix0[2] + ix1[2]) as usize;
    let joint: &[u8] = joint_weight_icdf();
    assert(codable(joint@, n as int));
    write_symbol(enc, n, joint);
    let third: &[u8] = weight_third_icdf();
    let step: &[u8] = weight_step_icdf();
    assert(codable(third@, ix0@[0] as int));
    write_symbol(enc, ix0[0] as usize, third);
    assert(codable(step@, ix0@[1] as int));
    write_symbol(enc, ix0[1] as usize, step);
    assert(codable(third@, ix1@[0] as int));
    write_symbol(enc, ix1[0] as usize, third);
    assert(codable(step@, ix1@[1] as int));
    write_symbol(enc, ix1[1] as usize, step);
    proof {
        let code = WeightCode {
            cell0: ix0@[0] + 3 * ix0@[2],
            sub0: ix0@[1] as int,
            cell1: ix1@[0] + 3 * ix1@[2],
            sub1: ix1@[1] as int,
        };
        assert(code.cell0 / 3 == ix0@[2] && code.cell0 % 3 == ix0@[0]);
        assert(code.cell1 / 3 == ix1@[2] && code.cell1 % 3 == ix1@[0]);
        assert(write_log(enc) =~= write_log(old(enc)) + code.log());
        assert(code.coded());
    }
}

/// The weights that a decoder will read where `pred_q13` are sent.
pub fn quantise_round_trip(pred_q13: [i32; 2]) -> (r: [i32; 2])
    requires
        comparable(pred_q13@[0] + pred_q13@[1]),
        comparable(pred_q13@[1] as int),
    ensures
        exists|code: WeightCode|
            #[trigger] code.coded() && sent_weights(
                code,
                pred_q13@[0] as int,
                pred_q13@[1] as int,
            ) && (r@[0] as int, r@[1] as int) == code.weights(),
        -26726 <= r@[0] <= 26726,
        -13364 <= r@[1] <= 13362,
{
    let ix0: [i32; 3] = quantise_pred_weight_q13(pred_q13[0] + pred_q13[1]);
    let ix1: [i32; 3] = quantise_pred_weight_q13(pred_q13[1]);
    let w0: i32 = weight_level((ix0[0] + 3 * ix0[2]) as usize, ix0[1]);
    let w1: i32 = weight_level((ix1[0] + 3 * ix1[2]) as usize, ix1[1]);
    let r: [i32; 2] = [w0 - w1, w1];
    proof {
        let code = WeightCode {
            cell0: ix0@[0] + 3 * ix0@[2],
            sub0: ix0@[1] as int,
            cell1: ix1@[0] + 3 * ix1@[2],
            sub1: ix1@[1] as int,
        };
        assert(code.coded());
        assert(sent_weights(code, pred_q13@[0] as int, pred_q13@[1] as int));
        assert((r@[0] as int, r@[1] as int) == code.weights());
    }
    r
}

/// There is one nearest level only: what is sent for two weights is fixed.
pub proof fn law_sent_weights_fixed(a: WeightCode, b: WeightCode, w0: int, w1: int)
    requires
        sent_weights(a, w0, w1),
        sent_weights(b, w0, w1),
    ensures
        a == b,
{
    lemma_nearest_fixed(a.cell0, a.sub0, b.cell0, b.sub0, w0 + w1);
    lemma_nearest_fixed(a.cell1, a.sub1, b.cell1, b.sub1, w1);
}

proof fn lemma_nearest_fixed(c: int, s: int, d: int, t: int, w: int)
    requires
        nearest_level(c, s, w),
        nearest_level(d, t, w),
    ensures
        c == d,
        s == t,
{
    assert(level_error(c, s, w) <= level_error(d, t, w));
    assert(level_error(d, t, w) <= level_error(c, s, w));
    if 5 * c + s < 5 * d + t {
        assert(level_error(d, t, w) < level_error(c, s, w));
    }
    if 5 * d + t < 5 * c + s {
        assert(level_error(c, s, w) < level_error(d, t, w));
    }
}

/// Weights are read back: where the same bytes carry, after the same symbols, two pairs of
/// weights, the two are one and the same.
pub proof fn law_weights_read_back(
    bytes: Seq<u8>,
    past: Seq<Coded>,
    a: WeightCode,
    ta: Seq<Coded>,
    b: WeightCode,
    tb: Seq<Coded>,
)
    requires
        a.coded(),
        b.coded(),
        carries(bytes, past + a.log() + ta),
        carries(bytes, past + b.log() + tb),
    ensures
        a == b,
{
    let (la, lb) = (past + a.log() + ta, past + b.log() + tb);
    let (xa, xb) = (a.log(), b.log());
    let (na, nb) = (5 * (a.cell0 / 3) + a.cell1 / 3, 5 * (b.cell0 / 3) + b.cell1 / 3);
    assert(la =~= past + seq![xa[0]] + (seq![xa[1], xa[2], xa[3], xa[4]] + ta));
    assert(lb =~= past + seq![xb[0]] + (seq![xb[1], xb[2], xb[3], xb[4]] + tb));
    lemma_next_symbol(
        bytes,
        past,
        joint_weight_model(),
        na,
        seq![xa[1], xa[2], xa[3], xa[4]] + ta,
        nb,
        seq![xb[1], xb[2], xb[3], xb[4]] + tb,
    );
    let p1 = past + seq![xa[0]];
    assert(la =~= p1 + seq![xa[1]] + (seq![xa[2], xa[3], xa[4]] + ta));
    assert(lb =~= p1 + seq![xb[1]] + (seq![xb[2], xb[3], xb[4]] + tb));
    lemma_next_symbol(
        bytes,
        p1,
        weight_third_model(),
        a.cell0 % 3,
        seq![xa[2], xa[3], xa[4]] + ta,
        b.cell0 % 3,
        seq![xb[2], xb[3], xb[4]] + tb,
    );
    let p2 = p1 + seq![xa[1]];
    assert(la =~= p2 + seq![xa[2]] + (seq![xa[3], xa[4]] + ta));
    assert(lb =~= p2 + seq![xb[2]] + (seq![xb[3], xb[4]] + tb));
    lemma_next_symbol(
        bytes,
        p2,
        weight_step_model(),
        a.sub0,
        seq![xa[3], xa[4]] + ta,
        b.sub0,
        seq![xb[3], xb[4]] + tb,
    );
    let p3 = p2 + seq![xa[2]];
    assert(la =~= p3 + seq![xa[3]] + (seq![xa[4]] + ta));
    assert(lb =~= p3 + seq![xb[3]] + (seq![xb[4]] + tb));
    lemma_next_symbol(
        bytes,
        p3,
        weight_third_model(),
        a.cell1 % 3,
        seq![xa[4]] + ta,
        b.cell1 % 3,
        seq![xb[4]] + tb,
    );
    let p4 = p3 + seq![xa[3]];
    assert(la =~= p4 + seq![xa[4]] + ta);
    assert(lb =~= p4 + seq![xb[4]] + tb);
    lemma_next_symbol(bytes, p4, weight_step_model(), a.sub1, ta, b.sub1, tb);
}

/// Where the levels lie: the first of a cell is a tenth of the cell above its lower end, by the
/// factor of 6554 in 65536 and rounded down, and each further one is twice that above the one
/// before.
pub proof fn law_levels_divide_the_cell(cell: int, sub: int)
    requires
        in_grid(cell, sub),
    ensures
        ({
            let (low, high) = (STEREO_PRED_QUANT_Q13@[cell], STEREO_PRED_QUANT_Q13@[cell + 1]);
            let tenth = level(cell, 0) - low;
            &&& 0 <= (high - low) * 6554 - 65536 * tenth < 65536
            &&& sub < 4 ==> level(cell, sub + 1) - level(cell, sub) == 2 * tenth
        }),
{
    let step = cell_step(cell);
    assert(step * (2 * 0 + 1) == step) by (nonlinear_arith);
    assert(step * (2 * (sub + 1) + 1) == step * (2 * sub + 1) + 2 * step) by (nonlinear_arith);
}

/// The second weight is its own level, and the level of the first is the sum of both.
pub proof fn law_weights_of_levels(code: WeightCode)
    ensures
        code.weights().1 == level(code.cell1, code.sub1),
        code.weights().0 + code.weights().1 == level(code.cell0, code.sub0),
{
}

/// No level comes closer to what was asked for than the one that is sent, and none before it comes
/// as close: the second weight by itself, the first by the sum of both.
pub proof fn law_sent_weights_are_closest(
    code: WeightCode,
    w0: int,
    w1: int,
    cell: int,
    sub: int,
)
    requires
        sent_weights(code, w0, w1),
        in_grid(cell, sub),
    ensures
        ({
            let l = level(cell, sub);
            let (a, b) = (level(code.cell0, code.sub0) - (w0 + w1), l - (w0 + w1));
            let (c, d) = (level(code.cell1, code.sub1) - w1, l - w1);
            &&& code.coded()
            &&& a * a <= b * b
            &&& c * c <= d * d
            &&& 5 * cell + sub < 5 * code.cell0 + code.sub0 ==> a * a < b * b
            &&& 5 * cell + sub < 5 * code.cell1 + code.sub1 ==> c * c < d * d
        }),
{
    lemma_closer(
        level(code.cell0, code.sub0) - (w0 + w1),
        level(cell, sub) - (w0 + w1),
        level_error(code.cell0, code.sub0, w0 + w1),
        level_error(cell, sub, w0 + w1),
    );
    lemma_closer(
        level(code.cell1, code.sub1) - w1,
        level(cell, sub) - w1,
        level_error(code.cell1, code.sub1, w1),
        level_error(cell, sub, w1),
    );
}

proof fn lemma_closer(a: int, b: int, x: int, y: int)
    requires
        x == a || x == -a,
        y == b || y == -b,
        0 <= x <= y,
    ensures
        a * a <= b * b,
        x < y ==> a * a < b * b,
{
    assert(x * x <= y * y && (x < y ==> x * x < y * y)) by (nonlinear_arith)
        requires
            0 <= x <= y,
    ;
    assert(x * x == a * a && y * y == b * b) by (nonlinear_arith)
        requires
            x == a || x == -a,
            y == b || y == -b,
    ;
}

/// The five symbols of two weights, and how the levels are put together from them: the first
/// symbol gives both thirds of the range as two digits to the base 5.
pub proof fn law_weight_symbols(code: WeightCode)
    requires
        code.coded(),
    ensures
        ({
            let l = code.log();
            &&& l.len() == 5
            &&& exists|n: int, p: int, q: int|
                {
                    &&& #[trigger] symbol(joint_weight_model(), n) == l[0]
                    &&& #[trigger] symbol(weight_third_model(), p) == l[1]
                    &&& #[trigger] symbol(weight_third_model(), q) == l[3]
                    &&& 0 <= n < 25 && 0 <= p < 3 && 0 <= q < 3
                    &&& code.cell0 == p + 3 * (n / 5)
                    &&& code.cell1 == q + 3 * (n % 5)
                }
            &&& l[2] == symbol(weight_step_model(), code.sub0)
            &&& l[4] == symbol(weight_step_model(), code.sub1)
        }),
{
    let n = 5 * (code.cell0 / 3) + code.cell1 / 3;
    let (p, q) = (code.cell0 % 3, code.cell1 % 3);
    let l = code.log();
    assert(symbol(joint_weight_model(), n) == l[0]);
    assert(symbol(weight_third_model(), p) == l[1]);
    assert(symbol(weight_third_model(), q) == l[3]);
    assert(n / 5 == code.cell0 / 3 && n % 5 == code.cell1 / 3);
}

} // verus!
