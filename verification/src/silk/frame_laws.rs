//! What holds of coded frames as a whole: what is written is what is read.
use vstd::prelude::*;

use crate::range_coder::{carries, flag, lemma_same_symbol, symbol, Coded};
use crate::silk::excitation::blocks_for;
use crate::silk::frame_code::{
    bare_pitch_log, frame_type_log, gains_log, pitch_log, row_log, FrameCode, FrameShape, PitchCode,
};
use crate::silk::frame_models::{
    frame_type_model, gain_delta_model, gain_high_model, gain_low_model, seed_model,
};
use crate::silk::lsf_laws::law_nlsf_reads_back;
use crate::silk::lsf_models::nlsf_log;
use crate::silk::ltp::{
    absolute_lag_log, delta_lag_log, primary_lag_coded, primary_lag_log, shortest_lag,
};
use crate::silk::ltp_models::{
    contour_model, filter_model, lag_delta_model, lag_high_model, lag_low_model, periodicity_model,
    scaling_model,
};
use crate::silk::shell::{excitation_log, signed_ints};
use crate::silk::shell_laws::{law_excitation_reads_back, lemma_next_symbol};
use crate::toc::OpusBandwidth;

verus! {

/// Two streams of the same bytes that agree up to a flag agree on it.
pub proof fn lemma_next_flag(
    bytes: Seq<u8>,
    past: Seq<Coded>,
    a: bool,
    ta: Seq<Coded>,
    b: bool,
    tb: Seq<Coded>,
)
    requires
        carries(bytes, past + seq![flag(a)] + ta),
        carries(bytes, past + seq![flag(b)] + tb),
    ensures
        a == b,
{
    let la = past + seq![flag(a)] + ta;
    let lb = past + seq![flag(b)] + tb;
    let n = past.len() as int;
    assert(la.take(n) =~= past);
    assert(lb.take(n) =~= past);
    lemma_same_symbol(bytes, la, lb, n);
    assert(la[n] == flag(a));
    assert(lb[n] == flag(b));
}

/// Values that share a model are read back.
pub proof fn lemma_row_unique(
    bytes: Seq<u8>,
    past: Seq<Coded>,
    model: Seq<u8>,
    a: Seq<int>,
    ta: Seq<Coded>,
    b: Seq<int>,
    tb: Seq<Coded>,
)
    requires
        a.len() == b.len(),
        forall|k: int| 0 <= k < a.len() ==> 0 <= #[trigger] a[k],
        forall|k: int| 0 <= k < b.len() ==> 0 <= #[trigger] b[k],
        carries(bytes, past + row_log(model, a) + ta),
        carries(bytes, past + row_log(model, b) + tb),
    ensures
        a == b,
    decreases a.len(),
{
    if a.len() > 0 {
        let ha = row_log(model, a.drop_last());
        let hb = row_log(model, b.drop_last());
        let sa = seq![symbol(model, a.last())];
        let sb = seq![symbol(model, b.last())];
        assert(row_log(model, a) =~= ha + sa);
        assert(row_log(model, b) =~= hb + sb);
        assert(past + row_log(model, a) + ta =~= past + ha + (sa + ta));
        assert(past + row_log(model, b) + tb =~= past + hb + (sb + tb));
        lemma_row_unique(bytes, past, model, a.drop_last(), sa + ta, b.drop_last(), sb + tb);
        assert(past + row_log(model, a) + ta =~= (past + ha) + sa + ta);
        assert(past + row_log(model, b) + tb =~= (past + ha) + sb + tb);
        lemma_next_symbol(bytes, past + ha, model, a.last(), ta, b.last(), tb);
        assert(a =~= a.drop_last().push(a.last()));
        assert(b =~= b.drop_last().push(b.last()));
    } else {
        assert(a =~= b);
    }
}

proof fn lemma_gains_unique(
    bytes: Seq<u8>,
    past: Seq<Coded>,
    st: int,
    ga: int,
    da: Seq<int>,
    ta: Seq<Coded>,
    gb: int,
    db: Seq<int>,
    tb: Seq<Coded>,
)
    requires
        0 <= ga <= 63,
        0 <= gb <= 63,
        da.len() == db.len(),
        forall|k: int| 0 <= k < da.len() ==> 0 <= #[trigger] da[k],
        forall|k: int| 0 <= k < db.len() ==> 0 <= #[trigger] db[k],
        carries(bytes, past + gains_log(st, ga, da) + ta),
        carries(bytes, past + gains_log(st, gb, db) + tb),
    ensures
        ga == gb,
        da == db,
{
    let (ra, rb) = (row_log(gain_delta_model(), da), row_log(gain_delta_model(), db));
    let hm = gain_high_model(st);
    let lm = gain_low_model();
    let la = past + gains_log(st, ga, da) + ta;
    let lb = past + gains_log(st, gb, db) + tb;
    let h = seq![symbol(hm, ga / 8)];
    let l = seq![symbol(lm, ga % 8)];
    assert(la =~= past + h + (l + ra + ta));
    assert(lb =~= past + seq![symbol(hm, gb / 8)] + (seq![symbol(lm, gb % 8)] + rb + tb));
    lemma_next_symbol(
        bytes,
        past,
        hm,
        ga / 8,
        l + ra + ta,
        gb / 8,
        seq![symbol(lm, gb % 8)] + rb + tb,
    );
    assert(la =~= (past + h) + l + (ra + ta));
    assert(lb =~= (past + h) + seq![symbol(lm, gb % 8)] + (rb + tb));
    lemma_next_symbol(bytes, past + h, lm, ga % 8, ra + ta, gb % 8, rb + tb);
    assert(la =~= (past + h + l) + ra + ta);
    assert(lb =~= (past + h + l) + rb + tb);
    lemma_row_unique(bytes, past + h + l, gain_delta_model(), da, ta, db, tb);
}

/// The pitch lag of a frame is read back.
pub proof fn law_lag_reads_back(
    bytes: Seq<u8>,
    past: Seq<Coded>,
    bw: OpusBandwidth,
    prev_lag: int,
    fa: bool,
    a: int,
    ta: Seq<Coded>,
    fb: bool,
    b: int,
    tb: Seq<Coded>,
)
    requires
        primary_lag_coded(bw, fa, a, prev_lag),
        primary_lag_coded(bw, fb, b, prev_lag),
        carries(bytes, past + primary_lag_log(bw, fa, a, prev_lag) + ta),
        carries(bytes, past + primary_lag_log(bw, fb, b, prev_lag) + tb),
    ensures
        fa == fb,
        a == b,
{
    let la = past + primary_lag_log(bw, fa, a, prev_lag) + ta;
    let lb = past + primary_lag_log(bw, fb, b, prev_lag) + tb;
    let xa = if fa || prev_lag == 0 {
        absolute_lag_log(a - shortest_lag(bw))
    } else {
        delta_lag_log(a - prev_lag)
    };
    let xb = if fb || prev_lag == 0 {
        absolute_lag_log(b - shortest_lag(bw))
    } else {
        delta_lag_log(b - prev_lag)
    };
    assert(la =~= past + seq![flag(fa)] + (xa + ta));
    assert(lb =~= past + seq![flag(fb)] + (xb + tb));
    lemma_next_flag(bytes, past, fa, xa + ta, fb, xb + tb);
    let p = past + seq![flag(fa)];
    if fa || prev_lag == 0 {
        let (na, nb) = (a - shortest_lag(bw), b - shortest_lag(bw));
        let h = seq![symbol(lag_high_model(), na / 4)];
        let ya = seq![symbol(lag_low_model(), na % 4)];
        let yb = seq![symbol(lag_low_model(), nb % 4)];
        assert(la =~= p + h + (ya + ta));
        assert(lb =~= p + seq![symbol(lag_high_model(), nb / 4)] + (yb + tb));
        lemma_next_symbol(bytes, p, lag_high_model(), na / 4, ya + ta, nb / 4, yb + tb);
        assert(la =~= (p + h) + ya + ta);
        assert(lb =~= (p + h) + yb + tb);
        lemma_next_symbol(bytes, p + h, lag_low_model(), na % 4, ta, nb % 4, tb);
    } else {
        assert(la =~= p + seq![symbol(lag_delta_model(), a - prev_lag + 9)] + ta);
        assert(lb =~= p + seq![symbol(lag_delta_model(), b - prev_lag + 9)] + tb);
        lemma_next_symbol(
            bytes,
            p,
            lag_delta_model(),
            a - prev_lag + 9,
            ta,
            b - prev_lag + 9,
            tb,
        );
    }
}

/// Four pieces between `past` and `t`, cut after each of them.
proof fn lemma_cut_four(
    past: Seq<Coded>,
    g: Seq<Coded>,
    c: Seq<Coded>,
    p: Seq<Coded>,
    f: Seq<Coded>,
    t: Seq<Coded>,
)
    ensures
        ({
            let all = past + (g + c + p + f) + t;
            &&& all == past + g + (c + p + f + t)
            &&& all == past + g + c + (p + f + t)
            &&& all == past + g + c + p + (f + t)
            &&& all == past + g + c + p + f + t
        }),
{
    let all = past + (g + c + p + f) + t;
    assert(all =~= past + g + (c + p + f + t));
    assert(all =~= past + g + c + (p + f + t));
    assert(all =~= past + g + c + p + (f + t));
    assert(all =~= past + g + c + p + f + t);
}

/// The long-term prediction parameters of a frame but for the scale are read back.
pub proof fn law_bare_pitch_reads_back(
    bytes: Seq<u8>,
    past: Seq<Coded>,
    shape: FrameShape,
    a: PitchCode,
    ta: Seq<Coded>,
    b: PitchCode,
    tb: Seq<Coded>,
)
    requires
        a.coded(shape),
        b.coded(shape),
        carries(bytes, past + bare_pitch_log(shape.bw, shape.prev_lag, a) + ta),
        carries(bytes, past + bare_pitch_log(shape.bw, shape.prev_lag, b) + tb),
    ensures
        a == (PitchCode { scaling: a.scaling, ..b }),
{
    let ga = primary_lag_log(shape.bw, a.absolute, a.lag, shape.prev_lag);
    let gb = primary_lag_log(shape.bw, b.absolute, b.lag, shape.prev_lag);
    let (ca, cb) = (
        seq![symbol(contour_model(), a.contour)],
        seq![symbol(contour_model(), b.contour)],
    );
    let (pa, pb) = (
        seq![symbol(periodicity_model(), a.periodicity)],
        seq![symbol(periodicity_model(), b.periodicity)],
    );
    let (fa, fb) = (
        row_log(filter_model(a.periodicity), a.filters),
        row_log(filter_model(b.periodicity), b.filters),
    );
    assert(bare_pitch_log(shape.bw, shape.prev_lag, a) =~= ga + ca + pa + fa);
    assert(bare_pitch_log(shape.bw, shape.prev_lag, b) =~= gb + cb + pb + fb);
    lemma_cut_four(past, ga, ca, pa, fa, ta);
    lemma_cut_four(past, gb, cb, pb, fb, tb);
    law_lag_reads_back(
        bytes,
        past,
        shape.bw,
        shape.prev_lag,
        a.absolute,
        a.lag,
        ca + pa + fa + ta,
        b.absolute,
        b.lag,
        cb + pb + fb + tb,
    );
    lemma_next_symbol(
        bytes,
        past + ga,
        contour_model(),
        a.contour,
        pa + fa + ta,
        b.contour,
        pb + fb + tb,
    );
    lemma_next_symbol(
        bytes,
        past + ga + ca,
        periodicity_model(),
        a.periodicity,
        fa + ta,
        b.periodicity,
        fb + tb,
    );
    lemma_row_unique(
        bytes,
        past + ga + ca + pa,
        filter_model(a.periodicity),
        a.filters,
        ta,
        b.filters,
        tb,
    );
}

/// The long-term prediction parameters of a frame are read back.
pub proof fn law_pitch_reads_back(
    bytes: Seq<u8>,
    past: Seq<Coded>,
    shape: FrameShape,
    a: PitchCode,
    ta: Seq<Coded>,
    b: PitchCode,
    tb: Seq<Coded>,
)
    requires
        a.coded(shape),
        b.coded(shape),
        carries(bytes, past + pitch_log(shape.bw, shape.prev_lag, a) + ta),
        carries(bytes, past + pitch_log(shape.bw, shape.prev_lag, b) + tb),
    ensures
        a == b,
{
    let (la, lb) = (
        bare_pitch_log(shape.bw, shape.prev_lag, a),
        bare_pitch_log(shape.bw, shape.prev_lag, b),
    );
    let (sa, sb) = (
        seq![symbol(scaling_model(), a.scaling)],
        seq![symbol(scaling_model(), b.scaling)],
    );
    lemma_regroup(past, la, sa, ta);
    lemma_regroup(past, lb, sb, tb);
    law_bare_pitch_reads_back(bytes, past, shape, a, sa + ta, b, sb + tb);
    lemma_next_symbol(bytes, past + la, scaling_model(), a.scaling, ta, b.scaling, tb);
}

/// Appending piece by piece is appending all at once.
pub(crate) proof fn lemma_regroup(
    past: Seq<Coded>,
    a: Seq<Coded>,
    b: Seq<Coded>,
    tail: Seq<Coded>,
)
    ensures
        past + (a + b) + tail == past + a + (b + tail),
        past + (a + b) + tail == (past + a) + b + tail,
{
    assert(past + (a + b) + tail =~= past + a + (b + tail));
    assert(past + (a + b) + tail =~= (past + a) + b + tail);
}

/// The two codes hold the same frame. What is left of the pitch counts in voiced frames only.
pub open spec fn same_frame(a: FrameCode, b: FrameCode) -> bool {
    &&& a.frame_type == b.frame_type
    &&& a.gain == b.gain
    &&& a.deltas == b.deltas
    &&& a.i1 == b.i1
    &&& a.res == b.res
    &&& a.interp == b.interp
    &&& a.voiced() ==> a.pitch == b.pitch
    &&& a.seed == b.seed
    &&& a.rate == b.rate
    &&& a.x == b.x
    &&& a.v == b.v
}

pub(crate) proof fn lemma_same_samples(a: Seq<i32>, b: Seq<i32>)
    requires
        signed_ints(a) == signed_ints(b),
    ensures
        a == b,
{
    assert(a.len() == signed_ints(a).len());
    assert(b.len() == signed_ints(b).len());
    assert forall|i: int| 0 <= i < a.len() implies a[i] == b[i] by {
        assert(signed_ints(a)[i] == a[i] as int);
        assert(signed_ints(b)[i] == b[i] as int);
    }
    assert(a =~= b);
}

/// The pieces of a frame's log after the frame type.
spec fn pitch_part(c: FrameCode, shape: FrameShape) -> Seq<Coded> {
    if c.voiced() {
        pitch_log(shape.bw, shape.prev_lag, c.pitch)
    } else {
        Seq::empty()
    }
}

spec fn nlsf_part(c: FrameCode, shape: FrameShape) -> Seq<Coded> {
    nlsf_log(shape.bw.wide(), c.voiced(), c.i1, c.res, shape.is_20ms(), c.interp)
}

spec fn gains_part(c: FrameCode) -> Seq<Coded> {
    gains_log(c.signal_type(), c.gain, c.deltas)
}

spec fn excitation_part(c: FrameCode) -> Seq<Coded> {
    excitation_log(c.signal_type(), c.offset_type(), c.rate, c.x)
}

/// A frame's log, cut at each of its pieces.
proof fn lemma_cuts(past: Seq<Coded>, c: FrameCode, shape: FrameShape, t: Seq<Coded>)
    ensures
        ({
            let l = past + c.log(shape) + t;
            let f = frame_type_log(shape.active, c.frame_type);
            let g = gains_part(c);
            let n = nlsf_part(c, shape);
            let p = pitch_part(c, shape);
            let s = seq![symbol(seed_model(), c.seed)];
            let e = excitation_part(c);
            &&& l == past + f + (g + (n + (p + (s + (e + t)))))
            &&& l == (past + f) + g + (n + (p + (s + (e + t))))
            &&& l == (past + f + g) + n + (p + (s + (e + t)))
            &&& l == (past + f + g + n) + p + (s + (e + t))
            &&& l == (past + f + g + n + p) + s + (e + t)
            &&& l == (past + f + g + n + p + s) + e + t
        }),
{
    let l = past + c.log(shape) + t;
    let f = frame_type_log(shape.active, c.frame_type);
    let g = gains_part(c);
    let n = nlsf_part(c, shape);
    let p = pitch_part(c, shape);
    let s = seq![symbol(seed_model(), c.seed)];
    let e = excitation_part(c);
    reveal(FrameCode::log);
    assert(c.log(shape) == f + g + n + p + s + e);
    lemma_cut(past, f, g, n, p, s, e, t);
}

pub(crate) proof fn lemma_cut(
    past: Seq<Coded>,
    f: Seq<Coded>,
    g: Seq<Coded>,
    n: Seq<Coded>,
    p: Seq<Coded>,
    s: Seq<Coded>,
    e: Seq<Coded>,
    t: Seq<Coded>,
)
    ensures
        ({
            let l = past + (f + g + n + p + s + e) + t;
            &&& l == past + f + (g + (n + (p + (s + (e + t)))))
            &&& l == (past + f) + g + (n + (p + (s + (e + t))))
            &&& l == (past + f + g) + n + (p + (s + (e + t)))
            &&& l == (past + f + g + n) + p + (s + (e + t))
            &&& l == (past + f + g + n + p) + s + (e + t)
            &&& l == (past + f + g + n + p + s) + e + t
        }),
{
    let l = past + (f + g + n + p + s + e) + t;
    assert(l =~= past + f + (g + (n + (p + (s + (e + t))))));
    assert(l =~= (past + f) + g + (n + (p + (s + (e + t)))));
    assert(l =~= (past + f + g) + n + (p + (s + (e + t))));
    assert(l =~= (past + f + g + n) + p + (s + (e + t)));
    assert(l =~= (past + f + g + n + p) + s + (e + t));
    assert(l =~= (past + f + g + n + p + s) + e + t);
}

/// What is written as a frame is read back: where the same bytes carry, after the same symbols,
/// two frames of the same shape, the two are one and the same.
pub proof fn law_frame_reads_back(
    bytes: Seq<u8>,
    past: Seq<Coded>,
    shape: FrameShape,
    a: FrameCode,
    ta: Seq<Coded>,
    b: FrameCode,
    tb: Seq<Coded>,
)
    requires
        a.coded(shape),
        b.coded(shape),
        carries(bytes, past + a.log(shape) + ta),
        carries(bytes, past + b.log(shape) + tb),
    ensures
        same_frame(a, b),
{
    reveal(FrameCode::coded);
    lemma_cuts(past, a, shape, ta);
    lemma_cuts(past, b, shape, tb);
    let fa = frame_type_log(shape.active, a.frame_type);
    let (ea, eb) = (excitation_part(a), excitation_part(b));
    let (sa, sb) = (seq![symbol(seed_model(), a.seed)], seq![symbol(seed_model(), b.seed)]);
    let (qa, qb) = (pitch_part(a, shape), pitch_part(b, shape));
    let (na, nb) = (nlsf_part(a, shape), nlsf_part(b, shape));
    let (ga, gb) = (gains_part(a), gains_part(b));
    let base = if shape.active {
        2int
    } else {
        0int
    };
    lemma_next_symbol(
        bytes,
        past,
        frame_type_model(shape.active),
        a.frame_type - base,
        ga + (na + (qa + (sa + (ea + ta)))),
        b.frame_type - base,
        gb + (nb + (qb + (sb + (eb + tb)))),
    );
    let p1 = past + fa;
    lemma_gains_unique(
        bytes,
        p1,
        a.signal_type(),
        a.gain,
        a.deltas,
        na + (qa + (sa + (ea + ta))),
        b.gain,
        b.deltas,
        nb + (qb + (sb + (eb + tb))),
    );
    let p2 = p1 + ga;
    law_nlsf_reads_back(
        bytes,
        p2,
        shape.bw.wide(),
        a.voiced(),
        shape.is_20ms(),
        a.i1,
        a.res,
        a.interp,
        qa + (sa + (ea + ta)),
        b.i1,
        b.res,
        b.interp,
        qb + (sb + (eb + tb)),
    );
    let p3 = p2 + na;
    if a.voiced() {
        law_pitch_reads_back(
            bytes,
            p3,
            shape,
            a.pitch,
            sa + (ea + ta),
            b.pitch,
            sb + (eb + tb),
        );
    }
    let p4 = p3 + qa;
    lemma_next_symbol(bytes, p4, seed_model(), a.seed, ea + ta, b.seed, eb + tb);
    law_excitation_reads_back(
        bytes,
        p4 + sa,
        a.signal_type(),
        a.offset_type(),
        blocks_for(shape.samples()),
        a.rate,
        a.x,
        ta,
        b.rate,
        b.x,
        tb,
    );
    lemma_same_samples(a.v, b.v);
}

} // verus!
