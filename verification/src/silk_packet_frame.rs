//! What a frame of a planned packet holds, and the symbols that carry it.
//!
//! Only the first frame of a sequence has a gain that stands by itself and says its long-term
//! prediction scale; the frames after it go by what was left.
use vstd::prelude::*;

use crate::range_coder::{carries, symbol, Coded};
use crate::silk::excitation::blocks_for;
use crate::silk::frame_code::{
    bare_pitch_log, frame_type_log, gains_log, FrameCode, FrameShape, PitchCode,
};
use crate::silk::frame_laws::{
    law_bare_pitch_reads_back, lemma_cut, lemma_regroup, lemma_same_samples,
};
use crate::silk::frame_models::{
    frame_type_model, gain_delta_model, gain_high_model, gain_low_model, seed_model,
};
use crate::silk::lsf::{decoded_nlsfs, is_voiced};
use crate::silk::lsf_laws::law_nlsf_reads_back;
use crate::silk::lsf_models::{in_residual_range, nlsf_log, order_of};
use crate::silk::ltp_models::scaling_model;
use crate::silk::shell::{excitation_log, signed_ints, ShellFrame};
use crate::silk::shell_laws::{law_excitation_reads_back, lemma_next_symbol};
use crate::silk_frame::SignalType;
use crate::silk_gains::{
    delta_model, law_gains_read_back, lsb_model, msb_model, GainsCode,
};
use crate::toc::OpusBandwidth;

verus! {

/// Everything that is coded for a frame of a planned packet.
pub struct PlannedFrame {
    pub frame_type: int,
    pub gains: GainsCode,
    pub i1: int,
    pub res: Seq<int>,
    pub interp: int,
    pub pitch: PitchCode,
    pub seed: int,
    pub rate: int,
    pub x: ShellFrame,
    pub v: Seq<i32>,
}

/// How a frame of a planned packet is coded: its shape, whether its first gain stands by itself
/// and the gain before, and whether its long-term prediction scale is said.
pub struct StepShape {
    pub frame: FrameShape,
    pub gain_alone: bool,
    pub gain_before: Option<u8>,
    pub scale_said: bool,
}

/// What a frame of the given type holds.
pub open spec fn signal_of(frame_type: int) -> SignalType {
    if frame_type / 2 == 0 {
        SignalType::Inactive
    } else if frame_type / 2 == 1 {
        SignalType::Unvoiced
    } else {
        SignalType::Voiced
    }
}

impl PlannedFrame {
    /// Inactive, unvoiced or voiced.
    pub open spec fn signal_type(self) -> int {
        self.frame_type / 2
    }

    /// Whether the frame is voiced.
    pub open spec fn voiced(self) -> bool {
        is_voiced(self.signal_type())
    }

    /// Every part has a symbol, and the parts are those that the shape asks for. A scale that is
    /// not said is the first.
    #[verifier::opaque]
    pub open spec fn coded(self, shape: StepShape) -> bool {
        &&& if shape.frame.active {
            2 <= self.frame_type <= 5
        } else {
            0 <= self.frame_type <= 1
        }
        &&& self.gains.coded()
        &&& self.gains.first is Some == shape.gain_alone
        &&& self.gains.count() == shape.frame.subframes
        &&& 0 <= self.i1 < 32
        &&& self.res.len() == order_of(shape.frame.bw.wide())
        &&& in_residual_range(self.res)
        &&& 0 <= self.interp <= 4
        &&& !shape.frame.is_20ms() ==> self.interp == 4
        &&& self.voiced() ==> self.pitch.coded(shape.frame)
        &&& self.voiced() && !shape.scale_said ==> self.pitch.scaling == 0
        &&& 0 <= self.seed <= 3
        &&& 0 <= self.rate <= 8
        &&& self.x.coherent(blocks_for(shape.frame.samples()))
        &&& self.x.samples() == signed_ints(self.v)
    }

    /// The symbols of the long-term prediction parameters.
    pub open spec fn pitch_symbols(self, shape: StepShape) -> Seq<Coded> {
        if !self.voiced() {
            Seq::empty()
        } else if shape.scale_said {
            bare_pitch_log(shape.frame.bw, shape.frame.prev_lag, self.pitch) + seq![
                symbol(scaling_model(), self.pitch.scaling),
            ]
        } else {
            bare_pitch_log(shape.frame.bw, shape.frame.prev_lag, self.pitch)
        }
    }

    /// The symbols of the frame, in the order in which they are coded.
    #[verifier::opaque]
    pub open spec fn log(self, shape: StepShape) -> Seq<Coded> {
        frame_type_log(shape.frame.active, self.frame_type) + self.gains.log(
            signal_of(self.frame_type),
        ) + nlsf_log(
            shape.frame.bw.wide(),
            self.voiced(),
            self.i1,
            self.res,
            shape.frame.is_20ms(),
            self.interp,
        ) + self.pitch_symbols(shape) + seq![symbol(seed_model(), self.seed)] + excitation_log(
            self.signal_type(),
            self.frame_type % 2,
            self.rate,
            self.x,
        )
    }

    /// The gain index of subframe `k`.
    pub open spec fn log_gain(self, shape: StepShape, k: int) -> int {
        self.gains.gain(shape.gain_before, k)
    }

    /// The NLSFs of the frame.
    pub open spec fn nlsfs(self, shape: StepShape) -> Seq<int> {
        decoded_nlsfs(shape.frame.bw.wide(), self.i1, self.res)
    }

    /// The pitch lag that the next frame may refer to.
    pub open spec fn lag_after(self, shape: StepShape) -> int {
        if self.voiced() {
            self.pitch.lag
        } else {
            shape.frame.prev_lag
        }
    }

    /// The frame as one whose gain stands by itself.
    pub open spec fn alone(self) -> FrameCode {
        FrameCode {
            frame_type: self.frame_type,
            gain: self.gains.first->0,
            deltas: self.gains.deltas,
            i1: self.i1,
            res: self.res,
            interp: self.interp,
            pitch: self.pitch,
            seed: self.seed,
            rate: self.rate,
            x: self.x,
            v: self.v,
        }
    }
}

/// The two hold the same frame. What is left of the pitch counts in voiced frames only.
pub open spec fn same_planned(a: PlannedFrame, b: PlannedFrame) -> bool {
    &&& a.frame_type == b.frame_type
    &&& a.gains == b.gains
    &&& a.i1 == b.i1
    &&& a.res == b.res
    &&& a.interp == b.interp
    &&& a.voiced() ==> a.pitch == b.pitch
    &&& a.seed == b.seed
    &&& a.rate == b.rate
    &&& a.x == b.x
    &&& a.v == b.v
}

spec fn nlsf_part(c: PlannedFrame, shape: StepShape) -> Seq<Coded> {
    nlsf_log(
        shape.frame.bw.wide(),
        c.voiced(),
        c.i1,
        c.res,
        shape.frame.is_20ms(),
        c.interp,
    )
}

spec fn excitation_part(c: PlannedFrame) -> Seq<Coded> {
    excitation_log(c.signal_type(), c.frame_type % 2, c.rate, c.x)
}

/// A frame's log, cut at each of its pieces.
proof fn lemma_cuts(past: Seq<Coded>, c: PlannedFrame, shape: StepShape, t: Seq<Coded>)
    ensures
        ({
            let l = past + c.log(shape) + t;
            let f = frame_type_log(shape.frame.active, c.frame_type);
            let g = c.gains.log(signal_of(c.frame_type));
            let n = nlsf_part(c, shape);
            let p = c.pitch_symbols(shape);
            let s = seq![symbol(seed_model(), c.seed)];
            let e = excitation_part(c);
            &&& l == past + f + (g + (n + (p + (s + (e + t)))))
            &&& l == (past + f) + g + (n + (p + (s + (e + t))))
            &&& l == (past + f + g) + n + (p + (s + (e + t)))
            &&& l == (past + f + g + n) + p + (s + (e + t))
            &&& l == (past + f + g + n + p) + s + (e + t)
            &&& l == (past + f + g + n + p + s) + e + t
        }),
{
    let f = frame_type_log(shape.frame.active, c.frame_type);
    let g = c.gains.log(signal_of(c.frame_type));
    let n = nlsf_part(c, shape);
    let p = c.pitch_symbols(shape);
    let s = seq![symbol(seed_model(), c.seed)];
    let e = excitation_part(c);
    reveal(PlannedFrame::log);
    assert(c.log(shape) == f + g + n + p + s + e);
    lemma_cut(past, f, g, n, p, s, e, t);
}

proof fn lemma_pitch_unique(
    bytes: Seq<u8>,
    past: Seq<Coded>,
    shape: StepShape,
    a: PlannedFrame,
    ta: Seq<Coded>,
    b: PlannedFrame,
    tb: Seq<Coded>,
)
    requires
        a.coded(shape),
        b.coded(shape),
        a.voiced(),
        b.voiced(),
        carries(bytes, past + a.pitch_symbols(shape) + ta),
        carries(bytes, past + b.pitch_symbols(shape) + tb),
    ensures
        a.pitch == b.pitch,
{
    reveal(PlannedFrame::coded);
    let (la, lb) = (
        bare_pitch_log(shape.frame.bw, shape.frame.prev_lag, a.pitch),
        bare_pitch_log(shape.frame.bw, shape.frame.prev_lag, b.pitch),
    );
    if shape.scale_said {
        let (sa, sb) = (
            seq![symbol(scaling_model(), a.pitch.scaling)],
            seq![symbol(scaling_model(), b.pitch.scaling)],
        );
        lemma_regroup(past, la, sa, ta);
        lemma_regroup(past, lb, sb, tb);
        law_bare_pitch_reads_back(
            bytes,
            past,
            shape.frame,
            a.pitch,
            sa + ta,
            b.pitch,
            sb + tb,
        );
        lemma_next_symbol(
            bytes,
            past + la,
            scaling_model(),
            a.pitch.scaling,
            ta,
            b.pitch.scaling,
            tb,
        );
    } else {
        law_bare_pitch_reads_back(bytes, past, shape.frame, a.pitch, ta, b.pitch, tb);
    }
}

/// What is written as a frame of a planned packet is read back: where the same bytes carry, after
/// the same symbols, two frames of the same shape, the two are one and the same.
pub proof fn law_planned_frame_reads_back(
    bytes: Seq<u8>,
    past: Seq<Coded>,
    shape: StepShape,
    a: PlannedFrame,
    ta: Seq<Coded>,
    b: PlannedFrame,
    tb: Seq<Coded>,
)
    requires
        a.coded(shape),
        b.coded(shape),
        carries(bytes, past + a.log(shape) + ta),
        carries(bytes, past + b.log(shape) + tb),
    ensures
        same_planned(a, b),
        a.log(shape) == b.log(shape),
{
    reveal(PlannedFrame::coded);
    lemma_cuts(past, a, shape, ta);
    lemma_cuts(past, b, shape, tb);
    let fa = frame_type_log(shape.frame.active, a.frame_type);
    let (ea, eb) = (excitation_part(a), excitation_part(b));
    let (sa, sb) = (seq![symbol(seed_model(), a.seed)], seq![symbol(seed_model(), b.seed)]);
    let (qa, qb) = (a.pitch_symbols(shape), b.pitch_symbols(shape));
    let (na, nb) = (nlsf_part(a, shape), nlsf_part(b, shape));
    let (ga, gb) = (
        a.gains.log(signal_of(a.frame_type)),
        b.gains.log(signal_of(b.frame_type)),
    );
    let base = if shape.frame.active {
        2int
    } else {
        0int
    };
    lemma_next_symbol(
        bytes,
        past,
        frame_type_model(shape.frame.active),
        a.frame_type - base,
        ga + (na + (qa + (sa + (ea + ta)))),
        b.frame_type - base,
        gb + (nb + (qb + (sb + (eb + tb)))),
    );
    let p1 = past + fa;
    law_gains_read_back(
        bytes,
        p1,
        signal_of(a.frame_type),
        a.gains,
        na + (qa + (sa + (ea + ta))),
        b.gains,
        nb + (qb + (sb + (eb + tb))),
    );
    let p2 = p1 + ga;
    law_nlsf_reads_back(
        bytes,
        p2,
        shape.frame.bw.wide(),
        a.voiced(),
        shape.frame.is_20ms(),
        a.i1,
        a.res,
        a.interp,
        qa + (sa + (ea + ta)),
        b.i1,
        b.res,
        b.interp,
        qb + (sb + (eb + tb)),
    );
    let p3 = p2 + na;
    if a.voiced() {
        lemma_pitch_unique(bytes, p3, shape, a, sa + (ea + ta), b, sb + (eb + tb));
    }
    let p4 = p3 + qa;
    lemma_next_symbol(bytes, p4, seed_model(), a.seed, ea + ta, b.seed, eb + tb);
    law_excitation_reads_back(
        bytes,
        p4 + sa,
        a.signal_type(),
        a.frame_type % 2,
        blocks_for(shape.frame.samples()),
        a.rate,
        a.x,
        ta,
        b.rate,
        b.x,
        tb,
    );
    lemma_same_samples(a.v, b.v);
    reveal(PlannedFrame::log);
}

/// The gain models are the same in both kinds of frame.
#[verifier::spinoff_prover]
proof fn lemma_gain_models(frame_type: int)
    requires
        0 <= frame_type <= 5,
    ensures
        msb_model(signal_of(frame_type)) == gain_high_model(frame_type / 2),
        lsb_model() == gain_low_model(),
        delta_model() == gain_delta_model(),
{
    reveal(msb_model);
    reveal(lsb_model);
    reveal(delta_model);
    reveal(gain_high_model);
    reveal(gain_low_model);
    reveal(gain_delta_model);
    assert(msb_model(signal_of(frame_type)) =~= gain_high_model(frame_type / 2));
    assert(lsb_model() =~= gain_low_model());
    assert(delta_model() =~= gain_delta_model());
}

/// A first frame of a sequence is a frame whose gain stands by itself, symbol by symbol.
pub proof fn law_first_frame_stands_alone(c: PlannedFrame, shape: StepShape)
    requires
        c.coded(shape),
        shape.gain_alone,
        shape.scale_said,
    ensures
        c.alone().coded(shape.frame),
        c.alone().log(shape.frame) == c.log(shape),
{
    reveal(PlannedFrame::coded);
    reveal(FrameCode::coded);
    lemma_gain_models(c.frame_type);
    let g = c.gains.log(signal_of(c.frame_type));
    assert(g =~= gains_log(c.signal_type(), c.gains.first->0, c.gains.deltas));
    reveal(PlannedFrame::log);
    reveal(FrameCode::log);
}

/// The gains of such a frame are the same, where nothing came before.
pub proof fn law_first_gains_stand_alone(c: PlannedFrame, shape: StepShape, k: int)
    requires
        c.coded(shape),
        shape.gain_alone,
        shape.gain_before is None,
    ensures
        c.log_gain(shape, k) == c.alone().log_gain(k),
    decreases k,
{
    reveal(PlannedFrame::coded);
    if k > 0 {
        law_first_gains_stand_alone(c, shape, k - 1);
    }
}

/// Types 0 and 1 are inactive, 2 and 3 unvoiced, 4 and 5 voiced.
pub proof fn law_signals_of_types(c: PlannedFrame)
    requires
        0 <= c.frame_type <= 5,
    ensures
        signal_of(c.frame_type) is Inactive <==> c.frame_type < 2,
        signal_of(c.frame_type) is Voiced <==> c.frame_type >= 4,
        c.voiced() <==> signal_of(c.frame_type) is Voiced,
        2 * c.signal_type() <= c.frame_type <= 2 * c.signal_type() + 1,
{
}

/// The scale is said after the other long-term prediction parameters where it is said at all; a
/// frame that is not voiced says none of them.
pub proof fn law_scale_comes_last(c: PlannedFrame, shape: StepShape)
    requires
        0 <= c.frame_type <= 5,
    ensures
        ({
            let said = c.pitch_symbols(StepShape { scale_said: true, ..shape });
            let unsaid = c.pitch_symbols(StepShape { scale_said: false, ..shape });
            &&& c.frame_type < 4 ==> said.len() == 0 && unsaid.len() == 0
            &&& c.frame_type >= 4 ==> said == unsaid.push(
                symbol(scaling_model(), c.pitch.scaling),
            )
            &&& c.frame_type >= 4 ==> unsaid == bare_pitch_log(
                shape.frame.bw,
                shape.frame.prev_lag,
                c.pitch,
            )
        }),
{
    let said = c.pitch_symbols(StepShape { scale_said: true, ..shape });
    let unsaid = c.pitch_symbols(StepShape { scale_said: false, ..shape });
    if c.frame_type >= 4 {
        assert(said =~= unsaid.push(symbol(scaling_model(), c.pitch.scaling)));
    }
}

/// The symbols of a frame: its type first, then its gains, its NLSFs, what it has of long-term
/// prediction, the seed, and the excitation last.
pub proof fn law_planned_layout(c: PlannedFrame, shape: StepShape)
    requires
        0 <= c.frame_type <= 5,
    ensures
        ({
            let l = c.log(shape);
            let gains = c.gains.log(signal_of(c.frame_type));
            let nlsfs = nlsf_log(
                shape.frame.bw == OpusBandwidth::Wideband,
                c.frame_type >= 4,
                c.i1,
                c.res,
                shape.frame.subframes == 4,
                c.interp,
            );
            let pitch = c.pitch_symbols(shape);
            let (g, n, p) = (gains.len() as int, nlsfs.len() as int, pitch.len() as int);
            let seed = 1 + g + n + p;
            &&& l.len() > seed
            &&& l[0] == symbol(
                frame_type_model(shape.frame.active),
                if shape.frame.active {
                    c.frame_type - 2
                } else {
                    c.frame_type
                },
            )
            &&& l.subrange(1, 1 + g) == gains
            &&& l.subrange(1 + g, 1 + g + n) == nlsfs
            &&& l.subrange(1 + g + n, seed) == pitch
            &&& l[seed] == symbol(seed_model(), c.seed)
            &&& l.skip(seed + 1) == excitation_log(c.frame_type / 2, c.frame_type % 2, c.rate, c.x)
        }),
{
    reveal(PlannedFrame::log);
    let l = c.log(shape);
    let gains = c.gains.log(signal_of(c.frame_type));
    let nlsfs = nlsf_part(c, shape);
    let pitch = c.pitch_symbols(shape);
    let (g, n, p) = (gains.len() as int, nlsfs.len() as int, pitch.len() as int);
    assert(l.subrange(1, 1 + g) =~= gains);
    assert(l.subrange(1 + g, 1 + g + n) =~= nlsfs);
    assert(l.subrange(1 + g + n, 1 + g + n + p) =~= pitch);
    assert(l.skip(2 + g + n + p) =~= excitation_part(c));
}

/// What a frame leaves to the next: its pitch lag if it was voiced, otherwise the lag before it.
pub proof fn law_lag_left_behind(c: PlannedFrame, shape: StepShape)
    requires
        0 <= c.frame_type <= 5,
    ensures
        c.frame_type >= 4 ==> c.lag_after(shape) == c.pitch.lag,
        c.frame_type < 4 ==> c.lag_after(shape) == shape.frame.prev_lag,
        c.nlsfs(shape) == decoded_nlsfs(
            shape.frame.bw == OpusBandwidth::Wideband,
            c.i1,
            c.res,
        ),
{
}

} // verus!
