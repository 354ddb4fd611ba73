//! What a coded frame holds, the symbols that carry it, and what it stands for.
use vstd::prelude::*;

use crate::arith::limited;
use crate::range_coder::{symbol, Coded};
use crate::silk::dither::{quant_offset, reconstructed};
use crate::silk::excitation::blocks_for;
use crate::silk::frame_models::{
    frame_type_model, gain_delta_model, gain_high_model, gain_low_model, seed_model,
};
use crate::silk::lsf::{decoded_nlsfs, is_voiced};
use crate::silk::lsf_models::{in_residual_range, nlsf_log, order_of};
use crate::silk::ltp::{filter_taps, lag_in_range, primary_lag_coded, primary_lag_log, scale_of};
use crate::silk::ltp_models::{
    contour_model, filter_count, filter_model, periodicity_model, scaling_model,
};
use crate::silk::shell::{excitation_log, signed_ints, ShellFrame, BLOCK_SYMBOLS};
use crate::toc::OpusBandwidth;

verus! {

/// The long-term prediction parameters of a voiced frame, as coded: whether the pitch lag stands
/// by itself, the lag, the contour, the periodicity class, a filter per subframe and the scale.
pub struct PitchCode {
    pub absolute: bool,
    pub lag: int,
    pub contour: int,
    pub periodicity: int,
    pub filters: Seq<int>,
    pub scaling: int,
}

/// Everything that is coded for a frame. The samples `v` are those of the shell frame `x`.
pub struct FrameCode {
    pub frame_type: int,
    pub gain: int,
    pub deltas: Seq<int>,
    pub i1: int,
    pub res: Seq<int>,
    pub interp: int,
    pub pitch: PitchCode,
    pub seed: int,
    pub rate: int,
    pub x: ShellFrame,
    pub v: Seq<i32>,
}

/// How a frame is coded: with voice activity or without, in which bandwidth, in how many subframes
/// of how many samples, and after which pitch lag.
pub struct FrameShape {
    pub active: bool,
    pub bw: OpusBandwidth,
    pub subframes: int,
    pub subframe_len: int,
    pub prev_lag: int,
}

impl FrameShape {
    /// Frames of four subframes last 20 ms.
    pub open spec fn is_20ms(self) -> bool {
        self.subframes == 4
    }

    /// Number of samples.
    pub open spec fn samples(self) -> int {
        self.subframe_len * self.subframes
    }

    /// Bound on the number of symbols, in up to four subframes.
    pub open spec fn symbols(self) -> int {
        60 + BLOCK_SYMBOLS * blocks_for(4 * self.subframe_len)
    }
}

/// Two or four subframes are within the bound on the number of symbols.
pub(crate) proof fn lemma_frame_room(shape: FrameShape)
    requires
        shape.subframes == 2 || shape.subframes == 4,
        shape.subframe_len >= 0,
    ensures
        0 <= shape.samples() <= 4 * shape.subframe_len,
        60 + BLOCK_SYMBOLS * blocks_for(shape.samples()) <= shape.symbols(),
{
    assert(shape.subframe_len * shape.subframes == (if shape.subframes == 2 {
        2 * shape.subframe_len
    } else {
        4 * shape.subframe_len
    })) by (nonlinear_arith)
        requires
            shape.subframes == 2 || shape.subframes == 4,
    ;
}

/// What a channel remembers of the frames before: the pitch lag of the last voiced one, the NLSFs
/// of the last one, and whether there was none. It also holds a gain for its owner, which frames do
/// not change.
#[verifier::ext_equal]
pub struct ChannelMemory {
    pub lag: int,
    pub nlsfs: Seq<int>,
    pub gain: int,
    pub first: bool,
}

/// What a channel remembers that has read nothing.
pub open spec fn no_memory() -> ChannelMemory {
    ChannelMemory { lag: 0, nlsfs: Seq::empty(), gain: 0, first: true }
}

/// The symbol of the frame type.
pub open spec fn frame_type_log(active: bool, frame_type: int) -> Seq<Coded> {
    seq![symbol(frame_type_model(active), if active {
        frame_type - 2
    } else {
        frame_type
    })]
}

/// The symbols of values that share a model.
pub open spec fn row_log(model: Seq<u8>, values: Seq<int>) -> Seq<Coded> {
    Seq::new(values.len(), |k: int| symbol(model, values[k]))
}

/// The symbols of the gains: the index of the first subframe in two parts, then the changes.
pub open spec fn gains_log(signal_type: int, gain: int, deltas: Seq<int>) -> Seq<Coded> {
    seq![symbol(gain_high_model(signal_type), gain / 8), symbol(gain_low_model(), gain % 8)]
        + row_log(gain_delta_model(), deltas)
}

/// The symbols of the long-term prediction parameters without the scale.
pub open spec fn bare_pitch_log(bw: OpusBandwidth, prev_lag: int, p: PitchCode) -> Seq<Coded> {
    primary_lag_log(bw, p.absolute, p.lag, prev_lag) + seq![
        symbol(contour_model(), p.contour),
        symbol(periodicity_model(), p.periodicity),
    ] + row_log(filter_model(p.periodicity), p.filters)
}

/// The symbols of the long-term prediction parameters.
pub open spec fn pitch_log(bw: OpusBandwidth, prev_lag: int, p: PitchCode) -> Seq<Coded> {
    bare_pitch_log(bw, prev_lag, p) + seq![symbol(scaling_model(), p.scaling)]
}

impl PitchCode {
    /// Every part has a symbol.
    pub open spec fn coded(self, shape: FrameShape) -> bool {
        &&& primary_lag_coded(shape.bw, self.absolute, self.lag, shape.prev_lag)
        &&& 0 <= self.contour <= 10
        &&& 0 <= self.periodicity <= 2
        &&& self.filters.len() == shape.subframes
        &&& forall|k: int|
            0 <= k < self.filters.len() ==> 0 <= #[trigger] self.filters[k] < filter_count(
                self.periodicity,
            )
        &&& 0 <= self.scaling <= 2
    }
}

impl FrameCode {
    /// Inactive, unvoiced or voiced.
    pub open spec fn signal_type(self) -> int {
        self.frame_type / 2
    }

    /// Which of two quantisation offsets is used.
    pub open spec fn offset_type(self) -> int {
        self.frame_type % 2
    }

    /// Whether the frame is voiced.
    pub open spec fn voiced(self) -> bool {
        is_voiced(self.signal_type())
    }

    /// Every part has a symbol.
    #[verifier::opaque]
    pub open spec fn coded(self, shape: FrameShape) -> bool {
        &&& if shape.active {
            2 <= self.frame_type <= 5
        } else {
            0 <= self.frame_type <= 1
        }
        &&& 0 <= self.gain <= 63
        &&& self.deltas.len() == shape.subframes - 1
        &&& forall|k: int|
            0 <= k < self.deltas.len() ==> 0 <= #[trigger] self.deltas[k] <= 40
        &&& 0 <= self.i1 < 32
        &&& self.res.len() == order_of(shape.bw.wide())
        &&& in_residual_range(self.res)
        &&& 0 <= self.interp <= 4
        &&& !shape.is_20ms() ==> self.interp == 4
        &&& self.voiced() ==> self.pitch.coded(shape)
        &&& 0 <= self.seed <= 3
        &&& 0 <= self.rate <= 8
        &&& self.x.coherent(blocks_for(shape.samples()))
        &&& self.x.samples() == signed_ints(self.v)
    }

    /// The symbols of the frame, in the order in which they are coded.
    #[verifier::opaque]
    pub open spec fn log(self, shape: FrameShape) -> Seq<Coded> {
        frame_type_log(shape.active, self.frame_type) + gains_log(
            self.signal_type(),
            self.gain,
            self.deltas,
        ) + nlsf_log(
            shape.bw.wide(),
            self.voiced(),
            self.i1,
            self.res,
            shape.is_20ms(),
            self.interp,
        ) + (if self.voiced() {
            pitch_log(shape.bw, shape.prev_lag, self.pitch)
        } else {
            Seq::empty()
        }) + seq![symbol(seed_model(), self.seed)] + excitation_log(
            self.signal_type(),
            self.offset_type(),
            self.rate,
            self.x,
        )
    }

    /// The gain index of subframe `k`. A change of `d` moves the index by `d - 4`, and to at least
    /// `2 * d - 16`.
    pub open spec fn log_gain(self, k: int) -> int {
        log_gain_after(self.gain, self.deltas, k)
    }

    /// The NLSFs of the frame.
    pub open spec fn nlsfs(self, shape: FrameShape) -> Seq<int> {
        decoded_nlsfs(shape.bw.wide(), self.i1, self.res)
    }

    /// The pitch lag that the next frame may refer to.
    pub open spec fn lag_after(self, shape: FrameShape) -> int {
        if self.voiced() {
            self.pitch.lag
        } else {
            shape.prev_lag
        }
    }

    /// What a channel remembers after the frame.
    pub open spec fn remembered(self, shape: FrameShape, was: ChannelMemory) -> ChannelMemory {
        ChannelMemory {
            lag: self.lag_after(shape),
            nlsfs: self.nlsfs(shape),
            gain: was.gain,
            first: false,
        }
    }

    /// The pitch lag of every subframe; zero in frames that are not voiced.
    pub open spec fn subframe_lag(self, shape: FrameShape) -> int {
        if self.voiced() {
            lag_in_range(shape.bw, self.pitch.lag)
        } else {
            0
        }
    }

    /// The long-term prediction taps (Q7) of subframe `k`; zero in frames that are not voiced.
    pub open spec fn taps(self, k: int) -> Seq<i8> {
        if self.voiced() {
            filter_taps(self.pitch.filters[k], self.pitch.periodicity)
        } else {
            seq![0i8, 0i8, 0i8, 0i8, 0i8]
        }
    }

    /// The long-term prediction scale (Q14).
    pub open spec fn scale(self) -> int {
        if self.voiced() {
            scale_of(self.pitch.scaling)
        } else {
            15565
        }
    }

    /// The excitation (Q23).
    pub open spec fn excitation(self, shape: FrameShape) -> Seq<int> {
        reconstructed(
            self.v,
            quant_offset(self.signal_type(), self.offset_type()),
            self.seed as u32,
        ).take(shape.samples())
    }
}

/// The gain index after `k` changes from `gain`.
pub open spec fn log_gain_after(gain: int, deltas: Seq<int>, k: int) -> int
    decreases k,
{
    if k <= 0 {
        gain
    } else {
        let d = deltas[k - 1];
        let moved = log_gain_after(gain, deltas, k - 1) + d - 4;
        limited(if moved >= 2 * d - 16 {
            moved
        } else {
            2 * d - 16
        }, 0, 63)
    }
}

/// Gain indices stay within 0 and 63.
pub proof fn law_log_gain_range(gain: int, deltas: Seq<int>, k: int)
    requires
        0 <= gain <= 63,
    ensures
        0 <= log_gain_after(gain, deltas, k) <= 63,
{
}

/// NLSF `w` quarters of the way from `n0` to `n2`.
pub open spec fn quarter_way(n0: int, n2: int, w: int) -> int {
    limited(n0 + (w * (n2 - n0)) / 4, 0, 32767)
}

/// The NLSFs of the first half of a frame: between those of the frame before and its own, where
/// the frame before is known, has as many, and the factor asks for it.
pub open spec fn early_nlsfs(
    prev: Seq<int>,
    nlsf: Seq<int>,
    is_20ms: bool,
    factor: int,
) -> Seq<int> {
    if is_20ms && factor < 4 && prev.len() == nlsf.len() {
        Seq::new(nlsf.len(), |k: int| quarter_way(prev[k], nlsf[k], factor))
    } else {
        nlsf
    }
}

/// The interpolation factor in use: the coded one, unless the frame before is unknown.
pub open spec fn factor_in_use(first_frame: bool, prev: Seq<int>, interp: int) -> int {
    if first_frame || prev.len() == 0 {
        4
    } else {
        interp
    }
}

/// What a frame type stands for: 0 and 1 inactive, 2 and 3 unvoiced, 4 and 5 voiced. Odd ones use
/// the larger of the two offsets.
pub proof fn law_frame_types(code: FrameCode)
    requires
        0 <= code.frame_type <= 5,
    ensures
        code.frame_type == 2 * code.signal_type() + code.offset_type(),
        0 <= code.offset_type() <= 1,
        code.voiced() <==> code.frame_type >= 4,
{
}

/// The gain index after a change `d` is the least within 0 and 63 that is at least the index before
/// plus `d - 4` and at least `2 * d - 16`, or 63 where there is none.
pub proof fn law_gain_index_after_change(gain: int, deltas: Seq<int>, k: int)
    requires
        k >= 1,
    ensures
        ({
            let (was, now) = (log_gain_after(gain, deltas, k - 1), log_gain_after(gain, deltas, k));
            let d = deltas[k - 1];
            &&& 0 <= now <= 63
            &&& now == 63 || now >= was + d - 4 && now >= 2 * d - 16
            &&& now == 0 || now <= was + d - 4 || now <= 2 * d - 16
        }),
        log_gain_after(gain, deltas, 0) == gain,
{
}

/// NLSFs on the way from the frame before: `w` quarters of the way, rounded down, and those of the
/// frames themselves at either end.
pub proof fn law_quarter_way(n0: int, n2: int, w: int)
    requires
        0 <= n0 <= 32767,
        0 <= n2 <= 32767,
        0 <= w <= 4,
    ensures
        0 <= w * (n2 - n0) - 4 * (quarter_way(n0, n2, w) - n0) < 4,
        quarter_way(n0, n2, 0) == n0,
        quarter_way(n0, n2, 4) == n2,
        n0 <= n2 ==> n0 <= quarter_way(n0, n2, w) <= n2,
        n0 >= n2 ==> n2 <= quarter_way(n0, n2, w) <= n0,
{
    let x = w * (n2 - n0);
    assert(n0 <= n2 ==> 0 <= x <= 4 * (n2 - n0)) by (nonlinear_arith)
        requires
            x == w * (n2 - n0),
            0 <= w <= 4,
    ;
    assert(n0 >= n2 ==> 4 * (n2 - n0) <= x <= 0) by (nonlinear_arith)
        requires
            x == w * (n2 - n0),
            0 <= w <= 4,
    ;
    assert(0 * (n2 - n0) == 0) by (nonlinear_arith);
}

/// The first half of a frame has NLSFs of its own only in 20 ms frames that follow another frame
/// and have a factor below 4. Then each lies that many quarters of the way.
pub proof fn law_early_nlsfs(
    first: bool,
    prev: Seq<int>,
    nlsf: Seq<int>,
    is_20ms: bool,
    interp: int,
    k: int,
)
    requires
        0 <= interp <= 4,
        0 <= k < nlsf.len(),
        forall|j: int| 0 <= j < nlsf.len() ==> 0 <= #[trigger] nlsf[j] <= 32767,
        forall|j: int| 0 <= j < prev.len() ==> 0 <= #[trigger] prev[j] <= 32767,
    ensures
        ({
            let early = early_nlsfs(prev, nlsf, is_20ms, factor_in_use(first, prev, interp));
            &&& early.len() == nlsf.len()
            &&& first || !is_20ms || prev.len() != nlsf.len() || interp == 4 ==> early == nlsf
            &&& !first && is_20ms && prev.len() == nlsf.len() ==> 0 <= interp * (nlsf[k] - prev[k])
                - 4 * (early[k] - prev[k]) < 4
        }),
{
    assert(0 <= nlsf[k] <= 32767);
    if prev.len() == nlsf.len() {
        assert(0 <= prev[k] <= 32767);
        law_quarter_way(prev[k], nlsf[k], interp);
        assert(4 * (nlsf[k] - prev[k]) == 4 * (nlsf[k] - prev[k]));
    }
}

/// What a channel goes by after a frame: the NLSFs of that frame, and its pitch lag if it was
/// voiced. A frame that was not leaves the lag as it was.
pub proof fn law_memory_after_frame(code: FrameCode, shape: FrameShape, was: ChannelMemory)
    requires
        0 <= code.frame_type <= 5,
    ensures
        ({
            let now = code.remembered(shape, was);
            &&& code.frame_type >= 4 ==> now.lag == code.pitch.lag
            &&& code.frame_type < 4 ==> now.lag == shape.prev_lag
            &&& now.nlsfs == decoded_nlsfs(shape.bw.wide(), code.i1, code.res)
            &&& !now.first
            &&& now.gain == was.gain
        }),
{
}

/// What long-term prediction a frame asks for. Frames that are not voiced have no lag, no taps and
/// a scale of 0.95.
pub proof fn law_long_term_prediction(code: FrameCode, shape: FrameShape, k: int)
    requires
        0 <= code.frame_type <= 5,
    ensures
        code.frame_type < 4 ==> code.subframe_lag(shape) == 0 && code.taps(k) == seq![
            0i8,
            0i8,
            0i8,
            0i8,
            0i8,
        ] && code.scale() == 15565,
        code.frame_type >= 4 ==> {
            let lag = code.subframe_lag(shape);
            let (least, most) = if shape.bw is Narrowband {
                (16int, 144int)
            } else if shape.bw is Mediumband {
                (24int, 216int)
            } else {
                (32int, 288int)
            };
            &&& least <= lag <= most
            &&& least <= code.pitch.lag <= most ==> lag == code.pitch.lag
            &&& code.pitch.lag < least ==> lag == least
            &&& code.pitch.lag > most ==> lag == most
            &&& code.taps(k) == filter_taps(code.pitch.filters[k], code.pitch.periodicity)
            &&& code.pitch.scaling == 0 ==> code.scale() == 15565
            &&& code.pitch.scaling == 1 ==> code.scale() == 12288
            &&& code.pitch.scaling == 2 ==> code.scale() == 8192
        },
{
}

} // verus!
