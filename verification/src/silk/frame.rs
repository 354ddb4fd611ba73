//! Reading one coded frame.
use oxideav_celt::range_decoder::RangeDecoder;
use vstd::prelude::*;

use crate::arith::{clamp_i32, lemma_shr2};
use crate::error::SilkError;
use crate::range_coder::{can_read, has_read, read_flag, read_log, read_symbol, symbol, Coded};
use crate::silk::excitation::{blocks_for, decode_excitation, read_frame_excitation};
use crate::silk::frame_code::{
    early_nlsfs, factor_in_use, frame_type_log, gains_log, lemma_frame_room, log_gain_after,
    no_memory, pitch_log, quarter_way, row_log, ChannelMemory, FrameCode, FrameShape, PitchCode,
};
use crate::silk::frame_models::{
    frame_type_icdf, gain_delta_icdf, gain_delta_model, gain_high_icdf, gain_low_icdf, seed_icdf,
    seed_model,
};
use crate::silk::gain::{gain_index_to_q16, gain_q16};
use crate::silk::lsf::{decode_nlsf, read_frame_nlsf};
use crate::silk::lsf_models::nlsf_log;
use crate::silk::ltp::{
    decode_absolute_pitch_lag, decode_delta_pitch_lag, decode_ltp_filter_index,
    decode_pitch_contour, expand_pitch_contour, filter_taps, lag_in_range, ltp_filter_from_index,
    primary_lag_coded, primary_lag_log, scale_of,
};
use crate::silk::ltp_models::{filter_count, filter_model, periodicity_icdf, scaling_icdf};
use crate::silk::shell::{excitation_log, signed_ints, ShellFrame};
use crate::silk::stabilize::short_ints;
use crate::toc::OpusBandwidth;

verus! {

/// Number of subframes in a 20 ms frame.
pub const SUBFRAMES_20MS: usize = 4;

/// Number of subframes in a 10 ms frame.
pub const SUBFRAMES_10MS: usize = 2;

/// What the coding of a frame remembers of the frames before, for one channel.
#[derive(Debug, Clone)]
pub struct SilkChannelState {
    /// Pitch lag of the last voiced frame; zero where there was none.
    pub prev_pitch_lag: i32,
    /// NLSFs (Q15) of the last frame; empty where there was none.
    pub prev_nlsf_q15: Vec<i16>,
    /// A gain (Q16) for the owner to use. It is zero at first; reading frames leaves it as it is.
    pub prev_gain_q16: i32,
    /// Whether no frame has been read since the last reset.
    pub first_frame: bool,
}

impl SilkChannelState {
    /// What the channel remembers.
    pub open spec fn memory(self) -> ChannelMemory {
        ChannelMemory {
            lag: self.prev_pitch_lag as int,
            nlsfs: short_ints(self.prev_nlsf_q15@),
            gain: self.prev_gain_q16 as int,
            first: self.first_frame,
        }
    }

    /// `n` more frames cannot move the pitch lag out of the range of its type.
    pub open spec fn lag_room(self, n: int) -> bool {
        i32::MIN + 9 * n <= self.prev_pitch_lag <= i32::MAX - 11 * n
    }

    /// This is a state that up to `n` frames can lead to from `was`, as far as the pitch lag goes.
    pub open spec fn lag_near(self, was: SilkChannelState, n: int) -> bool {
        &&& self.prev_pitch_lag >= -9 * n || self.prev_pitch_lag >= was.prev_pitch_lag - 9 * n
        &&& self.prev_pitch_lag <= 288 + 11 * n || self.prev_pitch_lag <= was.prev_pitch_lag + 11
            * n
    }

    /// The state of a channel that has read nothing.
    pub fn new() -> (s: Self)
        ensures
            s.memory() == no_memory(),
    {
        let s: SilkChannelState = SilkChannelState {
            prev_pitch_lag: 0,
            prev_nlsf_q15: Vec::new(),
            prev_gain_q16: 0,
            first_frame: true,
        };
        assert(s.memory() =~= no_memory());
        s
    }

    /// Forgets everything.
    pub fn reset(&mut self)
        ensures
            final(self).memory() == no_memory(),
    {
        *self = SilkChannelState::new();
    }
}

impl Default for SilkChannelState {
    fn default() -> (s: Self)
        ensures
            s.memory() == no_memory(),
    {
        SilkChannelState::new()
    }
}

/// The parameters of a frame, as a synthesis filter needs them.
#[derive(Debug, Clone)]
pub struct FrameBody {
    /// 0 inactive, 1 unvoiced, 2 voiced.
    pub signal_type: u8,
    /// Which of two quantisation offsets was used.
    pub quant_offset_type: u8,
    /// Gain (Q16) of each subframe.
    pub gains_q16: Vec<i32>,
    /// NLSFs (Q15) of the frame.
    pub nlsf_q15: Vec<i16>,
    /// NLSFs (Q15) of the first two subframes.
    pub early_nlsf_q15: Vec<i16>,
    /// Interpolation factor in use, in quarters.
    pub interp_coef: u8,
    /// Pitch lag of each subframe.
    pub pitch_lags: Vec<i32>,
    /// Long-term prediction taps (Q7) of each subframe.
    pub ltp_taps_q7: Vec<[i8; 5]>,
    /// Long-term prediction scale (Q14).
    pub ltp_scale_q14: i32,
    /// Excitation (Q23).
    pub excitation_q23: Vec<i32>,
}

impl FrameBody {
    /// These are the parameters that `code` stands for, in a channel that remembered `was`.
    pub open spec fn stands_for(
        self,
        code: FrameCode,
        shape: FrameShape,
        was: ChannelMemory,
    ) -> bool {
        &&& self.signal_type == code.signal_type()
        &&& self.quant_offset_type == code.offset_type()
        &&& self.gains_q16@.len() == shape.subframes
        &&& forall|k: int|
            0 <= k < shape.subframes ==> #[trigger] self.gains_q16@[k] == gain_q16(
                code.log_gain(k),
            )
        &&& short_ints(self.nlsf_q15@) == code.nlsfs(shape)
        &&& self.interp_coef == factor_in_use(was.first, was.nlsfs, code.interp)
        &&& short_ints(self.early_nlsf_q15@) == early_nlsfs(
            was.nlsfs,
            code.nlsfs(shape),
            shape.is_20ms(),
            self.interp_coef as int,
        )
        &&& self.pitch_lags@.len() == shape.subframes
        &&& forall|k: int|
            0 <= k < shape.subframes ==> #[trigger] self.pitch_lags@[k] == code.subframe_lag(shape)
        &&& self.ltp_taps_q7@.len() == shape.subframes
        &&& forall|k: int|
            0 <= k < shape.subframes ==> (#[trigger] self.ltp_taps_q7@[k])@ == code.taps(k)
        &&& self.ltp_scale_q14 == code.scale()
        &&& signed_ints(self.excitation_q23@) == code.excitation(shape)
    }
}

/// How a frame is coded in a channel that remembers `was`.
pub open spec fn shape_after(
    was: ChannelMemory,
    active: bool,
    bw: OpusBandwidth,
    subframes: int,
    subframe_len: int,
) -> FrameShape {
    FrameShape { active, bw, subframes, subframe_len, prev_lag: was.lag }
}

/// Between `before` and `after` a frame `code` was read.
pub open spec fn read_frame(
    before: &RangeDecoder<'_>,
    after: &RangeDecoder<'_>,
    shape: FrameShape,
    code: FrameCode,
) -> bool {
    &&& code.coded(shape)
    &&& has_read(before, after, code.log(shape))
}

/// Reads the frame type.
fn read_frame_type(rc: &mut RangeDecoder<'_>, active: bool) -> (ft: u8)
    requires
        can_read(old(rc), 1),
    ensures
        if active {
            2 <= ft <= 5
        } else {
            ft <= 1
        },
        has_read(old(rc), final(rc), frame_type_log(active, ft as int)),
        read_log(final(rc)).len() == read_log(old(rc)).len() + 1,
{
    let sym: usize = read_symbol(rc, frame_type_icdf(active));
    if active {
        sym as u8 + 2
    } else {
        sym as u8
    }
}

/// Reads the gain index of the first subframe and the changes after it.
fn read_gain_indices(rc: &mut RangeDecoder<'_>, signal_type: u8, n_subframes: usize) -> (r: (
    i32,
    Vec<i32>,
))
    requires
        1 <= n_subframes <= 4,
        can_read(old(rc), 5),
    ensures
        0 <= r.0 <= 63,
        r.1@.len() == n_subframes - 1,
        forall|k: int| 0 <= k < r.1@.len() ==> 0 <= #[trigger] signed_ints(r.1@)[k] <= 40,
        has_read(
            old(rc),
            final(rc),
            gains_log(signal_type as int, r.0 as int, signed_ints(r.1@)),
        ),
        read_log(final(rc)).len() <= read_log(old(rc)).len() + 5,
{
    let msb: i32 = read_symbol(rc, gain_high_icdf(signal_type)) as i32;
    let lsb: i32 = read_symbol(rc, gain_low_icdf()) as i32;
    let gain: i32 = msb * 8 + lsb;
    let mut deltas: Vec<i32> = Vec::new();
    proof {
        assert(gain as int / 8 == msb && gain as int % 8 == lsb);
        assert(read_log(rc) =~= read_log(old(rc)) + gains_log(
            signal_type as int,
            gain as int,
            signed_ints(deltas@),
        ));
    }
    let mut k: usize = 1;
    while k < n_subframes
        invariant
            1 <= k <= n_subframes <= 4,
            can_read(old(rc), 5),
            deltas@.len() == k - 1,
            forall|i: int| 0 <= i < deltas@.len() ==> 0 <= #[trigger] signed_ints(deltas@)[i] <= 40,
            has_read(
                old(rc),
                rc,
                gains_log(signal_type as int, gain as int, signed_ints(deltas@)),
            ),
            read_log(rc).len() == read_log(old(rc)).len() + 1 + k,
        decreases n_subframes - k,
    {
        let ghost was = signed_ints(deltas@);
        let delta: i32 = read_symbol(rc, gain_delta_icdf()) as i32;
        deltas.push(delta);
        proof {
            assert(signed_ints(deltas@) =~= was.push(delta as int));
            assert(row_log(gain_delta_model(), signed_ints(deltas@)) =~= row_log(
                gain_delta_model(),
                was,
            ).push(symbol(gain_delta_model(), delta as int)));
            assert(read_log(rc) =~= read_log(old(rc)) + gains_log(
                signal_type as int,
                gain as int,
                signed_ints(deltas@),
            ));
        }
        k = k + 1;
    }
    (gain, deltas)
}

/// The gains (Q16) that a first index and changes stand for.
pub fn gains_from_indices(gain: i32, deltas: &Vec<i32>) -> (g: Vec<i32>)
    requires
        0 <= gain <= 63,
        forall|k: int| 0 <= k < deltas@.len() ==> 0 <= #[trigger] deltas@[k] <= 40,
    ensures
        g@.len() == deltas@.len() + 1,
        forall|k: int|
            0 <= k < g@.len() ==> #[trigger] g@[k] == gain_q16(
                log_gain_after(gain as int, signed_ints(deltas@), k),
            ),
{
    let mut prev: i32 = gain;
    let mut g: Vec<i32> = Vec::new();
    g.push(gain_index_to_q16(prev));
    for k in 0..deltas.len()
        invariant
            0 <= gain <= 63,
            0 <= prev <= 63,
            prev == log_gain_after(gain as int, signed_ints(deltas@), k as int),
            forall|k: int| 0 <= k < deltas@.len() ==> 0 <= #[trigger] deltas@[k] <= 40,
            g@.len() == k + 1,
            forall|i: int|
                0 <= i <= k ==> #[trigger] g@[i] == gain_q16(
                    log_gain_after(gain as int, signed_ints(deltas@), i),
                ),
    {
        let delta: i32 = deltas[k];
        let moved: i32 = prev + delta - 4;
        let least: i32 = 2 * delta - 16;
        let candidate: i32 = if moved >= least {
            moved
        } else {
            least
        };
        prev = clamp_i32(candidate, 0, 63);
        g.push(gain_index_to_q16(prev));
    }
    g
}

/// The NLSFs of the first half of a frame.
pub fn interpolate_nlsf(
    prev: &Vec<i16>,
    nlsf: &Vec<i16>,
    is_20ms: bool,
    factor: u8,
) -> (early: Vec<i16>)
    ensures
        short_ints(early@) == early_nlsfs(
            short_ints(prev@),
            short_ints(nlsf@),
            is_20ms,
            factor as int,
        ),
{
    let order: usize = nlsf.len();
    let blend: bool = is_20ms && factor < 4 && prev.len() == order;
    let mut early: Vec<i16> = Vec::new();
    for k in 0..order
        invariant
            order == nlsf@.len(),
            blend == (is_20ms && factor < 4 && prev@.len() == order),
            early@.len() == k,
            forall|i: int|
                0 <= i < k ==> #[trigger] early@[i] == (if blend {
                    quarter_way(prev@[i] as int, nlsf@[i] as int, factor as int)
                } else {
                    nlsf@[i] as int
                }),
    {
        if blend {
            let n0: i32 = prev[k] as i32;
            let n2: i32 = nlsf[k] as i32;
            let w: i32 = factor as i32;
            let diff: i32 = n2 - n0;
            assert(-262144 <= w * diff <= 262144) by (nonlinear_arith)
                requires
                    0 <= w <= 4,
                    -65536 <= diff <= 65536,
            ;
            let part: i32 = w * diff;
            proof {
                lemma_shr2(part);
            }
            let n1: i32 = n0 + (part >> 2);
            early.push(clamp_i32(n1, 0, 32767) as i16);
        } else {
            early.push(nlsf[k]);
        }
    }
    proof {
        assert(short_ints(early@) =~= early_nlsfs(
            short_ints(prev@),
            short_ints(nlsf@),
            is_20ms,
            factor as int,
        ));
    }
    early
}

/// The long-term prediction parameters of a frame, as read.
struct PitchParams {
    absolute: bool,
    lag: i32,
    contour: usize,
    periodicity: usize,
    filters: Vec<usize>,
    scaling: usize,
}

impl PitchParams {
    spec fn code(self) -> PitchCode {
        PitchCode {
            absolute: self.absolute,
            lag: self.lag as int,
            contour: self.contour as int,
            periodicity: self.periodicity as int,
            filters: size_ints(self.filters@),
            scaling: self.scaling as int,
        }
    }
}

/// The mathematical value of each entry.
pub open spec fn size_ints(s: Seq<usize>) -> Seq<int> {
    Seq::new(s.len(), |i: int| s[i] as int)
}

/// Reads the filter indices of all subframes.
fn read_filters(rc: &mut RangeDecoder<'_>, periodicity: usize, n_subframes: usize) -> (f: Vec<
    usize,
>)
    requires
        n_subframes <= 4,
        can_read(old(rc), 4),
    ensures
        f@.len() == n_subframes,
        forall|k: int|
            0 <= k < f@.len() ==> 0 <= #[trigger] size_ints(f@)[k] < filter_count(
                periodicity as int,
            ),
        has_read(
            old(rc),
            final(rc),
            row_log(filter_model(periodicity as int), size_ints(f@)),
        ),
        read_log(final(rc)).len() <= read_log(old(rc)).len() + 4,
{
    let mut f: Vec<usize> = Vec::new();
    let ghost model = filter_model(periodicity as int);
    assert(read_log(rc) =~= read_log(old(rc)) + row_log(model, size_ints(f@)));
    for k in 0..n_subframes
        invariant
            n_subframes <= 4,
            can_read(old(rc), 4),
            model == filter_model(periodicity as int),
            f@.len() == k,
            forall|i: int|
                0 <= i < f@.len() ==> 0 <= #[trigger] size_ints(f@)[i] < filter_count(
                    periodicity as int,
                ),
            has_read(old(rc), rc, row_log(model, size_ints(f@))),
            read_log(rc).len() == read_log(old(rc)).len() + k,
    {
        let ghost was = size_ints(f@);
        let idx: usize = decode_ltp_filter_index(rc, periodicity);
        f.push(idx);
        proof {
            assert(size_ints(f@) =~= was.push(idx as int));
            assert(row_log(model, size_ints(f@)) =~= row_log(model, was).push(
                symbol(model, idx as int),
            ));
            assert(read_log(rc) =~= read_log(old(rc)) + row_log(model, size_ints(f@)));
        }
    }
    f
}

/// Reads the pitch lag of a frame.
fn read_primary_lag(rc: &mut RangeDecoder<'_>, bw: OpusBandwidth, prev_lag: i32) -> (r: (
    bool,
    i32,
))
    requires
        can_read(old(rc), 3),
        i32::MIN + 9 <= prev_lag <= i32::MAX - 11,
    ensures
        primary_lag_coded(bw, r.0, r.1 as int, prev_lag as int),
        has_read(
            old(rc),
            final(rc),
            primary_lag_log(bw, r.0, r.1 as int, prev_lag as int),
        ),
        read_log(final(rc)).len() <= read_log(old(rc)).len() + 3,
{
    let absolute: bool = read_flag(rc);
    let lag: i32 = if absolute || prev_lag == 0 {
        match decode_absolute_pitch_lag(rc, bw) {
            Ok(lag) => lag,
            Err(_) => 0,
        }
    } else {
        match decode_delta_pitch_lag(rc) {
            Ok(delta) => prev_lag + delta,
            Err(_) => 0,
        }
    };
    assert(read_log(rc) =~= read_log(old(rc)) + primary_lag_log(
        bw,
        absolute,
        lag as int,
        prev_lag as int,
    ));
    (absolute, lag)
}

/// Reads the long-term prediction parameters of a voiced frame.
fn read_pitch(
    rc: &mut RangeDecoder<'_>,
    bw: OpusBandwidth,
    n_subframes: usize,
    prev_lag: i32,
    Ghost(shape): Ghost<FrameShape>,
) -> (p: PitchParams)
    requires
        shape.bw == bw,
        shape.subframes == n_subframes,
        shape.prev_lag == prev_lag,
        n_subframes <= 4,
        can_read(old(rc), 10),
        i32::MIN + 9 <= prev_lag <= i32::MAX - 11,
    ensures
        p.code().coded(shape),
        has_read(old(rc), final(rc), pitch_log(bw, prev_lag as int, p.code())),
        read_log(final(rc)).len() <= read_log(old(rc)).len() + 10,
{
    let (absolute, lag): (bool, i32) = read_primary_lag(rc, bw, prev_lag);
    let contour: usize = match decode_pitch_contour(rc, bw) {
        Ok(c) => c,
        Err(_) => 0,
    };
    let periodicity: usize = read_symbol(rc, periodicity_icdf());
    let filters: Vec<usize> = read_filters(rc, periodicity, n_subframes);
    let scaling: usize = read_symbol(rc, scaling_icdf());
    let p: PitchParams = PitchParams { absolute, lag, contour, periodicity, filters, scaling };
    proof {
        assert(read_log(rc) =~= read_log(old(rc)) + pitch_log(bw, prev_lag as int, p.code()));
    }
    p
}

/// The taps (Q7) of the filters of all subframes.
fn filter_rows(filters: &Vec<usize>, periodicity: usize) -> (rows: Vec<[i8; 5]>)
    ensures
        rows@.len() == filters@.len(),
        forall|k: int|
            0 <= k < rows@.len() ==> (#[trigger] rows@[k])@ == filter_taps(
                filters@[k] as int,
                periodicity as int,
            ),
{
    let mut rows: Vec<[i8; 5]> = Vec::new();
    for k in 0..filters.len()
        invariant
            rows@.len() == k,
            forall|i: int|
                0 <= i < k ==> (#[trigger] rows@[i])@ == filter_taps(
                    filters@[i] as int,
                    periodicity as int,
                ),
    {
        rows.push(ltp_filter_from_index(filters[k], periodicity));
    }
    rows
}

/// The long-term prediction parameters of a frame without a pitch.
fn zero_rows(n: usize) -> (rows: Vec<[i8; 5]>)
    ensures
        rows@.len() == n,
        forall|k: int|
            0 <= k < n ==> (#[trigger] rows@[k])@ == seq![0i8, 0i8, 0i8, 0i8, 0i8],
{
    let mut rows: Vec<[i8; 5]> = Vec::new();
    for k in 0..n
        invariant
            rows@.len() == k,
            forall|i: int|
                0 <= i < k ==> (#[trigger] rows@[i])@ == seq![0i8, 0i8, 0i8, 0i8, 0i8],
    {
        let row: [i8; 5] = [0; 5];
        assert(row@ =~= seq![0i8, 0i8, 0i8, 0i8, 0i8]);
        rows.push(row);
    }
    rows
}

/// The pitch lag after a frame, and its long-term prediction parameters per subframe.
struct PitchBody {
    lag: i32,
    lags: Vec<i32>,
    taps: Vec<[i8; 5]>,
    scale: i32,
}

/// Reads the long-term prediction parameters, which only voiced frames have.
fn read_pitch_body(
    rc: &mut RangeDecoder<'_>,
    voiced: bool,
    bw: OpusBandwidth,
    n_subframes: usize,
    prev_lag: i32,
    Ghost(shape): Ghost<FrameShape>,
) -> (r: (PitchBody, Ghost<PitchCode>))
    requires
        shape.bw == bw,
        shape.subframes == n_subframes,
        shape.prev_lag == prev_lag,
        n_subframes <= 4,
        can_read(old(rc), 10),
        i32::MIN + 9 <= prev_lag <= i32::MAX - 11,
    ensures
        r.0.lags@.len() == n_subframes,
        r.0.taps@.len() == n_subframes,
        voiced ==> {
            &&& r.1@.coded(shape)
            &&& has_read(old(rc), final(rc), pitch_log(bw, prev_lag as int, r.1@))
            &&& r.0.lag == r.1@.lag
            &&& forall|k: int|
                0 <= k < n_subframes ==> #[trigger] r.0.lags@[k] == lag_in_range(bw, r.1@.lag)
            &&& forall|k: int|
                0 <= k < n_subframes ==> (#[trigger] r.0.taps@[k])@ == filter_taps(
                    r.1@.filters[k],
                    r.1@.periodicity,
                )
            &&& r.0.scale == scale_of(r.1@.scaling)
        },
        !voiced ==> {
            &&& has_read(old(rc), final(rc), Seq::<Coded>::empty())
            &&& r.0.lag == prev_lag
            &&& forall|k: int| 0 <= k < n_subframes ==> #[trigger] r.0.lags@[k] == 0
            &&& forall|k: int|
                0 <= k < n_subframes ==> (#[trigger] r.0.taps@[k])@ == seq![
                    0i8,
                    0i8,
                    0i8,
                    0i8,
                    0i8,
                ]
            &&& r.0.scale == 15565
        },
        prev_lag - 9 <= r.0.lag <= prev_lag + 11 || 0 <= r.0.lag <= 1000,
        read_log(final(rc)).len() <= read_log(old(rc)).len() + 10,
{
    let mut lags: Vec<i32> = vec![0i32; n_subframes];
    if voiced {
        let p: PitchParams = read_pitch(rc, bw, n_subframes, prev_lag, Ghost(shape));
        expand_pitch_contour(p.lag, p.contour, bw, lags.as_mut_slice());
        let taps: Vec<[i8; 5]> = filter_rows(&p.filters, p.periodicity);
        let scale: i32 = match p.scaling {
            0 => 15565,
            1 => 12288,
            _ => 8192,
        };
        (PitchBody { lag: p.lag, lags, taps, scale }, Ghost(p.code()))
    } else {
        assert(read_log(rc) =~= read_log(old(rc)) + Seq::<Coded>::empty());
        let ghost none = PitchCode {
            absolute: false,
            lag: 0,
            contour: 0,
            periodicity: 0,
            filters: Seq::empty(),
            scaling: 0,
        };
        (PitchBody { lag: prev_lag, lags, taps: zero_rows(n_subframes), scale: 15565 }, Ghost(none))
    }
}

/// Reads one frame of two or four subframes, after the flags that announce it. The state of the
/// channel moves on.
#[verifier::rlimit(40)]
pub fn decode_frame_body(
    rc: &mut RangeDecoder<'_>,
    vad_flag: bool,
    bandwidth: OpusBandwidth,
    subframe_len: usize,
    n_subframes: usize,
    state: &mut SilkChannelState,
) -> (r: Result<FrameBody, SilkError>)
    requires
        n_subframes == SUBFRAMES_10MS || n_subframes == SUBFRAMES_20MS,
        can_read(
            old(rc),
            shape_after(
                old(state).memory(),
                vad_flag,
                bandwidth,
                n_subframes as int,
                subframe_len as int,
            ).symbols(),
        ),
        old(state).lag_room(1),
    ensures
        r is Ok,
        ({
            let shape = shape_after(
                old(state).memory(),
                vad_flag,
                bandwidth,
                n_subframes as int,
                subframe_len as int,
            );
            &&& exists|code: FrameCode|
                {
                    &&& #[trigger] read_frame(old(rc), final(rc), shape, code)
                    &&& r->Ok_0.stands_for(code, shape, old(state).memory())
                    &&& final(state).memory() == code.remembered(shape, old(state).memory())
                }
            &&& read_log(final(rc)).len() <= read_log(old(rc)).len() + shape.symbols()
        }),
        final(state).lag_near(*old(state), 1),
{
    let ghost shape = shape_after(
        old(state).memory(),
        vad_flag,
        bandwidth,
        n_subframes as int,
        subframe_len as int,
    );
    proof {
        lemma_frame_room(shape);
        assert(subframe_len * n_subframes == shape.samples());
    }
    let frame_len: usize = subframe_len * n_subframes;
    let frame_type: u8 = read_frame_type(rc, vad_flag);
    let signal_type: u8 = frame_type / 2;
    let quant_offset_type: u8 = frame_type % 2;
    let voiced: bool = signal_type == 2;
    let (gain, deltas): (i32, Vec<i32>) = read_gain_indices(rc, signal_type, n_subframes);
    proof {
        assert forall|k: int| 0 <= k < deltas@.len() implies 0 <= #[trigger] deltas@[k] <= 40 by {
            assert(0 <= signed_ints(deltas@)[k] <= 40);
        }
    }
    let gains_q16: Vec<i32> = gains_from_indices(gain, &deltas);
    let is_20ms: bool = n_subframes == SUBFRAMES_20MS;
    let ghost at_nlsf = *rc;
    let (nlsf_q15, raw_interp_coef): (Vec<i16>, u8) = match decode_nlsf(
        rc,
        bandwidth,
        signal_type,
        is_20ms,
    ) {
        Ok(pair) => pair,
        Err(e) => {
            return Err(e);
        },
    };
    let ghost (i1, res) = choose|i1: int, res: Seq<int>|
        #[trigger] read_frame_nlsf(
            &at_nlsf,
            rc,
            bandwidth,
            signal_type as int,
            is_20ms,
            i1,
            res,
            short_ints(nlsf_q15@),
            raw_interp_coef as int,
        );
    let interp_coef: u8 = if state.first_frame || state.prev_nlsf_q15.len() == 0 {
        4
    } else {
        raw_interp_coef
    };
    let early_nlsf_q15: Vec<i16> = interpolate_nlsf(
        &state.prev_nlsf_q15,
        &nlsf_q15,
        is_20ms,
        interp_coef,
    );
    let (pitch, Ghost(pitch_code)): (PitchBody, Ghost<PitchCode>) = read_pitch_body(
        rc,
        voiced,
        bandwidth,
        n_subframes,
        state.prev_pitch_lag,
        Ghost(shape),
    );
    state.prev_pitch_lag = pitch.lag;
    let seed: u32 = read_symbol(rc, seed_icdf()) as u32;
    let ghost at_excitation = *rc;
    let excitation_q23: Vec<i32> = match decode_excitation(
        rc,
        frame_len,
        subframe_len,
        signal_type,
        quant_offset_type,
        seed,
    ) {
        Ok(x) => x,
        Err(e) => {
            return Err(e);
        },
    };
    let ghost (rate, x, v) = choose|rate: int, x: ShellFrame, v: Seq<i32>|
        #[trigger] read_frame_excitation(
            &at_excitation,
            rc,
            signal_type as int,
            quant_offset_type as int,
            seed,
            frame_len as int,
            rate,
            x,
            v,
            signed_ints(excitation_q23@),
        );
    state.first_frame = false;
    state.prev_nlsf_q15 = copy_nlsf(&nlsf_q15);
    let body: FrameBody = FrameBody {
        signal_type,
        quant_offset_type,
        gains_q16,
        nlsf_q15,
        early_nlsf_q15,
        interp_coef,
        pitch_lags: pitch.lags,
        ltp_taps_q7: pitch.taps,
        ltp_scale_q14: pitch.scale,
        excitation_q23,
    };
    proof {
        let code = FrameCode {
            frame_type: frame_type as int,
            gain: gain as int,
            deltas: signed_ints(deltas@),
            i1,
            res,
            interp: raw_interp_coef as int,
            pitch: pitch_code,
            seed: seed as int,
            rate,
            x,
            v,
        };
        assert(x.samples().len() == 16 * x.values.len());
        assert(signed_ints(v).len() == 16 * blocks_for(frame_len as int));
        reveal(FrameCode::coded);
        reveal(FrameCode::log);
        assert(code.coded(shape));
        assert(code.signal_type() == signal_type);
        assert(code.offset_type() == quant_offset_type);
        lemma_join(
            read_log(old(rc)),
            frame_type_log(vad_flag, frame_type as int),
            gains_log(signal_type as int, gain as int, signed_ints(deltas@)),
            nlsf_log(
                bandwidth.wide(),
                voiced,
                i1,
                res,
                is_20ms,
                raw_interp_coef as int,
            ),
            if voiced {
                pitch_log(bandwidth, shape.prev_lag, pitch_code)
            } else {
                Seq::empty()
            },
            seq![symbol(seed_model(), seed as int)],
            excitation_log(signal_type as int, quant_offset_type as int, rate, x),
        );
        assert(read_log(rc) == read_log(old(rc)) + code.log(shape));
        assert(read_frame(old(rc), rc, shape, code));
        assert(body.stands_for(code, shape, old(state).memory()));
        assert(state.memory() =~= code.remembered(shape, old(state).memory()));
    }
    let out: Result<FrameBody, SilkError> = Ok(body);
    out
}

/// Appending piece by piece is appending all at once.
proof fn lemma_join(
    past: Seq<Coded>,
    a: Seq<Coded>,
    b: Seq<Coded>,
    c: Seq<Coded>,
    d: Seq<Coded>,
    e: Seq<Coded>,
    f: Seq<Coded>,
)
    ensures
        past + a + b + c + d + e + f == past + (a + b + c + d + e + f),
{
    assert(past + a + b + c + d + e + f =~= past + (a + b + c + d + e + f));
}

/// A copy of NLSFs.
fn copy_nlsf(nlsf: &Vec<i16>) -> (out: Vec<i16>)
    ensures
        out@ == nlsf@,
{
    let mut out: Vec<i16> = Vec::new();
    for k in 0..nlsf.len()
        invariant
            out@.len() == k,
            forall|i: int| 0 <= i < k ==> #[trigger] out@[i] == nlsf@[i],
    {
        out.push(nlsf[k]);
    }
    assert(out@ =~= nlsf@);
    out
}

} // verus!
