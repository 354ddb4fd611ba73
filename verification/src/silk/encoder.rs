//! Writing one frame: the state that coding decisions rest on, and the symbols that carry them.
//!
//! The signal analysis that proposes filters, gains, lags and excitations works on samples and is
//! not part of this module; here a proposal becomes a decision and a decision becomes symbols.
use oxideav_celt::range_encoder::RangeEncoder;
use vstd::prelude::*;

use crate::arith::{clamp_i32, limited};
use crate::range_coder::{can_write, codable, has_written, symbol, write_log, write_symbol, Coded};
use crate::silk::decoder::{internal_rate, internal_rate_hz};
use crate::silk::excitation::blocks_for;
use crate::silk::frame_code::{
    frame_type_log, gains_log, lemma_frame_room, pitch_log, row_log, FrameCode, FrameShape,
    PitchCode,
};
use crate::silk::frame_models::{
    frame_type_icdf, gain_delta_icdf, gain_delta_model, gain_high_icdf, gain_low_icdf, seed_icdf,
    seed_model,
};
use crate::silk::lsf_models::{
    encode_nlsf_stage2, in_residual_range, interp_icdf, limited_residuals, nlsf_log, order_of,
    stage1_icdf,
};
use crate::silk::ltp::{
    encode_ltp_filter_index, encode_ltp_periodicity, encode_ltp_scaling, encode_pitch_contour,
    encode_primary_pitch_lag, lag_in_range, primary_lag_coded, primary_lag_written,
    sent_absolutely, sent_lag,
};
use crate::silk::ltp_models::filter_model;
use crate::silk::shell::{excitation_log, signed_ints, BLOCK_SYMBOLS};
use crate::silk::shell_encode::{encode_excitation, rate_for, sent_frame};
use crate::silk::shell_laws::{law_quantised_settles, law_sent_frame_coherent};
use crate::silk::shell_quant::{quantised, quantize_to_shell};
use crate::toc::OpusBandwidth;

pub use crate::silk::lsf::synthesize_nlsf_like_decoder;
pub use crate::silk::stereo_weights::{
    encode_stereo_pred_weights, quantise_pred_weight_q13, quantise_round_trip,
};

verus! {

/// Gain indices that fall by no more than this are held.
pub const GAIN_HYSTERESIS_IDX: i32 = 2;

/// Lowest gain index that the level follower proposes.
pub const GAIN_INDEX_FLOOR: i32 = 35;

/// Long-term prediction scale (Q14) of every voiced frame.
pub const LTP_SCALE_Q14_VOICED: i32 = 15565;

/// Periodicity class of every voiced frame.
pub const LTP_PERIODICITY_VOICED: usize = 2;

/// Dither seed of every frame.
pub const ENCODER_LCG_SEED: u32 = 0;

/// The gain index that a level asks for, where `nearest` is the index that comes closest to it, if
/// there is one: never below the floor.
pub fn gain_for_level(nearest: Option<i32>) -> (raw: i32)
    ensures
        raw == (match nearest {
            Some(i) if i > 35 => i as int,
            _ => 35,
        }),
        raw == level_gain(nearest),
{
    match nearest {
        Some(i) => if i > GAIN_INDEX_FLOOR {
            i
        } else {
            GAIN_INDEX_FLOOR
        },
        None => GAIN_INDEX_FLOOR,
    }
}

/// The gain index proposed for a level: the nearest one, but at least the floor.
pub open spec fn level_gain(nearest: Option<i32>) -> int {
    match nearest {
        Some(i) if i > 35 => i as int,
        _ => 35,
    }
}

/// The gain index for a proposal `raw` after `prev`: rises pass, small falls are held.
pub open spec fn steadied_gain(raw: int, prev: Option<i32>) -> int {
    let r = limited(raw, 0, 63);
    match prev {
        Some(p) => if r < p && p - r <= 2 {
            p as int
        } else {
            r
        },
        None => r,
    }
}

/// The gain index for a proposal `raw` after `prev`: rises pass, small falls are held.
pub fn apply_gain_hysteresis(raw: i32, prev: Option<i32>) -> (idx: i32)
    ensures
        idx == steadied_gain(raw as int, prev),
{
    let r: i32 = clamp_i32(raw, 0, 63);
    match prev {
        Some(p) => if r < p && p - r <= GAIN_HYSTERESIS_IDX {
            p
        } else {
            r
        },
        None => r,
    }
}

/// What distinguishes the bandwidths to an encoder.
#[derive(Copy, Clone, Debug)]
pub struct BandwidthParams {
    /// Bandwidth.
    pub bandwidth: OpusBandwidth,
    /// Order of the prediction filter.
    pub lpc_order: usize,
    /// Samples per subframe at the internal rate.
    pub subframe_len: usize,
}

impl BandwidthParams {
    /// The filter order fits the bandwidth, and subframes last 5 ms.
    pub open spec fn consistent(self) -> bool {
        &&& self.lpc_order == order_of(self.bandwidth.wide())
        &&& 200 * self.subframe_len == internal_rate(self.bandwidth)
    }

    /// Narrow band.
    pub fn nb() -> (p: Self)
        ensures
            p.consistent(),
            p.bandwidth == OpusBandwidth::Narrowband,
    {
        BandwidthParams { bandwidth: OpusBandwidth::Narrowband, lpc_order: 10, subframe_len: 40 }
    }

    /// Medium band.
    pub fn mb() -> (p: Self)
        ensures
            p.consistent(),
            p.bandwidth == OpusBandwidth::Mediumband,
    {
        BandwidthParams { bandwidth: OpusBandwidth::Mediumband, lpc_order: 10, subframe_len: 60 }
    }

    /// Wide band.
    pub fn wb() -> (p: Self)
        ensures
            p.consistent(),
            p.bandwidth == OpusBandwidth::Wideband,
    {
        BandwidthParams { bandwidth: OpusBandwidth::Wideband, lpc_order: 16, subframe_len: 80 }
    }
}

/// Writer of the frames of one channel.
pub struct SilkFrameEncoder {
    params: BandwidthParams,
    n_subframes: usize,
    prev_pitch_lag: i32,
    prev_stage1_idx: Option<usize>,
    force_stage1_idx: Option<usize>,
    force_unvoiced: bool,
    force_zero_stage2: bool,
    force_gain_index: Option<i32>,
    prev_gain_idx: Option<i32>,
}

/// What a writer goes by: its geometry, what it remembers and what it was told to do. The lag is
/// the one that was sent last, or zero where the next one has to stand by itself.
#[verifier::ext_equal]
pub struct EncoderView {
    pub params: BandwidthParams,
    pub subframes: int,
    pub prev_lag: int,
    pub prev_stage1: Option<usize>,
    pub prev_gain: Option<i32>,
    pub forced_stage1: Option<usize>,
    pub forced_unvoiced: bool,
    pub forced_zero_stage2: bool,
    pub forced_gain: Option<i32>,
}

impl EncoderView {
    /// A writer that has written nothing and was told nothing.
    pub open spec fn fresh(params: BandwidthParams, subframes: int) -> EncoderView {
        EncoderView {
            params,
            subframes,
            prev_lag: 0,
            prev_stage1: None,
            prev_gain: None,
            forced_stage1: None,
            forced_unvoiced: false,
            forced_zero_stage2: false,
            forced_gain: None,
        }
    }

    /// The same writer once it has forgotten what it wrote. What it was told to do stays.
    pub open spec fn forgetful(self) -> EncoderView {
        EncoderView { prev_lag: 0, prev_stage1: None, prev_gain: None, ..self }
    }

    /// Samples per frame.
    pub open spec fn samples(self) -> int {
        self.params.subframe_len * self.subframes
    }

    /// How the next frame is coded.
    pub open spec fn shape(self) -> FrameShape {
        FrameShape {
            active: true,
            bw: self.params.bandwidth,
            subframes: self.subframes,
            subframe_len: self.params.subframe_len as int,
            prev_lag: self.prev_lag,
        }
    }
}

/// `v`, made a whole number of blocks by appending zeros.
pub open spec fn padded(v: Seq<int>) -> Seq<int> {
    Seq::new((16 * blocks_for(v.len() as int)) as nat, |i: int| if i < v.len() { v[i] } else { 0 })
}

/// What is coded for a frame without voicing.
pub open spec fn unvoiced_code(
    e: EncoderView,
    i1: int,
    res: Seq<int>,
    gain: int,
    v: Seq<i32>,
) -> FrameCode {
    frame_code(e, 2, i1, res, gain, v, PitchCode {
        absolute: false,
        lag: 0,
        contour: 0,
        periodicity: 0,
        filters: Seq::empty(),
        scaling: 0,
    })
}

/// What is coded for a voiced frame: one filter for all subframes, a flat contour.
pub open spec fn voiced_code(
    e: EncoderView,
    i1: int,
    res: Seq<int>,
    gain: int,
    v: Seq<i32>,
    lag: int,
    filter: int,
) -> FrameCode {
    frame_code(e, 4, i1, res, gain, v, PitchCode {
        absolute: sent_absolutely(e.params.bandwidth, lag, e.prev_lag),
        lag: sent_lag(e.params.bandwidth, lag, e.prev_lag),
        contour: 0,
        periodicity: 2,
        filters: Seq::new(e.subframes as nat, |k: int| limited(filter, 0, 31)),
        scaling: 0,
    })
}

/// What is coded for a frame: one gain for all subframes, no interpolation, seed zero.
pub open spec fn frame_code(
    e: EncoderView,
    frame_type: int,
    i1: int,
    res: Seq<int>,
    gain: int,
    v: Seq<i32>,
    pitch: PitchCode,
) -> FrameCode {
    FrameCode {
        frame_type,
        gain,
        deltas: Seq::new((e.subframes - 1) as nat, |k: int| 4int),
        i1,
        res: limited_residuals(res),
        interp: 4,
        pitch,
        seed: 0,
        rate: rate_for(sent_frame(signed_ints(v)).counts),
        x: sent_frame(signed_ints(v)),
        v,
    }
}

/// Writes the frame type of an active frame.
fn write_frame_type(enc: &mut RangeEncoder, voiced: bool)
    requires
        can_write(old(enc), 1),
    ensures
        has_written(
            old(enc),
            final(enc),
            frame_type_log(true, if voiced {
                4
            } else {
                2
            }),
        ),
{
    let icdf: &[u8] = frame_type_icdf(true);
    let sym: usize = if voiced {
        2
    } else {
        0
    };
    assert(codable(icdf@, sym as int));
    write_symbol(enc, sym, icdf);
}

/// Writes one gain for all subframes.
fn write_gains(enc: &mut RangeEncoder, signal_type: u8, gain_index: i32, n_subframes: usize)
    requires
        0 <= gain_index <= 63,
        1 <= n_subframes <= 4,
        can_write(old(enc), 5),
    ensures
        has_written(
            old(enc),
            final(enc),
            gains_log(
                signal_type as int,
                gain_index as int,
                Seq::new((n_subframes - 1) as nat, |k: int| 4int),
            ),
        ),
{
    let high: &[u8] = gain_high_icdf(signal_type);
    let msb: usize = (gain_index / 8) as usize;
    assert(codable(high@, msb as int));
    write_symbol(enc, msb, high);
    let low: &[u8] = gain_low_icdf();
    let lsb: usize = (gain_index % 8) as usize;
    assert(codable(low@, lsb as int));
    write_symbol(enc, lsb, low);
    let ghost model = gain_delta_model();
    let mut k: usize = 1;
    proof {
        assert(write_log(enc) =~= write_log(old(enc)) + gains_log(
            signal_type as int,
            gain_index as int,
            Seq::new(0, |k: int| 4int),
        ));
    }
    while k < n_subframes
        invariant
            1 <= k <= n_subframes <= 4,
            model == gain_delta_model(),
            can_write(old(enc), 5),
            has_written(
                old(enc),
                enc,
                gains_log(
                    signal_type as int,
                    gain_index as int,
                    Seq::new((k - 1) as nat, |k: int| 4int),
                ),
            ),
        decreases n_subframes - k,
    {
        let icdf: &[u8] = gain_delta_icdf();
        assert(codable(icdf@, 4));
        write_symbol(enc, 4, icdf);
        proof {
            let was = Seq::new((k - 1) as nat, |k: int| 4int);
            let now = Seq::new(k as nat, |k: int| 4int);
            assert(row_log(model, now) =~= row_log(model, was).push(symbol(model, 4)));
            assert(write_log(enc) =~= write_log(old(enc)) + gains_log(
                signal_type as int,
                gain_index as int,
                now,
            ));
        }
        k = k + 1;
    }
}

/// Writes NLSF indices without interpolation.
fn write_nlsf(
    enc: &mut RangeEncoder,
    is_wb: bool,
    voiced: bool,
    stage1_idx: usize,
    residuals: &[i32],
    is_20ms: bool,
)
    requires
        stage1_idx < 32,
        residuals@.len() == order_of(is_wb),
        can_write(old(enc), 34),
    ensures
        has_written(
            old(enc),
            final(enc),
            nlsf_log(
                is_wb,
                voiced,
                stage1_idx as int,
                limited_residuals(signed_ints(residuals@)),
                is_20ms,
                4,
            ),
        ),
        write_log(final(enc)).len() <= write_log(old(enc)).len() + 34,
{
    let icdf: &[u8] = stage1_icdf(is_wb, voiced);
    assert(codable(icdf@, stage1_idx as int));
    write_symbol(enc, stage1_idx, icdf);
    encode_nlsf_stage2(enc, stage1_idx, residuals, is_wb);
    if is_20ms {
        let icdf: &[u8] = interp_icdf();
        assert(codable(icdf@, 4));
        write_symbol(enc, 4, icdf);
    }
    assert(write_log(enc) =~= write_log(old(enc)) + nlsf_log(
        is_wb,
        voiced,
        stage1_idx as int,
        limited_residuals(signed_ints(residuals@)),
        is_20ms,
        4,
    ));
}

/// Writes the same filter for all subframes.
fn write_filters(enc: &mut RangeEncoder, filter_idx: usize, n_subframes: usize)
    requires
        n_subframes <= 4,
        can_write(old(enc), 4),
    ensures
        has_written(
            old(enc),
            final(enc),
            row_log(
                filter_model(2),
                Seq::new(n_subframes as nat, |k: int| limited(filter_idx as int, 0, 31)),
            ),
        ),
{
    let ghost model = filter_model(2);
    let ghost f = limited(filter_idx as int, 0, 31);
    let mut k: usize = 0;
    assert(write_log(enc) =~= write_log(old(enc)) + row_log(model, Seq::new(0, |k: int| f)));
    while k < n_subframes
        invariant
            k <= n_subframes <= 4,
            model == filter_model(2),
            f == limited(filter_idx as int, 0, 31),
            can_write(old(enc), 4),
            has_written(old(enc), enc, row_log(model, Seq::new(k as nat, |k: int| f))),
        decreases n_subframes - k,
    {
        encode_ltp_filter_index(enc, LTP_PERIODICITY_VOICED, filter_idx);
        proof {
            let was = Seq::new(k as nat, |k: int| f);
            let now = Seq::new((k + 1) as nat, |k: int| f);
            assert(row_log(model, now) =~= row_log(model, was).push(symbol(model, f)));
            assert(write_log(enc) =~= write_log(old(enc)) + row_log(model, now));
        }
        k = k + 1;
    }
    assert(Seq::new(n_subframes as nat, |k: int| f) =~= Seq::new(
        n_subframes as nat,
        |k: int| limited(filter_idx as int, 0, 31),
    ));
}

/// Writes the long-term prediction parameters of a voiced frame.
fn write_pitch(
    enc: &mut RangeEncoder,
    bw: OpusBandwidth,
    lag: i32,
    prev_lag: i32,
    filter_idx: usize,
    n_subframes: usize,
    Ghost(p): Ghost<PitchCode>,
)
    requires
        n_subframes <= 4,
        can_write(old(enc), 10),
        lag_in_range(bw, lag as int) - prev_lag <= i32::MAX,
        p.absolute == sent_absolutely(bw, lag as int, prev_lag as int),
        p.lag == sent_lag(bw, lag as int, prev_lag as int),
        p.contour == 0,
        p.periodicity == 2,
        p.filters == Seq::new(n_subframes as nat, |k: int| limited(filter_idx as int, 0, 31)),
        p.scaling == 0,
    ensures
        has_written(old(enc), final(enc), pitch_log(bw, prev_lag as int, p)),
        primary_lag_coded(bw, p.absolute, p.lag, prev_lag as int),
        write_log(final(enc)).len() <= write_log(old(enc)).len() + 10,
{
    encode_primary_pitch_lag(enc, bw, lag, prev_lag);
    encode_pitch_contour(enc, bw);
    encode_ltp_periodicity(enc, LTP_PERIODICITY_VOICED);
    write_filters(enc, filter_idx, n_subframes);
    encode_ltp_scaling(enc, LTP_SCALE_Q14_VOICED);
    assert(write_log(enc) =~= write_log(old(enc)) + pitch_log(bw, prev_lag as int, p));
}

/// Writes the seed and the excitation.
fn write_excitation(enc: &mut RangeEncoder, recon: &Vec<i32>, signal_type: u8)
    requires
        recon@.len() % 16 == 0,
        can_write(old(enc), 2 + BLOCK_SYMBOLS * (recon@.len() / 16)),
    ensures
        ({
            let x = sent_frame(signed_ints(recon@));
            has_written(
                old(enc),
                final(enc),
                seq![symbol(seed_model(), 0)] + excitation_log(
                    signal_type as int,
                    0,
                    rate_for(x.counts),
                    x,
                ),
            )
        }),
        write_log(final(enc)).len() <= write_log(old(enc)).len() + 2 + BLOCK_SYMBOLS * (recon@.len()
            / 16),
{
    let icdf: &[u8] = seed_icdf();
    assert(codable(icdf@, 0));
    write_symbol(enc, ENCODER_LCG_SEED as usize, icdf);
    encode_excitation(enc, recon.as_slice(), signal_type, 0);
    proof {
        let x = sent_frame(signed_ints(recon@));
        assert(write_log(enc) =~= write_log(old(enc)) + (seq![symbol(seed_model(), 0)]
            + excitation_log(signal_type as int, 0, rate_for(x.counts), x)));
    }
}

/// `signed_mags`, made a whole number of blocks and fitted to the excitation coder.
pub fn fit_excitation(signed_mags: &[i32]) -> (recon: Vec<i32>)
    requires
        signed_mags@.len() <= usize::MAX - 15,
    ensures
        signed_ints(recon@) == quantised(padded(signed_ints(signed_mags@))),
        recon@.len() == 16 * blocks_for(signed_mags@.len() as int),
{
    let len: usize = signed_mags.len();
    let mut v: Vec<i32> = Vec::new();
    let blocks: usize = (len + 15) / 16;
    let ghost m = signed_ints(signed_mags@);
    for i in 0..16 * blocks
        invariant
            len == signed_mags@.len(),
            v@.len() == i,
            forall|j: int|
                0 <= j < i ==> #[trigger] v@[j] == (if j < len {
                    signed_mags@[j] as int
                } else {
                    0
                }),
    {
        if i < len {
            v.push(signed_mags[i]);
        } else {
            v.push(0);
        }
    }
    assert(signed_ints(v@) =~= padded(m));
    let out: Vec<i32> = quantize_to_shell(v.as_slice());
    assert(signed_ints(out@).len() == padded(m).len());
    out
}

/// What is written for fitted samples has a symbol for every part, and holds those samples.
proof fn lemma_fitted_coded(v: Seq<i32>, u: Seq<int>, n: int)
    requires
        u.len() == 16 * n,
        n >= 0,
        signed_ints(v) == quantised(u),
    ensures
        ({
            let x = sent_frame(signed_ints(v));
            &&& x.coherent(n)
            &&& x.samples() == signed_ints(v)
            &&& 0 <= rate_for(x.counts) <= 8
        }),
{
    law_quantised_settles(u);
    assert(signed_ints(v).len() == u.len());
    law_sent_frame_coherent(signed_ints(v));
}

/// Appending piece by piece is appending all at once.
proof fn lemma_join(
    past: Seq<Coded>,
    a: Seq<Coded>,
    b: Seq<Coded>,
    c: Seq<Coded>,
    d: Seq<Coded>,
    e: Seq<Coded>,
    f: Seq<Coded>,
)
    ensures
        past + a + b + c + d + (e + f) == past + (a + b + c + d + e + f),
{
    assert(past + a + b + c + d + (e + f) =~= past + (a + b + c + d + e + f));
}

/// The code of a frame has a symbol for every part, and its symbols are those of its parts.
proof fn lemma_frame_written(
    e: EncoderView,
    voiced: bool,
    i1: int,
    res: Seq<int>,
    gain: int,
    v: Seq<i32>,
    u: Seq<int>,
    pitch: PitchCode,
    past: Seq<Coded>,
)
    requires
        e.subframes == 2 || e.subframes == 4,
        0 <= i1 < 32,
        0 <= gain <= 63,
        res.len() == order_of(e.params.bandwidth.wide()),
        u.len() == 16 * blocks_for(e.shape().samples()),
        blocks_for(e.shape().samples()) >= 0,
        signed_ints(v) == quantised(u),
        voiced ==> pitch.coded(e.shape()),
    ensures
        ({
            let signal_type: int = if voiced {
                2
            } else {
                1
            };
            let code = frame_code(e, 2 * signal_type, i1, res, gain, v, pitch);
            let told = if voiced {
                pitch_log(e.params.bandwidth, e.prev_lag, pitch)
            } else {
                Seq::empty()
            };
            &&& code.coded(e.shape())
            &&& past + frame_type_log(true, 2 * signal_type) + gains_log(
                signal_type,
                gain,
                code.deltas,
            ) + nlsf_log(
                e.params.bandwidth.wide(),
                voiced,
                i1,
                limited_residuals(res),
                e.subframes == 4,
                4,
            ) + told + (seq![symbol(seed_model(), 0)] + excitation_log(
                signal_type,
                0,
                code.rate,
                code.x,
            )) == past + code.log(e.shape())
        }),
{
    let signal_type: int = if voiced {
        2
    } else {
        1
    };
    let code = frame_code(e, 2 * signal_type, i1, res, gain, v, pitch);
    let told = if voiced {
        pitch_log(e.params.bandwidth, e.prev_lag, pitch)
    } else {
        Seq::empty()
    };
    lemma_fitted_coded(v, u, blocks_for(e.shape().samples()));
    assert(code.signal_type() == signal_type && code.offset_type() == 0);
    assert(in_residual_range(code.res));
    assert(code.coded(e.shape())) by {
        reveal(FrameCode::coded);
    }
    lemma_join(
        past,
        frame_type_log(true, 2 * signal_type),
        gains_log(signal_type, gain, code.deltas),
        nlsf_log(
            e.params.bandwidth.wide(),
            voiced,
            i1,
            limited_residuals(res),
            e.subframes == 4,
            4,
        ),
        told,
        seq![symbol(seed_model(), 0)],
        excitation_log(signal_type, 0, code.rate, code.x),
    );
    reveal(FrameCode::log);
}

impl SilkFrameEncoder {
    /// Frames have two or four subframes of 5 ms, and the filter order fits the bandwidth.
    #[verifier::type_invariant]
    spec fn wf(self) -> bool {
        &&& self.n_subframes == 2 || self.n_subframes == 4
        &&& self.params.consistent()
        &&& self.force_gain_index matches Some(g) ==> 0 <= g <= 63
        &&& self.prev_pitch_lag >= 0
    }

    /// What the writer goes by.
    pub closed spec fn view(&self) -> EncoderView {
        EncoderView {
            params: self.params,
            subframes: self.n_subframes as int,
            prev_lag: self.prev_pitch_lag as int,
            prev_stage1: self.prev_stage1_idx,
            prev_gain: self.prev_gain_idx,
            forced_stage1: self.force_stage1_idx,
            forced_unvoiced: self.force_unvoiced,
            forced_zero_stage2: self.force_zero_stage2,
            forced_gain: self.force_gain_index,
        }
    }

    /// A writer of 20 ms frames.
    pub fn new(params: BandwidthParams) -> (e: Self)
        requires
            params.consistent(),
        ensures
            e@ == EncoderView::fresh(params, 4),
    {
        SilkFrameEncoder::new_with_subframes(params, 4)
    }

    /// A writer of frames of two or four subframes.
    pub fn new_with_subframes(params: BandwidthParams, n_subframes: usize) -> (e: Self)
        requires
            params.consistent(),
            n_subframes == 2 || n_subframes == 4,
        ensures
            e@ == EncoderView::fresh(params, n_subframes as int),
    {
        SilkFrameEncoder {
            params,
            n_subframes,
            prev_pitch_lag: 0,
            prev_stage1_idx: None,
            force_stage1_idx: None,
            force_unvoiced: false,
            force_zero_stage2: false,
            force_gain_index: None,
            prev_gain_idx: None,
        }
    }

    /// Makes every frame use NLSF stage-1 index `idx`.
    pub fn set_force_stage1_idx(&mut self, idx: Option<usize>)
        ensures
            final(self)@ == (EncoderView { forced_stage1: idx, ..old(self)@ }),
    {
        proof {
            use_type_invariant(&*self);
        }
        self.force_stage1_idx = idx;
    }

    /// Makes every frame unvoiced.
    pub fn set_force_unvoiced(&mut self, f: bool)
        ensures
            final(self)@ == (EncoderView { forced_unvoiced: f, ..old(self)@ }),
    {
        proof {
            use_type_invariant(&*self);
        }
        self.force_unvoiced = f;
    }

    /// Makes every frame leave out the NLSF residuals.
    pub fn set_force_zero_stage2(&mut self, f: bool)
        ensures
            final(self)@ == (EncoderView { forced_zero_stage2: f, ..old(self)@ }),
    {
        proof {
            use_type_invariant(&*self);
        }
        self.force_zero_stage2 = f;
    }

    /// Makes every frame use gain index `idx`, kept within 0 and 63.
    pub fn set_force_gain_index(&mut self, idx: Option<i32>)
        ensures
            match idx {
                Some(i) => final(self)@ == (EncoderView {
                    forced_gain: Some(limited(i as int, 0, 63) as i32),
                    ..old(self)@
                }),
                None => final(self)@ == (EncoderView { forced_gain: None, ..old(self)@ }),
            },
    {
        proof {
            use_type_invariant(&*self);
        }
        self.force_gain_index = match idx {
            Some(i) => Some(clamp_i32(i, 0, 63)),
            None => None,
        };
    }

    /// A writer of 20 ms narrow-band frames.
    pub fn new_nb_20ms() -> (e: Self)
        ensures
            e@ == EncoderView::fresh(e@.params, 4),
            e@.params.consistent(),
            e@.params.bandwidth == OpusBandwidth::Narrowband,
    {
        SilkFrameEncoder::new(BandwidthParams::nb())
    }

    /// A writer of 20 ms medium-band frames.
    pub fn new_mb_20ms() -> (e: Self)
        ensures
            e@ == EncoderView::fresh(e@.params, 4),
            e@.params.consistent(),
            e@.params.bandwidth == OpusBandwidth::Mediumband,
    {
        SilkFrameEncoder::new(BandwidthParams::mb())
    }

    /// A writer of 20 ms wide-band frames.
    pub fn new_wb_20ms() -> (e: Self)
        ensures
            e@ == EncoderView::fresh(e@.params, 4),
            e@.params.consistent(),
            e@.params.bandwidth == OpusBandwidth::Wideband,
    {
        SilkFrameEncoder::new(BandwidthParams::wb())
    }

    /// A writer of 10 ms narrow-band frames.
    pub fn new_nb_10ms() -> (e: Self)
        ensures
            e@ == EncoderView::fresh(e@.params, 2),
            e@.params.consistent(),
            e@.params.bandwidth == OpusBandwidth::Narrowband,
    {
        SilkFrameEncoder::new_with_subframes(BandwidthParams::nb(), 2)
    }

    /// A writer of 10 ms medium-band frames.
    pub fn new_mb_10ms() -> (e: Self)
        ensures
            e@ == EncoderView::fresh(e@.params, 2),
            e@.params.consistent(),
            e@.params.bandwidth == OpusBandwidth::Mediumband,
    {
        SilkFrameEncoder::new_with_subframes(BandwidthParams::mb(), 2)
    }

    /// A writer of 10 ms wide-band frames.
    pub fn new_wb_10ms() -> (e: Self)
        ensures
            e@ == EncoderView::fresh(e@.params, 2),
            e@.params.consistent(),
            e@.params.bandwidth == OpusBandwidth::Wideband,
    {
        SilkFrameEncoder::new_with_subframes(BandwidthParams::wb(), 2)
    }

    /// Samples per frame at the internal rate.
    pub fn frame_len(&self) -> (n: usize)
        ensures
            n == self@.samples(),
    {
        proof {
            use_type_invariant(self);
        }
        self.params.subframe_len * self.n_subframes
    }

    /// Internal sampling rate.
    pub fn internal_rate_hz(&self) -> (r: u32)
        ensures
            r == internal_rate(self@.params.bandwidth),
    {
        internal_rate_hz(self.params.bandwidth)
    }

    /// Order of the prediction filter.
    pub fn lpc_order(&self) -> (n: usize)
        ensures
            n == self@.params.lpc_order,
            n == order_of(self@.params.bandwidth.wide()),
    {
        proof {
            use_type_invariant(self);
        }
        self.params.lpc_order
    }

    /// Samples per subframe at the internal rate.
    pub fn subframe_len(&self) -> (n: usize)
        ensures
            n == self@.params.subframe_len,
            200 * n == internal_rate(self@.params.bandwidth),
    {
        proof {
            use_type_invariant(self);
        }
        self.params.subframe_len
    }

    /// Subframes per frame.
    pub fn n_subframes(&self) -> (n: usize)
        ensures
            n == self@.subframes,
            n == 2 || n == 4,
    {
        proof {
            use_type_invariant(self);
        }
        self.n_subframes
    }

    /// Bandwidth.
    pub fn bandwidth(&self) -> (bw: OpusBandwidth)
        ensures
            bw == self@.params.bandwidth,
    {
        self.params.bandwidth
    }

    /// Stage-1 index of the last frame.
    pub fn prev_stage1_idx(&self) -> (idx: Option<usize>)
        ensures
            idx == self@.prev_stage1,
    {
        self.prev_stage1_idx
    }

    /// Whether every frame is to be unvoiced.
    pub fn forces_unvoiced(&self) -> (f: bool)
        ensures
            f == self@.forced_unvoiced,
    {
        self.force_unvoiced
    }

    /// Whether NLSF residuals are to be left out.
    pub fn forces_zero_stage2(&self) -> (f: bool)
        ensures
            f == self@.forced_zero_stage2,
    {
        self.force_zero_stage2
    }

    /// The stage-1 index that every frame is to use.
    pub fn forced_stage1_idx(&self) -> (idx: Option<usize>)
        ensures
            idx == self@.forced_stage1,
    {
        self.force_stage1_idx
    }

    /// The gain index that every frame is to use.
    pub fn forced_gain_index(&self) -> (idx: Option<i32>)
        ensures
            idx == self@.forced_gain,
    {
        self.force_gain_index
    }

    /// Forgets what was written. What the writer was told to do stays.
    pub fn reset(&mut self)
        ensures
            final(self)@ == old(self)@.forgetful(),
    {
        proof {
            use_type_invariant(&*self);
        }
        self.prev_pitch_lag = 0;
        self.prev_stage1_idx = None;
        self.prev_gain_idx = None;
    }

    /// Whether a frame is coded as voiced, where its pitch was found or not.
    pub fn codes_voiced(&self, pitch_found: bool) -> (v: bool)
        ensures
            v == (pitch_found && !self@.forced_unvoiced),
    {
        pitch_found && !self.force_unvoiced
    }

    /// Settles the stage-1 index of a frame: the one that every frame is to use, or else the one
    /// that the search picked.
    pub fn choose_stage1(&mut self, picked: usize) -> (idx: usize)
        ensures
            idx == (match old(self)@.forced_stage1 {
                Some(i) => i,
                None => picked,
            }),
            final(self)@ == (EncoderView { prev_stage1: Some(idx), ..old(self)@ }),
    {
        proof {
            use_type_invariant(&*self);
        }
        let idx: usize = match self.force_stage1_idx {
            Some(i) => i,
            None => picked,
        };
        self.prev_stage1_idx = Some(idx);
        idx
    }

    /// Settles the gain index of a frame: the one that every frame is to use, or else the one
    /// that the level asks for, held against small falls.
    pub fn choose_gain(&mut self, raw: i32) -> (idx: i32)
        ensures
            idx == (match old(self)@.forced_gain {
                Some(i) => i as int,
                None => steadied_gain(raw as int, old(self)@.prev_gain),
            }),
            final(self)@ == (EncoderView { prev_gain: Some(idx), ..old(self)@ }),
    {
        proof {
            use_type_invariant(&*self);
        }
        let idx: i32 = match self.force_gain_index {
            Some(i) => i,
            None => apply_gain_hysteresis(raw, self.prev_gain_idx),
        };
        self.prev_gain_idx = Some(idx);
        idx
    }

    /// Writes a frame without voicing and gives the samples as the decoder will have them.
    pub fn encode_frame_body_unvoiced(
        &mut self,
        enc: &mut RangeEncoder,
        stage1_idx: usize,
        residuals: &[i32],
        gain_index: i32,
        signed_mags: &[i32],
    ) -> (recon: Vec<i32>)
        requires
            stage1_idx < 32,
            residuals@.len() == order_of(old(self)@.params.bandwidth.wide()),
            0 <= gain_index <= 63,
            signed_mags@.len() == old(self)@.samples(),
            can_write(old(enc), old(self)@.shape().symbols()),
        ensures
            signed_ints(recon@) == quantised(padded(signed_ints(signed_mags@))),
            ({
                let code = unvoiced_code(
                    old(self)@,
                    stage1_idx as int,
                    signed_ints(residuals@),
                    gain_index as int,
                    recon@,
                );
                &&& code.coded(old(self)@.shape())
                &&& has_written(old(enc), final(enc), code.log(old(self)@.shape()))
            }),
            write_log(final(enc)).len() <= write_log(old(enc)).len() + old(self)@.shape().symbols(),
            final(self)@ == (EncoderView { prev_lag: 0, ..old(self)@ }),
    {
        proof {
            use_type_invariant(&*self);
        }
        let is_wb: bool = self.params.lpc_order == 16;
        let is_20ms: bool = self.n_subframes == 4;
        let ghost shape = self@.shape();
        proof {
            lemma_frame_room(shape);
        }
        let recon: Vec<i32> = fit_excitation(signed_mags);
        let ghost code = unvoiced_code(
            self@,
            stage1_idx as int,
            signed_ints(residuals@),
            gain_index as int,
            recon@,
        );
        write_frame_type(enc, false);
        write_gains(enc, 1, gain_index, self.n_subframes);
        write_nlsf(enc, is_wb, false, stage1_idx, residuals, is_20ms);
        write_excitation(enc, &recon, 1);
        assert(write_log(enc).len() <= write_log(old(enc)).len() + shape.symbols());
        proof {
            let upto = write_log(old(enc)) + frame_type_log(true, 2) + gains_log(
                1,
                gain_index as int,
                code.deltas,
            ) + nlsf_log(
                is_wb,
                false,
                stage1_idx as int,
                limited_residuals(signed_ints(residuals@)),
                is_20ms,
                4,
            );
            assert(upto + Seq::<Coded>::empty() =~= upto);
            lemma_frame_written(
                self@,
                false,
                stage1_idx as int,
                signed_ints(residuals@),
                gain_index as int,
                recon@,
                padded(signed_ints(signed_mags@)),
                code.pitch,
                write_log(old(enc)),
            );
        }
        self.prev_pitch_lag = 0;
        recon
    }

    /// Writes a voiced frame and gives the samples as the decoder will have them. The lag that is
    /// remembered is the one that the decoder will have, which is not `lag` where that cannot be
    /// sent.
    pub fn encode_frame_body_voiced(
        &mut self,
        enc: &mut RangeEncoder,
        stage1_idx: usize,
        residuals: &[i32],
        gain_index: i32,
        lag: i32,
        filter_idx: usize,
        signed_mags: &[i32],
    ) -> (recon: Vec<i32>)
        requires
            stage1_idx < 32,
            residuals@.len() == order_of(old(self)@.params.bandwidth.wide()),
            0 <= gain_index <= 63,
            signed_mags@.len() == old(self)@.samples(),
            can_write(old(enc), old(self)@.shape().symbols()),
        ensures
            signed_ints(recon@) == quantised(padded(signed_ints(signed_mags@))),
            ({
                let code = voiced_code(
                    old(self)@,
                    stage1_idx as int,
                    signed_ints(residuals@),
                    gain_index as int,
                    recon@,
                    lag as int,
                    filter_idx as int,
                );
                &&& code.coded(old(self)@.shape())
                &&& has_written(old(enc), final(enc), code.log(old(self)@.shape()))
            }),
            write_log(final(enc)).len() <= write_log(old(enc)).len() + old(self)@.shape().symbols(),
            final(self)@ == (EncoderView {
                prev_lag: sent_lag(
                    old(self)@.params.bandwidth,
                    lag as int,
                    old(self)@.prev_lag,
                ),
                ..old(self)@
            }),
    {
        proof {
            use_type_invariant(&*self);
        }
        let is_wb: bool = self.params.lpc_order == 16;
        let is_20ms: bool = self.n_subframes == 4;
        let ghost shape = self@.shape();
        proof {
            lemma_frame_room(shape);
        }
        let recon: Vec<i32> = fit_excitation(signed_mags);
        let ghost code = voiced_code(
            self@,
            stage1_idx as int,
            signed_ints(residuals@),
            gain_index as int,
            recon@,
            lag as int,
            filter_idx as int,
        );
        write_frame_type(enc, true);
        write_gains(enc, 2, gain_index, self.n_subframes);
        write_nlsf(enc, is_wb, true, stage1_idx, residuals, is_20ms);
        write_pitch(
            enc,
            self.params.bandwidth,
            lag,
            self.prev_pitch_lag,
            filter_idx,
            self.n_subframes,
            Ghost(code.pitch),
        );
        write_excitation(enc, &recon, 2);
        assert(write_log(enc).len() <= write_log(old(enc)).len() + shape.symbols());
        proof {
            assert(code.pitch.coded(shape));
            lemma_frame_written(
                self@,
                true,
                stage1_idx as int,
                signed_ints(residuals@),
                gain_index as int,
                recon@,
                padded(signed_ints(signed_mags@)),
                code.pitch,
                write_log(old(enc)),
            );
        }
        self.prev_pitch_lag = primary_lag_written(self.params.bandwidth, lag, self.prev_pitch_lag);
        recon
    }
}

} // verus!
