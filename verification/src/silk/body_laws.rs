//! What the parameters of frames and packets come to.
use vstd::prelude::*;

use crate::silk::decoder::{channel_count, internal_rate, packet_layout, BlockBody, SilkDecoder};
use crate::silk::dither::{quant_offset, reconstructed};
use crate::silk::frame::{shape_after, FrameBody};
use crate::silk::frame_code::{
    law_early_nlsfs, law_frame_types, law_gain_index_after_change, law_log_gain_range,
    law_long_term_prediction, no_memory, ChannelMemory, FrameCode, FrameShape,
};
use crate::silk::gain::gain_q16;
use crate::silk::lsf::decoded_nlsfs;
use crate::silk::ltp::{filter_taps, longest_lag, shortest_lag};
use crate::silk::packet_code::{all_bits, has_bit, HeaderCode, PacketCode, PacketShape};
use crate::silk::shell::signed_ints;
use crate::silk::stabilize::short_ints;
use crate::toc::OpusBandwidth;

verus! {

/// Twice the signal type and one for the larger offset make up the frame type. The first gain is
/// the one that was sent, and one after no change is the one before.
pub proof fn law_body_type_and_gains(
    body: FrameBody,
    code: FrameCode,
    shape: FrameShape,
    was: ChannelMemory,
    k: int,
)
    requires
        body.stands_for(code, shape, was),
        0 <= code.frame_type <= 5,
        0 <= k < shape.subframes,
    ensures
        code.frame_type == 2 * body.signal_type + body.quant_offset_type,
        body.quant_offset_type <= 1,
        body.gains_q16@.len() == shape.subframes,
        k == 0 ==> body.gains_q16@[k] == gain_q16(code.gain),
        k > 0 && code.deltas[k - 1] == 4 && 0 <= code.gain <= 63 ==> body.gains_q16@[k]
            == body.gains_q16@[k - 1],
{
    law_frame_types(code);
    assert(body.gains_q16@[k] == gain_q16(code.log_gain(k)));
    if k > 0 {
        assert(body.gains_q16@[k - 1] == gain_q16(code.log_gain(k - 1)));
        law_gain_index_after_change(code.gain, code.deltas, k);
        if 0 <= code.gain <= 63 {
            law_log_gain_range(code.gain, code.deltas, k - 1);
        }
    }
}

/// The NLSFs of a frame are those that its indices decode to, and those of its first half lie as
/// many quarters of the way from the frame before as was sent.
pub proof fn law_body_nlsfs(
    body: FrameBody,
    code: FrameCode,
    shape: FrameShape,
    was: ChannelMemory,
    k: int,
)
    requires
        body.stands_for(code, shape, was),
        0 <= code.interp <= 4,
        0 <= k < body.nlsf_q15@.len(),
        forall|j: int|
            0 <= j < body.nlsf_q15@.len() ==> 0 <= #[trigger] body.nlsf_q15@[j] <= 32767,
        forall|j: int| 0 <= j < was.nlsfs.len() ==> 0 <= #[trigger] was.nlsfs[j] <= 32767,
    ensures
        body.nlsf_q15@.len() == decoded_nlsfs(shape.bw.wide(), code.i1, code.res).len(),
        body.nlsf_q15@[k] == decoded_nlsfs(shape.bw.wide(), code.i1, code.res)[k],
        body.early_nlsf_q15@.len() == body.nlsf_q15@.len(),
        was.first || shape.subframes != 4 || was.nlsfs.len() != body.nlsf_q15@.len() || code.interp
            == 4 ==> body.early_nlsf_q15@[k] == body.nlsf_q15@[k],
        !was.first && shape.subframes == 4 && was.nlsfs.len() == body.nlsf_q15@.len() ==> 0
            <= code.interp * (body.nlsf_q15@[k] - was.nlsfs[k]) - 4 * (body.early_nlsf_q15@[k]
            - was.nlsfs[k]) < 4,
        was.first ==> body.interp_coef == 4,
        !was.first && was.nlsfs.len() > 0 ==> body.interp_coef == code.interp,
{
    let own = short_ints(body.nlsf_q15@);
    assert(own == code.nlsfs(shape));
    assert forall|j: int| 0 <= j < own.len() implies 0 <= #[trigger] own[j] <= 32767 by {
        assert(0 <= body.nlsf_q15@[j] <= 32767);
    }
    law_early_nlsfs(was.first, was.nlsfs, own, shape.is_20ms(), code.interp, k);
    let early = short_ints(body.early_nlsf_q15@);
    assert(early[k] == body.early_nlsf_q15@[k]);
    assert(own[k] == body.nlsf_q15@[k]);
}

/// Long-term prediction is the same lag in every subframe; frames that are not voiced have no lag,
/// no taps and a scale of 0.95.
pub proof fn law_body_prediction(
    body: FrameBody,
    code: FrameCode,
    shape: FrameShape,
    was: ChannelMemory,
    k: int,
)
    requires
        body.stands_for(code, shape, was),
        0 <= code.frame_type <= 5,
        0 <= k < shape.subframes,
    ensures
        body.pitch_lags@.len() == body.ltp_taps_q7@.len() == shape.subframes,
        body.pitch_lags@[k] == body.pitch_lags@[0],
        body.signal_type != 2 ==> body.pitch_lags@[k] == 0 && body.ltp_taps_q7@[k]@ == seq![
            0i8,
            0i8,
            0i8,
            0i8,
            0i8,
        ] && body.ltp_scale_q14 == 15565,
        body.signal_type == 2 ==> {
            let lag = body.pitch_lags@[k];
            let (least, most) = if shape.bw is Narrowband {
                (16int, 144int)
            } else if shape.bw is Mediumband {
                (24int, 216int)
            } else {
                (32int, 288int)
            };
            &&& least <= lag <= most
            &&& least <= code.pitch.lag <= most ==> lag == code.pitch.lag
            &&& code.pitch.scaling == 0 ==> body.ltp_scale_q14 == 15565
            &&& code.pitch.scaling == 1 ==> body.ltp_scale_q14 == 12288
            &&& code.pitch.scaling == 2 ==> body.ltp_scale_q14 == 8192
            &&& body.ltp_taps_q7@[k]@ == filter_taps(code.pitch.filters[k], code.pitch.periodicity)
        },
{
    law_long_term_prediction(code, shape, k);
    law_frame_types(code);
    assert(body.pitch_lags@[k] == code.subframe_lag(shape));
    assert(body.pitch_lags@[0] == code.subframe_lag(shape));
    assert(body.ltp_taps_q7@[k]@ == code.taps(k));
}

/// The excitation is as long as the frame, made of the frame's samples with the offset of its type
/// and from the seed that was sent.
pub proof fn law_body_excitation(
    body: FrameBody,
    code: FrameCode,
    shape: FrameShape,
    was: ChannelMemory,
    i: int,
)
    requires
        body.stands_for(code, shape, was),
        0 <= i < shape.subframe_len * shape.subframes <= code.v.len(),
    ensures
        body.excitation_q23@.len() == shape.subframe_len * shape.subframes,
        body.excitation_q23@[i] == reconstructed(
            code.v,
            quant_offset(body.signal_type as int, body.quant_offset_type as int),
            code.seed as u32,
        )[i],
{
    let e = signed_ints(body.excitation_q23@);
    assert(e == code.excitation(shape));
    assert(e[i] == body.excitation_q23@[i]);
}

/// How a block stands: weights only in two channels, the side channel only where it is coded, and
/// anew where it was left out before.
pub proof fn law_body_of_block(body: BlockBody, code: PacketCode, shape: PacketShape, i: int)
    requires
        body.stands_for(code, shape, i),
        code.block_coded(shape, i),
        shape.channels == 1 || shape.channels == 2,
    ensures
        shape.channels == 1 ==> body.pred_q13@[0] == 0 && body.pred_q13@[1] == 0
            && body.side is None && !body.decode_only_mid && !body.reset_side,
        shape.channels == 2 ==> body.pred_q13@[0] == code.blocks[i].weights.weights().0
            && body.pred_q13@[1] == code.blocks[i].weights.weights().1,
        shape.channels == 2 ==> (body.side is Some) == !body.decode_only_mid,
        body.decode_only_mid ==> !code.header.active[1][i] && !body.reset_side,
        body.reset_side ==> body.side is Some,
        body.side is Some && i > 0 ==> body.reset_side == code.blocks[i - 1].only_mid,
        body.side is Some && i == 0 ==> body.reset_side == shape.was_only_mid,
{
}

/// What the mid channel remembers through a packet: each block goes by what the block before it
/// left.
pub proof fn law_mid_memory(code: PacketCode, shape: PacketShape, i: int)
    requires
        i >= 0,
    ensures
        code.mid_memory(shape, 0) == shape.mid,
        ({
            let was = code.mid_memory(shape, i);
            let now = code.mid_memory(shape, i + 1);
            let mid = code.blocks[i].mid;
            &&& now.lag == (if mid.voiced() {
                mid.pitch.lag
            } else {
                was.lag
            })
            &&& now.nlsfs == decoded_nlsfs(shape.bw.wide(), mid.i1, mid.res)
            &&& now.gain == was.gain
            &&& !now.first
            &&& code.mid_shape(shape, i).prev_lag == was.lag
            &&& code.mid_shape(shape, i).active == code.header.active[0][i]
        }),
{
}

/// What the side channel remembers through a packet: a block that leaves it out changes nothing,
/// and after such a block it begins from nothing.
pub proof fn law_side_memory(code: PacketCode, shape: PacketShape, i: int)
    requires
        i >= 0,
    ensures
        code.side_memory(shape, 0) == shape.side,
        ({
            let was = code.side_memory(shape, i);
            let now = code.side_memory(shape, i + 1);
            let side = code.blocks[i].side;
            let start = code.side_start(shape, i);
            let left_out = shape.channels != 2 || code.blocks[i].only_mid;
            let left_out_before = if i == 0 {
                shape.was_only_mid
            } else {
                code.blocks[i - 1].only_mid
            };
            &&& left_out ==> now == was
            &&& !left_out && !left_out_before ==> start == was
            &&& !left_out && left_out_before ==> start.first && start.lag == 0
                && start.nlsfs.len() == 0
            &&& !left_out ==> now.nlsfs == decoded_nlsfs(shape.bw.wide(), side.i1, side.res)
                && !now.first && now.lag == (if side.voiced() {
                side.pitch.lag
            } else {
                start.lag
            })
            &&& code.side_shape(shape, i).prev_lag == start.lag
            &&& code.side_shape(shape, i).active == code.header.active[1][i]
        }),
{
}

/// Redundant copies go by the copies before them alone, the first by nothing. A frame without a
/// copy changes nothing.
pub proof fn law_copy_memory(code: PacketCode, shape: PacketShape, n: int, i: int)
    requires
        i >= 0,
    ensures
        code.copy_memory(shape, n, 0) == no_memory(),
        ({
            let was = code.copy_memory(shape, n, i);
            let now = code.copy_memory(shape, n, i + 1);
            let copy = code.copies[i * shape.channels + n];
            &&& !has_bit(code.header.redundant[n], i) ==> now == was
            &&& has_bit(code.header.redundant[n], i) ==> !now.first && now.nlsfs == decoded_nlsfs(
                shape.bw.wide(),
                copy.i1,
                copy.res,
            ) && now.lag == (if copy.voiced() {
                copy.pitch.lag
            } else {
                was.lag
            })
            &&& code.copy_shape(shape, n, i).active
            &&& code.copy_shape(shape, n, i).prev_lag == was.lag
        }),
{
}

/// Nothing remembered: no lag, no NLSFs, no frame.
pub proof fn law_no_memory()
    ensures
        no_memory().first,
        no_memory().lag == 0,
        no_memory().gain == 0,
        no_memory().nlsfs.len() == 0,
{
}

/// How a frame is coded goes by the stream and the lag that the channel remembers.
pub proof fn law_frame_shape(
    was: ChannelMemory,
    active: bool,
    bw: OpusBandwidth,
    subframes: int,
    subframe_len: int,
)
    ensures
        ({
            let shape = shape_after(was, active, bw, subframes, subframe_len);
            &&& shape.active == active
            &&& shape.bw == bw
            &&& shape.subframes == subframes
            &&& shape.subframe_len == subframe_len
            &&& shape.prev_lag == was.lag
            &&& shape.samples() == subframes * subframe_len
            &&& shape.is_20ms() <==> subframes == 4
        }),
{
    assert(subframes * subframe_len == subframe_len * subframes) by (nonlinear_arith);
}

/// Packets last 10, 20, 40 or 60 ms. Their frames have subframes of 5 ms each, four but in the
/// shortest packet.
pub proof fn law_packet_layouts(samples: int)
    ensures
        packet_layout(samples) is Some <==> samples == 480 || samples == 960 || samples == 1920
            || samples == 2880,
        packet_layout(samples) matches Some((frames, subframes)) ==> {
            &&& frames * subframes * 240 == samples
            &&& subframes == (if samples == 480 {
                2int
            } else {
                4
            })
        },
{
    if let Some((f, s)) = packet_layout(samples) {
        assert(f * s * 240 == samples) by (nonlinear_arith)
            requires
                (f == 1 && s == 2 && samples == 480) || (f == 1 && s == 4 && samples == 960) || (f
                    == 2 && s == 4 && samples == 1920) || (f == 3 && s == 4 && samples == 2880),
        ;
    }
}

/// The internal rate is 500 times the shortest pitch lag, 2 ms, and 8, 12 or 16 kHz.
pub proof fn law_internal_rates(bw: OpusBandwidth)
    ensures
        internal_rate(bw) == 500 * shortest_lag(bw),
        9 * internal_rate(bw) == 500 * longest_lag(bw),
        bw is Narrowband ==> internal_rate(bw) == 8000,
        bw is Mediumband ==> internal_rate(bw) == 12000,
        !(bw is Narrowband) && !(bw is Mediumband) ==> internal_rate(bw) == 16000,
{
}

/// A set of up to three is full where every member is in it, and no set is larger.
pub proof fn law_largest_set(frames: int, i: int)
    requires
        1 <= frames <= 3,
        0 <= i < frames,
    ensures
        has_bit(all_bits(frames), i),
        frames == 1 ==> all_bits(frames) == 1,
        frames > 1 ==> all_bits(frames) == 2 * all_bits(frames - 1) + 1,
{
}

/// A set is the sum of its members, each a power of two.
pub proof fn law_members_of_set(bits: int)
    requires
        0 <= bits <= 7,
    ensures
        bits == (if has_bit(bits, 0) {
            1int
        } else {
            0
        }) + (if has_bit(bits, 1) {
            2int
        } else {
            0
        }) + (if has_bit(bits, 2) {
            4int
        } else {
            0
        }),
{
}

/// Without redundant copies, no frame of any channel has one.
pub proof fn law_plain_head(header: HeaderCode, channels: int, frames: int, n: int, i: int)
    requires
        header.coded(channels, frames),
        1 <= frames <= 3,
        0 <= n < channels,
        0 <= i < frames,
        header.plain(),
    ensures
        !has_bit(header.redundant[n], i),
{
    assert(header.redundant[n] == 0);
}

/// Two channels in stereo, one otherwise. The next packet goes by what the channels remember.
pub proof fn law_next_packet_shape(d: SilkDecoder, stereo: bool, frames: int, subframes: int)
    ensures
        channel_count(stereo) == (if stereo {
            2int
        } else {
            1
        }),
        ({
            let shape = d.packet_shape(channel_count(stereo), frames, subframes);
            &&& shape.channels == channel_count(stereo)
            &&& shape.frames == frames && shape.subframes == subframes
            &&& shape.bw == d.bandwidth && shape.subframe_len == d.subframe_len
            &&& shape.mid.lag == d.state.prev_pitch_lag
            &&& shape.mid.first == d.state.first_frame
            &&& shape.mid.gain == d.state.prev_gain_q16
            &&& shape.mid.nlsfs.len() == d.state.prev_nlsf_q15@.len()
            &&& shape.side.lag == d.side_state.prev_pitch_lag
            &&& shape.side.first == d.side_state.first_frame
            &&& shape.side.nlsfs.len() == d.side_state.prev_nlsf_q15@.len()
            &&& shape.was_only_mid == d.stereo_state.prev_decode_only_mid
        }),
{
}

/// Reading a packet leaves a reader's stream and what unmixing remembers of samples and weights as
/// they were; the channels remember what the packet's last frames left.
pub proof fn law_reader_after_packet(
    now: SilkDecoder,
    was: SilkDecoder,
    shape: PacketShape,
    code: PacketCode,
)
    requires
        now.after_packet(was, shape, code),
        shape.frames >= 1,
    ensures
        now.bandwidth == was.bandwidth,
        now.lpc_order == was.lpc_order,
        now.subframe_len == was.subframe_len,
        now.frame_len == was.frame_len,
        now.stereo_state.pred_prev_q13 == was.stereo_state.pred_prev_q13,
        now.stereo_state.s_mid == was.stereo_state.s_mid,
        now.stereo_state.s_side == was.stereo_state.s_side,
        now.stereo_state.prev_decode_only_mid == code.blocks[shape.frames - 1].only_mid,
        now.state.prev_pitch_lag == code.mid_memory(shape, shape.frames).lag,
        now.state.first_frame == code.mid_memory(shape, shape.frames).first,
        short_ints(now.state.prev_nlsf_q15@) == code.mid_memory(shape, shape.frames).nlsfs,
        now.side_state.prev_pitch_lag == code.side_memory(shape, shape.frames).lag,
        now.side_state.first_frame == code.side_memory(shape, shape.frames).first,
        short_ints(now.side_state.prev_nlsf_q15@) == code.side_memory(shape, shape.frames).nlsfs,
{
}

/// Which frames have symbols: active ones from type 2 to 5, inactive ones of types 0 and 1; gain
/// indices below 64, changes up to 40; a factor other than 4 in 20 ms frames only.
pub proof fn law_coded_frames(code: FrameCode, shape: FrameShape, k: int)
    requires
        code.coded(shape),
        0 <= k < shape.subframes - 1,
    ensures
        shape.active <==> code.frame_type >= 2,
        0 <= code.frame_type <= 5,
        0 <= code.gain < 64,
        code.deltas.len() == shape.subframes - 1,
        0 <= code.deltas[k] <= 40,
        0 <= code.i1 < 32,
        0 <= code.interp <= 4,
        shape.subframes != 4 ==> code.interp == 4,
        0 <= code.seed < 4,
        code.frame_type >= 4 ==> code.pitch.filters.len() == shape.subframes && 0
            <= code.pitch.contour < 11 && 0 <= code.pitch.scaling < 3 && 0 <= code.pitch.periodicity
            < 3,
        code.x.samples() == signed_ints(code.v),
{
    reveal(FrameCode::coded);
}

} // verus!
