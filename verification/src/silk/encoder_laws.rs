//! What holds of frames from writer to reader.
use oxideav_celt::range_decoder::RangeDecoder;
use vstd::prelude::*;

use crate::range_coder::{carries, read_log, source_bytes, Coded};
use crate::silk::encoder::{
    frame_code, level_gain, padded, steadied_gain, unvoiced_code, voiced_code, BandwidthParams,
    EncoderView,
};
use crate::silk::frame::{read_frame, FrameBody};
use crate::silk::frame_code::{log_gain_after, ChannelMemory, FrameCode, FrameShape, PitchCode};
use crate::silk::frame_laws::{law_frame_reads_back, same_frame};
use crate::silk::gain::gain_q16;
use crate::silk::ltp::{longest_lag, primary_lag_log, sent_lag, shortest_lag, small_change};

verus! {

/// The frame round trip: where the bytes that a decoder was started on carry, after what it had
/// read, a frame `sent`, the frame that the decoder reads next is `sent`.
pub proof fn law_frame_round_trip(
    before: &RangeDecoder<'_>,
    after: &RangeDecoder<'_>,
    shape: FrameShape,
    sent: FrameCode,
    tail: Seq<Coded>,
    got: FrameCode,
)
    requires
        sent.coded(shape),
        carries(source_bytes(before), read_log(before) + sent.log(shape) + tail),
        read_frame(before, after, shape, got),
    ensures
        same_frame(sent, got),
        got.excitation(shape) == sent.excitation(shape),
        got.nlsfs(shape) == sent.nlsfs(shape),
{
    let none = Seq::<Coded>::empty();
    assert(read_log(after) =~= read_log(before) + got.log(shape) + none);
    law_frame_reads_back(source_bytes(before), read_log(before), shape, sent, tail, got, none);
}

/// A gain sent once holds for all subframes.
pub proof fn law_flat_gain(gain: int, n: nat, k: int)
    requires
        0 <= gain <= 63,
        0 <= k <= n,
    ensures
        log_gain_after(gain, Seq::new(n, |i: int| 4int), k) == gain,
    decreases k,
{
    if k > 0 {
        law_flat_gain(gain, n, k - 1);
    }
}

/// What a frame writer sends comes out of the frame reader: where the bytes that a decoder was
/// started on carry, after what it had read, a frame of the writer `e`, the parameters read next
/// are those of that frame. All subframes have the gain that was sent.
pub proof fn law_written_frame_comes_out(
    before: &RangeDecoder<'_>,
    after: &RangeDecoder<'_>,
    e: EncoderView,
    frame_type: int,
    i1: int,
    res: Seq<int>,
    gain: int,
    v: Seq<i32>,
    pitch: PitchCode,
    tail: Seq<Coded>,
    got: FrameCode,
    was: ChannelMemory,
    body: FrameBody,
)
    requires
        frame_code(e, frame_type, i1, res, gain, v, pitch).coded(e.shape()),
        carries(
            source_bytes(before),
            read_log(before) + frame_code(e, frame_type, i1, res, gain, v, pitch).log(e.shape())
                + tail,
        ),
        read_frame(before, after, e.shape(), got),
        body.stands_for(got, e.shape(), was),
    ensures
        body.stands_for(frame_code(e, frame_type, i1, res, gain, v, pitch), e.shape(), was),
        forall|k: int|
            0 <= k < e.subframes ==> #[trigger] body.gains_q16@[k] == gain_q16(gain),
{
    let sent = frame_code(e, frame_type, i1, res, gain, v, pitch);
    law_frame_round_trip(before, after, e.shape(), sent, tail, got);
    assert forall|k: int| 0 <= k < e.subframes implies #[trigger] body.gains_q16@[k] == gain_q16(
        gain,
    ) by {
        assert(0 <= gain <= 63) by {
            reveal(FrameCode::coded);
        }
        assert(body.gains_q16@[k] == gain_q16(got.log_gain(k)));
        law_flat_gain(gain, (e.subframes - 1) as nat, k);
    }
}

/// A lag that stands by itself is coded the same whatever lag came before.
pub proof fn law_absolute_lag_stands_alone(code: FrameCode, a: FrameShape, b: FrameShape)
    requires
        code.voiced() ==> code.pitch.absolute,
        a == (FrameShape { prev_lag: a.prev_lag, ..b }),
    ensures
        code.log(a) == code.log(b),
        code.coded(a) == code.coded(b),
{
    reveal(FrameCode::log);
    reveal(FrameCode::coded);
    if code.voiced() {
        assert(primary_lag_log(a.bw, code.pitch.absolute, code.pitch.lag, a.prev_lag)
            == primary_lag_log(b.bw, code.pitch.absolute, code.pitch.lag, b.prev_lag));
    }
    assert(a.is_20ms() == b.is_20ms());
    assert(a.samples() == b.samples());
    assert(code.voiced() ==> code.pitch.coded(a) == code.pitch.coded(b));
}

/// After a reset or an unvoiced frame, the next pitch lag stands by itself.
pub proof fn law_lag_stands_alone_after_reset(
    e: EncoderView,
    i1: int,
    res: Seq<int>,
    gain: int,
    v: Seq<i32>,
    lag: int,
    filter: int,
)
    requires
        e.prev_lag == 0,
    ensures
        voiced_code(e, i1, res, gain, v, lag, filter).pitch.absolute,
        !unvoiced_code(e, i1, res, gain, v).voiced(),
{
}

/// Writer and reader remember the same lag after a voiced frame, whatever lag was asked for.
pub proof fn law_lags_stay_together(
    e: EncoderView,
    i1: int,
    res: Seq<int>,
    gain: int,
    v: Seq<i32>,
    lag: int,
    filter: int,
)
    ensures
        voiced_code(e, i1, res, gain, v, lag, filter).lag_after(e.shape()) == sent_lag(
            e.params.bandwidth,
            lag,
            e.prev_lag,
        ),
{
}

/// A writer is in step with a reader that remembers the pitch lag `lag`: it goes by the same lag,
/// or its next lag stands by itself.
pub open spec fn in_step(e: EncoderView, lag: int) -> bool {
    e.prev_lag == 0 || e.prev_lag == lag
}

/// How a reader that remembers the pitch lag `lag` reads a frame of the writer `e`.
pub open spec fn read_shape(e: EncoderView, lag: int) -> FrameShape {
    FrameShape { prev_lag: lag, ..e.shape() }
}

/// Writer and reader stay in step through a voiced frame: what the writer means by its symbols is
/// what a reader in step with it means by them, and afterwards both go by the same lag.
pub proof fn law_in_step_after_voiced(
    e: EncoderView,
    i1: int,
    res: Seq<int>,
    gain: int,
    v: Seq<i32>,
    lag: int,
    filter: int,
    reader: int,
)
    requires
        in_step(e, reader),
    ensures
        ({
            let code = voiced_code(e, i1, res, gain, v, lag, filter);
            let sent = sent_lag(e.params.bandwidth, lag, e.prev_lag);
            &&& code.log(read_shape(e, reader)) == code.log(e.shape())
            &&& code.coded(read_shape(e, reader)) == code.coded(e.shape())
            &&& code.lag_after(read_shape(e, reader)) == sent
            &&& in_step(EncoderView { prev_lag: sent, ..e }, sent)
        }),
{
    let code = voiced_code(e, i1, res, gain, v, lag, filter);
    if e.prev_lag == 0 {
        law_absolute_lag_stands_alone(code, read_shape(e, reader), e.shape());
    } else {
        assert(read_shape(e, reader) == e.shape());
    }
}

/// Writer and reader stay in step through an unvoiced frame, after which the reader still goes by
/// its lag and the writer's next lag stands by itself.
pub proof fn law_in_step_after_unvoiced(
    e: EncoderView,
    i1: int,
    res: Seq<int>,
    gain: int,
    v: Seq<i32>,
    reader: int,
)
    requires
        in_step(e, reader),
    ensures
        ({
            let code = unvoiced_code(e, i1, res, gain, v);
            &&& code.log(read_shape(e, reader)) == code.log(e.shape())
            &&& code.coded(read_shape(e, reader)) == code.coded(e.shape())
            &&& code.lag_after(read_shape(e, reader)) == reader
            &&& in_step(EncoderView { prev_lag: 0, ..e }, reader)
        }),
{
    let code = unvoiced_code(e, i1, res, gain, v);
    law_absolute_lag_stands_alone(code, read_shape(e, reader), e.shape());
}

/// Writer and reader remember the lag that was asked for, after a voiced frame whose lag is no more
/// than 127 above the shortest, or close to the one before.
pub proof fn law_asked_lag_remembered(
    e: EncoderView,
    i1: int,
    res: Seq<int>,
    gain: int,
    v: Seq<i32>,
    lag: int,
    filter: int,
)
    requires
        shortest_lag(e.params.bandwidth) <= lag <= longest_lag(e.params.bandwidth),
        lag <= shortest_lag(e.params.bandwidth) + 127 || e.prev_lag != 0 && small_change(
            lag - e.prev_lag,
        ),
    ensures
        voiced_code(e, i1, res, gain, v, lag, filter).lag_after(e.shape()) == lag,
        sent_lag(e.params.bandwidth, lag, e.prev_lag) == lag,
{
}

/// A gain that rises or stays passes, limited to 0 and 63; one that falls by one or two is held;
/// one that falls further passes.
pub proof fn law_gain_is_steadied(raw: int, p: i32)
    requires
        0 <= p <= 63,
    ensures
        0 <= steadied_gain(raw, Some(p)) <= 63,
        0 <= steadied_gain(raw, None) <= 63,
        0 <= raw <= 63 ==> steadied_gain(raw, None) == raw,
        raw > 63 ==> steadied_gain(raw, Some(p)) == 63,
        p <= raw <= 63 ==> steadied_gain(raw, Some(p)) == raw,
        p - 2 <= raw <= p ==> steadied_gain(raw, Some(p)) == p,
        0 <= raw < p - 2 ==> steadied_gain(raw, Some(p)) == raw,
        raw < 0 && p > 2 ==> steadied_gain(raw, Some(p)) == 0,
{
}

/// What is coded of an unvoiced frame: its type is 2, its gain never changes, no NLSFs are
/// interpolated, the seed is zero, and the samples are those that were given, as they fit.
pub proof fn law_unvoiced_settings(
    e: EncoderView,
    i1: int,
    res: Seq<int>,
    gain: int,
    v: Seq<i32>,
    k: int,
)
    requires
        e.subframes >= 1,
        0 <= k < e.subframes - 1,
    ensures
        ({
            let c = unvoiced_code(e, i1, res, gain, v);
            &&& c.frame_type == 2
            &&& c.gain == gain
            &&& c.deltas.len() == e.subframes - 1
            &&& c.deltas[k] == 4
            &&& c.i1 == i1
            &&& c.interp == 4
            &&& c.seed == 0
            &&& c.v == v
        }),
{
}

/// What is coded of a voiced frame: besides what an unvoiced one has, its type is 4, its contour is
/// flat, its filters are all the same one of the largest class, and its scale is 0.95.
pub proof fn law_voiced_settings(
    e: EncoderView,
    i1: int,
    res: Seq<int>,
    gain: int,
    v: Seq<i32>,
    lag: int,
    filter: int,
    k: int,
)
    requires
        0 <= k < e.subframes,
    ensures
        ({
            let c = voiced_code(e, i1, res, gain, v, lag, filter);
            let u = unvoiced_code(e, i1, res, gain, v);
            &&& c.frame_type == u.frame_type + 2
            &&& c.pitch.contour == 0
            &&& c.pitch.periodicity == 2
            &&& c.pitch.filters.len() == e.subframes
            &&& 0 <= c.pitch.filters[k] <= 31
            &&& 0 <= filter <= 31 ==> c.pitch.filters[k] == filter
            &&& filter < 0 ==> c.pitch.filters[k] == 0
            &&& filter > 31 ==> c.pitch.filters[k] == 31
            &&& c.pitch.scaling == 0
            &&& c.scale() == 15565
            &&& c.gain == u.gain && c.deltas == u.deltas && c.i1 == u.i1 && c.res == u.res
            &&& c.interp == u.interp && c.seed == u.seed && c.rate == u.rate && c.x == u.x
            &&& c.v == u.v
        }),
{
}

/// NLSF residuals are coded as asked for, within ten to either side.
pub proof fn law_coded_residuals(
    e: EncoderView,
    frame_type: int,
    i1: int,
    res: Seq<int>,
    gain: int,
    v: Seq<i32>,
    pitch: PitchCode,
    k: int,
)
    requires
        0 <= k < res.len(),
    ensures
        ({
            let c = frame_code(e, frame_type, i1, res, gain, v, pitch);
            &&& c.res.len() == res.len()
            &&& -10 <= res[k] <= 10 ==> c.res[k] == res[k]
            &&& res[k] < -10 ==> c.res[k] == -10
            &&& res[k] > 10 ==> c.res[k] == 10
            &&& c.pitch == pitch
            &&& c.frame_type == frame_type
        }),
{
}

/// Padding adds as many zeros as make the samples a whole number of blocks, fewer than one block of
/// them, and leaves the samples as they are.
pub proof fn law_padding(v: Seq<int>, i: int)
    requires
        0 <= i < padded(v).len(),
    ensures
        padded(v).len() % 16 == 0,
        v.len() <= padded(v).len() < v.len() + 16,
        i < v.len() ==> padded(v)[i] == v[i],
        i >= v.len() ==> padded(v)[i] == 0,
{
}

/// A fresh writer remembers nothing and is told nothing; forgetting takes away what it remembers
/// and nothing else.
pub proof fn law_writer_forgets(e: EncoderView)
    ensures
        ({
            let f = EncoderView::fresh(e.params, e.subframes);
            let g = e.forgetful();
            &&& f.forgetful() == f
            &&& f.prev_lag == 0 && f.prev_stage1 is None && f.prev_gain is None
            &&& f.forced_stage1 is None && f.forced_gain is None && !f.forced_unvoiced
                && !f.forced_zero_stage2
            &&& g.prev_lag == 0 && g.prev_stage1 is None && g.prev_gain is None
            &&& g.forced_stage1 == e.forced_stage1 && g.forced_gain == e.forced_gain
            &&& g.forced_unvoiced == e.forced_unvoiced
            &&& g.forced_zero_stage2 == e.forced_zero_stage2
            &&& g.params == e.params && g.subframes == e.subframes
            &&& e.shape().prev_lag == e.prev_lag && e.shape().active
            &&& e.shape().samples() == e.samples()
        }),
{
}

/// The order of the filter and the length of a subframe, in each bandwidth.
pub proof fn law_writer_geometry(p: BandwidthParams)
    requires
        p.consistent(),
    ensures
        p.bandwidth is Narrowband ==> p.lpc_order == 10 && p.subframe_len == 40,
        p.bandwidth is Mediumband ==> p.lpc_order == 10 && p.subframe_len == 60,
        p.bandwidth is Wideband ==> p.lpc_order == 16 && p.subframe_len == 80,
{
}

/// A gain index proposed for a level is the least that is neither below 35 nor below the nearest
/// one, where there is one.
pub proof fn law_proposed_gain(nearest: Option<i32>)
    ensures
        level_gain(nearest) >= 35,
        nearest matches Some(i) ==> level_gain(nearest) >= i,
        level_gain(nearest) == 35 || nearest is Some && level_gain(nearest) == nearest->0,
{
}

} // verus!
