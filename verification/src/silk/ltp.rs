//! Long-term prediction: pitch lags, filters and scale of voiced frames.
use oxideav_celt::range_decoder::RangeDecoder;
use oxideav_celt::range_encoder::RangeEncoder;
use vstd::prelude::*;

use crate::arith::{clamp_i32, limited};
use crate::error::SilkError;
use crate::range_coder::{
    can_read, can_write, codable, flag, has_read, has_written, read_log, read_symbol, symbol,
    write_flag, write_log, write_symbol, Coded,
};
use crate::silk::ltp_models::{
    contour_icdf, contour_model, filter_count, filter_icdf, filter_model, lag_delta_icdf,
    lag_delta_model, lag_high_icdf, lag_high_model, lag_low_icdf, lag_low_model, periodicity_icdf,
    periodicity_model, scaling_icdf, scaling_model,
};
use crate::toc::OpusBandwidth;

verus! {

/// Filters of periodicity class 0 (Q7).
pub const LTP_P0_Q7: [[i8; 5]; 8] = [
    [4, 6, 24, 7, 5],
    [0, 0, 2, 0, 0],
    [12, 28, 41, 13, -4],
    [-9, 15, 42, 25, 14],
    [1, -2, 62, 41, -9],
    [-10, 37, 65, -4, 3],
    [-6, 4, 66, 7, -8],
    [16, 14, 38, -3, 33],
];

/// Filters of periodicity class 1 (Q7).
pub const LTP_P1_Q7: [[i8; 5]; 16] = [
    [13, 22, 39, 23, 12],
    [-1, 36, 64, 27, -6],
    [-7, 10, 55, 43, 17],
    [1, 1, 8, 1, 1],
    [6, -11, 74, 53, -9],
    [-12, 55, 76, -12, 8],
    [-3, 3, 93, 27, -4],
    [26, 39, 59, 3, -8],
    [2, 0, 77, 11, 9],
    [-8, 22, 44, -6, 7],
    [40, 9, 26, 3, 9],
    [-7, 20, 101, -7, 4],
    [3, -8, 42, 26, 0],
    [-15, 33, 68, 2, 23],
    [-2, 55, 46, -2, 15],
    [3, -1, 21, 16, 41],
];

/// Filters of periodicity class 2 (Q7).
pub const LTP_P2_Q7: [[i8; 5]; 32] = [
    [-6, 27, 61, 39, 5],
    [-11, 42, 88, 4, 1],
    [-2, 60, 65, 6, -4],
    [-1, -5, 73, 56, 1],
    [-9, 19, 94, 29, -9],
    [0, 12, 99, 6, 4],
    [8, -19, 102, 46, -13],
    [3, 2, 13, 3, 2],
    [9, -21, 84, 72, -18],
    [-11, 46, 104, -22, 8],
    [18, 38, 48, 23, 0],
    [-16, 70, 83, -21, 11],
    [5, -11, 117, 22, -8],
    [-6, 23, 117, -12, 3],
    [3, -8, 95, 28, 4],
    [-10, 15, 77, 60, -15],
    [-1, 4, 124, 2, -4],
    [3, 38, 84, 24, -25],
    [2, 13, 42, 13, 31],
    [21, -4, 56, 46, -1],
    [-1, 35, 79, -13, 19],
    [-7, 65, 88, -9, -14],
    [20, 4, 81, 49, -29],
    [20, 0, 75, 3, -17],
    [5, -9, 44, 92, -8],
    [1, -3, 22, 69, 31],
    [-6, 95, 41, -12, 5],
    [39, 67, 16, -4, 1],
    [0, -6, 120, 55, -36],
    [-13, 44, 122, 4, -24],
    [81, 5, 11, 3, 7],
    [2, 0, 9, 10, 88],
];

/// Shortest pitch lag, in samples at the internal rate.
pub open spec fn shortest_lag(bw: OpusBandwidth) -> int {
    match bw {
        OpusBandwidth::Narrowband => 16,
        OpusBandwidth::Mediumband => 24,
        _ => 32,
    }
}

/// Longest pitch lag, in samples at the internal rate.
pub open spec fn longest_lag(bw: OpusBandwidth) -> int {
    9 * shortest_lag(bw)
}

/// `lag`, but within the range of the bandwidth.
pub open spec fn lag_in_range(bw: OpusBandwidth, lag: int) -> int {
    limited(lag, shortest_lag(bw), longest_lag(bw))
}

/// The symbols of an absolute lag that is `raw` above the shortest.
pub open spec fn absolute_lag_log(raw: int) -> Seq<Coded> {
    seq![symbol(lag_high_model(), raw / 4), symbol(lag_low_model(), raw % 4)]
}

/// The symbols of a lag that is `delta` above the one before.
pub open spec fn delta_lag_log(delta: int) -> Seq<Coded> {
    seq![symbol(lag_delta_model(), delta + 9)]
}

/// A change of lag that has a symbol.
pub open spec fn small_change(delta: int) -> bool {
    -9 <= delta <= 11
}

/// Taps (Q7) of filter `idx` of a periodicity class. Indices past the last filter count as the
/// last.
pub open spec fn filter_taps(idx: int, periodicity: int) -> Seq<i8> {
    let i = limited(idx, 0, filter_count(periodicity) - 1);
    if periodicity == 0 {
        LTP_P0_Q7[i]@
    } else if periodicity == 1 {
        LTP_P1_Q7[i]@
    } else {
        LTP_P2_Q7[i]@
    }
}

/// The scale (Q14) of a scaling index.
pub open spec fn scale_of(idx: int) -> int {
    if idx == 0 {
        15565
    } else if idx == 1 {
        12288
    } else {
        8192
    }
}

/// The index of a scale (Q14). Scales without an index of their own get the last.
pub open spec fn scaling_index(scale_q14: int) -> int {
    if scale_q14 == 15565 {
        0
    } else if scale_q14 == 12288 {
        1
    } else {
        2
    }
}

/// Whether a lag is sent by itself instead of as a change from the one before.
pub open spec fn sent_absolutely(bw: OpusBandwidth, lag: int, prev_lag: int) -> bool {
    prev_lag == 0 || !small_change(lag_in_range(bw, lag) - prev_lag)
}

/// The lag that is sent for `lag`: within range, and no more than 127 above the shortest where it
/// is sent by itself.
pub open spec fn sent_lag(bw: OpusBandwidth, lag: int, prev_lag: int) -> int {
    if sent_absolutely(bw, lag, prev_lag) {
        shortest_lag(bw) + limited(lag_in_range(bw, lag) - shortest_lag(bw), 0, 127)
    } else {
        lag_in_range(bw, lag)
    }
}

/// The symbols of a frame's pitch lag: whether it stands by itself, then the lag, or its change
/// from the one before. Where there was none before, it stands by itself in any case.
pub open spec fn primary_lag_log(
    bw: OpusBandwidth,
    absolute: bool,
    lag: int,
    prev_lag: int,
) -> Seq<Coded> {
    seq![flag(absolute)] + (if absolute || prev_lag == 0 {
        absolute_lag_log(lag - shortest_lag(bw))
    } else {
        delta_lag_log(lag - prev_lag)
    })
}

/// A lag that [`primary_lag_log`] has symbols for.
pub open spec fn primary_lag_coded(
    bw: OpusBandwidth,
    absolute: bool,
    lag: int,
    prev_lag: int,
) -> bool {
    if absolute || prev_lag == 0 {
        0 <= lag - shortest_lag(bw) <= 127
    } else {
        small_change(lag - prev_lag)
    }
}

/// Shortest and longest pitch lag, in samples at the internal rate.
pub fn pitch_lag_bounds(bw: OpusBandwidth) -> (r: (i32, i32))
    ensures
        r.0 == shortest_lag(bw),
        r.1 == longest_lag(bw),
{
    match bw {
        OpusBandwidth::Narrowband => (16, 144),
        OpusBandwidth::Mediumband => (24, 216),
        OpusBandwidth::Wideband => (32, 288),
        _ => (32, 288),
    }
}

/// Reads an absolute pitch lag.
pub fn decode_absolute_pitch_lag(rc: &mut RangeDecoder<'_>, bw: OpusBandwidth) -> (r: Result<
    i32,
    SilkError,
>)
    requires
        can_read(old(rc), 2),
    ensures
        r is Ok,
        0 <= r->Ok_0 - shortest_lag(bw) <= 127,
        has_read(old(rc), final(rc), absolute_lag_log(r->Ok_0 - shortest_lag(bw))),
        read_log(final(rc)).len() == read_log(old(rc)).len() + 2,
{
    let (min_lag, max_lag): (i32, i32) = pitch_lag_bounds(bw);
    let high: i32 = read_symbol(rc, lag_high_icdf()) as i32;
    let low: i32 = read_symbol(rc, lag_low_icdf()) as i32;
    let raw: i32 = high * 4 + low;
    proof {
        assert(raw as int / 4 == high && raw as int % 4 == low);
        assert(read_log(rc) =~= read_log(old(rc)) + absolute_lag_log(raw as int));
    }
    Ok(clamp_i32(min_lag + raw, min_lag, max_lag))
}

/// Reads a change of pitch lag.
pub fn decode_delta_pitch_lag(rc: &mut RangeDecoder<'_>) -> (r: Result<i32, SilkError>)
    requires
        can_read(old(rc), 1),
    ensures
        r is Ok,
        small_change(r->Ok_0 as int),
        has_read(old(rc), final(rc), delta_lag_log(r->Ok_0 as int)),
        read_log(final(rc)).len() == read_log(old(rc)).len() + 1,
{
    let delta: i32 = read_symbol(rc, lag_delta_icdf()) as i32;
    Ok(delta - 9)
}

/// Reads the pitch contour.
pub fn decode_pitch_contour(rc: &mut RangeDecoder<'_>, _bw: OpusBandwidth) -> (r: Result<
    usize,
    SilkError,
>)
    requires
        can_read(old(rc), 1),
    ensures
        r is Ok,
        r->Ok_0 <= 10,
        has_read(old(rc), final(rc), seq![symbol(contour_model(), r->Ok_0 as int)]),
        read_log(final(rc)).len() == read_log(old(rc)).len() + 1,
{
    Ok(read_symbol(rc, contour_icdf()))
}

/// Gives every subframe the pitch lag of the frame, kept within range.
pub fn expand_pitch_contour(
    primary_lag: i32,
    _contour_idx: usize,
    bw: OpusBandwidth,
    lags: &mut [i32],
)
    ensures
        final(lags)@.len() == old(lags)@.len(),
        forall|i: int|
            0 <= i < old(lags)@.len() ==> #[trigger] final(lags)@[i] == lag_in_range(
                bw,
                primary_lag as int,
            ),
{
    let (min_lag, max_lag): (i32, i32) = pitch_lag_bounds(bw);
    let lag: i32 = clamp_i32(primary_lag, min_lag, max_lag);
    let mut i: usize = 0;
    while i < lags.len()
        invariant
            i <= lags@.len(),
            lags@.len() == old(lags)@.len(),
            lag == lag_in_range(bw, primary_lag as int),
            forall|j: int| 0 <= j < i ==> #[trigger] lags@[j] == lag,
        decreases lags@.len() - i,
    {
        lags[i] = lag;
        i = i + 1;
    }
}

/// Taps (Q7) of filter `idx` of a periodicity class.
pub fn ltp_filter_from_index(idx: usize, periodicity: usize) -> (taps: [i8; 5])
    ensures
        taps@ == filter_taps(idx as int, periodicity as int),
{
    let n: usize = ltp_filter_index_count(periodicity);
    let i: usize = if idx < n {
        idx
    } else {
        n - 1
    };
    match periodicity {
        0 => LTP_P0_Q7[i],
        1 => LTP_P1_Q7[i],
        _ => LTP_P2_Q7[i],
    }
}

/// Number of filters of a periodicity class.
pub fn ltp_filter_index_count(periodicity: usize) -> (n: usize)
    ensures
        n == filter_count(periodicity as int),
{
    match periodicity {
        0 => 8,
        1 => 16,
        _ => 32,
    }
}

/// Reads a filter index.
pub fn decode_ltp_filter_index(rc: &mut RangeDecoder<'_>, periodicity: usize) -> (idx: usize)
    requires
        can_read(old(rc), 1),
    ensures
        idx < filter_count(periodicity as int),
        has_read(
            old(rc),
            final(rc),
            seq![symbol(filter_model(periodicity as int), idx as int)],
        ),
        read_log(final(rc)).len() == read_log(old(rc)).len() + 1,
{
    read_symbol(rc, filter_icdf(periodicity))
}

/// Reads a filter index and gives the taps (Q7) of that filter.
pub fn decode_ltp_filter(rc: &mut RangeDecoder<'_>, periodicity: usize) -> (taps: [i8; 5])
    requires
        can_read(old(rc), 1),
    ensures
        exists|idx: int|
            0 <= idx < filter_count(periodicity as int) && has_read(
                old(rc),
                final(rc),
                seq![#[trigger] symbol(filter_model(periodicity as int), idx)],
            ) && taps@ == filter_taps(idx, periodicity as int),
{
    let idx: usize = decode_ltp_filter_index(rc, periodicity);
    assert(has_read(
        old(rc),
        rc,
        seq![symbol(filter_model(periodicity as int), idx as int)],
    ));
    ltp_filter_from_index(idx, periodicity)
}

/// Writes the pitch lag of a frame, as a change from `prev_lag` where that is small enough and
/// there was one before.
pub fn encode_primary_pitch_lag(
    enc: &mut RangeEncoder,
    bw: OpusBandwidth,
    lag: i32,
    prev_lag: i32,
)
    requires
        can_write(old(enc), 3),
        lag_in_range(bw, lag as int) - prev_lag <= i32::MAX,
    ensures
        has_written(
            old(enc),
            final(enc),
            primary_lag_log(
                bw,
                sent_absolutely(bw, lag as int, prev_lag as int),
                sent_lag(bw, lag as int, prev_lag as int),
                prev_lag as int,
            ),
        ),
        primary_lag_coded(
            bw,
            sent_absolutely(bw, lag as int, prev_lag as int),
            sent_lag(bw, lag as int, prev_lag as int),
            prev_lag as int,
        ),
        write_log(final(enc)).len() <= write_log(old(enc)).len() + 3,
{
    let (min_lag, max_lag): (i32, i32) = pitch_lag_bounds(bw);
    let lag_c: i32 = clamp_i32(lag, min_lag, max_lag);
    let delta: i32 = lag_c - prev_lag;
    let use_abs: bool = prev_lag == 0 || !(-9 <= delta && delta <= 11);
    write_flag(enc, use_abs);
    if use_abs {
        let raw: i32 = clamp_i32(lag_c - min_lag, 0, 127);
        let high: usize = (raw / 4) as usize;
        let low: usize = (raw % 4) as usize;
        let high_icdf: &[u8] = lag_high_icdf();
        assert(codable(high_icdf@, high as int));
        write_symbol(enc, high, high_icdf);
        let low_icdf: &[u8] = lag_low_icdf();
        assert(codable(low_icdf@, low as int));
        write_symbol(enc, low, low_icdf);
        assert(write_log(enc) =~= write_log(old(enc)) + (seq![flag(true)] + absolute_lag_log(
            raw as int,
        )));
    } else {
        let sym: usize = (delta + 9) as usize;
        let icdf: &[u8] = lag_delta_icdf();
        assert(codable(icdf@, sym as int));
        write_symbol(enc, sym, icdf);
        assert(write_log(enc) =~= write_log(old(enc)) + (seq![flag(false)] + delta_lag_log(
            delta as int,
        )));
    }
}

/// The pitch lag that [`encode_primary_pitch_lag`] writes, which is the lag that a decoder will
/// have.
pub fn primary_lag_written(bw: OpusBandwidth, lag: i32, prev_lag: i32) -> (sent: i32)
    requires
        lag_in_range(bw, lag as int) - prev_lag <= i32::MAX,
    ensures
        sent == sent_lag(bw, lag as int, prev_lag as int),
{
    let (min_lag, max_lag): (i32, i32) = pitch_lag_bounds(bw);
    let lag_c: i32 = clamp_i32(lag, min_lag, max_lag);
    let delta: i32 = lag_c - prev_lag;
    if prev_lag == 0 || !(-9 <= delta && delta <= 11) {
        min_lag + clamp_i32(lag_c - min_lag, 0, 127)
    } else {
        lag_c
    }
}

/// Writes the flat pitch contour.
pub fn encode_pitch_contour(enc: &mut RangeEncoder, _bw: OpusBandwidth)
    requires
        can_write(old(enc), 1),
    ensures
        has_written(old(enc), final(enc), seq![symbol(contour_model(), 0)]),
{
    let icdf: &[u8] = contour_icdf();
    assert(codable(icdf@, 0));
    write_symbol(enc, 0, icdf);
}

/// Writes the long-term prediction scale.
pub fn encode_ltp_scaling(enc: &mut RangeEncoder, scale_q14: i32)
    requires
        can_write(old(enc), 1),
    ensures
        has_written(
            old(enc),
            final(enc),
            seq![symbol(scaling_model(), scaling_index(scale_q14 as int))],
        ),
{
    let idx: usize = if scale_q14 == 15565 {
        0
    } else if scale_q14 == 12288 {
        1
    } else {
        2
    };
    let icdf: &[u8] = scaling_icdf();
    assert(codable(icdf@, idx as int));
    write_symbol(enc, idx, icdf);
}

/// Writes the periodicity class. Classes above 2 count as 2.
pub fn encode_ltp_periodicity(enc: &mut RangeEncoder, periodicity: usize)
    requires
        can_write(old(enc), 1),
    ensures
        has_written(
            old(enc),
            final(enc),
            seq![symbol(periodicity_model(), limited(periodicity as int, 0, 2))],
        ),
{
    let p: usize = if periodicity < 2 {
        periodicity
    } else {
        2
    };
    let icdf: &[u8] = periodicity_icdf();
    assert(codable(icdf@, p as int));
    write_symbol(enc, p, icdf);
}

/// Writes a filter index. Indices past the last filter count as the last.
pub fn encode_ltp_filter_index(enc: &mut RangeEncoder, periodicity: usize, idx: usize)
    requires
        can_write(old(enc), 1),
    ensures
        has_written(
            old(enc),
            final(enc),
            seq![
                symbol(
                    filter_model(periodicity as int),
                    limited(idx as int, 0, filter_count(periodicity as int) - 1),
                ),
            ],
        ),
{
    let icdf: &[u8] = filter_icdf(periodicity);
    let n: usize = icdf.len();
    let i: usize = if idx < n {
        idx
    } else {
        n - 1
    };
    assert(codable(icdf@, i as int));
    write_symbol(enc, i, icdf);
}

/// The number of samples of a frame for which a filter at `lag` reads nothing but what lies before
/// the frame. Where there is none, filters cannot be told apart by them.
pub open spec fn samples_before(lag: int, samples: int, history: int) -> int {
    if lag <= 2 || history == 0 {
        0
    } else if lag - 2 <= samples {
        lag - 2
    } else {
        samples
    }
}

/// The number of samples of a frame for which a filter at `lag` reads nothing but what lies before
/// the frame.
pub fn history_samples(lag: i32, samples: usize, history: usize) -> (n: usize)
    ensures
        n == samples_before(lag as int, samples as int, history as int),
{
    if lag <= 2 || history == 0 {
        return 0;
    }
    let most: usize = (lag - 2) as usize;
    if most <= samples {
        most
    } else {
        samples
    }
}

/// A lag no more than 127 above the shortest, or close to the one before, is sent as it is.
pub proof fn law_lag_kept(bw: OpusBandwidth, lag: int, prev_lag: int)
    requires
        shortest_lag(bw) <= lag <= longest_lag(bw),
        lag <= shortest_lag(bw) + 127 || prev_lag != 0 && small_change(lag - prev_lag),
    ensures
        sent_lag(bw, lag, prev_lag) == lag,
{
}

/// Each scale has an index that stands for it.
pub proof fn law_scale_kept(scale_q14: int)
    requires
        scale_q14 == 15565 || scale_q14 == 12288 || scale_q14 == 8192,
    ensures
        0 <= scaling_index(scale_q14) <= 2,
        scale_of(scaling_index(scale_q14)) == scale_q14,
{
}

/// The taps of a filter are its row of the table of its class, entry by entry. Indices past the
/// last row take the last, and classes above 2 count as 2.
pub proof fn law_filter_entries(idx: int, periodicity: int, tap: int)
    requires
        idx >= 0,
        0 <= tap < 5,
    ensures
        filter_taps(idx, periodicity).len() == 5,
        periodicity == 0 && idx < 8 ==> filter_taps(idx, periodicity)[tap]
            == LTP_P0_Q7@[idx]@[tap],
        periodicity == 0 && idx >= 8 ==> filter_taps(idx, periodicity)[tap] == LTP_P0_Q7@[7]@[tap],
        periodicity == 1 && idx < 16 ==> filter_taps(idx, periodicity)[tap]
            == LTP_P1_Q7@[idx]@[tap],
        periodicity == 1 && idx >= 16 ==> filter_taps(idx, periodicity)[tap]
            == LTP_P1_Q7@[15]@[tap],
        periodicity != 0 && periodicity != 1 && idx < 32 ==> filter_taps(idx, periodicity)[tap]
            == LTP_P2_Q7@[idx]@[tap],
        periodicity != 0 && periodicity != 1 && idx >= 32 ==> filter_taps(idx, periodicity)[tap]
            == LTP_P2_Q7@[31]@[tap],
{
}

/// How many samples of a frame read nothing but the history: up to there, even the newest of the
/// five samples that a filter at `lag` reads, two after the lag, lies before the frame; the next
/// sample, if there is one, reads one of the frame.
pub proof fn law_samples_before(lag: int, samples: int, history: int, j: int)
    requires
        samples >= 0,
        history >= 0,
        0 <= j < samples,
    ensures
        0 <= samples_before(lag, samples, history) <= samples,
        history == 0 ==> samples_before(lag, samples, history) == 0,
        history > 0 ==> (j < samples_before(lag, samples, history) <==> j - lag + 2 < 0),
{
}

/// Which lags have symbols: by themselves up to 127 above the shortest, and otherwise from nine
/// below the lag before to eleven above it.
pub proof fn law_coded_lags(bw: OpusBandwidth, absolute: bool, lag: int, prev_lag: int)
    ensures
        absolute || prev_lag == 0 ==> (primary_lag_coded(bw, absolute, lag, prev_lag)
            <==> shortest_lag(bw) <= lag < shortest_lag(bw) + 128),
        !absolute && prev_lag != 0 ==> (primary_lag_coded(bw, absolute, lag, prev_lag) <==> prev_lag
            - 9 <= lag <= prev_lag + 11),
        bw is Narrowband ==> shortest_lag(bw) == 16 && longest_lag(bw) == 144,
        bw is Mediumband ==> shortest_lag(bw) == 24 && longest_lag(bw) == 216,
        !(bw is Narrowband) && !(bw is Mediumband) ==> shortest_lag(bw) == 32 && longest_lag(bw)
            == 288,
{
}

/// What a lag in range is sent as: within reach of the lag before, as it is; otherwise by itself,
/// and then the nearest lag up to 127 above the shortest.
pub proof fn law_lags_sent(bw: OpusBandwidth, lag: int, prev_lag: int)
    requires
        shortest_lag(bw) <= lag <= longest_lag(bw),
    ensures
        prev_lag == 0 ==> sent_absolutely(bw, lag, prev_lag),
        prev_lag != 0 ==> (sent_absolutely(bw, lag, prev_lag) <==> lag < prev_lag - 9 || lag
            > prev_lag + 11),
        !sent_absolutely(bw, lag, prev_lag) ==> sent_lag(bw, lag, prev_lag) == lag,
        sent_absolutely(bw, lag, prev_lag) && lag <= shortest_lag(bw) + 127 ==> sent_lag(
            bw,
            lag,
            prev_lag,
        ) == lag,
        sent_absolutely(bw, lag, prev_lag) && lag > shortest_lag(bw) + 127 ==> sent_lag(
            bw,
            lag,
            prev_lag,
        ) == shortest_lag(bw) + 127,
        primary_lag_coded(
            bw,
            sent_absolutely(bw, lag, prev_lag),
            sent_lag(bw, lag, prev_lag),
            prev_lag,
        ),
{
}

/// The three scales are 0.95, 0.75 and 0.5, and a scale that is none of them counts as the last.
pub proof fn law_scales(idx: int, scale: int)
    requires
        0 <= idx <= 2,
    ensures
        scaling_index(scale_of(idx)) == idx,
        scale_of(0) == 15565,
        4 * scale_of(1) == 3 * 16384,
        2 * scale_of(2) == 16384,
        scale != scale_of(0) && scale != scale_of(1) ==> scaling_index(scale) == 2,
{
}

} // verus!
