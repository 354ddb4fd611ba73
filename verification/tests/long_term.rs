//! Long-term prediction parameters.
use oxideav_celt::range_decoder::RangeDecoder;
use oxideav_celt::range_encoder::RangeEncoder;
use silk_codec::silk::ltp::{
    decode_absolute_pitch_lag, decode_delta_pitch_lag, decode_ltp_filter, decode_pitch_contour,
    encode_ltp_filter_index, encode_ltp_periodicity, encode_ltp_scaling, encode_pitch_contour,
    encode_primary_pitch_lag, expand_pitch_contour, history_samples, ltp_filter_from_index,
    ltp_filter_index_count, pitch_lag_bounds,
};
use silk_codec::silk::tables::{
    LTP_FILTER_P0_ICDF, LTP_FILTER_P1_ICDF, LTP_FILTER_P2_ICDF, LTP_PERIODICITY_ICDF,
    LTP_SCALING_ICDF,
};
use silk_codec::toc::OpusBandwidth;

#[test]
fn absolute_pitch_lag_roundtrip_nb() {
    for lag in [16, 20, 40, 80, 120, 143] {
        let mut enc = RangeEncoder::new(64);
        encode_primary_pitch_lag(&mut enc, OpusBandwidth::Narrowband, lag, 0);
        let buf = enc.done().unwrap();
        let mut dec = RangeDecoder::new(&buf);
        let abs_flag = dec.decode_bit_logp(1);
        assert!(abs_flag, "expected abs flag for prev_lag=0");
        let got = decode_absolute_pitch_lag(&mut dec, OpusBandwidth::Narrowband).unwrap();
        assert_eq!(got, lag, "NB lag {lag} did not round-trip (got {got})");
    }
}

#[test]
fn delta_pitch_lag_roundtrip() {
    let prev = 80i32;
    for delta in -9..=11 {
        let lag = prev + delta;
        let mut enc = RangeEncoder::new(64);
        encode_primary_pitch_lag(&mut enc, OpusBandwidth::Narrowband, lag, prev);
        let buf = enc.done().unwrap();
        let mut dec = RangeDecoder::new(&buf);
        let abs_flag = dec.decode_bit_logp(1);
        assert!(!abs_flag, "expected delta for delta={delta}");
        let d = decode_delta_pitch_lag(&mut dec).unwrap();
        assert_eq!(d, delta, "delta {delta} did not round-trip");
    }
}

#[test]
fn out_of_range_delta_uses_abs() {
    let mut enc = RangeEncoder::new(64);
    encode_primary_pitch_lag(&mut enc, OpusBandwidth::Narrowband, 140, 20);
    let buf = enc.done().unwrap();
    let mut dec = RangeDecoder::new(&buf);
    let abs_flag = dec.decode_bit_logp(1);
    assert!(abs_flag);
    let got = decode_absolute_pitch_lag(&mut dec, OpusBandwidth::Narrowband).unwrap();
    assert_eq!(got, 140);
}

#[test]
fn ltp_filter_index_roundtrip() {
    for periodicity in 0..3 {
        let n = ltp_filter_index_count(periodicity);
        for idx in [0, 1, n / 2, n - 1] {
            let mut enc = RangeEncoder::new(64);
            encode_ltp_filter_index(&mut enc, periodicity, idx);
            let buf = enc.done().unwrap();
            let mut dec = RangeDecoder::new(&buf);
            let icdf: &[u8] = match periodicity {
                0 => &LTP_FILTER_P0_ICDF,
                1 => &LTP_FILTER_P1_ICDF,
                _ => &LTP_FILTER_P2_ICDF,
            };
            let got = dec.decode_icdf(icdf, 8);
            assert_eq!(
                got, idx,
                "periodicity {periodicity} filter idx {idx} did not round-trip"
            );
            let enc_taps = ltp_filter_from_index(idx, periodicity);
            let mut dec = RangeDecoder::new(&buf);
            let dec_taps = decode_ltp_filter(&mut dec, periodicity);
            for k in 0..5 {
                let apart = (enc_taps[k] as f32 - dec_taps[k] as f32) / 128.0;
                assert!(apart.abs() < 1e-6);
            }
        }
    }
}

#[test]
fn ltp_scaling_roundtrip() {
    for &scale in &[15565i32, 12288, 8192] {
        let mut enc = RangeEncoder::new(32);
        encode_ltp_scaling(&mut enc, scale);
        let buf = enc.done().unwrap();
        let mut dec = RangeDecoder::new(&buf);
        let idx = dec.decode_icdf(&LTP_SCALING_ICDF, 8);
        let got = match idx {
            0 => 15565,
            1 => 12288,
            _ => 8192,
        };
        assert_eq!(got, scale);
    }
}

#[test]
fn longest_lags_sent_absolutely_come_out_shorter() {
    for (bw, lag, got) in [
        (OpusBandwidth::Narrowband, 144, 143),
        (OpusBandwidth::Mediumband, 216, 151),
        (OpusBandwidth::Wideband, 288, 159),
        (OpusBandwidth::Wideband, 159, 159),
    ] {
        let mut enc = RangeEncoder::new(16);
        encode_primary_pitch_lag(&mut enc, bw, lag, 0);
        let buf = enc.done().unwrap();
        let mut dec = RangeDecoder::new(&buf);
        assert!(dec.decode_bit_logp(1));
        assert_eq!(decode_absolute_pitch_lag(&mut dec, bw).unwrap(), got);
    }
}

#[test]
fn contour_is_flat_and_in_range() {
    let mut enc = RangeEncoder::new(16);
    encode_pitch_contour(&mut enc, OpusBandwidth::Wideband);
    encode_ltp_periodicity(&mut enc, 7);
    let buf = enc.done().unwrap();
    let mut dec = RangeDecoder::new(&buf);
    assert_eq!(decode_pitch_contour(&mut dec, OpusBandwidth::Wideband).unwrap(), 0);
    assert_eq!(dec.decode_icdf(&LTP_PERIODICITY_ICDF, 8), 2);
    let mut lags = [0i32; 4];
    expand_pitch_contour(400, 3, OpusBandwidth::Wideband, &mut lags);
    assert_eq!(lags, [288; 4]);
    expand_pitch_contour(1, 3, OpusBandwidth::Mediumband, &mut lags[..2]);
    assert_eq!(lags, [24, 24, 288, 288]);
}

#[test]
fn bounds_and_filters() {
    assert_eq!(pitch_lag_bounds(OpusBandwidth::Narrowband), (16, 144));
    assert_eq!(pitch_lag_bounds(OpusBandwidth::Mediumband), (24, 216));
    assert_eq!(pitch_lag_bounds(OpusBandwidth::Wideband), (32, 288));
    assert_eq!(pitch_lag_bounds(OpusBandwidth::Fullband), (32, 288));
    assert_eq!(ltp_filter_index_count(0), 8);
    assert_eq!(ltp_filter_index_count(1), 16);
    assert_eq!(ltp_filter_index_count(9), 32);
    assert_eq!(ltp_filter_from_index(0, 0), [4, 6, 24, 7, 5]);
    assert_eq!(ltp_filter_from_index(99, 0), ltp_filter_from_index(7, 0));
}

#[test]
fn only_samples_before_the_frame_count() {
    assert_eq!(history_samples(100, 320, 480), 98);
    assert_eq!(history_samples(288, 160, 480), 160);
    assert_eq!(history_samples(2, 160, 480), 0);
    assert_eq!(history_samples(50, 160, 0), 0);
}
