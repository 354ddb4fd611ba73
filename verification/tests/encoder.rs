//! Writing frames.
use oxideav_celt::range_decoder::RangeDecoder;
use oxideav_celt::range_encoder::RangeEncoder;
use silk_codec::silk::dither::reconstruct_q23;
use silk_codec::silk::encoder::{
    apply_gain_hysteresis, fit_excitation, gain_for_level, BandwidthParams, SilkFrameEncoder,
};
use silk_codec::silk::frame::{decode_frame_body, gains_from_indices, interpolate_nlsf, FrameBody};
use silk_codec::silk::lsf::nlsf_from_indices;
use silk_codec::silk::ltp::ltp_filter_from_index;
use silk_codec::silk::{
    gain_index_of_q16, gain_index_to_q16, silk_log2lin, SilkChannelState, SUBFRAMES_10MS,
    SUBFRAMES_20MS,
};
use silk_codec::toc::OpusBandwidth;

#[test]
fn wb_frame_params_match_expectations() {
    let wb = SilkFrameEncoder::new_wb_20ms();
    assert_eq!(wb.lpc_order(), 16);
    assert_eq!(wb.subframe_len(), 80);
    assert_eq!(wb.frame_len(), 320);
    assert_eq!(wb.internal_rate_hz(), 16_000);
}

#[test]
fn mb_frame_params_match_expectations() {
    let mb = SilkFrameEncoder::new_mb_20ms();
    assert_eq!(mb.lpc_order(), 10);
    assert_eq!(mb.subframe_len(), 60);
    assert_eq!(mb.frame_len(), 240);
    assert_eq!(mb.internal_rate_hz(), 12_000);
}

#[test]
fn gain_picker_hysteresis_is_asymmetric() {
    assert_eq!(apply_gain_hysteresis(38, Some(35)), 38);
    assert_eq!(apply_gain_hysteresis(36, Some(35)), 36);
    assert_eq!(apply_gain_hysteresis(34, Some(35)), 35);
    assert_eq!(apply_gain_hysteresis(33, Some(35)), 35);
    assert_eq!(apply_gain_hysteresis(32, Some(35)), 32);
    assert_eq!(apply_gain_hysteresis(40, None), 40);
}

#[test]
fn rfc_4_2_7_4_endpoints() {
    assert_eq!(gain_index_to_q16(0), 81920);
    assert_eq!(gain_index_to_q16(63), 1_686_110_208);
    assert!((gain_index_to_q16(0) as f64 / 65536.0 - 1.25).abs() < 1e-9);
    let top = gain_index_to_q16(63) as f64 / 65536.0;
    assert!((top - 25728.0).abs() < 1.0);
}

#[test]
fn gain_monotone_in_index() {
    let mut prev = 0;
    for idx in 0..=63 {
        let g = gain_index_to_q16(idx);
        assert!(g > prev, "gain not monotone at idx={idx}");
        prev = g;
    }
}

#[test]
fn gain_inverse_round_trips_each_index() {
    for idx in 0..=63 {
        let g = gain_index_to_q16(idx);
        assert_eq!(gain_index_of_q16(g), idx, "round-trip mismatch idx={idx}");
    }
}

#[test]
fn powers_of_two() {
    assert_eq!(silk_log2lin(0), 1);
    assert_eq!(silk_log2lin(128), 2);
    assert_eq!(silk_log2lin(20 * 128), 1 << 20);
    assert_eq!(silk_log2lin(4000), i32::MAX);
}

#[test]
fn gains_follow_their_steps() {
    let flat = gains_from_indices(40, &vec![4, 4, 4]);
    assert_eq!(flat, vec![gain_index_to_q16(40); 4]);
    let steps = gains_from_indices(40, &vec![0, 40]);
    assert_eq!(
        steps,
        vec![
            gain_index_to_q16(40),
            gain_index_to_q16(36),
            gain_index_to_q16(63)
        ]
    );
}

#[test]
fn early_frequencies_lie_between() {
    let prev = vec![1000i16; 10];
    let now = vec![2000i16; 10];
    assert_eq!(interpolate_nlsf(&prev, &now, true, 0), prev);
    assert_eq!(interpolate_nlsf(&prev, &now, true, 1), vec![1250i16; 10]);
    assert_eq!(interpolate_nlsf(&prev, &now, true, 2), vec![1500i16; 10]);
}

#[test]
fn short_excitations_are_padded() {
    let fitted = fit_excitation(&[1, -1, 0, 2, 0]);
    assert_eq!(fitted.len(), 16);
    assert_eq!(&fitted[..5], &[1, -1, 0, 2, 0]);
    assert_eq!(&fitted[5..], &[0; 11]);
    assert!(fit_excitation(&[]).is_empty());
}

#[test]
fn settings_are_kept_and_forgotten() {
    let mut e = SilkFrameEncoder::new(BandwidthParams::nb());
    assert_eq!(e.n_subframes(), 4);
    assert_eq!(e.bandwidth(), OpusBandwidth::Narrowband);
    assert_eq!(e.choose_stage1(7), 7);
    assert_eq!(e.prev_stage1_idx(), Some(7));
    assert_eq!(e.choose_gain(40), 40);
    assert_eq!(e.choose_gain(39), 40);
    assert_eq!(e.choose_gain(37), 37);
    e.reset();
    assert_eq!(e.prev_stage1_idx(), None);
    assert_eq!(e.choose_gain(36), 36);
    e.set_force_stage1_idx(Some(3));
    e.set_force_gain_index(Some(12));
    e.set_force_unvoiced(true);
    e.set_force_zero_stage2(true);
    assert_eq!(e.choose_stage1(7), 3);
    assert_eq!(e.choose_gain(50), 12);
    assert!(e.forces_unvoiced());
    assert!(e.forces_zero_stage2());
    assert_eq!(e.forced_stage1_idx(), Some(3));
    assert_eq!(e.forced_gain_index(), Some(12));
    e.reset();
    assert_eq!(e.forced_gain_index(), Some(12));
}

#[test]
fn ten_millisecond_writers() {
    assert_eq!(SilkFrameEncoder::new_nb_10ms().frame_len(), 80);
    assert_eq!(SilkFrameEncoder::new_mb_10ms().frame_len(), 120);
    assert_eq!(SilkFrameEncoder::new_wb_10ms().frame_len(), 160);
    assert_eq!(SilkFrameEncoder::new_nb_20ms().frame_len(), 160);
    assert_eq!(BandwidthParams::mb().subframe_len, 60);
    assert_eq!(BandwidthParams::wb().lpc_order, 16);
}

fn residuals(order: usize) -> Vec<i32> {
    (0..order).map(|k| (k as i32 * 3) % 7 - 3).collect()
}

fn pulses(len: usize) -> Vec<i32> {
    (0..len)
        .map(|i| match i % 23 {
            0 => 9,
            5 => -4,
            11 => 1,
            _ => 0,
        })
        .collect()
}

fn check_common(body: &FrameBody, e: &SilkFrameEncoder, stage1: usize, gain: i32, recon: &[i32]) {
    let wide = e.lpc_order() == 16;
    assert_eq!(body.quant_offset_type, 0);
    assert_eq!(body.gains_q16, vec![gain_index_to_q16(gain); e.n_subframes()]);
    assert_eq!(body.nlsf_q15, nlsf_from_indices(wide, stage1, &residuals(e.lpc_order())));
    let q23 = reconstruct_q23(recon, body.signal_type, 0, 0);
    assert_eq!(body.excitation_q23.as_slice(), &q23[..e.frame_len()]);
}

#[test]
fn unvoiced_frames_read_back() {
    for mut e in [
        SilkFrameEncoder::new_nb_20ms(),
        SilkFrameEncoder::new_mb_20ms(),
        SilkFrameEncoder::new_wb_20ms(),
        SilkFrameEncoder::new_nb_10ms(),
        SilkFrameEncoder::new_mb_10ms(),
        SilkFrameEncoder::new_wb_10ms(),
    ] {
        let mags = pulses(e.frame_len());
        let mut enc = RangeEncoder::new(1000);
        let res = residuals(e.lpc_order());
        let recon = e.encode_frame_body_unvoiced(&mut enc, 11, &res, 35, &mags);
        assert_eq!(&recon[..mags.len()], mags.as_slice());
        let buf = enc.done().unwrap();
        let mut rc = RangeDecoder::new(&buf);
        let mut state = SilkChannelState::new();
        let body = decode_frame_body(
            &mut rc,
            true,
            e.bandwidth(),
            e.subframe_len(),
            e.n_subframes(),
            &mut state,
        )
        .unwrap();
        assert_eq!(body.signal_type, 1);
        assert!(body.pitch_lags.iter().all(|&l| l == 0));
        check_common(&body, &e, 11, 35, &recon);
        assert_eq!(state.prev_pitch_lag, 0);
        assert_eq!(state.prev_nlsf_q15, body.nlsf_q15);
        assert!(!state.first_frame);
    }
}

#[test]
fn voiced_frames_read_back_one_after_the_other() {
    let mut e = SilkFrameEncoder::new_wb_20ms();
    let mut state = SilkChannelState::new();
    for (lag, filter, gain) in [(100, 5usize, 40), (104, 31, 42), (150, 0, 20)] {
        let mags = pulses(e.frame_len());
        let mut enc = RangeEncoder::new(1000);
        let res = residuals(16);
        let recon = e.encode_frame_body_voiced(&mut enc, 4, &res, gain, lag, filter, &mags);
        let buf = enc.done().unwrap();
        let mut rc = RangeDecoder::new(&buf);
        let body = decode_frame_body(
            &mut rc,
            true,
            OpusBandwidth::Wideband,
            80,
            SUBFRAMES_20MS,
            &mut state,
        )
        .unwrap();
        assert_eq!(body.signal_type, 2);
        assert_eq!(body.pitch_lags, vec![lag; 4]);
        assert_eq!(body.ltp_scale_q14, 15565);
        for taps in &body.ltp_taps_q7 {
            assert_eq!(*taps, ltp_filter_from_index(filter, 2));
        }
        check_common(&body, &e, 4, gain, &recon);
        assert_eq!(state.prev_pitch_lag, lag);
    }
    state.reset();
    assert_eq!(state.prev_pitch_lag, 0);
    assert!(state.first_frame);
    assert_eq!(SUBFRAMES_10MS, 2);
}

#[test]
fn zero_frame_reads_back_as_dither_alone() {
    let mut e = SilkFrameEncoder::new_nb_20ms();
    let mut enc = RangeEncoder::new(256);
    let recon = e.encode_frame_body_unvoiced(&mut enc, 0, &[0; 10], 35, &[0; 160]);
    assert!(recon.iter().all(|&v| v == 0));
    let buf = enc.done().unwrap();
    let mut rc = RangeDecoder::new(&buf);
    let mut state = SilkChannelState::new();
    let body = decode_frame_body(
        &mut rc,
        true,
        OpusBandwidth::Narrowband,
        40,
        SUBFRAMES_20MS,
        &mut state,
    )
    .unwrap();
    for v in body.excitation_q23 {
        assert_eq!(v.abs(), 25);
    }
}

#[test]
fn levels_and_voicing() {
    assert_eq!(gain_for_level(None), 35);
    assert_eq!(gain_for_level(Some(12)), 35);
    assert_eq!(gain_for_level(Some(36)), 36);
    let mut e = SilkFrameEncoder::new_nb_20ms();
    assert!(e.codes_voiced(true));
    assert!(!e.codes_voiced(false));
    e.set_force_unvoiced(true);
    assert!(!e.codes_voiced(true));
}

#[test]
fn lag_that_cannot_be_sent_is_remembered_as_sent() {
    let mut e = SilkFrameEncoder::new_wb_20ms();
    let mut state = SilkChannelState::new();
    for (lag, sent) in [(200, 159), (165, 165), (176, 176), (-5, 32), (i32::MAX, 159), (170, 170)] {
        let mags = pulses(e.frame_len());
        let mut enc = RangeEncoder::new(1000);
        let res = residuals(16);
        let recon = e.encode_frame_body_voiced(&mut enc, 4, &res, 40, lag, 3, &mags);
        let buf = enc.done().unwrap();
        let mut rc = RangeDecoder::new(&buf);
        let body = decode_frame_body(
            &mut rc,
            true,
            OpusBandwidth::Wideband,
            80,
            SUBFRAMES_20MS,
            &mut state,
        )
        .unwrap();
        assert_eq!(body.pitch_lags, vec![sent; 4], "asked for {lag}");
        assert_eq!(state.prev_pitch_lag, sent);
        assert_eq!(state.prev_gain_q16, 0);
        check_common(&body, &e, 4, 40, &recon);
    }
}

#[test]
fn writer_and_reader_keep_step_through_unvoiced_frames() {
    let mut e = SilkFrameEncoder::new_nb_20ms();
    let mut state = SilkChannelState::new();
    let mut kept = 0;
    for lag in [Some(100), None, Some(104), Some(110), None, None, Some(144), Some(144)] {
        let mags = pulses(e.frame_len());
        let mut enc = RangeEncoder::new(1000);
        let res = residuals(10);
        match lag {
            Some(l) => e.encode_frame_body_voiced(&mut enc, 4, &res, 40, l, 3, &mags),
            None => e.encode_frame_body_unvoiced(&mut enc, 4, &res, 40, &mags),
        };
        let buf = enc.done().unwrap();
        let mut rc = RangeDecoder::new(&buf);
        let nb = OpusBandwidth::Narrowband;
        let body = decode_frame_body(&mut rc, true, nb, 40, SUBFRAMES_20MS, &mut state).unwrap();
        if let Some(l) = lag {
            kept = if l == 144 && kept == 110 { 143 } else { l };
            assert_eq!(body.pitch_lags, vec![kept; 4]);
        } else {
            assert_eq!(body.signal_type, 1);
        }
        assert_eq!(state.prev_pitch_lag, kept);
    }
}
