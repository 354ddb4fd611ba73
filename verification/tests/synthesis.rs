//! Frame geometry, stereo unmixing, quantiser trellis, pitch windows and histories.
use silk_codec::choice::first_lowest;
use silk_codec::error::SilkError;
use silk_codec::history::{keep_input, sample_history, shift_ltp_history, shift_ring};
use silk_codec::silk::dither::reconstruct_q23;
use silk_codec::silk::pitch_analysis::{
    downsample_ratio, fraction_window, internal_lag, search_window,
};
use silk_codec::silk_encoder::{
    frame_settings, frame_type, spectrum_step, SilkEncoderMono, SpectrumStep,
};
use silk_codec::silk_frame::{SignalType, SilkFrameSize};
use silk_codec::silk_nsq_del_dec::{DelDecRequest, DelDecTrellis, Fork, MAX_DEL_DEC_STATES};
use silk_codec::silk_stereo::{interp_phase_samples, StereoUnmixState, StereoWeightsQ13};
use silk_codec::silk_synthesis::{
    a_q12_i16, num_subframes, silk_frame_internal_samples, subframe_samples, FrameSizes,
    SilkSynthState,
};
use silk_codec::toc::{Bandwidth, OpusBandwidth};

#[test]
fn state_new_routes_and_rejects() {
    for bw in [Bandwidth::Nb, Bandwidth::Mb, Bandwidth::Wb] {
        let s = SilkSynthState::new(bw).unwrap();
        assert_eq!(s.bandwidth(), bw);
    }
    assert!(SilkSynthState::new(Bandwidth::Swb).is_err());
    assert!(SilkSynthState::new(Bandwidth::Fb).is_err());
}

#[test]
fn internal_sample_counts() {
    assert_eq!(
        silk_frame_internal_samples(Bandwidth::Nb, SilkFrameSize::TenMs).unwrap(),
        80
    );
    assert_eq!(
        silk_frame_internal_samples(Bandwidth::Nb, SilkFrameSize::TwentyMs).unwrap(),
        160
    );
    assert_eq!(
        silk_frame_internal_samples(Bandwidth::Mb, SilkFrameSize::TwentyMs).unwrap(),
        240
    );
    assert_eq!(
        silk_frame_internal_samples(Bandwidth::Wb, SilkFrameSize::TwentyMs).unwrap(),
        320
    );
    assert_eq!(
        silk_frame_internal_samples(Bandwidth::Wb, SilkFrameSize::TenMs).unwrap(),
        160
    );
}

const WB_SIZES: FrameSizes = FrameSizes {
    gains: 4,
    excitation: 320,
    pitch_lags: 4,
    filters: 4,
    first_half: Some(16),
    coefficients: 16,
};

#[test]
fn rejects_bandwidth_mismatch() {
    let mut state = SilkSynthState::new(Bandwidth::Wb).unwrap();
    assert!(matches!(
        state.plan_frame(
            Bandwidth::Nb,
            SilkFrameSize::TwentyMs,
            SignalType::Unvoiced,
            WB_SIZES
        ),
        Err(SilkError::MalformedPacket)
    ));
}

#[test]
fn frames_are_planned_by_subframe() {
    let mut state = SilkSynthState::new(Bandwidth::Wb).unwrap();
    let plan = state
        .plan_frame(
            Bandwidth::Wb,
            SilkFrameSize::TwentyMs,
            SignalType::Voiced,
            WB_SIZES,
        )
        .unwrap();
    let halves: Vec<bool> = plan.iter().map(|c| c.first_half).collect();
    assert_eq!(halves, vec![true, true, false, false]);
    assert!(plan.iter().all(|c| c.pitched));
    assert_eq!((plan[3].start, plan[3].end), (240, 320));
    for sizes in [
        FrameSizes { gains: 3, ..WB_SIZES },
        FrameSizes { excitation: 319, ..WB_SIZES },
        FrameSizes { pitch_lags: 0, ..WB_SIZES },
        FrameSizes { filters: 2, ..WB_SIZES },
        FrameSizes { coefficients: 10, ..WB_SIZES },
        FrameSizes { first_half: Some(15), ..WB_SIZES },
    ] {
        let r = state.plan_frame(
            Bandwidth::Wb,
            SilkFrameSize::TwentyMs,
            SignalType::Voiced,
            sizes,
        );
        assert_eq!(r.err(), Some(SilkError::MalformedPacket));
    }
    assert_eq!(num_subframes(SilkFrameSize::TenMs), 2);
    assert_eq!(subframe_samples(Bandwidth::Mb), Ok(60));
    assert_eq!(a_q12_i16(&[5, -40_000, 32_768]), vec![5, -32_768, 32_767]);
}

#[test]
fn interp_phase_table() {
    assert_eq!(interp_phase_samples(Bandwidth::Nb).unwrap(), 64);
    assert_eq!(interp_phase_samples(Bandwidth::Mb).unwrap(), 96);
    assert_eq!(interp_phase_samples(Bandwidth::Wb).unwrap(), 128);
    assert!(interp_phase_samples(Bandwidth::Swb).is_err());
    assert!(interp_phase_samples(Bandwidth::Fb).is_err());
}

#[test]
fn state_starts_and_resets_zero() {
    let mut s = StereoUnmixState::new();
    assert_eq!(s.prev_weights(), StereoWeightsQ13::default());
    let w = StereoWeightsQ13 {
        w0_q13: 5,
        w1_q13: 7,
    };
    s.take_frame(Bandwidth::Wb, 320, None, w).unwrap();
    assert_eq!(s.prev_weights(), w);
    s.reset();
    assert_eq!(s, StereoUnmixState::new());
    assert_eq!(s, StereoUnmixState::default());
}

#[test]
fn rejects_empty_and_mismatched() {
    let mut s = StereoUnmixState::new();
    let w = StereoWeightsQ13::default();
    assert!(s.take_frame(Bandwidth::Wb, 0, None, w).is_err());
    assert!(s.take_frame(Bandwidth::Wb, 80, Some(79), w).is_err());
}

#[test]
fn weights_move_on_with_each_frame() {
    let mut s = StereoUnmixState::new();
    let a = StereoWeightsQ13 {
        w0_q13: 100,
        w1_q13: -200,
    };
    let b = StereoWeightsQ13 {
        w0_q13: 3,
        w1_q13: 4,
    };
    assert_eq!(
        s.take_frame(Bandwidth::Nb, 160, Some(160), a),
        Ok((StereoWeightsQ13::default(), 64))
    );
    assert_eq!(s.take_frame(Bandwidth::Nb, 160, None, b), Ok((a, 64)));
    assert_eq!(
        s.take_frame(Bandwidth::Fb, 160, None, a),
        Err(SilkError::MalformedPacket)
    );
    assert_eq!(s.prev_weights(), b);
}

fn nb_request() -> DelDecRequest {
    DelDecRequest {
        bandwidth: Bandwidth::Nb,
        frame_size: SilkFrameSize::TwentyMs,
        signal_type: SignalType::Unvoiced,
        base_seed: 0,
        n_states: 2,
        gains: 4,
        coefficients: 10,
        order: 10,
        shaping: None,
        has_ltp: false,
        samples: 160,
    }
}

#[test]
fn rejects_bad_args() {
    assert!(nb_request().check().is_ok());
    assert!(DelDecRequest { n_states: 5, ..nb_request() }.check().is_err());
    assert!(DelDecRequest { n_states: 0, ..nb_request() }.check().is_err());
    assert!(DelDecRequest { base_seed: 4, ..nb_request() }.check().is_err());
}

#[test]
fn quantiser_requests_are_checked() {
    for bad in [
        DelDecRequest { gains: 2, ..nb_request() },
        DelDecRequest { samples: 159, ..nb_request() },
        DelDecRequest { has_ltp: true, ..nb_request() },
        DelDecRequest { coefficients: 16, ..nb_request() },
        DelDecRequest { shaping: Some(9), ..nb_request() },
        DelDecRequest { bandwidth: Bandwidth::Swb, ..nb_request() },
    ] {
        assert_eq!(bad.check(), Err(SilkError::MalformedPacket));
    }
    assert_eq!(MAX_DEL_DEC_STATES, 4);
}

#[test]
fn cheapest_paths_survive() {
    let mut t = DelDecTrellis::new(3, 2, 25);
    assert_eq!(t.len(), 2);
    assert_eq!(t.last_q23(0), None);
    let origins = t.advance(&[
        Fork { path: 0, e_raw: 1, cost: 50 },
        Fork { path: 0, e_raw: 2, cost: 10 },
        Fork { path: 1, e_raw: -3, cost: 20 },
        Fork { path: 1, e_raw: 4, cost: 10 },
    ]);
    assert_eq!(origins, vec![1, 3]);
    assert_eq!(t.len(), 2);
    let w = t.winner();
    let first = t.excitation(w, 4);
    assert_eq!(first.e_raw, vec![2, 0, 0, 0]);
    assert_eq!(first.lcg_seed, 3);
    let other = t.excitation(1 - w, 1);
    assert_eq!(other.e_raw, vec![4]);
    assert_eq!(other.lcg_seed, 0);
    let q23 = reconstruct_q23(&[2], 1, 0, 3);
    assert_eq!(t.last_q23(w), Some(q23[0]));
    assert_eq!(t.flips(w), reconstruct_q23(&[2, 0], 1, 0, 3)[1] < 0);
}

#[test]
fn rejects_bad_input() {
    assert!(SilkEncoderMono::new(Bandwidth::Swb).is_err());
    let enc = SilkEncoderMono::new(Bandwidth::Wb).unwrap();
    assert!(enc.check_input(100).is_err());
    assert!(enc.check_input(320).is_ok());
}

#[test]
fn first_gains_stay_near_the_gain_before() {
    let mut enc = SilkEncoderMono::new(Bandwidth::Nb).unwrap();
    assert_eq!(enc.frame_samples(), 160);
    assert_eq!(enc.lpc_order(), 10);
    assert_eq!(enc.first_gain(3), 3);
    enc.sent(60);
    assert_eq!(enc.first_gain(3), 44);
    assert_eq!(enc.first_gain(50), 50);
    enc.reset();
    assert_eq!(enc.first_gain(3), 3);
    assert_eq!(frame_type(true), 4);
    assert_eq!(frame_type(false), 2);
    let flat = enc.flat_spectrum();
    assert_eq!(flat.len(), 10);
    assert_eq!(flat[0], (32768 / 11) as i16);
    assert!(flat.windows(2).all(|w| w[0] < w[1]));
    assert_eq!(enc.subframe_lags(20, &[-10, 0, 3, 127], 16, 144), vec![16, 20, 23, 144]);
}

#[test]
fn signals_follow_their_paths() {
    let filter = |s: i64, e: i32| (3 * s + e as i64) % 1_000_003;
    let mut t = DelDecTrellis::new(1, 3, 25);
    let mut signals = vec![7i64; 3];
    for n in 0..20i32 {
        let mut forks = Vec::new();
        for (path, s) in signals.iter().enumerate() {
            for e_raw in [n - 9, if t.flips(path) { 4 } else { -2 }] {
                forks.push(Fork { path, e_raw, cost: (s * 31 + e_raw as i64 * 17) % 101 });
            }
        }
        let origins = t.advance(&forks);
        signals = origins
            .iter()
            .enumerate()
            .map(|(k, &o)| filter(signals[forks[o].path], t.last_q23(k).unwrap()))
            .collect();
    }
    for (path, &s) in signals.iter().enumerate() {
        let settled = t.excitation(path, 32);
        let e_q23 = reconstruct_q23(&settled.e_raw, 1, 0, settled.lcg_seed as u32);
        assert_eq!(s, e_q23[..20].iter().fold(7, |s, &e| filter(s, e)));
    }
}

#[test]
fn frames_share_their_settings() {
    for voiced in [false, true] {
        let s = frame_settings(voiced);
        assert_eq!(s.frame_type, frame_type(voiced));
        assert_eq!((s.lsf_interp_w_q2, s.lcg_seed, s.high_offset), (4, 0, false));
    }
    assert_eq!(frame_settings(true).ltp_scaling_index, Some(0));
    assert_eq!(frame_settings(true).ltp_scaling_q14, Some(15565));
    assert_eq!(frame_settings(false).ltp_scaling_index, None);
}

#[test]
fn filters_are_widened_four_times() {
    let mut retries = 0;
    while spectrum_step(retries, false) == SpectrumStep::Widen {
        retries += 1;
    }
    assert_eq!(retries, 4);
    assert_eq!(spectrum_step(4, false), SpectrumStep::Flat);
    assert_eq!(spectrum_step(4, true), SpectrumStep::Use);
    assert_eq!(spectrum_step(0, true), SpectrumStep::Use);
}

#[test]
fn synthesis_starts_anew_after_a_reset() {
    let fresh = SilkSynthState::new(Bandwidth::Wb).unwrap();
    let mut state = fresh;
    assert!(state.at_rest());
    state
        .plan_frame(
            Bandwidth::Wb,
            SilkFrameSize::TwentyMs,
            SignalType::Unvoiced,
            WB_SIZES,
        )
        .unwrap();
    assert!(!state.at_rest());
    assert_ne!(state, fresh);
    state.reset();
    assert_eq!(state, fresh);
}

#[test]
fn pitch_windows() {
    assert_eq!(downsample_ratio(OpusBandwidth::Narrowband), 1);
    assert_eq!(downsample_ratio(OpusBandwidth::Wideband), 2);
    assert_eq!(search_window(OpusBandwidth::Narrowband, 160), Some((16, 144)));
    assert_eq!(search_window(OpusBandwidth::Narrowband, 100), Some((16, 99)));
    assert_eq!(search_window(OpusBandwidth::Mediumband, 200), Some((12, 108)));
    assert_eq!(search_window(OpusBandwidth::Wideband, 31), None);
    assert_eq!(fraction_window(60, 2, 16, 144), Some((29, 31)));
    assert_eq!(fraction_window(60, 3, 20, 144), Some((20, 21)));
    assert_eq!(fraction_window(30, 3, 16, 144), None);
    assert_eq!(internal_lag(OpusBandwidth::Narrowband, 50), 50);
    assert_eq!(internal_lag(OpusBandwidth::Wideband, 50), 100);
    assert_eq!(internal_lag(OpusBandwidth::Wideband, 500), 288);
}

#[test]
fn histories_keep_the_latest() {
    let mut h = vec![1, 2, 3, 4];
    shift_ltp_history(&mut h, &[5, 6]);
    assert_eq!(h, vec![3, 4, 5, 6]);
    shift_ltp_history(&mut h, &[7, 8, 9, 10, 11]);
    assert_eq!(h, vec![8, 9, 10, 11]);
    let mut joined = vec![1, 2, 3, 4];
    shift_ltp_history(&mut joined, &[5, 6, 7, 8, 9, 10, 11]);
    assert_eq!(joined, h);
    let mut ring: Vec<i32> = Vec::new();
    shift_ring(&mut ring, &[1, 2], 4, 0);
    assert_eq!(ring, vec![0, 0, 1, 2]);
    shift_ring(&mut ring, &[3, 4, 5], 4, 0);
    assert_eq!(ring, vec![2, 3, 4, 5]);
    let mut input = vec![9];
    keep_input(&mut input, &[1], 3, 0);
    assert_eq!(input, vec![0, 9, 1]);
}

#[test]
fn first_of_the_lowest_is_taken() {
    assert_eq!(first_lowest(&[5, 3, 3, 9], i64::MAX), Some(1));
    assert_eq!(first_lowest(&[5, 3, 3, 9], 3), None);
    assert_eq!(first_lowest(&[], 3), None);
}

#[test]
fn samples_reach_back_into_history() {
    let cur = [10, 11, 12];
    let history = [1, 2];
    assert_eq!(sample_history(0, &cur, &history, 0), 10);
    assert_eq!(sample_history(2, &cur, &history, 0), 12);
    assert_eq!(sample_history(3, &cur, &history, 0), 0);
    assert_eq!(sample_history(-1, &cur, &history, 0), 2);
    assert_eq!(sample_history(-2, &cur, &history, 0), 1);
    assert_eq!(sample_history(-3, &cur, &history, 0), 0);
    assert_eq!(sample_history(i32::MIN, &cur, &history, 0), 0);
}

#[test]
fn one_path_goes_by_the_first_of_the_cheapest() {
    let steps: [&[(i32, i64)]; 4] = [
        &[(3, 20), (4, 15), (5, 15)],
        &[(-1, 17), (0, 16), (1, 18)],
        &[(7, 30), (8, 30), (9, 30)],
        &[(0, i64::MAX)],
    ];
    for seed in 0..4u8 {
        let mut t = DelDecTrellis::new(seed, 1, 25);
        for (k, step) in steps.iter().enumerate() {
            let forks: Vec<Fork> =
                step.iter().map(|&(e_raw, cost)| Fork { path: 0, e_raw, cost }).collect();
            assert_eq!(t.advance(&forks), vec![[1usize, 1, 0, 0][k]]);
            assert_eq!(t.len(), 1);
        }
        assert_eq!(t.winner(), 0);
        let q = t.excitation(0, 16);
        assert_eq!(q.lcg_seed, seed);
        assert_eq!(q.e_raw[..4], [4, 0, 7, 0]);
        assert!(q.e_raw[4..].iter().all(|&e| e == 0));
    }
}
