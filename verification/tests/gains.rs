//! Subframe gains.
use oxideav_celt::range_decoder::RangeDecoder;
use silk_codec::error::SilkError;
use silk_codec::silk_frame::SignalType;
use silk_codec::silk_gains::{
    SubframeGains, SubframeGainsConfig, GAIN_DELTA_ICDF, GAIN_LSB_ICDF, GAIN_MSB_ICDF_INACTIVE,
    GAIN_MSB_ICDF_UNVOICED, GAIN_MSB_ICDF_VOICED,
};

#[test]
fn gain_msb_inactive_pdf_sums_to_256() {
    let pdf = [32u32, 112, 68, 29, 12, 1, 1, 1];
    assert_eq!(pdf.iter().sum::<u32>(), 256);
    assert_eq!(GAIN_MSB_ICDF_INACTIVE.len(), pdf.len());
    for w in GAIN_MSB_ICDF_INACTIVE.windows(2) {
        assert!(w[0] > w[1] || (w[0] == 0 && w[1] == 0));
    }
    assert_eq!(*GAIN_MSB_ICDF_INACTIVE.last().unwrap(), 0);
}

#[test]
fn gain_msb_unvoiced_pdf_sums_to_256() {
    let pdf = [2u32, 17, 45, 60, 62, 47, 19, 4];
    assert_eq!(pdf.iter().sum::<u32>(), 256);
    assert_eq!(
        GAIN_MSB_ICDF_UNVOICED,
        [254u8, 237, 192, 132, 70, 23, 4, 0]
    );
}

#[test]
fn gain_msb_voiced_pdf_sums_to_256() {
    let pdf = [1u32, 3, 26, 71, 94, 50, 9, 2];
    assert_eq!(pdf.iter().sum::<u32>(), 256);
    assert_eq!(GAIN_MSB_ICDF_VOICED, [255u8, 252, 226, 155, 61, 11, 2, 0]);
}

#[test]
fn gain_lsb_pdf_is_uniform_eight() {
    assert_eq!(GAIN_LSB_ICDF, [224u8, 192, 160, 128, 96, 64, 32, 0]);
}

#[test]
fn gain_delta_pdf_sums_to_256() {
    let pdf: [u32; 41] = [
        6, 5, 11, 31, 132, 21, 8, 4, 3, 2, 2, 2, 1, 1, 1, 1, 1, 1, 1, 1, 1, 1, 1, 1, 1, 1, 1,
        1, 1, 1, 1, 1, 1, 1, 1, 1, 1, 1, 1, 1, 1,
    ];
    assert_eq!(pdf.iter().sum::<u32>(), 256);
    assert_eq!(GAIN_DELTA_ICDF.len(), pdf.len());
    assert_eq!(*GAIN_DELTA_ICDF.last().unwrap(), 0);
    for w in GAIN_DELTA_ICDF.windows(2) {
        assert!(w[0] >= w[1]);
    }
}

#[test]
fn gain_delta_first_cell_matches_pdf() {
    assert_eq!(GAIN_DELTA_ICDF[0], 250);
    assert_eq!(GAIN_DELTA_ICDF[3], 203);
    assert_eq!(GAIN_DELTA_ICDF[4], 71);
}

#[test]
fn clamp_independent_with_no_previous_returns_raw_index() {
    let buf = [0x55u8, 0xAA, 0x33, 0xCC, 0x7F, 0x80, 0x12, 0x34];
    let mut rd1 = RangeDecoder::new(&buf);
    let mut rd2 = RangeDecoder::new(&buf);

    let msb = rd1.decode_icdf(&GAIN_MSB_ICDF_INACTIVE, 8) as u8;
    let lsb = rd1.decode_icdf(&GAIN_LSB_ICDF, 8) as u8;
    let expected_gain = (msb << 3) | (lsb & 0x07);

    let got = SubframeGains::decode_independent(&mut rd2, SignalType::Inactive, None);
    assert_eq!(got, expected_gain);
    assert!(got < 64);
}

#[test]
fn clamp_independent_with_low_previous_keeps_raw_index() {
    let buf = [0x42u8, 0x18, 0xC3, 0x7F, 0x55, 0xAA, 0x33, 0xCC];
    let mut rd1 = RangeDecoder::new(&buf);
    let mut rd2 = RangeDecoder::new(&buf);

    let msb = rd1.decode_icdf(&GAIN_MSB_ICDF_VOICED, 8) as u8;
    let lsb = rd1.decode_icdf(&GAIN_LSB_ICDF, 8) as u8;
    let raw = (msb << 3) | (lsb & 0x07);

    let got = SubframeGains::decode_independent(&mut rd2, SignalType::Voiced, Some(0));
    assert_eq!(got, raw);
}

#[test]
fn clamp_independent_with_high_previous_raises_index() {
    let buf = [0x00u8, 0x00, 0x00, 0x00, 0x00, 0x00, 0x00, 0x00];
    let mut rd = RangeDecoder::new(&buf);
    let got = SubframeGains::decode_independent(&mut rd, SignalType::Inactive, Some(60));
    assert!(got >= 44, "got={got}");
    assert!(got <= 63, "got={got}");
}

#[test]
fn independent_gain_stays_in_range() {
    let buf = [0x00u8; 8];
    for (previous, least) in [(255u8, 63u8), (80, 63), (79, 63), (63, 47)] {
        let mut rd = RangeDecoder::new(&buf);
        let got = SubframeGains::decode_independent(&mut rd, SignalType::Inactive, Some(previous));
        assert!(got >= least && got <= 63, "previous={previous}, got={got}");
    }
}

#[test]
fn clamp_independent_previous_saturates_at_zero() {
    let buf = [0x55u8, 0xAA, 0x33, 0xCC, 0x7F, 0x80];
    let mut rd1 = RangeDecoder::new(&buf);
    let mut rd2 = RangeDecoder::new(&buf);

    let msb = rd1.decode_icdf(&GAIN_MSB_ICDF_UNVOICED, 8) as u8;
    let lsb = rd1.decode_icdf(&GAIN_LSB_ICDF, 8) as u8;
    let raw = (msb << 3) | (lsb & 0x07);

    let got = SubframeGains::decode_independent(&mut rd2, SignalType::Unvoiced, Some(15));
    assert_eq!(got, raw);
}

#[test]
fn delta_path_clamps_to_0_63() {
    let buf = [0x77u8, 0x33, 0x11, 0xAA, 0xDE, 0xAD, 0xBE, 0xEF, 0x55];
    for prev in [0u8, 1, 10, 31, 32, 50, 60, 63] {
        let mut rd = RangeDecoder::new(&buf);
        let g = SubframeGains::decode_delta(&mut rd, prev);
        assert!(g <= 63, "prev={prev}, g={g}");
    }
}

#[test]
fn delta_path_formula_consistency() {
    let buf = [0x12u8, 0x34, 0x56, 0x78, 0x9A, 0xBC, 0xDE, 0xF0];
    let mut rd1 = RangeDecoder::new(&buf);
    let mut rd2 = RangeDecoder::new(&buf);

    let delta = rd1.decode_icdf(&GAIN_DELTA_ICDF, 8) as i32;
    let prev = 30u8;
    let expected = {
        let a = 2 * delta - 16;
        let b = prev as i32 + delta - 4;
        a.max(b).clamp(0, 63) as u8
    };

    let got = SubframeGains::decode_delta(&mut rd2, prev);
    assert_eq!(got, expected, "delta={delta}");
}

fn fresh_buf() -> [u8; 24] {
    [
        0xC3, 0x18, 0x42, 0x7F, 0x55, 0xAA, 0x33, 0xCC, 0x77, 0x33, 0x11, 0xAA, 0xDE, 0xAD,
        0xBE, 0xEF, 0x10, 0x32, 0x54, 0x76, 0x98, 0xBA, 0xDC, 0xFE,
    ]
}

#[test]
fn full_decode_inactive_four_subframes_first_independent() {
    let buf = fresh_buf();
    let mut rd = RangeDecoder::new(&buf);
    let cfg = SubframeGainsConfig {
        signal_type: SignalType::Inactive,
        num_subframes: 4,
        first_subframe_is_independent: true,
        previous_log_gain: None,
    };
    let gains = SubframeGains::decode(&mut rd, cfg).expect("decode must succeed");
    assert_eq!(gains.len(), 4);
    for g in gains.as_slice() {
        assert!(g.log_gain <= 63);
    }
    assert!(gains.as_slice()[0].log_gain <= 63);
}

#[test]
fn full_decode_unvoiced_two_subframes_first_delta() {
    let buf = fresh_buf();
    let mut rd = RangeDecoder::new(&buf);
    let cfg = SubframeGainsConfig {
        signal_type: SignalType::Unvoiced,
        num_subframes: 2,
        first_subframe_is_independent: false,
        previous_log_gain: Some(40),
    };
    let gains = SubframeGains::decode(&mut rd, cfg).expect("decode must succeed");
    assert_eq!(gains.len(), 2);
    for g in gains.as_slice() {
        assert!(g.log_gain <= 63);
    }
}

#[test]
fn full_decode_voiced_four_subframes_first_independent_with_prev() {
    let buf = fresh_buf();
    let mut rd = RangeDecoder::new(&buf);
    let cfg = SubframeGainsConfig {
        signal_type: SignalType::Voiced,
        num_subframes: 4,
        first_subframe_is_independent: true,
        previous_log_gain: Some(50),
    };
    let gains = SubframeGains::decode(&mut rd, cfg).expect("decode must succeed");
    assert_eq!(gains.len(), 4);
    assert!(
        gains.as_slice()[0].log_gain >= 34,
        "first gain={}",
        gains.as_slice()[0].log_gain
    );
    for g in gains.as_slice() {
        assert!(g.log_gain <= 63);
    }
}

#[test]
fn full_decode_first_delta_without_prev_is_rejected() {
    let buf = fresh_buf();
    let mut rd = RangeDecoder::new(&buf);
    let cfg = SubframeGainsConfig {
        signal_type: SignalType::Voiced,
        num_subframes: 4,
        first_subframe_is_independent: false,
        previous_log_gain: None,
    };
    let err = SubframeGains::decode(&mut rd, cfg).unwrap_err();
    assert_eq!(err, SilkError::MalformedPacket);
}

#[test]
fn full_decode_invalid_subframe_count_is_rejected() {
    let buf = fresh_buf();
    for bad in [0u8, 1, 3, 5, 8, 255] {
        let mut rd = RangeDecoder::new(&buf);
        let cfg = SubframeGainsConfig {
            signal_type: SignalType::Voiced,
            num_subframes: bad,
            first_subframe_is_independent: true,
            previous_log_gain: None,
        };
        let err = SubframeGains::decode(&mut rd, cfg).unwrap_err();
        assert_eq!(err, SilkError::MalformedPacket, "bad num_subframes={bad}");
    }
}

#[test]
fn last_log_gain_matches_last_subframe() {
    let buf = fresh_buf();
    let mut rd = RangeDecoder::new(&buf);
    let cfg = SubframeGainsConfig {
        signal_type: SignalType::Voiced,
        num_subframes: 4,
        first_subframe_is_independent: true,
        previous_log_gain: None,
    };
    let gains = SubframeGains::decode(&mut rd, cfg).expect("decode must succeed");
    assert_eq!(gains.last_log_gain(), gains.as_slice()[3].log_gain);
}

#[test]
fn delta_after_independent_chain_consistency() {
    let buf = fresh_buf();

    let mut rd_manual = RangeDecoder::new(&buf);
    let msb = rd_manual.decode_icdf(&GAIN_MSB_ICDF_VOICED, 8) as u8;
    let lsb = rd_manual.decode_icdf(&GAIN_LSB_ICDF, 8) as u8;
    let g0 = (msb << 3) | (lsb & 0x07);
    let mut prev = g0;
    let mut chain = [g0, 0, 0, 0];
    for slot in &mut chain[1..] {
        let delta = rd_manual.decode_icdf(&GAIN_DELTA_ICDF, 8) as i32;
        let a = 2 * delta - 16;
        let b = prev as i32 + delta - 4;
        let g = a.max(b).clamp(0, 63) as u8;
        *slot = g;
        prev = g;
    }

    let mut rd = RangeDecoder::new(&buf);
    let cfg = SubframeGainsConfig {
        signal_type: SignalType::Voiced,
        num_subframes: 4,
        first_subframe_is_independent: true,
        previous_log_gain: None,
    };
    let gains = SubframeGains::decode(&mut rd, cfg).expect("decode must succeed");
    for (k, expected) in chain.iter().enumerate() {
        assert_eq!(
            gains.as_slice()[k].log_gain,
            *expected,
            "subframe {} mismatch: got {}, expected {}",
            k,
            gains.as_slice()[k].log_gain,
            *expected
        );
    }
}

#[test]
fn signal_type_routes_to_correct_icdf() {
    assert_eq!(
        SubframeGains::icdf_for_signal_type(SignalType::Inactive),
        &GAIN_MSB_ICDF_INACTIVE
    );
    assert_eq!(
        SubframeGains::icdf_for_signal_type(SignalType::Unvoiced),
        &GAIN_MSB_ICDF_UNVOICED
    );
    assert_eq!(
        SubframeGains::icdf_for_signal_type(SignalType::Voiced),
        &GAIN_MSB_ICDF_VOICED
    );
}

#[test]
fn decoder_in_error_is_refused_after_the_first_gain() {
    let bytes = [0xFFu8; 32];
    for (independent, symbols) in [(true, 2usize), (false, 1)] {
        let cfg = SubframeGainsConfig {
            signal_type: SignalType::Voiced,
            num_subframes: 4,
            first_subframe_is_independent: independent,
            previous_log_gain: Some(20),
        };
        let mut rd = RangeDecoder::new(&bytes);
        rd.decode_uint(65_537);
        assert!(rd.error());
        let mut twin = RangeDecoder::new(&bytes);
        twin.decode_uint(65_537);
        assert_eq!(SubframeGains::decode(&mut rd, cfg), Err(SilkError::MalformedPacket));
        if symbols == 2 {
            twin.decode_icdf(&GAIN_MSB_ICDF_VOICED, 8);
            twin.decode_icdf(&GAIN_LSB_ICDF, 8);
        } else {
            twin.decode_icdf(&GAIN_DELTA_ICDF, 8);
        }
        assert_eq!(rd.tell_frac(), twin.tell_frac());

        let mut good = RangeDecoder::new(&bytes);
        assert!(!good.error());
        assert!(SubframeGains::decode(&mut good, cfg).is_ok());
        assert!(!good.error());
    }
}
