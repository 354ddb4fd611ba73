//! Rates, delays and the geometry of upsampling.
use silk_codec::history::shift_ltp_history;
use silk_codec::silk_resampler::{
    is_supported_output_rate, silk_frame_samples_at_output, silk_frame_samples_internal,
    silk_internal_rate_hz, silk_resampler_delay_samples_at, silk_resampler_delay_us,
    SilkChannelPath, SilkUpsampler, REFERENCE_RATE_HZ, SUPPORTED_OUTPUT_RATES_HZ,
};
use silk_codec::toc::Bandwidth;

fn silk_resampler_delay_ms(bw: Bandwidth) -> Option<f64> {
    silk_resampler_delay_us(bw).map(|us| us as f64 / 1000.0)
}

#[test]
fn table54_delay_ms_matches_rfc_for_nb_mb_wb() {
    assert_eq!(silk_resampler_delay_ms(Bandwidth::Nb), Some(0.538));
    assert_eq!(silk_resampler_delay_ms(Bandwidth::Mb), Some(0.692));
    assert_eq!(silk_resampler_delay_ms(Bandwidth::Wb), Some(0.706));
}

#[test]
fn table54_excludes_swb_and_fb() {
    assert_eq!(silk_resampler_delay_ms(Bandwidth::Swb), None);
    assert_eq!(silk_resampler_delay_ms(Bandwidth::Fb), None);
}

#[test]
fn delay_table_is_strictly_increasing_nb_lt_mb_lt_wb() {
    let nb = silk_resampler_delay_ms(Bandwidth::Nb).unwrap();
    let mb = silk_resampler_delay_ms(Bandwidth::Mb).unwrap();
    let wb = silk_resampler_delay_ms(Bandwidth::Wb).unwrap();
    assert!(nb < mb, "NB ({nb}) should be < MB ({mb})");
    assert!(mb < wb, "MB ({mb}) should be < WB ({wb})");
}

#[test]
fn delay_samples_at_48khz_matches_table54_reference() {
    assert_eq!(
        silk_resampler_delay_samples_at(Bandwidth::Nb, 48_000),
        Some(26)
    );
    assert_eq!(
        silk_resampler_delay_samples_at(Bandwidth::Mb, 48_000),
        Some(33)
    );
    assert_eq!(
        silk_resampler_delay_samples_at(Bandwidth::Wb, 48_000),
        Some(34)
    );
}

#[test]
fn delay_samples_at_internal_rate_makes_sense() {
    assert_eq!(
        silk_resampler_delay_samples_at(Bandwidth::Nb, 8_000),
        Some(4)
    );
    assert_eq!(
        silk_resampler_delay_samples_at(Bandwidth::Mb, 12_000),
        Some(8)
    );
    assert_eq!(
        silk_resampler_delay_samples_at(Bandwidth::Wb, 16_000),
        Some(11)
    );
}

#[test]
fn delay_samples_at_24khz_intermediate_rate() {
    assert_eq!(
        silk_resampler_delay_samples_at(Bandwidth::Nb, 24_000),
        Some(13)
    );
    assert_eq!(
        silk_resampler_delay_samples_at(Bandwidth::Mb, 24_000),
        Some(17)
    );
    assert_eq!(
        silk_resampler_delay_samples_at(Bandwidth::Wb, 24_000),
        Some(17)
    );
}

#[test]
fn delay_samples_rejects_swb_fb_and_zero_rate() {
    assert_eq!(
        silk_resampler_delay_samples_at(Bandwidth::Swb, 48_000),
        None
    );
    assert_eq!(silk_resampler_delay_samples_at(Bandwidth::Fb, 48_000), None);
    assert_eq!(silk_resampler_delay_samples_at(Bandwidth::Nb, 0), None);
}

#[test]
fn supported_output_rates_are_the_five_spec_rates() {
    assert_eq!(
        SUPPORTED_OUTPUT_RATES_HZ,
        [8_000, 12_000, 16_000, 24_000, 48_000]
    );
    for &r in &SUPPORTED_OUTPUT_RATES_HZ {
        assert!(is_supported_output_rate(r), "rate {r} should be supported");
    }
    for r in [0u32, 11_025, 22_050, 32_000, 44_100, 96_000] {
        assert!(
            !is_supported_output_rate(r),
            "rate {r} should NOT be in the list"
        );
    }
}

#[test]
fn reference_rate_is_48khz() {
    assert_eq!(REFERENCE_RATE_HZ, 48_000);
    assert!(is_supported_output_rate(REFERENCE_RATE_HZ));
}

#[test]
fn internal_silk_rate_per_bandwidth() {
    assert_eq!(silk_internal_rate_hz(Bandwidth::Nb), Some(8_000));
    assert_eq!(silk_internal_rate_hz(Bandwidth::Mb), Some(12_000));
    assert_eq!(silk_internal_rate_hz(Bandwidth::Wb), Some(16_000));
    assert_eq!(silk_internal_rate_hz(Bandwidth::Swb), None);
    assert_eq!(silk_internal_rate_hz(Bandwidth::Fb), None);
}

#[test]
fn internal_silk_rate_is_a_supported_output_rate_for_nb_and_wb() {
    for bw in [Bandwidth::Nb, Bandwidth::Mb, Bandwidth::Wb] {
        let r = silk_internal_rate_hz(bw).unwrap();
        assert!(
            is_supported_output_rate(r),
            "internal SILK rate {r} for {bw:?} should be in the list"
        );
    }
}

#[test]
fn silk_frame_samples_internal_canonical_cases() {
    assert_eq!(silk_frame_samples_internal(Bandwidth::Nb, 100), Some(80));
    assert_eq!(silk_frame_samples_internal(Bandwidth::Nb, 200), Some(160));
    assert_eq!(silk_frame_samples_internal(Bandwidth::Mb, 100), Some(120));
    assert_eq!(silk_frame_samples_internal(Bandwidth::Mb, 200), Some(240));
    assert_eq!(silk_frame_samples_internal(Bandwidth::Wb, 100), Some(160));
    assert_eq!(silk_frame_samples_internal(Bandwidth::Wb, 200), Some(320));
}

#[test]
fn silk_frame_samples_internal_rejects_non_silk_durations() {
    for dur in [0u16, 25, 50, 400, 600, 1234] {
        assert_eq!(
            silk_frame_samples_internal(Bandwidth::Nb, dur),
            None,
            "dur {dur} should be rejected"
        );
        assert_eq!(silk_frame_samples_internal(Bandwidth::Mb, dur), None);
        assert_eq!(silk_frame_samples_internal(Bandwidth::Wb, dur), None);
    }
}

#[test]
fn silk_frame_samples_internal_rejects_swb_and_fb() {
    for bw in [Bandwidth::Swb, Bandwidth::Fb] {
        for dur in [100u16, 200] {
            assert_eq!(
                silk_frame_samples_internal(bw, dur),
                None,
                "{bw:?} {dur} should be rejected"
            );
        }
    }
}

#[test]
fn silk_frame_samples_at_output_48khz_matches_duration() {
    for bw in [Bandwidth::Nb, Bandwidth::Mb, Bandwidth::Wb] {
        assert_eq!(
            silk_frame_samples_at_output(bw, 100, 48_000),
            Some(480),
            "{bw:?} 10 ms"
        );
        assert_eq!(
            silk_frame_samples_at_output(bw, 200, 48_000),
            Some(960),
            "{bw:?} 20 ms"
        );
    }
}

#[test]
fn silk_frame_samples_at_output_matches_internal_when_rate_matches() {
    for bw in [Bandwidth::Nb, Bandwidth::Mb, Bandwidth::Wb] {
        let r = silk_internal_rate_hz(bw).unwrap();
        for dur in [100u16, 200] {
            assert_eq!(
                silk_frame_samples_at_output(bw, dur, r),
                silk_frame_samples_internal(bw, dur),
                "{bw:?} {dur} at {r} Hz"
            );
        }
    }
}

#[test]
fn silk_frame_samples_at_output_rejects_zero_rate_and_non_silk() {
    assert_eq!(silk_frame_samples_at_output(Bandwidth::Nb, 100, 0), None);
    assert_eq!(
        silk_frame_samples_at_output(Bandwidth::Swb, 100, 48_000),
        None
    );
    assert_eq!(
        silk_frame_samples_at_output(Bandwidth::Nb, 25, 48_000),
        None
    );
    assert_eq!(
        silk_frame_samples_at_output(Bandwidth::Nb, 400, 48_000),
        None
    );
}

#[test]
fn upsampler_constructs_for_silk_bandwidths_only() {
    for (bw, factor) in [
        (Bandwidth::Nb, 6usize),
        (Bandwidth::Mb, 4),
        (Bandwidth::Wb, 3),
    ] {
        for path in [SilkChannelPath::Mono, SilkChannelPath::Stereo] {
            let up = SilkUpsampler::new(bw, path).expect("SILK bandwidth must construct");
            assert_eq!(up.factor(), factor, "{bw:?} {path:?}");
            assert_eq!(up.bandwidth(), bw);
            assert_eq!(up.path(), path);
        }
    }
    for path in [SilkChannelPath::Mono, SilkChannelPath::Stereo] {
        assert!(SilkUpsampler::new(Bandwidth::Swb, path).is_none());
        assert!(SilkUpsampler::new(Bandwidth::Fb, path).is_none());
    }
}

#[test]
fn upsampler_design_delays_match_calibrated_totals() {
    for (bw, mono_total, stereo_total) in [
        (Bandwidth::Nb, 36, 30),
        (Bandwidth::Mb, 40, 36),
        (Bandwidth::Wb, 39, 36),
    ] {
        let mono = SilkUpsampler::new(bw, SilkChannelPath::Mono).unwrap();
        let stereo = SilkUpsampler::new(bw, SilkChannelPath::Stereo).unwrap();
        let u = mono.factor();
        assert_eq!(mono.delay_48k() + u, mono_total, "{bw:?} mono total");
        assert_eq!(stereo.delay_48k() + u, stereo_total, "{bw:?} stereo total");
        assert_eq!(mono.delay_48k() - stereo.delay_48k(), u);
    }
}

#[test]
fn upsampler_kernel_halfwidth_respects_causality_cap() {
    for bw in [Bandwidth::Nb, Bandwidth::Mb, Bandwidth::Wb] {
        for path in [SilkChannelPath::Mono, SilkChannelPath::Stereo] {
            let up = SilkUpsampler::new(bw, path).unwrap();
            let cap = ((1.0 + up.delay_48k() as f64) / up.factor() as f64).floor() as usize;
            assert_eq!(up.half_width(), cap, "{bw:?} {path:?}: not {cap}");
            for n in 0..up.factor() {
                let end = up.window_start(n, 1) + 2 * up.half_width();
                assert!(end <= up.history_len() + 1, "{bw:?} {path:?} {n}");
            }
        }
    }
}

#[test]
fn upsampler_window_slides_by_one_input_sample() {
    let up = SilkUpsampler::new(Bandwidth::Nb, SilkChannelPath::Mono).unwrap();
    assert_eq!(up.half_width(), 5);
    assert_eq!(up.history_len(), 9);
    assert_eq!(up.window_start(0, 160), 0);
    assert_eq!(up.window_start(5, 160), 0);
    assert_eq!(up.window_start(6, 160), 1);
    assert_eq!(up.window_start(959, 160), 159);
}

#[test]
fn delay_is_rounded_to_the_nearest_sample() {
    assert_eq!(silk_resampler_delay_samples_at(Bandwidth::Nb, 1), Some(0));
    assert_eq!(silk_resampler_delay_samples_at(Bandwidth::Mb, 375_000), Some(260));
    assert_eq!(silk_resampler_delay_samples_at(Bandwidth::Wb, 1_000_000), Some(706));
}

#[test]
fn delay_is_smaller_than_one_silk_frame_at_every_supported_rate() {
    for &out_rate in &SUPPORTED_OUTPUT_RATES_HZ {
        for bw in [Bandwidth::Nb, Bandwidth::Mb, Bandwidth::Wb] {
            let delay = silk_resampler_delay_samples_at(bw, out_rate).unwrap();
            let one_frame = silk_frame_samples_at_output(bw, 100, out_rate).unwrap();
            assert!(
                (delay as u64) < (one_frame as u64),
                "{bw:?} delay {delay} >= one 10ms SILK frame {one_frame} at {out_rate} Hz"
            );
        }
    }
}

#[test]
fn windows_move_with_the_input() {
    for bw in [Bandwidth::Nb, Bandwidth::Mb, Bandwidth::Wb] {
        for path in [SilkChannelPath::Mono, SilkChannelPath::Stereo] {
            let up = SilkUpsampler::new(bw, path).unwrap();
            let f = up.factor();
            for a in [0usize, 1, 7, 160] {
                for n in 0..5 * f {
                    assert_eq!(up.window_start(n + a * f, a + 5), up.window_start(n, 5) + a);
                    assert_eq!((n + a * f) % f, n % f);
                }
            }
        }
    }
}

fn weighed(up: &SilkUpsampler, kept: &mut Vec<i64>, input: &[i64]) -> Vec<i64> {
    let mut all = kept.clone();
    all.extend_from_slice(input);
    let out = (0..input.len() * up.factor())
        .map(|n| {
            let start = up.window_start(n, input.len());
            let window = &all[start..start + 2 * up.half_width()];
            let phase = (n % up.factor()) as i64;
            window.iter().enumerate().map(|(i, x)| x * (3 * i as i64 + 7 * phase + 1)).sum()
        })
        .collect();
    shift_ltp_history(kept, input);
    out
}

#[test]
fn upsampling_in_parts_is_upsampling_at_once() {
    let input: Vec<i64> = (0..200).map(|i| (i * 7919) % 1009 - 500).collect();
    for bw in [Bandwidth::Nb, Bandwidth::Mb, Bandwidth::Wb] {
        for path in [SilkChannelPath::Mono, SilkChannelPath::Stereo] {
            let up = SilkUpsampler::new(bw, path).unwrap();
            for split in [0usize, 1, 5, 80, 199, 200] {
                let mut once = vec![0i64; up.history_len()];
                let mut twice = once.clone();
                let whole = weighed(&up, &mut once, &input);
                let mut parts = weighed(&up, &mut twice, &input[..split]);
                parts.extend(weighed(&up, &mut twice, &input[split..]));
                assert_eq!(parts, whole, "{bw:?} {path:?} {split}");
                assert_eq!(once, twice);
            }
        }
    }
}
