//! Shell coding of the excitation.
use oxideav_celt::range_decoder::RangeDecoder;
use oxideav_celt::range_encoder::RangeEncoder;
use silk_codec::silk::dither::{lcg_pre_flip, lcg_step_q23, reconstruct_q23};
use silk_codec::silk::excitation;
use silk_codec::silk::excitation::MAG_NIBBLE_ICDF;
use silk_codec::silk::shell::{
    decode_excitation, decode_pulses, encode_excitation, quantize_to_shell,
};
use silk_codec::silk::tables::{PULSE_COUNT_ICDF, RATE_LEVEL_INACTIVE_ICDF};

fn expected_q23(signed: &[i32], signal_type: u8, quant_offset_type: u8, seed: u32) -> Vec<i32> {
    reconstruct_q23(signed, signal_type, quant_offset_type, seed)
}

fn check_q23(out: &[i32], want: &[i32]) {
    assert_eq!(out.len(), want.len());
    for (i, (g, w)) in out.iter().zip(want.iter()).enumerate() {
        let apart = (*g as f64 - *w as f64) / 8_388_608.0;
        assert!(apart.abs() < 1e-9, "mismatch at {i}: got {g} want {w}");
    }
}

#[test]
fn magnitude_nibble_roundtrip() {
    for v in 0..16 {
        let mut enc = RangeEncoder::new(8);
        enc.encode_icdf(v, &MAG_NIBBLE_ICDF, 8);
        let buf = enc.done().unwrap();
        let mut dec = RangeDecoder::new(&buf);
        let got = dec.decode_icdf(&MAG_NIBBLE_ICDF, 8);
        assert_eq!(got, v);
    }
}

#[test]
fn roundtrip_zero_excitation() {
    let n = 160;
    let sm = vec![0i32; n];
    let mut enc = RangeEncoder::new(128);
    encode_excitation(&mut enc, &sm, 1, 0);
    let buf = enc.done().unwrap();
    let mut dec = RangeDecoder::new(&buf);
    let out = decode_excitation(&mut dec, n, 1, 0, 0);
    check_q23(&out, &expected_q23(&sm, 1, 0, 0));
}

#[test]
fn roundtrip_single_pulse_block() {
    let mut sm = vec![0i32; 16];
    sm[5] = 1;
    let mut enc = RangeEncoder::new(64);
    encode_excitation(&mut enc, &sm, 1, 0);
    let buf = enc.done().unwrap();
    let mut dec = RangeDecoder::new(&buf);
    let out = decode_excitation(&mut dec, 16, 1, 0, 0);
    check_q23(&out, &expected_q23(&sm, 1, 0, 0));
}

#[test]
fn roundtrip_high_magnitude_block_uses_lsbs() {
    let sm: Vec<i32> = (0..16)
        .map(|i| if i % 2 == 0 { 100 } else { -80 })
        .collect();
    let mut enc = RangeEncoder::new(256);
    encode_excitation(&mut enc, &sm, 1, 0);
    let buf = enc.done().unwrap();
    let mut dec = RangeDecoder::new(&buf);
    let out = decode_excitation(&mut dec, 16, 1, 0, 0);
    let recon = quantize_to_shell(&sm);
    check_q23(&out, &expected_q23(&recon, 1, 0, 0));
}

#[test]
fn quantize_to_shell_is_stable_at_saturation() {
    let sm: Vec<i32> = vec![120; 16];
    let mut enc = RangeEncoder::new(256);
    encode_excitation(&mut enc, &sm, 1, 0);
    let buf = enc.done().unwrap();
    let mut dec = RangeDecoder::new(&buf);
    let out = decode_excitation(&mut dec, 16, 1, 0, 0);
    let recon = quantize_to_shell(&sm);
    check_q23(&out, &expected_q23(&recon, 1, 0, 0));
}

#[test]
fn roundtrip_varied_magnitudes() {
    let sm: Vec<i32> = vec![
        0, 1, -2, 3, -4, 5, -8, 16, -32, 12, 0, 7, -6, 11, -1, 2, //
        20, -45, 60, 0, 0, 0, -3, 5, 15, -12, 7, -8, 9, 0, 1, -1,
    ];
    let mut enc = RangeEncoder::new(128);
    encode_excitation(&mut enc, &sm, 2, 1);
    let buf = enc.done().unwrap();
    let mut dec = RangeDecoder::new(&buf);
    let out = decode_excitation(&mut dec, sm.len(), 2, 1, 0);
    check_q23(&out, &expected_q23(&sm, 2, 1, 0));
}

#[test]
fn lcg_dither_changes_seed_changes_output() {
    let mut sm = vec![0i32; 16];
    sm[3] = 5;
    sm[10] = -2;
    let mut enc = RangeEncoder::new(64);
    encode_excitation(&mut enc, &sm, 1, 0);
    let buf = enc.done().unwrap();
    let mut dec_a = RangeDecoder::new(&buf);
    let out_a = decode_excitation(&mut dec_a, 16, 1, 0, 0);
    let mut dec_b = RangeDecoder::new(&buf);
    let out_b = decode_excitation(&mut dec_b, 16, 1, 0, 3);
    assert_ne!(
        out_a, out_b,
        "seed = 0 and seed = 3 produced identical excitation"
    );
}

#[test]
fn shell_coder_saves_bits_vs_per_sample_nibble() {
    let n = 160;
    let mut sm = vec![0i32; n];
    sm[3] = 2;
    sm[50] = -5;
    sm[80] = 3;
    sm[130] = 1;

    let mut enc_shell = RangeEncoder::new(2048);
    encode_excitation(&mut enc_shell, &sm, 1, 0);
    let shell_bits = enc_shell.tell();

    let mut enc_plain = RangeEncoder::new(2048);
    enc_plain.encode_icdf(0, &RATE_LEVEL_INACTIVE_ICDF, 8);
    let n_shells = n / 16;
    for _ in 0..n_shells {
        enc_plain.encode_icdf(0, &PULSE_COUNT_ICDF[0], 8);
    }
    for &v in &sm {
        let mag = v.unsigned_abs() as i32;
        let hi = ((mag >> 4) & 0xf) as usize;
        let lo = (mag & 0xf) as usize;
        enc_plain.encode_icdf(hi, &MAG_NIBBLE_ICDF, 8);
        enc_plain.encode_icdf(lo, &MAG_NIBBLE_ICDF, 8);
        if mag != 0 {
            enc_plain.encode_bit_logp(v < 0, 1);
        }
    }
    let plain_bits = enc_plain.tell();

    assert!(
        shell_bits < plain_bits,
        "shell coder did not save bits: shell={shell_bits} plain={plain_bits}"
    );
}

#[test]
fn samples_in_reach_read_back() {
    let mut sm = vec![0i32; 48];
    sm[0] = 17_407;
    sm[16] = -17_407;
    sm[17] = 1;
    for (i, v) in sm.iter_mut().enumerate().skip(32) {
        *v = if i % 2 == 0 { 1 } else { -1 };
    }
    for (signal_type, offset_type) in [(0u8, 0u8), (0, 1), (1, 0), (1, 1), (2, 0), (2, 1)] {
        let mut enc = RangeEncoder::new(512);
        encode_excitation(&mut enc, &sm, signal_type, offset_type);
        let buf = enc.done().unwrap();
        let mut dec = RangeDecoder::new(&buf);
        assert_eq!(decode_pulses(&mut dec, 48, signal_type, offset_type), sm);
    }
}

#[test]
fn samples_out_of_reach_are_cut() {
    let mut sm = vec![0i32; 16];
    sm[4] = 17_408;
    let recon = quantize_to_shell(&sm);
    assert_ne!(recon, sm);
    assert!(recon[4] < 17_408);
    assert_eq!(quantize_to_shell(&recon), recon);
}

#[test]
fn samples_out_of_reach_read_back_as_fitted() {
    let mut one = vec![0i32; 16];
    one[3] = 20_000;
    let many: Vec<i32> = (0..32).map(|i| (i * 7919) % 60_001 - 30_000).collect();
    let most = vec![i32::MIN; 16];
    for sm in [one, many, most] {
        for (signal_type, offset_type) in [(0u8, 0u8), (1, 1), (2, 0)] {
            let mut enc = RangeEncoder::new(1024);
            encode_excitation(&mut enc, &sm, signal_type, offset_type);
            let buf = enc.done().unwrap();
            let mut dec = RangeDecoder::new(&buf);
            let got = decode_pulses(&mut dec, sm.len(), signal_type, offset_type);
            assert_eq!(got, quantize_to_shell(&sm));
        }
    }
}

#[test]
fn fitting_twice_is_fitting_once() {
    let sm: Vec<i32> = (0..64).map(|i| (i * 7919) % 40_001 - 20_000).collect();
    let once = quantize_to_shell(&sm);
    assert_eq!(quantize_to_shell(&once), once);
    assert_eq!(quantize_to_shell(&vec![0i32; 32]), vec![0i32; 32]);
}

#[test]
fn one_step_of_the_generator() {
    let (e, state) = lcg_step_q23(0, 0, 25);
    assert_eq!(e, 25);
    assert_eq!(state, 907_633_515);
    let (e, state) = lcg_step_q23(0, 1, 25);
    assert_eq!(e, 256 - 20 + 25);
    assert_eq!(state, 907_633_516);
    let (e, _) = lcg_step_q23(0, -3, 25);
    assert_eq!(e, -3 * 256 + 20 + 25);
    assert!(!lcg_pre_flip(0));
}

#[test]
fn the_generator_negates_where_its_top_bit_is_set() {
    let mut flipped = 0;
    for state in 0..64u32 {
        let (e, _) = lcg_step_q23(state, 0, 60);
        assert_eq!(e < 0, lcg_pre_flip(state));
        if e < 0 {
            assert_eq!(e, -60);
            flipped += 1;
        } else {
            assert_eq!(e, 60);
        }
    }
    assert!(flipped > 0 && flipped < 64);
}

#[test]
fn frame_excitation_is_cut_to_the_frame() {
    let mut sm = vec![0i32; 128];
    sm[7] = 3;
    sm[119] = -2;
    let mut enc = RangeEncoder::new(256);
    encode_excitation(&mut enc, &sm, 1, 0);
    let buf = enc.done().unwrap();
    let mut dec = RangeDecoder::new(&buf);
    let out = excitation::decode_excitation(&mut dec, 120, 60, 1, 0, 2).unwrap();
    assert_eq!(out.as_slice(), &expected_q23(&sm, 1, 0, 2)[..120]);
}

#[test]
fn saturated_block_keeps_sixteen_pulses_signs_and_low_bits() {
    let mut sm: Vec<i32> = (0..48).map(|i| (i * 7919) % 60_001 - 30_000).collect();
    sm[16..32].copy_from_slice(&[0, 3, -2, 1, 0, 0, 5, -1, 0, 0, 0, 2, 0, 0, 1, -1]);
    let out = quantize_to_shell(&sm);
    for s in [0usize, 2] {
        let (b, q) = (&sm[16 * s..16 * s + 16], &out[16 * s..16 * s + 16]);
        assert!(b.iter().map(|m| m.abs() >> 10).sum::<i32>() > 16);
        assert_eq!(q.iter().map(|m| m.abs() >> 10).sum::<i32>(), 16);
        for (m, o) in b.iter().zip(q) {
            assert!(o.abs() <= m.abs());
            assert_eq!(o.abs() % 1024, m.abs() % 1024);
            assert!(*o == 0 || (*o < 0) == (*m < 0));
        }
        assert_eq!(quantize_to_shell(b), q);
    }
    assert_eq!(out[16..32], sm[16..32]);
    assert_eq!(quantize_to_shell(&out), out);

    let most = quantize_to_shell(&[17_500i32; 16]);
    assert_eq!(most.iter().map(|m| m >> 10).sum::<i32>(), 16);
    assert!(most.iter().all(|m| m % 1024 == 17_500 % 1024));
}
