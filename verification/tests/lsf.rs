//! Line spectral frequencies: codebooks, weights, stabilisation, coding.
use oxideav_celt::range_decoder::RangeDecoder;
use oxideav_celt::range_encoder::RangeEncoder;
use silk_codec::silk::encoder::synthesize_nlsf_like_decoder;
use silk_codec::silk::lsf::{compute_ihmw_weights, decode_nlsf, isqrt_q9_approx, nlsf_from_indices};
use silk_codec::silk::lsf_lpc::nlsf_to_a32_q17;
use silk_codec::silk::lsf_models::{decode_stage2, encode_nlsf_stage2};
use silk_codec::silk::nlsf_search::{settle_stage1, Stage2Search};
use silk_codec::silk::stabilize::stabilize;
use silk_codec::silk::tables::{
    NLSF_INTERP_ICDF, NLSF_NBMB_CB1_Q8, NLSF_NBMB_MIN_DELTA_Q15, NLSF_NB_STAGE1_UNVOICED_ICDF,
    NLSF_WB_CB1_Q8, NLSF_WB_MIN_DELTA_Q15,
};
use silk_codec::toc::OpusBandwidth;

#[test]
fn nlsf_template_mirrors_decoder() {
    let nlsf = synthesize_nlsf_like_decoder(0, false, 10, &[0; 10]);
    assert_eq!(nlsf.len(), 10);
    for k in 0..10 {
        let expected = (NLSF_NBMB_CB1_Q8[0][k] as i32) << 7;
        assert_eq!(
            nlsf[k] as i32, expected,
            "encoder's NLSF mirror diverges from cb1_Q8 << 7 at k={k}"
        );
    }
    let stable = stabilize(&nlsf, false);
    for w in stable.windows(2) {
        assert!(
            w[1] >= w[0],
            "stabilised NLSF should be non-decreasing ({} -> {})",
            w[0],
            w[1]
        );
    }
}

#[test]
fn ihmw_weights_in_range_nbmb_i1_0() {
    let cb1: Vec<i32> = NLSF_NBMB_CB1_Q8[0].iter().map(|&v| v as i32).collect();
    let w = compute_ihmw_weights(&cb1);
    for (i, &wi) in w.iter().enumerate() {
        assert!(
            (1819..=5227).contains(&wi),
            "NB/MB I1=0 IHMW w[{i}] = {wi} outside [1819,5227]"
        );
    }
}

#[test]
fn ihmw_weights_in_range_wb_i1_0() {
    let cb1: Vec<i32> = NLSF_WB_CB1_Q8[0].iter().map(|&v| v as i32).collect();
    let w = compute_ihmw_weights(&cb1);
    for (i, &wi) in w.iter().enumerate() {
        assert!(
            (1819..=5227).contains(&wi),
            "WB I1=0 IHMW w[{i}] = {wi} outside [1819,5227]"
        );
    }
}

#[test]
fn stabilize_monotone_and_min_spacing_nbmb() {
    let broken = vec![0i16; 10];
    let fixed = stabilize(&broken, false);
    assert_eq!(fixed.len(), 10);
    let mut prev: i32 = 0;
    for (k, &v) in fixed.iter().enumerate() {
        assert!(v >= 1, "k={k} v={v}");
        assert!(
            (v as i32) - prev >= NLSF_NBMB_MIN_DELTA_Q15[k] as i32,
            "k={k} v={v} prev={prev}"
        );
        prev = v as i32;
    }
    assert!(32768 - prev >= NLSF_NBMB_MIN_DELTA_Q15[10] as i32);
}

#[test]
fn stabilize_monotone_and_min_spacing_wb() {
    let broken = vec![0i16; 16];
    let fixed = stabilize(&broken, true);
    assert_eq!(fixed.len(), 16);
    let mut prev: i32 = 0;
    for (k, &v) in fixed.iter().enumerate() {
        assert!(v >= 1, "k={k} v={v}");
        assert!(
            (v as i32) - prev >= NLSF_WB_MIN_DELTA_Q15[k] as i32,
            "k={k} v={v} prev={prev}"
        );
        prev = v as i32;
    }
    assert!(32768 - prev >= NLSF_WB_MIN_DELTA_Q15[16] as i32);
}

#[test]
fn nlsf_to_lpc_lengths() {
    let nb = vec![
        3000i16, 6000, 9000, 12000, 15000, 18000, 21000, 24000, 27000, 30000,
    ];
    assert_eq!(nlsf_to_a32_q17(&nb).len(), 10);
    let wb: Vec<i16> = (1..=16).map(|k| (k * 2000) as i16).collect();
    assert_eq!(nlsf_to_a32_q17(&wb).len(), 16);
}

#[test]
fn evenly_spread_frequencies_give_a_nearly_flat_filter() {
    let flat: Vec<i16> = (1..=10).map(|k| (32768 * k / 11) as i16).collect();
    for a in nlsf_to_a32_q17(&flat) {
        assert!(a.abs() < 131_072 / 50, "{a}");
    }
}

#[test]
fn roots_of_weights() {
    assert_eq!(isqrt_q9_approx(1 << 18), 512);
    assert_eq!(isqrt_q9_approx(4 << 18), 1024);
}

#[test]
fn spread_frequencies_are_left_alone() {
    let nlsf: Vec<i16> = (1..=10).map(|k| (k * 2900) as i16).collect();
    assert_eq!(stabilize(&nlsf, false), nlsf);
    let once = stabilize(&[30000i16, 20000, 10000, 5000, 4000, 3000, 2000, 1000, 500, 1], false);
    assert_eq!(stabilize(&once, false), once);
}

#[test]
fn residuals_read_back() {
    for is_wb in [false, true] {
        let order = if is_wb { 16 } else { 10 };
        for i1 in 0..32usize {
            let res: Vec<i32> = (0..order).map(|k| (k as i32 * 7 + i1 as i32) % 21 - 10).collect();
            let mut enc = RangeEncoder::new(128);
            encode_nlsf_stage2(&mut enc, i1, &res, is_wb);
            let buf = enc.done().unwrap();
            let mut dec = RangeDecoder::new(&buf);
            assert_eq!(decode_stage2(&mut dec, is_wb, i1), res);
        }
    }
}

#[test]
fn wide_residuals_are_sent_as_ten() {
    let res = [99i32, -99, 0, 10, -10, 11, -11, 4, -4, 5];
    let mut enc = RangeEncoder::new(64);
    encode_nlsf_stage2(&mut enc, 3, &res, false);
    let buf = enc.done().unwrap();
    let mut dec = RangeDecoder::new(&buf);
    assert_eq!(
        decode_stage2(&mut dec, false, 3),
        vec![10, -10, 0, 10, -10, 10, -10, 4, -4, 5]
    );
}

#[test]
fn frequencies_read_back() {
    let res = [1i32, -2, 3, 0, 0, -5, 7, 0, 2, -1];
    let mut enc = RangeEncoder::new(64);
    enc.encode_icdf(17, &NLSF_NB_STAGE1_UNVOICED_ICDF, 8);
    encode_nlsf_stage2(&mut enc, 17, &res, false);
    enc.encode_icdf(2, &NLSF_INTERP_ICDF, 8);
    let buf = enc.done().unwrap();
    let mut dec = RangeDecoder::new(&buf);
    let (nlsf, interp) = decode_nlsf(&mut dec, OpusBandwidth::Narrowband, 1, true).unwrap();
    assert_eq!(nlsf, nlsf_from_indices(false, 17, &res.to_vec()));
    let mirrored = synthesize_nlsf_like_decoder(17, false, 10, &res);
    assert_eq!(nlsf, stabilize(&mirrored, false));
    assert_eq!(interp, 2);
    let mut dec = RangeDecoder::new(&buf);
    let (short, interp) = decode_nlsf(&mut dec, OpusBandwidth::Narrowband, 1, false).unwrap();
    assert_eq!(short, nlsf);
    assert_eq!(interp, 4);
}

#[test]
fn frequencies_are_limited_from_below_as_when_read() {
    let res = [-10i32, 0, 0, 0, 0, 0, 0, 0, 0, 0];
    let mirrored = synthesize_nlsf_like_decoder(0, false, 10, &res);
    assert_eq!(mirrored[0], 0);
    assert_eq!(stabilize(&mirrored, false), nlsf_from_indices(false, 0, &res.to_vec()));
    let mut longer = res.to_vec();
    longer.extend([7, 7, 7]);
    assert_eq!(synthesize_nlsf_like_decoder(0, false, 10, &longer), mirrored);
}

#[test]
fn stage1_index_is_held() {
    assert_eq!(settle_stage1(9, Some(4), false, true), 4);
    assert_eq!(settle_stage1(9, Some(4), true, false), 9);
    assert_eq!(settle_stage1(4, Some(4), false, false), 4);
    assert_eq!(settle_stage1(9, None, true, false), 0);
    assert_eq!(settle_stage1(9, None, false, true), 9);
    assert_eq!(settle_stage1(9, Some(32), true, false), 0);
}

#[test]
fn descent_finds_a_target_within_reach() {
    let target = [3i32, -4, 0, 2, 1, -1, 4, 0, 0, -2];
    let gap = |r: &[i32]| -> i32 { r.iter().zip(target.iter()).map(|(a, b)| (a - b).abs()).sum() };
    let mut search = Stage2Search::new(10);
    let mut best = gap(&[0; 10]);
    let mut trials = 0;
    while let Some(r) = search.candidate() {
        let g = gap(&r);
        let better = g < best;
        if better {
            best = g;
        }
        search.answer(better);
        trials += 1;
    }
    assert_eq!(trials, 2 * 10 * 8);
    assert_eq!(search.finish(true), target.to_vec());
    assert_eq!(search.finish(false), vec![0; 10]);
}
