//! Line spectral frequencies to filter coefficients.
use oxideav_celt::range_decoder::RangeDecoder;
use silk_codec::arith::wrap_i32;
use silk_codec::lpc_poly::find_poly;
use silk_codec::silk::lsf::nlsf_from_indices;
use silk_codec::silk::lsf_models::decode_stage2;
use silk_codec::silk_lsf_to_lpc::{
    nlsf_to_c_q17, ordering, LpcQ17, COS_Q12, D_LPC_NB_MB, D_LPC_WB, ORDERING_NB_MB, ORDERING_WB,
};
use silk_codec::toc::Bandwidth;

#[test]
fn table27_nbmb_is_permutation_of_0_to_9() {
    let mut sorted = ORDERING_NB_MB.to_vec();
    sorted.sort_unstable();
    assert_eq!(sorted, (0u8..10).collect::<Vec<_>>());
}

#[test]
fn table27_wb_is_permutation_of_0_to_15() {
    let mut sorted = ORDERING_WB.to_vec();
    sorted.sort_unstable();
    assert_eq!(sorted, (0u8..16).collect::<Vec<_>>());
}

#[test]
fn table27_row_widths_match_d_lpc() {
    assert_eq!(ORDERING_NB_MB.len(), D_LPC_NB_MB);
    assert_eq!(ORDERING_WB.len(), D_LPC_WB);
}

#[test]
fn table27_ordering_helper_routes_per_bandwidth() {
    assert_eq!(ordering(Bandwidth::Nb).unwrap(), &ORDERING_NB_MB);
    assert_eq!(ordering(Bandwidth::Mb).unwrap(), &ORDERING_NB_MB);
    assert_eq!(ordering(Bandwidth::Wb).unwrap(), &ORDERING_WB);
    assert!(ordering(Bandwidth::Swb).is_err());
    assert!(ordering(Bandwidth::Fb).is_err());
}

#[test]
fn table27_first_row_spot_checks() {
    assert_eq!(ORDERING_NB_MB[0], 0);
    assert_eq!(ORDERING_NB_MB[1], 9);
    assert_eq!(ORDERING_NB_MB[5], 5);
    assert_eq!(ORDERING_NB_MB[9], 7);

    assert_eq!(ORDERING_WB[0], 0);
    assert_eq!(ORDERING_WB[1], 15);
    assert_eq!(ORDERING_WB[8], 2);
    assert_eq!(ORDERING_WB[15], 1);
}

#[test]
fn table28_has_129_entries() {
    assert_eq!(COS_Q12.len(), 129);
}

#[test]
fn table28_anchor_values() {
    assert_eq!(COS_Q12[0], 4096);
    assert_eq!(COS_Q12[64], 0);
    assert_eq!(COS_Q12[128], -4096);
}

#[test]
fn table28_anti_symmetric_about_64() {
    for i in 0..=128 {
        assert_eq!(
            COS_Q12[128 - i],
            -COS_Q12[i],
            "table 28 anti-symmetry broken at i = {i}: {} vs -{}",
            COS_Q12[128 - i],
            COS_Q12[i]
        );
    }
}

#[test]
fn table28_strictly_decreasing() {
    for i in 0..128 {
        assert!(
            COS_Q12[i] > COS_Q12[i + 1],
            "table 28 not strictly decreasing at i = {i}: {} -> {}",
            COS_Q12[i],
            COS_Q12[i + 1]
        );
    }
}

#[test]
fn table28_in_q12_range() {
    for (i, &v) in COS_Q12.iter().enumerate() {
        assert!(
            (-4096..=4096).contains(&v),
            "table 28 cell {i} = {v} outside Q12 range"
        );
    }
}

#[test]
fn table28_spot_checks() {
    assert_eq!(COS_Q12[0..4], [4096, 4095, 4091, 4085]);
    assert_eq!(COS_Q12[16..20], [3784, 3745, 3703, 3659]);
    assert_eq!(COS_Q12[60..64], [401, 301, 201, 101]);
    assert_eq!(COS_Q12[64..68], [0, -101, -201, -301]);
    assert_eq!(COS_Q12[124..128], [-4076, -4085, -4091, -4095]);
}

#[test]
fn cos_lookup_at_table_anchor_points_matches_table_entries() {
    let mut nlsf = vec![0i16; D_LPC_NB_MB];
    for (k, slot) in nlsf.iter_mut().enumerate() {
        *slot = ((8 * k as i32) << 8) as i16;
    }
    let c = nlsf_to_c_q17(Bandwidth::Nb, &nlsf).unwrap();
    for (k, &dest) in ORDERING_NB_MB.iter().enumerate() {
        let i = 8 * k;
        let expected = (COS_Q12[i] * 256 + 4) >> 3;
        assert_eq!(c[dest as usize], expected, "anchor mismatch at k = {k}");
    }
}

#[test]
fn cos_lookup_rejects_swb_fb() {
    let nlsf = vec![0i16; D_LPC_NB_MB];
    assert!(nlsf_to_c_q17(Bandwidth::Swb, &nlsf).is_err());
    assert!(nlsf_to_c_q17(Bandwidth::Fb, &nlsf).is_err());
}

#[test]
fn cos_lookup_rejects_length_mismatch() {
    let nlsf = vec![0i16; 16];
    assert!(nlsf_to_c_q17(Bandwidth::Nb, &nlsf).is_err());
    let nlsf = vec![0i16; 10];
    assert!(nlsf_to_c_q17(Bandwidth::Wb, &nlsf).is_err());
}

#[test]
fn cos_lookup_linear_interp_midpoint() {
    let mut nlsf = vec![0i16; D_LPC_NB_MB];
    nlsf[0] = (10 << 8) | 128;
    for (k, slot) in nlsf.iter_mut().enumerate().take(D_LPC_NB_MB).skip(1) {
        *slot = ((20 + k as i32) << 8) as i16;
    }
    let c = nlsf_to_c_q17(Bandwidth::Nb, &nlsf).unwrap();
    let a = COS_Q12[10];
    let b = COS_Q12[11];
    let expected = (a * 256 + (b - a) * 128 + 4) >> 3;
    assert_eq!(c[ORDERING_NB_MB[0] as usize], expected);
}

#[test]
fn lpc_length_matches_bandwidth() {
    let nb = vec![1638i16; D_LPC_NB_MB];
    let mut nb_mono = nb.clone();
    for (k, v) in nb_mono.iter_mut().enumerate() {
        *v = (1000 + 2000 * k as i32) as i16;
    }
    let lpc = LpcQ17::from_nlsf(Bandwidth::Nb, &nb_mono).unwrap();
    assert_eq!(lpc.len(), D_LPC_NB_MB);
    assert_eq!(lpc.a32_q17().len(), D_LPC_NB_MB);

    let mut wb_mono = vec![0i16; D_LPC_WB];
    for (k, v) in wb_mono.iter_mut().enumerate() {
        *v = (500 + 1900 * k as i32) as i16;
    }
    let lpc = LpcQ17::from_nlsf(Bandwidth::Wb, &wb_mono).unwrap();
    assert_eq!(lpc.len(), D_LPC_WB);
    assert_eq!(lpc.a32_q17().len(), D_LPC_WB);
}

#[test]
fn lpc_rejects_swb_fb_and_length_mismatch() {
    let nlsf = vec![0i16; D_LPC_NB_MB];
    assert!(LpcQ17::from_nlsf(Bandwidth::Swb, &nlsf).is_err());
    assert!(LpcQ17::from_nlsf(Bandwidth::Fb, &nlsf).is_err());
    let nlsf = vec![0i16; 12];
    assert!(LpcQ17::from_nlsf(Bandwidth::Nb, &nlsf).is_err());
}

fn oracle_a32_q17(c_q17: &[i32], d_lpc: usize) -> Vec<i32> {
    let d2 = d_lpc / 2;
    let run_side = |parity: usize| -> Vec<i64> {
        let cols = d2 + 2;
        let mut p = vec![vec![0i64; cols]; d2];
        p[0][0] = 1 << 16;
        p[0][1] = -(c_q17[parity] as i64);
        for k in 1..d2 {
            let c = c_q17[2 * k + parity] as i64;
            for j in 0..=k + 1 {
                let pj0 = p[k - 1][j];
                let pjm2 = if j >= 2 { p[k - 1][j - 2] } else { 0 };
                let pjm1 = if j >= 1 { p[k - 1][j - 1] } else { 0 };
                p[k][j] = pj0 + pjm2 - ((c * pjm1 + 32768) >> 16);
            }
        }
        p.pop().unwrap()
    };

    let p_last = run_side(0);
    let q_last = run_side(1);

    let mut a = vec![0i32; d_lpc];
    for k in 0..d2 {
        let q_diff = q_last[k + 1] - q_last[k];
        let p_sum = p_last[k + 1] + p_last[k];
        a[k] = (-(q_diff + p_sum)) as i32;
        a[d_lpc - k - 1] = (q_diff - p_sum) as i32;
    }
    a
}

fn ascending_nlsf(d_lpc: usize, start: i16, step: i16) -> Vec<i16> {
    (0..d_lpc as i16)
        .map(|k| start.saturating_add(k.saturating_mul(step)))
        .collect()
}

#[test]
fn lpc_matches_oracle_nb() {
    let nlsf = ascending_nlsf(D_LPC_NB_MB, 1500, 2700);
    let lpc = LpcQ17::from_nlsf(Bandwidth::Nb, &nlsf).unwrap();
    let c = nlsf_to_c_q17(Bandwidth::Nb, &nlsf).unwrap();
    let expected = oracle_a32_q17(&c[..D_LPC_NB_MB], D_LPC_NB_MB);
    assert_eq!(lpc.a32_q17(), expected.as_slice());
}

#[test]
fn lpc_matches_oracle_wb() {
    let nlsf = ascending_nlsf(D_LPC_WB, 800, 1900);
    let lpc = LpcQ17::from_nlsf(Bandwidth::Wb, &nlsf).unwrap();
    let c = nlsf_to_c_q17(Bandwidth::Wb, &nlsf).unwrap();
    let expected = oracle_a32_q17(&c[..D_LPC_WB], D_LPC_WB);
    assert_eq!(lpc.a32_q17(), expected.as_slice());
}

#[test]
fn lpc_matches_oracle_against_real_decoder_pipeline() {
    let buf = [
        0x5Au8, 0xC3, 0x17, 0x9E, 0x42, 0xFB, 0x08, 0x71, 0x2D, 0xB6, 0x4C, 0x8E,
    ];
    for bw in [Bandwidth::Nb, Bandwidth::Mb, Bandwidth::Wb] {
        for i1 in 0u8..32 {
            let wide = bw == Bandwidth::Wb;
            let mut rd = RangeDecoder::new(&buf);
            let stage2 = decode_stage2(&mut rd, wide, i1 as usize);
            let stab = nlsf_from_indices(wide, i1 as usize, &stage2);
            let lpc = LpcQ17::from_nlsf(bw, stab.as_slice()).unwrap();
            let c = nlsf_to_c_q17(bw, stab.as_slice()).unwrap();
            let d_lpc = stab.as_slice().len();
            let expected = oracle_a32_q17(&c[..d_lpc], d_lpc);
            assert_eq!(
                lpc.a32_q17(),
                expected.as_slice(),
                "bw={bw:?} i1={i1}"
            );
        }
    }
}

#[test]
fn lpc_leading_term_uses_full_row_sum() {
    let nlsf = ascending_nlsf(D_LPC_NB_MB, 1500, 2700);
    let lpc = LpcQ17::from_nlsf(Bandwidth::Nb, &nlsf).unwrap();
    let a = lpc.a32_q17();
    assert_eq!((a[0] - a[D_LPC_NB_MB - 1]) % 2, 0);
    assert_eq!((a[0] + a[D_LPC_NB_MB - 1]) % 2, 0);
}

#[test]
fn lpc_real_pipeline_does_not_panic_across_bandwidth_x_i1_sweep() {
    let bufs: &[&[u8]] = &[
        &[
            0x11, 0x22, 0x33, 0x44, 0x55, 0x66, 0x77, 0x88, 0x99, 0xAA, 0xBB, 0xCC,
        ],
        &[
            0xFE, 0xDC, 0xBA, 0x98, 0x76, 0x54, 0x32, 0x10, 0xFE, 0xDC, 0xBA, 0x98,
        ],
        &[
            0x00, 0xFF, 0x00, 0xFF, 0x00, 0xFF, 0x00, 0xFF, 0x00, 0xFF, 0x00, 0xFF,
        ],
    ];
    for buf in bufs {
        for bw in [Bandwidth::Nb, Bandwidth::Mb, Bandwidth::Wb] {
            for i1 in 0u8..32 {
                let wide = bw == Bandwidth::Wb;
                let mut rd = RangeDecoder::new(buf);
                let stage2 = decode_stage2(&mut rd, wide, i1 as usize);
                let stab = nlsf_from_indices(wide, i1 as usize, &stage2);
                let lpc = LpcQ17::from_nlsf(bw, stab.as_slice()).unwrap();
                assert_eq!(lpc.len(), stab.as_slice().len());
            }
        }
    }
}

#[test]
fn mirrored_coefficients_give_the_two_polynomials_back() {
    let nb: Vec<i16> = (0..10).map(|k| 1500 + 2900 * k).collect();
    let wb: Vec<i16> = (0..16).map(|k| 900 + 1900 * k).collect();
    for (bw, nlsf) in [(Bandwidth::Nb, nb), (Bandwidth::Mb, vec![3000; 10]), (Bandwidth::Wb, wb)] {
        let c = nlsf_to_c_q17(bw, &nlsf).unwrap();
        let d = nlsf.len();
        let side = |parity: usize| -> Vec<i32> { (0..d / 2).map(|k| c[2 * k + parity]).collect() };
        let (p, q) = (find_poly(&side(0), false), find_poly(&side(1), false));
        let lpc = LpcQ17::from_nlsf(bw, &nlsf).unwrap();
        let a = lpc.a32_q17();
        for k in 0..d / 2 {
            let (x, y) = (a[k] as i64, a[d - 1 - k] as i64);
            assert_eq!(x + y, -2 * (p[k + 1] + p[k]), "{bw:?} {k}");
            assert_eq!(x - y, -2 * (q[k + 1] - q[k]), "{bw:?} {k}");
        }
    }
    assert_eq!(wrap_i32(1 << 31), i32::MIN);
    assert_eq!(wrap_i32(-(1 << 31) - 1), i32::MAX);
    assert_eq!(wrap_i32(5 - (7 << 32)), 5);
}
