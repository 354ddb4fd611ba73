//! Symbol models and codebooks.
use silk_codec::silk::shell_tables::{split_icdf, split_pdf, PULSE_COUNT_ICDF};
use silk_codec::silk::tables::{
    COSINE_Q12, FRAME_TYPE_ACTIVE_ICDF, FRAME_TYPE_INACTIVE_ICDF, GAIN_DELTA_ICDF, GAIN_LSB_ICDF,
    GAIN_MSB_INACTIVE_ICDF, GAIN_MSB_UNVOICED_ICDF, GAIN_MSB_VOICED_ICDF,
};

fn pdf_from_icdf(icdf: &[u8]) -> Vec<u8> {
    let mut pdf = Vec::with_capacity(icdf.len());
    let mut prev: u16 = 256;
    for &v in icdf {
        let cum = 256u16 - v as u16;
        assert!(cum >= 256u16 - prev, "icdf must be non-increasing");
        pdf.push((cum - (256u16 - prev)) as u8);
        prev = v as u16;
    }
    let total: u32 = pdf.iter().map(|&p| p as u32).sum();
    assert_eq!(total, 256, "PDF must sum to 256");
    pdf
}

#[test]
fn frame_type_inactive_icdf_matches_rfc_table9() {
    assert_eq!(pdf_from_icdf(&FRAME_TYPE_INACTIVE_ICDF), vec![26, 230]);
}

#[test]
fn frame_type_active_icdf_matches_rfc_table9() {
    assert_eq!(
        pdf_from_icdf(&FRAME_TYPE_ACTIVE_ICDF),
        vec![24, 74, 148, 10]
    );
}

#[test]
fn gain_msb_inactive_icdf_matches_rfc_table11() {
    assert_eq!(
        pdf_from_icdf(&GAIN_MSB_INACTIVE_ICDF),
        vec![32, 112, 68, 29, 12, 1, 1, 1]
    );
}

#[test]
fn gain_msb_unvoiced_icdf_matches_rfc_table11() {
    assert_eq!(
        pdf_from_icdf(&GAIN_MSB_UNVOICED_ICDF),
        vec![2, 17, 45, 60, 62, 47, 19, 4]
    );
}

#[test]
fn gain_msb_voiced_icdf_matches_rfc_table11() {
    assert_eq!(
        pdf_from_icdf(&GAIN_MSB_VOICED_ICDF),
        vec![1, 3, 26, 71, 94, 50, 9, 2]
    );
}

#[test]
fn gain_lsb_icdf_matches_rfc_table12() {
    assert_eq!(
        pdf_from_icdf(&GAIN_LSB_ICDF),
        vec![32, 32, 32, 32, 32, 32, 32, 32]
    );
}

#[test]
fn gain_delta_icdf_matches_rfc_table13() {
    let mut expected = vec![6u8, 5, 11, 31, 132, 21, 8, 4, 3, 2, 2, 2];
    expected.extend(std::iter::repeat(1u8).take(29));
    assert_eq!(pdf_from_icdf(&GAIN_DELTA_ICDF), expected);
}

#[test]
fn cosine_lut_monotone() {
    for w in COSINE_Q12.windows(2) {
        assert!(w[0] >= w[1], "{} should be >= {}", w[0], w[1]);
    }
    assert_eq!(COSINE_Q12[0], 4096);
    assert_eq!(COSINE_Q12[64], 0);
    assert_eq!(COSINE_Q12[128], -4096);
}

#[test]
fn all_split_pdfs_sum_to_256() {
    for size in [16usize, 8, 4, 2] {
        for i in 0..16usize {
            let p = split_pdf(size, i + 1);
            let sum: u16 = p.iter().sum();
            assert_eq!(sum, 256, "split of {size}, row {i} sums to {sum}");
            assert_eq!(p.len(), i + 2, "split of {size}, row {i} length");
        }
    }
}

#[test]
fn split_models_count_down_from_the_distribution() {
    for size in [2usize, 4, 8, 16] {
        for count in 1..=16usize {
            let pdf = split_pdf(size, count);
            let icdf = split_icdf(size, count);
            let mut left = 256u16;
            for k in 0..=count {
                left -= pdf[k];
                assert_eq!(icdf[k] as u16, left);
            }
            assert_eq!(left, 0);
        }
    }
}

#[test]
fn pulse_count_icdfs_end_at_zero() {
    for (i, row) in PULSE_COUNT_ICDF.iter().enumerate() {
        assert_eq!(row[17], 0, "rate level {i} last entry must be 0");
        for k in 1..18 {
            assert!(
                row[k] <= row[k - 1],
                "rate {i} non-monotone at {k}: {} > {}",
                row[k],
                row[k - 1]
            );
        }
    }
    assert_eq!(PULSE_COUNT_ICDF[10][16], 0);
}
