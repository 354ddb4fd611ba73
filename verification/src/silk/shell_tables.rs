//! Probability models of the shell coder.
use vstd::prelude::*;

use crate::range_coder::{codable, valid_icdf};

verus! {

/// Rate level, inactive and unvoiced frames.
pub const RATE_LEVEL_INACTIVE_ICDF: [u8; 9] = [241, 190, 178, 132, 87, 74, 41, 14, 0];

/// Rate level, voiced frames.
pub const RATE_LEVEL_VOICED_ICDF: [u8; 9] = [223, 193, 157, 140, 106, 57, 39, 18, 0];

/// Pulses of a block, by rate level. Symbol 17 announces one more low-order bit per sample.
pub const PULSE_COUNT_ICDF: [[u8; 18]; 11] = [
    [125, 51, 26, 18, 15, 12, 11, 10, 9, 8, 7, 6, 5, 4, 3, 2, 1, 0],
    [198, 105, 45, 22, 15, 12, 11, 10, 9, 8, 7, 6, 5, 4, 3, 2, 1, 0],
    [213, 162, 116, 83, 59, 43, 32, 24, 18, 15, 12, 9, 7, 6, 5, 3, 2, 0],
    [239, 187, 116, 59, 28, 16, 11, 10, 9, 8, 7, 6, 5, 4, 3, 2, 1, 0],
    [250, 229, 188, 135, 86, 51, 30, 19, 13, 10, 8, 6, 5, 4, 3, 2, 1, 0],
    [249, 235, 213, 185, 156, 128, 103, 83, 66, 53, 42, 33, 26, 21, 17, 13, 10, 0],
    [254, 249, 235, 206, 164, 118, 77, 46, 27, 16, 10, 7, 5, 4, 3, 2, 1, 0],
    [255, 253, 249, 239, 220, 191, 156, 119, 85, 57, 37, 23, 15, 10, 6, 4, 2, 0],
    [255, 253, 251, 246, 237, 223, 203, 179, 152, 124, 98, 75, 55, 40, 29, 21, 15, 0],
    [255, 254, 253, 247, 220, 162, 106, 67, 42, 28, 18, 12, 9, 6, 4, 3, 2, 0],
    [254, 253, 247, 220, 162, 106, 67, 42, 28, 18, 12, 9, 6, 4, 3, 2, 0, 0],
];

/// Pulses in the first half of 16 samples: row `p - 1` gives, in its first `p + 1` entries, the
/// probabilities (of 256) that `0` to `p` of `p` pulses fall there.
pub const PDF_SPLIT_16: [[u16; 17]; 16] = [
    [126, 130, 0, 0, 0, 0, 0, 0, 0, 0, 0, 0, 0, 0, 0, 0, 0],
    [56, 142, 58, 0, 0, 0, 0, 0, 0, 0, 0, 0, 0, 0, 0, 0, 0],
    [25, 101, 104, 26, 0, 0, 0, 0, 0, 0, 0, 0, 0, 0, 0, 0, 0],
    [12, 60, 108, 64, 12, 0, 0, 0, 0, 0, 0, 0, 0, 0, 0, 0, 0],
    [7, 35, 84, 87, 37, 6, 0, 0, 0, 0, 0, 0, 0, 0, 0, 0, 0],
    [4, 20, 59, 86, 63, 21, 3, 0, 0, 0, 0, 0, 0, 0, 0, 0, 0],
    [3, 12, 38, 72, 75, 42, 12, 2, 0, 0, 0, 0, 0, 0, 0, 0, 0],
    [2, 8, 25, 54, 73, 59, 27, 7, 1, 0, 0, 0, 0, 0, 0, 0, 0],
    [2, 5, 17, 39, 63, 65, 42, 18, 4, 1, 0, 0, 0, 0, 0, 0, 0],
    [1, 4, 12, 28, 49, 63, 54, 30, 11, 3, 1, 0, 0, 0, 0, 0, 0],
    [1, 4, 8, 20, 37, 55, 57, 41, 22, 8, 2, 1, 0, 0, 0, 0, 0],
    [1, 3, 7, 15, 28, 44, 53, 48, 33, 16, 6, 1, 1, 0, 0, 0, 0],
    [1, 2, 6, 12, 21, 35, 47, 48, 40, 25, 12, 5, 1, 1, 0, 0, 0],
    [1, 1, 4, 10, 17, 27, 37, 47, 43, 33, 21, 9, 4, 1, 1, 0, 0],
    [1, 1, 1, 8, 14, 22, 33, 40, 43, 38, 28, 16, 8, 1, 1, 1, 0],
    [1, 1, 1, 1, 13, 18, 27, 36, 41, 41, 34, 24, 14, 1, 1, 1, 1],
];

/// Pulses in the first half of 8 samples: row `p - 1` gives, in its first `p + 1` entries, the
/// probabilities (of 256) that `0` to `p` of `p` pulses fall there.
pub const PDF_SPLIT_8: [[u16; 17]; 16] = [
    [127, 129, 0, 0, 0, 0, 0, 0, 0, 0, 0, 0, 0, 0, 0, 0, 0],
    [53, 149, 54, 0, 0, 0, 0, 0, 0, 0, 0, 0, 0, 0, 0, 0, 0],
    [22, 105, 106, 23, 0, 0, 0, 0, 0, 0, 0, 0, 0, 0, 0, 0, 0],
    [11, 61, 111, 63, 10, 0, 0, 0, 0, 0, 0, 0, 0, 0, 0, 0, 0],
    [6, 35, 86, 88, 36, 5, 0, 0, 0, 0, 0, 0, 0, 0, 0, 0, 0],
    [4, 20, 59, 87, 62, 21, 3, 0, 0, 0, 0, 0, 0, 0, 0, 0, 0],
    [3, 13, 40, 71, 73, 41, 13, 2, 0, 0, 0, 0, 0, 0, 0, 0, 0],
    [3, 9, 27, 53, 70, 56, 28, 9, 1, 0, 0, 0, 0, 0, 0, 0, 0],
    [3, 8, 19, 37, 57, 61, 44, 20, 6, 1, 0, 0, 0, 0, 0, 0, 0],
    [3, 7, 15, 28, 44, 54, 49, 33, 17, 5, 1, 0, 0, 0, 0, 0, 0],
    [1, 7, 13, 22, 34, 46, 48, 38, 28, 14, 4, 1, 0, 0, 0, 0, 0],
    [1, 1, 11, 22, 27, 35, 42, 47, 33, 25, 10, 1, 1, 0, 0, 0, 0],
    [1, 1, 6, 14, 26, 37, 43, 43, 37, 26, 14, 6, 1, 1, 0, 0, 0],
    [1, 1, 4, 10, 20, 31, 40, 42, 40, 31, 20, 10, 4, 1, 1, 0, 0],
    [1, 1, 3, 8, 16, 26, 35, 38, 38, 35, 26, 16, 8, 3, 1, 1, 0],
    [1, 1, 2, 6, 12, 21, 30, 36, 38, 36, 30, 21, 12, 6, 2, 1, 1],
];

/// Pulses in the first half of 4 samples: row `p - 1` gives, in its first `p + 1` entries, the
/// probabilities (of 256) that `0` to `p` of `p` pulses fall there.
pub const PDF_SPLIT_4: [[u16; 17]; 16] = [
    [127, 129, 0, 0, 0, 0, 0, 0, 0, 0, 0, 0, 0, 0, 0, 0, 0],
    [49, 157, 50, 0, 0, 0, 0, 0, 0, 0, 0, 0, 0, 0, 0, 0, 0],
    [20, 107, 109, 20, 0, 0, 0, 0, 0, 0, 0, 0, 0, 0, 0, 0, 0],
    [11, 60, 113, 62, 10, 0, 0, 0, 0, 0, 0, 0, 0, 0, 0, 0, 0],
    [7, 36, 84, 87, 36, 6, 0, 0, 0, 0, 0, 0, 0, 0, 0, 0, 0],
    [6, 24, 57, 82, 60, 23, 4, 0, 0, 0, 0, 0, 0, 0, 0, 0, 0],
    [5, 18, 39, 64, 68, 42, 16, 4, 0, 0, 0, 0, 0, 0, 0, 0, 0],
    [6, 14, 29, 47, 61, 52, 30, 14, 3, 0, 0, 0, 0, 0, 0, 0, 0],
    [1, 15, 23, 35, 51, 50, 40, 30, 10, 1, 0, 0, 0, 0, 0, 0, 0],
    [1, 1, 21, 32, 42, 52, 46, 41, 18, 1, 1, 0, 0, 0, 0, 0, 0],
    [1, 6, 16, 27, 36, 42, 42, 36, 27, 16, 6, 1, 0, 0, 0, 0, 0],
    [1, 5, 12, 21, 31, 38, 40, 38, 31, 21, 12, 5, 1, 0, 0, 0, 0],
    [1, 3, 9, 17, 26, 34, 38, 38, 34, 26, 17, 9, 3, 1, 0, 0, 0],
    [1, 3, 7, 14, 22, 29, 34, 36, 34, 29, 22, 14, 7, 3, 1, 0, 0],
    [1, 2, 5, 11, 18, 25, 31, 35, 35, 31, 25, 18, 11, 5, 2, 1, 0],
    [1, 1, 4, 9, 15, 21, 28, 32, 34, 32, 28, 21, 15, 9, 4, 1, 1],
];

/// Pulses in the first half of 2 samples: row `p - 1` gives, in its first `p + 1` entries, the
/// probabilities (of 256) that `0` to `p` of `p` pulses fall there.
pub const PDF_SPLIT_2: [[u16; 17]; 16] = [
    [128, 128, 0, 0, 0, 0, 0, 0, 0, 0, 0, 0, 0, 0, 0, 0, 0],
    [42, 172, 42, 0, 0, 0, 0, 0, 0, 0, 0, 0, 0, 0, 0, 0, 0],
    [21, 107, 107, 21, 0, 0, 0, 0, 0, 0, 0, 0, 0, 0, 0, 0, 0],
    [12, 60, 112, 61, 11, 0, 0, 0, 0, 0, 0, 0, 0, 0, 0, 0, 0],
    [8, 34, 86, 86, 35, 7, 0, 0, 0, 0, 0, 0, 0, 0, 0, 0, 0],
    [8, 23, 55, 90, 55, 20, 5, 0, 0, 0, 0, 0, 0, 0, 0, 0, 0],
    [5, 15, 38, 72, 72, 36, 15, 3, 0, 0, 0, 0, 0, 0, 0, 0, 0],
    [6, 12, 27, 52, 77, 47, 20, 10, 5, 0, 0, 0, 0, 0, 0, 0, 0],
    [6, 19, 28, 35, 40, 40, 35, 28, 19, 6, 0, 0, 0, 0, 0, 0, 0],
    [4, 14, 22, 31, 37, 40, 37, 31, 22, 14, 4, 0, 0, 0, 0, 0, 0],
    [3, 10, 18, 26, 33, 38, 38, 33, 26, 18, 10, 3, 0, 0, 0, 0, 0],
    [2, 8, 13, 21, 29, 36, 38, 36, 29, 21, 13, 8, 2, 0, 0, 0, 0],
    [1, 5, 10, 17, 25, 32, 38, 38, 32, 25, 17, 10, 5, 1, 0, 0, 0],
    [1, 4, 7, 13, 21, 29, 35, 36, 35, 29, 21, 13, 7, 4, 1, 0, 0],
    [1, 2, 5, 10, 17, 25, 32, 36, 36, 32, 25, 17, 10, 5, 2, 1, 0],
    [1, 2, 4, 7, 13, 21, 28, 34, 36, 34, 28, 21, 13, 7, 4, 2, 1],
];

/// One low-order bit of a sample.
pub const LSB_ICDF: [u8; 2] = [120, 0];

/// Sign of a sample (0 is negative), by signal type, quantisation offset type and number of pulses
/// in the block (6 stands for six or more).
pub const SIGN_ICDF: [[[[u8; 2]; 7]; 2]; 3] = [
    [
        [[254, 0], [49, 0], [67, 0], [77, 0], [82, 0], [93, 0], [99, 0]],
        [[198, 0], [11, 0], [18, 0], [24, 0], [31, 0], [36, 0], [45, 0]],
    ],
    [
        [[255, 0], [46, 0], [66, 0], [78, 0], [87, 0], [94, 0], [104, 0]],
        [[208, 0], [14, 0], [21, 0], [32, 0], [42, 0], [51, 0], [66, 0]],
    ],
    [
        [[255, 0], [94, 0], [104, 0], [109, 0], [112, 0], [115, 0], [118, 0]],
        [[248, 0], [53, 0], [69, 0], [80, 0], [88, 0], [95, 0], [102, 0]],
    ],
];

/// Offset added to every excitation sample (Q23), by signal type and quantisation offset type.
pub const QUANT_OFFSET_Q23: [[i32; 2]; 3] = [[25, 60], [25, 60], [8, 25]];
/// Sum of the entries of `pdf` from index `k` on.
pub open spec fn sum_from(pdf: Seq<u16>, k: int) -> int
    decreases pdf.len() - k,
{
    if k < 0 || k >= pdf.len() {
        0
    } else {
        pdf[k] + sum_from(pdf, k + 1)
    }
}

/// A distribution over 256 in which every symbol can occur.
pub open spec fn full_pdf(pdf: Seq<u16>) -> bool {
    &&& pdf.len() > 0
    &&& sum_from(pdf, 0) == 256
    &&& forall|k: int| 0 <= k < pdf.len() ==> #[trigger] pdf[k] > 0
}

/// The inverse cumulative distribution of `pdf`: entry `k` is the weight of the symbols above `k`.
pub open spec fn icdf_of(pdf: Seq<u16>) -> Seq<u8> {
    Seq::new(pdf.len(), |k: int| sum_from(pdf, k + 1) as u8)
}

/// The probabilities that `0` to `pulses` of `pulses` pulses lie in the first half of `size`
/// samples.
pub open spec fn split_pdf_spec(size: int, pulses: int) -> Seq<u16> {
    let row = if size == 16 {
        PDF_SPLIT_16[pulses - 1]@
    } else if size == 8 {
        PDF_SPLIT_8[pulses - 1]@
    } else if size == 4 {
        PDF_SPLIT_4[pulses - 1]@
    } else {
        PDF_SPLIT_2[pulses - 1]@
    };
    row.subrange(0, pulses + 1)
}

/// The model for the number of pulses in the first half of `size` samples that hold `pulses`.
#[verifier::opaque]
pub open spec fn split_model(size: int, pulses: int) -> Seq<u8> {
    icdf_of(split_pdf_spec(size, pulses))
}

/// Every symbol of `icdf` can be coded.
pub open spec fn full_icdf(icdf: Seq<u8>) -> bool {
    &&& valid_icdf(icdf)
    &&& forall|s: int| 0 <= s < icdf.len() ==> #[trigger] codable(icdf, s)
}

/// The tail sums of a full distribution fall by at least one per symbol.
proof fn lemma_sum_from_falls(pdf: Seq<u16>, j: int, k: int)
    requires
        forall|i: int| 0 <= i < pdf.len() ==> #[trigger] pdf[i] > 0,
        0 <= j <= k <= pdf.len(),
    ensures
        sum_from(pdf, j) >= sum_from(pdf, k) + (k - j),
        sum_from(pdf, k) >= 0,
    decreases pdf.len() - j,
{
    if j < k {
        lemma_sum_from_falls(pdf, j + 1, k);
    } else if k < pdf.len() {
        lemma_sum_from_falls(pdf, k + 1, k + 1);
    }
}

/// The inverse cumulative distribution of a full distribution can code every symbol.
pub proof fn lemma_icdf_of_full(pdf: Seq<u16>)
    requires
        full_pdf(pdf),
    ensures
        full_icdf(icdf_of(pdf)),
        forall|k: int| 0 <= k < pdf.len() ==> #[trigger] icdf_of(pdf)[k] == sum_from(pdf, k + 1),
{
    let icdf = icdf_of(pdf);
    assert forall|k: int| 0 <= k < pdf.len() implies #[trigger] icdf[k] == sum_from(
        pdf,
        k + 1,
    ) by {
        lemma_sum_from_falls(pdf, 0, k + 1);
    }
    assert forall|i: int, j: int| 0 <= i <= j < icdf.len() implies icdf[i] >= icdf[j] by {
        lemma_sum_from_falls(pdf, i + 1, j + 1);
    }
    assert forall|s: int| 0 <= s < icdf.len() implies #[trigger] codable(icdf, s) by {
        if s > 0 {
            lemma_sum_from_falls(pdf, s, s + 1);
        }
    }
}

/// Turns a distribution over 256 into its inverse cumulative distribution.
pub fn pdf_to_icdf(pdf: &[u16]) -> (icdf: Vec<u8>)
    requires
        full_pdf(pdf@),
    ensures
        icdf@ == icdf_of(pdf@),
        full_icdf(icdf@),
{
    proof {
        lemma_icdf_of_full(pdf@);
    }
    let mut cum: u16 = 0;
    let mut icdf: Vec<u8> = Vec::with_capacity(pdf.len());
    for i in 0..pdf.len()
        invariant
            full_pdf(pdf@),
            forall|k: int|
                0 <= k < pdf@.len() ==> #[trigger] icdf_of(pdf@)[k] == sum_from(pdf@, k + 1),
            icdf@.len() == i,
            cum + sum_from(pdf@, i as int) == 256,
            forall|k: int| 0 <= k < i ==> #[trigger] icdf@[k] == icdf_of(pdf@)[k],
    {
        proof {
            lemma_sum_from_falls(pdf@, i as int, i + 1);
            assert(icdf_of(pdf@)[i as int] == sum_from(pdf@, i + 1));
        }
        cum = cum + pdf[i];
        icdf.push((256 - cum) as u8);
    }
    assert(icdf@ =~= icdf_of(pdf@));
    icdf
}

#[verifier::spinoff_prover]
proof fn lemma_split_16(pulses: int)
    requires
        1 <= pulses <= 16,
    ensures
        full_pdf(PDF_SPLIT_16[pulses - 1]@.subrange(0, pulses + 1)),
{
    reveal_with_fuel(sum_from, 19);
    let row = PDF_SPLIT_16[pulses - 1]@;
    let pdf = row.subrange(0, pulses + 1);
    assert(pdf.len() == pulses + 1);
}

#[verifier::spinoff_prover]
proof fn lemma_split_8(pulses: int)
    requires
        1 <= pulses <= 16,
    ensures
        full_pdf(PDF_SPLIT_8[pulses - 1]@.subrange(0, pulses + 1)),
{
    reveal_with_fuel(sum_from, 19);
    let row = PDF_SPLIT_8[pulses - 1]@;
    let pdf = row.subrange(0, pulses + 1);
    assert(pdf.len() == pulses + 1);
}

#[verifier::spinoff_prover]
proof fn lemma_split_4(pulses: int)
    requires
        1 <= pulses <= 16,
    ensures
        full_pdf(PDF_SPLIT_4[pulses - 1]@.subrange(0, pulses + 1)),
{
    reveal_with_fuel(sum_from, 19);
    let row = PDF_SPLIT_4[pulses - 1]@;
    let pdf = row.subrange(0, pulses + 1);
    assert(pdf.len() == pulses + 1);
}

#[verifier::spinoff_prover]
proof fn lemma_split_2(pulses: int)
    requires
        1 <= pulses <= 16,
    ensures
        full_pdf(PDF_SPLIT_2[pulses - 1]@.subrange(0, pulses + 1)),
{
    reveal_with_fuel(sum_from, 19);
    let row = PDF_SPLIT_2[pulses - 1]@;
    let pdf = row.subrange(0, pulses + 1);
    assert(pdf.len() == pulses + 1);
}

/// Each split distribution sums to 256 and leaves no symbol out.
pub proof fn lemma_split_full(size: int, pulses: int)
    requires
        size == 2 || size == 4 || size == 8 || size == 16,
        1 <= pulses <= 16,
    ensures
        full_pdf(split_pdf_spec(size, pulses)),
        split_pdf_spec(size, pulses).len() == pulses + 1,
{
    if size == 16 {
        lemma_split_16(pulses);
    } else if size == 8 {
        lemma_split_8(pulses);
    } else if size == 4 {
        lemma_split_4(pulses);
    } else {
        lemma_split_2(pulses);
    }
}

/// The distribution of pulses over the two halves of `partition_size` samples.
pub fn split_pdf(partition_size: usize, pulse_count: usize) -> (pdf: &'static [u16])
    requires
        partition_size == 2 || partition_size == 4 || partition_size == 8 || partition_size == 16,
        1 <= pulse_count <= 16,
    ensures
        pdf@ == split_pdf_spec(partition_size as int, pulse_count as int),
        full_pdf(pdf@),
{
    proof {
        lemma_split_full(partition_size as int, pulse_count as int);
    }
    let row: &'static [u16; 17] = if partition_size == 16 {
        &PDF_SPLIT_16[pulse_count - 1]
    } else if partition_size == 8 {
        &PDF_SPLIT_8[pulse_count - 1]
    } else if partition_size == 4 {
        &PDF_SPLIT_4[pulse_count - 1]
    } else {
        &PDF_SPLIT_2[pulse_count - 1]
    };
    vstd::slice::slice_subrange(row, 0, pulse_count + 1)
}

/// The model for the number of pulses in the first half of `partition_size` samples that hold
/// `pulse_count` pulses.
pub fn split_icdf(partition_size: usize, pulse_count: usize) -> (icdf: Vec<u8>)
    requires
        partition_size == 2 || partition_size == 4 || partition_size == 8 || partition_size == 16,
        1 <= pulse_count <= 16,
    ensures
        icdf@ == split_model(partition_size as int, pulse_count as int),
        icdf@.len() == pulse_count + 1,
        full_icdf(icdf@),
{
    proof {
        reveal(split_model);
        lemma_split_full(partition_size as int, pulse_count as int);
    }
    pdf_to_icdf(split_pdf(partition_size, pulse_count))
}

/// The rate level model of a signal type.
#[verifier::opaque]
pub open spec fn rate_model(signal_type: int) -> Seq<u8> {
    if signal_type == 2 {
        RATE_LEVEL_VOICED_ICDF@
    } else {
        RATE_LEVEL_INACTIVE_ICDF@
    }
}

/// The smaller of two numbers.
pub open spec fn least(a: int, b: int) -> int {
    if a <= b {
        a
    } else {
        b
    }
}

/// The sign model of a block with `pulses` pulses.
#[verifier::opaque]
pub open spec fn sign_model(signal_type: int, quant_offset_type: int, pulses: int) -> Seq<u8> {
    SIGN_ICDF[least(signal_type, 2)][least(quant_offset_type, 1)][least(pulses, 6)]@
}

/// The rate level model of a signal type.
pub fn rate_icdf(signal_type: u8) -> (icdf: &'static [u8])
    ensures
        icdf@ == rate_model(signal_type as int),
        icdf@.len() == 9,
        full_icdf(icdf@),
{
    proof {
        reveal(rate_model);
    }
    if signal_type == 2 {
        &RATE_LEVEL_VOICED_ICDF
    } else {
        &RATE_LEVEL_INACTIVE_ICDF
    }
}

/// The sign model for the given signal type, quantisation offset type and number of pulses.
pub fn sign_icdf(signal_type: u8, quant_offset_type: u8, pulse_count: usize) -> (icdf: &'static [u8;
    2])
    ensures
        icdf@ == sign_model(signal_type as int, quant_offset_type as int, pulse_count as int),
        full_icdf(icdf@),
{
    let st: usize = if signal_type < 2 {
        signal_type as usize
    } else {
        2
    };
    let qot: usize = if quant_offset_type < 1 {
        0
    } else {
        1
    };
    let pc: usize = if pulse_count < 6 {
        pulse_count
    } else {
        6
    };
    proof {
        reveal(sign_model);
        lemma_sign_full(st as int, qot as int, pc as int);
    }
    &SIGN_ICDF[st][qot][pc]
}

proof fn lemma_sign_full(st: int, qot: int, pc: int)
    requires
        0 <= st <= 2,
        0 <= qot <= 1,
        0 <= pc <= 6,
    ensures
        full_icdf(SIGN_ICDF[st][qot][pc]@),
{
}

/// The pulse count models below level 10 can code every symbol; level 10 can code all but the
/// escape symbol 17.
pub proof fn lemma_pulse_count_models(level: int)
    requires
        0 <= level <= 10,
    ensures
        valid_icdf(PULSE_COUNT_ICDF[level]@),
        PULSE_COUNT_ICDF[level]@.len() == 18,
        forall|s: int| 0 <= s <= 16 ==> #[trigger] codable(PULSE_COUNT_ICDF[level]@, s),
        codable(PULSE_COUNT_ICDF[level]@, 17) <==> level < 10,
{
}

/// The low-order bit model can code both bits.
pub proof fn lemma_lsb_model()
    ensures
        full_icdf(LSB_ICDF@),
{
}

/// An inverse cumulative distribution falls from 256 to zero, at each symbol by its probability.
pub proof fn law_icdf_falls_by_pdf(pdf: Seq<u16>, k: int)
    requires
        full_pdf(pdf),
        0 <= k < pdf.len(),
    ensures
        icdf_of(pdf).len() == pdf.len(),
        k == 0 ==> icdf_of(pdf)[k] + pdf[k] == 256,
        k > 0 ==> icdf_of(pdf)[k] + pdf[k] == icdf_of(pdf)[k - 1],
        icdf_of(pdf).last() == 0,
{
    lemma_sum_from_falls(pdf, 0, 1);
    lemma_sum_from_falls(pdf, 1, k + 1);
    if k > 0 {
        lemma_sum_from_falls(pdf, 1, k);
    }
    assert(sum_from(pdf, k + 1) <= 255);
    assert(sum_from(pdf, k) == pdf[k] + sum_from(pdf, k + 1));
    assert(sum_from(pdf, pdf.len() as int) == 0);
}

} // verus!
