//! Access to the tables behind the normalised line spectral frequencies (NLSFs).
use vstd::prelude::*;

use crate::silk::lsf_models::order_of;
use crate::silk::shell::signed_ints;
use crate::silk::tables::{
    NLSF_NBMB_CB1_Q8, NLSF_NBMB_PRED_SELECT, NLSF_PRED_WEIGHTS, NLSF_WB_CB1_Q8, NLSF_WB_PRED_SELECT,
};

verus! {

/// The distance of entry `k` of a codebook row from the entry below, at least 1.
pub open spec fn gap_below(c: Seq<int>, k: int) -> int {
    let d = c[k] - (if k == 0 {
        0
    } else {
        c[k - 1]
    });
    if d < 1 {
        1
    } else {
        d
    }
}

/// The distance of entry `k` of a codebook row from the entry above, at least 1.
pub open spec fn gap_above(c: Seq<int>, k: int) -> int {
    let d = (if k + 1 == c.len() {
        256
    } else {
        c[k + 1]
    }) - c[k];
    if d < 1 {
        1
    } else {
        d
    }
}

/// The row of the stage-1 codebook.
pub closed spec fn codebook_row(is_wb: bool, i1: int) -> Seq<int> {
    if is_wb {
        Seq::new(16, |k: int| NLSF_WB_CB1_Q8[i1][k] as int)
    } else {
        Seq::new(10, |k: int| NLSF_NBMB_CB1_Q8[i1][k] as int)
    }
}

/// The weight with which residual `k` is predicted from the one above (Q8).
pub closed spec fn pred_weight(is_wb: bool, i1: int, k: int) -> int {
    if is_wb {
        NLSF_PRED_WEIGHTS[2 + NLSF_WB_PRED_SELECT[i1][k]][k] as int
    } else {
        NLSF_PRED_WEIGHTS[NLSF_NBMB_PRED_SELECT[i1][k] as int][k] as int
    }
}

/// The rows are those of the stage-1 codebooks.
pub proof fn law_codebook_entries(is_wb: bool, i1: int, k: int)
    requires
        0 <= k < order_of(is_wb),
    ensures
        codebook_row(is_wb, i1).len() == order_of(is_wb),
        is_wb ==> codebook_row(is_wb, i1)[k] == NLSF_WB_CB1_Q8[i1][k],
        !is_wb ==> codebook_row(is_wb, i1)[k] == NLSF_NBMB_CB1_Q8[i1][k],
{
}

/// The weights come from one of two lists for each bandwidth, as the stage-1 index selects for
/// each entry.
pub proof fn law_pred_weight_entries(is_wb: bool, i1: int, k: int)
    ensures
        is_wb ==> pred_weight(is_wb, i1, k)
            == NLSF_PRED_WEIGHTS[2 + NLSF_WB_PRED_SELECT[i1][k]][k],
        !is_wb ==> pred_weight(is_wb, i1, k)
            == NLSF_PRED_WEIGHTS[NLSF_NBMB_PRED_SELECT[i1][k] as int][k],
{
}

#[verifier::spinoff_prover]
proof fn lemma_pred_select_wb(i1: int, k: int)
    requires
        0 <= i1 < 32,
        0 <= k < 15,
    ensures
        NLSF_WB_PRED_SELECT[i1][k] < 2,
{
}

#[verifier::spinoff_prover]
proof fn lemma_pred_select_nbmb(i1: int, k: int)
    requires
        0 <= i1 < 32,
        0 <= k < 9,
    ensures
        NLSF_NBMB_PRED_SELECT[i1][k] < 2,
{
}

/// The weight with which residual `k` is predicted from the one above (Q8).
pub fn pred_weight_q8(i1: usize, k: usize, is_wb: bool) -> (w: u8)
    requires
        i1 < 32,
        k + 1 < order_of(is_wb),
    ensures
        w == pred_weight(is_wb, i1 as int, k as int),
{
    if is_wb {
        proof {
            lemma_pred_select_wb(i1 as int, k as int);
        }
        let list: usize = 2 + NLSF_WB_PRED_SELECT[i1][k] as usize;
        NLSF_PRED_WEIGHTS[list][k]
    } else {
        proof {
            lemma_pred_select_nbmb(i1 as int, k as int);
        }
        let list: usize = NLSF_NBMB_PRED_SELECT[i1][k] as usize;
        NLSF_PRED_WEIGHTS[list][k]
    }
}

/// The row of the stage-1 codebook.
pub fn codebook_values(is_wb: bool, i1: usize) -> (c: Vec<i32>)
    requires
        i1 < 32,
    ensures
        c@.len() == order_of(is_wb),
        signed_ints(c@) == codebook_row(is_wb, i1 as int),
        forall|k: int| 0 <= k < c@.len() ==> 0 <= #[trigger] c@[k] <= 255,
{
    let mut c: Vec<i32> = Vec::new();
    if is_wb {
        for k in 0..16usize
            invariant
                i1 < 32,
                c@.len() == k,
                forall|j: int|
                    0 <= j < k ==> #[trigger] c@[j] == NLSF_WB_CB1_Q8[i1 as int][j] && 0 <= c@[j]
                        <= 255,
        {
            c.push(NLSF_WB_CB1_Q8[i1][k] as i32);
        }
    } else {
        for k in 0..10usize
            invariant
                i1 < 32,
                c@.len() == k,
                forall|j: int|
                    0 <= j < k ==> #[trigger] c@[j] == NLSF_NBMB_CB1_Q8[i1 as int][j] && 0 <= c@[j]
                        <= 255,
        {
            c.push(NLSF_NBMB_CB1_Q8[i1][k] as i32);
        }
    }
    proof {
        assert(signed_ints(c@) =~= codebook_row(is_wb, i1 as int));
    }
    c
}

/// What a prediction weight is.
pub proof fn lemma_pred_weight(is_wb: bool, i1: int, k: int)
    requires
        0 <= i1 < 32,
        0 <= k,
        k + 1 < order_of(is_wb),
    ensures
        pred_weight(is_wb, i1, k) == (if is_wb {
            NLSF_PRED_WEIGHTS[2 + NLSF_WB_PRED_SELECT[i1][k]][k]
        } else {
            NLSF_PRED_WEIGHTS[NLSF_NBMB_PRED_SELECT[i1][k] as int][k]
        }),
{
    if is_wb {
        lemma_pred_select_wb(i1, k);
    } else {
        lemma_pred_select_nbmb(i1, k);
    }
}

/// Prediction weights are below one.
pub proof fn lemma_pred_bounds(is_wb: bool, i1: int, k: int)
    requires
        0 <= i1 < 32,
        0 <= k,
        k + 1 < order_of(is_wb),
    ensures
        0 <= pred_weight(is_wb, i1, k) <= 255,
{
    lemma_pred_weight(is_wb, i1, k);
}

/// Gaps between codebook entries that are neither too narrow nor too wide together.
spec fn moderate(below: int, above: int) -> bool {
    &&& below >= 3 && above >= 12 || below >= 12 && above >= 3 || below >= 5 && above >= 5
    &&& below <= 32 && above <= 47 || below <= 47 && above <= 30 || below <= 34 && above <= 35
}

#[verifier::spinoff_prover]
proof fn lemma_gaps_wb(i1: int, k: int)
    requires
        0 <= i1 < 32,
        0 <= k < 16,
    ensures
        moderate(gap_below(codebook_row(true, i1), k), gap_above(codebook_row(true, i1), k)),
        codebook_row(true, i1)[k] >= 1,
{
}

#[verifier::spinoff_prover]
proof fn lemma_gaps_nbmb(i1: int, k: int)
    requires
        0 <= i1 < 32,
        0 <= k < 10,
    ensures
        moderate(gap_below(codebook_row(false, i1), k), gap_above(codebook_row(false, i1), k)),
        codebook_row(false, i1)[k] >= 1,
{
}

/// A quotient falls as its divisor grows.
proof fn lemma_share_falls(a: int, b: int)
    requires
        1 <= a <= b,
    ensures
        1024int / b <= 1024int / a,
{
    vstd::arithmetic::div_mod::lemma_div_is_ordered_by_denominator(1024, a, b);
}

/// The sum of the inverse gaps around a codebook entry stays within bounds.
pub proof fn lemma_spread(is_wb: bool, i1: int, k: int)
    requires
        0 <= i1 < 32,
        0 <= k < order_of(is_wb),
    ensures
        52 <= 1024int / gap_below(codebook_row(is_wb, i1), k) + 1024int / gap_above(
            codebook_row(is_wb, i1),
            k,
        ) <= 427,
        1 <= codebook_row(is_wb, i1)[k] <= 255,
{
    if is_wb {
        lemma_gaps_wb(i1, k);
    } else {
        lemma_gaps_nbmb(i1, k);
    }
    let a = gap_below(codebook_row(is_wb, i1), k);
    let b = gap_above(codebook_row(is_wb, i1), k);
    if a >= 3 && b >= 12 {
        lemma_share_falls(3, a);
        lemma_share_falls(12, b);
    } else if a >= 12 && b >= 3 {
        lemma_share_falls(12, a);
        lemma_share_falls(3, b);
    } else {
        lemma_share_falls(5, a);
        lemma_share_falls(5, b);
    }
    if a <= 32 && b <= 47 {
        lemma_share_falls(a, 32);
        lemma_share_falls(b, 47);
    } else if a <= 47 && b <= 30 {
        lemma_share_falls(a, 47);
        lemma_share_falls(b, 30);
    } else {
        lemma_share_falls(a, 34);
        lemma_share_falls(b, 35);
    }
}

/// Gaps that are not raised to one are distances.
proof fn lemma_gaps_apart(c: Seq<int>, k: int)
    requires
        0 <= k < c.len(),
        moderate(gap_below(c, k), gap_above(c, k)),
    ensures
        k > 0 ==> c[k] - c[k - 1] == gap_below(c, k) && c[k - 1] < c[k],
        k == 0 ==> gap_below(c, k) == c[0],
        k + 1 < c.len() ==> c[k + 1] - c[k] == gap_above(c, k) && c[k] < c[k + 1],
        k + 1 == c.len() ==> gap_above(c, k) == 256 - c[k],
{
}

/// The distances around a codebook entry: from the entry below, or from zero, and from the entry
/// above, or from 256. All rows rise, so none is below 1.
#[verifier::spinoff_prover]
pub proof fn law_gaps_are_distances(is_wb: bool, i1: int, k: int)
    requires
        0 <= i1 < 32,
        0 <= k < order_of(is_wb),
    ensures
        ({
            let c = codebook_row(is_wb, i1);
            &&& k > 0 ==> c[k] - c[k - 1] == gap_below(c, k) && c[k - 1] < c[k]
            &&& k == 0 ==> gap_below(c, k) == c[0]
            &&& k + 1 < order_of(is_wb) ==> c[k + 1] - c[k] == gap_above(c, k) && c[k] < c[k + 1]
            &&& k + 1 == order_of(is_wb) ==> gap_above(c, k) == 256 - c[k]
        }),
{
    if is_wb {
        lemma_gaps_wb(i1, k);
    } else {
        lemma_gaps_nbmb(i1, k);
    }
    lemma_gaps_apart(codebook_row(is_wb, i1), k);
}

} // verus!
