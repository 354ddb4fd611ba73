//! Prediction filters from decoded line spectral frequencies, before bandwidth expansion.
use vstd::prelude::*;

use crate::arith::lemma_shr8;
use crate::cosine::COS_Q12;
use crate::lpc_poly::{
    between, cosines, evens, find_lpc, interpolate_q17, law_between, law_ordered_places,
    law_outer_coefficients, lemma_ordered, lemma_permutation, lpc_q17, odds, ordered, permutation,
    sum_of, wide_ints,
};
use crate::silk::tables::{COSINE_Q12, NLSF_ORDERING_NB, NLSF_ORDERING_WB};

verus! {

/// Entry `i` of the cosine table.
pub closed spec fn table_cosine(i: int) -> int {
    COSINE_Q12@[i] as int
}

/// The entries are those of the table.
pub proof fn law_table_cosine_entries(i: int)
    ensures
        table_cosine(i) == COSINE_Q12@[i],
{
}

/// The cosine table falls strictly and stays within -1 and 1.
#[verifier::spinoff_prover]
pub proof fn law_table_cosine(i: int)
    requires
        0 <= i < 128,
    ensures
        4096 >= table_cosine(i) > table_cosine(i + 1) >= -4096,
{
}

/// Index of the table entry at or below a frequency; negative ones count as the highest.
pub open spec fn table_index(n: int) -> int {
    if n < 0 {
        127
    } else {
        n / 256
    }
}

/// Cosine (Q17) of a frequency, from the table by linear interpolation.
pub open spec fn frequency_cosine(n: int) -> int {
    between(table_cosine(table_index(n)), table_cosine(table_index(n) + 1), n % 256)
}

/// Place of each cosine.
pub closed spec fn frequency_places(wide: bool) -> Seq<int> {
    if wide {
        Seq::new(16, |k: int| NLSF_ORDERING_WB@[k] as int)
    } else {
        Seq::new(10, |k: int| NLSF_ORDERING_NB@[k] as int)
    }
}

/// The places are those of the orderings.
pub proof fn law_frequency_places_entries(wide: bool, k: int)
    requires
        0 <= k < (if wide {
            16int
        } else {
            10int
        }),
    ensures
        wide ==> frequency_places(wide)[k] == NLSF_ORDERING_WB@[k],
        !wide ==> frequency_places(wide)[k] == NLSF_ORDERING_NB@[k],
{
}

/// Every place is filled exactly once.
#[verifier::spinoff_prover]
pub proof fn law_frequency_places(wide: bool)
    ensures
        frequency_places(wide).len() == (if wide {
            16nat
        } else {
            10nat
        }),
        permutation(frequency_places(wide)),
{
    let inverse = if wide {
        seq![0int, 15, 8, 7, 4, 11, 12, 3, 2, 13, 10, 5, 6, 9, 14, 1]
    } else {
        seq![0int, 7, 8, 3, 4, 5, 2, 9, 6, 1]
    };
    lemma_permutation(frequency_places(wide), inverse);
}

/// Cosines of the frequencies, each in its place.
pub open spec fn placed_cosines(nlsf: Seq<i16>) -> Seq<int> {
    ordered(
        frequency_places(nlsf.len() == 16),
        Seq::new(nlsf.len(), |k: int| frequency_cosine(nlsf[k] as int)),
    )
}

fn frequency_cosine_q17(n: i16) -> (v: i32)
    ensures
        v == frequency_cosine(n as int),
        -131072 <= v <= 131072,
{
    let n: i32 = n as i32;
    proof {
        lemma_shr8(n);
        assert(n & 255 == n % 256) by (bit_vector);
    }
    let i: usize = if n < 0 {
        127
    } else {
        (n >> 8) as usize
    };
    proof {
        law_table_cosine(i as int);
    }
    interpolate_q17(COSINE_Q12[i] as i32, COSINE_Q12[i + 1] as i32, n & 255)
}

fn frequency_place(wide: bool, k: usize) -> (p: usize)
    requires
        k < frequency_places(wide).len(),
    ensures
        p == frequency_places(wide)[k as int],
{
    proof {
        law_frequency_places(wide);
    }
    if wide {
        NLSF_ORDERING_WB[k]
    } else {
        NLSF_ORDERING_NB[k]
    }
}

/// The prediction coefficients (Q17) for 10 or 16 frequencies, with the polynomials continued
/// symmetrically past their middle.
pub fn nlsf_to_a32_q17(nlsf_q15: &[i16]) -> (a: Vec<i64>)
    requires
        nlsf_q15@.len() == 10 || nlsf_q15@.len() == 16,
    ensures
        a@.len() == nlsf_q15@.len(),
        forall|k: int|
            0 <= k < a@.len() ==> #[trigger] a@[k] == lpc_q17(placed_cosines(nlsf_q15@), true, k),
{
    let order: usize = nlsf_q15.len();
    let wide: bool = order == 16;
    let ghost ords = frequency_places(wide);
    let ghost values = Seq::new(nlsf_q15@.len(), |k: int| frequency_cosine(nlsf_q15@[k] as int));
    proof {
        law_frequency_places(wide);
    }
    let mut c: Vec<i32> = vec![0i32; order];
    for k in 0..order
        invariant
            order == nlsf_q15@.len(),
            order == ords.len(),
            ords == frequency_places(wide),
            permutation(ords),
            values == Seq::new(
                nlsf_q15@.len(),
                |k: int| frequency_cosine(nlsf_q15@[k] as int),
            ),
            c@.len() == order,
            forall|i: int| 0 <= i < k ==> c@[#[trigger] ords[i]] == values[i],
            cosines(wide_ints(c@)),
    {
        let v: i32 = frequency_cosine_q17(nlsf_q15[k]);
        let place: usize = frequency_place(wide, k);
        proof {
            assert(0 <= ords[k as int] < ords.len());
        }
        let ghost before = c@;
        c[place] = v;
        proof {
            assert forall|i: int| 0 <= i < k + 1 implies c@[#[trigger] ords[i]] == values[i] by {
                if i < k {
                    assert(ords[i] != ords[k as int]);
                }
            }
            assert forall|j: int| 0 <= j < order implies -131072 <= #[trigger] wide_ints(c@)[j]
                <= 131072 by {
                assert(-131072 <= wide_ints(before)[j] <= 131072);
            }
        }
    }
    proof {
        lemma_ordered(ords, values, wide_ints(c@));
    }
    find_lpc(&c, true)
}

/// Each frequency's cosine goes to the place that the table gives it: from the table of cosines, by
/// a straight line between the entries on either side, to the nearest eighth. Negative frequencies
/// count as lying between the last two entries.
pub proof fn law_frequency_cosines_in_place(nlsf: Seq<i16>, k: int)
    requires
        nlsf.len() == 10 || nlsf.len() == 16,
        0 <= k < nlsf.len(),
    ensures
        ({
            let c = placed_cosines(nlsf);
            let f = nlsf[k] as int % 256;
            let i = if nlsf[k] < 0 {
                127
            } else {
                nlsf[k] as int / 256
            };
            let at = if nlsf.len() == 16 {
                c[NLSF_ORDERING_WB@[k] as int]
            } else {
                c[NLSF_ORDERING_NB@[k] as int]
            };
            &&& c.len() == nlsf.len()
            &&& at == frequency_cosine(nlsf[k] as int)
            &&& -4 <= COSINE_Q12@[i] * (256 - f) + COSINE_Q12@[i + 1] * f - 8 * at <= 3
        }),
{
    let wide = nlsf.len() == 16;
    law_frequency_places(wide);
    let values = Seq::new(nlsf.len(), |k: int| frequency_cosine(nlsf[k] as int));
    law_ordered_places(frequency_places(wide), values, k);
    law_frequency_places_entries(wide, k);
    let i = if nlsf[k] < 0 {
        127
    } else {
        nlsf[k] as int / 256
    };
    law_between(table_cosine(i), table_cosine(i + 1), nlsf[k] as int % 256);
}

/// The cosines of the frequencies `parity`, `parity + 2` and so on.
pub open spec fn every_second_cosine(nlsf: Seq<i16>, parity: int) -> Seq<int> {
    Seq::new((nlsf.len() / 2) as nat, |k: int| frequency_cosine(nlsf[2 * k + parity] as int))
}

/// Sums do not depend on the order.
proof fn lemma_sums_in_place(nlsf: Seq<i16>)
    requires
        nlsf.len() == 10 || nlsf.len() == 16,
    ensures
        ({
            let c = placed_cosines(nlsf);
            let n = (nlsf.len() / 2) as int;
            &&& c.len() == nlsf.len()
            &&& sum_of(evens(c), n) == sum_of(every_second_cosine(nlsf, 0), n)
            &&& sum_of(odds(c), n) == sum_of(every_second_cosine(nlsf, 1), n)
        }),
{
    let wide = nlsf.len() == 16;
    let ords = frequency_places(wide);
    law_frequency_places(wide);
    let values = Seq::new(nlsf.len(), |k: int| frequency_cosine(nlsf[k] as int));
    let c = placed_cosines(nlsf);
    assert forall|k: int| 0 <= k < nlsf.len() implies c[#[trigger] ords[k]] == frequency_cosine(
        nlsf[k] as int,
    ) by {
        law_ordered_places(ords, values, k);
    }
    assert(c.len() == ords.len());
    reveal_with_fuel(sum_of, 9);
    if wide {
        assert(c[ords[0]] == values[0] && c[ords[1]] == values[1] && c[ords[2]] == values[2]
            && c[ords[3]] == values[3] && c[ords[4]] == values[4] && c[ords[5]] == values[5]
            && c[ords[6]] == values[6] && c[ords[7]] == values[7]);
        assert(c[ords[8]] == values[8] && c[ords[9]] == values[9] && c[ords[10]] == values[10]
            && c[ords[11]] == values[11] && c[ords[12]] == values[12] && c[ords[13]] == values[13]
            && c[ords[14]] == values[14] && c[ords[15]] == values[15]);
    } else {
        assert(c[ords[0]] == values[0] && c[ords[1]] == values[1] && c[ords[2]] == values[2]
            && c[ords[3]] == values[3] && c[ords[4]] == values[4]);
        assert(c[ords[5]] == values[5] && c[ords[6]] == values[6] && c[ords[7]] == values[7]
            && c[ords[8]] == values[8] && c[ords[9]] == values[9]);
    }
}

/// The first coefficient of the filter is the sum of the cosines of all frequencies, and the last
/// is that of the even-numbered ones less that of the odd-numbered ones, less 131072.
pub proof fn law_outer_coefficients_are_sums(nlsf: Seq<i16>)
    requires
        nlsf.len() == 10 || nlsf.len() == 16,
    ensures
        ({
            let c = placed_cosines(nlsf);
            let n = (nlsf.len() / 2) as int;
            let even = sum_of(every_second_cosine(nlsf, 0), n);
            let odd = sum_of(every_second_cosine(nlsf, 1), n);
            &&& lpc_q17(c, true, 0) == even + odd
            &&& lpc_q17(c, true, nlsf.len() - 1) == even - odd - 131072
        }),
{
    lemma_sums_in_place(nlsf);
    law_outer_coefficients(placed_cosines(nlsf), true);
}

/// Both cosine tables hold the same.
pub proof fn law_cosine_tables_agree(i: int)
    requires
        0 <= i <= 128,
    ensures
        COSINE_Q12@[i] == COS_Q12@[i],
{
    lemma_tables_agree(i);
}

#[verifier::spinoff_prover]
proof fn lemma_tables_agree(i: int)
    requires
        0 <= i <= 128,
    ensures
        COSINE_Q12@[i] == COS_Q12@[i],
{
}

} // verus!
