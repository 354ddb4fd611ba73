//! Prediction filters from line spectral frequencies.
//!
//! The frequencies (Q15) become cosines (Q17), the cosines two polynomials, and the polynomials
//! the coefficients of the prediction filter (Q17). Of each polynomial the lower half is kept while
//! it is built up root pair by root pair. Here the coefficient just past that half counts as zero
//! when the next pair is taken in; it is not mirrored from below the middle.
use vstd::array::array_as_slice;
use vstd::prelude::*;
use vstd::slice::slice_subrange;

use crate::arith::{law_wrapped, lemma_shr8, lemma_wrapped_pair, wrap_i32, wrapped_i32};
use crate::cosine::{cos_q12, cosine, law_cosine_entries};
use crate::error::SilkError;
use crate::lpc_poly::{
    between, byte_ints, cell, cosines, evens, find_lpc, interpolate_q17, law_between,
    law_mirrored_coefficients, law_ordered_places, lemma_ordered, lemma_permutation, lpc_q17, odds,
    ordered, permutation, wide_ints,
};
use crate::toc::Bandwidth;

pub use crate::cosine::COS_Q12;

verus! {

/// Largest filter order.
pub const D_LPC_MAX: usize = 16;

/// Filter order of narrow and medium band.
pub const D_LPC_NB_MB: usize = 10;

/// Filter order of wide band.
pub const D_LPC_WB: usize = 16;

/// Place of each cosine, narrow and medium band.
pub const ORDERING_NB_MB: [u8; D_LPC_NB_MB] = [0, 9, 6, 3, 4, 5, 8, 1, 2, 7];

/// Place of each cosine, wide band.
pub const ORDERING_WB: [u8; D_LPC_WB] = [0, 15, 8, 7, 4, 11, 12, 3, 2, 13, 10, 5, 6, 9, 14, 1];

/// Bandwidths that this layer codes.
pub open spec fn supported(bandwidth: Bandwidth) -> bool {
    bandwidth is Nb || bandwidth is Mb || bandwidth is Wb
}

/// Place of each cosine.
pub open spec fn places(bandwidth: Bandwidth) -> Seq<u8> {
    if bandwidth is Wb {
        ORDERING_WB@
    } else {
        ORDERING_NB_MB@
    }
}

/// Filter order.
pub open spec fn lpc_order(bandwidth: Bandwidth) -> nat {
    if bandwidth is Wb {
        16
    } else {
        10
    }
}

/// Cosine of a frequency, from the table by linear interpolation.
pub open spec fn cos_q17(n: int) -> int {
    between(cos_q12(n / 256), cos_q12(n / 256 + 1), n % 256)
}

/// Cosines of the frequencies, each in its place.
pub open spec fn ordered_cosines(bandwidth: Bandwidth, nlsf: Seq<i16>) -> Seq<int> {
    ordered(
        byte_ints(places(bandwidth)),
        Seq::new(nlsf.len(), |k: int| cos_q17(nlsf[k] as int)),
    )
}

/// The coefficients of the filter for the given frequencies, wrapped around to 32 bits.
pub open spec fn filter_coefficients(bandwidth: Bandwidth, nlsf: Seq<i16>) -> Seq<int> {
    Seq::new(
        lpc_order(bandwidth),
        |k: int| wrapped_i32(lpc_q17(ordered_cosines(bandwidth, nlsf), false, k)),
    )
}

/// Frequencies of the right number for the bandwidth.
pub open spec fn convertible(bandwidth: Bandwidth, nlsf: Seq<i16>) -> bool {
    supported(bandwidth) && nlsf.len() == lpc_order(bandwidth)
}

/// No frequency is negative.
pub open spec fn nonnegative(nlsf: Seq<i16>) -> bool {
    forall|k: int| 0 <= k < nlsf.len() ==> 0 <= #[trigger] nlsf[k]
}

/// The places of a bandwidth are a permutation: every place is filled exactly once.
#[verifier::spinoff_prover]
pub proof fn law_places_permute(bandwidth: Bandwidth)
    ensures
        places(bandwidth).len() == lpc_order(bandwidth),
        permutation(byte_ints(places(bandwidth))),
{
    let inverse = if bandwidth is Wb {
        seq![0int, 15, 8, 7, 4, 11, 12, 3, 2, 13, 10, 5, 6, 9, 14, 1]
    } else {
        seq![0int, 7, 8, 3, 4, 5, 2, 9, 6, 1]
    };
    lemma_permutation(byte_ints(places(bandwidth)), inverse);
}

/// Place of each cosine; an error for bandwidths outside this layer.
pub fn ordering(bandwidth: Bandwidth) -> (r: Result<&'static [u8], SilkError>)
    ensures
        match r {
            Ok(s) => supported(bandwidth) && s@ == places(bandwidth),
            Err(e) => !supported(bandwidth) && e == SilkError::MalformedPacket,
        },
{
    match bandwidth {
        Bandwidth::Nb | Bandwidth::Mb => Ok(array_as_slice(&ORDERING_NB_MB)),
        Bandwidth::Wb => Ok(array_as_slice(&ORDERING_WB)),
        Bandwidth::Swb | Bandwidth::Fb => Err(SilkError::MalformedPacket),
    }
}

/// Cosines of the frequencies, each in its place; places beyond the filter order hold zero.
pub fn nlsf_to_c_q17(bandwidth: Bandwidth, nlsf_q15: &[i16]) -> (r: Result<
    [i32; D_LPC_MAX],
    SilkError,
>)
    requires
        convertible(bandwidth, nlsf_q15@) ==> nonnegative(nlsf_q15@),
    ensures
        match r {
            Ok(c) => {
                &&& convertible(bandwidth, nlsf_q15@)
                &&& wide_ints(c@.take(nlsf_q15@.len() as int)) == ordered_cosines(
                    bandwidth,
                    nlsf_q15@,
                )
                &&& cosines(wide_ints(c@))
                &&& forall|k: int| nlsf_q15@.len() <= k < D_LPC_MAX ==> #[trigger] c@[k] == 0
            },
            Err(e) => !convertible(bandwidth, nlsf_q15@) && e == SilkError::MalformedPacket,
        },
{
    let ord: &'static [u8] = match ordering(bandwidth) {
        Ok(s) => s,
        Err(e) => {
            return Err(e);
        },
    };
    proof {
        law_places_permute(bandwidth);
    }
    let d_lpc: usize = ord.len();
    if nlsf_q15.len() != d_lpc {
        return Err(SilkError::MalformedPacket);
    }
    let ghost values = Seq::new(nlsf_q15@.len(), |k: int| cos_q17(nlsf_q15@[k] as int));
    let ghost ords = byte_ints(ord@);
    let mut c_q17: [i32; D_LPC_MAX] = [0; D_LPC_MAX];
    let mut k: usize = 0;
    while k < d_lpc
        invariant
            k <= d_lpc <= 16,
            d_lpc == ord@.len(),
            d_lpc == nlsf_q15@.len(),
            nonnegative(nlsf_q15@),
            ords == byte_ints(ord@),
            permutation(ords),
            values == Seq::new(nlsf_q15@.len(), |k: int| cos_q17(nlsf_q15@[k] as int)),
            c_q17@.len() == 16,
            forall|i: int| 0 <= i < k ==> c_q17@[#[trigger] ords[i]] == values[i],
            cosines(wide_ints(c_q17@)),
            forall|i: int| d_lpc <= i < 16 ==> #[trigger] c_q17@[i] == 0,
        decreases d_lpc - k,
    {
        let n: i32 = nlsf_q15[k] as i32;
        proof {
            lemma_shr8(n);
            assert(n & 0xFF == n % 256) by (bit_vector)
                requires
                    n >= 0,
            ;
            assert(0 <= ords[k as int] < ords.len());
        }
        let i: usize = (n >> 8) as usize;
        let f: i32 = n & 0xFF;
        let v: i32 = interpolate_q17(cosine(i), cosine(i + 1), f);
        let place: usize = ord[k] as usize;
        assert(place == ords[k as int]);
        let ghost before = c_q17@;
        c_q17[place] = v;
        proof {
            assert(c_q17@ == before.update(place as int, v));
            assert forall|i: int| 0 <= i < k + 1 implies c_q17@[#[trigger] ords[i]]
                == values[i] by {
                if i < k {
                    assert(ords[i] != ords[k as int]);
                }
            }
            assert forall|j: int| 0 <= j < 16 implies -131072 <= #[trigger] wide_ints(
                c_q17@,
            )[j] <= 131072 by {
                assert(-131072 <= wide_ints(before)[j] <= 131072);
            }
        }
        k = k + 1;
    }
    proof {
        let c = wide_ints(c_q17@.take(d_lpc as int));
        lemma_ordered(ords, values, c);
    }
    Ok(c_q17)
}

/// Coefficients of a prediction filter, in Q17.
#[derive(Debug, Clone, Copy, PartialEq, Eq)]
pub struct LpcQ17 {
    len: u8,
    a32_q17: [i32; D_LPC_MAX],
}

impl LpcQ17 {
    #[verifier::type_invariant]
    spec fn wf(self) -> bool {
        self.len <= 16
    }

    /// The coefficients.
    pub closed spec fn view(&self) -> Seq<i32> {
        self.a32_q17@.take(self.len as int)
    }

    /// The filter for the given frequencies. Coefficients are wrapped around to 32 bits.
    pub fn from_nlsf(bandwidth: Bandwidth, nlsf_q15: &[i16]) -> (r: Result<Self, SilkError>)
        requires
            convertible(bandwidth, nlsf_q15@) ==> nonnegative(nlsf_q15@),
        ensures
            match r {
                Ok(lpc) => {
                    &&& convertible(bandwidth, nlsf_q15@)
                    &&& wide_ints(lpc@) == filter_coefficients(bandwidth, nlsf_q15@)
                },
                Err(e) => !convertible(bandwidth, nlsf_q15@) && e == SilkError::MalformedPacket,
            },
    {
        let c_q17: [i32; D_LPC_MAX] = match nlsf_to_c_q17(bandwidth, nlsf_q15) {
            Ok(c) => c,
            Err(e) => {
                return Err(e);
            },
        };
        let d_lpc: usize = nlsf_q15.len();
        let mut c: Vec<i32> = Vec::new();
        for k in 0..d_lpc
            invariant
                d_lpc <= 16,
                c@.len() == k,
                forall|i: int| 0 <= i < k ==> #[trigger] c@[i] == c_q17@[i],
        {
            c.push(c_q17[k]);
        }
        proof {
            assert(c@ =~= c_q17@.take(d_lpc as int));
            assert forall|k: int| 0 <= k < c@.len() implies -131072 <= #[trigger] wide_ints(c@)[k]
                <= 131072 by {
                assert(-131072 <= wide_ints(c_q17@)[k] <= 131072);
            }
        }
        let a: Vec<i64> = find_lpc(&c, false);
        let ghost goal = ordered_cosines(bandwidth, nlsf_q15@);
        let mut a32_q17: [i32; D_LPC_MAX] = [0; D_LPC_MAX];
        for k in 0..d_lpc
            invariant
                d_lpc <= 16,
                a@.len() == d_lpc,
                a32_q17@.len() == 16,
                goal == wide_ints(c@),
                forall|k: int|
                    0 <= k < a@.len() ==> #[trigger] a@[k] == lpc_q17(wide_ints(c@), false, k),
                forall|i: int|
                    0 <= i < k ==> #[trigger] a32_q17@[i] == wrapped_i32(lpc_q17(goal, false, i)),
        {
            a32_q17[k] = wrap_i32(a[k]);
        }
        let lpc: LpcQ17 = LpcQ17 { len: d_lpc as u8, a32_q17 };
        assert(wide_ints(lpc@) =~= filter_coefficients(bandwidth, nlsf_q15@));
        Ok(lpc)
    }

    /// The coefficients.
    pub fn a32_q17(&self) -> (s: &[i32])
        ensures
            s@ == self@,
    {
        proof {
            use_type_invariant(self);
        }
        let s: &[i32] = slice_subrange(array_as_slice(&self.a32_q17), 0, self.len as usize);
        assert(s@ =~= self.a32_q17@.take(self.len as int));
        s
    }

    /// Number of coefficients.
    pub fn len(&self) -> (n: usize)
        ensures
            n == self@.len(),
    {
        proof {
            use_type_invariant(self);
        }
        self.len as usize
    }

    /// Whether there are no coefficients.
    pub fn is_empty(&self) -> (b: bool)
        ensures
            b == (self@.len() == 0),
    {
        proof {
            use_type_invariant(self);
        }
        self.len == 0
    }
}

/// Coefficients at mirrored places of a filter: they add up to minus twice the sum of neighbouring
/// coefficients of the polynomial of the even places, and differ by minus twice the difference of
/// those of the polynomial of the odd places. Wrapping around drops a multiple of 2^32, and nothing
/// where both fit.
pub proof fn law_filter_halves(bandwidth: Bandwidth, nlsf: Seq<i16>, k: int)
    requires
        convertible(bandwidth, nlsf),
        0 <= k < lpc_order(bandwidth) / 2,
    ensures
        ({
            let c = ordered_cosines(bandwidth, nlsf);
            let a = filter_coefficients(bandwidth, nlsf);
            let m = lpc_order(bandwidth) - 1 - k;
            let last = c.len() / 2 - 1;
            let p = cell(evens(c), false, last, k + 1) + cell(evens(c), false, last, k);
            let q = cell(odds(c), false, last, k + 1) - cell(odds(c), false, last, k);
            &&& (a[k] + a[m] + 2 * p) % 0x1_0000_0000 == 0
            &&& (a[k] - a[m] + 2 * q) % 0x1_0000_0000 == 0
            &&& (i32::MIN <= -q - p <= i32::MAX && i32::MIN <= q - p <= i32::MAX) ==> {
                &&& a[k] + a[m] == -2 * p
                &&& a[k] - a[m] == -2 * q
            }
        }),
{
    let c = ordered_cosines(bandwidth, nlsf);
    let m = lpc_order(bandwidth) - 1 - k;
    assert(c.len() == lpc_order(bandwidth)) by {
        law_places_permute(bandwidth);
    }
    law_mirrored_coefficients(c, false, k);
    let (x, y) = (lpc_q17(c, false, k), lpc_q17(c, false, m));
    law_wrapped(x);
    law_wrapped(y);
    lemma_wrapped_pair(x, y);
    let last = c.len() / 2 - 1;
    let p = cell(evens(c), false, last, k + 1) + cell(evens(c), false, last, k);
    let q = cell(odds(c), false, last, k + 1) - cell(odds(c), false, last, k);
    assert(x + y == -2 * p);
    assert(x - y == -2 * q);
}

/// Each frequency's cosine goes to the place that the table gives it: from the table of cosines, by
/// a straight line between the entries on either side, to the nearest eighth.
pub proof fn law_cosines_in_place(bandwidth: Bandwidth, nlsf: Seq<i16>, k: int)
    requires
        convertible(bandwidth, nlsf),
        nonnegative(nlsf),
        0 <= k < nlsf.len(),
    ensures
        ({
            let c = ordered_cosines(bandwidth, nlsf);
            let (i, f) = (nlsf[k] as int / 256, nlsf[k] as int % 256);
            let at = if bandwidth is Wb {
                c[ORDERING_WB@[k] as int]
            } else {
                c[ORDERING_NB_MB@[k] as int]
            };
            &&& c.len() == nlsf.len()
            &&& -4 <= COS_Q12@[i] * (256 - f) + COS_Q12@[i + 1] * f - 8 * at <= 3
        }),
{
    law_places_permute(bandwidth);
    let ords = byte_ints(places(bandwidth));
    let values = Seq::new(nlsf.len(), |k: int| cos_q17(nlsf[k] as int));
    law_ordered_places(ords, values, k);
    let (i, f) = (nlsf[k] as int / 256, nlsf[k] as int % 256);
    law_between(cos_q12(i), cos_q12(i + 1), f);
    law_cosine_entries(i);
    law_cosine_entries(i + 1);
}

/// This layer codes three bandwidths, with sixteen coefficients in the widest and ten in the
/// others, and takes as many frequencies.
pub proof fn law_filter_orders(bandwidth: Bandwidth, nlsf: Seq<i16>)
    ensures
        supported(bandwidth) <==> !(bandwidth is Swb) && !(bandwidth is Fb),
        bandwidth is Nb || bandwidth is Mb ==> lpc_order(bandwidth) == 10,
        bandwidth is Wb ==> lpc_order(bandwidth) == 16,
        convertible(bandwidth, nlsf) ==> supported(bandwidth) && nlsf.len() == lpc_order(bandwidth),
        supported(bandwidth) && filter_coefficients(bandwidth, nlsf).len() == nlsf.len()
            ==> convertible(bandwidth, nlsf),
{
}

} // verus!
