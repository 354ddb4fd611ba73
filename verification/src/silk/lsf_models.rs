//! Probability models and symbols of the normalised line spectral frequencies (NLSFs).
use oxideav_celt::range_decoder::RangeDecoder;
use oxideav_celt::range_encoder::RangeEncoder;
use vstd::prelude::*;

use crate::arith::{clamp_i32, limited};
use crate::range_coder::{
    can_read, can_write, codable, has_read, has_written, read_log, read_symbol, symbol, write_log,
    write_symbol, Coded,
};
use crate::silk::shell::signed_ints;
use crate::silk::shell_tables::full_icdf;
use crate::silk::tables::{
    NLSF_INTERP_ICDF, NLSF_NBMB_STAGE2_ICDF, NLSF_NBMB_STAGE2_SELECT, NLSF_NB_STAGE1_UNVOICED_ICDF,
    NLSF_NB_STAGE1_VOICED_ICDF, NLSF_STAGE2_EXTENSION_ICDF, NLSF_WB_STAGE1_UNVOICED_ICDF,
    NLSF_WB_STAGE1_VOICED_ICDF, NLSF_WB_STAGE2_ICDF, NLSF_WB_STAGE2_SELECT,
};

verus! {

/// Number of NLSFs of a frame.
pub open spec fn order_of(is_wb: bool) -> int {
    if is_wb {
        16
    } else {
        10
    }
}

/// The model of the stage-1 index.
#[verifier::opaque]
pub open spec fn stage1_model(is_wb: bool, voiced: bool) -> Seq<u8> {
    if is_wb {
        if voiced {
            NLSF_WB_STAGE1_VOICED_ICDF@
        } else {
            NLSF_WB_STAGE1_UNVOICED_ICDF@
        }
    } else {
        if voiced {
            NLSF_NB_STAGE1_VOICED_ICDF@
        } else {
            NLSF_NB_STAGE1_UNVOICED_ICDF@
        }
    }
}

/// The model of stage-2 residual `k` under the stage-1 index `i1`.
#[verifier::opaque]
pub open spec fn stage2_model(is_wb: bool, i1: int, k: int) -> Seq<u8> {
    if is_wb {
        NLSF_WB_STAGE2_ICDF[NLSF_WB_STAGE2_SELECT[i1][k] as int]@
    } else {
        NLSF_NBMB_STAGE2_ICDF[NLSF_NBMB_STAGE2_SELECT[i1][k] as int]@
    }
}

/// The model of what a residual exceeds 4 by.
#[verifier::opaque]
pub open spec fn extension_model() -> Seq<u8> {
    NLSF_STAGE2_EXTENSION_ICDF@
}

/// The model of the interpolation factor.
#[verifier::opaque]
pub open spec fn interp_model() -> Seq<u8> {
    NLSF_INTERP_ICDF@
}

/// The symbols of the residual `r`: nine values, of which the outer two are extended.
pub open spec fn residual_log(model: Seq<u8>, r: int) -> Seq<Coded> {
    if r >= 4 {
        seq![symbol(model, 8), symbol(extension_model(), r - 4)]
    } else if r <= -4 {
        seq![symbol(model, 0), symbol(extension_model(), -r - 4)]
    } else {
        seq![symbol(model, r + 4)]
    }
}

/// The symbols of the stage-2 residuals `res`.
pub open spec fn stage2_log(is_wb: bool, i1: int, res: Seq<int>) -> Seq<Coded>
    decreases res.len(),
{
    if res.len() == 0 {
        Seq::empty()
    } else {
        stage2_log(is_wb, i1, res.drop_last()) + residual_log(
            stage2_model(is_wb, i1, res.len() - 1),
            res.last(),
        )
    }
}

/// The symbols of a frame's NLSFs. The interpolation factor is there in 20 ms frames only.
pub open spec fn nlsf_log(
    is_wb: bool,
    voiced: bool,
    i1: int,
    res: Seq<int>,
    is_20ms: bool,
    interp: int,
) -> Seq<Coded> {
    seq![symbol(stage1_model(is_wb, voiced), i1)] + stage2_log(is_wb, i1, res) + (if is_20ms {
        seq![symbol(interp_model(), interp)]
    } else {
        Seq::empty()
    })
}

/// Residuals that the stream can carry.
pub open spec fn in_residual_range(res: Seq<int>) -> bool {
    forall|k: int| 0 <= k < res.len() ==> -10 <= #[trigger] res[k] <= 10
}

/// Each residual, limited to what the stream can carry.
pub open spec fn limited_residuals(res: Seq<int>) -> Seq<int> {
    Seq::new(res.len(), |k: int| limited(res[k], -10, 10))
}

/// The model of the stage-1 index.
pub fn stage1_icdf(is_wb: bool, voiced: bool) -> (icdf: &'static [u8])
    ensures
        icdf@ == stage1_model(is_wb, voiced),
        icdf@.len() == 32,
        full_icdf(icdf@),
{
    proof {
        reveal(stage1_model);
        lemma_stage1_full();
    }
    if is_wb {
        if voiced {
            &NLSF_WB_STAGE1_VOICED_ICDF
        } else {
            &NLSF_WB_STAGE1_UNVOICED_ICDF
        }
    } else {
        if voiced {
            &NLSF_NB_STAGE1_VOICED_ICDF
        } else {
            &NLSF_NB_STAGE1_UNVOICED_ICDF
        }
    }
}

proof fn lemma_stage1_full()
    ensures
        full_icdf(NLSF_WB_STAGE1_VOICED_ICDF@),
        full_icdf(NLSF_WB_STAGE1_UNVOICED_ICDF@),
        full_icdf(NLSF_NB_STAGE1_VOICED_ICDF@),
        full_icdf(NLSF_NB_STAGE1_UNVOICED_ICDF@),
{
}

proof fn lemma_stage2_full()
    ensures
        forall|c: int| 0 <= c < 8 ==> full_icdf(#[trigger] NLSF_WB_STAGE2_ICDF[c]@),
        forall|c: int| 0 <= c < 8 ==> full_icdf(#[trigger] NLSF_NBMB_STAGE2_ICDF[c]@),
{
}

#[verifier::spinoff_prover]
proof fn lemma_select_wb(i1: int, k: int)
    requires
        0 <= i1 < 32,
        0 <= k < 16,
    ensures
        NLSF_WB_STAGE2_SELECT[i1][k] < 8,
{
}

#[verifier::spinoff_prover]
proof fn lemma_select_nbmb(i1: int, k: int)
    requires
        0 <= i1 < 32,
        0 <= k < 10,
    ensures
        NLSF_NBMB_STAGE2_SELECT[i1][k] < 8,
{
}

/// The model of stage-2 residual `k` under the stage-1 index `i1`.
pub fn stage2_icdf(is_wb: bool, i1: usize, k: usize) -> (icdf: &'static [u8])
    requires
        i1 < 32,
        k < order_of(is_wb),
    ensures
        icdf@ == stage2_model(is_wb, i1 as int, k as int),
        icdf@.len() == 9,
        full_icdf(icdf@),
{
    proof {
        reveal(stage2_model);
        lemma_stage2_full();
    }
    if is_wb {
        proof {
            lemma_select_wb(i1 as int, k as int);
        }
        &NLSF_WB_STAGE2_ICDF[NLSF_WB_STAGE2_SELECT[i1][k] as usize]
    } else {
        proof {
            lemma_select_nbmb(i1 as int, k as int);
        }
        &NLSF_NBMB_STAGE2_ICDF[NLSF_NBMB_STAGE2_SELECT[i1][k] as usize]
    }
}

/// The model of what a residual exceeds 4 by.
fn extension_icdf() -> (icdf: &'static [u8])
    ensures
        icdf@ == extension_model(),
        icdf@.len() == 7,
        full_icdf(icdf@),
{
    proof {
        reveal(extension_model);
    }
    &NLSF_STAGE2_EXTENSION_ICDF
}

/// The model of the interpolation factor.
pub fn interp_icdf() -> (icdf: &'static [u8])
    ensures
        icdf@ == interp_model(),
        icdf@.len() == 5,
        full_icdf(icdf@),
{
    proof {
        reveal(interp_model);
    }
    &NLSF_INTERP_ICDF
}

/// Reads one stage-2 residual.
fn decode_residual(rc: &mut RangeDecoder<'_>, icdf: &[u8]) -> (r: i32)
    requires
        full_icdf(icdf@),
        icdf@.len() == 9,
        can_read(old(rc), 2),
    ensures
        -10 <= r <= 10,
        has_read(old(rc), final(rc), residual_log(icdf@, r as int)),
        read_log(final(rc)).len() <= read_log(old(rc)).len() + 2,
{
    let sym: i32 = read_symbol(rc, icdf) as i32 - 4;
    let mut idx: i32 = sym;
    if idx == -4 || idx == 4 {
        let ext: i32 = read_symbol(rc, extension_icdf()) as i32;
        if idx > 0 {
            idx = idx + ext;
        } else {
            idx = idx - ext;
        }
    }
    assert(read_log(rc) =~= read_log(old(rc)) + residual_log(icdf@, idx as int));
    idx
}

/// Reads all stage-2 residuals.
pub fn decode_stage2(rc: &mut RangeDecoder<'_>, is_wb: bool, i1: usize) -> (res: Vec<i32>)
    requires
        i1 < 32,
        can_read(old(rc), 32),
    ensures
        res@.len() == order_of(is_wb),
        in_residual_range(signed_ints(res@)),
        has_read(old(rc), final(rc), stage2_log(is_wb, i1 as int, signed_ints(res@))),
        read_log(final(rc)).len() <= read_log(old(rc)).len() + 32,
{
    let order: usize = if is_wb {
        16
    } else {
        10
    };
    let mut res: Vec<i32> = Vec::new();
    assert(read_log(rc) =~= read_log(old(rc)) + stage2_log(is_wb, i1 as int, signed_ints(res@)));
    for k in 0..order
        invariant
            i1 < 32,
            order == order_of(is_wb),
            res@.len() == k,
            in_residual_range(signed_ints(res@)),
            has_read(old(rc), rc, stage2_log(is_wb, i1 as int, signed_ints(res@))),
            read_log(rc).len() <= read_log(old(rc)).len() + 2 * k,
            can_read(old(rc), 32),
    {
        let ghost was = signed_ints(res@);
        let r: i32 = decode_residual(rc, stage2_icdf(is_wb, i1, k));
        res.push(r);
        proof {
            assert(signed_ints(res@).drop_last() =~= was);
            assert forall|j: int| 0 <= j < signed_ints(res@).len() implies -10
                <= #[trigger] signed_ints(res@)[j] <= 10 by {
                if j < k {
                    assert(signed_ints(res@)[j] == was[j]);
                }
            }
            assert(read_log(rc) =~= read_log(old(rc)) + stage2_log(
                is_wb,
                i1 as int,
                signed_ints(res@),
            ));
        }
    }
    res
}

/// Writes stage-2 residuals, each limited to what the stream can carry.
pub fn encode_nlsf_stage2(enc: &mut RangeEncoder, i1: usize, residuals: &[i32], is_wb: bool)
    requires
        i1 < 32,
        residuals@.len() <= order_of(is_wb),
        can_write(old(enc), 2 * residuals@.len() as int),
    ensures
        has_written(
            old(enc),
            final(enc),
            stage2_log(is_wb, i1 as int, limited_residuals(signed_ints(residuals@))),
        ),
        write_log(final(enc)).len() <= write_log(old(enc)).len() + 2 * residuals@.len(),
{
    let ghost lim = limited_residuals(signed_ints(residuals@));
    assert(lim.take(0) =~= Seq::<int>::empty());
    assert(write_log(enc) =~= write_log(old(enc)) + stage2_log(is_wb, i1 as int, lim.take(0)));
    for k in 0..residuals.len()
        invariant
            i1 < 32,
            residuals@.len() <= order_of(is_wb),
            lim == limited_residuals(signed_ints(residuals@)),
            can_write(old(enc), 2 * residuals@.len() as int),
            has_written(old(enc), enc, stage2_log(is_wb, i1 as int, lim.take(k as int))),
            write_log(enc).len() <= write_log(old(enc)).len() + 2 * k,
    {
        let r: i32 = clamp_i32(residuals[k], -10, 10);
        let icdf: &[u8] = stage2_icdf(is_wb, i1, k);
        let (sym, ext): (usize, usize) = if r >= 4 {
            (8, (r - 4) as usize)
        } else if r <= -4 {
            (0, (-r - 4) as usize)
        } else {
            ((r + 4) as usize, 0)
        };
        assert(codable(icdf@, sym as int));
        write_symbol(enc, sym, icdf);
        if r >= 4 || r <= -4 {
            let outer: &[u8] = extension_icdf();
            assert(codable(outer@, ext as int));
            write_symbol(enc, ext, outer);
        }
        proof {
            assert(lim.take(k + 1).drop_last() =~= lim.take(k as int));
            assert(write_log(enc) =~= write_log(old(enc)) + stage2_log(
                is_wb,
                i1 as int,
                lim.take(k + 1),
            ));
        }
    }
    assert(lim.take(residuals@.len() as int) =~= lim);
}

} // verus!
