//! Which table each probability model is.
use vstd::prelude::*;

use crate::silk::frame_models::{
    frame_type_model, gain_delta_model, gain_high_model, gain_low_model, joint_weight_model,
    mid_only_model, redundancy_model, seed_model, weight_step_model, weight_third_model,
};
use crate::silk::lsf_models::{extension_model, interp_model, stage1_model, stage2_model};
use crate::silk::ltp_models::{
    contour_model, filter_count, filter_model, lag_delta_model, lag_high_model, lag_low_model,
    periodicity_model, scaling_model,
};
use crate::silk::shell_tables::{
    icdf_of, lemma_icdf_of_full, lemma_split_full, rate_model, sign_model, split_model,
    split_pdf_spec, sum_from, PDF_SPLIT_16, PDF_SPLIT_2, PDF_SPLIT_4, PDF_SPLIT_8,
    RATE_LEVEL_INACTIVE_ICDF, RATE_LEVEL_VOICED_ICDF, SIGN_ICDF,
};
use crate::silk::tables::{
    FRAME_TYPE_ACTIVE_ICDF, FRAME_TYPE_INACTIVE_ICDF, GAIN_DELTA_ICDF, GAIN_LSB_ICDF,
    GAIN_MSB_INACTIVE_ICDF, GAIN_MSB_UNVOICED_ICDF, GAIN_MSB_VOICED_ICDF, LBRR_FLAGS_2_ICDF,
    LBRR_FLAGS_3_ICDF, LCG_SEED_ICDF, LTP_FILTER_P0_ICDF, LTP_FILTER_P1_ICDF, LTP_FILTER_P2_ICDF,
    LTP_PERIODICITY_ICDF, LTP_SCALING_ICDF, NLSF_INTERP_ICDF, NLSF_NBMB_STAGE2_ICDF,
    NLSF_NBMB_STAGE2_SELECT, NLSF_NB_STAGE1_UNVOICED_ICDF, NLSF_NB_STAGE1_VOICED_ICDF,
    NLSF_STAGE2_EXTENSION_ICDF, NLSF_WB_STAGE1_UNVOICED_ICDF, NLSF_WB_STAGE1_VOICED_ICDF,
    NLSF_WB_STAGE2_ICDF, NLSF_WB_STAGE2_SELECT, PITCH_CONTOUR_NB_20MS_ICDF, PITCH_DELTA_ICDF,
    PITCH_LAG_NB_HIGH_ICDF, PITCH_LAG_NB_LOW_ICDF, STEREO_ONLY_CODE_MID_ICDF,
    STEREO_PRED_JOINT_ICDF, STEREO_UNIFORM3_ICDF, STEREO_UNIFORM5_ICDF,
};

verus! {

/// The models of a frame's type, gains and seed.
pub proof fn law_frame_model_tables(signal_type: int)
    requires
        0 <= signal_type <= 2,
    ensures
        frame_type_model(true) == FRAME_TYPE_ACTIVE_ICDF@,
        frame_type_model(false) == FRAME_TYPE_INACTIVE_ICDF@,
        signal_type == 0 ==> gain_high_model(signal_type) == GAIN_MSB_INACTIVE_ICDF@,
        signal_type == 1 ==> gain_high_model(signal_type) == GAIN_MSB_UNVOICED_ICDF@,
        signal_type == 2 ==> gain_high_model(signal_type) == GAIN_MSB_VOICED_ICDF@,
        gain_low_model() == GAIN_LSB_ICDF@,
        gain_delta_model() == GAIN_DELTA_ICDF@,
        seed_model() == LCG_SEED_ICDF@,
{
    reveal(frame_type_model);
    reveal(gain_high_model);
    reveal(gain_low_model);
    reveal(gain_delta_model);
    reveal(seed_model);
}

/// The models of redundant copies and stereo parameters.
pub proof fn law_stereo_model_tables()
    ensures
        redundancy_model(2) == LBRR_FLAGS_2_ICDF@,
        redundancy_model(3) == LBRR_FLAGS_3_ICDF@,
        joint_weight_model() == STEREO_PRED_JOINT_ICDF@,
        weight_third_model() == STEREO_UNIFORM3_ICDF@,
        weight_step_model() == STEREO_UNIFORM5_ICDF@,
        mid_only_model() == STEREO_ONLY_CODE_MID_ICDF@,
{
    reveal(redundancy_model);
    reveal(joint_weight_model);
    reveal(weight_third_model);
    reveal(weight_step_model);
    reveal(mid_only_model);
}

/// The models of a frame's NLSFs. That of a residual is selected by the stage-1 index and the
/// number of the residual.
pub proof fn law_nlsf_model_tables(i1: int, k: int)
    ensures
        stage1_model(false, false) == NLSF_NB_STAGE1_UNVOICED_ICDF@,
        stage1_model(false, true) == NLSF_NB_STAGE1_VOICED_ICDF@,
        stage1_model(true, false) == NLSF_WB_STAGE1_UNVOICED_ICDF@,
        stage1_model(true, true) == NLSF_WB_STAGE1_VOICED_ICDF@,
        stage2_model(false, i1, k)
            == NLSF_NBMB_STAGE2_ICDF@[NLSF_NBMB_STAGE2_SELECT@[i1]@[k] as int]@,
        stage2_model(true, i1, k) == NLSF_WB_STAGE2_ICDF@[NLSF_WB_STAGE2_SELECT@[i1]@[k] as int]@,
        extension_model() == NLSF_STAGE2_EXTENSION_ICDF@,
        interp_model() == NLSF_INTERP_ICDF@,
{
    reveal(stage1_model);
    reveal(stage2_model);
    reveal(extension_model);
    reveal(interp_model);
}

/// The models of long-term prediction. There are 8, 16 and 32 filters in the three classes.
pub proof fn law_pitch_model_tables()
    ensures
        lag_high_model() == PITCH_LAG_NB_HIGH_ICDF@,
        lag_low_model() == PITCH_LAG_NB_LOW_ICDF@,
        lag_delta_model() == PITCH_DELTA_ICDF@,
        contour_model() == PITCH_CONTOUR_NB_20MS_ICDF@,
        periodicity_model() == LTP_PERIODICITY_ICDF@,
        scaling_model() == LTP_SCALING_ICDF@,
        filter_model(0) == LTP_FILTER_P0_ICDF@,
        filter_model(1) == LTP_FILTER_P1_ICDF@,
        filter_model(2) == LTP_FILTER_P2_ICDF@,
        filter_count(0) == LTP_FILTER_P0_ICDF@.len(),
        filter_count(1) == LTP_FILTER_P1_ICDF@.len(),
        filter_count(2) == LTP_FILTER_P2_ICDF@.len(),
{
    reveal(lag_high_model);
    reveal(lag_low_model);
    reveal(lag_delta_model);
    reveal(contour_model);
    reveal(periodicity_model);
    reveal(scaling_model);
    reveal(filter_model);
}

/// The models of rate levels and signs. Signal types past 2, offset types past 1 and more than six
/// pulses count as the last of each.
pub proof fn law_excitation_model_tables(signal_type: int, quant_offset_type: int, pulses: int)
    requires
        signal_type >= 0,
        quant_offset_type >= 0,
        pulses >= 0,
    ensures
        rate_model(2) == RATE_LEVEL_VOICED_ICDF@,
        signal_type != 2 ==> rate_model(signal_type) == RATE_LEVEL_INACTIVE_ICDF@,
        signal_type <= 2 && quant_offset_type <= 1 && pulses <= 6 ==> sign_model(
            signal_type,
            quant_offset_type,
            pulses,
        ) == SIGN_ICDF@[signal_type]@[quant_offset_type]@[pulses]@,
        pulses > 6 ==> sign_model(signal_type, quant_offset_type, pulses) == sign_model(
            signal_type,
            quant_offset_type,
            6,
        ),
        quant_offset_type > 1 ==> sign_model(signal_type, quant_offset_type, pulses) == sign_model(
            signal_type,
            1,
            pulses,
        ),
        signal_type > 2 ==> sign_model(signal_type, quant_offset_type, pulses) == sign_model(
            2,
            quant_offset_type,
            pulses,
        ),
{
    reveal(rate_model);
    reveal(sign_model);
}

/// The model of how pulses split over two halves, from the probabilities (of 256) in the table for
/// the number of samples: the weight below the first entry is the first probability, and every
/// entry is its probability below the one before. The last entry is zero.
pub proof fn law_split_model_tables(size: int, pulses: int, k: int)
    requires
        size == 2 || size == 4 || size == 8 || size == 16,
        1 <= pulses <= 16,
        0 <= k <= pulses,
    ensures
        ({
            let m = split_model(size, pulses);
            let p = if size == 16 {
                PDF_SPLIT_16@[pulses - 1]@[k]
            } else if size == 8 {
                PDF_SPLIT_8@[pulses - 1]@[k]
            } else if size == 4 {
                PDF_SPLIT_4@[pulses - 1]@[k]
            } else {
                PDF_SPLIT_2@[pulses - 1]@[k]
            };
            &&& m.len() == pulses + 1
            &&& m[pulses] == 0
            &&& k == 0 ==> m[k] + p == 256
            &&& k > 0 ==> m[k] + p == m[k - 1]
        }),
{
    reveal(split_model);
    let pdf = split_pdf_spec(size, pulses);
    lemma_split_full(size, pulses);
    lemma_icdf_of_full(pdf);
    assert(icdf_of(pdf)[k] == sum_from(pdf, k + 1));
    assert(icdf_of(pdf)[pulses] == sum_from(pdf, pulses + 1));
    assert(sum_from(pdf, pulses + 1) == 0);
    assert(sum_from(pdf, k) == pdf[k] + sum_from(pdf, k + 1));
    if k > 0 {
        assert(icdf_of(pdf)[k - 1] == sum_from(pdf, k));
    }
}

} // verus!
