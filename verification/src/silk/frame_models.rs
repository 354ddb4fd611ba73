//! Probability models of a frame's header, gains, seed and stereo parameters.
use vstd::prelude::*;

use crate::silk::shell_tables::full_icdf;
use crate::silk::tables::{
    FRAME_TYPE_ACTIVE_ICDF, FRAME_TYPE_INACTIVE_ICDF, GAIN_DELTA_ICDF, GAIN_LSB_ICDF,
    GAIN_MSB_INACTIVE_ICDF, GAIN_MSB_UNVOICED_ICDF, GAIN_MSB_VOICED_ICDF, LBRR_FLAGS_2_ICDF,
    LBRR_FLAGS_3_ICDF, LCG_SEED_ICDF, STEREO_ONLY_CODE_MID_ICDF, STEREO_PRED_JOINT_ICDF,
    STEREO_UNIFORM3_ICDF, STEREO_UNIFORM5_ICDF,
};

verus! {

/// The model of the lower three bits of a gain index.
#[verifier::opaque]
pub open spec fn gain_low_model() -> Seq<u8> {
    GAIN_LSB_ICDF@
}

/// The model of the lower three bits of a gain index.
pub fn gain_low_icdf() -> (icdf: &'static [u8])
    ensures
        icdf@ == gain_low_model(),
        icdf@.len() == 8,
        full_icdf(icdf@),
{
    proof {
        reveal(gain_low_model);
    }
    &GAIN_LSB_ICDF
}

/// The model of a change of gain index.
#[verifier::opaque]
pub open spec fn gain_delta_model() -> Seq<u8> {
    GAIN_DELTA_ICDF@
}

/// The model of a change of gain index.
pub fn gain_delta_icdf() -> (icdf: &'static [u8])
    ensures
        icdf@ == gain_delta_model(),
        icdf@.len() == 41,
        full_icdf(icdf@),
{
    proof {
        reveal(gain_delta_model);
    }
    &GAIN_DELTA_ICDF
}

/// The model of the dither seed.
#[verifier::opaque]
pub open spec fn seed_model() -> Seq<u8> {
    LCG_SEED_ICDF@
}

/// The model of the dither seed.
pub fn seed_icdf() -> (icdf: &'static [u8])
    ensures
        icdf@ == seed_model(),
        icdf@.len() == 4,
        full_icdf(icdf@),
{
    proof {
        reveal(seed_model);
    }
    &LCG_SEED_ICDF
}

/// The model of the coarse part of both stereo prediction weights.
#[verifier::opaque]
pub open spec fn joint_weight_model() -> Seq<u8> {
    STEREO_PRED_JOINT_ICDF@
}

/// The model of the coarse part of both stereo prediction weights.
pub fn joint_weight_icdf() -> (icdf: &'static [u8])
    ensures
        icdf@ == joint_weight_model(),
        icdf@.len() == 25,
        full_icdf(icdf@),
{
    proof {
        reveal(joint_weight_model);
    }
    &STEREO_PRED_JOINT_ICDF
}

/// The model of the middle part of a stereo prediction weight.
#[verifier::opaque]
pub open spec fn weight_third_model() -> Seq<u8> {
    STEREO_UNIFORM3_ICDF@
}

/// The model of the middle part of a stereo prediction weight.
pub fn weight_third_icdf() -> (icdf: &'static [u8])
    ensures
        icdf@ == weight_third_model(),
        icdf@.len() == 3,
        full_icdf(icdf@),
{
    proof {
        reveal(weight_third_model);
    }
    &STEREO_UNIFORM3_ICDF
}

/// The model of the fine part of a stereo prediction weight.
#[verifier::opaque]
pub open spec fn weight_step_model() -> Seq<u8> {
    STEREO_UNIFORM5_ICDF@
}

/// The model of the fine part of a stereo prediction weight.
pub fn weight_step_icdf() -> (icdf: &'static [u8])
    ensures
        icdf@ == weight_step_model(),
        icdf@.len() == 5,
        full_icdf(icdf@),
{
    proof {
        reveal(weight_step_model);
    }
    &STEREO_UNIFORM5_ICDF
}

/// The model of whether only the mid channel is coded.
#[verifier::opaque]
pub open spec fn mid_only_model() -> Seq<u8> {
    STEREO_ONLY_CODE_MID_ICDF@
}

/// The model of whether only the mid channel is coded.
pub fn mid_only_icdf() -> (icdf: &'static [u8])
    ensures
        icdf@ == mid_only_model(),
        icdf@.len() == 2,
        full_icdf(icdf@),
{
    proof {
        reveal(mid_only_model);
    }
    &STEREO_ONLY_CODE_MID_ICDF
}

/// The model of the frame type, with and without voice activity.
#[verifier::opaque]
pub open spec fn frame_type_model(active: bool) -> Seq<u8> {
    if active {
        FRAME_TYPE_ACTIVE_ICDF@
    } else {
        FRAME_TYPE_INACTIVE_ICDF@
    }
}

/// The model of the frame type, with and without voice activity.
pub fn frame_type_icdf(active: bool) -> (icdf: &'static [u8])
    ensures
        icdf@ == frame_type_model(active),
        icdf@.len() == (if active {
            4int
        } else {
            2int
        }),
        full_icdf(icdf@),
{
    proof {
        reveal(frame_type_model);
    }
    if active {
        &FRAME_TYPE_ACTIVE_ICDF
    } else {
        &FRAME_TYPE_INACTIVE_ICDF
    }
}

/// The model of the upper three bits of a gain index, for each signal type.
#[verifier::opaque]
pub open spec fn gain_high_model(signal_type: int) -> Seq<u8> {
    if signal_type == 0 {
        GAIN_MSB_INACTIVE_ICDF@
    } else if signal_type == 1 {
        GAIN_MSB_UNVOICED_ICDF@
    } else {
        GAIN_MSB_VOICED_ICDF@
    }
}

/// The model of the upper three bits of a gain index, for each signal type.
pub fn gain_high_icdf(signal_type: u8) -> (icdf: &'static [u8])
    ensures
        icdf@ == gain_high_model(signal_type as int),
        icdf@.len() == 8,
        full_icdf(icdf@),
{
    proof {
        reveal(gain_high_model);
    }
    match signal_type {
        0 => &GAIN_MSB_INACTIVE_ICDF,
        1 => &GAIN_MSB_UNVOICED_ICDF,
        _ => &GAIN_MSB_VOICED_ICDF,
    }
}

/// The model of which frames of a packet of two or three come with a redundant copy.
#[verifier::opaque]
pub open spec fn redundancy_model(frames: int) -> Seq<u8> {
    if frames == 2 {
        LBRR_FLAGS_2_ICDF@
    } else {
        LBRR_FLAGS_3_ICDF@
    }
}

/// The model of which frames of a packet of two or three come with a redundant copy.
pub fn redundancy_icdf(frames: usize) -> (icdf: &'static [u8])
    requires
        frames == 2 || frames == 3,
    ensures
        icdf@ == redundancy_model(frames as int),
        icdf@.len() == (if frames == 2 {
            3int
        } else {
            7int
        }),
        full_icdf(icdf@),
{
    proof {
        reveal(redundancy_model);
    }
    if frames == 2 {
        &LBRR_FLAGS_2_ICDF
    } else {
        &LBRR_FLAGS_3_ICDF
    }
}

} // verus!
