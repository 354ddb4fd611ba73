//! Probability models of the long-term prediction parameters.
use vstd::prelude::*;

use crate::silk::shell_tables::full_icdf;
use crate::silk::tables::{
    LTP_FILTER_P0_ICDF, LTP_FILTER_P1_ICDF, LTP_FILTER_P2_ICDF, LTP_PERIODICITY_ICDF,
    LTP_SCALING_ICDF, PITCH_CONTOUR_NB_20MS_ICDF, PITCH_DELTA_ICDF, PITCH_LAG_NB_HIGH_ICDF,
    PITCH_LAG_NB_LOW_ICDF,
};

verus! {

/// The model of the upper part of an absolute pitch lag.
#[verifier::opaque]
pub open spec fn lag_high_model() -> Seq<u8> {
    PITCH_LAG_NB_HIGH_ICDF@
}

/// The model of the upper part of an absolute pitch lag.
pub fn lag_high_icdf() -> (icdf: &'static [u8])
    ensures
        icdf@ == lag_high_model(),
        icdf@.len() == 32,
        full_icdf(icdf@),
{
    proof {
        reveal(lag_high_model);
    }
    &PITCH_LAG_NB_HIGH_ICDF
}

/// The model of the lower part of an absolute pitch lag.
#[verifier::opaque]
pub open spec fn lag_low_model() -> Seq<u8> {
    PITCH_LAG_NB_LOW_ICDF@
}

/// The model of the lower part of an absolute pitch lag.
pub fn lag_low_icdf() -> (icdf: &'static [u8])
    ensures
        icdf@ == lag_low_model(),
        icdf@.len() == 4,
        full_icdf(icdf@),
{
    proof {
        reveal(lag_low_model);
    }
    &PITCH_LAG_NB_LOW_ICDF
}

/// The model of a change of pitch lag.
#[verifier::opaque]
pub open spec fn lag_delta_model() -> Seq<u8> {
    PITCH_DELTA_ICDF@
}

/// The model of a change of pitch lag.
pub fn lag_delta_icdf() -> (icdf: &'static [u8])
    ensures
        icdf@ == lag_delta_model(),
        icdf@.len() == 21,
        full_icdf(icdf@),
{
    proof {
        reveal(lag_delta_model);
    }
    &PITCH_DELTA_ICDF
}

/// The model of the pitch contour.
#[verifier::opaque]
pub open spec fn contour_model() -> Seq<u8> {
    PITCH_CONTOUR_NB_20MS_ICDF@
}

/// The model of the pitch contour.
pub fn contour_icdf() -> (icdf: &'static [u8])
    ensures
        icdf@ == contour_model(),
        icdf@.len() == 11,
        full_icdf(icdf@),
{
    proof {
        reveal(contour_model);
    }
    &PITCH_CONTOUR_NB_20MS_ICDF
}

/// The model of the periodicity class.
#[verifier::opaque]
pub open spec fn periodicity_model() -> Seq<u8> {
    LTP_PERIODICITY_ICDF@
}

/// The model of the periodicity class.
pub fn periodicity_icdf() -> (icdf: &'static [u8])
    ensures
        icdf@ == periodicity_model(),
        icdf@.len() == 3,
        full_icdf(icdf@),
{
    proof {
        reveal(periodicity_model);
    }
    &LTP_PERIODICITY_ICDF
}

/// The model of the long-term prediction scale.
#[verifier::opaque]
pub open spec fn scaling_model() -> Seq<u8> {
    LTP_SCALING_ICDF@
}

/// The model of the long-term prediction scale.
pub fn scaling_icdf() -> (icdf: &'static [u8])
    ensures
        icdf@ == scaling_model(),
        icdf@.len() == 3,
        full_icdf(icdf@),
{
    proof {
        reveal(scaling_model);
    }
    &LTP_SCALING_ICDF
}

/// Number of filters of a periodicity class. Classes above 2 count as 2.
pub open spec fn filter_count(periodicity: int) -> int {
    if periodicity == 0 {
        8
    } else if periodicity == 1 {
        16
    } else {
        32
    }
}

/// The model of the filter index in a periodicity class.
#[verifier::opaque]
pub open spec fn filter_model(periodicity: int) -> Seq<u8> {
    if periodicity == 0 {
        LTP_FILTER_P0_ICDF@
    } else if periodicity == 1 {
        LTP_FILTER_P1_ICDF@
    } else {
        LTP_FILTER_P2_ICDF@
    }
}

/// The model of the filter index in a periodicity class.
pub fn filter_icdf(periodicity: usize) -> (icdf: &'static [u8])
    ensures
        icdf@ == filter_model(periodicity as int),
        icdf@.len() == filter_count(periodicity as int),
        full_icdf(icdf@),
{
    proof {
        reveal(filter_model);
    }
    match periodicity {
        0 => &LTP_FILTER_P0_ICDF,
        1 => &LTP_FILTER_P1_ICDF,
        _ => &LTP_FILTER_P2_ICDF,
    }
}

} // verus!
