//! From mid and side to left and right: what a frame's unmixing goes by.
use vstd::prelude::*;

use crate::error::SilkError;
use crate::silk_resampler::internal_rate_of;
use crate::toc::Bandwidth;

verus! {

/// Number of samples over which the weights move from those of the frame before: 8 ms.
pub fn interp_phase_samples(bandwidth: Bandwidth) -> (r: Result<usize, SilkError>)
    ensures
        match r {
            Ok(n) => internal_rate_of(bandwidth) is Some && 1000 * n == 8 * internal_rate_of(
                bandwidth,
            )->0,
            Err(e) => internal_rate_of(bandwidth) is None && e == SilkError::MalformedPacket,
        },
{
    match bandwidth {
        Bandwidth::Nb => Ok(64),
        Bandwidth::Mb => Ok(96),
        Bandwidth::Wb => Ok(128),
        _ => Err(SilkError::MalformedPacket),
    }
}

/// Stereo prediction weights of a frame (Q13).
#[derive(Debug, Clone, Copy, PartialEq, Eq, Structural)]
pub struct StereoWeightsQ13 {
    /// Weight of the smoothed mid channel.
    pub w0_q13: i32,
    /// Weight of the mid channel itself.
    pub w1_q13: i32,
}

impl Default for StereoWeightsQ13 {
    fn default() -> (w: Self)
        ensures
            w.w0_q13 == 0,
            w.w1_q13 == 0,
    {
        StereoWeightsQ13 { w0_q13: 0, w1_q13: 0 }
    }
}

/// What unmixing remembers of the weights: those of the frame before.
#[derive(Debug, Clone, Copy, PartialEq, Eq, Structural)]
pub struct StereoUnmixState {
    prev: StereoWeightsQ13,
}

impl Default for StereoUnmixState {
    fn default() -> (m: Self)
        ensures
            m@ == (StereoWeightsQ13 { w0_q13: 0, w1_q13: 0 }),
    {
        StereoUnmixState::new()
    }
}

impl StereoUnmixState {
    /// The weights of the frame before.
    pub closed spec fn view(&self) -> StereoWeightsQ13 {
        self.prev
    }

    /// The memory before the first frame: weights of zero.
    pub fn new() -> (m: Self)
        ensures
            m@ == (StereoWeightsQ13 { w0_q13: 0, w1_q13: 0 }),
    {
        StereoUnmixState { prev: StereoWeightsQ13 { w0_q13: 0, w1_q13: 0 } }
    }

    /// Forgets the frame before.
    pub fn reset(&mut self)
        ensures
            final(self)@ == (StereoWeightsQ13 { w0_q13: 0, w1_q13: 0 }),
    {
        *self = StereoUnmixState::new();
    }

    /// The weights of the frame before.
    pub fn prev_weights(&self) -> (w: StereoWeightsQ13)
        ensures
            w == self@,
    {
        self.prev
    }

    /// Takes in a frame of `mid_len` samples in the mid channel and `side_len` in the side channel,
    /// where that is coded, and moves on to its weights. Gives the weights that the frame starts
    /// from and the number of samples over which they move. An empty frame, channels of different
    /// lengths and bandwidths outside this layer are refused.
    pub fn take_frame(
        &mut self,
        bandwidth: Bandwidth,
        mid_len: usize,
        side_len: Option<usize>,
        weights: StereoWeightsQ13,
    ) -> (r: Result<(StereoWeightsQ13, usize), SilkError>)
        ensures
            match r {
                Ok((from, n1)) => {
                    &&& admissible(bandwidth, mid_len as int, side_len)
                    &&& from == old(self)@
                    &&& 1000 * n1 == 8 * internal_rate_of(bandwidth)->0
                    &&& final(self)@ == weights
                },
                Err(e) => {
                    &&& !admissible(bandwidth, mid_len as int, side_len)
                    &&& e == SilkError::MalformedPacket
                    &&& final(self)@ == old(self)@
                },
            },
    {
        if mid_len == 0 {
            return Err(SilkError::MalformedPacket);
        }
        match side_len {
            Some(n) => {
                if n != mid_len {
                    return Err(SilkError::MalformedPacket);
                }
            },
            None => {},
        }
        let n1: usize = match interp_phase_samples(bandwidth) {
            Ok(n) => n,
            Err(e) => {
                return Err(e);
            },
        };
        let from: StereoWeightsQ13 = self.prev;
        self.prev = weights;
        Ok((from, n1))
    }
}

/// A frame that can be unmixed.
pub open spec fn admissible(bandwidth: Bandwidth, mid_len: int, side_len: Option<usize>) -> bool {
    &&& mid_len > 0
    &&& side_len matches Some(n) ==> n == mid_len
    &&& internal_rate_of(bandwidth) is Some
}

/// A frame is unmixed if and only if it has samples, in both channels as many where both are coded,
/// in a bandwidth of this layer.
pub proof fn law_unmixable(bandwidth: Bandwidth, mid_len: int, side_len: Option<usize>)
    ensures
        mid_len <= 0 ==> !admissible(bandwidth, mid_len, side_len),
        side_len is Some && side_len->0 != mid_len ==> !admissible(bandwidth, mid_len, side_len),
        bandwidth is Swb || bandwidth is Fb ==> !admissible(bandwidth, mid_len, side_len),
        mid_len > 0 && (bandwidth is Nb || bandwidth is Mb || bandwidth is Wb) && (side_len is None
            || side_len->0 == mid_len) ==> admissible(bandwidth, mid_len, side_len),
{
}

} // verus!
