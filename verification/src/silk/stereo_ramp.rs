//! How stereo prediction weights move from one frame to the next, on both sides.
//!
//! At the start of a frame the weights run from those of the frame before to its own, over 8 ms or
//! the whole frame where that is shorter.
use vstd::prelude::*;

use crate::silk::decoder::SilkStereoState;

verus! {

/// The weights (Q13) that a frame starts from, those it arrives at, and the number of samples
/// after which it has.
#[derive(Debug, Clone, Copy, PartialEq, Eq)]
pub struct WeightRamp {
    /// Weights before the frame.
    pub from_q13: [i32; 2],
    /// Weights of the frame.
    pub to_q13: [i32; 2],
    /// Number of samples.
    pub len: usize,
}

/// Samples in 8 ms at `rate` samples per second, but no more than `n`.
pub open spec fn ramp_len(rate: int, n: int) -> int {
    if 8 * rate / 1000 <= n {
        8 * rate / 1000
    } else {
        n
    }
}

/// What a block starts from when two channels are unmixed at 48 kHz.
#[derive(Debug, Clone, Copy, PartialEq, Eq)]
pub struct UnmixStart {
    /// The weights.
    pub ramp: WeightRamp,
    /// Last two samples of the mid channel before the block (Q15).
    pub mid: [i16; 2],
    /// Last two samples of the side channel before the block (Q15).
    pub side: [i16; 2],
}

impl SilkStereoState {
    /// Moves on to a block of `n` samples with the weights `to_q13`, of which the last two samples
    /// are `mid` and `side`. An empty block changes nothing.
    pub fn take_block(
        &mut self,
        n: usize,
        to_q13: [i32; 2],
        mid: [i16; 2],
        side: [i16; 2],
    ) -> (r: Option<UnmixStart>)
        ensures
            n == 0 ==> r is None && *final(self) == *old(self),
            n > 0 ==> {
                &&& r == Some(
                    UnmixStart {
                        ramp: WeightRamp {
                            from_q13: old(self).pred_prev_q13,
                            to_q13,
                            len: ramp_len(48_000, n as int) as usize,
                        },
                        mid: old(self).s_mid,
                        side: old(self).s_side,
                    },
                )
                &&& *final(self) == (SilkStereoState {
                    pred_prev_q13: to_q13,
                    s_mid: mid,
                    s_side: side,
                    prev_decode_only_mid: old(self).prev_decode_only_mid,
                })
            },
    {
        if n == 0 {
            return None;
        }
        let len: usize = if n < 384 {
            n
        } else {
            384
        };
        let start: UnmixStart = UnmixStart {
            ramp: WeightRamp { from_q13: self.pred_prev_q13, to_q13, len },
            mid: self.s_mid,
            side: self.s_side,
        };
        self.pred_prev_q13 = to_q13;
        self.s_mid = mid;
        self.s_side = side;
        Some(start)
    }
}

/// What a writer of two channels remembers: the weights (Q13) of the last frame.
#[derive(Debug, Clone, Copy, PartialEq, Eq)]
pub struct SilkStereoEncoderState {
    /// Prediction weights (Q13) of the last frame.
    pub pred_prev_q13: [i32; 2],
}

impl SilkStereoEncoderState {
    /// The state before the first frame: weights of zero.
    pub fn new() -> (s: Self)
        ensures
            s.pred_prev_q13@ == seq![0i32, 0i32],
    {
        let s: SilkStereoEncoderState = SilkStereoEncoderState { pred_prev_q13: [0; 2] };
        assert(s.pred_prev_q13@ =~= seq![0i32, 0i32]);
        s
    }

    /// The ramp over a frame of `n` samples that would take on the weights `to_q13`.
    pub fn ramp_to(&self, to_q13: [i32; 2], internal_rate_hz: u32, n: usize) -> (r: WeightRamp)
        ensures
            r == (WeightRamp {
                from_q13: self.pred_prev_q13,
                to_q13,
                len: ramp_len(internal_rate_hz as int, n as int) as usize,
            }),
    {
        let most: u64 = 8 * internal_rate_hz as u64 / 1000;
        let len: usize = if most <= n as u64 {
            most as usize
        } else {
            n
        };
        WeightRamp { from_q13: self.pred_prev_q13, to_q13, len }
    }

    /// Settles the weights of a frame: those proposed where they are worth it, or else none. The
    /// state moves on to them.
    pub fn settle(&mut self, proposed_q13: [i32; 2], worthwhile: bool) -> (w: [i32; 2])
        ensures
            worthwhile ==> w == proposed_q13,
            !worthwhile ==> w@ == seq![0i32, 0i32],
            final(self).pred_prev_q13 == w,
    {
        let w: [i32; 2] = if worthwhile {
            proposed_q13
        } else {
            [0; 2]
        };
        assert(!worthwhile ==> w@ =~= seq![0i32, 0i32]);
        self.pred_prev_q13 = w;
        w
    }
}

impl Default for SilkStereoEncoderState {
    fn default() -> (s: Self)
        ensures
            s.pred_prev_q13@ == seq![0i32, 0i32],
    {
        SilkStereoEncoderState::new()
    }
}

/// A ramp ends within its frame, and within 8 ms.
pub proof fn law_ramp_ends_in_time(rate: int, n: int)
    requires
        rate >= 0,
        n >= 0,
    ensures
        0 <= ramp_len(rate, n) <= n,
        1000 * ramp_len(rate, n) <= 8 * rate,
{
}

/// A ramp is as long as it can be: it takes the whole frame, or one more sample would be over 8 ms.
pub proof fn law_ramp_is_longest(rate: int, n: int)
    requires
        rate >= 0,
        n >= 0,
    ensures
        ramp_len(rate, n) == n || 1000 * (ramp_len(rate, n) + 1) > 8 * rate,
{
}

} // verus!
