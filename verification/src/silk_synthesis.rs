//! Frame geometry and the choices that synthesis makes per subframe.
use vstd::prelude::*;

use crate::arith::limited;
use crate::error::SilkError;
use crate::silk_frame::{SignalType, SilkFrameSize};
use crate::silk_lsf_to_lpc::{lpc_order, D_LPC_NB_MB, D_LPC_WB};
use crate::silk_resampler::internal_rate_of;
use crate::toc::Bandwidth;

verus! {

/// Number of taps of a long-term prediction filter.
pub const LTP_FILTER_TAPS: usize = 5;

/// Number of subframes of a frame.
pub open spec fn subframe_count(frame_size: SilkFrameSize) -> int {
    match frame_size {
        SilkFrameSize::TenMs => 2,
        SilkFrameSize::TwentyMs => 4,
    }
}

/// Number of subframes of a frame.
pub fn num_subframes(frame_size: SilkFrameSize) -> (n: usize)
    ensures
        n == subframe_count(frame_size),
{
    match frame_size {
        SilkFrameSize::TenMs => 2,
        SilkFrameSize::TwentyMs => 4,
    }
}

/// Samples per subframe at the internal rate: 5 ms.
pub fn subframe_samples(bandwidth: Bandwidth) -> (r: Result<usize, SilkError>)
    ensures
        match r {
            Ok(n) => internal_rate_of(bandwidth) is Some && 200 * n == internal_rate_of(
                bandwidth,
            )->0,
            Err(e) => internal_rate_of(bandwidth) is None && e == SilkError::MalformedPacket,
        },
{
    match bandwidth {
        Bandwidth::Nb => Ok(40),
        Bandwidth::Mb => Ok(60),
        Bandwidth::Wb => Ok(80),
        _ => Err(SilkError::MalformedPacket),
    }
}

/// Samples per frame at the internal rate.
pub fn silk_frame_internal_samples(bandwidth: Bandwidth, frame_size: SilkFrameSize) -> (r: Result<
    usize,
    SilkError,
>)
    ensures
        match r {
            Ok(n) => internal_rate_of(bandwidth) is Some && 200 * n == internal_rate_of(
                bandwidth,
            )->0 * subframe_count(frame_size),
            Err(e) => internal_rate_of(bandwidth) is None && e == SilkError::MalformedPacket,
        },
{
    let n: usize = match subframe_samples(bandwidth) {
        Ok(n) => n,
        Err(e) => {
            return Err(e);
        },
    };
    match frame_size {
        SilkFrameSize::TenMs => {
            assert(internal_rate_of(bandwidth)->0 * 2 == 200 * (n * 2));
            Ok(n * 2)
        },
        SilkFrameSize::TwentyMs => {
            assert(internal_rate_of(bandwidth)->0 * 4 == 200 * (n * 4));
            Ok(n * 4)
        },
    }
}

/// Filter coefficients, each kept to 16 bits.
pub fn a_q12_i16(a_q12: &[i32]) -> (a: Vec<i16>)
    ensures
        a@.len() == a_q12@.len(),
        forall|k: int|
            0 <= k < a@.len() ==> #[trigger] a@[k] == limited(a_q12@[k] as int, -32768, 32767),
{
    let mut a: Vec<i16> = Vec::new();
    for k in 0..a_q12.len()
        invariant
            a@.len() == k,
            forall|i: int|
                0 <= i < k ==> #[trigger] a@[i] == limited(a_q12@[i] as int, -32768, 32767),
    {
        let c: i32 = a_q12[k];
        let kept: i16 = if c < -32768 {
            -32768
        } else if c > 32767 {
            32767
        } else {
            c as i16
        };
        a.push(kept);
    }
    a
}

/// The bandwidth that synthesis is set up for, and whether the histories of its filters are
/// empty.
#[derive(Debug, Clone, Copy, PartialEq, Eq, Structural)]
pub struct SilkSynthState {
    bandwidth: Bandwidth,
    at_rest: bool,
}

/// What synthesis goes by.
pub struct SynthView {
    pub bandwidth: Bandwidth,
    pub at_rest: bool,
}

impl SynthView {
    /// Synthesis that has been set up and has not begun.
    pub open spec fn fresh(bandwidth: Bandwidth) -> SynthView {
        SynthView { bandwidth, at_rest: true }
    }
}

/// The sizes of a decoded frame's parts.
#[derive(Debug, Clone, Copy, PartialEq, Eq, Structural)]
pub struct FrameSizes {
    /// Number of gains.
    pub gains: usize,
    /// Number of excitation samples.
    pub excitation: usize,
    /// Number of pitch lags.
    pub pitch_lags: usize,
    /// Number of long-term prediction filters.
    pub filters: usize,
    /// Number of prediction coefficients of the first half, where it has its own.
    pub first_half: Option<usize>,
    /// Number of prediction coefficients of the frame.
    pub coefficients: usize,
}

/// What one subframe is synthesised with.
#[derive(Debug, Clone, Copy, PartialEq, Eq, Structural)]
pub struct SubframeChoice {
    /// Whether the filter of the first half of the frame is used.
    pub first_half: bool,
    /// Whether the frame's pitch lag and taps are used; otherwise a lag of one and taps of zero.
    pub pitched: bool,
    /// First sample of the subframe.
    pub start: usize,
    /// Sample after the last of the subframe.
    pub end: usize,
}

impl SilkSynthState {
    /// What synthesis goes by.
    pub closed spec fn view(&self) -> SynthView {
        SynthView { bandwidth: self.bandwidth, at_rest: self.at_rest }
    }

    /// Sets synthesis up; bandwidths outside this layer are refused.
    pub fn new(bandwidth: Bandwidth) -> (r: Result<Self, SilkError>)
        ensures
            match r {
                Ok(s) => internal_rate_of(bandwidth) is Some && s@ == SynthView::fresh(bandwidth),
                Err(e) => internal_rate_of(bandwidth) is None && e == SilkError::MalformedPacket,
            },
    {
        match subframe_samples(bandwidth) {
            Ok(_) => Ok(SilkSynthState { bandwidth, at_rest: true }),
            Err(e) => Err(e),
        }
    }

    /// The bandwidth.
    pub fn bandwidth(&self) -> (bw: Bandwidth)
        ensures
            bw == self@.bandwidth,
    {
        self.bandwidth
    }

    /// Whether the histories of the filters are empty: the next frame is synthesised from zeros.
    pub fn at_rest(&self) -> (b: bool)
        ensures
            b == self@.at_rest,
    {
        self.at_rest
    }

    /// Empties the histories of the filters.
    pub fn reset(&mut self)
        ensures
            final(self)@ == SynthView::fresh(old(self)@.bandwidth),
    {
        self.at_rest = true;
    }

    /// The frame can be synthesised: it is of the bandwidth that was set up, has a gain per
    /// subframe, an excitation sample per sample and prediction filters of the bandwidth's order,
    /// and a lag and a long-term filter per subframe where it is voiced.
    pub open spec fn accepts(
        self,
        bandwidth: Bandwidth,
        frame_size: SilkFrameSize,
        signal_type: SignalType,
        sizes: FrameSizes,
    ) -> bool {
        &&& self@.bandwidth == bandwidth
        &&& internal_rate_of(bandwidth) is Some
        &&& sizes.gains == subframe_count(frame_size)
        &&& 200 * sizes.excitation >= internal_rate_of(bandwidth)->0 * subframe_count(frame_size)
        &&& signal_type is Voiced ==> sizes.pitch_lags == subframe_count(frame_size)
            && sizes.filters == subframe_count(frame_size)
        &&& sizes.coefficients == lpc_order(bandwidth)
        &&& frame_size is TwentyMs ==> (sizes.first_half matches Some(n) ==> n == lpc_order(
            bandwidth,
        ))
    }

    /// Checks a frame and plans its subframes. Once a frame is planned the histories are not empty
    /// any more.
    pub fn plan_frame(
        &mut self,
        bandwidth: Bandwidth,
        frame_size: SilkFrameSize,
        signal_type: SignalType,
        sizes: FrameSizes,
    ) -> (r: Result<Vec<SubframeChoice>, SilkError>)
        ensures
            match r {
                Ok(plan) => {
                    &&& old(self).accepts(bandwidth, frame_size, signal_type, sizes)
                    &&& final(self)@ == (SynthView { at_rest: false, ..old(self)@ })
                    &&& plan@.len() == subframe_count(frame_size)
                    &&& forall|s: int|
                        0 <= s < plan@.len() ==> {
                            let c = #[trigger] plan@[s];
                            &&& c.first_half == (frame_size is TwentyMs && sizes.first_half is Some
                                && s < 2)
                            &&& c.pitched == (signal_type is Voiced)
                            &&& 200 * c.start == internal_rate_of(bandwidth)->0 * s
                            &&& 200 * c.end == internal_rate_of(bandwidth)->0 * (s + 1)
                            &&& c.end <= sizes.excitation
                        }
                },
                Err(e) => {
                    &&& !old(self).accepts(bandwidth, frame_size, signal_type, sizes)
                    &&& e == SilkError::MalformedPacket
                    &&& *final(self) == *old(self)
                },
            },
    {
        if self.bandwidth != bandwidth {
            return Err(SilkError::MalformedPacket);
        }
        let n: usize = match subframe_samples(bandwidth) {
            Ok(n) => n,
            Err(e) => {
                return Err(e);
            },
        };
        let count: usize = num_subframes(frame_size);
        let total: usize = match silk_frame_internal_samples(bandwidth, frame_size) {
            Ok(t) => t,
            Err(e) => {
                return Err(e);
            },
        };
        let voiced: bool = signal_type == SignalType::Voiced;
        if sizes.gains != count {
            return Err(SilkError::MalformedPacket);
        }
        if sizes.excitation < total {
            return Err(SilkError::MalformedPacket);
        }
        if voiced && (sizes.pitch_lags != count || sizes.filters != count) {
            return Err(SilkError::MalformedPacket);
        }
        let order: usize = match bandwidth {
            Bandwidth::Wb => D_LPC_WB,
            _ => D_LPC_NB_MB,
        };
        if sizes.coefficients != order {
            return Err(SilkError::MalformedPacket);
        }
        if frame_size == SilkFrameSize::TwentyMs {
            match sizes.first_half {
                Some(k) => if k != order {
                    return Err(SilkError::MalformedPacket);
                },
                None => {},
            }
        }
        let split: bool = frame_size == SilkFrameSize::TwentyMs && sizes.first_half.is_some();
        let ghost rate = internal_rate_of(bandwidth)->0;
        let mut plan: Vec<SubframeChoice> = Vec::new();
        let mut s: usize = 0;
        while s < count
            invariant
                s <= count,
                count == subframe_count(frame_size),
                count <= 4,
                n <= 80,
                rate == 200 * n,
                rate == internal_rate_of(bandwidth)->0,
                200 * total == rate * count,
                total <= sizes.excitation,
                voiced == (signal_type is Voiced),
                split == (frame_size is TwentyMs && sizes.first_half is Some),
                plan@.len() == s,
                forall|i: int|
                    0 <= i < s ==> {
                        let c = #[trigger] plan@[i];
                        &&& c.first_half == (split && i < 2)
                        &&& c.pitched == voiced
                        &&& 200 * c.start == rate * i
                        &&& 200 * c.end == rate * (i + 1)
                        &&& c.end <= sizes.excitation
                    },
            decreases count - s,
        {
            proof {
                let k = s as int;
                assert(0 <= n * k <= 320 && n * (k + 1) == n * k + n) by (nonlinear_arith)
                    requires
                        0 <= n <= 80,
                        0 <= k <= 4,
                ;
                assert(rate * k == 200 * (n * k)) by (nonlinear_arith)
                    requires
                        rate == 200 * n,
                ;
                assert(rate * (k + 1) == 200 * (n * (k + 1))) by (nonlinear_arith)
                    requires
                        rate == 200 * n,
                ;
                assert(rate * (k + 1) <= rate * count) by (nonlinear_arith)
                    requires
                        k + 1 <= count,
                        rate >= 0,
                ;
            }
            plan.push(
                SubframeChoice {
                    first_half: split && s < 2,
                    pitched: voiced,
                    start: n * s,
                    end: n * s + n,
                },
            );
            s = s + 1;
        }
        self.at_rest = false;
        Ok(plan)
    }
}

/// Both durations hold a whole number of subframes.
pub proof fn law_frame_is_whole_subframes(bandwidth: Bandwidth, frame_size: SilkFrameSize)
    requires
        internal_rate_of(bandwidth) is Some,
    ensures
        (internal_rate_of(bandwidth)->0 * subframe_count(frame_size)) % 200 == 0,
{
    let r = internal_rate_of(bandwidth)->0;
    if frame_size is TenMs {
        assert(r * subframe_count(frame_size) == 2 * r);
    } else {
        assert(r * subframe_count(frame_size) == 4 * r);
    }
}

/// Subframes last 5 ms, so a frame of 10 ms has two and one of 20 ms four.
pub proof fn law_subframes_of_five_ms(frame_size: SilkFrameSize)
    ensures
        frame_size is TenMs ==> 5 * subframe_count(frame_size) == 10,
        frame_size is TwentyMs ==> 5 * subframe_count(frame_size) == 20,
{
}

/// What a frame that can be synthesised holds: in each bandwidth as many excitation samples and
/// coefficients, and per 5 ms a gain, and a lag and a filter where it is voiced.
pub proof fn law_accepted_frames(
    s: SilkSynthState,
    bandwidth: Bandwidth,
    frame_size: SilkFrameSize,
    signal_type: SignalType,
    sizes: FrameSizes,
)
    requires
        s.accepts(bandwidth, frame_size, signal_type, sizes),
    ensures
        ({
            let n: int = if frame_size is TenMs {
                2
            } else {
                4
            };
            &&& s@.bandwidth == bandwidth
            &&& sizes.gains == n
            &&& bandwidth is Nb ==> sizes.excitation >= 40 * n && sizes.coefficients == 10
            &&& bandwidth is Mb ==> sizes.excitation >= 60 * n && sizes.coefficients == 10
            &&& bandwidth is Wb ==> sizes.excitation >= 80 * n && sizes.coefficients == 16
            &&& bandwidth is Nb || bandwidth is Mb || bandwidth is Wb
            &&& signal_type is Voiced ==> sizes.pitch_lags == n && sizes.filters == n
            &&& n == 4 && sizes.first_half is Some ==> sizes.first_half->0 == sizes.coefficients
        }),
{
}

/// A frame of the right sizes is accepted, whatever the parts that its type does not use.
pub proof fn law_frames_of_right_size_accepted(
    s: SilkSynthState,
    bandwidth: Bandwidth,
    frame_size: SilkFrameSize,
    signal_type: SignalType,
    sizes: FrameSizes,
)
    requires
        s@.bandwidth == bandwidth,
        bandwidth is Nb || bandwidth is Mb || bandwidth is Wb,
        sizes.gains == (if frame_size is TenMs {
            2int
        } else {
            4
        }),
        200 * sizes.excitation == internal_rate_of(bandwidth)->0 * sizes.gains,
        signal_type is Voiced ==> sizes.pitch_lags == sizes.gains && sizes.filters == sizes.gains,
        sizes.coefficients == (if bandwidth is Wb {
            16int
        } else {
            10
        }),
        frame_size is TwentyMs && sizes.first_half is Some ==> sizes.first_half->0
            == sizes.coefficients,
    ensures
        s.accepts(bandwidth, frame_size, signal_type, sizes),
{
}

} // verus!
