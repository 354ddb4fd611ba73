//! Decisions of an encoder of one channel that sends one 20 ms frame per packet.
//!
//! Spectral, pitch and gain analysis work on samples and are not part of this module; here their
//! results become what is coded.
use vstd::prelude::*;

use crate::arith::{clamp_i32, limited};
use crate::error::SilkError;
use crate::silk::ltp::scale_of;
use crate::silk_gains::{independent_gain, SubframeGains};
use crate::silk_lsf_to_lpc::{lpc_order, D_LPC_NB_MB, D_LPC_WB};
use crate::silk_resampler::internal_rate_of;
use crate::silk_synthesis::subframe_samples;
use crate::toc::Bandwidth;

verus! {

/// The frame type of an active frame with the smaller quantisation offset.
pub fn frame_type(voiced: bool) -> (t: u8)
    ensures
        t == (if voiced {
            4int
        } else {
            2int
        }),
{
    if voiced {
        4
    } else {
        2
    }
}

/// What is coded the same in every frame, or in every voiced one.
#[derive(Debug, Clone, Copy, PartialEq, Eq, Structural)]
pub struct FrameSettings {
    /// The frame type.
    pub frame_type: u8,
    /// The interpolation factor of the frequencies, in quarters.
    pub lsf_interp_w_q2: u8,
    /// The seed of the dither.
    pub lcg_seed: u8,
    /// The index of the long-term prediction scale, in voiced frames.
    pub ltp_scaling_index: Option<u8>,
    /// The long-term prediction scale (Q14) that it stands for.
    pub ltp_scaling_q14: Option<i32>,
    /// Whether the larger quantisation offset is used.
    pub high_offset: bool,
}

/// The settings of a frame: no interpolation of frequencies, seed zero, the smaller quantisation
/// offset, and in voiced frames the first long-term prediction scale.
pub fn frame_settings(voiced: bool) -> (s: FrameSettings)
    ensures
        s.frame_type == (if voiced {
            4int
        } else {
            2int
        }),
        s.lsf_interp_w_q2 == 4,
        s.lcg_seed == 0,
        voiced ==> s.ltp_scaling_index == Some(0u8) && s.ltp_scaling_q14 == Some(15565i32),
        !voiced ==> s.ltp_scaling_index is None && s.ltp_scaling_q14 is None,
        !s.high_offset,
        s.frame_type % 2 == 0,
        s.ltp_scaling_index matches Some(i) ==> s.ltp_scaling_q14->0 == scale_of(i as int),
{
    FrameSettings {
        frame_type: frame_type(voiced),
        lsf_interp_w_q2: 4,
        lcg_seed: 0,
        ltp_scaling_index: if voiced {
            Some(0)
        } else {
            None
        },
        ltp_scaling_q14: if voiced {
            Some(15565)
        } else {
            None
        },
        high_offset: false,
    }
}

/// How often a prediction filter is widened again to get frequencies from it.
pub const SPECTRUM_RETRIES: u32 = 4;

/// What to do after an attempt to turn a prediction filter into frequencies.
#[derive(Debug, Clone, Copy, PartialEq, Eq, Structural)]
pub enum SpectrumStep {
    /// The frequencies are there: use them.
    Use,
    /// Widen the filter's resonances and try again.
    Widen,
    /// Use a flat spectrum.
    Flat,
}

/// What to do after an attempt that followed `retries` others, and did or did not give
/// frequencies. The filter is widened at most four times.
pub fn spectrum_step(retries: u32, converted: bool) -> (s: SpectrumStep)
    ensures
        s is Use <==> converted,
        s is Widen <==> !converted && retries < 4,
        s is Flat <==> !converted && retries >= 4,
{
    if converted {
        SpectrumStep::Use
    } else if retries < SPECTRUM_RETRIES {
        SpectrumStep::Widen
    } else {
        SpectrumStep::Flat
    }
}

/// What the encoder remembers from packet to packet.
#[derive(Debug, Clone, Copy, PartialEq, Eq, Structural)]
pub struct SilkEncoderMono {
    bandwidth: Bandwidth,
    d_lpc: usize,
    prev_log_gain: Option<u8>,
}

/// `n` frequencies at equal distances: a flat spectrum.
pub open spec fn flat_nlsf(n: int, k: int) -> int {
    (32768 * (k + 1)) / (n + 1)
}

impl SilkEncoderMono {
    #[verifier::type_invariant]
    spec fn wf(self) -> bool {
        &&& internal_rate_of(self.bandwidth) is Some
        &&& self.d_lpc == lpc_order(self.bandwidth)
    }

    /// The bandwidth.
    pub closed spec fn coded_bandwidth(self) -> Bandwidth {
        self.bandwidth
    }

    /// The last gain of the packet before.
    pub closed spec fn gain_before(self) -> Option<u8> {
        self.prev_log_gain
    }

    /// An encoder that has sent nothing; bandwidths outside this layer are refused.
    pub fn new(bandwidth: Bandwidth) -> (r: Result<Self, SilkError>)
        ensures
            match r {
                Ok(e) => {
                    &&& internal_rate_of(bandwidth) is Some
                    &&& e.coded_bandwidth() == bandwidth
                    &&& e.gain_before() is None
                },
                Err(e) => internal_rate_of(bandwidth) is None && e == SilkError::MalformedPacket,
            },
    {
        let d_lpc: usize = match bandwidth {
            Bandwidth::Nb | Bandwidth::Mb => D_LPC_NB_MB,
            Bandwidth::Wb => D_LPC_WB,
            _ => {
                return Err(SilkError::MalformedPacket);
            },
        };
        Ok(SilkEncoderMono { bandwidth, d_lpc, prev_log_gain: None })
    }

    /// Samples per packet at the internal rate: 20 ms.
    pub fn frame_samples(&self) -> (n: usize)
        ensures
            internal_rate_of(self.coded_bandwidth()) is Some,
            50 * n == internal_rate_of(self.coded_bandwidth())->0,
    {
        proof {
            use_type_invariant(self);
        }
        match subframe_samples(self.bandwidth) {
            Ok(n) => n * 4,
            Err(_) => 0,
        }
    }

    /// Order of the prediction filter.
    pub fn lpc_order(&self) -> (n: usize)
        ensures
            n == lpc_order(self.coded_bandwidth()),
    {
        proof {
            use_type_invariant(self);
        }
        self.d_lpc
    }

    /// Forgets the packets before.
    pub fn reset(&mut self)
        ensures
            final(self).coded_bandwidth() == old(self).coded_bandwidth(),
            final(self).gain_before() is None,
    {
        proof {
            use_type_invariant(&*self);
        }
        self.prev_log_gain = None;
    }

    /// Refuses input that is not one packet long.
    pub fn check_input(&self, len: usize) -> (r: Result<(), SilkError>)
        ensures
            r is Ok == (50 * len == internal_rate_of(self.coded_bandwidth())->0),
            r matches Err(e) ==> e == SilkError::MalformedPacket,
    {
        if len == self.frame_samples() {
            Ok(())
        } else {
            Err(SilkError::MalformedPacket)
        }
    }

    /// The frequencies of a flat spectrum, for a frame whose analysis gave none.
    pub fn flat_spectrum(&self) -> (nlsf: Vec<i16>)
        ensures
            nlsf@.len() == lpc_order(self.coded_bandwidth()),
            forall|k: int|
                0 <= k < nlsf@.len() ==> #[trigger] nlsf@[k] == flat_nlsf(nlsf@.len() as int, k),
    {
        proof {
            use_type_invariant(self);
        }
        let n: usize = self.d_lpc;
        let mut nlsf: Vec<i16> = Vec::new();
        for k in 0..n
            invariant
                n == 10 || n == 16,
                nlsf@.len() == k,
                forall|i: int| 0 <= i < k ==> #[trigger] nlsf@[i] == flat_nlsf(n as int, i),
        {
            let place: usize = 32768 * (k + 1);
            let v: usize = if n == 10 {
                place / 11
            } else {
                place / 17
            };
            proof {
                assert(n == 10 ==> flat_nlsf(10, k as int) == (32768 * (k + 1)) / 11);
                assert(n == 16 ==> flat_nlsf(16, k as int) == (32768 * (k + 1)) / 17);
            }
            nlsf.push(v as i16);
        }
        nlsf
    }

    /// The pitch lags that the decoder will use: the lag of the frame plus each offset of the
    /// contour, kept within `lag_min` and `lag_max`.
    pub fn subframe_lags(
        &self,
        primary_lag: i32,
        offsets: &[i8],
        lag_min: i32,
        lag_max: i32,
    ) -> (lags: Vec<i32>)
        requires
            lag_min <= lag_max,
            i32::MIN + 128 <= primary_lag <= i32::MAX - 127,
        ensures
            lags@.len() == offsets@.len(),
            forall|s: int|
                0 <= s < lags@.len() ==> #[trigger] lags@[s] == limited(
                    primary_lag + offsets@[s],
                    lag_min as int,
                    lag_max as int,
                ),
    {
        let mut lags: Vec<i32> = Vec::new();
        for s in 0..offsets.len()
            invariant
                lag_min <= lag_max,
                i32::MIN + 128 <= primary_lag <= i32::MAX - 127,
                lags@.len() == s,
                forall|i: int|
                    0 <= i < s ==> #[trigger] lags@[i] == limited(
                        primary_lag + offsets@[i],
                        lag_min as int,
                        lag_max as int,
                    ),
        {
            lags.push(clamp_i32(primary_lag + offsets[s] as i32, lag_min, lag_max));
        }
        lags
    }

    /// The first gain index of a packet: the desired one, but no more than 16 below the last gain
    /// of the packet before.
    pub fn first_gain(&self, desired: u8) -> (g: u8)
        ensures
            g == independent_gain(desired as int, self.gain_before()),
            g <= 63,
    {
        SubframeGains::clamp_index(desired, self.prev_log_gain)
    }

    /// Moves on to the packet after one whose last gain was `last_log_gain`.
    pub fn sent(&mut self, last_log_gain: u8)
        ensures
            final(self).coded_bandwidth() == old(self).coded_bandwidth(),
            final(self).gain_before() == Some(last_log_gain),
    {
        proof {
            use_type_invariant(&*self);
        }
        self.prev_log_gain = Some(last_log_gain);
    }
}

/// The first gain that is sent is the one that the decoder ends up with: its own limit on falling
/// gains, which goes on across packets, does not apply.
pub proof fn law_first_gain_is_kept(desired: int, before: Option<u8>)
    ensures
        independent_gain(independent_gain(desired, before), before) == independent_gain(
            desired,
            before,
        ),
{
}

/// A flat spectrum is strictly rising and stays within half a turn.
pub proof fn law_flat_spectrum_rises(n: int, k: int)
    requires
        n == 10 || n == 16,
        0 <= k < n,
    ensures
        0 < flat_nlsf(n, k) < 32768,
        k + 1 < n ==> flat_nlsf(n, k) < flat_nlsf(n, k + 1),
{
    if n == 10 {
        assert(flat_nlsf(10, k) == (32768 * (k + 1)) / 11);
        assert(flat_nlsf(10, k + 1) == (32768 * (k + 2)) / 11);
    } else {
        assert(flat_nlsf(16, k) == (32768 * (k + 1)) / 17);
        assert(flat_nlsf(16, k + 1) == (32768 * (k + 2)) / 17);
    }
}

/// The frequencies of a flat spectrum divide the range evenly: frequency `k` of `n` is `k + 1` of
/// `n + 1` equal parts of 32768, rounded down.
pub proof fn law_flat_spectrum_is_even(n: int, k: int)
    requires
        n == 10 || n == 16,
        0 <= k < n,
    ensures
        0 <= 32768 * (k + 1) - (n + 1) * flat_nlsf(n, k) <= n,
{
    if n == 10 {
        assert(flat_nlsf(10, k) == (32768 * (k + 1)) / 11);
        assert((n + 1) * flat_nlsf(n, k) == 11 * flat_nlsf(n, k));
    } else {
        assert(flat_nlsf(16, k) == (32768 * (k + 1)) / 17);
        assert((n + 1) * flat_nlsf(n, k) == 17 * flat_nlsf(n, k));
    }
}

} // verus!
