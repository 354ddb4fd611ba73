//! Rates, frame lengths and delays around the step from the internal rate to the output rate.
use vstd::prelude::*;

use crate::history::{latest, law_history_joins};
use crate::toc::Bandwidth;

verus! {

/// Output rates that a decoder offers.
pub const SUPPORTED_OUTPUT_RATES_HZ: [u32; 5] = [8_000, 12_000, 16_000, 24_000, 48_000];

/// The rate that delays are given at.
pub const REFERENCE_RATE_HZ: u32 = 48_000;

/// Internal sampling rate of a bandwidth; none where this layer does not code it.
pub open spec fn internal_rate_of(bw: Bandwidth) -> Option<int> {
    match bw {
        Bandwidth::Nb => Some(8000),
        Bandwidth::Mb => Some(12000),
        Bandwidth::Wb => Some(16000),
        Bandwidth::Swb => None,
        Bandwidth::Fb => None,
    }
}

/// Delay allotted to resampling, in microseconds.
pub open spec fn delay_us_of(bw: Bandwidth) -> Option<int> {
    match bw {
        Bandwidth::Nb => Some(538),
        Bandwidth::Mb => Some(692),
        Bandwidth::Wb => Some(706),
        Bandwidth::Swb => None,
        Bandwidth::Fb => None,
    }
}

/// Frames last 10 or 20 ms.
pub open spec fn known_duration(tenths: int) -> bool {
    tenths == 100 || tenths == 200
}

/// Samples in a frame of so many tenths of a millisecond at `rate` samples per second, times 1000.
pub open spec fn frame_milli_samples(rate: int, tenths: int) -> int {
    if tenths == 100 {
        10 * rate
    } else {
        20 * rate
    }
}

/// Thousandths, rounded to the nearest whole number, halves up.
pub open spec fn from_thousandths(x: int) -> int {
    (x + 500) / 1000
}

/// Millionths, rounded to the nearest whole number, halves up.
pub open spec fn from_millionths(x: int) -> int {
    (x + 500_000) / 1_000_000
}

/// Delay allotted to resampling, in microseconds; none for bandwidths outside this layer.
pub fn silk_resampler_delay_us(bw: Bandwidth) -> (d: Option<u32>)
    ensures
        match d {
            Some(us) => delay_us_of(bw) == Some(us as int),
            None => delay_us_of(bw) is None,
        },
{
    match bw {
        Bandwidth::Nb => Some(538),
        Bandwidth::Mb => Some(692),
        Bandwidth::Wb => Some(706),
        Bandwidth::Swb | Bandwidth::Fb => None,
    }
}

/// Delay allotted to resampling, to the nearest sample at `output_rate_hz`. None for bandwidths
/// outside this layer and for a rate of zero.
pub fn silk_resampler_delay_samples_at(bw: Bandwidth, output_rate_hz: u32) -> (d: Option<u32>)
    ensures
        match d {
            Some(n) => output_rate_hz != 0 && delay_us_of(bw) is Some && n == from_millionths(
                delay_us_of(bw)->0 * output_rate_hz,
            ),
            None => output_rate_hz == 0 || delay_us_of(bw) is None,
        },
{
    if output_rate_hz == 0 {
        return None;
    }
    match silk_resampler_delay_us(bw) {
        Some(us) => {
            assert(0 <= us * output_rate_hz <= 706 * 0xFFFF_FFFF) by (nonlinear_arith)
                requires
                    0 <= us <= 706,
                    0 <= output_rate_hz <= 0xFFFF_FFFF,
            ;
            let scaled: u64 = us as u64 * output_rate_hz as u64;
            Some(((scaled + 500_000) / 1_000_000) as u32)
        },
        None => None,
    }
}

/// Whether a decoder offers the output rate.
pub fn is_supported_output_rate(rate_hz: u32) -> (b: bool)
    ensures
        b == SUPPORTED_OUTPUT_RATES_HZ@.contains(rate_hz),
{
    let mut i: usize = 0;
    while i < 5
        invariant
            i <= 5,
            forall|j: int| 0 <= j < i ==> SUPPORTED_OUTPUT_RATES_HZ@[j] != rate_hz,
        decreases 5 - i,
    {
        if SUPPORTED_OUTPUT_RATES_HZ[i] == rate_hz {
            assert(SUPPORTED_OUTPUT_RATES_HZ@[i as int] == rate_hz);
            return true;
        }
        i = i + 1;
    }
    false
}

/// Internal sampling rate of a bandwidth.
pub fn silk_internal_rate_hz(bw: Bandwidth) -> (r: Option<u32>)
    ensures
        match r {
            Some(hz) => internal_rate_of(bw) == Some(hz as int),
            None => internal_rate_of(bw) is None,
        },
{
    match bw {
        Bandwidth::Nb => Some(8_000),
        Bandwidth::Mb => Some(12_000),
        Bandwidth::Wb => Some(16_000),
        Bandwidth::Swb | Bandwidth::Fb => None,
    }
}

/// Samples of a frame at the internal rate. Frames last 10 or 20 ms.
pub fn silk_frame_samples_internal(
    bw: Bandwidth,
    silk_frame_duration_tenths_ms: u16,
) -> (r: Option<u32>)
    ensures
        match r {
            Some(n) => {
                &&& internal_rate_of(bw) is Some
                &&& known_duration(silk_frame_duration_tenths_ms as int)
                &&& 1000 * n == frame_milli_samples(
                    internal_rate_of(bw)->0,
                    silk_frame_duration_tenths_ms as int,
                )
            },
            None => internal_rate_of(bw) is None || !known_duration(
                silk_frame_duration_tenths_ms as int,
            ),
        },
{
    match silk_internal_rate_hz(bw) {
        Some(rate) => match silk_frame_duration_tenths_ms {
            100 => Some(rate / 100),
            200 => Some(rate / 50),
            _ => None,
        },
        None => None,
    }
}

/// Samples of a frame at the output rate, to the nearest sample.
pub fn silk_frame_samples_at_output(
    bw: Bandwidth,
    silk_frame_duration_tenths_ms: u16,
    output_rate_hz: u32,
) -> (r: Option<u32>)
    ensures
        match r {
            Some(n) => {
                &&& output_rate_hz != 0
                &&& internal_rate_of(bw) is Some
                &&& known_duration(silk_frame_duration_tenths_ms as int)
                &&& n == from_thousandths(
                    frame_milli_samples(
                        output_rate_hz as int,
                        silk_frame_duration_tenths_ms as int,
                    ),
                )
            },
            None => output_rate_hz == 0 || internal_rate_of(bw) is None || !known_duration(
                silk_frame_duration_tenths_ms as int,
            ),
        },
{
    if output_rate_hz == 0 {
        return None;
    }
    match silk_frame_samples_internal(bw, silk_frame_duration_tenths_ms) {
        Some(_) => {
            let ms: u64 = if silk_frame_duration_tenths_ms == 100 {
                10
            } else {
                20
            };
            assert(ms * output_rate_hz <= 20 * 0xFFFF_FFFF) by (nonlinear_arith)
                requires
                    ms <= 20,
                    output_rate_hz <= 0xFFFF_FFFF,
            ;
            let scaled: u64 = ms * output_rate_hz as u64;
            Some(((scaled + 500) / 1000) as u32)
        },
        None => None,
    }
}

/// At any offered rate, the delay is less than the shorter of the two frame durations.
pub proof fn law_delay_below_one_frame(bw: Bandwidth, rate: u32)
    requires
        delay_us_of(bw) is Some,
        SUPPORTED_OUTPUT_RATES_HZ@.contains(rate),
    ensures
        from_millionths(delay_us_of(bw)->0 * rate) < from_thousandths(
            frame_milli_samples(rate as int, 100),
        ),
{
    let i = choose|i: int|
        0 <= i < SUPPORTED_OUTPUT_RATES_HZ@.len() && SUPPORTED_OUTPUT_RATES_HZ@[i] == rate;
    let us = delay_us_of(bw)->0;
    let r = rate as int;
    assert(r >= 8000);
    assert(0 <= us * r <= 706 * r) by (nonlinear_arith)
        requires
            0 <= us <= 706,
            r >= 0,
    ;
}

/// At the internal rate, a frame has as many samples at the output as inside.
pub proof fn law_internal_rate_keeps_length(bw: Bandwidth, tenths: int)
    requires
        internal_rate_of(bw) is Some,
        known_duration(tenths),
    ensures
        1000 * from_thousandths(frame_milli_samples(internal_rate_of(bw)->0, tenths))
            == frame_milli_samples(internal_rate_of(bw)->0, tenths),
{
}

/// Whether a stream has one or two channels; unmixing two takes a sample of its own.
#[derive(Debug, Clone, Copy, PartialEq, Eq, Structural)]
pub enum SilkChannelPath {
    /// One channel.
    Mono,
    /// Two channels.
    Stereo,
}

/// How many output samples an upsampler to 48 kHz gives per input sample.
pub open spec fn upsampling_factor(bw: Bandwidth) -> int {
    match bw {
        Bandwidth::Nb => 6,
        Bandwidth::Mb => 4,
        _ => 3,
    }
}

/// The delay of an upsampler, in samples at 48 kHz.
pub open spec fn upsampling_delay(bw: Bandwidth, path: SilkChannelPath) -> int {
    match bw {
        Bandwidth::Nb => if path is Mono {
            30
        } else {
            24
        },
        Bandwidth::Mb => if path is Mono {
            36
        } else {
            32
        },
        _ => if path is Mono {
            36
        } else {
            33
        },
    }
}

/// The number of input samples on either side that an output sample is made of.
pub open spec fn upsampling_reach(bw: Bandwidth, path: SilkChannelPath) -> int {
    (1 + upsampling_delay(bw, path)) / upsampling_factor(bw)
}

/// The number of input samples that an upsampler keeps.
pub open spec fn upsampling_memory(bw: Bandwidth, path: SilkChannelPath) -> int {
    upsampling_reach(bw, path) - 1 + (upsampling_delay(bw, path) + upsampling_factor(bw) - 1)
        / upsampling_factor(bw)
}

/// The geometry of an upsampler from the internal rate to 48 kHz: which input samples each output
/// sample is made of.
#[derive(Debug, Clone, Copy, PartialEq, Eq)]
pub struct SilkUpsampler {
    bandwidth: Bandwidth,
    path: SilkChannelPath,
    delay_48k: usize,
    factor: usize,
    half_width: usize,
    hist_len: usize,
}

/// The input position that output sample `n` lies at or just after.
pub open spec fn input_position(n: int, delay: int, factor: int) -> int {
    (n - delay) / factor
}

/// Where the input samples begin that output sample `n` is made of, in the kept samples followed
/// by the new ones.
pub open spec fn window_at(bw: Bandwidth, path: SilkChannelPath, n: int) -> int {
    upsampling_memory(bw, path) + input_position(
        n,
        upsampling_delay(bw, path),
        upsampling_factor(bw),
    ) - upsampling_reach(bw, path) + 1
}

/// The input samples that output sample `n` is made of, where `kept` was kept from before.
pub open spec fn window_of<S>(
    bw: Bandwidth,
    path: SilkChannelPath,
    kept: Seq<S>,
    input: Seq<S>,
    n: int,
) -> Seq<S> {
    let at = window_at(bw, path, n);
    (kept + input).subrange(at, at + 2 * upsampling_reach(bw, path))
}

/// The output for `input` after `kept`, where `weigh` makes an output sample of its phase and of
/// its input samples.
pub open spec fn upsampled<S, T>(
    bw: Bandwidth,
    path: SilkChannelPath,
    kept: Seq<S>,
    input: Seq<S>,
    weigh: spec_fn(int, Seq<S>) -> T,
) -> Seq<T> {
    Seq::new(
        (input.len() * upsampling_factor(bw)) as nat,
        |n: int| weigh(n % upsampling_factor(bw), window_of(bw, path, kept, input, n)),
    )
}

impl SilkUpsampler {
    #[verifier::type_invariant]
    spec fn wf(self) -> bool {
        &&& internal_rate_of(self.bandwidth) is Some
        &&& self.delay_48k == upsampling_delay(self.bandwidth, self.path)
        &&& self.factor == upsampling_factor(self.bandwidth)
        &&& self.half_width == upsampling_reach(self.bandwidth, self.path)
        &&& self.hist_len == upsampling_memory(self.bandwidth, self.path)
    }

    /// Bandwidth of the input.
    pub closed spec fn input(self) -> Bandwidth {
        self.bandwidth
    }

    /// Number of channels.
    pub closed spec fn channels(self) -> SilkChannelPath {
        self.path
    }

    /// Output sample `n` is made of this many input samples on either side.
    pub open spec fn reach(self) -> int {
        upsampling_reach(self.input(), self.channels())
    }

    /// Number of input samples that are kept from one call to the next.
    pub open spec fn kept(self) -> int {
        upsampling_memory(self.input(), self.channels())
    }

    /// The geometry for a bandwidth and a number of channels; none for bandwidths outside this
    /// layer.
    pub fn new(bandwidth: Bandwidth, path: SilkChannelPath) -> (r: Option<Self>)
        ensures
            match r {
                Some(u) => {
                    &&& internal_rate_of(bandwidth) is Some
                    &&& u.input() == bandwidth
                    &&& u.channels() == path
                },
                None => internal_rate_of(bandwidth) is None,
            },
    {
        let (factor, delay_48k, half_width, hist_len): (usize, usize, usize, usize) = match (
            bandwidth,
            path,
        ) {
            (Bandwidth::Nb, SilkChannelPath::Mono) => (6, 30, 5, 9),
            (Bandwidth::Nb, SilkChannelPath::Stereo) => (6, 24, 4, 7),
            (Bandwidth::Mb, SilkChannelPath::Mono) => (4, 36, 9, 17),
            (Bandwidth::Mb, SilkChannelPath::Stereo) => (4, 32, 8, 15),
            (Bandwidth::Wb, SilkChannelPath::Mono) => (3, 36, 12, 23),
            (Bandwidth::Wb, SilkChannelPath::Stereo) => (3, 33, 11, 21),
            _ => {
                return None;
            },
        };
        proof {
            lemma_geometry(bandwidth, path);
        }
        Some(SilkUpsampler { bandwidth, path, delay_48k, factor, half_width, hist_len })
    }

    /// Bandwidth of the input.
    pub fn bandwidth(&self) -> (bw: Bandwidth)
        ensures
            bw == self.input(),
            internal_rate_of(bw) is Some,
    {
        proof {
            use_type_invariant(self);
        }
        self.bandwidth
    }

    /// Number of channels.
    pub fn path(&self) -> (p: SilkChannelPath)
        ensures
            p == self.channels(),
    {
        self.path
    }

    /// Delay in samples at 48 kHz.
    pub fn delay_48k(&self) -> (d: usize)
        ensures
            d == upsampling_delay(self.input(), self.channels()),
    {
        proof {
            use_type_invariant(self);
        }
        self.delay_48k
    }

    /// Output samples per input sample.
    pub fn factor(&self) -> (f: usize)
        ensures
            f == upsampling_factor(self.input()),
    {
        proof {
            use_type_invariant(self);
        }
        self.factor
    }

    /// Number of input samples on either side of an output sample that it is made of.
    pub fn half_width(&self) -> (m: usize)
        ensures
            m == self.reach(),
    {
        proof {
            use_type_invariant(self);
        }
        self.half_width
    }

    /// Number of input samples that are kept from one call to the next.
    pub fn history_len(&self) -> (n: usize)
        ensures
            n == self.kept(),
    {
        proof {
            use_type_invariant(self);
        }
        self.hist_len
    }

    /// Where the input samples begin that output sample `n` is made of, in the kept samples
    /// followed by `input_len` new ones. All of them are there: none lies before the kept ones and
    /// none after the new ones.
    pub fn window_start(&self, n: usize, input_len: usize) -> (base: usize)
        requires
            n < input_len * upsampling_factor(self.input()),
        ensures
            base == window_at(self.input(), self.channels(), n as int),
            base + 2 * self.reach() <= self.kept() + input_len,
    {
        proof {
            use_type_invariant(self);
        }
        let f: usize = self.factor;
        let d: usize = self.delay_48k;
        // Whole input samples of delay, rounded up, keep the division below from going negative.
        let up: usize = self.hist_len + 1 - self.half_width;
        proof {
            lemma_geometry(self.bandwidth, self.path);
        }
        if f == 6 {
            assert(input_len * f == 6 * input_len) by (nonlinear_arith)
                requires
                    f == 6,
            ;
            n / 6 + (n % 6 + 6 * up - d) / 6
        } else if f == 4 {
            assert(input_len * f == 4 * input_len) by (nonlinear_arith)
                requires
                    f == 4,
            ;
            n / 4 + (n % 4 + 4 * up - d) / 4
        } else {
            assert(input_len * f == 3 * input_len) by (nonlinear_arith)
                requires
                    f == 3,
            ;
            n / 3 + (n % 3 + 3 * up - d) / 3
        }
    }
}

/// The windows of all output samples lie within what was kept and what is new.
proof fn lemma_window_inside(bw: Bandwidth, path: SilkChannelPath, n: int, len: int)
    requires
        internal_rate_of(bw) is Some,
        0 <= n < len * upsampling_factor(bw),
    ensures
        0 <= window_at(bw, path, n),
        window_at(bw, path, n) + 2 * upsampling_reach(bw, path) <= upsampling_memory(bw, path)
            + len,
{
    lemma_geometry(bw, path);
    let f = upsampling_factor(bw);
    if f == 6 {
        assert(len * f == 6 * len) by (nonlinear_arith)
            requires
                f == 6,
        ;
    } else if f == 4 {
        assert(len * f == 4 * len) by (nonlinear_arith)
            requires
                f == 4,
        ;
    } else {
        assert(len * f == 3 * len) by (nonlinear_arith)
            requires
                f == 3,
        ;
    }
}

/// The window of an output sample that lies `a` input samples later lies `a` input samples later,
/// and the output sample has the same phase.
pub proof fn law_window_moves(bw: Bandwidth, path: SilkChannelPath, n: int, a: int)
    requires
        internal_rate_of(bw) is Some,
    ensures
        window_at(bw, path, n + a * upsampling_factor(bw)) == window_at(bw, path, n) + a,
        (n + a * upsampling_factor(bw)) % upsampling_factor(bw) == n % upsampling_factor(bw),
{
    let f = upsampling_factor(bw);
    if f == 6 {
        assert(a * f == 6 * a) by (nonlinear_arith)
            requires
                f == 6,
        ;
    } else if f == 4 {
        assert(a * f == 4 * a) by (nonlinear_arith)
            requires
                f == 4,
        ;
    } else {
        assert(a * f == 3 * a) by (nonlinear_arith)
            requires
                f == 3,
        ;
    }
}

/// An output sample of the first part is made of the same input samples, whatever follows.
proof fn lemma_window_before<S>(
    bw: Bandwidth,
    path: SilkChannelPath,
    kept: Seq<S>,
    a: Seq<S>,
    b: Seq<S>,
    n: int,
)
    requires
        internal_rate_of(bw) is Some,
        kept.len() == upsampling_memory(bw, path),
        0 <= n < a.len() * upsampling_factor(bw),
    ensures
        window_of(bw, path, kept, a + b, n) == window_of(bw, path, kept, a, n),
{
    lemma_window_inside(bw, path, n, a.len() as int);
    assert(window_of(bw, path, kept, a + b, n) =~= window_of(bw, path, kept, a, n));
}

/// An output sample of the second part is made of the same input samples, whether the first part
/// was kept or came with the second.
proof fn lemma_window_after<S>(
    bw: Bandwidth,
    path: SilkChannelPath,
    kept: Seq<S>,
    a: Seq<S>,
    b: Seq<S>,
    n: int,
)
    requires
        internal_rate_of(bw) is Some,
        kept.len() == upsampling_memory(bw, path),
        0 <= n < b.len() * upsampling_factor(bw),
    ensures
        window_of(bw, path, kept, a + b, n + a.len() * upsampling_factor(bw)) == window_of(
            bw,
            path,
            latest(kept + a, upsampling_memory(bw, path)),
            b,
            n,
        ),
{
    let later = latest(kept + a, upsampling_memory(bw, path));
    let m = n + a.len() * upsampling_factor(bw);
    lemma_window_inside(bw, path, n, b.len() as int);
    law_window_moves(bw, path, n, a.len() as int);
    lemma_geometry(bw, path);
    assert(later + b =~= (kept + (a + b)).skip(a.len() as int));
    assert(window_of(bw, path, kept, a + b, m) =~= window_of(bw, path, later, b, n));
}

/// Upsampling in parts is upsampling at once: the output for two frames, the second after what was
/// kept of the first, is the output for both frames together, and as much is kept. So it is for
/// every way to weigh input samples.
pub proof fn law_upsampling_in_parts<S, T>(
    bw: Bandwidth,
    path: SilkChannelPath,
    kept: Seq<S>,
    a: Seq<S>,
    b: Seq<S>,
    weigh: spec_fn(int, Seq<S>) -> T,
)
    requires
        internal_rate_of(bw) is Some,
        kept.len() == upsampling_memory(bw, path),
    ensures
        ({
            let later = latest(kept + a, upsampling_memory(bw, path));
            &&& later.len() == upsampling_memory(bw, path)
            &&& upsampled(bw, path, kept, a + b, weigh) == upsampled(bw, path, kept, a, weigh)
                + upsampled(bw, path, later, b, weigh)
            &&& latest(later + b, upsampling_memory(bw, path)) == latest(
                kept + (a + b),
                upsampling_memory(bw, path),
            )
        }),
{
    let f = upsampling_factor(bw);
    let later = latest(kept + a, upsampling_memory(bw, path));
    let whole = upsampled(bw, path, kept, a + b, weigh);
    let parts = upsampled(bw, path, kept, a, weigh) + upsampled(bw, path, later, b, weigh);
    law_history_joins(kept, a, b, upsampling_memory(bw, path));
    assert(kept + a + b =~= kept + (a + b));
    assert((a.len() + b.len()) * f == a.len() * f + b.len() * f && a.len() * f >= 0 && b.len() * f
        >= 0) by (nonlinear_arith)
        requires
            f > 0,
    ;
    assert forall|n: int| 0 <= n < whole.len() implies whole[n] == parts[n] by {
        if n < a.len() * f {
            lemma_window_before(bw, path, kept, a, b, n);
        } else {
            lemma_window_after(bw, path, kept, a, b, n - a.len() * f);
            law_window_moves(bw, path, n - a.len() * f, a.len() as int);
        }
    }
    assert(whole =~= parts);
}

/// Reach and memory of each design.
proof fn lemma_geometry(bw: Bandwidth, path: SilkChannelPath)
    requires
        internal_rate_of(bw) is Some,
    ensures
        bw is Nb && path is Mono ==> upsampling_reach(bw, path) == 5 && upsampling_memory(bw, path)
            == 9,
        bw is Nb && path is Stereo ==> upsampling_reach(bw, path) == 4 && upsampling_memory(
            bw,
            path,
        ) == 7,
        bw is Mb && path is Mono ==> upsampling_reach(bw, path) == 9 && upsampling_memory(bw, path)
            == 17,
        bw is Mb && path is Stereo ==> upsampling_reach(bw, path) == 8 && upsampling_memory(
            bw,
            path,
        ) == 15,
        bw is Wb && path is Mono ==> upsampling_reach(bw, path) == 12 && upsampling_memory(bw, path)
            == 23,
        bw is Wb && path is Stereo ==> upsampling_reach(bw, path) == 11 && upsampling_memory(
            bw,
            path,
        ) == 21,
{
    assert(31int / 6 == 5 && 35int / 6 == 5);
    assert(25int / 6 == 4 && 29int / 6 == 4);
    assert(37int / 4 == 9 && 39int / 4 == 9);
    assert(33int / 4 == 8 && 35int / 4 == 8);
    assert(37int / 3 == 12 && 38int / 3 == 12);
    assert(34int / 3 == 11 && 35int / 3 == 11);
}

/// The bandwidths of this layer have 8, 12 and 16 kHz, and each its own allotment of delay; the
/// others have neither.
pub proof fn law_rates_and_delays(bw: Bandwidth)
    ensures
        bw is Nb ==> internal_rate_of(bw) == Some(8000int) && delay_us_of(bw) == Some(538int),
        bw is Mb ==> internal_rate_of(bw) == Some(12000int) && delay_us_of(bw) == Some(692int),
        bw is Wb ==> internal_rate_of(bw) == Some(16000int) && delay_us_of(bw) == Some(706int),
        internal_rate_of(bw) is Some <==> bw is Nb || bw is Mb || bw is Wb,
        delay_us_of(bw) is Some <==> internal_rate_of(bw) is Some,
{
}

/// Rounding is to the nearest whole number: the result is at most a half too large and less than a
/// half too small.
pub proof fn law_rounding(x: int)
    ensures
        -500 <= x - 1000 * from_thousandths(x) < 500,
        -500_000 <= x - 1_000_000 * from_millionths(x) < 500_000,
{
}

/// Frames last 10 or 20 ms, and a frame has samples in proportion to how long it lasts: in so many
/// tenths of a millisecond at `rate` per second, `rate * tenths / 10000`.
pub proof fn law_samples_in_proportion(rate: int, tenths: int)
    requires
        known_duration(tenths),
    ensures
        tenths == 100 || tenths == 200,
        10 * frame_milli_samples(rate, tenths) == rate * tenths,
{
}

/// An upsampler gives as many samples per input sample as make up 48 kHz.
pub proof fn law_upsampling_fills_the_rate(bw: Bandwidth)
    requires
        internal_rate_of(bw) is Some,
    ensures
        internal_rate_of(bw)->0 * upsampling_factor(bw) == 48000,
{
}

/// Unmixing two channels takes one input sample, which the upsampler then saves: with it, two
/// channels come as late as one. That is 0.625 ms in the narrowest bandwidth and 0.75 ms in the
/// others.
pub proof fn law_upsampling_delays(bw: Bandwidth)
    requires
        internal_rate_of(bw) is Some,
    ensures
        upsampling_delay(bw, SilkChannelPath::Stereo) + upsampling_factor(bw) == upsampling_delay(
            bw,
            SilkChannelPath::Mono,
        ),
        100_000 * upsampling_delay(bw, SilkChannelPath::Mono) == 48 * (if bw is Nb {
            62_500int
        } else {
            75_000
        }),
{
}

/// An output sample is made of as many input samples on either side as its delay leaves time for.
pub proof fn law_upsampling_reach(bw: Bandwidth, path: SilkChannelPath)
    requires
        internal_rate_of(bw) is Some,
    ensures
        upsampling_reach(bw, path) * upsampling_factor(bw) <= upsampling_delay(bw, path) + 1,
        upsampling_delay(bw, path) + 1 < (upsampling_reach(bw, path) + 1) * upsampling_factor(bw),
{
    lemma_geometry(bw, path);
}

/// An upsampler keeps no more than it needs: the first output sample goes back to the first of the
/// samples that were kept.
pub proof fn law_upsampling_memory(bw: Bandwidth, path: SilkChannelPath)
    requires
        internal_rate_of(bw) is Some,
    ensures
        window_at(bw, path, 0) == 0,
{
    lemma_geometry(bw, path);
    assert(input_position(0, 30, 6) == -5 && input_position(0, 24, 6) == -4);
    assert(input_position(0, 36, 4) == -9 && input_position(0, 32, 4) == -8);
    assert(input_position(0, 36, 3) == -12 && input_position(0, 33, 3) == -11);
}

/// Output sample `n` lies at or less than one input sample after its input position, `delay` late.
pub proof fn law_input_position(n: int, delay: int, factor: int)
    requires
        factor > 0,
    ensures
        0 <= n - delay - factor * input_position(n, delay, factor) < factor,
{
    vstd::arithmetic::div_mod::lemma_fundamental_div_mod(n - delay, factor);
    vstd::arithmetic::div_mod::lemma_mod_bound(n - delay, factor);
}

/// The input samples of output sample `n` lie as many before its input position as after it.
pub proof fn law_window_is_centred(bw: Bandwidth, path: SilkChannelPath, n: int)
    requires
        internal_rate_of(bw) is Some,
    ensures
        ({
            let at = upsampling_memory(bw, path) + input_position(
                n,
                upsampling_delay(bw, path),
                upsampling_factor(bw),
            );
            let first = window_at(bw, path, n);
            let last = first + 2 * upsampling_reach(bw, path) - 1;
            at - first == last - (at + 1)
        }),
{
}

/// An upsampled frame has the factor times as many samples. Sample `n` is weighed by its phase,
/// from the input samples around its input position, as those kept and the new ones follow each
/// other.
pub proof fn law_upsampled_samples<S, T>(
    bw: Bandwidth,
    path: SilkChannelPath,
    kept: Seq<S>,
    input: Seq<S>,
    weigh: spec_fn(int, Seq<S>) -> T,
    a: int,
    phase: int,
)
    requires
        internal_rate_of(bw) is Some,
        kept.len() == upsampling_memory(bw, path),
        0 <= a < input.len(),
        0 <= phase < upsampling_factor(bw),
    ensures
        ({
            let out = upsampled(bw, path, kept, input, weigh);
            let n = a * upsampling_factor(bw) + phase;
            let at = window_at(bw, path, n);
            let reach = upsampling_reach(bw, path);
            &&& out.len() == input.len() * upsampling_factor(bw)
            &&& 0 <= n < out.len()
            &&& 0 <= at <= at + 2 * reach <= kept.len() + input.len()
            &&& out[n] == weigh(phase, (kept + input).subrange(at, at + 2 * reach))
        }),
{
    let f = upsampling_factor(bw);
    let n = a * f + phase;
    law_window_moves(bw, path, phase, a);
    assert(phase + a * f == n);
    assert(phase % f == phase) by (nonlinear_arith)
        requires
            0 <= phase < f,
    ;
    assert(0 <= n < input.len() * f) by (nonlinear_arith)
        requires
            n == a * f + phase,
            0 <= a < input.len(),
            0 <= phase < f,
    ;
    lemma_window_inside(bw, path, n, input.len() as int);
}

} // verus!
