//! Subframe gains: one logarithmic gain index per 5 ms.
//!
//! The first gain of a frame stands by itself or is a change from the last gain before; every other
//! one is a change from the gain before it.
use oxideav_celt::range_decoder::RangeDecoder;
use vstd::array::array_as_slice;
use vstd::prelude::*;
use vstd::slice::slice_subrange;

use crate::arith::limited;
use crate::error::SilkError;
use crate::range_coder::{
    can_read, carries, has_read, read_failed, read_log, read_symbol, symbol, Coded,
};
use crate::silk::frame_code::row_log;
use crate::silk::frame_laws::lemma_row_unique;
use crate::silk::shell_laws::lemma_next_symbol;
use crate::silk::shell_tables::full_icdf;
use crate::silk_frame::SignalType;

verus! {

/// Most subframes that a frame has.
pub const SILK_MAX_SUBFRAMES: usize = 4;

/// Upper three bits of a gain index, inactive frames.
pub const GAIN_MSB_ICDF_INACTIVE: [u8; 8] = [224, 112, 44, 15, 3, 2, 1, 0];

/// Upper three bits of a gain index, unvoiced frames.
pub const GAIN_MSB_ICDF_UNVOICED: [u8; 8] = [254, 237, 192, 132, 70, 23, 4, 0];

/// Upper three bits of a gain index, voiced frames.
pub const GAIN_MSB_ICDF_VOICED: [u8; 8] = [255, 252, 226, 155, 61, 11, 2, 0];

/// Lower three bits of a gain index.
pub const GAIN_LSB_ICDF: [u8; 8] = [224, 192, 160, 128, 96, 64, 32, 0];

/// Change of gain index.
pub const GAIN_DELTA_ICDF: [u8; 41] = [
    250, 245, 234, 203, 71, 50, 42, 38, 35, 33, 31, 29, 28, 27, 26, 25, 24, 23, 22, 21, 20, 19, 18,
    17, 16, 15, 14, 13, 12, 11, 10, 9, 8, 7, 6, 5, 4, 3, 2, 1, 0,
];

/// The model of the upper three bits of a gain index.
#[verifier::opaque]
pub open spec fn msb_model(signal_type: SignalType) -> Seq<u8> {
    match signal_type {
        SignalType::Inactive => GAIN_MSB_ICDF_INACTIVE@,
        SignalType::Unvoiced => GAIN_MSB_ICDF_UNVOICED@,
        SignalType::Voiced => GAIN_MSB_ICDF_VOICED@,
    }
}

/// The model of the lower three bits of a gain index.
#[verifier::opaque]
pub open spec fn lsb_model() -> Seq<u8> {
    GAIN_LSB_ICDF@
}

/// The model of a change of gain index.
#[verifier::opaque]
pub open spec fn delta_model() -> Seq<u8> {
    GAIN_DELTA_ICDF@
}

fn lsb_icdf() -> (icdf: &'static [u8])
    ensures
        icdf@ == lsb_model(),
        icdf@.len() == 8,
        full_icdf(icdf@),
{
    proof {
        reveal(lsb_model);
    }
    array_as_slice(&GAIN_LSB_ICDF)
}

fn delta_icdf() -> (icdf: &'static [u8])
    ensures
        icdf@ == delta_model(),
        icdf@.len() == 41,
        full_icdf(icdf@),
{
    proof {
        reveal(delta_model);
    }
    array_as_slice(&GAIN_DELTA_ICDF)
}

/// The gain for index `index` after `previous`: it falls by no more than 16, and stays within 0
/// and 63.
pub open spec fn independent_gain(index: int, previous: Option<u8>) -> int {
    limited(match previous {
        Some(p) => if index >= p - 16 {
            index
        } else {
            p - 16
        },
        None => index,
    }, 0, 63)
}

/// The gain after `previous` and a change `delta`: it moves by `delta - 4`, to at least
/// `2 * delta - 16`, and stays within 0 and 63.
pub open spec fn delta_gain(previous: int, delta: int) -> int {
    let moved = previous + delta - 4;
    limited(if 2 * delta - 16 >= moved {
        2 * delta - 16
    } else {
        moved
    }, 0, 63)
}

/// The gains of a frame as coded: the first by itself, where it is, and the changes.
pub struct GainsCode {
    pub first: Option<int>,
    pub deltas: Seq<int>,
}

/// The symbols of a gain index that stands by itself.
pub open spec fn independent_log(signal_type: SignalType, index: int) -> Seq<Coded> {
    seq![symbol(msb_model(signal_type), index / 8), symbol(lsb_model(), index % 8)]
}

impl GainsCode {
    /// Every part has a symbol.
    pub open spec fn coded(self) -> bool {
        &&& self.first matches Some(i) ==> 0 <= i <= 63
        &&& forall|k: int| 0 <= k < self.deltas.len() ==> 0 <= #[trigger] self.deltas[k] <= 40
    }

    /// Number of gains.
    pub open spec fn count(self) -> int {
        if self.first is Some {
            self.deltas.len() as int + 1
        } else {
            self.deltas.len() as int
        }
    }

    /// The symbols of the gains.
    pub open spec fn log(self, signal_type: SignalType) -> Seq<Coded> {
        (match self.first {
            Some(i) => independent_log(signal_type, i),
            None => Seq::empty(),
        }) + row_log(delta_model(), self.deltas)
    }

    /// Gain `k`, where the gain before the frame was `previous`.
    pub open spec fn gain(self, previous: Option<u8>, k: int) -> int
        decreases k,
    {
        match self.first {
            Some(i) => if k <= 0 {
                independent_gain(i, previous)
            } else {
                delta_gain(self.gain(previous, k - 1), self.deltas[k - 1])
            },
            None => if k <= 0 {
                delta_gain(previous->0 as int, self.deltas[0])
            } else {
                delta_gain(self.gain(previous, k - 1), self.deltas[k])
            },
        }
    }
}

/// How the gains of a frame are coded.
#[derive(Debug, Clone, Copy, PartialEq, Eq, Structural)]
pub struct SubframeGainsConfig {
    /// What the frame holds.
    pub signal_type: SignalType,
    /// Number of subframes, two or four.
    pub num_subframes: u8,
    /// Whether the first gain stands by itself.
    pub first_subframe_is_independent: bool,
    /// The last gain before the frame, where there was one.
    pub previous_log_gain: Option<u8>,
}

impl SubframeGainsConfig {
    /// Two or four subframes, and a gain to start from where the first is a change.
    pub open spec fn valid(self) -> bool {
        &&& self.num_subframes == 2 || self.num_subframes == 4
        &&& self.first_subframe_is_independent || self.previous_log_gain is Some
    }
}

/// The gain of a subframe.
#[derive(Debug, Clone, Copy, PartialEq, Eq, Structural)]
pub struct SubframeGain {
    /// Logarithmic gain index.
    pub log_gain: u8,
}

/// The gains of a frame.
#[derive(Debug, Clone, Copy, PartialEq, Eq)]
pub struct SubframeGains {
    gains: [SubframeGain; SILK_MAX_SUBFRAMES],
    len: u8,
}

/// Between `before` and `after` the gains `gains` were read, coded as `code`.
pub open spec fn read_gains(
    before: &RangeDecoder<'_>,
    after: &RangeDecoder<'_>,
    cfg: SubframeGainsConfig,
    code: GainsCode,
    gains: Seq<SubframeGain>,
) -> bool {
    &&& code.coded()
    &&& code.count() == cfg.num_subframes
    &&& code.first is Some == cfg.first_subframe_is_independent
    &&& has_read(before, after, code.log(cfg.signal_type))
    &&& gains.len() == cfg.num_subframes
    &&& forall|k: int|
        0 <= k < gains.len() ==> (#[trigger] gains[k]).log_gain == code.gain(
            cfg.previous_log_gain,
            k,
        )
}

/// Between `before` and `after` the first gain alone was read, coded as `code`.
pub open spec fn read_first_gain(
    before: &RangeDecoder<'_>,
    after: &RangeDecoder<'_>,
    cfg: SubframeGainsConfig,
    code: GainsCode,
) -> bool {
    &&& code.coded()
    &&& code.count() == 1
    &&& code.first is Some == cfg.first_subframe_is_independent
    &&& has_read(before, after, code.log(cfg.signal_type))
}

impl SubframeGains {
    #[verifier::type_invariant]
    spec fn wf(self) -> bool {
        1 <= self.len <= 4
    }

    /// The gains in order.
    pub closed spec fn view(&self) -> Seq<SubframeGain> {
        self.gains@.take(self.len as int)
    }

    /// Reads the gains of a frame. A range decoder that is in its error state is refused once the
    /// first gain has been read. Reading gains never puts it there.
    pub fn decode(rd: &mut RangeDecoder<'_>, cfg: SubframeGainsConfig) -> (r: Result<
        Self,
        SilkError,
    >)
        requires
            can_read(old(rd), 5),
        ensures
            match r {
                Ok(g) => cfg.valid() && !read_failed(old(rd)) && exists|code: GainsCode|
                    #[trigger] read_gains(old(rd), final(rd), cfg, code, g@),
                Err(e) => e == SilkError::MalformedPacket && if cfg.valid() {
                    read_failed(old(rd)) && exists|code: GainsCode|
                        #[trigger] read_first_gain(old(rd), final(rd), cfg, code)
                } else {
                    *final(rd) == *old(rd)
                },
            },
    {
        if cfg.num_subframes != 2 && cfg.num_subframes != 4 {
            return Err(SilkError::MalformedPacket);
        }
        let num: usize = cfg.num_subframes as usize;
        let mut gains: [SubframeGain; SILK_MAX_SUBFRAMES] = [
            SubframeGain { log_gain: 0 };
            SILK_MAX_SUBFRAMES
        ];
        let start: usize;
        let mut prev: u8;
        let ghost mut code = GainsCode { first: None, deltas: Seq::empty() };
        if cfg.first_subframe_is_independent {
            let index: u8 = SubframeGains::read_index(rd, cfg.signal_type);
            prev = SubframeGains::clamp_index(index, cfg.previous_log_gain);
            gains[0] = SubframeGain { log_gain: prev };
            start = 1;
            proof {
                code = GainsCode { first: Some(index as int), deltas: Seq::empty() };
                assert(read_log(rd) =~= read_log(old(rd)) + code.log(cfg.signal_type));
            }
            if rd.error() {
                assert(read_first_gain(old(rd), rd, cfg, code));
                return Err(SilkError::MalformedPacket);
            }
        } else {
            prev = match cfg.previous_log_gain {
                Some(p) => p,
                None => {
                    return Err(SilkError::MalformedPacket);
                },
            };
            start = 0;
            proof {
                assert(read_log(rd) =~= read_log(old(rd)) + code.log(cfg.signal_type));
            }
        }
        let mut k: usize = start;
        while k < num
            invariant
                cfg.valid(),
                num == cfg.num_subframes,
                num <= 4,
                start == (if cfg.first_subframe_is_independent {
                    1int
                } else {
                    0int
                }),
                start <= k <= num,
                gains@.len() == 4,
                can_read(old(rd), 5),
                code.coded(),
                code.first is Some == cfg.first_subframe_is_independent,
                code.deltas.len() == k - start,
                has_read(old(rd), rd, code.log(cfg.signal_type)),
                k > 0 ==> !read_failed(old(rd)),
                read_log(rd).len() <= read_log(old(rd)).len() + k + 1,
                k > 0 ==> prev == code.gain(cfg.previous_log_gain, k - 1),
                k == 0 ==> cfg.previous_log_gain == Some(prev),
                forall|j: int|
                    0 <= j < k ==> (#[trigger] gains@[j]).log_gain == code.gain(
                        cfg.previous_log_gain,
                        j,
                    ),
            decreases num - k,
        {
            let (delta, g): (u8, u8) = SubframeGains::read_delta(rd, prev);
            prev = g;
            gains[k] = SubframeGain { log_gain: g };
            proof {
                let was = code;
                code = GainsCode { first: was.first, deltas: was.deltas.push(delta as int) };
                assert(row_log(delta_model(), code.deltas) =~= row_log(
                    delta_model(),
                    was.deltas,
                ).push(symbol(delta_model(), delta as int)));
                assert(read_log(rd) =~= read_log(old(rd)) + code.log(cfg.signal_type));
                assert forall|j: int| 0 <= j < k + 1 implies (#[trigger] gains@[j]).log_gain
                    == code.gain(cfg.previous_log_gain, j) by {
                    if j < k {
                        lemma_gain_prefix(was, delta as int, cfg.previous_log_gain, j);
                    } else if k > 0 {
                        lemma_gain_prefix(was, delta as int, cfg.previous_log_gain, k - 1);
                    }
                }
                assert(gains@[k as int].log_gain == code.gain(cfg.previous_log_gain, k as int));
            }
            if rd.error() {
                assert(read_first_gain(old(rd), rd, cfg, code));
                return Err(SilkError::MalformedPacket);
            }
            k = k + 1;
        }
        let out: SubframeGains = SubframeGains { gains, len: cfg.num_subframes };
        let r: Result<SubframeGains, SilkError> = Ok(out);
        assert(read_gains(old(rd), rd, cfg, code, r->Ok_0@));
        r
    }

    /// Number of gains.
    pub fn len(&self) -> (n: usize)
        ensures
            n == self@.len(),
    {
        proof {
            use_type_invariant(self);
        }
        self.len as usize
    }

    /// Whether there are no gains.
    pub fn is_empty(&self) -> (b: bool)
        ensures
            b == (self@.len() == 0),
    {
        proof {
            use_type_invariant(self);
        }
        self.len == 0
    }

    /// The gains in order.
    pub fn as_slice(&self) -> (s: &[SubframeGain])
        ensures
            s@ == self@,
    {
        proof {
            use_type_invariant(self);
        }
        let s: &[SubframeGain] = slice_subrange(array_as_slice(&self.gains), 0, self.len as usize);
        assert(s@ =~= self.gains@.take(self.len as int));
        s
    }

    /// The last gain.
    pub fn last_log_gain(&self) -> (g: u8)
        ensures
            self@.len() > 0,
            g == self@.last().log_gain,
    {
        proof {
            use_type_invariant(self);
        }
        self.gains[self.len as usize - 1].log_gain
    }

    /// The model of the upper three bits of a gain index.
    pub fn icdf_for_signal_type(signal_type: SignalType) -> (icdf: &'static [u8])
        ensures
            icdf@ == msb_model(signal_type),
            icdf@.len() == 8,
            full_icdf(icdf@),
    {
        proof {
            reveal(msb_model);
        }
        match signal_type {
            SignalType::Inactive => array_as_slice(&GAIN_MSB_ICDF_INACTIVE),
            SignalType::Unvoiced => array_as_slice(&GAIN_MSB_ICDF_UNVOICED),
            SignalType::Voiced => array_as_slice(&GAIN_MSB_ICDF_VOICED),
        }
    }

    /// Reads a gain index that stands by itself.
    fn read_index(rd: &mut RangeDecoder<'_>, signal_type: SignalType) -> (index: u8)
        requires
            can_read(old(rd), 2),
        ensures
            index <= 63,
            has_read(old(rd), final(rd), independent_log(signal_type, index as int)),
            read_log(final(rd)).len() == read_log(old(rd)).len() + 2,
    {
        let msb: u8 = read_symbol(rd, SubframeGains::icdf_for_signal_type(signal_type)) as u8;
        let lsb: u8 = read_symbol(rd, lsb_icdf()) as u8;
        let index: u8 = msb * 8 + lsb;
        proof {
            assert(index as int / 8 == msb && index as int % 8 == lsb);
            assert(read_log(rd) =~= read_log(old(rd)) + independent_log(signal_type, index as int));
        }
        index
    }

    /// The gain for an index that stands by itself.
    pub(crate) fn clamp_index(index: u8, previous: Option<u8>) -> (g: u8)
        ensures
            g == independent_gain(index as int, previous),
    {
        let g: u8 = match previous {
            Some(p) => if p >= 16 && p - 16 > index {
                p - 16
            } else {
                index
            },
            None => index,
        };
        if g > 63 {
            63
        } else {
            g
        }
    }

    /// Reads a gain that stands by itself.
    pub fn decode_independent(
        rd: &mut RangeDecoder<'_>,
        signal_type: SignalType,
        previous_log_gain: Option<u8>,
    ) -> (g: u8)
        requires
            can_read(old(rd), 2),
        ensures
            exists|index: int|
                0 <= index <= 63 && has_read(
                    old(rd),
                    final(rd),
                    #[trigger] independent_log(signal_type, index),
                ) && g == independent_gain(index, previous_log_gain),
            g <= 63,
    {
        let index: u8 = SubframeGains::read_index(rd, signal_type);
        assert(has_read(old(rd), rd, independent_log(signal_type, index as int)));
        SubframeGains::clamp_index(index, previous_log_gain)
    }

    /// Reads a change of gain and gives it with the gain after it.
    fn read_delta(rd: &mut RangeDecoder<'_>, previous_log_gain: u8) -> (r: (u8, u8))
        requires
            can_read(old(rd), 1),
        ensures
            r.0 <= 40,
            has_read(old(rd), final(rd), seq![symbol(delta_model(), r.0 as int)]),
            read_log(final(rd)).len() == read_log(old(rd)).len() + 1,
            r.1 == delta_gain(previous_log_gain as int, r.0 as int),
    {
        let delta: i32 = read_symbol(rd, delta_icdf()) as i32;
        let a: i32 = 2 * delta - 16;
        let b: i32 = previous_log_gain as i32 + delta - 4;
        let inner: i32 = if a >= b {
            a
        } else {
            b
        };
        let g: i32 = if inner < 0 {
            0
        } else if inner > 63 {
            63
        } else {
            inner
        };
        (delta as u8, g as u8)
    }

    /// Reads a gain that is a change from the one before.
    pub fn decode_delta(rd: &mut RangeDecoder<'_>, previous_log_gain: u8) -> (g: u8)
        requires
            can_read(old(rd), 1),
        ensures
            exists|delta: int|
                0 <= delta <= 40 && has_read(
                    old(rd),
                    final(rd),
                    seq![#[trigger] symbol(delta_model(), delta)],
                ) && g == delta_gain(previous_log_gain as int, delta),
            g <= 63,
    {
        let (delta, g): (u8, u8) = SubframeGains::read_delta(rd, previous_log_gain);
        assert(has_read(old(rd), rd, seq![symbol(delta_model(), delta as int)]));
        g
    }
}

/// Gains do not depend on later changes.
proof fn lemma_gain_prefix(code: GainsCode, delta: int, previous: Option<u8>, k: int)
    requires
        0 <= k < code.count(),
    ensures
        (GainsCode { first: code.first, deltas: code.deltas.push(delta) }).gain(previous, k)
            == code.gain(previous, k),
    decreases k,
{
    if k > 0 {
        lemma_gain_prefix(code, delta, previous, k - 1);
    }
}

/// Gains stay within 0 and 63.
pub proof fn law_gains_in_range(code: GainsCode, previous: Option<u8>, k: int)
    ensures
        0 <= code.gain(previous, k) <= 63,
{
}

/// A gain that stands by itself is no more than 16 below a gain in range before it.
pub proof fn law_fall_is_limited(index: int, previous: u8)
    requires
        previous <= 63,
    ensures
        independent_gain(index, Some(previous)) >= previous - 16,
{
}

/// An index no more than 16 below the gain before stands as it is.
pub proof fn law_high_index_kept(index: int, previous: Option<u8>)
    requires
        0 <= index <= 63,
        previous matches Some(p) ==> index >= p - 16,
    ensures
        independent_gain(index, previous) == index,
{
}

/// The change 4 leaves a gain as it is, and larger changes never lead to smaller gains.
pub proof fn law_delta_gain(previous: int, a: int, b: int)
    requires
        0 <= previous <= 63,
        a <= b,
    ensures
        delta_gain(previous, 4) == previous,
        delta_gain(previous, a) <= delta_gain(previous, b),
{
}

/// Gains are read back: where the same bytes carry, after the same symbols, the gains of two
/// frames of the same kind, the two are one and the same.
pub proof fn law_gains_read_back(
    bytes: Seq<u8>,
    past: Seq<Coded>,
    signal_type: SignalType,
    a: GainsCode,
    ta: Seq<Coded>,
    b: GainsCode,
    tb: Seq<Coded>,
)
    requires
        a.coded(),
        b.coded(),
        a.first is Some == b.first is Some,
        a.count() == b.count(),
        carries(bytes, past + a.log(signal_type) + ta),
        carries(bytes, past + b.log(signal_type) + tb),
    ensures
        a == b,
{
    let (la, lb) = (past + a.log(signal_type) + ta, past + b.log(signal_type) + tb);
    let (ra, rb) = (row_log(delta_model(), a.deltas), row_log(delta_model(), b.deltas));
    if a.first is Some {
        let (i, j) = (a.first->0, b.first->0);
        let m = msb_model(signal_type);
        let h = seq![symbol(m, i / 8)];
        let l = seq![symbol(lsb_model(), i % 8)];
        let k = seq![symbol(lsb_model(), j % 8)];
        assert(la =~= past + h + (l + ra + ta));
        assert(lb =~= past + seq![symbol(m, j / 8)] + (k + rb + tb));
        lemma_next_symbol(bytes, past, m, i / 8, l + ra + ta, j / 8, k + rb + tb);
        assert(la =~= (past + h) + l + (ra + ta));
        assert(lb =~= (past + h) + k + (rb + tb));
        lemma_next_symbol(bytes, past + h, lsb_model(), i % 8, ra + ta, j % 8, rb + tb);
        assert(la =~= (past + h + l) + ra + ta);
        assert(lb =~= (past + h + l) + rb + tb);
        lemma_row_unique(bytes, past + h + l, delta_model(), a.deltas, ta, b.deltas, tb);
    } else {
        assert(la =~= past + ra + ta);
        assert(lb =~= past + rb + tb);
        lemma_row_unique(bytes, past, delta_model(), a.deltas, ta, b.deltas, tb);
    }
}

/// A gain that stands by itself is the least within 0 and 63 that is at least its index and no more
/// than 16 below the gain before, or 63 where there is none.
pub proof fn law_independent_gain(index: int, previous: Option<u8>)
    ensures
        ({
            let g = independent_gain(index, previous);
            &&& 0 <= g <= 63
            &&& g == 63 || g >= index && (previous matches Some(p) ==> g >= p - 16)
            &&& g == 0 || g <= index || (previous matches Some(p) && g <= p - 16)
        }),
{
}

/// The gain after a change `delta` is the least within 0 and 63 that is at least the gain before
/// plus `delta - 4` and at least `2 * delta - 16`, or 63 where there is none.
pub proof fn law_gain_after_change(previous: int, delta: int)
    ensures
        ({
            let g = delta_gain(previous, delta);
            &&& 0 <= g <= 63
            &&& g == 63 || g >= previous + delta - 4 && g >= 2 * delta - 16
            &&& g == 0 || g <= previous + delta - 4 || g <= 2 * delta - 16
        }),
{
}

/// How the gains of a frame follow from each other: the first by itself or from the gain before the
/// frame, every other one from the one before it, by the changes in turn.
pub proof fn law_gains_follow(code: GainsCode, previous: Option<u8>, k: int)
    requires
        0 <= k < code.count(),
    ensures
        code.first is Some && k == 0 ==> code.gain(previous, k) == independent_gain(
            code.first->0,
            previous,
        ),
        code.first is None && k == 0 && previous is Some ==> code.gain(previous, k) == delta_gain(
            previous->0 as int,
            code.deltas[0],
        ),
        k > 0 ==> code.gain(previous, k) == delta_gain(
            code.gain(previous, k - 1),
            code.deltas[k + code.deltas.len() - code.count()],
        ),
        code.count() == code.deltas.len() + (if code.first is Some {
            1int
        } else {
            0
        }),
{
}

/// The models of gains are the tables.
pub proof fn law_gain_model_tables()
    ensures
        msb_model(SignalType::Inactive) == GAIN_MSB_ICDF_INACTIVE@,
        msb_model(SignalType::Unvoiced) == GAIN_MSB_ICDF_UNVOICED@,
        msb_model(SignalType::Voiced) == GAIN_MSB_ICDF_VOICED@,
        lsb_model() == GAIN_LSB_ICDF@,
        delta_model() == GAIN_DELTA_ICDF@,
{
    reveal(msb_model);
    reveal(lsb_model);
    reveal(delta_model);
}

/// The index of a gain that stands by itself is eight times its first symbol plus its second. The
/// changes follow, one symbol each.
pub proof fn law_gains_symbols(code: GainsCode, signal_type: SignalType, k: int)
    requires
        code.coded(),
        0 <= k < code.deltas.len(),
    ensures
        ({
            let l = code.log(signal_type);
            let n = l.len() - code.deltas.len();
            &&& l[n + k] == symbol(delta_model(), code.deltas[k])
            &&& code.first is None ==> n == 0
            &&& code.first is Some ==> n == 2 && exists|h: int, m: int|
                {
                    &&& #[trigger] symbol(msb_model(signal_type), h) == l[0]
                    &&& #[trigger] symbol(lsb_model(), m) == l[1]
                    &&& 0 <= h < 8
                    &&& 0 <= m < 8
                    &&& code.first->0 == 8 * h + m
                }
        }),
{
    let l = code.log(signal_type);
    if code.first is Some {
        let i = code.first->0;
        assert(symbol(msb_model(signal_type), i / 8) == l[0]);
        assert(symbol(lsb_model(), i % 8) == l[1]);
    }
}

/// What is read of a frame's gains: as many as it has subframes, the first by itself where it is
/// said to be, from symbols that follow those read before.
pub proof fn law_gains_as_read(
    before: &RangeDecoder<'_>,
    after: &RangeDecoder<'_>,
    cfg: SubframeGainsConfig,
    code: GainsCode,
    gains: Seq<SubframeGain>,
    k: int,
)
    requires
        read_gains(before, after, cfg, code, gains),
        cfg.valid(),
        0 < k < gains.len(),
    ensures
        gains.len() == cfg.num_subframes,
        cfg.num_subframes == 2 || cfg.num_subframes == 4,
        read_log(after) == read_log(before) + code.log(cfg.signal_type),
        cfg.first_subframe_is_independent ==> gains[0].log_gain == independent_gain(
            code.first->0,
            cfg.previous_log_gain,
        ),
        !cfg.first_subframe_is_independent ==> gains[0].log_gain == delta_gain(
            cfg.previous_log_gain->0 as int,
            code.deltas[0],
        ),
        gains[k].log_gain == delta_gain(
            gains[k - 1].log_gain as int,
            code.deltas[k + code.deltas.len() - gains.len()],
        ),
{
    assert(gains[0].log_gain == code.gain(cfg.previous_log_gain, 0));
    assert(gains[k - 1].log_gain == code.gain(cfg.previous_log_gain, k - 1));
    assert(gains[k].log_gain == code.gain(cfg.previous_log_gain, k));
    law_gains_follow(code, cfg.previous_log_gain, k);
    law_gains_follow(code, cfg.previous_log_gain, 0);
}

} // verus!
