//! Composing a packet of one channel: its first byte, its flags, and the order and settings in
//! which its frames are written.
//!
//! Redundant copies come first, then the regular frames; each of the two is a sequence of its own
//! that carries state from frame to frame. How a frame is written is the caller's; the plan says
//! which frame is next and with which settings, and takes in what the frame left behind.
use oxideav_celt::range_encoder::RangeEncoder;
use vstd::prelude::*;

use crate::error::SilkError;
use crate::range_coder::{
    can_write, carries, codable, flag, flushed_bytes, has_written, storage_size, symbol, write_flag,
    write_log, write_symbol, Coded,
};
use crate::silk::frame_models::{redundancy_icdf, redundancy_model};
use crate::silk::packet_code::{all_bits, has_bit, HeaderCode};
use crate::silk_frame::SilkFrameSize;
use crate::silk_resampler::internal_rate_of;
use crate::toc::Bandwidth;

verus! {

/// Number of frames in a packet of so many tenths of a millisecond.
pub open spec fn frames_in(tenths: int) -> Option<int> {
    if tenths == 100 || tenths == 200 {
        Some(1)
    } else if tenths == 400 {
        Some(2)
    } else if tenths == 600 {
        Some(3)
    } else {
        None
    }
}

/// Number of frames in a packet of so many tenths of a millisecond.
pub fn silk_frame_count(tenths: u16) -> (n: Option<u8>)
    ensures
        match n {
            Some(k) => frames_in(tenths as int) == Some(k as int),
            None => frames_in(tenths as int) is None,
        },
{
    match tenths {
        100 => Some(1),
        200 => Some(1),
        400 => Some(2),
        600 => Some(3),
        _ => None,
    }
}

/// The first byte of a packet of one channel: its configuration in the upper five bits. Each
/// bandwidth has four configurations, one per duration.
pub open spec fn first_byte(bandwidth: Bandwidth, tenths: int) -> int {
    let row: int = match bandwidth {
        Bandwidth::Nb => 0,
        Bandwidth::Mb => 4,
        _ => 8,
    };
    let column: int = if tenths == 100 {
        0
    } else if tenths == 200 {
        1
    } else if tenths == 400 {
        2
    } else {
        3
    };
    8 * (row + column)
}

/// The first byte of a packet of one channel.
pub fn toc_byte(bandwidth: Bandwidth, tenths: u16) -> (r: Result<u8, SilkError>)
    ensures
        match r {
            Ok(b) => internal_rate_of(bandwidth) is Some && frames_in(tenths as int) is Some && b
                == first_byte(bandwidth, tenths as int),
            Err(e) => (internal_rate_of(bandwidth) is None || frames_in(tenths as int) is None) && e
                == SilkError::MalformedPacket,
        },
{
    let row: u8 = match bandwidth {
        Bandwidth::Nb => 0,
        Bandwidth::Mb => 4,
        Bandwidth::Wb => 8,
        _ => {
            return Err(SilkError::MalformedPacket);
        },
    };
    let column: u8 = match tenths {
        100 => 0,
        200 => 1,
        400 => 2,
        600 => 3,
        _ => {
            return Err(SilkError::MalformedPacket);
        },
    };
    Ok(8 * (row + column))
}

/// The settings that a frame is written with.
#[derive(Debug, Clone, Copy, PartialEq, Eq)]
pub struct SilkFrameConfig {
    /// Bandwidth.
    pub bandwidth: Bandwidth,
    /// Duration.
    pub frame_size: SilkFrameSize,
    /// Whether the frame type is coded as that of an active frame.
    pub voice_active: bool,
    /// Whether the first gain stands by itself.
    pub first_subframe_independent: bool,
    /// The last gain before.
    pub previous_log_gain: Option<u8>,
    /// The pitch lag before.
    pub previous_primary_lag: Option<i32>,
    /// Whether the long-term prediction scale is coded.
    pub ltp_scaling_present: bool,
    /// Whether NLSF interpolation has nothing to start from.
    pub lsf_interp_after_reset: bool,
    /// The NLSFs before.
    pub previous_nlsf_q15: Option<[i16; 16]>,
    /// How many of them there are.
    pub previous_nlsf_len: usize,
}

/// What a frame leaves for the frames after it.
#[derive(Debug, Clone, Copy, PartialEq, Eq)]
pub struct FrameOutcome {
    /// The last gain.
    pub last_log_gain: u8,
    /// The pitch lag.
    pub primary_lag: i32,
    /// The NLSFs.
    pub nlsf_q15: [i16; 16],
    /// How many of them there are.
    pub d_lpc: usize,
}

/// The frame to write next.
#[derive(Debug, Clone, Copy, PartialEq, Eq)]
pub struct PacketStep {
    /// Whether it is a redundant copy.
    pub redundant: bool,
    /// Which frame of the packet it is.
    pub frame: usize,
    /// The settings to write it with.
    pub config: SilkFrameConfig,
}

/// What a plan goes by.
pub struct PlanView {
    pub bandwidth: Bandwidth,
    pub frame_size: SilkFrameSize,
    pub toc: int,
    pub active: Seq<bool>,
    pub copies: Seq<bool>,
    pub place: int,
    pub copy_before: Option<FrameOutcome>,
    pub frame_before: Option<FrameOutcome>,
}

impl PlanView {
    /// Number of frames.
    pub open spec fn frames(self) -> int {
        self.active.len() as int
    }

    /// Place `p` is that of a redundant copy that the packet does not have. Redundant copies have
    /// the first places, regular frames those after.
    pub open spec fn vacant(self, p: int) -> bool {
        0 <= p < self.frames() && !self.copies[p]
    }

    /// The first place from `p` on that holds something to write. A packet has at most three
    /// frames.
    pub open spec fn next_place(self, p: int) -> int {
        if !self.vacant(p) {
            p
        } else if !self.vacant(p + 1) {
            p + 1
        } else if !self.vacant(p + 2) {
            p + 2
        } else {
            p + 3
        }
    }

    /// Whether place `p` is still to be written, as a number.
    pub open spec fn ahead(self, p: int) -> int {
        if self.place <= p < 2 * self.frames() && !self.vacant(p) {
            1
        } else {
            0
        }
    }

    /// How many frames and redundant copies are still to be written.
    pub open spec fn left(self) -> int {
        self.ahead(0) + self.ahead(1) + self.ahead(2) + self.ahead(3) + self.ahead(4) + self.ahead(
            5,
        )
    }

    /// The settings of a frame after `last` in its sequence. Redundant copies are always active
    /// and do not carry NLSFs along.
    pub open spec fn config(
        self,
        redundant: bool,
        frame: int,
        last: Option<FrameOutcome>,
    ) -> SilkFrameConfig {
        SilkFrameConfig {
            bandwidth: self.bandwidth,
            frame_size: self.frame_size,
            voice_active: redundant || self.active[frame],
            first_subframe_independent: last is None,
            previous_log_gain: match last {
                Some(o) => Some(o.last_log_gain),
                None => None,
            },
            previous_primary_lag: match last {
                Some(o) => Some(o.primary_lag),
                None => None,
            },
            ltp_scaling_present: last is None,
            lsf_interp_after_reset: last is None,
            previous_nlsf_q15: if redundant {
                None
            } else {
                match last {
                    Some(o) => Some(o.nlsf_q15),
                    None => None,
                }
            },
            previous_nlsf_len: if redundant {
                0
            } else {
                match last {
                    Some(o) => o.d_lpc,
                    None => 0,
                }
            },
        }
    }

    /// What is to be written next, if anything.
    pub open spec fn step(self) -> Option<PacketStep> {
        let p = self.next_place(self.place);
        let n = self.frames();
        if p < n {
            Some(
                PacketStep {
                    redundant: true,
                    frame: p as usize,
                    config: self.config(true, p, self.copy_before),
                },
            )
        } else if p < 2 * n {
            Some(
                PacketStep {
                    redundant: false,
                    frame: (p - n) as usize,
                    config: self.config(false, p - n, self.frame_before),
                },
            )
        } else {
            None
        }
    }

    /// The plan after the next frame was written and left `o`.
    pub open spec fn after(self, o: FrameOutcome) -> PlanView {
        let p = self.next_place(self.place);
        if p < self.frames() {
            PlanView { place: p + 1, copy_before: Some(o), ..self }
        } else {
            PlanView { place: p + 1, frame_before: Some(o), ..self }
        }
    }

    /// The set of frames with a redundant copy, as bits.
    pub open spec fn copy_bits(self) -> int {
        bits_of(self.copies)
    }

    /// The flags at the head of the packet.
    pub open spec fn header(self) -> HeaderCode {
        HeaderCode { active: seq![self.active], redundant: seq![self.copy_bits()] }
    }
}

/// A set of up to three as bits.
pub open spec fn bits_of(set: Seq<bool>) -> int {
    (if set.len() > 0 && set[0] {
        1int
    } else {
        0int
    }) + (if set.len() > 1 && set[1] {
        2int
    } else {
        0int
    }) + (if set.len() > 2 && set[2] {
        4int
    } else {
        0int
    })
}

/// The bits of a set are its members.
pub proof fn law_bits_are_members(set: Seq<bool>, i: int)
    requires
        set.len() <= 3,
        0 <= i < set.len(),
    ensures
        has_bit(bits_of(set), i) == set[i],
        0 <= bits_of(set),
        set.len() == 1 ==> bits_of(set) <= 1,
        set.len() == 2 ==> bits_of(set) <= 3,
        bits_of(set) <= 7,
{
}

/// The plan of a packet of one channel.
#[derive(Debug)]
pub struct MonoPacketPlan {
    bandwidth: Bandwidth,
    frame_size: SilkFrameSize,
    toc: u8,
    active: Vec<bool>,
    copies: Vec<bool>,
    place: usize,
    copy_before: Option<FrameOutcome>,
    frame_before: Option<FrameOutcome>,
}

/// What a packet is asked for can be written: frames of a known duration in a known bandwidth,
/// one type for each, redundant copies of active types only.
pub open spec fn plannable(
    bandwidth: Bandwidth,
    tenths: int,
    types: Seq<u8>,
    copies: Seq<Option<u8>>,
) -> bool {
    &&& internal_rate_of(bandwidth) is Some
    &&& frames_in(tenths) is Some
    &&& types.len() == frames_in(tenths)->0
    &&& copies.len() == frames_in(tenths)->0
    &&& forall|i: int|
        0 <= i < copies.len() ==> (#[trigger] copies[i] matches Some(t) ==> t >= 2)
}

/// The plan of a packet before anything but its flags is written.
pub open spec fn planned(
    bandwidth: Bandwidth,
    tenths: int,
    types: Seq<u8>,
    copies: Seq<Option<u8>>,
) -> PlanView {
    PlanView {
        bandwidth,
        frame_size: if tenths == 100 {
            SilkFrameSize::TenMs
        } else {
            SilkFrameSize::TwentyMs
        },
        toc: first_byte(bandwidth, tenths),
        active: Seq::new(types.len(), |i: int| types[i] >= 2),
        copies: Seq::new(copies.len(), |i: int| copies[i] is Some),
        place: 0,
        copy_before: None,
        frame_before: None,
    }
}

/// Writes the flags at the head of a packet of one channel.
fn write_header(enc: &mut RangeEncoder, active: &Vec<bool>, bits: u32)
    requires
        1 <= active@.len() <= 3,
        bits <= all_bits(active@.len() as int),
        can_write(old(enc), 5),
    ensures
        has_written(
            old(enc),
            final(enc),
            (HeaderCode { active: seq![active@], redundant: seq![bits as int] }).log(
                1,
                active@.len() as int,
            ),
        ),
{
    let frames: usize = active.len();
    let ghost h = HeaderCode { active: seq![active@], redundant: seq![bits as int] };
    let ghost row = Seq::new(active@.len(), |i: int| flag(active@[i]));
    assert(write_log(enc) =~= write_log(old(enc)) + row.take(0));
    for i in 0..frames
        invariant
            frames == active@.len(),
            frames <= 3,
            can_write(old(enc), 5),
            row == Seq::new(active@.len(), |i: int| flag(active@[i])),
            has_written(old(enc), enc, row.take(i as int)),
    {
        write_flag(enc, active[i]);
        proof {
            assert(row.take(i + 1) =~= row.take(i as int).push(flag(active@[i as int])));
            assert(write_log(enc) =~= write_log(old(enc)) + row.take(i + 1));
        }
    }
    assert(row.take(frames as int) =~= row);
    write_flag(enc, bits != 0);
    proof {
        assert(h.active[0] == active@);
        assert(h.flags_log(0) =~= Seq::<Coded>::empty());
        assert(h.channel_flags(0) =~= row.push(flag(bits != 0)));
        assert(h.flags_log(1) =~= row.push(flag(bits != 0)));
        assert(write_log(enc) =~= write_log(old(enc)) + h.flags_log(1));
        assert(h.sets_log(frames as int, 0) =~= Seq::<Coded>::empty());
    }
    if frames > 1 && bits != 0 {
        let icdf: &[u8] = redundancy_icdf(frames);
        assert(codable(icdf@, bits as int - 1));
        write_symbol(enc, (bits - 1) as usize, icdf);
        proof {
            assert(h.sets_log(frames as int, 1) =~= seq![
                symbol(redundancy_model(frames as int), bits as int - 1),
            ]);
        }
    }
    assert(write_log(enc) =~= write_log(old(enc)) + h.log(1, frames as int));
}

/// Plans a packet of one channel without redundant copies, and writes its flags to a new encoder
/// with `storage` bytes. `frame_types` are the types of its frames.
pub fn encode_silk_only_packet_mono(
    bandwidth: Bandwidth,
    frame_size_tenths_ms: u16,
    frame_types: &[u8],
    storage: u32,
) -> (r: Result<(MonoPacketPlan, RangeEncoder), SilkError>)
    requires
        storage <= 0x7fff_ffff,
    ensures
        ({
            let none = Seq::new(frame_types@.len(), |i: int| None::<u8>);
            match r {
                Ok((plan, enc)) => {
                    &&& plannable(bandwidth, frame_size_tenths_ms as int, frame_types@, none)
                    &&& plan@ == planned(bandwidth, frame_size_tenths_ms as int, frame_types@, none)
                    &&& storage_size(&enc) == storage
                    &&& write_log(&enc) == plan@.header().log(1, plan@.frames())
                },
                Err(e) => {
                    &&& !plannable(bandwidth, frame_size_tenths_ms as int, frame_types@, none)
                    &&& e == SilkError::MalformedPacket
                },
            }
        }),
{
    let mut none: Vec<Option<u8>> = Vec::new();
    for i in 0..frame_types.len()
        invariant
            none@.len() == i,
            forall|j: int| 0 <= j < i ==> #[trigger] none@[j] is None,
    {
        none.push(None);
    }
    proof {
        assert(none@ =~= Seq::new(frame_types@.len(), |i: int| None::<u8>));
    }
    encode_silk_only_packet_mono_with_lbrr(
        bandwidth,
        frame_size_tenths_ms,
        frame_types,
        none.as_slice(),
        storage,
    )
}

/// Plans a packet of one channel, and writes its flags to a new encoder with `storage` bytes.
/// `frame_types` are the types of its frames, `lbrr_types` those of the redundant copies.
pub fn encode_silk_only_packet_mono_with_lbrr(
    bandwidth: Bandwidth,
    frame_size_tenths_ms: u16,
    frame_types: &[u8],
    lbrr_types: &[Option<u8>],
    storage: u32,
) -> (r: Result<(MonoPacketPlan, RangeEncoder), SilkError>)
    requires
        storage <= 0x7fff_ffff,
    ensures
        match r {
            Ok((plan, enc)) => {
                &&& plannable(
                    bandwidth,
                    frame_size_tenths_ms as int,
                    frame_types@,
                    lbrr_types@,
                )
                &&& plan@ == planned(
                    bandwidth,
                    frame_size_tenths_ms as int,
                    frame_types@,
                    lbrr_types@,
                )
                &&& storage_size(&enc) == storage
                &&& write_log(&enc) == plan@.header().log(1, plan@.frames())
            },
            Err(e) => {
                &&& !plannable(
                    bandwidth,
                    frame_size_tenths_ms as int,
                    frame_types@,
                    lbrr_types@,
                )
                &&& e == SilkError::MalformedPacket
            },
        },
{
    let n: usize = match silk_frame_count(frame_size_tenths_ms) {
        Some(k) => k as usize,
        None => {
            return Err(SilkError::MalformedPacket);
        },
    };
    if frame_types.len() != n || lbrr_types.len() != n {
        return Err(SilkError::MalformedPacket);
    }
    let frame_size: SilkFrameSize = if frame_size_tenths_ms == 100 {
        SilkFrameSize::TenMs
    } else {
        SilkFrameSize::TwentyMs
    };
    let toc: u8 = match toc_byte(bandwidth, frame_size_tenths_ms) {
        Ok(b) => b,
        Err(e) => {
            return Err(e);
        },
    };
    let mut active: Vec<bool> = Vec::new();
    let mut copies: Vec<bool> = Vec::new();
    let mut bits: u32 = 0;
    let mut weight: u32 = 1;
    for i in 0..n
        invariant
            n <= 3,
            frame_types@.len() == n,
            lbrr_types@.len() == n,
            active@.len() == i,
            copies@.len() == i,
            forall|j: int| 0 <= j < i ==> #[trigger] active@[j] == (frame_types@[j] >= 2),
            forall|j: int| 0 <= j < i ==> #[trigger] copies@[j] == (lbrr_types@[j] is Some),
            forall|j: int|
                0 <= j < i ==> (#[trigger] lbrr_types@[j] matches Some(t) ==> t >= 2),
            bits == bits_of(copies@),
            i == 0 ==> weight == 1,
            i == 1 ==> weight == 2,
            i == 2 ==> weight == 4,
    {
        active.push(frame_types[i] >= 2);
        let there: bool = match lbrr_types[i] {
            Some(t) => {
                if t < 2 {
                    assert(lbrr_types@[i as int] == Some(t));
                    return Err(SilkError::MalformedPacket);
                }
                true
            },
            None => false,
        };
        let ghost was = copies@;
        copies.push(there);
        if there {
            bits = bits + weight;
        }
        proof {
            assert forall|k: int| 0 <= k < i implies copies@[k] == was[k] by {}
        }
        weight = if i == 0 {
            2
        } else {
            4
        };
    }
    let mut enc: RangeEncoder = RangeEncoder::new(storage);
    proof {
        law_bits_are_members(copies@, 0);
    }
    write_header(&mut enc, &active, bits);
    let plan: MonoPacketPlan = MonoPacketPlan {
        bandwidth,
        frame_size,
        toc,
        active,
        copies,
        place: 0,
        copy_before: None,
        frame_before: None,
    };
    proof {
        let goal = planned(bandwidth, frame_size_tenths_ms as int, frame_types@, lbrr_types@);
        assert(plan@.active =~= goal.active);
        assert(plan@.copies =~= goal.copies);
        assert(write_log(&enc) =~= plan@.header().log(1, plan@.frames()));
    }
    Ok((plan, enc))
}

impl MonoPacketPlan {
    #[verifier::type_invariant]
    spec fn wf(self) -> bool {
        &&& 1 <= self.active@.len() <= 3
        &&& self.copies@.len() == self.active@.len()
        &&& self.place <= 2 * self.active@.len()
    }

    /// What the plan goes by.
    pub closed spec fn view(&self) -> PlanView {
        PlanView {
            bandwidth: self.bandwidth,
            frame_size: self.frame_size,
            toc: self.toc as int,
            active: self.active@,
            copies: self.copies@,
            place: self.place as int,
            copy_before: self.copy_before,
            frame_before: self.frame_before,
        }
    }

    fn find_place(&self) -> (p: usize)
        ensures
            p == self@.next_place(self@.place),
            self@.place <= p <= 2 * self@.frames(),
            p < self@.frames() ==> self@.copies[p as int],
    {
        proof {
            use_type_invariant(self);
        }
        let n: usize = self.active.len();
        let mut p: usize = self.place;
        while p < n && !self.copies[p]
            invariant
                n == self.active@.len(),
                self.copies@.len() == n,
                n <= 3,
                self.place <= p <= 2 * n,
                self@.next_place(self@.place) == self@.next_place(p as int),
            decreases n - p,
        {
            p = p + 1;
        }
        p
    }

    /// What is to be written next; nothing once all frames are written.
    pub fn next_step(&self) -> (s: Option<PacketStep>)
        ensures
            s == self@.step(),
    {
        proof {
            use_type_invariant(self);
        }
        let n: usize = self.active.len();
        let p: usize = self.find_place();
        if p < n {
            let config: SilkFrameConfig = self.settings(true, p, self.copy_before);
            Some(PacketStep { redundant: true, frame: p, config })
        } else if p < 2 * n {
            let config: SilkFrameConfig = self.settings(false, p - n, self.frame_before);
            Some(PacketStep { redundant: false, frame: p - n, config })
        } else {
            None
        }
    }

    fn settings(&self, redundant: bool, frame: usize, last: Option<FrameOutcome>) -> (c:
        SilkFrameConfig)
        requires
            frame < self@.frames(),
        ensures
            c == self@.config(redundant, frame as int, last),
    {
        let (gain, lag, nlsf, len): (Option<u8>, Option<i32>, Option<[i16; 16]>, usize) =
            match last {
            Some(o) => (
                Some(o.last_log_gain),
                Some(o.primary_lag),
                Some(o.nlsf_q15),
                o.d_lpc,
            ),
            None => (None, None, None, 0),
        };
        let first: bool = last.is_none();
        SilkFrameConfig {
            bandwidth: self.bandwidth,
            frame_size: self.frame_size,
            voice_active: redundant || self.active[frame],
            first_subframe_independent: first,
            previous_log_gain: gain,
            previous_primary_lag: lag,
            ltp_scaling_present: first,
            lsf_interp_after_reset: first,
            previous_nlsf_q15: if redundant {
                None
            } else {
                nlsf
            },
            previous_nlsf_len: if redundant {
                0
            } else {
                len
            },
        }
    }

    /// Takes in what the frame that was to be written next left behind.
    pub fn record(&mut self, outcome: FrameOutcome)
        requires
            old(self)@.step() is Some,
        ensures
            final(self)@ == old(self)@.after(outcome),
    {
        proof {
            use_type_invariant(&*self);
        }
        let n: usize = self.active.len();
        let p: usize = self.find_place();
        if p < n {
            self.copy_before = Some(outcome);
        } else {
            self.frame_before = Some(outcome);
        }
        self.place = p + 1;
    }

    /// Ends the packet: its first byte, then what the encoder holds. The encoder's bytes carry
    /// exactly what was written to it.
    pub fn finish(self, enc: RangeEncoder) -> (r: Result<Vec<u8>, SilkError>)
        requires
            self@.step() is None,
        ensures
            match r {
                Ok(packet) => {
                    &&& packet@.len() == storage_size(&enc) + 1
                    &&& packet@[0] == self@.toc
                    &&& flushed_bytes(storage_size(&enc), write_log(&enc)) == Some(packet@.skip(1))
                    &&& carries(packet@.skip(1), write_log(&enc))
                },
                Err(e) => {
                    &&& e == SilkError::OutOfStorage
                    &&& flushed_bytes(storage_size(&enc), write_log(&enc)) is None
                },
            },
    {
        let body: Vec<u8> = match enc.done() {
            Ok(b) => b,
            Err(_) => {
                return Err(SilkError::OutOfStorage);
            },
        };
        let mut packet: Vec<u8> = Vec::new();
        packet.push(self.toc);
        for i in 0..body.len()
            invariant
                packet@.len() == i + 1,
                packet@[0] == self.toc,
                forall|j: int| 0 <= j < i ==> #[trigger] packet@[j + 1] == body@[j],
        {
            packet.push(body[i]);
        }
        assert(packet@.skip(1) =~= body@);
        Ok(packet)
    }
}

/// Every frame that is written leaves one less, and nothing is to be written once none is left.
pub proof fn law_plan_runs_out(plan: PlanView, o: FrameOutcome)
    requires
        plan.frames() <= 3,
        plan.copies.len() == plan.frames(),
        plan.place >= 0,
    ensures
        plan.step() is Some <==> plan.left() > 0,
        plan.step() is Some ==> plan.after(o).left() == plan.left() - 1,
        plan.left() >= 0,
{
    let next = plan.after(o);
    assert forall|p: int| next.vacant(p) == plan.vacant(p) by {}
}

/// A packet begins with all its frames and redundant copies to be written.
pub proof fn law_plan_begins_whole(
    bandwidth: Bandwidth,
    tenths: int,
    types: Seq<u8>,
    copies: Seq<Option<u8>>,
)
    requires
        plannable(bandwidth, tenths, types, copies),
    ensures
        planned(bandwidth, tenths, types, copies).left() == types.len() + copies.filter(
            |c: Option<u8>| c is Some,
        ).len(),
{
    reveal_with_fuel(Seq::filter, 4);
    if copies.len() == 1 {
        assert(copies.drop_last() =~= Seq::empty());
    } else if copies.len() == 2 {
        assert(copies.drop_last().drop_last() =~= Seq::empty());
    } else {
        assert(copies.drop_last().drop_last().drop_last() =~= Seq::empty());
    }
}

/// In each of the two sequences the first frame stands by itself, and every later one goes by what
/// the frame before it left.
pub proof fn law_settings_follow(plan: PlanView, o: FrameOutcome)
    requires
        plan.step() is Some,
        plan.after(o).step() is Some,
    ensures
        ({
            let now = plan.step()->0;
            let then = plan.after(o).step()->0;
            &&& now.redundant == then.redundant ==> {
                &&& !then.config.first_subframe_independent
                &&& !then.config.ltp_scaling_present
                &&& then.config.previous_log_gain == Some(o.last_log_gain)
                &&& then.config.previous_primary_lag == Some(o.primary_lag)
                &&& !then.redundant ==> then.config.previous_nlsf_q15 == Some(o.nlsf_q15)
            }
            &&& now.redundant != then.redundant ==> {
                &&& now.redundant
                &&& then.config.first_subframe_independent == (plan.frame_before is None)
            }
        }),
{
    let p = plan.next_place(plan.place);
    let q = plan.after(o).next_place(p + 1);
    lemma_place_rises(plan.after(o), p + 1);
}

proof fn lemma_place_rises(plan: PlanView, p: int)
    ensures
        plan.next_place(p) >= p,
    decreases plan.frames() - p,
{
    if 0 <= p < plan.frames() && !plan.copies[p] {
        lemma_place_rises(plan, p + 1);
    }
}

/// A packet lasts 10, 20, 40 or 60 ms. But for the shortest, its frames last 20 ms each.
pub proof fn law_frames_in(tenths: int)
    ensures
        frames_in(tenths) is Some <==> tenths == 100 || tenths == 200 || tenths == 400 || tenths
            == 600,
        frames_in(tenths) is Some ==> frames_in(tenths)->0 * 200 == (if tenths == 100 {
            200
        } else {
            tenths
        }),
{
}

/// The first byte counts up in steps of eight: over the durations of a bandwidth, shortest first,
/// and over the bandwidths, narrowest first. Each bandwidth has four such steps.
pub proof fn law_first_bytes(bandwidth: Bandwidth)
    requires
        internal_rate_of(bandwidth) is Some,
    ensures
        first_byte(bandwidth, 100) == 8 * (internal_rate_of(bandwidth)->0 - 8000) / 1000,
        first_byte(bandwidth, 200) == first_byte(bandwidth, 100) + 8,
        first_byte(bandwidth, 400) == first_byte(bandwidth, 200) + 8,
        first_byte(bandwidth, 600) == first_byte(bandwidth, 400) + 8,
{
}

/// What comes next is the first place that is not vacant.
pub proof fn law_next_place_is_first(plan: PlanView, p: int, q: int)
    requires
        plan.frames() <= 3,
        p >= 0,
        p <= q < plan.next_place(p),
    ensures
        !plan.vacant(plan.next_place(p)),
        plan.vacant(q),
{
}

/// Frames have the places after those of the copies. A copy stands where it is asked for.
pub proof fn law_places(plan: PlanView, p: int)
    ensures
        plan.vacant(p) ==> 0 <= p < plan.frames() && !plan.copies[p],
        p >= plan.frames() ==> !plan.vacant(p),
        0 <= p < plan.frames() && plan.copies[p] ==> !plan.vacant(p),
{
}

/// The settings of the first frame of a sequence and of any later one: copies count as active, a
/// frame as its type says; only what the frame before left is carried, and no NLSFs to a copy.
pub proof fn law_settings(
    plan: PlanView,
    redundant: bool,
    frame: int,
    last: Option<FrameOutcome>,
)
    ensures
        ({
            let c = plan.config(redundant, frame, last);
            &&& c.bandwidth == plan.bandwidth
            &&& c.frame_size == plan.frame_size
            &&& redundant ==> c.voice_active && c.previous_nlsf_q15 is None && c.previous_nlsf_len
                == 0
            &&& !redundant ==> c.voice_active == plan.active[frame]
            &&& c.first_subframe_independent == (last is None)
            &&& c.ltp_scaling_present == c.first_subframe_independent
            &&& c.lsf_interp_after_reset == c.first_subframe_independent
            &&& last matches Some(o) ==> c.previous_log_gain == Some(o.last_log_gain)
                && c.previous_primary_lag == Some(o.primary_lag) && (!redundant
                ==> c.previous_nlsf_q15 == Some(o.nlsf_q15) && c.previous_nlsf_len == o.d_lpc)
            &&& last is None ==> c.previous_log_gain is None && c.previous_primary_lag is None
                && c.previous_nlsf_q15 is None && c.previous_nlsf_len == 0
        }),
{
}

/// Before anything is written: a frame is active where its type is 2 or more, a copy stands where
/// one was asked for, and nothing has been left by a frame before.
pub proof fn law_plan_before_frames(
    bandwidth: Bandwidth,
    tenths: int,
    types: Seq<u8>,
    copies: Seq<Option<u8>>,
    i: int,
)
    requires
        plannable(bandwidth, tenths, types, copies),
        0 <= i < types.len(),
    ensures
        ({
            let plan = planned(bandwidth, tenths, types, copies);
            &&& plan.frames() == types.len() == plan.copies.len()
            &&& plan.active[i] == !(types[i] == 0 || types[i] == 1)
            &&& plan.copies[i] == (copies[i] is Some)
            &&& plan.bandwidth == bandwidth
            &&& plan.frame_size is TenMs <==> tenths == 100
            &&& plan.place == 0
            &&& plan.copy_before is None && plan.frame_before is None
            &&& plan.toc % 8 == 0
            &&& plan.toc == first_byte(bandwidth, tenths)
            &&& plan.header().active.len() == 1 && plan.header().active[0] == plan.active
            &&& plan.header().redundant.len() == 1
            &&& has_bit(plan.header().redundant[0], i) == (copies[i] is Some)
        }),
{
    let plan = planned(bandwidth, tenths, types, copies);
    law_bits_are_members(plan.copies, i);
}

/// Which packets can be planned: as many types and as many places for copies as the duration has
/// frames, and no copy of an inactive type.
pub proof fn law_plannable(
    bandwidth: Bandwidth,
    tenths: int,
    types: Seq<u8>,
    copies: Seq<Option<u8>>,
    i: int,
)
    requires
        0 <= i < copies.len(),
    ensures
        bandwidth is Swb || bandwidth is Fb ==> !plannable(bandwidth, tenths, types, copies),
        types.len() != copies.len() ==> !plannable(bandwidth, tenths, types, copies),
        types.len() > 1 && 200 * types.len() != tenths ==> !plannable(
            bandwidth,
            tenths,
            types,
            copies,
        ),
        types.len() == 1 && tenths != 100 && tenths != 200 ==> !plannable(
            bandwidth,
            tenths,
            types,
            copies,
        ),
        copies[i] == Some(0u8) || copies[i] == Some(1u8) ==> !plannable(
            bandwidth,
            tenths,
            types,
            copies,
        ),
{
}

/// Packets without copies can be planned for any types.
pub proof fn law_plain_plannable(
    bandwidth: Bandwidth,
    tenths: int,
    types: Seq<u8>,
    copies: Seq<Option<u8>>,
)
    requires
        bandwidth is Nb || bandwidth is Mb || bandwidth is Wb,
        tenths == 200 || tenths == 400 || tenths == 600,
        200 * types.len() == tenths,
        copies.len() == types.len(),
        forall|i: int| 0 <= i < copies.len() ==> #[trigger] copies[i] is None,
    ensures
        plannable(bandwidth, tenths, types, copies),
{
}

} // verus!
