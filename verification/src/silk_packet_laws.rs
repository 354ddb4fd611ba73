//! What holds of planned packets from writer to reader.
use vstd::prelude::*;

use crate::range_coder::{carries, Coded};
use crate::silk::frame_code::{no_memory, FrameShape};
use crate::silk::frame_laws::lemma_regroup;
use crate::silk::lsf_models::order_of;
use crate::silk::packet_code::{has_bit, BlockCode, HeaderCode, PacketCode, PacketShape};
use crate::silk::packet_laws::{law_header_reads_back, law_packet_round_trip, same_packet};
use crate::silk::stereo_weights::WeightCode;
use crate::silk_packet_encode::{
    law_bits_are_members, plannable, planned, FrameOutcome, PlanView, SilkFrameConfig,
};
use crate::silk_packet_frame::{
    law_first_frame_stands_alone, law_planned_frame_reads_back, same_planned, PlannedFrame,
    StepShape,
};
use crate::silk_resampler::internal_rate_of;
use crate::silk_synthesis::subframe_count;
use crate::toc::{Bandwidth, OpusBandwidth};

verus! {

/// The bandwidth as announced by a packet.
pub open spec fn announced(bandwidth: Bandwidth) -> OpusBandwidth {
    match bandwidth {
        Bandwidth::Nb => OpusBandwidth::Narrowband,
        Bandwidth::Mb => OpusBandwidth::Mediumband,
        Bandwidth::Wb => OpusBandwidth::Wideband,
        Bandwidth::Swb => OpusBandwidth::SuperWideband,
        Bandwidth::Fb => OpusBandwidth::Fullband,
    }
}

/// How a frame with the settings `c` is coded.
pub open spec fn shape_of(c: SilkFrameConfig) -> StepShape {
    StepShape {
        frame: FrameShape {
            active: c.voice_active,
            bw: announced(c.bandwidth),
            subframes: subframe_count(c.frame_size),
            subframe_len: internal_rate_of(c.bandwidth)->0 / 200,
            prev_lag: match c.previous_primary_lag {
                Some(lag) => lag as int,
                None => 0,
            },
        },
        gain_alone: c.first_subframe_independent,
        gain_before: c.previous_log_gain,
        scale_said: c.ltp_scaling_present,
    }
}

/// A frame that was written, and what it left.
pub struct WrittenFrame {
    pub code: PlannedFrame,
    pub left: FrameOutcome,
}

impl WrittenFrame {
    /// The frame has a symbol for every part in the given shape, and what it left is what its
    /// reader ends up with.
    pub open spec fn fits(self, shape: StepShape) -> bool {
        let nlsfs = self.code.nlsfs(shape);
        &&& self.code.coded(shape)
        &&& self.left.last_log_gain == self.code.log_gain(shape, shape.frame.subframes - 1)
        &&& self.left.primary_lag == self.code.lag_after(shape)
        &&& self.left.d_lpc == order_of(shape.frame.bw.wide())
        &&& forall|k: int|
            0 <= k < self.left.d_lpc ==> #[trigger] self.left.nlsf_q15@[k] == nlsfs[k]
    }
}

/// The plan once the places before `p` have been passed. Place `p` held `ws[p]`, unless it is
/// vacant.
pub open spec fn plan_at(plan: PlanView, ws: Seq<WrittenFrame>, p: int) -> PlanView
    decreases p,
{
    if p <= 0 {
        plan
    } else {
        let was = plan_at(plan, ws, p - 1);
        if was.vacant(p - 1) {
            PlanView { place: p, ..was }
        } else {
            was.after(ws[p - 1].left)
        }
    }
}

/// How the frame in place `p` is coded.
#[verifier::opaque]
pub open spec fn shape_at(plan: PlanView, ws: Seq<WrittenFrame>, p: int) -> StepShape {
    shape_of(plan_at(plan, ws, p).step()->0.config)
}

/// Every place before `p` that is not vacant held a frame that fits the step the plan asked for.
pub open spec fn steps_written(plan: PlanView, ws: Seq<WrittenFrame>, p: int) -> bool {
    forall|q: int|
        0 <= q < p && !plan.vacant(q) ==> (#[trigger] ws[q]).fits(shape_at(plan, ws, q))
}

/// The symbols of the frames in the places before `p`.
pub open spec fn steps_log(plan: PlanView, ws: Seq<WrittenFrame>, p: int) -> Seq<Coded>
    decreases p,
{
    if p <= 0 {
        Seq::empty()
    } else if plan.vacant(p - 1) {
        steps_log(plan, ws, p - 1)
    } else {
        steps_log(plan, ws, p - 1) + ws[p - 1].code.log(shape_at(plan, ws, p - 1))
    }
}

/// A plan of a packet of which nothing but the flags is written.
pub open spec fn begins(plan: PlanView) -> bool {
    &&& 1 <= plan.frames() <= 3
    &&& plan.copies.len() == plan.frames()
    &&& plan.place == 0
    &&& plan.copy_before is None
    &&& plan.frame_before is None
}

/// All symbols of a planned packet.
pub open spec fn planned_log(plan: PlanView, ws: Seq<WrittenFrame>) -> Seq<Coded> {
    plan.header().log(1, plan.frames()) + steps_log(plan, ws, 2 * plan.frames())
}

/// How a planned packet is coded for a reader that has read nothing.
pub open spec fn planned_shape(plan: PlanView) -> PacketShape {
    PacketShape {
        bw: announced(plan.bandwidth),
        channels: 1,
        frames: plan.frames(),
        subframes: subframe_count(plan.frame_size),
        subframe_len: internal_rate_of(plan.bandwidth)->0 / 200,
        mid: no_memory(),
        side: no_memory(),
        was_only_mid: false,
    }
}

/// What a planned packet of one frame holds.
pub open spec fn planned_packet(plan: PlanView, ws: Seq<WrittenFrame>) -> PacketCode {
    let n = plan.frames();
    PacketCode {
        header: plan.header(),
        copies: Seq::new(n as nat, |i: int| ws[i].code.alone()),
        blocks: Seq::new(
            n as nat,
            |i: int|
                BlockCode {
                    weights: WeightCode { cell0: 0, sub0: 0, cell1: 0, sub1: 0 },
                    only_mid: false,
                    mid: ws[n + i].code.alone(),
                    side: ws[n + i].code.alone(),
                },
        ),
    }
}

/// A plan that was begun goes through its places: after place `q` was reached and those up to `p`
/// are vacant, it asks for the frame in place `p`, and recording what that frame left leads to the
/// place after.
pub proof fn law_plan_goes_through_its_places(
    plan: PlanView,
    ws: Seq<WrittenFrame>,
    q: int,
    p: int,
)
    requires
        begins(plan),
        0 <= q <= p < 2 * plan.frames(),
        forall|k: int| q <= k < p ==> #[trigger] plan.vacant(k),
        !plan.vacant(p),
    ensures
        ({
            let now = PlanView { place: q, ..plan_at(plan, ws, p) };
            let n = plan.frames();
            &&& now.step() matches Some(step) && step.redundant == (p < n) && step.frame == (
            if p < n {
                p
            } else {
                p - n
            }) && shape_of(step.config) == shape_at(plan, ws, p)
            &&& now.after(ws[p].left) == plan_at(plan, ws, p + 1)
        }),
        plan_at(plan, ws, 2 * plan.frames()).step() is None,
{
    lemma_plan_at(plan, ws, p);
    lemma_plan_at(plan, ws, 2 * plan.frames());
    reveal(shape_at);
    let at = plan_at(plan, ws, p);
    let now = PlanView { place: q, ..at };
    assert forall|k: int| #[trigger] now.vacant(k) == plan.vacant(k) && at.vacant(k)
        == plan.vacant(k) by {}
    assert(q < p ==> plan.vacant(q));
    assert(q + 1 < p ==> plan.vacant(q + 1));
    assert(q + 2 < p ==> plan.vacant(q + 2));
    assert(q + 3 < p ==> plan.vacant(q + 3));
    assert(now.next_place(q) == p);
    assert(at.next_place(p) == p);
}

/// A packet is planned from its beginning.
pub proof fn law_planned_begins(
    bandwidth: Bandwidth,
    tenths: int,
    types: Seq<u8>,
    copies: Seq<Option<u8>>,
)
    requires
        plannable(bandwidth, tenths, types, copies),
    ensures
        begins(planned(bandwidth, tenths, types, copies)),
{
}

/// How the frame in place `p` is coded after one of its sequence that left `last`.
pub open spec fn shape_after(plan: PlanView, p: int, last: Option<FrameOutcome>) -> StepShape {
    StepShape {
        frame: FrameShape {
            active: p < plan.frames() || plan.active[p - plan.frames()],
            bw: announced(plan.bandwidth),
            subframes: subframe_count(plan.frame_size),
            subframe_len: internal_rate_of(plan.bandwidth)->0 / 200,
            prev_lag: match last {
                Some(o) => o.primary_lag as int,
                None => 0,
            },
        },
        gain_alone: last is None,
        gain_before: match last {
            Some(o) => Some(o.last_log_gain),
            None => None,
        },
        scale_said: last is None,
    }
}

/// What passing places does not touch, and what the frames before leave.
proof fn lemma_plan_at(plan: PlanView, ws: Seq<WrittenFrame>, p: int)
    requires
        begins(plan),
        0 <= p <= 2 * plan.frames(),
    ensures
        ({
            let now = plan_at(plan, ws, p);
            &&& now.place == p
            &&& now.bandwidth == plan.bandwidth
            &&& now.frame_size == plan.frame_size
            &&& now.active == plan.active
            &&& now.copies == plan.copies
            &&& p <= plan.frames() ==> now.frame_before is None
            &&& p < 2 * plan.frames() && !plan.vacant(p) ==> {
                &&& now.step() is Some
                &&& now.step()->0.redundant == (p < plan.frames())
                &&& shape_at(plan, ws, p) == shape_after(plan, p, if p < plan.frames() {
                    now.copy_before
                } else {
                    now.frame_before
                })
            }
        }),
    decreases p,
{
    reveal(shape_at);
    if p > 0 {
        lemma_plan_at(plan, ws, p - 1);
        let was = plan_at(plan, ws, p - 1);
        assert(was.vacant(p - 1) == plan.vacant(p - 1));
        if !was.vacant(p - 1) {
            assert(was.next_place(was.place) == p - 1);
        }
    }
    let now = plan_at(plan, ws, p);
    assert(now.vacant(p) == plan.vacant(p));
    if !plan.vacant(p) {
        assert(now.next_place(now.place) == p);
    }
}

/// The two outcomes agree on everything that later frames or a caller may go by.
pub open spec fn same_outcome(a: FrameOutcome, b: FrameOutcome) -> bool {
    &&& a.last_log_gain == b.last_log_gain
    &&& a.primary_lag == b.primary_lag
    &&& a.d_lpc == b.d_lpc
    &&& forall|k: int| 0 <= k < a.d_lpc ==> #[trigger] a.nlsf_q15@[k] == b.nlsf_q15@[k]
}

/// The two leave the same to the frame after them.
spec fn left_alike(a: Option<FrameOutcome>, b: Option<FrameOutcome>) -> bool {
    &&& a is Some == b is Some
    &&& a is Some ==> a->0.primary_lag == b->0.primary_lag && a->0.last_log_gain
        == b->0.last_log_gain
}

/// Where two frames are one and the same, so is what they left.
proof fn lemma_same_outcome(a: WrittenFrame, b: WrittenFrame, shape: StepShape)
    requires
        a.fits(shape),
        b.fits(shape),
        same_planned(a.code, b.code),
    ensures
        same_outcome(a.left, b.left),
{
    assert(a.code.log_gain(shape, shape.frame.subframes - 1) == b.code.log_gain(
        shape,
        shape.frame.subframes - 1,
    ));
    assert(a.code.nlsfs(shape) == b.code.nlsfs(shape));
    assert forall|k: int| 0 <= k < a.left.d_lpc implies #[trigger] a.left.nlsf_q15@[k]
        == b.left.nlsf_q15@[k] by {
        assert(b.left.nlsf_q15@[k] == b.code.nlsfs(shape)[k]);
    }
}

proof fn lemma_steps_unique(
    bytes: Seq<u8>,
    past: Seq<Coded>,
    plan: PlanView,
    a: Seq<WrittenFrame>,
    ta: Seq<Coded>,
    b: Seq<WrittenFrame>,
    tb: Seq<Coded>,
    p: int,
)
    requires
        begins(plan),
        0 <= p <= 2 * plan.frames(),
        steps_written(plan, a, p),
        steps_written(plan, b, p),
        carries(bytes, past + steps_log(plan, a, p) + ta),
        carries(bytes, past + steps_log(plan, b, p) + tb),
    ensures
        steps_log(plan, a, p) == steps_log(plan, b, p),
        forall|q: int|
            0 <= q < p && !plan.vacant(q) ==> same_planned((#[trigger] a[q]).code, b[q].code)
                && same_outcome(a[q].left, b[q].left),
        left_alike(plan_at(plan, a, p).copy_before, plan_at(plan, b, p).copy_before),
        left_alike(plan_at(plan, a, p).frame_before, plan_at(plan, b, p).frame_before),
    decreases p,
{
    if p > 0 {
        let q = p - 1;
        if plan.vacant(q) {
            lemma_steps_unique(bytes, past, plan, a, ta, b, tb, q);
        } else {
            let (ha, hb) = (steps_log(plan, a, q), steps_log(plan, b, q));
            let (sa, sb) = (shape_at(plan, a, q), shape_at(plan, b, q));
            let (la, lb) = (a[q].code.log(sa), b[q].code.log(sb));
            lemma_regroup(past, ha, la, ta);
            lemma_regroup(past, hb, lb, tb);
            lemma_steps_unique(bytes, past, plan, a, la + ta, b, lb + tb, q);
            lemma_same_shape(plan, a, b, q);
            lemma_frame_unique(bytes, past + ha, sa, a[q], ta, b[q], tb);
        }
        lemma_left(plan, a, p);
        lemma_left(plan, b, p);
    }
}

/// Frames after the same outcomes are coded in the same way.
proof fn lemma_same_shape(plan: PlanView, a: Seq<WrittenFrame>, b: Seq<WrittenFrame>, p: int)
    requires
        begins(plan),
        0 <= p < 2 * plan.frames(),
        !plan.vacant(p),
        left_alike(plan_at(plan, a, p).copy_before, plan_at(plan, b, p).copy_before),
        left_alike(plan_at(plan, a, p).frame_before, plan_at(plan, b, p).frame_before),
    ensures
        shape_at(plan, a, p) == shape_at(plan, b, p),
{
    lemma_plan_at(plan, a, p);
    lemma_plan_at(plan, b, p);
}

proof fn lemma_frame_unique(
    bytes: Seq<u8>,
    past: Seq<Coded>,
    shape: StepShape,
    a: WrittenFrame,
    ta: Seq<Coded>,
    b: WrittenFrame,
    tb: Seq<Coded>,
)
    requires
        a.fits(shape),
        b.fits(shape),
        carries(bytes, past + a.code.log(shape) + ta),
        carries(bytes, past + b.code.log(shape) + tb),
    ensures
        same_planned(a.code, b.code),
        same_outcome(a.left, b.left),
        a.code.log(shape) == b.code.log(shape),
{
    law_planned_frame_reads_back(bytes, past, shape, a.code, ta, b.code, tb);
    lemma_same_outcome(a, b, shape);
}

/// What the plan goes by once one more place has been passed.
proof fn lemma_left(plan: PlanView, ws: Seq<WrittenFrame>, p: int)
    requires
        begins(plan),
        0 < p <= 2 * plan.frames(),
    ensures
        ({
            let was = plan_at(plan, ws, p - 1);
            let now = plan_at(plan, ws, p);
            &&& now.copy_before == (if p <= plan.frames() && !plan.vacant(p - 1) {
                Some(ws[p - 1].left)
            } else {
                was.copy_before
            })
            &&& now.frame_before == (if p > plan.frames() {
                Some(ws[p - 1].left)
            } else {
                was.frame_before
            })
        }),
{
    lemma_plan_at(plan, ws, p - 1);
    let was = plan_at(plan, ws, p - 1);
    assert(was.vacant(p - 1) == plan.vacant(p - 1));
    if !was.vacant(p - 1) {
        assert(was.next_place(was.place) == p - 1);
    }
}

/// A reader finds in the packet's bytes which frames are active and which have a redundant copy.
pub proof fn law_planned_flags_read_back(
    bytes: Seq<u8>,
    plan: PlanView,
    sent: Seq<WrittenFrame>,
    tail: Seq<Coded>,
    got: HeaderCode,
    rest: Seq<Coded>,
)
    requires
        begins(plan),
        carries(bytes, planned_log(plan, sent) + tail),
        got.coded(1, plan.frames()),
        carries(bytes, got.log(1, plan.frames()) + rest),
    ensures
        got == plan.header(),
        got.active[0] == plan.active,
        forall|i: int|
            0 <= i < plan.frames() ==> has_bit(got.redundant[0], i) == #[trigger] plan.copies[i],
{
    let head = plan.header();
    let n = plan.frames();
    let none = Seq::<Coded>::empty();
    assert forall|i: int| 0 <= i < n implies has_bit(head.redundant[0], i)
        == #[trigger] plan.copies[i] by {
        law_bits_are_members(plan.copies, i);
    }
    law_bits_are_members(plan.copies, 0);
    assert(head.coded(1, n));
    let steps = steps_log(plan, sent, 2 * n);
    assert(planned_log(plan, sent) + tail =~= none + head.log(1, n) + (steps + tail));
    assert(got.log(1, n) + rest =~= none + got.log(1, n) + rest);
    law_header_reads_back(bytes, none, 1, n, head, steps + tail, got, rest);
    assert(got =~= head);
}

/// What is planned and written is read back: a reader that walks the plan of a packet, redundant
/// copies first and with their own sequence of states, finds in the packet's bytes the frames that
/// were written, each coded as the plan's settings ask, and they leave it what they left the
/// writer.
pub proof fn law_planned_frames_read_back(
    bytes: Seq<u8>,
    plan: PlanView,
    sent: Seq<WrittenFrame>,
    tail: Seq<Coded>,
    got: Seq<WrittenFrame>,
    rest: Seq<Coded>,
)
    requires
        begins(plan),
        steps_written(plan, sent, 2 * plan.frames()),
        steps_written(plan, got, 2 * plan.frames()),
        carries(bytes, planned_log(plan, sent) + tail),
        carries(bytes, planned_log(plan, got) + rest),
    ensures
        forall|p: int|
            0 <= p < 2 * plan.frames() && !plan.vacant(p) ==> same_planned(
                (#[trigger] sent[p]).code,
                got[p].code,
            ) && same_outcome(sent[p].left, got[p].left),
{
    let head = plan.header().log(1, plan.frames());
    lemma_steps_unique(bytes, head, plan, sent, tail, got, rest, 2 * plan.frames());
}

/// The only redundant copy of a packet of one frame is the packet's, where there is one.
proof fn lemma_only_copy(plan: PlanView, ws: Seq<WrittenFrame>)
    requires
        begins(plan),
        plan.frames() == 1,
        steps_written(plan, ws, 2),
    ensures
        ({
            let packet = planned_packet(plan, ws);
            let shape = planned_shape(plan);
            &&& packet.copies_log(shape, 1) == steps_log(plan, ws, 1)
            &&& packet.copies_coded(shape, 1)
        }),
{
    let packet = planned_packet(plan, ws);
    let shape = planned_shape(plan);
    law_bits_are_members(plan.copies, 0);
    assert(packet.has_copy(0, 0) == plan.copies[0]);
    assert(0int % 1 == 0 && 0int / 1 == 0);
    assert(packet.copies_log(shape, 0) =~= steps_log(plan, ws, 0));
    if plan.copies[0] {
        lemma_plan_at(plan, ws, 0);
        assert(ws[0].fits(shape_at(plan, ws, 0)));
        law_first_frame_stands_alone(ws[0].code, shape_at(plan, ws, 0));
        assert(packet.copies[0] == ws[0].code.alone());
        assert(packet.copy_shape(shape, 0, 0) == shape_at(plan, ws, 0).frame);
    }
    assert forall|j: int|
        0 <= j < 1 && packet.has_copy(j % shape.channels, j / shape.channels) implies (
    #[trigger] packet.copies[j]).coded(
        packet.copy_shape(shape, j % shape.channels, j / shape.channels),
    ) by {
        assert(j == 0);
    }
}

/// The only frame of a packet of one frame is the packet's.
proof fn lemma_only_block(plan: PlanView, ws: Seq<WrittenFrame>)
    requires
        begins(plan),
        plan.frames() == 1,
        steps_written(plan, ws, 2),
    ensures
        ({
            let packet = planned_packet(plan, ws);
            let shape = planned_shape(plan);
            &&& steps_log(plan, ws, 2) == steps_log(plan, ws, 1) + packet.blocks_log(shape, 1)
            &&& packet.block_coded(shape, 0)
        }),
{
    let packet = planned_packet(plan, ws);
    let shape = planned_shape(plan);
    lemma_plan_at(plan, ws, 1);
    assert(ws[1].fits(shape_at(plan, ws, 1)));
    law_first_frame_stands_alone(ws[1].code, shape_at(plan, ws, 1));
    assert(plan.header().active[0] == plan.active);
    assert(packet.blocks[0].mid == ws[1].code.alone());
    assert(packet.mid_shape(shape, 0) == shape_at(plan, ws, 1).frame);
    let own = ws[1].code.log(shape_at(plan, ws, 1));
    let none = Seq::<Coded>::empty();
    assert(packet.block_log(shape, 0) =~= none + own + none);
    assert(packet.blocks_log(shape, 0) =~= none);
    assert(packet.blocks_log(shape, 1) =~= own);
}

/// A planned packet of one frame whose steps were written is a packet, symbol by symbol, for a
/// reader that has read nothing. It is one without redundant copies if none was planned. Packets
/// of more frames are not: their later frames go by the gain before and do not say their scale.
pub proof fn law_planned_packet_is_a_packet(plan: PlanView, ws: Seq<WrittenFrame>)
    requires
        begins(plan),
        plan.frames() == 1,
        steps_written(plan, ws, 2),
    ensures
        planned_packet(plan, ws).coded(planned_shape(plan)),
        planned_packet(plan, ws).log(planned_shape(plan)) == planned_log(plan, ws),
        planned_packet(plan, ws).header.plain() <==> !plan.copies[0],
{
    let packet = planned_packet(plan, ws);
    let shape = planned_shape(plan);
    lemma_only_copy(plan, ws);
    lemma_only_block(plan, ws);
    law_bits_are_members(plan.copies, 0);
    let head = packet.header.log(1, 1);
    let copies = packet.copies_log(shape, 1);
    let blocks = packet.blocks_log(shape, 1);
    assert(head + copies + blocks =~= head + (copies + blocks));
    assert(packet.header.redundant[0] == plan.copy_bits());
}

/// The planned packet round trip: of bytes that begin with a packet of one frame that was planned
/// and written, a reader that has read nothing reads that packet.
pub proof fn law_planned_packet_round_trip(
    bytes: Seq<u8>,
    plan: PlanView,
    ws: Seq<WrittenFrame>,
    tail: Seq<Coded>,
    got: PacketCode,
)
    requires
        begins(plan),
        plan.frames() == 1,
        steps_written(plan, ws, 2),
        carries(bytes, planned_log(plan, ws) + tail),
        got.coded(planned_shape(plan)),
        carries(bytes, got.log(planned_shape(plan))),
    ensures
        same_packet(planned_packet(plan, ws), got, planned_shape(plan)),
{
    law_planned_packet_is_a_packet(plan, ws);
    law_packet_round_trip(bytes, planned_shape(plan), planned_packet(plan, ws), tail, got);
}

} // verus!
