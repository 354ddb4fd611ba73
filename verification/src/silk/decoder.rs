//! Reading a packet: one to three frames in one or two channels.
use oxideav_celt::range_decoder::RangeDecoder;
use vstd::prelude::*;

use crate::error::SilkError;
use crate::range_coder::{
    can_read, carries, flag, has_read, read_failed, read_flag, read_log, read_symbol, source_bytes,
    symbol, Coded, MAX_SYMBOLS,
};
use crate::silk::frame::{
    decode_frame_body, read_frame, shape_after, FrameBody, SilkChannelState, SUBFRAMES_10MS,
    SUBFRAMES_20MS,
};
use crate::silk::frame_code::{no_memory, FrameCode};
use crate::silk::frame_models::{mid_only_icdf, mid_only_model, redundancy_icdf};
use crate::silk::packet_code::{all_bits, BlockCode, HeaderCode, PacketCode, PacketShape};
use crate::silk::stereo_weights::{stereo_decode_pred, WeightCode};
use crate::toc::OpusBandwidth;

verus! {

/// Internal sampling rate of a bandwidth.
pub open spec fn internal_rate(bw: OpusBandwidth) -> int {
    match bw {
        OpusBandwidth::Narrowband => 8000,
        OpusBandwidth::Mediumband => 12000,
        _ => 16000,
    }
}

/// Internal sampling rate of a bandwidth.
pub fn internal_rate_hz(bw: OpusBandwidth) -> (rate: u32)
    ensures
        rate == internal_rate(bw),
{
    match bw {
        OpusBandwidth::Narrowband => 8_000,
        OpusBandwidth::Mediumband => 12_000,
        OpusBandwidth::Wideband => 16_000,
        _ => 16_000,
    }
}

/// What stereo unmixing remembers of the packets before.
#[derive(Debug, Clone, Copy)]
pub struct SilkStereoState {
    /// Prediction weights (Q13) of the last frame.
    pub pred_prev_q13: [i32; 2],
    /// Last two samples of the mid channel (Q15).
    pub s_mid: [i16; 2],
    /// Last two samples of the side channel (Q15).
    pub s_side: [i16; 2],
    /// Whether only the mid channel was coded in the last frame.
    pub prev_decode_only_mid: bool,
}

impl SilkStereoState {
    /// Nothing remembered.
    pub open spec fn fresh(self) -> bool {
        &&& self.pred_prev_q13@ == seq![0i32, 0i32]
        &&& self.s_mid@ == seq![0i16, 0i16]
        &&& self.s_side@ == seq![0i16, 0i16]
        &&& !self.prev_decode_only_mid
    }

    /// The state before the first packet.
    pub fn new() -> (s: Self)
        ensures
            s.fresh(),
    {
        let s: SilkStereoState = SilkStereoState {
            pred_prev_q13: [0; 2],
            s_mid: [0; 2],
            s_side: [0; 2],
            prev_decode_only_mid: false,
        };
        assert(s.pred_prev_q13@ =~= seq![0i32, 0i32]);
        assert(s.s_mid@ =~= seq![0i16, 0i16]);
        assert(s.s_side@ =~= seq![0i16, 0i16]);
        s
    }
}

impl Default for SilkStereoState {
    fn default() -> (s: Self)
        ensures
            s.fresh(),
    {
        SilkStereoState::new()
    }
}

/// Reader of the packets of one stream, in one or two channels.
pub struct SilkDecoder {
    /// What the only or the mid channel remembers.
    pub state: SilkChannelState,
    /// What the side channel remembers.
    pub side_state: SilkChannelState,
    /// What stereo unmixing remembers.
    pub stereo_state: SilkStereoState,
    /// Bandwidth of the stream.
    pub bandwidth: OpusBandwidth,
    /// Order of the prediction filter.
    pub lpc_order: usize,
    /// Samples per subframe at the internal rate.
    pub subframe_len: usize,
    /// Samples per 20 ms frame at the internal rate.
    pub frame_len: usize,
}

/// One frame in all channels, as a synthesis filter needs it.
pub struct BlockBody {
    /// Stereo prediction weights (Q13); zero in one channel.
    pub pred_q13: [i32; 2],
    /// Whether the side channel is left out.
    pub decode_only_mid: bool,
    /// Whether the side channel starts anew.
    pub reset_side: bool,
    /// The only or the mid channel.
    pub mid: FrameBody,
    /// The side channel, where it is coded.
    pub side: Option<FrameBody>,
}

impl BlockBody {
    /// These are the parameters that block `i` of `code` stands for.
    pub open spec fn stands_for(self, code: PacketCode, shape: PacketShape, i: int) -> bool {
        let b = code.blocks[i];
        &&& (self.pred_q13@[0] as int, self.pred_q13@[1] as int) == (if shape.channels == 2 {
            b.weights.weights()
        } else {
            (0int, 0int)
        })
        &&& self.decode_only_mid == b.only_mid
        &&& self.reset_side == code.side_restarts(shape, i)
        &&& self.mid.stands_for(b.mid, code.mid_shape(shape, i), code.mid_memory(shape, i))
        &&& match self.side {
            Some(side) => code.has_side(shape, i) && side.stands_for(
                b.side,
                code.side_shape(shape, i),
                code.side_start(shape, i),
            ),
            None => !code.has_side(shape, i),
        }
    }
}

/// Numbers of frames and of subframes per frame in a packet of so many samples at 48 kHz.
pub open spec fn packet_layout(frame_samples_48k: int) -> Option<(int, int)> {
    if frame_samples_48k == 480 {
        Some((1, 2))
    } else if frame_samples_48k == 960 {
        Some((1, 4))
    } else if frame_samples_48k == 1920 {
        Some((2, 4))
    } else if frame_samples_48k == 2880 {
        Some((3, 4))
    } else {
        None
    }
}

/// Numbers of frames and of subframes per frame in a packet of so many samples at 48 kHz.
pub fn frame_layout(frame_samples_48k: usize) -> (r: Result<(usize, usize), SilkError>)
    ensures
        match r {
            Ok((n, s)) => packet_layout(frame_samples_48k as int) == Some((n as int, s as int)),
            Err(e) => packet_layout(frame_samples_48k as int) is None && e
                == SilkError::Unsupported,
        },
{
    match frame_samples_48k {
        480 => Ok((1, SUBFRAMES_10MS)),
        960 => Ok((1, SUBFRAMES_20MS)),
        1920 => Ok((2, SUBFRAMES_20MS)),
        2880 => Ok((3, SUBFRAMES_20MS)),
        _ => Err(SilkError::Unsupported),
    }
}

/// The flags at the head of a packet, as read.
pub struct PacketHeader {
    /// Voice activity per channel and frame.
    pub active: Vec<Vec<bool>>,
    /// Per channel, the set of frames with a redundant copy, as bits.
    pub redundant: Vec<u32>,
}

impl PacketHeader {
    /// What is coded.
    pub open spec fn code(self) -> HeaderCode {
        header_code(self.active, self.redundant)
    }
}

/// What voice activity flags and sets of redundant copies are coded as.
pub open spec fn header_code(active: Vec<Vec<bool>>, redundant: Vec<u32>) -> HeaderCode {
    HeaderCode {
        active: Seq::new(active@.len(), |n: int| active@[n]@),
        redundant: Seq::new(redundant@.len(), |n: int| redundant@[n] as int),
    }
}

/// The symbols of one channel's voice activity flags.
spec fn channel_row(active: Seq<bool>) -> Seq<Coded> {
    Seq::new(active.len(), |i: int| flag(active[i]))
}

/// Reads the voice activity flags of one channel.
fn read_activity(rc: &mut RangeDecoder<'_>, frames: usize) -> (active: Vec<bool>)
    requires
        frames <= 3,
        can_read(old(rc), 3),
    ensures
        active@.len() == frames,
        has_read(old(rc), final(rc), channel_row(active@)),
{
    let mut active: Vec<bool> = Vec::new();
    assert(read_log(rc) =~= read_log(old(rc)) + channel_row(active@));
    for i in 0..frames
        invariant
            frames <= 3,
            can_read(old(rc), 3),
            active@.len() == i,
            has_read(old(rc), rc, channel_row(active@)),
    {
        let ghost was = active@;
        let bit: bool = read_flag(rc);
        active.push(bit);
        proof {
            assert(channel_row(active@) =~= channel_row(was).push(flag(bit)));
            assert(read_log(rc) =~= read_log(old(rc)) + channel_row(active@));
        }
    }
    active
}

/// The flags of the first channels do not depend on those after.
proof fn lemma_flags_prefix(a: HeaderCode, b: HeaderCode, n: int)
    requires
        0 <= n <= a.active.len(),
        n <= b.active.len(),
        n <= a.redundant.len(),
        n <= b.redundant.len(),
        forall|k: int|
            0 <= k < n ==> #[trigger] a.active[k] == b.active[k] && (a.redundant[k] != 0) == (
            b.redundant[k] != 0),
    ensures
        a.flags_log(n) == b.flags_log(n),
    decreases n,
{
    if n > 0 {
        lemma_flags_prefix(a, b, n - 1);
        assert(a.active[n - 1] == b.active[n - 1]);
        assert(a.channel_flags(n - 1) =~= b.channel_flags(n - 1));
    }
}

/// The sets of the first channels do not depend on those after.
proof fn lemma_sets_prefix(a: HeaderCode, b: HeaderCode, frames: int, n: int)
    requires
        forall|k: int| 0 <= k < n ==> #[trigger] a.redundant[k] == b.redundant[k],
    ensures
        a.sets_log(frames, n) == b.sets_log(frames, n),
    decreases n,
{
    if n > 0 {
        lemma_sets_prefix(a, b, frames, n - 1);
        assert(a.redundant[n - 1] == b.redundant[n - 1]);
    }
}

/// Reads the flags of all channels: voice activity per frame, and whether there are redundant
/// copies.
fn read_flags(rc: &mut RangeDecoder<'_>, channels: usize, frames: usize) -> (r: (
    Vec<Vec<bool>>,
    Vec<u32>,
))
    requires
        channels <= 2,
        1 <= frames <= 3,
        can_read(old(rc), 8),
    ensures
        ({
            let h = header_code(r.0, r.1);
            &&& h.active.len() == channels
            &&& h.redundant.len() == channels
            &&& forall|n: int| 0 <= n < channels ==> (#[trigger] h.active[n]).len() == frames
            &&& forall|n: int| 0 <= n < channels ==> 0 <= #[trigger] h.redundant[n] <= 1
            &&& has_read(old(rc), final(rc), h.flags_log(channels as int))
        }),
        read_log(final(rc)).len() <= read_log(old(rc)).len() + 8,
{
    let mut active: Vec<Vec<bool>> = Vec::new();
    let mut any: Vec<u32> = Vec::new();
    assert(read_log(rc) =~= read_log(old(rc)) + header_code(active, any).flags_log(0));
    for n in 0..channels
        invariant
            channels <= 2,
            1 <= frames <= 3,
            can_read(old(rc), 8),
            active@.len() == n,
            any@.len() == n,
            forall|k: int| 0 <= k < n ==> (#[trigger] active@[k])@.len() == frames,
            forall|k: int| 0 <= k < n ==> 0 <= #[trigger] any@[k] <= 1,
            has_read(
                old(rc),
                rc,
                header_code(active, any).flags_log(n as int),
            ),
            read_log(rc).len() <= read_log(old(rc)).len() + 4 * n,
    {
        let ghost was = header_code(active, any);
        let row: Vec<bool> = read_activity(rc, frames);
        let bit: bool = read_flag(rc);
        let ghost row_seq = row@;
        active.push(row);
        any.push(if bit {
            1
        } else {
            0
        });
        proof {
            let now = header_code(active, any);
            assert forall|k: int| 0 <= k < n implies #[trigger] was.active[k] == now.active[k]
                && (was.redundant[k] != 0) == (now.redundant[k] != 0) by {}
            lemma_flags_prefix(was, now, n as int);
            assert(now.active[n as int] == row_seq);
            assert(now.channel_flags(n as int) =~= channel_row(row_seq).push(flag(bit)));
            assert(read_log(rc) =~= read_log(old(rc)) + now.flags_log(n + 1));
        }
    }
    (active, any)
}

/// Reads the flags at the head of a packet.
pub fn read_header(rc: &mut RangeDecoder<'_>, channels: usize, frames: usize) -> (h: PacketHeader)
    requires
        channels <= 2,
        1 <= frames <= 3,
        can_read(old(rc), 10),
    ensures
        h.code().coded(channels as int, frames as int),
        has_read(old(rc), final(rc), h.code().log(channels as int, frames as int)),
        read_log(final(rc)).len() <= read_log(old(rc)).len() + 10,
{
    let (active, any): (Vec<Vec<bool>>, Vec<u32>) = read_flags(rc, channels, frames);
    let ghost flags = header_code(active, any);
    let ghost middle = read_log(rc);
    let ghost bytes = source_bytes(rc);
    let mut redundant: Vec<u32> = Vec::new();
    proof {
        assert forall|k: int| 0 <= k < channels implies 0 <= #[trigger] any@[k] <= 1 by {
            assert(flags.redundant[k] == any@[k]);
        }
        let h = header_code(active, redundant);
        assert(middle =~= middle + h.sets_log(frames as int, 0));
    }
    for n in 0..channels
        invariant
            channels <= 2,
            1 <= frames <= 3,
            any@.len() == channels,
            active@.len() == channels,
            forall|k: int| 0 <= k < channels ==> 0 <= #[trigger] any@[k] <= 1,
            can_read(rc, 2 - n),
            source_bytes(rc) == bytes,
            read_failed(rc) == read_failed(old(rc)),
            read_log(rc) == middle + header_code(active, redundant).sets_log(
                frames as int,
                n as int,
            ),
            read_log(rc).len() <= middle.len() + n,
            redundant@.len() == n,
            forall|k: int|
                0 <= k < n ==> 0 <= #[trigger] redundant@[k] <= all_bits(frames as int) && (
                redundant@[k] != 0) == (any@[k] != 0),
    {
        let ghost was = header_code(active, redundant);
        let set: u32 = if any[n] == 0 {
            0
        } else if frames == 1 {
            1
        } else {
            read_symbol(rc, redundancy_icdf(frames)) as u32 + 1
        };
        redundant.push(set);
        proof {
            let now = header_code(active, redundant);
            assert forall|k: int| 0 <= k < n implies #[trigger] was.redundant[k]
                == now.redundant[k] by {}
            lemma_sets_prefix(was, now, frames as int, n as int);
            assert(now.redundant[n as int] == set);
            assert(read_log(rc) =~= middle + now.sets_log(frames as int, n + 1));
        }
    }
    let h: PacketHeader = PacketHeader { active, redundant };
    proof {
        let c = h.code();
        assert forall|k: int| 0 <= k < channels implies #[trigger] flags.active[k] == c.active[k]
            && (flags.redundant[k] != 0) == (c.redundant[k] != 0) by {
            assert(flags.redundant[k] == any@[k]);
            assert(c.redundant[k] == redundant@[k]);
        }
        lemma_flags_prefix(flags, c, channels as int);
        assert forall|n: int| 0 <= n < channels implies (#[trigger] c.active[n]).len()
            == frames by {
            assert(flags.active[n].len() == frames);
        }
        assert forall|n: int| 0 <= n < channels implies 0 <= #[trigger] c.redundant[n] <= all_bits(
            frames as int,
        ) by {
            assert(c.redundant[n] == redundant@[n]);
        }
        assert(read_log(rc) =~= read_log(old(rc)) + c.log(channels as int, frames as int));
    }
    h
}

/// Whether any frame comes with a redundant copy.
fn any_redundant(header: &PacketHeader) -> (b: bool)
    ensures
        b == !header.code().plain(),
{
    for n in 0..header.redundant.len()
        invariant
            forall|k: int| 0 <= k < n ==> #[trigger] header.redundant@[k] == 0,
    {
        if header.redundant[n] != 0 {
            assert(header.code().redundant[n as int] != 0);
            return true;
        }
    }
    assert forall|k: int| 0 <= k < header.code().redundant.len() implies #[trigger] header.code()
        .redundant[k] == 0 by {
        assert(header.redundant@[k] == 0);
    }
    false
}

/// A packet without redundant copies has no symbols for them.
proof fn lemma_no_copies(code: PacketCode, shape: PacketShape, k: int)
    requires
        code.header.plain(),
        shape.channels == code.header.redundant.len(),
        shape.channels == 1 || shape.channels == 2,
    ensures
        code.copies_log(shape, k) == Seq::<Coded>::empty(),
        code.copies_coded(shape, k),
    decreases k,
{
    if k > 0 {
        lemma_no_copies(code, shape, k - 1);
        let n = (k - 1) % shape.channels;
        assert(code.header.redundant[n] == 0);
    }
    assert forall|j: int|
        0 <= j < k && code.has_copy(j % shape.channels, j / shape.channels) implies (
    #[trigger] code.copies[j]).coded(
        code.copy_shape(shape, j % shape.channels, j / shape.channels),
    ) by {
        let n = j % shape.channels;
        assert(code.header.redundant[n] == 0);
    }
}

/// Any frame code, for a place that holds none.
spec fn no_frame() -> FrameCode {
    arbitrary()
}

/// A packet with the head `header`, no redundant copies and no blocks yet.
spec fn without_copies(header: HeaderCode, shape: PacketShape) -> PacketCode {
    PacketCode {
        header,
        copies: Seq::new((shape.frames * shape.channels) as nat, |k: int| no_frame()),
        blocks: Seq::empty(),
    }
}

spec fn with_block(code: PacketCode, b: BlockCode) -> PacketCode {
    PacketCode { header: code.header, copies: code.copies, blocks: code.blocks.push(b) }
}

/// What channels remember does not depend on later blocks.
proof fn lemma_memory_prefix(code: PacketCode, b: BlockCode, shape: PacketShape, i: int)
    requires
        i <= code.blocks.len(),
    ensures
        with_block(code, b).mid_memory(shape, i) == code.mid_memory(shape, i),
        with_block(code, b).side_memory(shape, i) == code.side_memory(shape, i),
        with_block(code, b).only_mid_before(shape, i) == code.only_mid_before(shape, i),
    decreases i,
{
    if i > 0 {
        lemma_memory_prefix(code, b, shape, i - 1);
        assert(with_block(code, b).blocks[i - 1] == code.blocks[i - 1]);
    }
}

/// The symbols of the first blocks do not depend on later ones.
proof fn lemma_blocks_prefix(code: PacketCode, b: BlockCode, shape: PacketShape, k: int)
    requires
        k <= code.blocks.len(),
    ensures
        with_block(code, b).blocks_log(shape, k) == code.blocks_log(shape, k),
        forall|i: int|
            0 <= i < k && code.block_coded(shape, i) ==> #[trigger] with_block(
                code,
                b,
            ).block_coded(shape, i),
    decreases k,
{
    if k > 0 {
        lemma_blocks_prefix(code, b, shape, k - 1);
        lemma_memory_prefix(code, b, shape, k - 1);
        assert(with_block(code, b).blocks[k - 1] == code.blocks[k - 1]);
    }
}

/// What is known once the blocks of `code` have been read: the log `now` holds their symbols after
/// those of `start`.
spec fn blocks_passed(
    code: PacketCode,
    shape: PacketShape,
    start: Seq<Coded>,
    now: Seq<Coded>,
) -> bool {
    &&& forall|i: int| 0 <= i < code.blocks.len() ==> #[trigger] code.block_coded(shape, i)
    &&& now == start + code.blocks_log(shape, code.blocks.len() as int)
}

/// One more block has been read.
proof fn lemma_block_step(
    code: PacketCode,
    b: BlockCode,
    shape: PacketShape,
    start: Seq<Coded>,
    was: Seq<Coded>,
    stereo: Seq<Coded>,
    mid: Seq<Coded>,
    side: Seq<Coded>,
)
    requires
        blocks_passed(code, shape, start, was),
        with_block(code, b).block_coded(shape, code.blocks.len() as int),
        ({
            let next = with_block(code, b);
            let i = code.blocks.len() as int;
            &&& stereo == next.stereo_log(shape, i)
            &&& mid == b.mid.log(next.mid_shape(shape, i))
            &&& side == (if next.has_side(shape, i) {
                b.side.log(next.side_shape(shape, i))
            } else {
                Seq::empty()
            })
        }),
    ensures
        blocks_passed(with_block(code, b), shape, start, was + stereo + mid + side),
{
    let next = with_block(code, b);
    let k = code.blocks.len() as int;
    lemma_blocks_prefix(code, b, shape, k);
    assert(next.blocks[k] == b);
    assert forall|i: int| 0 <= i < next.blocks.len() implies #[trigger] next.block_coded(
        shape,
        i,
    ) by {
        if i < k {
            assert(code.block_coded(shape, i));
        }
    }
    let past = code.blocks_log(shape, k);
    assert(next.blocks_log(shape, k + 1) == past + next.block_log(shape, k));
    lemma_join_block(start, past, stereo, mid, side);
}

/// Appending piece by piece is appending all at once.
proof fn lemma_join_block(
    start: Seq<Coded>,
    past: Seq<Coded>,
    a: Seq<Coded>,
    b: Seq<Coded>,
    c: Seq<Coded>,
)
    ensures
        start + past + a + b + c == start + (past + (a + b + c)),
{
    assert(start + past + a + b + c =~= start + (past + (a + b + c)));
}

/// Reads the stereo parameters of a block in two channels.
fn read_stereo(rc: &mut RangeDecoder<'_>, side_active: bool) -> (r: (
    [i32; 2],
    bool,
    Ghost<WeightCode>,
))
    requires
        can_read(old(rc), 6),
    ensures
        r.2@.coded(),
        (r.0@[0] as int, r.0@[1] as int) == r.2@.weights(),
        r.1 ==> !side_active,
        has_read(
            old(rc),
            final(rc),
            r.2@.log() + (if side_active {
                Seq::empty()
            } else {
                seq![symbol(mid_only_model(), if r.1 { 1 } else { 0 })]
            }),
        ),
        read_log(final(rc)).len() <= read_log(old(rc)).len() + 6,
{
    let pred: [i32; 2] = stereo_decode_pred(rc);
    let ghost w = choose|code: WeightCode|
        #[trigger] code.coded() && has_read(old(rc), rc, code.log()) && (
        pred@[0] as int,
        pred@[1] as int,
    ) == code.weights();
    let only_mid: bool = if side_active {
        assert(read_log(rc) =~= read_log(old(rc)) + (w.log() + Seq::<Coded>::empty()));
        false
    } else {
        let sym: usize = read_symbol(rc, mid_only_icdf());
        assert(read_log(rc) =~= read_log(old(rc)) + (w.log() + seq![
            symbol(mid_only_model(), sym as int),
        ]));
        sym != 0
    };
    (pred, only_mid, Ghost(w))
}

/// Reads the frame of one channel.
fn read_channel(
    rc: &mut RangeDecoder<'_>,
    active: bool,
    bw: OpusBandwidth,
    subframe_len: usize,
    subframes: usize,
    state: &mut SilkChannelState,
) -> (r: (Result<FrameBody, SilkError>, Ghost<FrameCode>))
    requires
        subframes == 2 || subframes == 4,
        can_read(
            old(rc),
            shape_after(
                old(state).memory(),
                active,
                bw,
                subframes as int,
                subframe_len as int,
            ).symbols(),
        ),
        old(state).lag_room(1),
    ensures
        r.0 is Ok,
        ({
            let shape = shape_after(
                old(state).memory(),
                active,
                bw,
                subframes as int,
                subframe_len as int,
            );
            &&& r.1@.coded(shape)
            &&& source_bytes(final(rc)) == source_bytes(old(rc))
            &&& read_failed(final(rc)) == read_failed(old(rc))
            &&& read_log(final(rc)) == read_log(old(rc)) + r.1@.log(shape)
            &&& can_read(final(rc), 0)
            &&& r.0->Ok_0.stands_for(r.1@, shape, old(state).memory())
            &&& final(state).memory() == r.1@.remembered(shape, old(state).memory())
            &&& read_log(final(rc)).len() <= read_log(old(rc)).len() + shape.symbols()
        }),
        final(state).lag_near(*old(state), 1),
{
    let ghost shape = shape_after(
        old(state).memory(),
        active,
        bw,
        subframes as int,
        subframe_len as int,
    );
    let r: Result<FrameBody, SilkError> = decode_frame_body(
        rc,
        active,
        bw,
        subframe_len,
        subframes,
        state,
    );
    let ghost code = choose|code: FrameCode|
        {
            &&& #[trigger] read_frame(old(rc), rc, shape, code)
            &&& r->Ok_0.stands_for(code, shape, old(state).memory())
            &&& state.memory() == code.remembered(shape, old(state).memory())
        };
    (r, Ghost(code))
}

/// Between `before` and `after` the head `header` of a packet was read.
pub open spec fn read_head(
    before: &RangeDecoder<'_>,
    after: &RangeDecoder<'_>,
    channels: int,
    frames: int,
    header: HeaderCode,
) -> bool {
    &&& header.coded(channels, frames)
    &&& has_read(before, after, header.log(channels, frames))
}

/// The bytes begin with the head `header` of a packet.
pub open spec fn carried_head(
    bytes: Seq<u8>,
    channels: int,
    frames: int,
    header: HeaderCode,
) -> bool {
    &&& header.coded(channels, frames)
    &&& carries(bytes, header.log(channels, frames))
}

/// Between `before` and `after` a packet `code` was read.
pub open spec fn read_packet(
    before: &RangeDecoder<'_>,
    after: &RangeDecoder<'_>,
    shape: PacketShape,
    code: PacketCode,
) -> bool {
    &&& code.coded(shape)
    &&& has_read(before, after, code.log(shape))
}

/// Between `before` and `after` a packet `code` without redundant copies was read, which took the
/// reader from `was` to `now` and stands for the parameters `bodies`.
pub open spec fn decoded_packet(
    before: &RangeDecoder<'_>,
    after: &RangeDecoder<'_>,
    was: SilkDecoder,
    now: SilkDecoder,
    shape: PacketShape,
    code: PacketCode,
    bodies: Seq<BlockBody>,
) -> bool {
    &&& read_packet(before, after, shape, code)
    &&& code.header.plain()
    &&& bodies.len() == shape.frames
    &&& forall|i: int|
        0 <= i < shape.frames ==> (#[trigger] bodies[i]).stands_for(code, shape, i)
    &&& now.after_packet(was, shape, code)
}

/// The bytes carry a packet `code` without redundant copies, which takes a reader from `was` to
/// `now` and stands for the parameters `bodies`.
pub open spec fn decoded_bytes(
    bytes: Seq<u8>,
    was: SilkDecoder,
    now: SilkDecoder,
    shape: PacketShape,
    code: PacketCode,
    bodies: Seq<BlockBody>,
) -> bool {
    &&& code.coded(shape)
    &&& carries(bytes, code.log(shape))
    &&& code.header.plain()
    &&& bodies.len() == shape.frames
    &&& forall|i: int|
        0 <= i < shape.frames ==> (#[trigger] bodies[i]).stands_for(code, shape, i)
    &&& now.after_packet(was, shape, code)
}

/// Number of channels.
pub open spec fn channel_count(stereo: bool) -> int {
    if stereo {
        2
    } else {
        1
    }
}

impl SilkDecoder {
    /// A reader that has read nothing.
    pub fn new(bandwidth: OpusBandwidth) -> (d: Self)
        ensures
            d.state.memory() == no_memory(),
            d.side_state.memory() == no_memory(),
            d.stereo_state.fresh(),
            d.bandwidth == bandwidth,
            d.lpc_order == (match bandwidth {
                OpusBandwidth::Narrowband => 10int,
                OpusBandwidth::Mediumband => 10int,
                _ => 16int,
            }),
            200 * d.subframe_len == internal_rate(bandwidth),
            d.frame_len == 4 * d.subframe_len,
    {
        let (order, sub_len): (usize, usize) = match bandwidth {
            OpusBandwidth::Narrowband => (10, 40),
            OpusBandwidth::Mediumband => (10, 60),
            OpusBandwidth::Wideband => (16, 80),
            _ => (16, 80),
        };
        SilkDecoder {
            state: SilkChannelState::new(),
            side_state: SilkChannelState::new(),
            stereo_state: SilkStereoState::new(),
            bandwidth,
            lpc_order: order,
            subframe_len: sub_len,
            frame_len: sub_len * SUBFRAMES_20MS,
        }
    }

    /// How the next packet is coded.
    pub open spec fn packet_shape(
        self,
        channels: int,
        frames: int,
        subframes: int,
    ) -> PacketShape {
        PacketShape {
            bw: self.bandwidth,
            channels,
            frames,
            subframes,
            subframe_len: self.subframe_len as int,
            mid: self.state.memory(),
            side: self.side_state.memory(),
            was_only_mid: self.stereo_state.prev_decode_only_mid,
        }
    }

    /// This is the reader `was` after a packet `code`. The samples and weights that unmixing
    /// remembers are not touched.
    pub open spec fn after_packet(
        self,
        was: SilkDecoder,
        shape: PacketShape,
        code: PacketCode,
    ) -> bool {
        &&& self.state.memory() == code.mid_memory(shape, shape.frames)
        &&& self.side_state.memory() == code.side_memory(shape, shape.frames)
        &&& self.stereo_state.prev_decode_only_mid == code.only_mid_before(shape, shape.frames)
        &&& self.same_otherwise(was)
    }

    /// Everything but what the channels remember of coded frames is as it was.
    pub open spec fn same_otherwise(self, was: SilkDecoder) -> bool {
        &&& self.stereo_state.pred_prev_q13 == was.stereo_state.pred_prev_q13
        &&& self.stereo_state.s_mid == was.stereo_state.s_mid
        &&& self.stereo_state.s_side == was.stereo_state.s_side
        &&& self.bandwidth == was.bandwidth
        &&& self.lpc_order == was.lpc_order
        &&& self.subframe_len == was.subframe_len
        &&& self.frame_len == was.frame_len
    }

    /// The reader stands before the block after those of `code`.
    spec fn stands_at(self, shape: PacketShape, code: PacketCode) -> bool {
        let i = code.blocks.len() as int;
        &&& self.bandwidth == shape.bw
        &&& self.subframe_len == shape.subframe_len
        &&& self.state.memory() == code.mid_memory(shape, i)
        &&& self.side_state.memory() == code.side_memory(shape, i)
        &&& self.stereo_state.prev_decode_only_mid == code.only_mid_before(shape, i)
    }

    /// Reads one frame in all channels.
    #[verifier::rlimit(60)]
    fn read_block(
        &mut self,
        rc: &mut RangeDecoder<'_>,
        header: &PacketHeader,
        i: usize,
        stereo: bool,
        subframes: usize,
        Ghost(shape): Ghost<PacketShape>,
        Ghost(start): Ghost<Seq<Coded>>,
        Ghost(code): Ghost<PacketCode>,
    ) -> (r: (Result<BlockBody, SilkError>, Ghost<BlockCode>))
        requires
            old(self).stands_at(shape, code),
            shape.channels == (if stereo {
                2int
            } else {
                1int
            }),
            shape.subframes == subframes,
            subframes == 2 || subframes == 4,
            i == code.blocks.len(),
            i < shape.frames,
            header.code() == code.header,
            code.header.coded(shape.channels, shape.frames),
            blocks_passed(code, shape, start, read_log(old(rc))),
            can_read(old(rc), 6 + 2 * shape.frame_symbols()),
            old(self).state.lag_room(1),
            old(self).side_state.lag_room(1),
        ensures
            r.0 is Ok,
            final(self).stands_at(shape, with_block(code, r.1@)),
            final(self).same_otherwise(*old(self)),
            blocks_passed(with_block(code, r.1@), shape, start, read_log(final(rc))),
            can_read(final(rc), 0),
            source_bytes(final(rc)) == source_bytes(old(rc)),
            read_failed(final(rc)) == read_failed(old(rc)),
            read_log(final(rc)).len() <= read_log(old(rc)).len() + 6 + 2 * shape.frame_symbols(),
            r.0->Ok_0.stands_for(with_block(code, r.1@), shape, i as int),
            final(self).state.lag_near(old(self).state, 1),
            final(self).side_state.lag_near(old(self).side_state, 1),
    {
        let ghost was = read_log(rc);
        assert(code.header.active[0] == header.active@[0]@);
        let mut pred_q13: [i32; 2] = [0, 0];
        let mut only_mid: bool = false;
        let ghost mut weights: WeightCode = WeightCode { cell0: 0, sub0: 0, cell1: 0, sub1: 0 };
        if stereo {
            assert(code.header.active[1] == header.active@[1]@);
            let (p, o, Ghost(w)): ([i32; 2], bool, Ghost<WeightCode>) = read_stereo(
                rc,
                header.active[1][i],
            );
            pred_q13 = p;
            only_mid = o;
            proof {
                weights = w;
            }
        }
        let ghost l1 = read_log(rc);
        let reset_side: bool = stereo && !only_mid && self.stereo_state.prev_decode_only_mid;
        if reset_side {
            self.side_state.reset();
        }
        let ghost side_was = self.side_state.memory();
        let (mid_r, Ghost(mid_code)): (Result<FrameBody, SilkError>, Ghost<FrameCode>) =
            read_channel(
            rc,
            header.active[0][i],
            self.bandwidth,
            self.subframe_len,
            subframes,
            &mut self.state,
        );
        let mid: FrameBody = match mid_r {
            Ok(b) => b,
            Err(e) => {
                return (Err(e), Ghost(arbitrary()));
            },
        };
        let ghost l2 = read_log(rc);
        let ghost mut side_code: FrameCode = no_frame();
        let side: Option<FrameBody> = if stereo && !only_mid {
            let (side_r, Ghost(c)): (Result<FrameBody, SilkError>, Ghost<FrameCode>) =
                read_channel(
                rc,
                header.active[1][i],
                self.bandwidth,
                self.subframe_len,
                subframes,
                &mut self.side_state,
            );
            proof {
                side_code = c;
            }
            match side_r {
                Ok(b) => Some(b),
                Err(e) => {
                    return (Err(e), Ghost(arbitrary()));
                },
            }
        } else {
            None
        };
        self.stereo_state.prev_decode_only_mid = only_mid;
        let ghost b = BlockCode { weights, only_mid, mid: mid_code, side: side_code };
        proof {
            let next = with_block(code, b);
            let k = i as int;
            lemma_memory_prefix(code, b, shape, k);
            assert(next.blocks[k] == b);
            assert(next.has_side(shape, k) == (stereo && !only_mid));
            assert(next.side_restarts(shape, k) == reset_side);
            assert(next.side_start(shape, k) == side_was);
            let stereo_log = next.stereo_log(shape, k);
            let mid_log = mid_code.log(next.mid_shape(shape, k));
            let side_log = if stereo && !only_mid {
                side_code.log(next.side_shape(shape, k))
            } else {
                Seq::empty()
            };
            assert(l1 =~= was + stereo_log);
            assert(l2 == l1 + mid_log);
            assert(read_log(rc) =~= l2 + side_log);
            assert(next.block_coded(shape, k));
            lemma_block_step(code, b, shape, start, was, stereo_log, mid_log, side_log);
            assert(self.stands_at(shape, next));
        }
        let body: BlockBody = BlockBody {
            pred_q13,
            decode_only_mid: only_mid,
            reset_side,
            mid,
            side,
        };
        (Ok(body), Ghost(b))
    }

    /// Reads a packet of 10, 20, 40 or 60 ms, given by its number of samples at 48 kHz, in one or
    /// two channels. A packet whose head announces redundant copies is refused once its head has
    /// been read.
    pub fn decode_frame_parameters(
        &mut self,
        rc: &mut RangeDecoder<'_>,
        frame_samples_48k: usize,
        stereo: bool,
    ) -> (r: Result<Vec<BlockBody>, SilkError>)
        requires
            packet_layout(frame_samples_48k as int) matches Some((n, s)) ==> can_read(
                old(rc),
                old(self).packet_shape(channel_count(stereo), n, s).symbols(),
            ),
            old(self).state.lag_room(3),
            old(self).side_state.lag_room(3),
        ensures
            match packet_layout(frame_samples_48k as int) {
                Some((n, s)) => match r {
                    Ok(bodies) => exists|code: PacketCode|
                        #[trigger] decoded_packet(
                            old(rc),
                            final(rc),
                            *old(self),
                            *final(self),
                            old(self).packet_shape(channel_count(stereo), n, s),
                            code,
                            bodies@,
                        ),
                    Err(e) => e == SilkError::Unsupported && *final(self) == *old(self)
                        && exists|header: HeaderCode|
                        {
                            &&& #[trigger] read_head(
                                old(rc),
                                final(rc),
                                channel_count(stereo),
                                n,
                                header,
                            )
                            &&& !header.plain()
                        },
                },
                None => r == Err::<Vec<BlockBody>, SilkError>(SilkError::Unsupported)
                    && *final(rc) == *old(rc) && *final(self) == *old(self),
            },
            final(self).state.lag_near(old(self).state, 3),
            final(self).side_state.lag_near(old(self).side_state, 3),
            packet_layout(frame_samples_48k as int) matches Some((n, s)) ==> read_log(
                final(rc),
            ).len() <= read_log(old(rc)).len() + old(self).packet_shape(
                channel_count(stereo),
                n,
                s,
            ).symbols(),
    {
        let (frames, subframes): (usize, usize) = match frame_layout(frame_samples_48k) {
            Ok(layout) => layout,
            Err(e) => {
                return Err(e);
            },
        };
        let channels: usize = if stereo {
            2
        } else {
            1
        };
        let ghost shape = old(self).packet_shape(
            channels as int,
            frames as int,
            subframes as int,
        );
        let ghost each = shape.frame_symbols();
        proof {
            assert(each >= 0);
            assert(frames * each <= 3 * each) by (nonlinear_arith)
                requires
                    frames <= 3,
                    each >= 0,
            ;
            assert(frames * (6 + 2 * each) == 6 * frames + 2 * (frames * each))
                by (nonlinear_arith);
            assert(0 <= frames * each) by (nonlinear_arith)
                requires
                    frames >= 0,
                    each >= 0,
            ;
        }
        let header: PacketHeader = read_header(rc, channels, frames);
        let ghost head_log = header.code().log(channels as int, frames as int);
        if any_redundant(&header) {
            assert(read_head(old(rc), rc, channels as int, frames as int, header.code()));
            return Err(SilkError::Unsupported);
        }
        let ghost start = read_log(rc);
        let ghost mut code = without_copies(header.code(), shape);
        let ghost copies = code.copies;
        let mut bodies: Vec<BlockBody> = Vec::new();
        proof {
            assert(start =~= start + code.blocks_log(shape, 0));
        }
        let mut i: usize = 0;
        while i < frames
            invariant
                i <= frames <= 3,
                subframes == 2 || subframes == 4,
                each == shape.frame_symbols(),
                each >= 0,
                shape.channels == channels,
                channels == (if stereo {
                    2int
                } else {
                    1int
                }),
                shape.frames == frames,
                shape.subframes == subframes,
                shape == old(self).packet_shape(channels as int, frames as int, subframes as int),
                header.code() == code.header,
                code.header.coded(shape.channels, shape.frames),
                code.header.plain(),
                code.copies == copies,
                copies.len() == frames * channels,
                code.blocks.len() == i,
                blocks_passed(code, shape, start, read_log(rc)),
                can_read(rc, 0),
                source_bytes(rc) == source_bytes(old(rc)),
                read_failed(rc) == read_failed(old(rc)),
                start.len() + frames * (6 + 2 * each) <= MAX_SYMBOLS,
                read_log(rc).len() <= start.len() + i * (6 + 2 * each),
                self.stands_at(shape, code),
                self.same_otherwise(*old(self)),
                old(self).state.lag_room(3),
                old(self).side_state.lag_room(3),
                self.state.lag_near(old(self).state, i as int),
                self.side_state.lag_near(old(self).side_state, i as int),
                bodies@.len() == i,
                forall|k: int| 0 <= k < i ==> (#[trigger] bodies@[k]).stands_for(code, shape, k),
            decreases frames - i,
        {
            assert(i * (6 + 2 * each) + (6 + 2 * each) <= frames * (6 + 2 * each))
                by (nonlinear_arith)
                requires
                    i + 1 <= frames,
                    each >= 0,
            ;
            assert((i + 1) * (6 + 2 * each) == i * (6 + 2 * each) + (6 + 2 * each))
                by (nonlinear_arith);
            let ghost was = code;
            let (r, Ghost(b)): (Result<BlockBody, SilkError>, Ghost<BlockCode>) = self.read_block(
                rc,
                &header,
                i,
                stereo,
                subframes,
                Ghost(shape),
                Ghost(start),
                Ghost(code),
            );
            let body: BlockBody = match r {
                Ok(b) => b,
                Err(e) => {
                    return Err(e);
                },
            };
            bodies.push(body);
            proof {
                code = with_block(code, b);
                assert forall|k: int| 0 <= k < i + 1 implies (#[trigger] bodies@[k]).stands_for(
                    code,
                    shape,
                    k,
                ) by {
                    if k < i {
                        lemma_memory_prefix(was, b, shape, k);
                        assert(code.blocks[k] == was.blocks[k]);
                    }
                }
            }
            i = i + 1;
        }
        proof {
            lemma_no_copies(code, shape, frames * channels);
            let none = Seq::<Coded>::empty();
            let bl = code.blocks_log(shape, frames as int);
            assert(read_log(old(rc)) + head_log + bl =~= read_log(old(rc)) + (head_log + none
                + bl));
            assert(read_packet(old(rc), rc, shape, code));
            assert(self.after_packet(*old(self), shape, code));
        }
        let out: Result<Vec<BlockBody>, SilkError> = Ok(bodies);
        assert(decoded_packet(
            old(rc),
            rc,
            *old(self),
            *self,
            shape,
            code,
            out->Ok_0@,
        ));
        out
    }

    /// Reads a packet from its bytes, without the first byte, which says how the packet is laid
    /// out.
    pub fn decode_payload(
        &mut self,
        payload: &[u8],
        frame_samples_48k: usize,
        stereo: bool,
    ) -> (r: Result<Vec<BlockBody>, SilkError>)
        requires
            packet_layout(frame_samples_48k as int) matches Some((n, s)) ==> old(self).packet_shape(
                channel_count(stereo),
                n,
                s,
            ).symbols() <= MAX_SYMBOLS,
            old(self).state.lag_room(3),
            old(self).side_state.lag_room(3),
        ensures
            match packet_layout(frame_samples_48k as int) {
                Some((n, s)) => match r {
                    Ok(bodies) => exists|code: PacketCode|
                        #[trigger] decoded_bytes(
                            payload@,
                            *old(self),
                            *final(self),
                            old(self).packet_shape(channel_count(stereo), n, s),
                            code,
                            bodies@,
                        ),
                    Err(e) => e == SilkError::Unsupported && *final(self) == *old(self)
                        && exists|header: HeaderCode|
                        {
                            &&& #[trigger] carried_head(
                                payload@,
                                channel_count(stereo),
                                n,
                                header,
                            )
                            &&& !header.plain()
                        },
                },
                None => r == Err::<Vec<BlockBody>, SilkError>(SilkError::Unsupported)
                    && *final(self) == *old(self),
            },
            final(self).state.lag_near(old(self).state, 3),
            final(self).side_state.lag_near(old(self).side_state, 3),
            final(self).subframe_len == old(self).subframe_len,
    {
        let mut rc: RangeDecoder<'_> = RangeDecoder::new(payload);
        let ghost fresh = rc;
        let r: Result<Vec<BlockBody>, SilkError> = self.decode_frame_parameters(
            &mut rc,
            frame_samples_48k,
            stereo,
        );
        proof {
            if let Some((n, s)) = packet_layout(frame_samples_48k as int) {
                let shape = old(self).packet_shape(channel_count(stereo), n, s);
                let c = channel_count(stereo);
                if r is Ok {
                    let code = choose|code: PacketCode|
                        #[trigger] decoded_packet(
                            &fresh,
                            &rc,
                            *old(self),
                            *self,
                            shape,
                            code,
                            r->Ok_0@,
                        );
                    assert(read_log(&rc) =~= code.log(shape));
                    assert(decoded_bytes(payload@, *old(self), *self, shape, code, r->Ok_0@));
                } else {
                    let header = choose|header: HeaderCode|
                        #[trigger] read_head(&fresh, &rc, c, n, header) && !header.plain();
                    assert(read_log(&rc) =~= header.log(c, n));
                    assert(carried_head(payload@, c, n, header));
                }
            }
        }
        r
    }
}

} // verus!
