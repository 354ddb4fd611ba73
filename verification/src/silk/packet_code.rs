//! What a packet of one to three frames in one or two channels holds, and the symbols that carry
//! it.
use vstd::prelude::*;

use crate::range_coder::{flag, symbol, Coded};
use crate::silk::frame::shape_after;
use crate::silk::frame_code::{no_memory, ChannelMemory, FrameCode, FrameShape};
use crate::silk::frame_models::{mid_only_model, redundancy_model};
use crate::silk::stereo_weights::WeightCode;
use crate::toc::OpusBandwidth;

verus! {

/// The flags at the head of a packet: voice activity per channel and frame, and per channel the
/// set of frames that come with a redundant copy, as bits.
pub struct HeaderCode {
    pub active: Seq<Seq<bool>>,
    pub redundant: Seq<int>,
}

/// Bit `i` of a set of up to three.
pub open spec fn has_bit(bits: int, i: int) -> bool {
    if i == 0 {
        bits % 2 == 1
    } else if i == 1 {
        (bits / 2) % 2 == 1
    } else {
        (bits / 4) % 2 == 1
    }
}

/// The largest set of `frames` bits.
pub open spec fn all_bits(frames: int) -> int {
    if frames == 1 {
        1
    } else if frames == 2 {
        3
    } else {
        7
    }
}

/// One frame in all channels: the stereo weights and whether only the mid channel is coded, where
/// there are two channels, and the frames of the channels.
pub struct BlockCode {
    pub weights: WeightCode,
    pub only_mid: bool,
    pub mid: FrameCode,
    pub side: FrameCode,
}

/// Everything that is coded in a packet. Redundant copies are listed by frame, then channel, with
/// a place for those that are not there.
pub struct PacketCode {
    pub header: HeaderCode,
    pub copies: Seq<FrameCode>,
    pub blocks: Seq<BlockCode>,
}

/// How a packet is coded: its bandwidth, its numbers of channels, frames, subframes per frame and
/// samples per subframe, and what is remembered of the packets before.
pub struct PacketShape {
    pub bw: OpusBandwidth,
    pub channels: int,
    pub frames: int,
    pub subframes: int,
    pub subframe_len: int,
    pub mid: ChannelMemory,
    pub side: ChannelMemory,
    pub was_only_mid: bool,
}

impl HeaderCode {
    /// Every part has a symbol.
    pub open spec fn coded(self, channels: int, frames: int) -> bool {
        &&& self.active.len() == channels
        &&& self.redundant.len() == channels
        &&& forall|n: int|
            0 <= n < channels ==> (#[trigger] self.active[n]).len() == frames
        &&& forall|n: int|
            0 <= n < channels ==> 0 <= #[trigger] self.redundant[n] <= all_bits(frames)
    }

    /// No frame comes with a redundant copy.
    pub open spec fn plain(self) -> bool {
        forall|n: int| 0 <= n < self.redundant.len() ==> #[trigger] self.redundant[n] == 0
    }

    /// The flags of channel `n`.
    pub open spec fn channel_flags(self, n: int) -> Seq<Coded> {
        Seq::new(self.active[n].len(), |i: int| flag(self.active[n][i])).push(
            flag(self.redundant[n] != 0),
        )
    }

    /// The flags of the first `n` channels.
    pub open spec fn flags_log(self, n: int) -> Seq<Coded>
        decreases n,
    {
        if n <= 0 {
            Seq::empty()
        } else {
            self.flags_log(n - 1) + self.channel_flags(n - 1)
        }
    }

    /// The sets of redundant copies of the first `n` channels. A packet of one frame has no choice.
    pub open spec fn sets_log(self, frames: int, n: int) -> Seq<Coded>
        decreases n,
    {
        if n <= 0 {
            Seq::empty()
        } else if frames > 1 && self.redundant[n - 1] != 0 {
            self.sets_log(frames, n - 1) + seq![
                symbol(redundancy_model(frames), self.redundant[n - 1] - 1),
            ]
        } else {
            self.sets_log(frames, n - 1)
        }
    }

    /// All symbols of the head of a packet.
    pub open spec fn log(self, channels: int, frames: int) -> Seq<Coded> {
        self.flags_log(channels) + self.sets_log(frames, channels)
    }
}

impl PacketShape {
    /// The shape of a frame in a channel that remembers `was`.
    pub open spec fn frame(self, active: bool, was: ChannelMemory) -> FrameShape {
        shape_after(was, active, self.bw, self.subframes, self.subframe_len)
    }

    /// Bound on the number of symbols of a frame.
    pub open spec fn frame_symbols(self) -> int {
        self.frame(false, no_memory()).symbols()
    }

    /// Bound on the number of symbols of a packet without redundant copies, in up to three frames.
    pub open spec fn symbols(self) -> int {
        28 + 6 * self.frame_symbols()
    }
}

impl PacketCode {
    /// Whether channel `n` has a redundant copy of frame `i`.
    pub open spec fn has_copy(self, n: int, i: int) -> bool {
        has_bit(self.header.redundant[n], i)
    }

    /// What channel `n` remembers of the redundant copies before frame `i`.
    pub open spec fn copy_memory(self, shape: PacketShape, n: int, i: int) -> ChannelMemory
        decreases i,
    {
        if i <= 0 {
            no_memory()
        } else {
            let was = self.copy_memory(shape, n, i - 1);
            if self.has_copy(n, i - 1) {
                self.copies[(i - 1) * shape.channels + n].remembered(
                    shape.frame(true, was),
                    was,
                )
            } else {
                was
            }
        }
    }

    /// The shape of the redundant copy of frame `i` in channel `n`. Copies are always active.
    pub open spec fn copy_shape(self, shape: PacketShape, n: int, i: int) -> FrameShape {
        shape.frame(true, self.copy_memory(shape, n, i))
    }

    /// The symbols of the first `k` places for redundant copies.
    pub open spec fn copies_log(self, shape: PacketShape, k: int) -> Seq<Coded>
        decreases k,
    {
        if k <= 0 {
            Seq::empty()
        } else {
            let n = (k - 1) % shape.channels;
            let i = (k - 1) / shape.channels;
            if self.has_copy(n, i) {
                self.copies_log(shape, k - 1) + self.copies[k - 1].log(
                    self.copy_shape(shape, n, i),
                )
            } else {
                self.copies_log(shape, k - 1)
            }
        }
    }

    /// The first `k` places for redundant copies hold frames that have symbols.
    pub open spec fn copies_coded(self, shape: PacketShape, k: int) -> bool {
        forall|j: int|
            0 <= j < k && self.has_copy(j % shape.channels, j / shape.channels) ==> (
            #[trigger] self.copies[j]).coded(
                self.copy_shape(shape, j % shape.channels, j / shape.channels),
            )
    }

    /// Whether the side channel is coded in block `i`.
    pub open spec fn has_side(self, shape: PacketShape, i: int) -> bool {
        shape.channels == 2 && !self.blocks[i].only_mid
    }

    /// Whether only the mid channel was coded before block `i`.
    pub open spec fn only_mid_before(self, shape: PacketShape, i: int) -> bool {
        if i <= 0 {
            shape.was_only_mid
        } else {
            self.blocks[i - 1].only_mid
        }
    }

    /// Whether the side channel starts anew in block `i`: it is coded and was not before.
    pub open spec fn side_restarts(self, shape: PacketShape, i: int) -> bool {
        self.has_side(shape, i) && self.only_mid_before(shape, i)
    }

    /// What the mid channel remembers before block `i`.
    pub open spec fn mid_memory(self, shape: PacketShape, i: int) -> ChannelMemory
        decreases i,
    {
        if i <= 0 {
            shape.mid
        } else {
            let was = self.mid_memory(shape, i - 1);
            self.blocks[i - 1].mid.remembered(
                shape.frame(self.header.active[0][i - 1], was),
                was,
            )
        }
    }

    /// What the side channel remembers before block `i`.
    pub open spec fn side_memory(self, shape: PacketShape, i: int) -> ChannelMemory
        decreases i,
    {
        if i <= 0 {
            shape.side
        } else if self.has_side(shape, i - 1) {
            let was = if self.side_restarts(shape, i - 1) {
                no_memory()
            } else {
                self.side_memory(shape, i - 1)
            };
            self.blocks[i - 1].side.remembered(
                shape.frame(self.header.active[1][i - 1], was),
                was,
            )
        } else {
            self.side_memory(shape, i - 1)
        }
    }

    /// What the side channel goes by in block `i`.
    pub open spec fn side_start(self, shape: PacketShape, i: int) -> ChannelMemory {
        if self.side_restarts(shape, i) {
            no_memory()
        } else {
            self.side_memory(shape, i)
        }
    }

    /// The shape of the mid channel's frame in block `i`.
    pub open spec fn mid_shape(self, shape: PacketShape, i: int) -> FrameShape {
        shape.frame(self.header.active[0][i], self.mid_memory(shape, i))
    }

    /// The shape of the side channel's frame in block `i`.
    pub open spec fn side_shape(self, shape: PacketShape, i: int) -> FrameShape {
        shape.frame(self.header.active[1][i], self.side_start(shape, i))
    }

    /// The symbols of the stereo parameters of block `i`. Whether only the mid channel is coded is
    /// said only where the side channel is inactive.
    pub open spec fn stereo_log(self, shape: PacketShape, i: int) -> Seq<Coded> {
        if shape.channels == 2 {
            self.blocks[i].weights.log() + (if self.header.active[1][i] {
                Seq::empty()
            } else {
                seq![symbol(mid_only_model(), if self.blocks[i].only_mid { 1 } else { 0 })]
            })
        } else {
            Seq::empty()
        }
    }

    /// The symbols of block `i`.
    pub open spec fn block_log(self, shape: PacketShape, i: int) -> Seq<Coded> {
        self.stereo_log(shape, i) + self.blocks[i].mid.log(self.mid_shape(shape, i)) + (
        if self.has_side(shape, i) {
            self.blocks[i].side.log(self.side_shape(shape, i))
        } else {
            Seq::empty()
        })
    }

    /// The symbols of the first `k` blocks.
    pub open spec fn blocks_log(self, shape: PacketShape, k: int) -> Seq<Coded>
        decreases k,
    {
        if k <= 0 {
            Seq::empty()
        } else {
            self.blocks_log(shape, k - 1) + self.block_log(shape, k - 1)
        }
    }

    /// Every part of block `i` has a symbol.
    pub open spec fn block_coded(self, shape: PacketShape, i: int) -> bool {
        let b = self.blocks[i];
        &&& shape.channels == 2 ==> b.weights.coded()
        &&& b.only_mid ==> shape.channels == 2 && !self.header.active[1][i]
        &&& b.mid.coded(self.mid_shape(shape, i))
        &&& self.has_side(shape, i) ==> b.side.coded(self.side_shape(shape, i))
    }

    /// Every part of the packet has a symbol.
    pub open spec fn coded(self, shape: PacketShape) -> bool {
        &&& self.header.coded(shape.channels, shape.frames)
        &&& self.copies.len() == shape.frames * shape.channels
        &&& self.copies_coded(shape, shape.frames * shape.channels)
        &&& self.blocks.len() == shape.frames
        &&& forall|i: int| 0 <= i < shape.frames ==> #[trigger] self.block_coded(shape, i)
    }

    /// All symbols of the packet: its head, the redundant copies, the blocks.
    pub open spec fn log(self, shape: PacketShape) -> Seq<Coded> {
        self.header.log(shape.channels, shape.frames) + self.copies_log(
            shape,
            shape.frames * shape.channels,
        ) + self.blocks_log(shape, shape.frames)
    }
}

} // verus!
