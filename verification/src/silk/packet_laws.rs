//! What holds of coded packets as a whole: what is written is what is read.
use vstd::prelude::*;

use crate::range_coder::{carries, flag, symbol, Coded};
use crate::silk::decoder::carried_head;
use crate::silk::frame_code::{ChannelMemory, FrameCode, FrameShape};
use crate::silk::frame_laws::{law_frame_reads_back, lemma_next_flag, same_frame};
use crate::silk::frame_models::{mid_only_model, redundancy_model};
use crate::silk::packet_code::{BlockCode, HeaderCode, PacketCode, PacketShape};
use crate::silk::shell_laws::lemma_next_symbol;
use crate::silk::stereo_weights::{law_weights_read_back, WeightCode};

verus! {

spec fn flag_row(bits: Seq<bool>) -> Seq<Coded> {
    Seq::new(bits.len(), |i: int| flag(bits[i]))
}

proof fn lemma_flag_row_unique(
    bytes: Seq<u8>,
    past: Seq<Coded>,
    a: Seq<bool>,
    ta: Seq<Coded>,
    b: Seq<bool>,
    tb: Seq<Coded>,
)
    requires
        a.len() == b.len(),
        carries(bytes, past + flag_row(a) + ta),
        carries(bytes, past + flag_row(b) + tb),
    ensures
        a == b,
    decreases a.len(),
{
    if a.len() > 0 {
        let (ha, hb) = (flag_row(a.drop_last()), flag_row(b.drop_last()));
        let (sa, sb) = (seq![flag(a.last())], seq![flag(b.last())]);
        assert(flag_row(a) =~= ha + sa);
        assert(flag_row(b) =~= hb + sb);
        assert(past + flag_row(a) + ta =~= past + ha + (sa + ta));
        assert(past + flag_row(b) + tb =~= past + hb + (sb + tb));
        lemma_flag_row_unique(bytes, past, a.drop_last(), sa + ta, b.drop_last(), sb + tb);
        assert(past + flag_row(a) + ta =~= (past + ha) + sa + ta);
        assert(past + flag_row(b) + tb =~= (past + ha) + sb + tb);
        lemma_next_flag(bytes, past + ha, a.last(), ta, b.last(), tb);
        assert(a =~= a.drop_last().push(a.last()));
        assert(b =~= b.drop_last().push(b.last()));
    } else {
        assert(a =~= b);
    }
}

proof fn lemma_flags_unique(
    bytes: Seq<u8>,
    past: Seq<Coded>,
    channels: int,
    frames: int,
    n: int,
    a: HeaderCode,
    ta: Seq<Coded>,
    b: HeaderCode,
    tb: Seq<Coded>,
)
    requires
        a.coded(channels, frames),
        b.coded(channels, frames),
        0 <= n <= channels,
        carries(bytes, past + a.flags_log(n) + ta),
        carries(bytes, past + b.flags_log(n) + tb),
    ensures
        forall|k: int|
            0 <= k < n ==> #[trigger] a.active[k] == b.active[k] && (a.redundant[k] != 0) == (
            b.redundant[k] != 0),
        a.flags_log(n) == b.flags_log(n),
    decreases n,
{
    if n > 0 {
        let (ca, cb) = (a.channel_flags(n - 1), b.channel_flags(n - 1));
        let (ha, hb) = (a.flags_log(n - 1), b.flags_log(n - 1));
        assert(past + a.flags_log(n) + ta =~= past + ha + (ca + ta));
        assert(past + b.flags_log(n) + tb =~= past + hb + (cb + tb));
        lemma_flags_unique(bytes, past, channels, frames, n - 1, a, ca + ta, b, cb + tb);
        let ra = a.active[n - 1].push(a.redundant[n - 1] != 0);
        let rb = b.active[n - 1].push(b.redundant[n - 1] != 0);
        assert(ca =~= flag_row(ra));
        assert(cb =~= flag_row(rb));
        assert(past + a.flags_log(n) + ta =~= (past + ha) + flag_row(ra) + ta);
        assert(past + b.flags_log(n) + tb =~= (past + ha) + flag_row(rb) + tb);
        assert(a.active[n - 1].len() == frames && b.active[n - 1].len() == frames);
        lemma_flag_row_unique(bytes, past + ha, ra, ta, rb, tb);
        assert(a.active[n - 1] =~= ra.drop_last());
        assert(b.active[n - 1] =~= rb.drop_last());
        assert(a.active[n - 1] == b.active[n - 1]);
        assert(ra.last() == (a.redundant[n - 1] != 0));
        assert(rb.last() == (b.redundant[n - 1] != 0));
        assert forall|k: int| 0 <= k < n implies #[trigger] a.active[k] == b.active[k] && (
        a.redundant[k] != 0) == (b.redundant[k] != 0) by {
            if k < n - 1 {
                assert(a.active[k] == b.active[k]);
            }
        }
    }
}

proof fn lemma_sets_unique(
    bytes: Seq<u8>,
    past: Seq<Coded>,
    channels: int,
    frames: int,
    n: int,
    a: HeaderCode,
    ta: Seq<Coded>,
    b: HeaderCode,
    tb: Seq<Coded>,
)
    requires
        a.coded(channels, frames),
        b.coded(channels, frames),
        1 <= frames <= 3,
        0 <= n <= channels,
        forall|k: int|
            0 <= k < channels ==> (#[trigger] a.redundant[k] != 0) == (b.redundant[k] != 0),
        carries(bytes, past + a.sets_log(frames, n) + ta),
        carries(bytes, past + b.sets_log(frames, n) + tb),
    ensures
        forall|k: int| 0 <= k < n ==> #[trigger] a.redundant[k] == b.redundant[k],
        a.sets_log(frames, n) == b.sets_log(frames, n),
    decreases n,
{
    if n > 0 {
        let (ha, hb) = (a.sets_log(frames, n - 1), b.sets_log(frames, n - 1));
        let model = redundancy_model(frames);
        let (xa, xb) = (a.redundant[n - 1], b.redundant[n - 1]);
        if frames > 1 && xa != 0 {
            let (sa, sb) = (seq![symbol(model, xa - 1)], seq![symbol(model, xb - 1)]);
            assert(past + a.sets_log(frames, n) + ta =~= past + ha + (sa + ta));
            assert(past + b.sets_log(frames, n) + tb =~= past + hb + (sb + tb));
            lemma_sets_unique(bytes, past, channels, frames, n - 1, a, sa + ta, b, sb + tb);
            assert(past + a.sets_log(frames, n) + ta =~= (past + ha) + sa + ta);
            assert(past + b.sets_log(frames, n) + tb =~= (past + ha) + sb + tb);
            lemma_next_symbol(bytes, past + ha, model, xa - 1, ta, xb - 1, tb);
        } else {
            lemma_sets_unique(bytes, past, channels, frames, n - 1, a, ta, b, tb);
        }
    }
}

/// The flags at the head of a packet are read back.
pub proof fn law_header_reads_back(
    bytes: Seq<u8>,
    past: Seq<Coded>,
    channels: int,
    frames: int,
    a: HeaderCode,
    ta: Seq<Coded>,
    b: HeaderCode,
    tb: Seq<Coded>,
)
    requires
        1 <= frames <= 3,
        0 <= channels,
        a.coded(channels, frames),
        b.coded(channels, frames),
        carries(bytes, past + a.log(channels, frames) + ta),
        carries(bytes, past + b.log(channels, frames) + tb),
    ensures
        a.active == b.active,
        a.redundant == b.redundant,
{
    let (fa, fb) = (a.flags_log(channels), b.flags_log(channels));
    let (sa, sb) = (a.sets_log(frames, channels), b.sets_log(frames, channels));
    assert(past + a.log(channels, frames) + ta =~= past + fa + (sa + ta));
    assert(past + b.log(channels, frames) + tb =~= past + fb + (sb + tb));
    lemma_flags_unique(bytes, past, channels, frames, channels, a, sa + ta, b, sb + tb);
    assert(a.active =~= b.active);
    assert forall|k: int| 0 <= k < channels implies (#[trigger] a.redundant[k] != 0) == (
    b.redundant[k] != 0) by {
        assert(a.active[k] == b.active[k]);
    }
    assert(past + a.log(channels, frames) + ta =~= (past + fa) + sa + ta);
    assert(past + b.log(channels, frames) + tb =~= (past + fa) + sb + tb);
    lemma_sets_unique(bytes, past + fa, channels, frames, channels, a, ta, b, tb);
    assert(a.redundant =~= b.redundant);
}

/// The same frame leaves the same memory and has the same symbols.
proof fn lemma_same_frame(a: FrameCode, b: FrameCode, shape: FrameShape, was: ChannelMemory)
    requires
        same_frame(a, b),
    ensures
        a.remembered(shape, was) == b.remembered(shape, was),
        a.log(shape) == b.log(shape),
{
    reveal(FrameCode::log);
}

/// The first `k` redundant copies agree.
spec fn copies_agree(a: PacketCode, b: PacketCode, shape: PacketShape, k: int) -> bool {
    forall|j: int|
        0 <= j < k && a.has_copy(j % shape.channels, j / shape.channels) ==> same_frame(
            #[trigger] a.copies[j],
            b.copies[j],
        )
}

proof fn lemma_copy_memory_agrees(
    a: PacketCode,
    b: PacketCode,
    shape: PacketShape,
    n: int,
    i: int,
    k: int,
)
    requires
        a.header == b.header,
        shape.channels == 1 || shape.channels == 2,
        0 <= n < shape.channels,
        copies_agree(a, b, shape, k),
        i * shape.channels + n < k + shape.channels,
    ensures
        a.copy_memory(shape, n, i) == b.copy_memory(shape, n, i),
    decreases i,
{
    if i > 0 {
        let c = shape.channels;
        let j = (i - 1) * c + n;
        assert(j == i * c + n - c && j % c == n && j / c == i - 1 && j >= 0) by (nonlinear_arith)
            requires
                j == (i - 1) * c + n,
                0 <= n < c,
                c == 1 || c == 2,
                i >= 1,
        ;
        lemma_copy_memory_agrees(a, b, shape, n, i - 1, k);
        if a.has_copy(n, i - 1) {
            assert(same_frame(a.copies[j], b.copies[j]));
            let was = a.copy_memory(shape, n, i - 1);
            lemma_same_frame(
                a.copies[j],
                b.copies[j],
                shape.frame(a.header.active[n][i - 1], was),
                was,
            );
        }
    }
}

proof fn lemma_cut_two(past: Seq<Coded>, h: Seq<Coded>, l: Seq<Coded>, t: Seq<Coded>)
    ensures
        past + (h + l) + t == past + h + (l + t),
        past + (h + l) + t == (past + h) + l + t,
{
    assert(past + (h + l) + t =~= past + h + (l + t));
    assert(past + (h + l) + t =~= (past + h) + l + t);
}

proof fn lemma_copies_unique(
    bytes: Seq<u8>,
    past: Seq<Coded>,
    shape: PacketShape,
    k: int,
    a: PacketCode,
    ta: Seq<Coded>,
    b: PacketCode,
    tb: Seq<Coded>,
)
    requires
        a.header == b.header,
        shape.channels == 1 || shape.channels == 2,
        0 <= k,
        a.copies_coded(shape, k),
        b.copies_coded(shape, k),
        carries(bytes, past + a.copies_log(shape, k) + ta),
        carries(bytes, past + b.copies_log(shape, k) + tb),
    ensures
        copies_agree(a, b, shape, k),
        a.copies_log(shape, k) == b.copies_log(shape, k),
    decreases k,
{
    if k > 0 {
        let c = shape.channels;
        let n = (k - 1) % c;
        let i = (k - 1) / c;
        assert(i * c + n == k - 1 && 0 <= n < c) by (nonlinear_arith)
            requires
                n == (k - 1) % c,
                i == (k - 1) / c,
                c == 1 || c == 2,
        ;
        let (ha, hb) = (a.copies_log(shape, k - 1), b.copies_log(shape, k - 1));
        if a.has_copy(n, i) {
            let (fa, fb) = (a.copies[k - 1], b.copies[k - 1]);
            let la = fa.log(a.copy_shape(shape, n, i));
            let lb = fb.log(b.copy_shape(shape, n, i));
            lemma_cut_two(past, ha, la, ta);
            lemma_cut_two(past, hb, lb, tb);
            lemma_copies_unique(bytes, past, shape, k - 1, a, la + ta, b, lb + tb);
            lemma_copy_memory_agrees(a, b, shape, n, i, k - 1);
            law_frame_reads_back(
                bytes,
                past + ha,
                a.copy_shape(shape, n, i),
                fa,
                ta,
                fb,
                tb,
            );
            lemma_same_frame(fa, fb, a.copy_shape(shape, n, i), a.copy_memory(shape, n, i));
        } else {
            lemma_copies_unique(bytes, past, shape, k - 1, a, ta, b, tb);
        }
    }
}

/// The two blocks hold the same frames.
pub open spec fn same_block(a: BlockCode, b: BlockCode, channels: int) -> bool {
    &&& a.only_mid == b.only_mid
    &&& same_frame(a.mid, b.mid)
    &&& channels == 2 ==> a.weights == b.weights
    &&& channels == 2 && !a.only_mid ==> same_frame(a.side, b.side)
}

/// The first `k` blocks agree.
spec fn blocks_agree(a: PacketCode, b: PacketCode, shape: PacketShape, k: int) -> bool {
    forall|i: int|
        0 <= i < k ==> same_block(#[trigger] a.blocks[i], b.blocks[i], shape.channels)
}

proof fn lemma_memory_agrees(a: PacketCode, b: PacketCode, shape: PacketShape, i: int)
    requires
        a.header == b.header,
        blocks_agree(a, b, shape, i),
    ensures
        a.mid_memory(shape, i) == b.mid_memory(shape, i),
        a.side_memory(shape, i) == b.side_memory(shape, i),
        a.only_mid_before(shape, i) == b.only_mid_before(shape, i),
    decreases i,
{
    if i > 0 {
        assert(blocks_agree(a, b, shape, i - 1));
        lemma_memory_agrees(a, b, shape, i - 1);
        assert(same_block(a.blocks[i - 1], b.blocks[i - 1], shape.channels));
        let m = a.mid_memory(shape, i - 1);
        lemma_same_frame(a.blocks[i - 1].mid, b.blocks[i - 1].mid, a.mid_shape(shape, i - 1), m);
        if a.has_side(shape, i - 1) {
            let s = a.side_start(shape, i - 1);
            lemma_same_frame(
                a.blocks[i - 1].side,
                b.blocks[i - 1].side,
                a.side_shape(shape, i - 1),
                s,
            );
        }
    }
}

/// The stereo parameters of a block are read back.
proof fn lemma_stereo_unique(
    bytes: Seq<u8>,
    past: Seq<Coded>,
    active: bool,
    wa: WeightCode,
    oa: bool,
    ta: Seq<Coded>,
    wb: WeightCode,
    ob: bool,
    tb: Seq<Coded>,
    xa: Seq<Coded>,
    xb: Seq<Coded>,
)
    requires
        wa.coded(),
        wb.coded(),
        oa ==> !active,
        ob ==> !active,
        xa == (if active {
            Seq::<Coded>::empty()
        } else {
            seq![symbol(mid_only_model(), if oa { 1 } else { 0 })]
        }),
        xb == (if active {
            Seq::<Coded>::empty()
        } else {
            seq![symbol(mid_only_model(), if ob { 1 } else { 0 })]
        }),
        carries(bytes, past + (wa.log() + xa) + ta),
        carries(bytes, past + (wb.log() + xb) + tb),
    ensures
        wa == wb,
        oa == ob,
{
    let (la, lb) = (past + (wa.log() + xa) + ta, past + (wb.log() + xb) + tb);
    assert(la =~= past + wa.log() + (xa + ta));
    assert(lb =~= past + wb.log() + (xb + tb));
    law_weights_read_back(bytes, past, wa, xa + ta, wb, xb + tb);
    if !active {
        assert(la =~= (past + wa.log()) + xa + ta);
        assert(lb =~= (past + wa.log()) + xb + tb);
        lemma_next_symbol(
            bytes,
            past + wa.log(),
            mid_only_model(),
            if oa {
                1
            } else {
                0
            },
            ta,
            if ob {
                1
            } else {
                0
            },
            tb,
        );
    }
}

spec fn side_log(a: PacketCode, shape: PacketShape, i: int) -> Seq<Coded> {
    if a.has_side(shape, i) {
        a.blocks[i].side.log(a.side_shape(shape, i))
    } else {
        Seq::empty()
    }
}

proof fn lemma_block_cut(
    past: Seq<Coded>,
    s: Seq<Coded>,
    m: Seq<Coded>,
    d: Seq<Coded>,
    t: Seq<Coded>,
)
    ensures
        past + (s + m + d) + t == past + s + (m + (d + t)),
        past + (s + m + d) + t == (past + s) + m + (d + t),
        past + (s + m + d) + t == (past + s + m) + d + t,
{
    assert(past + (s + m + d) + t =~= past + s + (m + (d + t)));
    assert(past + (s + m + d) + t =~= (past + s) + m + (d + t));
    assert(past + (s + m + d) + t =~= (past + s + m) + d + t);
}

proof fn lemma_block_unique(
    bytes: Seq<u8>,
    past: Seq<Coded>,
    shape: PacketShape,
    i: int,
    a: PacketCode,
    ta: Seq<Coded>,
    b: PacketCode,
    tb: Seq<Coded>,
)
    requires
        a.header == b.header,
        shape.channels == 1 || shape.channels == 2,
        0 <= i,
        a.block_coded(shape, i),
        b.block_coded(shape, i),
        blocks_agree(a, b, shape, i),
        carries(bytes, past + a.block_log(shape, i) + ta),
        carries(bytes, past + b.block_log(shape, i) + tb),
    ensures
        same_block(a.blocks[i], b.blocks[i], shape.channels),
        a.block_log(shape, i) == b.block_log(shape, i),
{
    lemma_memory_agrees(a, b, shape, i);
    let (xa, xb) = (a.blocks[i], b.blocks[i]);
    let (sa, sb) = (a.stereo_log(shape, i), b.stereo_log(shape, i));
    let (ma, mb) = (xa.mid.log(a.mid_shape(shape, i)), xb.mid.log(b.mid_shape(shape, i)));
    let (da, db) = (side_log(a, shape, i), side_log(b, shape, i));
    lemma_block_cut(past, sa, ma, da, ta);
    lemma_block_cut(past, sb, mb, db, tb);
    if shape.channels == 2 {
        let active = a.header.active[1][i];
        let oa = if active {
            Seq::<Coded>::empty()
        } else {
            seq![symbol(mid_only_model(), if xa.only_mid { 1 } else { 0 })]
        };
        let ob = if active {
            Seq::<Coded>::empty()
        } else {
            seq![symbol(mid_only_model(), if xb.only_mid { 1 } else { 0 })]
        };
        lemma_stereo_unique(
            bytes,
            past,
            active,
            xa.weights,
            xa.only_mid,
            ma + (da + ta),
            xb.weights,
            xb.only_mid,
            mb + (db + tb),
            oa,
            ob,
        );
    }
    assert(xa.only_mid == xb.only_mid);
    assert(sa == sb);
    law_frame_reads_back(
        bytes,
        past + sa,
        a.mid_shape(shape, i),
        xa.mid,
        da + ta,
        xb.mid,
        db + tb,
    );
    lemma_same_frame(xa.mid, xb.mid, a.mid_shape(shape, i), a.mid_memory(shape, i));
    if a.has_side(shape, i) {
        assert(a.side_start(shape, i) == b.side_start(shape, i));
        law_frame_reads_back(
            bytes,
            past + sa + ma,
            a.side_shape(shape, i),
            xa.side,
            ta,
            xb.side,
            tb,
        );
        lemma_same_frame(xa.side, xb.side, a.side_shape(shape, i), a.side_start(shape, i));
    }
}

proof fn lemma_blocks_unique(
    bytes: Seq<u8>,
    past: Seq<Coded>,
    shape: PacketShape,
    k: int,
    a: PacketCode,
    ta: Seq<Coded>,
    b: PacketCode,
    tb: Seq<Coded>,
)
    requires
        a.header == b.header,
        shape.channels == 1 || shape.channels == 2,
        0 <= k,
        forall|i: int| 0 <= i < k ==> #[trigger] a.block_coded(shape, i),
        forall|i: int| 0 <= i < k ==> #[trigger] b.block_coded(shape, i),
        carries(bytes, past + a.blocks_log(shape, k) + ta),
        carries(bytes, past + b.blocks_log(shape, k) + tb),
    ensures
        blocks_agree(a, b, shape, k),
        a.blocks_log(shape, k) == b.blocks_log(shape, k),
    decreases k,
{
    if k > 0 {
        let (ha, hb) = (a.blocks_log(shape, k - 1), b.blocks_log(shape, k - 1));
        let (la, lb) = (a.block_log(shape, k - 1), b.block_log(shape, k - 1));
        assert(past + (ha + la) + ta =~= past + ha + (la + ta));
        assert(past + (hb + lb) + tb =~= past + hb + (lb + tb));
        lemma_blocks_unique(bytes, past, shape, k - 1, a, la + ta, b, lb + tb);
        assert(past + (ha + la) + ta =~= (past + ha) + la + ta);
        assert(past + (hb + lb) + tb =~= (past + ha) + lb + tb);
        assert(a.block_coded(shape, k - 1) && b.block_coded(shape, k - 1));
        lemma_block_unique(bytes, past + ha, shape, k - 1, a, ta, b, tb);
    }
}

/// The two codes hold the same packet.
pub open spec fn same_packet(a: PacketCode, b: PacketCode, shape: PacketShape) -> bool {
    &&& a.header == b.header
    &&& forall|i: int, n: int|
        0 <= i < shape.frames && 0 <= n < shape.channels && #[trigger] a.has_copy(n, i)
            ==> same_frame(a.copies[i * shape.channels + n], b.copies[i * shape.channels + n])
    &&& forall|i: int|
        0 <= i < shape.frames ==> same_block(#[trigger] a.blocks[i], b.blocks[i], shape.channels)
}

/// What is written as a packet is read back: where the same bytes carry, after the same symbols,
/// two packets of the same shape, the two are one and the same.
pub proof fn law_packet_reads_back(
    bytes: Seq<u8>,
    past: Seq<Coded>,
    shape: PacketShape,
    a: PacketCode,
    ta: Seq<Coded>,
    b: PacketCode,
    tb: Seq<Coded>,
)
    requires
        1 <= shape.frames <= 3,
        shape.channels == 1 || shape.channels == 2,
        a.coded(shape),
        b.coded(shape),
        carries(bytes, past + a.log(shape) + ta),
        carries(bytes, past + b.log(shape) + tb),
    ensures
        same_packet(a, b, shape),
{
    let c = shape.channels;
    let k = shape.frames * c;
    assert(k >= 0) by (nonlinear_arith)
        requires
            k == shape.frames * c,
            shape.frames >= 1,
            c >= 1,
    ;
    let (ha, hb) = (a.header.log(c, shape.frames), b.header.log(c, shape.frames));
    let (ca, cb) = (a.copies_log(shape, k), b.copies_log(shape, k));
    let (ba, bb) = (a.blocks_log(shape, shape.frames), b.blocks_log(shape, shape.frames));
    lemma_block_cut(past, ha, ca, ba, ta);
    lemma_block_cut(past, hb, cb, bb, tb);
    law_header_reads_back(
        bytes,
        past,
        c,
        shape.frames,
        a.header,
        ca + (ba + ta),
        b.header,
        cb + (bb + tb),
    );
    assert(a.header == b.header);
    lemma_copies_unique(bytes, past + ha, shape, k, a, ba + ta, b, bb + tb);
    lemma_blocks_unique(bytes, past + ha + ca, shape, shape.frames, a, ta, b, tb);
    assert forall|i: int, n: int|
        0 <= i < shape.frames && 0 <= n < c && #[trigger] a.has_copy(n, i) implies same_frame(
        a.copies[i * c + n],
        b.copies[i * c + n],
    ) by {
        let j = i * c + n;
        assert(j % c == n && j / c == i && 0 <= j < k) by (nonlinear_arith)
            requires
                j == i * c + n,
                k == shape.frames * c,
                0 <= n < c,
                c == 1 || c == 2,
                0 <= i < shape.frames,
        ;
    }
}

/// The packet round trip: of bytes that begin with a packet `sent`, a reader reads `sent`.
pub proof fn law_packet_round_trip(
    bytes: Seq<u8>,
    shape: PacketShape,
    sent: PacketCode,
    tail: Seq<Coded>,
    got: PacketCode,
)
    requires
        1 <= shape.frames <= 3,
        shape.channels == 1 || shape.channels == 2,
        sent.coded(shape),
        got.coded(shape),
        carries(bytes, sent.log(shape) + tail),
        carries(bytes, got.log(shape)),
    ensures
        same_packet(sent, got, shape),
{
    let none = Seq::<Coded>::empty();
    assert(none + sent.log(shape) + tail =~= sent.log(shape) + tail);
    assert(none + got.log(shape) + none =~= got.log(shape));
    law_packet_reads_back(bytes, none, shape, sent, tail, got, none);
}

/// Whether a packet is refused for its redundant copies is settled by what was sent: of bytes that
/// begin with a packet `sent`, the head that is read announces copies if that of `sent` does.
pub proof fn law_refusal_is_settled(
    bytes: Seq<u8>,
    shape: PacketShape,
    sent: PacketCode,
    tail: Seq<Coded>,
    read: HeaderCode,
)
    requires
        1 <= shape.frames <= 3,
        shape.channels == 1 || shape.channels == 2,
        sent.coded(shape),
        carries(bytes, sent.log(shape) + tail),
        carried_head(bytes, shape.channels, shape.frames, read),
    ensures
        read == sent.header,
        read.plain() == sent.header.plain(),
{
    let none = Seq::<Coded>::empty();
    let head = sent.header.log(shape.channels, shape.frames);
    let copies = sent.copies_log(shape, shape.frames * shape.channels);
    let blocks = sent.blocks_log(shape, shape.frames);
    assert(head + copies + blocks + tail =~= none + head + (copies + blocks + tail));
    assert(none + read.log(shape.channels, shape.frames) + none =~= read.log(
        shape.channels,
        shape.frames,
    ));
    law_header_reads_back(
        bytes,
        none,
        shape.channels,
        shape.frames,
        sent.header,
        copies + blocks + tail,
        read,
        none,
    );
}

} // verus!
