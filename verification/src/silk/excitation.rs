//! The excitation of a frame whose length need not be a whole number of shell blocks.
use oxideav_celt::range_decoder::RangeDecoder;
use vstd::prelude::*;

use crate::error::SilkError;
use crate::range_coder::{can_read, read_log};
use crate::silk::dither::{quant_offset, reconstructed};
use crate::silk::shell;
use crate::silk::shell::{
    excitation_log, read_excitation, signed_ints, ShellFrame, BLOCK_SYMBOLS,
};

verus! {

/// Uniform model over the sixteen values of a nibble.
pub const MAG_NIBBLE_ICDF: [u8; 16] = [
    240, 224, 208, 192, 176, 160, 144, 128, 112, 96, 80, 64, 48, 32, 16, 0,
];

/// The number of shell blocks that hold `frame_len` samples.
pub open spec fn blocks_for(frame_len: int) -> int {
    (frame_len + 15) / 16
}

/// Between `before` and `after` the excitation of a frame of `frame_len` samples was read, whose
/// reconstruction from `seed` is `out`. Samples that pad the last block are dropped.
pub open spec fn read_frame_excitation(
    before: &RangeDecoder<'_>,
    after: &RangeDecoder<'_>,
    signal_type: int,
    quant_offset_type: int,
    seed: u32,
    frame_len: int,
    rate: int,
    x: ShellFrame,
    v: Seq<i32>,
    out: Seq<int>,
) -> bool {
    &&& read_excitation(
        before,
        after,
        signal_type,
        quant_offset_type,
        rate,
        x,
        signed_ints(v),
    )
    &&& v.len() == 16 * blocks_for(frame_len)
    &&& out == reconstructed(v, quant_offset(signal_type, quant_offset_type), seed).take(frame_len)
}

/// Reads the excitation of a frame of `frame_len` samples, in Q23.
pub fn decode_excitation(
    rc: &mut RangeDecoder<'_>,
    frame_len: usize,
    _subframe_len: usize,
    signal_type: u8,
    quant_offset_type: u8,
    seed: u32,
) -> (r: Result<Vec<i32>, SilkError>)
    requires
        can_read(old(rc), 1 + BLOCK_SYMBOLS * blocks_for(frame_len as int)),
    ensures
        r is Ok,
        r->Ok_0@.len() == frame_len,
        exists|rate: int, x: ShellFrame, v: Seq<i32>|
            #[trigger] read_frame_excitation(
                old(rc),
                final(rc),
                signal_type as int,
                quant_offset_type as int,
                seed,
                frame_len as int,
                rate,
                x,
                v,
                signed_ints(r->Ok_0@),
            ),
        read_log(final(rc)).len() <= read_log(old(rc)).len() + 1 + BLOCK_SYMBOLS * blocks_for(
            frame_len as int,
        ),
{
    let blocks: usize = frame_len / 16 + (if frame_len % 16 == 0 {
        0
    } else {
        1
    });
    let aligned: usize = blocks * 16;
    let mut out: Vec<i32> = shell::decode_excitation(
        rc,
        aligned,
        signal_type,
        quant_offset_type,
        seed,
    );
    proof {
        let (rate, x, v) = choose|rate: int, x: ShellFrame, v: Seq<i32>|
            {
                &&& #[trigger] read_excitation(
                    old(rc),
                    rc,
                    signal_type as int,
                    quant_offset_type as int,
                    rate,
                    x,
                    signed_ints(v),
                )
                &&& signed_ints(out@) == reconstructed(
                    v,
                    quant_offset(signal_type as int, quant_offset_type as int),
                    seed,
                )
            };
        let full = reconstructed(
            v,
            quant_offset(signal_type as int, quant_offset_type as int),
            seed,
        );
        assert(full.len() == v.len());
        assert(signed_ints(out@.take(frame_len as int)) =~= full.take(frame_len as int));
        assert(read_frame_excitation(
            old(rc),
            rc,
            signal_type as int,
            quant_offset_type as int,
            seed,
            frame_len as int,
            rate,
            x,
            v,
            signed_ints(out@.take(frame_len as int)),
        ));
    }
    let ghost padded = out@;
    out.truncate(frame_len);
    assert(out@ =~= padded.take(frame_len as int));
    Ok(out)
}

/// Blocks hold all samples of a frame, and one block less would not.
pub proof fn law_blocks_hold_the_frame(frame_len: int)
    requires
        frame_len >= 0,
    ensures
        16 * blocks_for(frame_len) >= frame_len,
        16 * (blocks_for(frame_len) - 1) < frame_len,
{
}

/// What is read of a frame's excitation: blocks of pulses enough for the frame, whose symbols
/// follow those read before, and of the samples that they stand for as many as the frame has.
pub proof fn law_excitation_as_read(
    before: &RangeDecoder<'_>,
    after: &RangeDecoder<'_>,
    signal_type: int,
    quant_offset_type: int,
    seed: u32,
    frame_len: int,
    rate: int,
    x: ShellFrame,
    v: Seq<i32>,
    out: Seq<int>,
)
    requires
        frame_len >= 0,
        read_frame_excitation(
            before,
            after,
            signal_type,
            quant_offset_type,
            seed,
            frame_len,
            rate,
            x,
            v,
            out,
        ),
    ensures
        read_log(after) == read_log(before) + excitation_log(
            signal_type,
            quant_offset_type,
            rate,
            x,
        ),
        x.samples() == signed_ints(v),
        frame_len <= v.len() < frame_len + 16,
        out.len() == frame_len,
        forall|i: int|
            0 <= i < frame_len ==> #[trigger] out[i] == reconstructed(
                v,
                quant_offset(signal_type, quant_offset_type),
                seed,
            )[i],
{
}

} // verus!
