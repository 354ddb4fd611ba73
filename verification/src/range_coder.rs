//! The range coder that carries every symbol of a frame.
//!
//! The arithmetic coder itself comes from `oxideav_celt`; this module states what the rest of the
//! library relies on. A decoder is seen as the bytes it was started on together with the log of
//! symbols it has handed out, an encoder as its storage size together with the log of symbols it
//! has taken in. Every parsing and writing function of the library says which symbols it adds to
//! such a log.
use oxideav_celt::range_decoder::RangeDecoder;
use oxideav_celt::range_encoder::RangeEncoder;
use vstd::prelude::*;

verus! {

/// One symbol of a range-coded stream, together with the probability model it was coded with.
pub enum Coded {
    /// A symbol of an inverse cumulative distribution that sums to 256.
    Icdf { icdf: Seq<u8>, sym: nat },
    /// A single bit that is set with probability `2^-logp`.
    Bit { logp: nat, bit: bool },
}

/// Upper bound on the number of symbols handled by one coder. The coder counts the bits it has
/// used in a 32-bit signed counter, and no symbol advances that counter by more than 24.
pub const MAX_SYMBOLS: usize = 0x0400_0000;

/// The probability total of every inverse cumulative distribution is `2^ICDF_BITS`.
pub const ICDF_BITS: u32 = 8;

/// `oxideav_celt`'s range decoder. Opaque: what it stands for is given by [`source_bytes`],
/// [`read_log`] and [`read_failed`].
#[verifier::external_type_specification]
#[verifier::external_body]
pub struct ExRangeDecoder<'a>(RangeDecoder<'a>);

/// `oxideav_celt`'s range encoder. Opaque: what it stands for is given by [`storage_size`] and
/// [`write_log`].
#[verifier::external_type_specification]
#[verifier::external_body]
pub struct ExRangeEncoder(RangeEncoder);

/// The error that finishing an encoder reports. Opaque.
#[verifier::external_type_specification]
#[verifier::external_body]
pub struct ExCoreError(oxideav_core::Error);

/// The bytes a decoder was started on.
pub uninterp spec fn source_bytes(rc: &RangeDecoder<'_>) -> Seq<u8>;

/// The symbols a decoder has handed out so far, oldest first.
pub uninterp spec fn read_log(rc: &RangeDecoder<'_>) -> Seq<Coded>;

/// Whether a decoder has met a uniform number out of range.
pub uninterp spec fn read_failed(rc: &RangeDecoder<'_>) -> bool;

/// The number of bytes an encoder was given to write to.
pub uninterp spec fn storage_size(enc: &RangeEncoder) -> nat;

/// The symbols an encoder has taken in so far, oldest first.
pub uninterp spec fn write_log(enc: &RangeEncoder) -> Seq<Coded>;

/// The symbol that a decoder started on `bytes` finds next with the model `icdf`, once it has
/// handed out `past`.
pub uninterp spec fn icdf_symbol(bytes: Seq<u8>, past: Seq<Coded>, icdf: Seq<u8>) -> nat;

/// The bit that a decoder started on `bytes` finds next at probability `2^-logp`, once it has
/// handed out `past`.
pub uninterp spec fn logp_bit(bytes: Seq<u8>, past: Seq<Coded>, logp: nat) -> bool;

/// The bytes that an encoder with `storage` bytes produces for the symbols `log`, or `None` where
/// they do not fit.
pub uninterp spec fn flushed_bytes(storage: nat, log: Seq<Coded>) -> Option<Seq<u8>>;

/// An inverse cumulative distribution: entries never rise and the last one is zero.
pub open spec fn valid_icdf(icdf: Seq<u8>) -> bool {
    &&& icdf.len() > 0
    &&& icdf[icdf.len() - 1] == 0
    &&& forall|i: int, j: int| 0 <= i <= j < icdf.len() ==> icdf[i] >= icdf[j]
}

/// `sym` is a symbol of `icdf` that has a probability above zero.
pub open spec fn codable(icdf: Seq<u8>, sym: int) -> bool {
    &&& 0 <= sym < icdf.len()
    &&& sym > 0 ==> icdf[sym - 1] > icdf[sym]
}

/// A decoder started on `bytes` that has handed out `past` hands out `c` next, when asked with
/// the model of `c`.
pub open spec fn reads_next(bytes: Seq<u8>, past: Seq<Coded>, c: Coded) -> bool {
    match c {
        Coded::Icdf { icdf, sym } => icdf_symbol(bytes, past, icdf) == sym,
        Coded::Bit { logp, bit } => logp_bit(bytes, past, logp) == bit,
    }
}

/// `bytes` carry the symbols `log`: a decoder started on them, asked with the models of `log` in
/// turn, hands out exactly the symbols of `log`.
#[verifier::opaque]
pub open spec fn carries(bytes: Seq<u8>, log: Seq<Coded>) -> bool {
    forall|k: int|
        0 <= k < log.len() ==> #[trigger] reads_next(bytes, log.take(k), log[k])
}

/// A decoder that can hand out `n` more symbols.
pub open spec fn can_read(rc: &RangeDecoder<'_>, n: int) -> bool {
    &&& carries(source_bytes(rc), read_log(rc))
    &&& read_log(rc).len() + n <= MAX_SYMBOLS
}

/// An encoder that can take in `n` more symbols.
pub open spec fn can_write(enc: &RangeEncoder, n: int) -> bool {
    write_log(enc).len() + n <= MAX_SYMBOLS
}

/// `after` is `before` once the symbols `log` were read from it.
pub open spec fn has_read(
    before: &RangeDecoder<'_>,
    after: &RangeDecoder<'_>,
    log: Seq<Coded>,
) -> bool {
    &&& source_bytes(after) == source_bytes(before)
    &&& read_log(after) == read_log(before) + log
    &&& carries(source_bytes(after), read_log(after))
    &&& read_failed(after) == read_failed(before)
}

/// `after` is `before` once the symbols `log` were written to it.
pub open spec fn has_written(before: &RangeEncoder, after: &RangeEncoder, log: Seq<Coded>) -> bool {
    &&& storage_size(after) == storage_size(before)
    &&& write_log(after) == write_log(before) + log
}

/// The logged form of symbol `sym` under the model `icdf`.
pub open spec fn symbol(icdf: Seq<u8>, sym: int) -> Coded {
    Coded::Icdf { icdf, sym: sym as nat }
}

/// The logged form of an equiprobable bit.
pub open spec fn flag(bit: bool) -> Coded {
    Coded::Bit { logp: 1, bit }
}

/// `RangeDecoder::new` starts a decoder on the given bytes. Nothing has been handed out yet, and
/// any bytes carry that much. Nothing has gone wrong yet.
pub assume_specification<'a>[ RangeDecoder::<'a>::new ](buf: &'a [u8]) -> (rc: RangeDecoder<'a>)
    ensures
        source_bytes(&rc) == buf@,
        read_log(&rc) == Seq::<Coded>::empty(),
        carries(buf@, read_log(&rc)),
        !read_failed(&rc),
;

/// `RangeDecoder::decode_icdf` hands out the next symbol under the given model. The symbol is
/// fixed by the bytes and by what was handed out before, it is one of the model's symbols, and it
/// has a probability above zero. Only tables whose last entry is zero and whose entries never
/// rise are admitted, since the decoder's arithmetic underflows on others. A symbol does not touch
/// the decoder's error state.
pub assume_specification<'a>[ RangeDecoder::<'a>::decode_icdf ](
    rc: &mut RangeDecoder<'a>,
    icdf: &[u8],
    ftb: u32,
) -> (sym: usize)
    requires
        valid_icdf(icdf@),
        ftb == ICDF_BITS,
        read_log(old(rc)).len() < MAX_SYMBOLS,
    ensures
        sym == icdf_symbol(source_bytes(old(rc)), read_log(old(rc)), icdf@),
        codable(icdf@, sym as int),
        source_bytes(final(rc)) == source_bytes(old(rc)),
        read_log(final(rc)) == read_log(old(rc)).push(symbol(icdf@, sym as int)),
        read_failed(final(rc)) == read_failed(old(rc)),
;

/// `RangeDecoder::decode_bit_logp` hands out the next bit at probability `2^-logp`. The bit is
/// fixed by the bytes and by what was handed out before. A bit does not touch the decoder's error
/// state.
pub assume_specification<'a>[ RangeDecoder::<'a>::decode_bit_logp ](
    rc: &mut RangeDecoder<'a>,
    logp: u32,
) -> (bit: bool)
    requires
        1 <= logp <= 16,
        read_log(old(rc)).len() < MAX_SYMBOLS,
    ensures
        bit == logp_bit(source_bytes(old(rc)), read_log(old(rc)), logp as nat),
        source_bytes(final(rc)) == source_bytes(old(rc)),
        read_log(final(rc)) == read_log(old(rc)).push(Coded::Bit { logp: logp as nat, bit }),
        read_failed(final(rc)) == read_failed(old(rc)),
;

/// `RangeDecoder::error` tells whether the decoder is in its error state, which it enters only on
/// a uniform number out of range and never leaves.
pub assume_specification<'a>[ RangeDecoder::<'a>::error ](rc: &RangeDecoder<'a>) -> (failed: bool)
    ensures
        failed == read_failed(rc),
;

/// `RangeEncoder::new` makes an encoder that writes to `storage` bytes and has taken in nothing. It
/// sets the bytes aside at once, and no more than 2^31 - 1 can be had on every machine.
pub assume_specification[ RangeEncoder::new ](storage: u32) -> (enc: RangeEncoder)
    requires
        storage <= 0x7fff_ffff,
    ensures
        storage_size(&enc) == storage,
        write_log(&enc) == Seq::<Coded>::empty(),
;

/// `RangeEncoder::encode_icdf` takes in one symbol of the given model. A symbol of probability
/// zero is left out: the encoder would not return.
pub assume_specification[ RangeEncoder::encode_icdf ](
    enc: &mut RangeEncoder,
    s: usize,
    icdf: &[u8],
    ftb: u32,
)
    requires
        valid_icdf(icdf@),
        codable(icdf@, s as int),
        ftb == ICDF_BITS,
        write_log(old(enc)).len() < MAX_SYMBOLS,
    ensures
        storage_size(final(enc)) == storage_size(old(enc)),
        write_log(final(enc)) == write_log(old(enc)).push(symbol(icdf@, s as int)),
;

/// `RangeEncoder::encode_bit_logp` takes in one bit at probability `2^-logp`.
pub assume_specification[ RangeEncoder::encode_bit_logp ](
    enc: &mut RangeEncoder,
    val: bool,
    logp: u32,
)
    requires
        1 <= logp <= 16,
        write_log(old(enc)).len() < MAX_SYMBOLS,
    ensures
        storage_size(final(enc)) == storage_size(old(enc)),
        write_log(final(enc)) == write_log(old(enc)).push(
            Coded::Bit { logp: logp as nat, bit: val },
        ),
;

/// `RangeEncoder::done` flushes the encoder. The outcome is fixed by the storage size and the
/// symbols taken in. On success the bytes fill the storage and carry exactly those symbols.
pub assume_specification[ RangeEncoder::done ](enc: RangeEncoder) -> (out: Result<
    Vec<u8>,
    oxideav_core::Error,
>)
    ensures
        out matches Ok(buf) ==> flushed_bytes(storage_size(&enc), write_log(&enc)) == Some(buf@)
            && buf@.len() == storage_size(&enc) && carries(buf@, write_log(&enc)),
        out is Err ==> flushed_bytes(storage_size(&enc), write_log(&enc)) is None,
;

/// Reads one symbol of `icdf`.
pub fn read_symbol(rc: &mut RangeDecoder<'_>, icdf: &[u8]) -> (sym: usize)
    requires
        valid_icdf(icdf@),
        can_read(old(rc), 1),
    ensures
        codable(icdf@, sym as int),
        has_read(old(rc), final(rc), seq![symbol(icdf@, sym as int)]),
{
    let sym: usize = rc.decode_icdf(icdf, ICDF_BITS);
    proof {
        lemma_carries_push(
            source_bytes(old(rc)),
            read_log(old(rc)),
            symbol(icdf@, sym as int),
        );
        assert(read_log(rc) =~= read_log(old(rc)) + seq![symbol(icdf@, sym as int)]);
    }
    sym
}

/// Reads one equiprobable bit.
pub fn read_flag(rc: &mut RangeDecoder<'_>) -> (bit: bool)
    requires
        can_read(old(rc), 1),
    ensures
        has_read(old(rc), final(rc), seq![flag(bit)]),
{
    let bit: bool = rc.decode_bit_logp(1);
    proof {
        lemma_carries_push(source_bytes(old(rc)), read_log(old(rc)), flag(bit));
        assert(read_log(rc) =~= read_log(old(rc)) + seq![flag(bit)]);
    }
    bit
}

/// Writes one symbol of `icdf`.
pub fn write_symbol(enc: &mut RangeEncoder, sym: usize, icdf: &[u8])
    requires
        valid_icdf(icdf@),
        codable(icdf@, sym as int),
        can_write(old(enc), 1),
    ensures
        has_written(old(enc), final(enc), seq![symbol(icdf@, sym as int)]),
{
    enc.encode_icdf(sym, icdf, ICDF_BITS);
    assert(write_log(enc) =~= write_log(old(enc)) + seq![symbol(icdf@, sym as int)]);
}

/// Writes one equiprobable bit.
pub fn write_flag(enc: &mut RangeEncoder, bit: bool)
    requires
        can_write(old(enc), 1),
    ensures
        has_written(old(enc), final(enc), seq![flag(bit)]),
{
    enc.encode_bit_logp(bit, 1);
    assert(write_log(enc) =~= write_log(old(enc)) + seq![flag(bit)]);
}

/// Bytes that carry a log and hand out `c` after it carry the log extended by `c`.
pub proof fn lemma_carries_push(bytes: Seq<u8>, log: Seq<Coded>, c: Coded)
    requires
        carries(bytes, log),
        reads_next(bytes, log, c),
    ensures
        carries(bytes, log.push(c)),
{
    reveal(carries);
    let ext = log.push(c);
    assert forall|k: int| 0 <= k < ext.len() implies #[trigger] reads_next(
        bytes,
        ext.take(k),
        ext[k],
    ) by {
        if k < log.len() {
            assert(ext.take(k) =~= log.take(k));
            assert(reads_next(bytes, log.take(k), log[k]));
        } else {
            assert(ext.take(k) =~= log);
        }
    }
}

/// Reading is deterministic: where the same bytes carry two logs that agree up to position `n`
/// and ask for position `n` with the same model, the symbols there agree too.
pub proof fn lemma_same_symbol(bytes: Seq<u8>, a: Seq<Coded>, b: Seq<Coded>, n: int)
    requires
        carries(bytes, a),
        carries(bytes, b),
        0 <= n < a.len(),
        n < b.len(),
        a.take(n) == b.take(n),
    ensures
        a[n] matches Coded::Icdf { icdf: t, sym: x } ==> (b[n] matches Coded::Icdf {
            icdf: u,
            sym: y,
        } ==> t == u ==> x == y),
        a[n] matches Coded::Bit { logp: t, bit: x } ==> (b[n] matches Coded::Bit {
            logp: u,
            bit: y,
        } ==> t == u ==> x == y),
{
    reveal(carries);
    assert(reads_next(bytes, a.take(n), a[n]));
    assert(reads_next(bytes, b.take(n), b[n]));
}

} // verus!
