//! Shell coding of the excitation.
//!
//! The excitation is coded in blocks of sixteen samples. A block holds a number of unit pulses (at
//! most sixteen), spread over its samples by halving the block again and again, a number of
//! further low-order bits that every sample of the block gets, and a sign for each sample that is
//! not zero.
use oxideav_celt::range_decoder::RangeDecoder;
use vstd::arithmetic::power2::pow2;
use vstd::prelude::*;

use crate::range_coder::{can_read, codable, has_read, read_log, read_symbol, symbol, Coded};
use crate::silk::dither::{lemma_scaled, quant_offset, reconstruct_q23, reconstructed, scalable};
use crate::silk::shell_tables::{
    full_icdf, lemma_lsb_model, lemma_pulse_count_models, rate_icdf, rate_model, sign_icdf,
    sign_model, split_icdf, split_model, LSB_ICDF, PULSE_COUNT_ICDF,
};

pub use crate::silk::shell_encode::encode_excitation;
pub use crate::silk::shell_quant::quantize_to_shell;

verus! {

/// Samples per shell block.
pub const SHELL_LEN: usize = 16;

/// Largest number of pulses in a block.
pub const MAX_PULSES: u32 = 16;

/// Largest number of low-order bits per sample.
pub const MAX_SHIFT: u32 = 10;

/// Largest number of symbols that code one block.
pub const BLOCK_SYMBOLS: usize = 202;

/// Sum of a sequence of numbers.
pub open spec fn total(s: Seq<int>) -> int
    decreases s.len(),
{
    if s.len() == 0 {
        0
    } else {
        total(s.drop_last()) + s.last()
    }
}

/// The numbers of a sequence, none of which is negative.
pub open spec fn naturals(s: Seq<int>) -> bool {
    forall|i: int| 0 <= i < s.len() ==> #[trigger] s[i] >= 0
}

/// The mathematical value of each entry.
pub open spec fn ints(s: Seq<u32>) -> Seq<int> {
    Seq::new(s.len(), |i: int| s[i] as int)
}

/// Absolute value.
pub open spec fn magnitude(v: int) -> int {
    if v < 0 {
        -v
    } else {
        v
    }
}

/// Absolute value of each entry.
pub open spec fn magnitudes(v: Seq<int>) -> Seq<int> {
    Seq::new(v.len(), |i: int| magnitude(v[i]))
}

/// Each entry divided by `2^shift`, rounded down.
pub open spec fn shifted(m: Seq<int>, shift: int) -> Seq<int> {
    Seq::new(m.len(), |i: int| m[i] / (pow2(shift as nat) as int))
}

/// What the shell coder carries for a frame: for each block the number of low-order bits per
/// sample, the number of pulses announced, and the sixteen signed samples.
pub struct ShellFrame {
    pub shifts: Seq<int>,
    pub counts: Seq<int>,
    pub values: Seq<Seq<int>>,
}

impl ShellFrame {
    /// The pulses of each sample of block `s`: its magnitude without the low-order bits.
    pub open spec fn pulses(self, s: int) -> Seq<int> {
        shifted(magnitudes(self.values[s]), self.shifts[s])
    }

    /// `n` blocks whose sizes are in range.
    pub open spec fn shaped(self, n: int) -> bool {
        &&& self.shifts.len() == n
        &&& self.counts.len() == n
        &&& self.values.len() == n
        &&& forall|s: int|
            0 <= s < n ==> (#[trigger] self.values[s]).len() == 16 && 0 <= self.shifts[s] <= 10
                && 0 <= self.counts[s] <= 16 && total(self.pulses(s)) <= 16
    }

    /// `n` blocks that announce exactly the pulses they hold.
    pub open spec fn coherent(self, n: int) -> bool {
        &&& self.shaped(n)
        &&& forall|s: int|
            0 <= s < n ==> #[trigger] self.counts[s] == total(self.pulses(s))
    }

    /// The pulses of all blocks.
    pub open spec fn all_pulses(self) -> Seq<Seq<int>> {
        Seq::new(self.values.len(), |s: int| self.pulses(s))
    }

    /// The sample magnitudes of all blocks.
    pub open spec fn all_magnitudes(self) -> Seq<Seq<int>> {
        Seq::new(self.values.len(), |s: int| magnitudes(self.values[s]))
    }

    /// All samples in order.
    pub open spec fn samples(self) -> Seq<int> {
        Seq::new(16 * self.values.len(), |j: int| self.values[j / 16][j % 16])
    }
}

/// The rate level in force once `escapes` escape symbols were coded.
pub open spec fn level_after(rate: int, escapes: int) -> int {
    if escapes <= 0 {
        rate
    } else if escapes == 10 {
        10
    } else {
        9
    }
}

/// `escapes` escape symbols, each announcing one low-order bit.
pub open spec fn escape_log(rate: int, escapes: int) -> Seq<Coded>
    decreases escapes,
{
    if escapes <= 0 {
        Seq::empty()
    } else {
        escape_log(rate, escapes - 1).push(
            symbol(PULSE_COUNT_ICDF[level_after(rate, escapes - 1)]@, 17),
        )
    }
}

/// The pulse count of a block, preceded by one escape symbol per low-order bit.
pub open spec fn count_log(rate: int, shift: int, count: int) -> Seq<Coded> {
    escape_log(rate, shift).push(symbol(PULSE_COUNT_ICDF[level_after(rate, shift)]@, count))
}

/// The pulse counts of all blocks.
pub open spec fn counts_log(rate: int, shifts: Seq<int>, counts: Seq<int>) -> Seq<Coded>
    decreases counts.len(),
{
    if counts.len() == 0 {
        Seq::empty()
    } else {
        counts_log(rate, shifts.drop_last(), counts.drop_last()) + count_log(
            rate,
            shifts.last(),
            counts.last(),
        )
    }
}

/// How the pulses `p` spread over their positions: the number in the first half, then each half
/// in the same way. Nothing is coded where there is no choice.
pub open spec fn split_log(p: Seq<int>) -> Seq<Coded>
    decreases p.len(),
{
    if p.len() <= 1 || total(p) == 0 {
        Seq::empty()
    } else {
        let half = (p.len() / 2) as int;
        seq![symbol(split_model(p.len() as int, total(p)), total(p.take(half)))] + split_log(
            p.take(half),
        ) + split_log(p.skip(half))
    }
}

/// The pulse positions of all blocks. A block that announces no pulses codes none.
pub open spec fn splits_log(counts: Seq<int>, pulses: Seq<Seq<int>>) -> Seq<Coded>
    decreases counts.len(),
{
    if counts.len() == 0 {
        Seq::empty()
    } else {
        splits_log(counts.drop_last(), pulses.drop_last()) + (if counts.last() == 0 {
            Seq::empty()
        } else {
            split_log(pulses.last())
        })
    }
}

/// The lowest bit of each sample.
pub open spec fn low_row(m: Seq<int>) -> Seq<Coded> {
    Seq::new(m.len(), |i: int| symbol(LSB_ICDF@, m[i] % 2))
}

/// Each entry halved, rounded down.
pub open spec fn halved(m: Seq<int>) -> Seq<int> {
    Seq::new(m.len(), |i: int| m[i] / 2)
}

/// The `shift` low-order bits of each magnitude in `m`, highest bit first, all samples of one bit
/// position together.
pub open spec fn low_log(m: Seq<int>, shift: int) -> Seq<Coded>
    decreases shift,
{
    if shift <= 0 {
        Seq::empty()
    } else {
        low_log(halved(m), shift - 1) + low_row(m)
    }
}

/// The low-order bits of all blocks.
pub open spec fn lows_log(shifts: Seq<int>, mags: Seq<Seq<int>>) -> Seq<Coded>
    decreases shifts.len(),
{
    if shifts.len() == 0 {
        Seq::empty()
    } else {
        lows_log(shifts.drop_last(), mags.drop_last()) + low_log(mags.last(), shifts.last())
    }
}

/// The signs of the first `n` samples of `v`, skipping samples that are zero.
pub open spec fn sign_log(model: Seq<u8>, v: Seq<int>, n: int) -> Seq<Coded>
    decreases n,
{
    if n <= 0 {
        Seq::empty()
    } else if v[n - 1] == 0 {
        sign_log(model, v, n - 1)
    } else {
        sign_log(model, v, n - 1).push(
            symbol(
                model,
                if v[n - 1] < 0 {
                    0
                } else {
                    1
                },
            ),
        )
    }
}

/// The signs of all blocks.
pub open spec fn signs_log(
    signal_type: int,
    quant_offset_type: int,
    counts: Seq<int>,
    values: Seq<Seq<int>>,
) -> Seq<Coded>
    decreases counts.len(),
{
    if counts.len() == 0 {
        Seq::empty()
    } else {
        signs_log(signal_type, quant_offset_type, counts.drop_last(), values.drop_last())
            + sign_log(
            sign_model(signal_type, quant_offset_type, counts.last()),
            values.last(),
            16,
        )
    }
}

/// All symbols of an excitation: the rate level, then the counts, positions, low-order bits and
/// signs, each for all blocks in turn.
pub open spec fn excitation_log(
    signal_type: int,
    quant_offset_type: int,
    rate: int,
    x: ShellFrame,
) -> Seq<Coded> {
    seq![symbol(rate_model(signal_type), rate)] + counts_log(rate, x.shifts, x.counts)
        + splits_log(x.counts, x.all_pulses()) + lows_log(x.shifts, x.all_magnitudes())
        + signs_log(signal_type, quant_offset_type, x.counts, x.values)
}

/// Between `before` and `after` an excitation was read: `samples` at rate level `rate`.
pub open spec fn read_excitation(
    before: &RangeDecoder<'_>,
    after: &RangeDecoder<'_>,
    signal_type: int,
    quant_offset_type: int,
    rate: int,
    x: ShellFrame,
    samples: Seq<int>,
) -> bool {
    &&& 0 <= rate <= 8
    &&& x.coherent(x.values.len() as int)
    &&& x.samples() == samples
    &&& has_read(before, after, excitation_log(signal_type, quant_offset_type, rate, x))
}

/// The total of a sequence is the sum of the totals of its two parts.
pub proof fn lemma_total_split(s: Seq<int>, k: int)
    requires
        0 <= k <= s.len(),
    ensures
        total(s) == total(s.take(k)) + total(s.skip(k)),
    decreases s.len(),
{
    if s.len() == k {
        assert(s.take(k) =~= s);
        assert(s.skip(k) =~= Seq::<int>::empty());
    } else {
        lemma_total_split(s.drop_last(), k);
        assert(s.drop_last().take(k) =~= s.take(k));
        assert(s.drop_last().skip(k) =~= s.skip(k).drop_last());
    }
}

/// The total of natural numbers bounds each of them and is not negative.
pub proof fn lemma_total_bounds(s: Seq<int>)
    requires
        naturals(s),
    ensures
        total(s) >= 0,
        forall|i: int| 0 <= i < s.len() ==> #[trigger] s[i] <= total(s),
    decreases s.len(),
{
    if s.len() > 0 {
        assert(naturals(s.drop_last()));
        lemma_total_bounds(s.drop_last());
        assert forall|i: int| 0 <= i < s.len() implies #[trigger] s[i] <= total(s) by {
            if i < s.len() - 1 {
                assert(s.drop_last()[i] == s[i]);
            }
        }
    }
}

/// Zeros total zero.
pub proof fn lemma_total_zero(s: Seq<int>)
    requires
        forall|i: int| 0 <= i < s.len() ==> #[trigger] s[i] == 0,
    ensures
        total(s) == 0,
    decreases s.len(),
{
    if s.len() > 0 {
        lemma_total_zero(s.drop_last());
    }
}

/// Spreads `pulses` pulses over `partition` samples as the stream says.
fn decode_split(rc: &mut RangeDecoder<'_>, partition: usize, pulses: u32) -> (p: Vec<u32>)
    requires
        partition == 1 || partition == 2 || partition == 4 || partition == 8 || partition == 16,
        pulses <= 16,
        can_read(old(rc), partition - 1),
    ensures
        p@.len() == partition,
        total(ints(p@)) == pulses,
        has_read(old(rc), final(rc), split_log(ints(p@))),
        read_log(final(rc)).len() <= read_log(old(rc)).len() + partition - 1,
    decreases partition,
{
    if partition <= 1 {
        let mut p: Vec<u32> = Vec::new();
        p.push(pulses);
        proof {
            assert(ints(p@) =~= seq![pulses as int]);
            assert(ints(p@).drop_last() =~= Seq::<int>::empty());
            reveal_with_fuel(total, 2);
            assert(read_log(rc) =~= read_log(old(rc)) + split_log(ints(p@)));
        }
        return p;
    }
    if pulses == 0 {
        let p: Vec<u32> = vec![0u32; partition];
        proof {
            lemma_total_zero(ints(p@));
            assert(read_log(rc) =~= read_log(old(rc)) + split_log(ints(p@)));
        }
        return p;
    }
    let half: usize = partition / 2;
    let icdf: Vec<u8> = split_icdf(partition, pulses as usize);
    let left: u32 = read_symbol(rc, icdf.as_slice()) as u32;
    let mut p: Vec<u32> = decode_split(rc, half, left);
    let mut q: Vec<u32> = decode_split(rc, half, pulses - left);
    let ghost a = ints(p@);
    let ghost b = ints(q@);
    p.append(&mut q);
    proof {
        let c = ints(p@);
        assert(c.take(half as int) =~= a);
        assert(c.skip(half as int) =~= b);
        lemma_total_split(c, half as int);
        assert(read_log(rc) =~= read_log(old(rc)) + split_log(c));
    }
    p
}

/// Reads the positions of the pulses of one block.
fn decode_shell_block_locations(rc: &mut RangeDecoder<'_>, pulses: u32) -> (p: Vec<u32>)
    requires
        pulses <= 16,
        can_read(old(rc), 15),
    ensures
        p@.len() == 16,
        total(ints(p@)) == pulses,
        has_read(
            old(rc),
            final(rc),
            if pulses == 0 {
                Seq::empty()
            } else {
                split_log(ints(p@))
            },
        ),
        read_log(final(rc)).len() <= read_log(old(rc)).len() + 15,
{
    decode_split(rc, 16, pulses)
}

/// Reads the pulse count of one block and its number of low-order bits.
fn decode_pulse_count(rc: &mut RangeDecoder<'_>, rate_level: usize) -> (r: (u32, u32))
    requires
        rate_level <= 8,
        can_read(old(rc), 11),
    ensures
        r.0 <= 16,
        r.1 <= 10,
        has_read(old(rc), final(rc), count_log(rate_level as int, r.1 as int, r.0 as int)),
        read_log(final(rc)).len() <= read_log(old(rc)).len() + 11,
{
    let mut rate: usize = rate_level;
    let mut lsb_count: u32 = 0;
    assert(read_log(rc) =~= read_log(old(rc)) + escape_log(rate_level as int, 0));
    loop
        invariant
            rate_level <= 8,
            rate == level_after(rate_level as int, lsb_count as int),
            lsb_count <= 10,
            has_read(old(rc), rc, escape_log(rate_level as int, lsb_count as int)),
            read_log(rc).len() == read_log(old(rc)).len() + lsb_count,
            can_read(old(rc), 11),
        decreases 10 - lsb_count,
    {
        proof {
            lemma_pulse_count_models(rate as int);
        }
        let sym: u32 = read_symbol(rc, &PULSE_COUNT_ICDF[rate]) as u32;
        if sym < 17 {
            assert(read_log(rc) =~= read_log(old(rc)) + count_log(
                rate_level as int,
                lsb_count as int,
                sym as int,
            ));
            return (sym, lsb_count);
        }
        lsb_count = lsb_count + 1;
        rate = if lsb_count == 10 {
            10
        } else {
            9
        };
        assert(read_log(rc) =~= read_log(old(rc)) + escape_log(
            rate_level as int,
            lsb_count as int,
        ));
    }
}

/// Appending a bit to each magnitude appends one row to the low-order bits and leaves the pulses
/// alone.
proof fn lemma_low_step(m: Seq<int>, next: Seq<int>, shift: int)
    requires
        shift >= 0,
        naturals(m),
        next.len() == m.len(),
        forall|i: int| 0 <= i < m.len() ==> #[trigger] next[i] / 2 == m[i],
    ensures
        low_log(next, shift + 1) == low_log(m, shift) + low_row(next),
        shifted(next, shift + 1) == shifted(m, shift),
{
    assert(halved(next) =~= m);
    vstd::arithmetic::power2::lemma_pow2_unfold((shift + 1) as nat);
    vstd::arithmetic::power2::lemma_pow2_pos(shift as nat);
    assert forall|i: int| 0 <= i < m.len() implies #[trigger] shifted(next, shift + 1)[i]
        == shifted(m, shift)[i] by {
        assert(next[i] / 2 == m[i]);
        vstd::arithmetic::div_mod::lemma_div_denominator(next[i], 2, pow2(shift as nat) as int);
    }
    assert(shifted(next, shift + 1) =~= shifted(m, shift));
}

/// Reads `shift` low-order bits for each of the sixteen samples whose pulses are `pulses`, and
/// returns the magnitudes.
fn decode_low_bits(rc: &mut RangeDecoder<'_>, pulses: &Vec<u32>, shift: u32) -> (m: Vec<u32>)
    requires
        pulses@.len() == 16,
        forall|i: int| 0 <= i < 16 ==> #[trigger] pulses@[i] <= 16,
        shift <= 10,
        can_read(old(rc), 160),
    ensures
        m@.len() == 16,
        forall|i: int| 0 <= i < 16 ==> #[trigger] m@[i] <= 17407,
        shifted(ints(m@), shift as int) == ints(pulses@),
        has_read(old(rc), final(rc), low_log(ints(m@), shift as int)),
        read_log(final(rc)).len() == read_log(old(rc)).len() + 16 * shift,
{
    let mut m: Vec<u32> = pulses.clone();
    proof {
        lemma_lsb_model();
        vstd::arithmetic::power2::lemma2_to64();
        assert(m@ =~= pulses@);
        assert(shifted(ints(m@), 0) =~= ints(pulses@));
        assert(read_log(rc) =~= read_log(old(rc)) + low_log(ints(m@), 0));
    }
    let mut t: u32 = 0;
    while t < shift
        invariant
            t <= shift <= 10,
            m@.len() == 16,
            forall|i: int| 0 <= i < 16 ==> #[trigger] m@[i] < 17 * pow2(t as nat),
            shifted(ints(m@), t as int) == ints(pulses@),
            has_read(old(rc), rc, low_log(ints(m@), t as int)),
            read_log(rc).len() == read_log(old(rc)).len() + 16 * t,
            can_read(old(rc), 160),
        decreases shift - t,
    {
        proof {
            lemma_lsb_model();
            vstd::arithmetic::power2::lemma2_to64();
            vstd::arithmetic::power2::lemma_pow2_unfold((t + 1) as nat);
        }
        let ghost was = m@;
        let ghost start = *rc;
        let mut next: Vec<u32> = Vec::new();
        let mut i: usize = 0;
        assert(read_log(rc) =~= read_log(&start) + low_row(ints(next@)));
        while i < 16
            invariant
                t < shift <= 10,
                i <= 16,
                m@ == was,
                m@.len() == 16,
                next@.len() == i,
                full_icdf(LSB_ICDF@),
                pow2(t as nat) <= 512,
                forall|j: int| 0 <= j < 16 ==> #[trigger] m@[j] < 17 * pow2(t as nat),
                forall|j: int| 0 <= j < i ==> #[trigger] next@[j] / 2 == m@[j],
                has_read(&start, rc, low_row(ints(next@))),
                can_read(&start, 16),
            decreases 16 - i,
        {
            assert(codable(LSB_ICDF@, 0));
            let b: u32 = read_symbol(rc, &LSB_ICDF) as u32;
            assert(m@[i as int] < 17 * pow2(t as nat));
            assert(m@[i as int] < 8704) by (nonlinear_arith)
                requires
                    m@[i as int] < 17 * pow2(t as nat),
                    pow2(t as nat) <= 512,
            ;
            next.push(m[i] * 2 + b);
            i = i + 1;
            assert(read_log(rc) =~= read_log(&start) + low_row(ints(next@)));
        }
        proof {
            assert forall|j: int| 0 <= j < 16 implies #[trigger] next@[j] < 17 * pow2(
                (t + 1) as nat,
            ) by {
                assert(next@[j] / 2 == m@[j]);
                assert(m@[j] < 17 * pow2(t as nat));
            }
            assert forall|j: int| 0 <= j < ints(was).len() implies #[trigger] ints(next@)[j] / 2
                == ints(was)[j] by {
                assert(next@[j] / 2 == m@[j]);
            }
            lemma_low_step(ints(was), ints(next@), t as int);
            assert(read_log(rc) =~= read_log(old(rc)) + low_log(ints(next@), t + 1));
        }
        m = next;
        t = t + 1;
    }
    proof {
        vstd::arithmetic::power2::lemma2_to64();
        if shift < 10 {
            vstd::arithmetic::power2::lemma_pow2_strictly_increases(shift as nat, 10);
        }
        assert forall|i: int| 0 <= i < 16 implies #[trigger] m@[i] <= 17407 by {
            assert(m@[i] < 17 * pow2(shift as nat));
        }
    }
    m
}

/// Reads the signs of a block of magnitudes `m` and returns the signed samples.
fn decode_signs(rc: &mut RangeDecoder<'_>, m: &Vec<u32>, icdf: &[u8; 2]) -> (v: Vec<i32>)
    requires
        m@.len() == 16,
        forall|i: int| 0 <= i < 16 ==> #[trigger] m@[i] <= 17407,
        full_icdf(icdf@),
        can_read(old(rc), 16),
    ensures
        v@.len() == 16,
        magnitudes(signed_ints(v@)) == ints(m@),
        has_read(old(rc), final(rc), sign_log(icdf@, signed_ints(v@), 16)),
        read_log(final(rc)).len() <= read_log(old(rc)).len() + 16,
{
    let mut v: Vec<i32> = Vec::new();
    let mut i: usize = 0;
    assert(read_log(rc) =~= read_log(old(rc)) + sign_log(icdf@, signed_ints(v@), 0));
    while i < 16
        invariant
            i <= 16,
            m@.len() == 16,
            v@.len() == i,
            forall|j: int| 0 <= j < 16 ==> #[trigger] m@[j] <= 17407,
            forall|j: int| 0 <= j < i ==> magnitude(#[trigger] v@[j] as int) == m@[j],
            full_icdf(icdf@),
            has_read(old(rc), rc, sign_log(icdf@, signed_ints(v@), i as int)),
            read_log(rc).len() <= read_log(old(rc)).len() + i,
            can_read(old(rc), 16),
        decreases 16 - i,
    {
        let ghost was = signed_ints(v@);
        let mag: u32 = m[i];
        if mag == 0 {
            v.push(0);
        } else {
            assert(codable(icdf@, 0));
            let sym: usize = read_symbol(rc, icdf);
            if sym == 0 {
                v.push(-(mag as i32));
            } else {
                v.push(mag as i32);
            }
        }
        proof {
            lemma_sign_log_prefix(icdf@, was, signed_ints(v@), i as int);
            assert(read_log(rc) =~= read_log(old(rc)) + sign_log(
                icdf@,
                signed_ints(v@),
                i + 1,
            ));
        }
        i = i + 1;
    }
    proof {
        assert(magnitudes(signed_ints(v@)) =~= ints(m@)) by {
            assert forall|j: int| 0 <= j < 16 implies magnitudes(signed_ints(v@))[j]
                == ints(m@)[j] by {
                assert(magnitude(v@[j] as int) == m@[j]);
            }
        }
    }
    v
}

/// The mathematical value of each entry.
pub open spec fn signed_ints(s: Seq<i32>) -> Seq<int> {
    Seq::new(s.len(), |i: int| s[i] as int)
}

/// The signs of the first `n` samples depend on those samples alone.
proof fn lemma_sign_log_prefix(model: Seq<u8>, v: Seq<int>, w: Seq<int>, n: int)
    requires
        0 <= n <= v.len(),
        n <= w.len(),
        forall|i: int| 0 <= i < n ==> #[trigger] v[i] == w[i],
    ensures
        sign_log(model, v, n) == sign_log(model, w, n),
    decreases n,
{
    if n > 0 {
        lemma_sign_log_prefix(model, v, w, n - 1);
        assert(v[n - 1] == w[n - 1]);
    }
}

/// The values of nested vectors.
pub open spec fn nested_ints(s: Seq<Vec<u32>>) -> Seq<Seq<int>> {
    Seq::new(s.len(), |i: int| ints(s[i]@))
}

/// Reads the pulse counts and the numbers of low-order bits of `n` blocks.
fn decode_counts(rc: &mut RangeDecoder<'_>, rate_level: usize, n: usize) -> (r: (
    Vec<u32>,
    Vec<u32>,
))
    requires
        rate_level <= 8,
        can_read(old(rc), 11 * n),
    ensures
        r.0@.len() == n,
        r.1@.len() == n,
        forall|s: int| 0 <= s < n ==> #[trigger] r.0@[s] <= 16,
        forall|s: int| 0 <= s < n ==> #[trigger] r.1@[s] <= 10,
        has_read(old(rc), final(rc), counts_log(rate_level as int, ints(r.1@), ints(r.0@))),
        read_log(final(rc)).len() <= read_log(old(rc)).len() + 11 * n,
{
    let mut counts: Vec<u32> = Vec::new();
    let mut shifts: Vec<u32> = Vec::new();
    assert(read_log(rc) =~= read_log(old(rc)) + counts_log(
        rate_level as int,
        ints(shifts@),
        ints(counts@),
    ));
    for s in 0..n
        invariant
            rate_level <= 8,
            counts@.len() == s,
            shifts@.len() == s,
            forall|j: int| 0 <= j < s ==> #[trigger] counts@[j] <= 16,
            forall|j: int| 0 <= j < s ==> #[trigger] shifts@[j] <= 10,
            has_read(
                old(rc),
                rc,
                counts_log(rate_level as int, ints(shifts@), ints(counts@)),
            ),
            read_log(rc).len() <= read_log(old(rc)).len() + 11 * s,
            can_read(old(rc), 11 * n),
    {
        let ghost cs = ints(counts@);
        let ghost ss = ints(shifts@);
        let (c, k): (u32, u32) = decode_pulse_count(rc, rate_level);
        counts.push(c);
        shifts.push(k);
        proof {
            assert(ints(counts@).drop_last() =~= cs);
            assert(ints(shifts@).drop_last() =~= ss);
            assert(read_log(rc) =~= read_log(old(rc)) + counts_log(
                rate_level as int,
                ints(shifts@),
                ints(counts@),
            ));
        }
    }
    (counts, shifts)
}

/// Reads the pulse positions of all blocks.
fn decode_locations(rc: &mut RangeDecoder<'_>, counts: &Vec<u32>) -> (pulses: Vec<Vec<u32>>)
    requires
        forall|s: int| 0 <= s < counts@.len() ==> #[trigger] counts@[s] <= 16,
        can_read(old(rc), 15 * counts@.len() as int),
    ensures
        pulses@.len() == counts@.len(),
        forall|s: int|
            0 <= s < counts@.len() ==> (#[trigger] pulses@[s])@.len() == 16 && total(
                ints(pulses@[s]@),
            ) == counts@[s],
        has_read(old(rc), final(rc), splits_log(ints(counts@), nested_ints(pulses@))),
        read_log(final(rc)).len() <= read_log(old(rc)).len() + 15 * counts@.len(),
{
    let mut pulses: Vec<Vec<u32>> = Vec::new();
    proof {
        assert(ints(counts@).take(0) =~= Seq::<int>::empty());
        assert(read_log(rc) =~= read_log(old(rc)) + splits_log(
            ints(counts@).take(0),
            nested_ints(pulses@),
        ));
    }
    for s in 0..counts.len()
        invariant
            pulses@.len() == s,
            s <= counts@.len(),
            forall|j: int| 0 <= j < counts@.len() ==> #[trigger] counts@[j] <= 16,
            forall|j: int|
                0 <= j < s ==> (#[trigger] pulses@[j])@.len() == 16 && total(ints(pulses@[j]@))
                    == counts@[j],
            has_read(
                old(rc),
                rc,
                splits_log(ints(counts@).take(s as int), nested_ints(pulses@)),
            ),
            read_log(rc).len() <= read_log(old(rc)).len() + 15 * s,
            can_read(old(rc), 15 * counts@.len() as int),
    {
        let ghost was = nested_ints(pulses@);
        let p: Vec<u32> = decode_shell_block_locations(rc, counts[s]);
        pulses.push(p);
        proof {
            let cs = ints(counts@).take(s + 1);
            assert(cs.drop_last() =~= ints(counts@).take(s as int));
            assert(nested_ints(pulses@).drop_last() =~= was);
            assert(read_log(rc) =~= read_log(old(rc)) + splits_log(cs, nested_ints(pulses@)));
        }
    }
    assert(ints(counts@).take(counts@.len() as int) =~= ints(counts@));
    pulses
}

/// Reads the low-order bits of all blocks and returns the magnitudes.
fn decode_magnitudes(
    rc: &mut RangeDecoder<'_>,
    pulses: &Vec<Vec<u32>>,
    shifts: &Vec<u32>,
) -> (mags: Vec<Vec<u32>>)
    requires
        pulses@.len() == shifts@.len(),
        forall|s: int|
            0 <= s < pulses@.len() ==> (#[trigger] pulses@[s])@.len() == 16 && total(
                ints(pulses@[s]@),
            ) <= 16,
        forall|s: int| 0 <= s < shifts@.len() ==> #[trigger] shifts@[s] <= 10,
        can_read(old(rc), 160 * pulses@.len() as int),
    ensures
        mags@.len() == pulses@.len(),
        forall|s: int|
            0 <= s < pulses@.len() ==> (#[trigger] mags@[s])@.len() == 16 && shifted(
                ints(mags@[s]@),
                shifts@[s] as int,
            ) == ints(pulses@[s]@),
        forall|s: int, i: int|
            0 <= s < pulses@.len() && 0 <= i < 16 ==> #[trigger] mags@[s]@[i] <= 17407,
        has_read(old(rc), final(rc), lows_log(ints(shifts@), nested_ints(mags@))),
        read_log(final(rc)).len() <= read_log(old(rc)).len() + 160 * pulses@.len(),
{
    let mut mags: Vec<Vec<u32>> = Vec::new();
    proof {
        assert(ints(shifts@).take(0) =~= Seq::<int>::empty());
        assert(read_log(rc) =~= read_log(old(rc)) + lows_log(
            ints(shifts@).take(0),
            nested_ints(mags@),
        ));
    }
    for s in 0..pulses.len()
        invariant
            mags@.len() == s,
            s <= pulses@.len(),
            pulses@.len() == shifts@.len(),
            forall|j: int|
                0 <= j < pulses@.len() ==> (#[trigger] pulses@[j])@.len() == 16 && total(
                    ints(pulses@[j]@),
                ) <= 16,
            forall|j: int| 0 <= j < shifts@.len() ==> #[trigger] shifts@[j] <= 10,
            forall|j: int|
                0 <= j < s ==> (#[trigger] mags@[j])@.len() == 16 && shifted(
                    ints(mags@[j]@),
                    shifts@[j] as int,
                ) == ints(pulses@[j]@),
            forall|j: int, i: int|
                0 <= j < s && 0 <= i < 16 ==> #[trigger] mags@[j]@[i] <= 17407,
            has_read(old(rc), rc, lows_log(ints(shifts@).take(s as int), nested_ints(mags@))),
            read_log(rc).len() <= read_log(old(rc)).len() + 160 * s,
            can_read(old(rc), 160 * pulses@.len() as int),
    {
        let ghost was = nested_ints(mags@);
        proof {
            assert(naturals(ints(pulses@[s as int]@)));
            lemma_total_bounds(ints(pulses@[s as int]@));
            assert forall|i: int| 0 <= i < 16 implies #[trigger] pulses@[s as int]@[i] <= 16 by {
                assert(ints(pulses@[s as int]@)[i] <= 16);
            }
        }
        let m: Vec<u32> = decode_low_bits(rc, &pulses[s], shifts[s]);
        mags.push(m);
        proof {
            let ks = ints(shifts@).take(s + 1);
            assert(ks.drop_last() =~= ints(shifts@).take(s as int));
            assert(nested_ints(mags@).drop_last() =~= was);
            assert(read_log(rc) =~= read_log(old(rc)) + lows_log(ks, nested_ints(mags@)));
        }
    }
    assert(ints(shifts@).take(pulses@.len() as int) =~= ints(shifts@));
    mags
}

/// The values of nested vectors.
pub open spec fn nested_signed(s: Seq<Vec<i32>>) -> Seq<Seq<int>> {
    Seq::new(s.len(), |i: int| signed_ints(s[i]@))
}

/// Reads the signs of all blocks and returns the signed samples, block by block.
fn decode_all_signs(
    rc: &mut RangeDecoder<'_>,
    mags: &Vec<Vec<u32>>,
    counts: &Vec<u32>,
    signal_type: u8,
    quant_offset_type: u8,
) -> (values: Vec<Vec<i32>>)
    requires
        mags@.len() == counts@.len(),
        forall|s: int| 0 <= s < mags@.len() ==> (#[trigger] mags@[s])@.len() == 16,
        forall|s: int, i: int|
            0 <= s < mags@.len() && 0 <= i < 16 ==> #[trigger] mags@[s]@[i] <= 17407,
        can_read(old(rc), 16 * mags@.len() as int),
    ensures
        values@.len() == mags@.len(),
        forall|s: int|
            0 <= s < mags@.len() ==> (#[trigger] values@[s])@.len() == 16 && magnitudes(
                signed_ints(values@[s]@),
            ) == ints(mags@[s]@),
        has_read(
            old(rc),
            final(rc),
            signs_log(
                signal_type as int,
                quant_offset_type as int,
                ints(counts@),
                nested_signed(values@),
            ),
        ),
        read_log(final(rc)).len() <= read_log(old(rc)).len() + 16 * mags@.len(),
{
    let mut values: Vec<Vec<i32>> = Vec::new();
    proof {
        assert(ints(counts@).take(0) =~= Seq::<int>::empty());
        assert(read_log(rc) =~= read_log(old(rc)) + signs_log(
            signal_type as int,
            quant_offset_type as int,
            ints(counts@).take(0),
            nested_signed(values@),
        ));
    }
    for s in 0..mags.len()
        invariant
            values@.len() == s,
            s <= mags@.len(),
            mags@.len() == counts@.len(),
            forall|j: int| 0 <= j < mags@.len() ==> (#[trigger] mags@[j])@.len() == 16,
            forall|j: int, i: int|
                0 <= j < mags@.len() && 0 <= i < 16 ==> #[trigger] mags@[j]@[i] <= 17407,
            forall|j: int|
                0 <= j < s ==> (#[trigger] values@[j])@.len() == 16 && magnitudes(
                    signed_ints(values@[j]@),
                ) == ints(mags@[j]@),
            has_read(
                old(rc),
                rc,
                signs_log(
                    signal_type as int,
                    quant_offset_type as int,
                    ints(counts@).take(s as int),
                    nested_signed(values@),
                ),
            ),
            read_log(rc).len() <= read_log(old(rc)).len() + 16 * s,
            can_read(old(rc), 16 * mags@.len() as int),
    {
        let ghost was = nested_signed(values@);
        let icdf: &[u8; 2] = sign_icdf(signal_type, quant_offset_type, counts[s] as usize);
        let v: Vec<i32> = decode_signs(rc, &mags[s], icdf);
        values.push(v);
        proof {
            let cs = ints(counts@).take(s + 1);
            assert(cs.drop_last() =~= ints(counts@).take(s as int));
            assert(nested_signed(values@).drop_last() =~= was);
            assert(read_log(rc) =~= read_log(old(rc)) + signs_log(
                signal_type as int,
                quant_offset_type as int,
                cs,
                nested_signed(values@),
            ));
        }
    }
    assert(ints(counts@).take(mags@.len() as int) =~= ints(counts@));
    values
}

/// All samples of `blocks` in order.
fn flatten(blocks: &Vec<Vec<i32>>) -> (flat: Vec<i32>)
    requires
        blocks@.len() <= 0x0400_0000,
        forall|s: int| 0 <= s < blocks@.len() ==> (#[trigger] blocks@[s])@.len() == 16,
    ensures
        flat@.len() == 16 * blocks@.len(),
        forall|j: int| 0 <= j < flat@.len() ==> #[trigger] flat@[j] == blocks@[j / 16]@[j % 16],
{
    let mut flat: Vec<i32> = Vec::new();
    for s in 0..blocks.len()
        invariant
            forall|j: int| 0 <= j < blocks@.len() ==> (#[trigger] blocks@[j])@.len() == 16,
            flat@.len() == 16 * s,
            forall|j: int|
                0 <= j < flat@.len() ==> #[trigger] flat@[j] == blocks@[j / 16]@[j % 16],
    {
        let mut i: usize = 0;
        while i < 16
            invariant
                i <= 16,
                s < blocks@.len(),
                forall|j: int| 0 <= j < blocks@.len() ==> (#[trigger] blocks@[j])@.len() == 16,
                flat@.len() == 16 * s + i,
                forall|j: int|
                    0 <= j < flat@.len() ==> #[trigger] flat@[j] == blocks@[j / 16]@[j % 16],
            decreases 16 - i,
        {
            flat.push(blocks[s][i]);
            i = i + 1;
        }
    }
    flat
}

/// Reads the pulses of an excitation of `frame_len` samples and returns the signed samples.
pub fn decode_pulses(
    rc: &mut RangeDecoder<'_>,
    frame_len: usize,
    signal_type: u8,
    quant_offset_type: u8,
) -> (v: Vec<i32>)
    requires
        frame_len % 16 == 0,
        can_read(old(rc), 1 + BLOCK_SYMBOLS * (frame_len / 16)),
    ensures
        v@.len() == frame_len,
        forall|j: int| 0 <= j < v@.len() ==> -17407 <= #[trigger] v@[j] <= 17407,
        exists|rate: int, x: ShellFrame|
            #[trigger] read_excitation(
                old(rc),
                final(rc),
                signal_type as int,
                quant_offset_type as int,
                rate,
                x,
                signed_ints(v@),
            ),
        read_log(final(rc)).len() <= read_log(old(rc)).len() + 1 + BLOCK_SYMBOLS * (frame_len / 16),
{
    let n: usize = frame_len / 16;
    let rate_level: usize = read_symbol(rc, rate_icdf(signal_type));
    let (counts, shifts): (Vec<u32>, Vec<u32>) = decode_counts(rc, rate_level, n);
    let pulses: Vec<Vec<u32>> = decode_locations(rc, &counts);
    let mags: Vec<Vec<u32>> = decode_magnitudes(rc, &pulses, &shifts);
    let values: Vec<Vec<i32>> = decode_all_signs(
        rc,
        &mags,
        &counts,
        signal_type,
        quant_offset_type,
    );
    let v: Vec<i32> = flatten(&values);
    proof {
        let x = ShellFrame {
            shifts: ints(shifts@),
            counts: ints(counts@),
            values: nested_signed(values@),
        };
        assert forall|s: int| 0 <= s < n implies #[trigger] x.pulses(s) == ints(pulses@[s]@) by {
            assert(magnitudes(x.values[s]) == ints(mags@[s]@));
            assert(shifted(ints(mags@[s]@), shifts@[s] as int) == ints(pulses@[s]@));
        }
        assert(x.all_pulses() =~= nested_ints(pulses@));
        assert(x.all_magnitudes() =~= nested_ints(mags@));
        assert forall|s: int| 0 <= s < n implies (#[trigger] x.values[s]).len() == 16 && 0
            <= x.shifts[s] <= 10 && 0 <= x.counts[s] <= 16 && total(x.pulses(s)) <= 16 by {
            assert(x.pulses(s) == ints(pulses@[s]@));
            assert(pulses@[s]@.len() == 16);
            assert(counts@[s] <= 16);
        }
        assert forall|s: int| 0 <= s < n implies #[trigger] x.counts[s] == total(x.pulses(s)) by {
            assert(x.pulses(s) == ints(pulses@[s]@));
            assert(pulses@[s]@.len() == 16);
        }
        assert(x.samples() =~= signed_ints(v@));
        assert forall|j: int| 0 <= j < v@.len() implies -17407 <= #[trigger] v@[j] <= 17407 by {
            let s = j / 16;
            let i = j % 16;
            assert(magnitudes(signed_ints(values@[s]@))[i] == ints(mags@[s]@)[i]);
            assert(mags@[s]@[i] <= 17407);
        }
        assert(read_log(rc) =~= read_log(old(rc)) + excitation_log(
            signal_type as int,
            quant_offset_type as int,
            rate_level as int,
            x,
        ));
        assert(read_excitation(
            old(rc),
            rc,
            signal_type as int,
            quant_offset_type as int,
            rate_level as int,
            x,
            signed_ints(v@),
        ));
    }
    v
}

/// Reads an excitation of `frame_len` samples and reconstructs it in Q23 from the given seed.
pub fn decode_excitation(
    rc: &mut RangeDecoder<'_>,
    frame_len: usize,
    signal_type: u8,
    quant_offset_type: u8,
    seed: u32,
) -> (out: Vec<i32>)
    requires
        frame_len % 16 == 0,
        can_read(old(rc), 1 + BLOCK_SYMBOLS * (frame_len / 16)),
    ensures
        out@.len() == frame_len,
        exists|rate: int, x: ShellFrame, v: Seq<i32>|
            {
                &&& #[trigger] read_excitation(
                    old(rc),
                    final(rc),
                    signal_type as int,
                    quant_offset_type as int,
                    rate,
                    x,
                    signed_ints(v),
                )
                &&& signed_ints(out@) == reconstructed(
                    v,
                    quant_offset(signal_type as int, quant_offset_type as int),
                    seed,
                )
            },
        read_log(final(rc)).len() <= read_log(old(rc)).len() + 1 + BLOCK_SYMBOLS * (frame_len / 16),
{
    let v: Vec<i32> = decode_pulses(rc, frame_len, signal_type, quant_offset_type);
    proof {
        assert forall|i: int| 0 <= i < v@.len() implies scalable(#[trigger] v@[i]) by {
            lemma_scaled(v@[i]);
        }
    }
    let out: Vec<i32> = reconstruct_q23(v.as_slice(), signal_type, quant_offset_type, seed);
    proof {
        assert(signed_ints(out@) =~= reconstructed(
            v@,
            quant_offset(signal_type as int, quant_offset_type as int),
            seed,
        ));
    }
    out
}

} // verus!
