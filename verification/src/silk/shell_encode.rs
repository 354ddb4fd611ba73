//! Writing an excitation with the shell coder.
use oxideav_celt::range_encoder::RangeEncoder;
use vstd::arithmetic::power2::{lemma_pow2_pos, lemma_pow2_unfold, pow2};
use vstd::prelude::*;

use crate::range_coder::{
    can_write, codable, has_written, symbol, write_log, write_symbol, Coded,
};
use crate::silk::shell::{
    count_log, counts_log, escape_log, excitation_log, halved, ints, lemma_total_bounds,
    lemma_total_split, level_after, low_log, low_row, lows_log, magnitude, magnitudes, naturals,
    shifted, sign_log, signed_ints, signs_log, split_log, splits_log, total, ShellFrame,
    BLOCK_SYMBOLS,
};
use crate::silk::shell_quant::{
    block_of, block_shift, clipped, clipped_pulses, excess_of, fitted, lemma_fitted,
    lemma_shifted_natural, magnitude_of, quantised_block, rebuild, rebuilt, shift_from, shift_of,
    sum_pulses, trim_pulses,
};
use crate::silk::shell_tables::{
    full_icdf, least, lemma_lsb_model, lemma_pulse_count_models, rate_icdf, sign_icdf, sign_model,
    split_icdf, LSB_ICDF, PULSE_COUNT_ICDF,
};

verus! {

/// The pulses of a block before any are taken off.
pub open spec fn raw_pulses(b: Seq<int>) -> Seq<int> {
    shifted(magnitudes(b), shift_of(magnitudes(b)))
}

/// The pulses that are coded for a block.
pub open spec fn sent_pulses(b: Seq<int>) -> Seq<int> {
    fitted(raw_pulses(b), excess_of(total(clipped(raw_pulses(b)))))
}

/// What is written for the samples `v`.
pub open spec fn sent_frame(v: Seq<int>) -> ShellFrame {
    let n = (v.len() / 16) as nat;
    ShellFrame {
        shifts: Seq::new(n, |s: int| shift_of(magnitudes(block_of(v, s)))),
        counts: Seq::new(n, |s: int| total(sent_pulses(block_of(v, s)))),
        values: Seq::new(n, |s: int| quantised_block(block_of(v, s))),
    }
}

/// The rate level for blocks with the given pulse counts: their mean to the nearest whole number,
/// halves up, but at most 8.
pub open spec fn rate_for(counts: Seq<int>) -> int {
    if counts.len() == 0 {
        0
    } else {
        least((2 * total(counts) + counts.len()) / (2 * counts.len() as int), 8)
    }
}

/// Writes how the pulses `p` spread over their positions.
fn encode_split(enc: &mut RangeEncoder, p: &[u32])
    requires
        p@.len() == 1 || p@.len() == 2 || p@.len() == 4 || p@.len() == 8 || p@.len() == 16,
        total(ints(p@)) <= 16,
        can_write(old(enc), p@.len() - 1),
    ensures
        has_written(old(enc), final(enc), split_log(ints(p@))),
        write_log(final(enc)).len() <= write_log(old(enc)).len() + p@.len() - 1,
    decreases p@.len(),
{
    let ghost q = ints(p@);
    proof {
        assert(naturals(q));
        lemma_total_bounds(q);
    }
    let len: usize = p.len();
    if len <= 1 {
        assert(write_log(enc) =~= write_log(old(enc)) + split_log(q));
        return ;
    }
    let half: usize = len / 2;
    let left: &[u32] = vstd::slice::slice_subrange(p, 0, half);
    let right: &[u32] = vstd::slice::slice_subrange(p, half, len);
    proof {
        assert(ints(left@) =~= q.take(half as int));
        assert(ints(right@) =~= q.skip(half as int));
        lemma_total_split(q, half as int);
        assert(naturals(ints(left@)));
        assert(naturals(ints(right@)));
        lemma_total_bounds(ints(left@));
        lemma_total_bounds(ints(right@));
    }
    let a: u32 = sum_of(left);
    let b: u32 = sum_of(right);
    if a + b == 0 {
        assert(write_log(enc) =~= write_log(old(enc)) + split_log(q));
        return ;
    }
    let icdf: Vec<u8> = split_icdf(len, (a + b) as usize);
    assert(codable(icdf@, a as int));
    write_symbol(enc, a as usize, icdf.as_slice());
    encode_split(enc, left);
    encode_split(enc, right);
    assert(write_log(enc) =~= write_log(old(enc)) + split_log(q));
}

/// The sum of pulse counts.
fn sum_of(p: &[u32]) -> (sum: u32)
    requires
        total(ints(p@)) <= 16,
    ensures
        sum == total(ints(p@)),
{
    let mut sum: u32 = 0;
    let ghost q = ints(p@);
    assert(q.take(0) =~= Seq::<int>::empty());
    for i in 0..p.len()
        invariant
            q == ints(p@),
            total(q) <= 16,
            sum == total(q.take(i as int)),
    {
        proof {
            assert(q.take(i + 1).drop_last() =~= q.take(i as int));
            lemma_total_split(q, i + 1);
            assert(naturals(q.skip(i + 1)));
            lemma_total_bounds(q.skip(i + 1));
        }
        sum = sum + p[i];
    }
    assert(q.take(p@.len() as int) =~= q);
    sum
}

/// Writes the positions of the pulses of one block.
fn encode_shell_block_locations(enc: &mut RangeEncoder, pulses: &Vec<u32>)
    requires
        pulses@.len() == 16,
        total(ints(pulses@)) <= 16,
        can_write(old(enc), 15),
    ensures
        has_written(old(enc), final(enc), split_log(ints(pulses@))),
        write_log(final(enc)).len() <= write_log(old(enc)).len() + 15,
{
    encode_split(enc, pulses.as_slice())
}

/// Writes the pulse count of one block, after one escape symbol per low-order bit.
fn encode_pulse_count(enc: &mut RangeEncoder, rate_level: usize, pulse_count: u32, lsb_count: u32)
    requires
        rate_level <= 8,
        pulse_count <= 16,
        lsb_count <= 10,
        can_write(old(enc), 11),
    ensures
        has_written(
            old(enc),
            final(enc),
            count_log(rate_level as int, lsb_count as int, pulse_count as int),
        ),
        write_log(final(enc)).len() <= write_log(old(enc)).len() + 11,
{
    let mut rate: usize = rate_level;
    assert(write_log(enc) =~= write_log(old(enc)) + escape_log(rate_level as int, 0));
    for i in 0..lsb_count
        invariant
            rate_level <= 8,
            lsb_count <= 10,
            rate == level_after(rate_level as int, i as int),
            can_write(old(enc), 11),
            has_written(old(enc), enc, escape_log(rate_level as int, i as int)),
            write_log(enc).len() == write_log(old(enc)).len() + i,
    {
        proof {
            lemma_pulse_count_models(rate as int);
        }
        write_symbol(enc, 17, &PULSE_COUNT_ICDF[rate]);
        rate = if i + 1 == 10 {
            10
        } else {
            9
        };
        assert(write_log(enc) =~= write_log(old(enc)) + escape_log(rate_level as int, i + 1));
    }
    proof {
        lemma_pulse_count_models(rate as int);
        assert(codable(PULSE_COUNT_ICDF[rate as int]@, pulse_count as int));
    }
    write_symbol(enc, pulse_count as usize, &PULSE_COUNT_ICDF[rate]);
    assert(write_log(enc) =~= write_log(old(enc)) + count_log(
        rate_level as int,
        lsb_count as int,
        pulse_count as int,
    ));
}

/// Halving what is left of magnitudes divided by `2^j` divides them by `2^(j+1)`.
proof fn lemma_halved_shifted(m: Seq<int>, j: int)
    requires
        naturals(m),
        j >= 0,
    ensures
        halved(shifted(m, j)) == shifted(m, j + 1),
{
    lemma_pow2_unfold((j + 1) as nat);
    lemma_pow2_pos(j as nat);
    assert forall|i: int| 0 <= i < m.len() implies halved(shifted(m, j))[i] == shifted(
        m,
        j + 1,
    )[i] by {
        vstd::arithmetic::div_mod::lemma_div_denominator(m[i], pow2(j as nat) as int, 2);
    }
    assert(halved(shifted(m, j)) =~= shifted(m, j + 1));
}

/// Writes the `shift` low-order bits of sixteen magnitudes, highest first.
fn encode_low_bits(enc: &mut RangeEncoder, m: &Vec<u32>, shift: u32, step: u32)
    requires
        m@.len() == 16,
        shift <= 10,
        step == pow2(shift as nat),
        can_write(old(enc), 160),
    ensures
        has_written(old(enc), final(enc), low_log(ints(m@), shift as int)),
        write_log(final(enc)).len() <= write_log(old(enc)).len() + 160,
{
    let ghost mags = ints(m@);
    let mut t: u32 = 0;
    let mut div: u32 = step;
    assert(write_log(enc) =~= write_log(old(enc)) + low_log(shifted(mags, shift as int), 0));
    while t < shift
        invariant
            mags == ints(m@),
            m@.len() == 16,
            t <= shift <= 10,
            div == pow2((shift - t) as nat),
            can_write(old(enc), 160),
            has_written(
                old(enc),
                enc,
                low_log(shifted(mags, shift - t), t as int),
            ),
            write_log(enc).len() == write_log(old(enc)).len() + 16 * t,
        decreases shift - t,
    {
        let ghost j: int = shift - t - 1;
        let ghost row = shifted(mags, j);
        let ghost start = *enc;
        proof {
            lemma_pow2_unfold((shift - t) as nat);
            lemma_pow2_pos(j as nat);
            lemma_halved_shifted(mags, j);
            lemma_lsb_model();
        }
        div = div / 2;
        let mut i: usize = 0;
        assert(write_log(enc) =~= write_log(&start) + low_row(row).take(0));
        while i < 16
            invariant
                mags == ints(m@),
                m@.len() == 16,
                i <= 16,
                j >= 0,
                row == shifted(mags, j),
                div == pow2(j as nat),
                div > 0,
                full_icdf(LSB_ICDF@),
                can_write(&start, 16),
                has_written(&start, enc, low_row(row).take(i as int)),
            decreases 16 - i,
        {
            let bit: u32 = (m[i] / div) % 2;
            proof {
                assert(row[i as int] == m@[i as int] as int / div as int);
                assert(codable(LSB_ICDF@, bit as int));
            }
            write_symbol(enc, bit as usize, &LSB_ICDF);
            assert(low_row(row).take(i + 1) =~= low_row(row).take(i as int).push(
                symbol(LSB_ICDF@, bit as int),
            ));
            assert(write_log(enc) =~= write_log(&start) + low_row(row).take(i + 1));
            i = i + 1;
        }
        proof {
            assert(low_row(row).take(16) =~= low_row(row));
            assert(low_log(row, t + 1) == low_log(halved(row), t as int) + low_row(row));
            assert(write_log(enc) =~= write_log(old(enc)) + low_log(row, t + 1));
        }
        t = t + 1;
    }
    proof {
        vstd::arithmetic::power2::lemma2_to64();
        assert(shifted(mags, 0) =~= mags);
    }
}

/// Writes the signs of the samples of one block.
fn encode_signs(enc: &mut RangeEncoder, v: &Vec<i32>, icdf: &[u8; 2])
    requires
        v@.len() == 16,
        full_icdf(icdf@),
        can_write(old(enc), 16),
    ensures
        has_written(old(enc), final(enc), sign_log(icdf@, signed_ints(v@), 16)),
        write_log(final(enc)).len() <= write_log(old(enc)).len() + 16,
{
    let mut i: usize = 0;
    assert(write_log(enc) =~= write_log(old(enc)) + sign_log(icdf@, signed_ints(v@), 0));
    while i < 16
        invariant
            v@.len() == 16,
            i <= 16,
            full_icdf(icdf@),
            can_write(old(enc), 16),
            has_written(old(enc), enc, sign_log(icdf@, signed_ints(v@), i as int)),
            write_log(enc).len() <= write_log(old(enc)).len() + i,
        decreases 16 - i,
    {
        if v[i] != 0 {
            let sym: usize = if v[i] < 0 {
                0
            } else {
                1
            };
            assert(codable(icdf@, sym as int));
            write_symbol(enc, sym, icdf);
        }
        assert(write_log(enc) =~= write_log(old(enc)) + sign_log(icdf@, signed_ints(v@), i + 1));
        i = i + 1;
    }
}

/// The coded pulses of a block are at most sixteen, and rebuilding the samples from them keeps
/// them as the pulses.
pub proof fn lemma_sent_block(b: Seq<int>)
    requires
        b.len() == 16,
    ensures
        sent_pulses(b).len() == 16,
        naturals(sent_pulses(b)),
        total(sent_pulses(b)) == least(total(clipped(raw_pulses(b))), 16),
        total(sent_pulses(b)) >= 0,
        forall|i: int| 0 <= i < 16 ==> #[trigger] sent_pulses(b)[i] <= 16,
        quantised_block(b) == rebuilt(b, shift_of(magnitudes(b)), sent_pulses(b)),
        shifted(magnitudes(quantised_block(b)), shift_of(magnitudes(b))) == sent_pulses(b),
{
    let k = shift_of(magnitudes(b));
    let p = raw_pulses(b);
    let f = sent_pulses(b);
    lemma_shift_range(magnitudes(b), 0);
    assert(naturals(magnitudes(b)));
    lemma_shifted_natural(magnitudes(b), k);
    lemma_total_bounds(p);
    lemma_fitted(p, excess_of(total(clipped(p))));
    assert forall|i: int| 0 <= i < 16 implies 0 <= #[trigger] f[i] <= 16 by {
        assert(0 <= f[i] <= clipped(p)[i]);
    }
    lemma_rebuilt_pulses(b, k, f);
}

pub proof fn lemma_shift_range(m: Seq<int>, k: int)
    requires
        0 <= k <= 10,
    ensures
        k <= shift_from(m, k) <= 10,
    decreases 10 - k,
{
    if !(k >= 10 || total(shifted(m, k)) <= 16) {
        lemma_shift_range(m, k + 1);
    }
}

/// Rebuilding samples from pulses and low-order bits keeps the pulses.
pub proof fn lemma_rebuilt_pulses(b: Seq<int>, k: int, f: Seq<int>)
    requires
        k >= 0,
        f.len() == b.len(),
        naturals(f),
    ensures
        shifted(magnitudes(rebuilt(b, k, f)), k) == f,
{
    lemma_pow2_pos(k as nat);
    let step = pow2(k as nat) as int;
    let r = rebuilt(b, k, f);
    assert forall|i: int| 0 <= i < b.len() implies shifted(magnitudes(r), k)[i] == f[i] by {
        let low = magnitude(b[i]) % step;
        vstd::arithmetic::div_mod::lemma_mod_pos_bound(magnitude(b[i]), step);
        assert(f[i] * step >= 0) by (nonlinear_arith)
            requires
                f[i] >= 0,
                step > 0,
        ;
        assert(magnitude(r[i]) == f[i] * step + low);
        vstd::arithmetic::div_mod::lemma_fundamental_div_mod_converse(
            f[i] * step + low,
            step,
            f[i],
            low,
        );
    }
    assert(shifted(magnitudes(r), k) =~= f);
}

/// How one block is coded.
struct BlockPlan {
    shift: u32,
    step: u32,
    count: u32,
    pulses: Vec<u32>,
    values: Vec<i32>,
    mags: Vec<u32>,
}

impl BlockPlan {
    /// The plan codes the block `b`.
    spec fn codes(&self, b: Seq<int>) -> bool {
        &&& self.shift == shift_of(magnitudes(b))
        &&& self.shift <= 10
        &&& self.step == pow2(self.shift as nat)
        &&& self.count == total(sent_pulses(b))
        &&& self.pulses@.len() == 16
        &&& ints(self.pulses@) == sent_pulses(b)
        &&& self.values@.len() == 16
        &&& signed_ints(self.values@) == quantised_block(b)
        &&& self.mags@.len() == 16
        &&& ints(self.mags@) == magnitudes(signed_ints(self.values@))
    }
}

/// The magnitudes of a block.
fn magnitudes_of(v: &Vec<i32>) -> (m: Vec<u32>)
    ensures
        m@.len() == v@.len(),
        ints(m@) == magnitudes(signed_ints(v@)),
{
    let mut m: Vec<u32> = Vec::new();
    for i in 0..v.len()
        invariant
            m@.len() == i,
            forall|j: int| 0 <= j < i ==> #[trigger] m@[j] == magnitude(v@[j] as int),
    {
        m.push(magnitude_of(v[i]));
    }
    assert(ints(m@) =~= magnitudes(signed_ints(v@)));
    m
}

/// Decides how a block is coded.
fn plan_block(v: &[i32]) -> (plan: BlockPlan)
    requires
        v@.len() == 16,
    ensures
        plan.codes(signed_ints(v@)),
{
    let ghost b = signed_ints(v@);
    let (shift, step): (u32, u32) = block_shift(v);
    let ghost k = shift as int;
    let mut pulses: Vec<u32> = clipped_pulses(v, step, Ghost(k));
    proof {
        lemma_sent_block(b);
        assert forall|i: int| 0 <= i < pulses@.len() implies #[trigger] pulses@[i] <= 16 by {
            assert(ints(pulses@)[i] == clipped(raw_pulses(b))[i]);
        }
    }
    let sum: u32 = sum_pulses(&pulses);
    let excess: u32 = if sum > 16 {
        sum - 16
    } else {
        0
    };
    trim_pulses(&mut pulses, excess);
    proof {
        assert(ints(pulses@) == sent_pulses(b));
        assert forall|i: int| 0 <= i < pulses@.len() implies #[trigger] pulses@[i] <= 16 by {
            assert(ints(pulses@)[i] == sent_pulses(b)[i]);
        }
    }
    let values: Vec<i32> = rebuild(v, &pulses, step, Ghost(k));
    let mags: Vec<u32> = magnitudes_of(&values);
    BlockPlan {
        shift,
        step,
        count: if sum > 16 {
            16
        } else {
            sum
        },
        pulses,
        values,
        mags,
    }
}

/// Decides how each block is coded.
fn plan_blocks(v: &[i32]) -> (plans: Vec<BlockPlan>)
    requires
        v@.len() % 16 == 0,
    ensures
        plans@.len() == v@.len() / 16,
        forall|s: int|
            0 <= s < plans@.len() ==> (#[trigger] plans@[s]).codes(block_of(signed_ints(v@), s)),
{
    let len: usize = v.len();
    let n: usize = len / 16;
    let mut plans: Vec<BlockPlan> = Vec::new();
    for s in 0..n
        invariant
            len == v@.len(),
            len == 16 * n,
            plans@.len() == s,
            forall|j: int|
                0 <= j < s ==> (#[trigger] plans@[j]).codes(block_of(signed_ints(v@), j)),
    {
        let block: &[i32] = vstd::slice::slice_subrange(v, 16 * s, 16 * s + 16);
        assert(signed_ints(block@) =~= block_of(signed_ints(v@), s as int));
        plans.push(plan_block(block));
    }
    plans
}

/// The rate level for the planned blocks.
fn choose_rate(plans: &Vec<BlockPlan>, Ghost(x): Ghost<ShellFrame>) -> (rate: usize)
    requires
        plans@.len() <= 0x0400_0000,
        x.counts.len() == plans@.len(),
        forall|s: int|
            0 <= s < plans@.len() ==> (#[trigger] plans@[s]).count == x.counts[s]
                && x.counts[s] <= 16,
    ensures
        rate == rate_for(x.counts),
        rate <= 8,
{
    let n: usize = plans.len();
    let mut sum: u64 = 0;
    assert(x.counts.take(0) =~= Seq::<int>::empty());
    for s in 0..n
        invariant
            n == plans@.len(),
            n <= 0x0400_0000,
            x.counts.len() == n,
            forall|j: int|
                0 <= j < n ==> (#[trigger] plans@[j]).count == x.counts[j] && x.counts[j] <= 16,
            sum == total(x.counts.take(s as int)),
            sum <= 16 * s,
    {
        proof {
            assert(x.counts.take(s + 1).drop_last() =~= x.counts.take(s as int));
            assert(plans@[s as int].count == x.counts[s as int]);
        }
        sum = sum + plans[s].count as u64;
    }
    assert(x.counts.take(n as int) =~= x.counts);
    if n == 0 {
        return 0;
    }
    let mean: u64 = (2 * sum + n as u64) / (2 * n as u64);
    if mean < 8 {
        mean as usize
    } else {
        8
    }
}

/// The symbols of the counts of one more block.
proof fn lemma_counts_step(rate: int, v: Seq<int>, s: int)
    requires
        0 <= s < v.len() / 16,
    ensures
        ({
            let x = sent_frame(v);
            counts_log(rate, x.shifts.take(s + 1), x.counts.take(s + 1)) == counts_log(
                rate,
                x.shifts.take(s),
                x.counts.take(s),
            ) + count_log(rate, x.shifts[s], x.counts[s])
        }),
{
    let x = sent_frame(v);
    assert(x.shifts.take(s + 1).drop_last() =~= x.shifts.take(s));
    assert(x.counts.take(s + 1).drop_last() =~= x.counts.take(s));
}

/// The symbols of the pulse positions of one more block.
proof fn lemma_splits_step(v: Seq<int>, s: int)
    requires
        0 <= s < v.len() / 16,
    ensures
        ({
            let x = sent_frame(v);
            splits_log(x.counts.take(s + 1), x.all_pulses().take(s + 1)) == splits_log(
                x.counts.take(s),
                x.all_pulses().take(s),
            ) + location_log(block_of(v, s))
        }),
{
    let x = sent_frame(v);
    assert(x.counts.take(s + 1).drop_last() =~= x.counts.take(s));
    assert(x.all_pulses().take(s + 1).drop_last() =~= x.all_pulses().take(s));
    assert(x.all_pulses()[s] == sent_pulses(block_of(v, s))) by {
        lemma_sent_block(block_of(v, s));
    }
}

/// The symbols of the low-order bits of one more block.
proof fn lemma_lows_step(v: Seq<int>, s: int)
    requires
        0 <= s < v.len() / 16,
    ensures
        ({
            let x = sent_frame(v);
            lows_log(x.shifts.take(s + 1), x.all_magnitudes().take(s + 1)) == lows_log(
                x.shifts.take(s),
                x.all_magnitudes().take(s),
            ) + low_log(x.all_magnitudes()[s], x.shifts[s])
        }),
{
    let x = sent_frame(v);
    assert(x.shifts.take(s + 1).drop_last() =~= x.shifts.take(s));
    assert(x.all_magnitudes().take(s + 1).drop_last() =~= x.all_magnitudes().take(s));
}

/// The symbols of the signs of one more block.
proof fn lemma_signs_step(signal_type: int, quant_offset_type: int, v: Seq<int>, s: int)
    requires
        0 <= s < v.len() / 16,
    ensures
        ({
            let x = sent_frame(v);
            signs_log(
                signal_type,
                quant_offset_type,
                x.counts.take(s + 1),
                x.values.take(s + 1),
            ) == signs_log(signal_type, quant_offset_type, x.counts.take(s), x.values.take(s))
                + sign_log(
                sign_model(signal_type, quant_offset_type, x.counts[s]),
                x.values[s],
                16,
            )
        }),
{
    let x = sent_frame(v);
    assert(x.counts.take(s + 1).drop_last() =~= x.counts.take(s));
    assert(x.values.take(s + 1).drop_last() =~= x.values.take(s));
}

/// Symbols that were written in two goes were written.
proof fn lemma_written_twice(
    before: &RangeEncoder,
    middle: &RangeEncoder,
    after: &RangeEncoder,
    a: Seq<Coded>,
    b: Seq<Coded>,
)
    requires
        has_written(before, middle, a),
        has_written(middle, after, b),
    ensures
        has_written(before, after, a + b),
{
    assert(write_log(before) + a + b =~= write_log(before) + (a + b));
}

/// The symbols of the pulse positions of the block `b`.
spec fn location_log(b: Seq<int>) -> Seq<Coded> {
    if total(sent_pulses(b)) == 0 {
        Seq::empty()
    } else {
        split_log(sent_pulses(b))
    }
}

/// Writes the pulse positions of one block.
fn encode_location(enc: &mut RangeEncoder, plan: &BlockPlan, Ghost(b): Ghost<Seq<int>>)
    requires
        b.len() == 16,
        plan.codes(b),
        can_write(old(enc), 15),
    ensures
        has_written(old(enc), final(enc), location_log(b)),
        write_log(final(enc)).len() <= write_log(old(enc)).len() + 15,
{
    proof {
        lemma_sent_block(b);
    }
    if plan.count != 0 {
        encode_shell_block_locations(enc, &plan.pulses);
    }
    assert(write_log(enc) =~= write_log(old(enc)) + location_log(b));
}

/// Writes the pulse counts of all blocks.
fn encode_counts(
    enc: &mut RangeEncoder,
    plans: &Vec<BlockPlan>,
    rate_level: usize,
    Ghost(v): Ghost<Seq<int>>,
)
    requires
        plans@.len() == v.len() / 16,
        v.len() % 16 == 0,
        forall|s: int| 0 <= s < plans@.len() ==> (#[trigger] plans@[s]).codes(block_of(v, s)),
        can_write(old(enc), 11 * plans@.len() as int),
        rate_level <= 8,
    ensures
        has_written(
            old(enc),
            final(enc),
            counts_log(rate_level as int, sent_frame(v).shifts, sent_frame(v).counts),
        ),
        write_log(final(enc)).len() <= write_log(old(enc)).len() + 11 * plans@.len(),
{
    let ghost x = sent_frame(v);
    let n: usize = plans.len();
    assert(write_log(enc) =~= write_log(old(enc)) + counts_log(
        rate_level as int,
        x.shifts.take(0),
        x.counts.take(0),
    ));
    for s in 0..n
        invariant
            n == plans@.len(),
            plans@.len() == v.len() / 16,
            v.len() % 16 == 0,
            x == sent_frame(v),
            forall|j: int| 0 <= j < n ==> (#[trigger] plans@[j]).codes(block_of(v, j)),
            can_write(old(enc), 11 * n as int),
            rate_level <= 8,
            has_written(
                old(enc),
                enc,
                counts_log(rate_level as int, x.shifts.take(s as int), x.counts.take(s as int)),
            ),
            write_log(enc).len() <= write_log(old(enc)).len() + 11 * s,
    {
        proof {
            lemma_sent_block(block_of(v, s as int));
            assert(plans@[s as int].codes(block_of(v, s as int)));
        }
        let ghost was = *enc;
        encode_pulse_count(enc, rate_level, plans[s].count, plans[s].shift);
        proof {
            lemma_counts_step(rate_level as int, v, s as int);
            lemma_written_twice(
                old(enc),
                &was,
                enc,
                counts_log(rate_level as int, x.shifts.take(s as int), x.counts.take(s as int)),
                count_log(rate_level as int, x.shifts[s as int], x.counts[s as int]),
            );
        }
    }
    proof {
        assert(x.shifts.take(n as int) =~= x.shifts);
        assert(x.counts.take(n as int) =~= x.counts);
    }
}

/// Writes the pulse positions of all blocks.
fn encode_locations(enc: &mut RangeEncoder, plans: &Vec<BlockPlan>, Ghost(v): Ghost<Seq<int>>)
    requires
        plans@.len() == v.len() / 16,
        v.len() % 16 == 0,
        forall|s: int| 0 <= s < plans@.len() ==> (#[trigger] plans@[s]).codes(block_of(v, s)),
        can_write(old(enc), 15 * plans@.len() as int),
    ensures
        has_written(
            old(enc),
            final(enc),
            splits_log(sent_frame(v).counts, sent_frame(v).all_pulses()),
        ),
        write_log(final(enc)).len() <= write_log(old(enc)).len() + 15 * plans@.len(),
{
    let ghost x = sent_frame(v);
    let n: usize = plans.len();
    assert(write_log(enc) =~= write_log(old(enc)) + splits_log(
        x.counts.take(0),
        x.all_pulses().take(0),
    ));
    for s in 0..n
        invariant
            n == plans@.len(),
            plans@.len() == v.len() / 16,
            v.len() % 16 == 0,
            x == sent_frame(v),
            forall|j: int| 0 <= j < n ==> (#[trigger] plans@[j]).codes(block_of(v, j)),
            can_write(old(enc), 15 * n as int),
            has_written(
                old(enc),
                enc,
                splits_log(x.counts.take(s as int), x.all_pulses().take(s as int)),
            ),
            write_log(enc).len() <= write_log(old(enc)).len() + 15 * s,
    {
        let ghost was = *enc;
        encode_location(enc, &plans[s], Ghost(block_of(v, s as int)));
        proof {
            lemma_splits_step(v, s as int);
            lemma_written_twice(
                old(enc),
                &was,
                enc,
                splits_log(x.counts.take(s as int), x.all_pulses().take(s as int)),
                location_log(block_of(v, s as int)),
            );
        }
    }
    proof {
        assert(x.counts.take(n as int) =~= x.counts);
        assert(x.all_pulses().take(n as int) =~= x.all_pulses());
    }
}

/// Writes the low-order bits of all blocks.
fn encode_all_low_bits(enc: &mut RangeEncoder, plans: &Vec<BlockPlan>, Ghost(v): Ghost<Seq<int>>)
    requires
        plans@.len() == v.len() / 16,
        v.len() % 16 == 0,
        forall|s: int| 0 <= s < plans@.len() ==> (#[trigger] plans@[s]).codes(block_of(v, s)),
        can_write(old(enc), 160 * plans@.len() as int),
    ensures
        has_written(
            old(enc),
            final(enc),
            lows_log(sent_frame(v).shifts, sent_frame(v).all_magnitudes()),
        ),
        write_log(final(enc)).len() <= write_log(old(enc)).len() + 160 * plans@.len(),
{
    let ghost x = sent_frame(v);
    let n: usize = plans.len();
    assert(write_log(enc) =~= write_log(old(enc)) + lows_log(
        x.shifts.take(0),
        x.all_magnitudes().take(0),
    ));
    for s in 0..n
        invariant
            n == plans@.len(),
            plans@.len() == v.len() / 16,
            v.len() % 16 == 0,
            x == sent_frame(v),
            forall|j: int| 0 <= j < n ==> (#[trigger] plans@[j]).codes(block_of(v, j)),
            can_write(old(enc), 160 * n as int),
            has_written(
                old(enc),
                enc,
                lows_log(x.shifts.take(s as int), x.all_magnitudes().take(s as int)),
            ),
            write_log(enc).len() <= write_log(old(enc)).len() + 160 * s,
    {
        proof {
            lemma_sent_block(block_of(v, s as int));
            assert(plans@[s as int].codes(block_of(v, s as int)));
        }
        let ghost was = *enc;
        encode_low_bits(enc, &plans[s].mags, plans[s].shift, plans[s].step);
        proof {
            lemma_lows_step(v, s as int);
            lemma_written_twice(
                old(enc),
                &was,
                enc,
                lows_log(x.shifts.take(s as int), x.all_magnitudes().take(s as int)),
                low_log(x.all_magnitudes()[s as int], x.shifts[s as int]),
            );
        }
    }
    proof {
        assert(x.shifts.take(n as int) =~= x.shifts);
        assert(x.all_magnitudes().take(n as int) =~= x.all_magnitudes());
    }
}

/// Writes the signs of all blocks.
fn encode_all_signs(
    enc: &mut RangeEncoder,
    plans: &Vec<BlockPlan>,
    signal_type: u8,
    quant_offset_type: u8,
    Ghost(v): Ghost<Seq<int>>,
)
    requires
        plans@.len() == v.len() / 16,
        v.len() % 16 == 0,
        forall|s: int| 0 <= s < plans@.len() ==> (#[trigger] plans@[s]).codes(block_of(v, s)),
        can_write(old(enc), 16 * plans@.len() as int),
    ensures
        has_written(
            old(enc),
            final(enc),
            signs_log(
                signal_type as int,
                quant_offset_type as int,
                sent_frame(v).counts,
                sent_frame(v).values,
            ),
        ),
        write_log(final(enc)).len() <= write_log(old(enc)).len() + 16 * plans@.len(),
{
    let ghost x = sent_frame(v);
    let n: usize = plans.len();
    assert(write_log(enc) =~= write_log(old(enc)) + signs_log(
        signal_type as int,
        quant_offset_type as int,
        x.counts.take(0),
        x.values.take(0),
    ));
    for s in 0..n
        invariant
            n == plans@.len(),
            plans@.len() == v.len() / 16,
            v.len() % 16 == 0,
            x == sent_frame(v),
            forall|j: int| 0 <= j < n ==> (#[trigger] plans@[j]).codes(block_of(v, j)),
            can_write(old(enc), 16 * n as int),
            has_written(
                old(enc),
                enc,
                signs_log(
                    signal_type as int,
                    quant_offset_type as int,
                    x.counts.take(s as int),
                    x.values.take(s as int),
                ),
            ),
            write_log(enc).len() <= write_log(old(enc)).len() + 16 * s,
    {
        proof {
            lemma_sent_block(block_of(v, s as int));
            assert(plans@[s as int].codes(block_of(v, s as int)));
        }
        let ghost was = *enc;
        let icdf: &[u8; 2] = sign_icdf(signal_type, quant_offset_type, plans[s].count as usize);
        encode_signs(enc, &plans[s].values, icdf);
        proof {
            let (t, q) = (signal_type as int, quant_offset_type as int);
            lemma_signs_step(t, q, v, s as int);
            lemma_written_twice(
                old(enc),
                &was,
                enc,
                signs_log(t, q, x.counts.take(s as int), x.values.take(s as int)),
                sign_log(sign_model(t, q, x.counts[s as int]), x.values[s as int], 16),
            );
        }
    }
    proof {
        assert(x.counts.take(n as int) =~= x.counts);
        assert(x.values.take(n as int) =~= x.values);
    }
}

/// Writes the excitation `signed_mags`, a whole number of blocks, with the shell coder.
pub fn encode_excitation(
    enc: &mut RangeEncoder,
    signed_mags: &[i32],
    signal_type: u8,
    quant_offset_type: u8,
)
    requires
        signed_mags@.len() % 16 == 0,
        can_write(old(enc), 1 + BLOCK_SYMBOLS * (signed_mags@.len() / 16)),
    ensures
        ({
            let x = sent_frame(signed_ints(signed_mags@));
            has_written(
                old(enc),
                final(enc),
                excitation_log(
                    signal_type as int,
                    quant_offset_type as int,
                    rate_for(x.counts),
                    x,
                ),
            )
        }),
        write_log(final(enc)).len() <= write_log(old(enc)).len() + 1 + BLOCK_SYMBOLS * (
        signed_mags@.len() / 16),
{
    let ghost v = signed_ints(signed_mags@);
    let ghost x = sent_frame(v);
    let plans: Vec<BlockPlan> = plan_blocks(signed_mags);
    proof {
        assert forall|s: int| 0 <= s < plans@.len() implies (#[trigger] plans@[s]).count
            == x.counts[s] && x.counts[s] <= 16 by {
            assert(plans@[s].codes(block_of(v, s)));
            lemma_sent_block(block_of(v, s));
        }
    }
    let rate_level: usize = choose_rate(&plans, Ghost(x));
    let icdf: &[u8] = rate_icdf(signal_type);
    assert(codable(icdf@, rate_level as int));
    write_symbol(enc, rate_level, icdf);
    encode_counts(enc, &plans, rate_level, Ghost(v));
    encode_locations(enc, &plans, Ghost(v));
    encode_all_low_bits(enc, &plans, Ghost(v));
    encode_all_signs(enc, &plans, signal_type, quant_offset_type, Ghost(v));
    assert(write_log(enc) =~= write_log(old(enc)) + excitation_log(
        signal_type as int,
        quant_offset_type as int,
        rate_level as int,
        x,
    ));
}

} // verus!
