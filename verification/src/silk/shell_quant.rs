//! Fitting signed samples to what the shell coder can carry.
use vstd::arithmetic::power2::{lemma_pow2_pos, lemma_pow2_strictly_increases, pow2};
use vstd::prelude::*;

use crate::silk::shell::{
    ints, lemma_total_bounds, lemma_total_zero, magnitude, magnitudes, naturals, shifted,
    signed_ints, total,
};
use crate::silk::shell_tables::least;

verus! {

/// The least number of low-order bits, from `k` up, that leaves at most sixteen pulses. Ten bits
/// are the most there can be.
pub open spec fn shift_from(m: Seq<int>, k: int) -> int
    decreases 10 - k,
{
    if k >= 10 || total(shifted(m, k)) <= 16 {
        k
    } else {
        shift_from(m, k + 1)
    }
}

/// The number of low-order bits used for the magnitudes `m`.
pub open spec fn shift_of(m: Seq<int>) -> int {
    shift_from(m, 0)
}

/// Each entry, but at most sixteen.
pub open spec fn clipped(p: Seq<int>) -> Seq<int> {
    Seq::new(p.len(), |i: int| least(p[i], 16))
}

/// The position of the largest entry among the first `n` that are open, the first such one, or -1
/// where none is open.
pub open spec fn pick(p: Seq<int>, open: Seq<bool>, n: int) -> int
    decreases n,
{
    if n <= 0 {
        -1
    } else {
        let b = pick(p, open, n - 1);
        if !open[n - 1] {
            b
        } else if b < 0 || p[n - 1] > p[b] {
            n - 1
        } else {
            b
        }
    }
}

/// Takes `excess` pulses off, from the largest entry first, each entry at most once.
pub open spec fn trim(p: Seq<int>, open: Seq<bool>, excess: int, rounds: int) -> Seq<int>
    decreases rounds,
{
    let i = pick(p, open, p.len() as int);
    if rounds <= 0 || excess <= 0 || i < 0 {
        p
    } else {
        let r = least(p[i], excess);
        trim(p.update(i, p[i] - r), open.update(i, false), excess - r, rounds - 1)
    }
}

/// `n` entries, all open.
pub open spec fn all_open(n: nat) -> Seq<bool> {
    Seq::new(n, |i: int| true)
}

/// The part of `total` above sixteen.
pub open spec fn excess_of(total: int) -> int {
    if total > 16 {
        total - 16
    } else {
        0
    }
}

/// The pulses `p`, clipped and with `excess` pulses taken off.
pub open spec fn fitted(p: Seq<int>, excess: int) -> Seq<int> {
    trim(clipped(p), all_open(p.len()), excess, p.len() as int)
}

/// `m` with the sign of `v`.
pub open spec fn signed_as(v: int, m: int) -> int {
    if v < 0 {
        -m
    } else {
        m
    }
}

/// The samples that have the pulses `p`, and the signs and `k` low-order bits of `v`.
pub open spec fn rebuilt(v: Seq<int>, k: int, p: Seq<int>) -> Seq<int> {
    Seq::new(
        v.len(),
        |i: int|
            signed_as(
                v[i],
                p[i] * pow2(k as nat) + magnitude(v[i]) % (pow2(k as nat) as int),
            ),
    )
}

/// What the coder makes of a block of samples.
pub open spec fn quantised_block(v: Seq<int>) -> Seq<int> {
    let k = shift_of(magnitudes(v));
    let p = shifted(magnitudes(v), k);
    rebuilt(v, k, fitted(p, excess_of(total(clipped(p)))))
}

/// Block `s` of a sequence of samples.
pub open spec fn block_of(v: Seq<int>, s: int) -> Seq<int> {
    v.subrange(16 * s, 16 * s + 16)
}

/// What the coder makes of a whole number of blocks.
pub open spec fn quantised(v: Seq<int>) -> Seq<int> {
    Seq::new(v.len(), |j: int| quantised_block(block_of(v, j / 16))[j % 16])
}

/// Replacing one entry changes the total by the difference.
pub proof fn lemma_total_update(s: Seq<int>, i: int, x: int)
    requires
        0 <= i < s.len(),
    ensures
        total(s.update(i, x)) == total(s) - s[i] + x,
    decreases s.len(),
{
    if i == s.len() - 1 {
        assert(s.update(i, x).drop_last() =~= s.drop_last());
    } else {
        lemma_total_update(s.drop_last(), i, x);
        assert(s.update(i, x).drop_last() =~= s.drop_last().update(i, x));
    }
}

/// The picked entry is open, and none is picked only where none is open.
pub proof fn lemma_pick(p: Seq<int>, open: Seq<bool>, n: int)
    requires
        0 <= n <= p.len(),
        p.len() == open.len(),
    ensures
        -1 <= pick(p, open, n) < n,
        pick(p, open, n) >= 0 ==> open[pick(p, open, n)],
        pick(p, open, n) < 0 ==> forall|i: int| 0 <= i < n ==> !#[trigger] open[i],
    decreases n,
{
    if n > 0 {
        lemma_pick(p, open, n - 1);
    }
}

/// The entries of `p` that are open, zero elsewhere.
pub open spec fn masked(p: Seq<int>, open: Seq<bool>) -> Seq<int> {
    Seq::new(
        p.len(),
        |i: int|
            if open[i] {
                p[i]
            } else {
                0
            },
    )
}

/// One for each open entry.
pub open spec fn marks(open: Seq<bool>) -> Seq<int> {
    Seq::new(
        open.len(),
        |i: int|
            if open[i] {
                1
            } else {
                0
            },
    )
}

/// Trimming takes off the excess as far as the open entries hold it, and raises no entry.
proof fn lemma_trim(p: Seq<int>, open: Seq<bool>, excess: int, rounds: int)
    requires
        naturals(p),
        p.len() == open.len(),
        excess >= 0,
        total(marks(open)) <= rounds,
    ensures
        trim(p, open, excess, rounds).len() == p.len(),
        total(trim(p, open, excess, rounds)) == total(p) - least(excess, total(masked(p, open))),
        forall|i: int|
            0 <= i < p.len() ==> 0 <= #[trigger] trim(p, open, excess, rounds)[i] <= p[i],
    decreases rounds,
{
    let i = pick(p, open, p.len() as int);
    lemma_pick(p, open, p.len() as int);
    lemma_total_bounds(marks(open));
    lemma_total_bounds(masked(p, open));
    if i < 0 {
        lemma_total_zero(masked(p, open));
    } else {
        assert(marks(open)[i] == 1);
        assert(masked(p, open)[i] == p[i]);
        if excess > 0 {
            let r = least(p[i], excess);
            let q = p.update(i, p[i] - r);
            let shut = open.update(i, false);
            assert(marks(shut) =~= marks(open).update(i, 0));
            lemma_total_update(marks(open), i, 0);
            assert(masked(q, shut) =~= masked(p, open).update(i, 0));
            lemma_total_update(masked(p, open), i, 0);
            lemma_total_update(p, i, p[i] - r);
            assert(naturals(q));
            lemma_trim(q, shut, excess - r, rounds - 1);
        }
    }
}

proof fn lemma_marks_all_open(n: nat)
    ensures
        total(marks(all_open(n))) == n,
    decreases n,
{
    if n > 0 {
        lemma_marks_all_open((n - 1) as nat);
        assert(marks(all_open(n)).drop_last() =~= marks(all_open((n - 1) as nat)));
    }
}

/// Fitting keeps every entry between zero and what it was, and takes off the excess as far as
/// there are pulses. Where there is none, nothing changes but the clipping.
pub proof fn lemma_fitted(p: Seq<int>, excess: int)
    requires
        naturals(p),
        excess >= 0,
    ensures
        fitted(p, excess).len() == p.len(),
        total(fitted(p, excess)) == total(clipped(p)) - least(excess, total(clipped(p))),
        forall|i: int|
            0 <= i < p.len() ==> 0 <= #[trigger] fitted(p, excess)[i] <= clipped(p)[i],
        total(clipped(p)) >= 0,
        total(clipped(p)) <= total(p),
        excess == 0 ==> fitted(p, excess) == clipped(p),
{
    assert(naturals(clipped(p)));
    lemma_marks_all_open(p.len());
    lemma_trim(clipped(p), all_open(p.len()), excess, p.len() as int);
    assert(masked(clipped(p), all_open(p.len())) =~= clipped(p));
    lemma_total_bounds(clipped(p));
    lemma_clipped_below(p);
}

proof fn lemma_clipped_below(p: Seq<int>)
    ensures
        total(clipped(p)) <= total(p),
    decreases p.len(),
{
    if p.len() > 0 {
        lemma_clipped_below(p.drop_last());
        assert(clipped(p).drop_last() =~= clipped(p.drop_last()));
    }
}

/// Takes `excess` pulses off `p`, from the largest entry first.
pub fn trim_pulses(p: &mut Vec<u32>, excess: u32)
    ensures
        final(p)@.len() == old(p)@.len(),
        ints(final(p)@) == trim(
            ints(old(p)@),
            all_open(old(p)@.len()),
            excess as int,
            old(p)@.len() as int,
        ),
{
    let n: usize = p.len();
    let mut open: Vec<bool> = vec![true; n];
    let mut left: u32 = excess;
    let mut round: usize = 0;
    let mut more: bool = true;
    assert(open@ =~= all_open(n as nat));
    while round < n && left > 0 && more
        invariant
            n == old(p)@.len(),
            p@.len() == n,
            open@.len() == n,
            round <= n,
            trim(ints(p@), open@, left as int, n - round) == trim(
                ints(old(p)@),
                all_open(n as nat),
                excess as int,
                n as int,
            ),
            !more ==> pick(ints(p@), open@, n as int) < 0,
        decreases n - round,
    {
        let mut best: usize = n;
        let mut j: usize = 0;
        while j < n
            invariant
                n == p@.len(),
                open@.len() == n,
                j <= n,
                best == n ==> pick(ints(p@), open@, j as int) < 0,
                best != n ==> best < j && best == pick(ints(p@), open@, j as int),
            decreases n - j,
        {
            if open[j] && (best == n || p[j] > p[best]) {
                best = j;
            }
            j = j + 1;
        }
        if best == n {
            more = false;
        } else {
            let ghost was = ints(p@);
            let ghost gates = open@;
            let r: u32 = if p[best] < left {
                p[best]
            } else {
                left
            };
            p[best] = p[best] - r;
            open[best] = false;
            left = left - r;
            proof {
                assert(ints(p@) =~= was.update(best as int, was[best as int] - r));
                assert(open@ =~= gates.update(best as int, false));
            }
        }
        round = round + 1;
    }
}

/// The magnitude of a sample.
pub fn magnitude_of(v: i32) -> (m: u32)
    ensures
        m == magnitude(v as int),
{
    if v < 0 {
        (-(v as i64)) as u32
    } else {
        v as u32
    }
}

/// The sum of the magnitudes of `v`, each divided by `step`.
pub(crate) fn pulses_at(v: &[i32], step: u32, Ghost(k): Ghost<int>) -> (sum: u64)
    requires
        v@.len() <= 16,
        0 <= k <= 10,
        step == pow2(k as nat),
        step > 0,
    ensures
        sum == total(shifted(magnitudes(signed_ints(v@)), k)),
{
    let mut sum: u64 = 0;
    let ghost p = shifted(magnitudes(signed_ints(v@)), k);
    assert(p.take(0) =~= Seq::<int>::empty());
    for i in 0..v.len()
        invariant
            v@.len() <= 16,
            step == pow2(k as nat),
            step > 0,
            p == shifted(magnitudes(signed_ints(v@)), k),
            sum == total(p.take(i as int)),
            sum <= i * 0x8000_0000,
    {
        let m: u32 = magnitude_of(v[i]);
        let q: u32 = m / step;
        proof {
            assert(p.take(i + 1).drop_last() =~= p.take(i as int));
            assert(p[i as int] == q);
            assert(q <= m) by (nonlinear_arith)
                requires
                    q == m / step,
                    step > 0,
            ;
        }
        sum = sum + q as u64;
    }
    assert(p.take(v@.len() as int) =~= p);
    sum
}

/// The number of low-order bits for a block of samples, and two to its power.
pub fn block_shift(v: &[i32]) -> (r: (u32, u32))
    requires
        v@.len() <= 16,
    ensures
        r.0 == shift_of(magnitudes(signed_ints(v@))),
        r.0 <= 10,
        r.1 == pow2(r.0 as nat),
        0 < r.1 <= 1024,
{
    let ghost m = magnitudes(signed_ints(v@));
    let mut k: u32 = 0;
    let mut step: u32 = 1;
    proof {
        vstd::arithmetic::power2::lemma2_to64();
    }
    while k < 10
        invariant
            v@.len() <= 16,
            m == magnitudes(signed_ints(v@)),
            k <= 10,
            step == pow2(k as nat),
            0 < step <= 1024,
            shift_of(m) == shift_from(m, k as int),
        ensures
            k <= 10,
            step == pow2(k as nat),
            0 < step <= 1024,
            shift_of(m) == k,
        decreases 10 - k,
    {
        let sum: u64 = pulses_at(v, step, Ghost(k as int));
        if sum <= 16 {
            break;
        }
        proof {
            vstd::arithmetic::power2::lemma_pow2_unfold((k + 1) as nat);
            vstd::arithmetic::power2::lemma2_to64();
            if k < 9 {
                lemma_pow2_strictly_increases((k + 1) as nat, 10);
            }
        }
        k = k + 1;
        step = step * 2;
    }
    (k, step)
}

/// The magnitudes of `v` without their low-order bits, at most sixteen each.
pub(crate) fn clipped_pulses(v: &[i32], step: u32, Ghost(k): Ghost<int>) -> (p: Vec<u32>)
    requires
        v@.len() <= 16,
        0 <= k <= 10,
        step == pow2(k as nat),
        step > 0,
    ensures
        p@.len() == v@.len(),
        ints(p@) == clipped(shifted(magnitudes(signed_ints(v@)), k)),
{
    let mut p: Vec<u32> = Vec::new();
    for i in 0..v.len()
        invariant
            step == pow2(k as nat),
            step > 0,
            p@.len() == i,
            forall|j: int|
                0 <= j < i ==> #[trigger] p@[j] == clipped(
                    shifted(magnitudes(signed_ints(v@)), k),
                )[j],
    {
        let q: u32 = magnitude_of(v[i]) / step;
        p.push(
            if q < 16 {
                q
            } else {
                16
            },
        );
    }
    assert(ints(p@) =~= clipped(shifted(magnitudes(signed_ints(v@)), k)));
    p
}

/// The sum of at most sixteen pulse counts of at most sixteen.
pub(crate) fn sum_pulses(p: &Vec<u32>) -> (sum: u32)
    requires
        p@.len() <= 16,
        forall|i: int| 0 <= i < p@.len() ==> #[trigger] p@[i] <= 16,
    ensures
        sum == total(ints(p@)),
        sum <= 256,
{
    let mut sum: u32 = 0;
    let ghost q = ints(p@);
    assert(q.take(0) =~= Seq::<int>::empty());
    for i in 0..p.len()
        invariant
            p@.len() <= 16,
            q == ints(p@),
            forall|j: int| 0 <= j < p@.len() ==> #[trigger] p@[j] <= 16,
            sum == total(q.take(i as int)),
            sum <= 16 * i,
    {
        assert(q.take(i + 1).drop_last() =~= q.take(i as int));
        sum = sum + p[i];
    }
    assert(q.take(p@.len() as int) =~= q);
    sum
}

/// The samples with pulses `p` and the signs and low-order bits of `v`.
pub(crate) fn rebuild(v: &[i32], p: &Vec<u32>, step: u32, Ghost(k): Ghost<int>) -> (w: Vec<i32>)
    requires
        v@.len() == p@.len(),
        0 <= k <= 10,
        step == pow2(k as nat),
        0 < step <= 1024,
        forall|i: int| 0 <= i < p@.len() ==> #[trigger] p@[i] <= 16,
    ensures
        w@.len() == v@.len(),
        signed_ints(w@) == rebuilt(signed_ints(v@), k, ints(p@)),
{
    let mut w: Vec<i32> = Vec::new();
    for i in 0..v.len()
        invariant
            v@.len() == p@.len(),
            step == pow2(k as nat),
            0 < step <= 1024,
            forall|j: int| 0 <= j < p@.len() ==> #[trigger] p@[j] <= 16,
            w@.len() == i,
            forall|j: int|
                0 <= j < i ==> #[trigger] w@[j] == rebuilt(signed_ints(v@), k, ints(p@))[j],
    {
        let q: u32 = p[i];
        assert(0 <= q * step <= 16384) by (nonlinear_arith)
            requires
                q <= 16,
                0 < step <= 1024,
        ;
        let m: u32 = q * step + magnitude_of(v[i]) % step;
        w.push(
            if v[i] < 0 {
                -(m as i32)
            } else {
                m as i32
            },
        );
    }
    assert(signed_ints(w@) =~= rebuilt(signed_ints(v@), k, ints(p@)));
    w
}

/// What the coder makes of one block.
fn quantise_block(v: &[i32]) -> (w: Vec<i32>)
    requires
        v@.len() == 16,
    ensures
        w@.len() == 16,
        signed_ints(w@) == quantised_block(signed_ints(v@)),
{
    let (shift, step): (u32, u32) = block_shift(v);
    let ghost k = shift as int;
    let ghost q = shifted(magnitudes(signed_ints(v@)), k);
    let mut p: Vec<u32> = clipped_pulses(v, step, Ghost(k));
    proof {
        lemma_shifted_natural(magnitudes(signed_ints(v@)), k);
        assert forall|i: int| 0 <= i < p@.len() implies #[trigger] p@[i] <= 16 by {
            assert(ints(p@)[i] == clipped(q)[i]);
        }
    }
    let sum: u32 = sum_pulses(&p);
    let excess: u32 = if sum > 16 {
        sum - 16
    } else {
        0
    };
    trim_pulses(&mut p, excess);
    proof {
        lemma_fitted(q, excess as int);
        assert forall|i: int| 0 <= i < p@.len() implies #[trigger] p@[i] <= 16 by {
            assert(ints(p@)[i] <= clipped(q)[i]);
        }
    }
    rebuild(v, &p, step, Ghost(k))
}

/// Dividing magnitudes by a power of two leaves natural numbers.
pub proof fn lemma_shifted_natural(m: Seq<int>, k: int)
    requires
        naturals(m),
        k >= 0,
    ensures
        naturals(shifted(m, k)),
{
    lemma_pow2_pos(k as nat);
    assert forall|i: int| 0 <= i < m.len() implies #[trigger] shifted(m, k)[i] >= 0 by {
        vstd::arithmetic::div_mod::lemma_div_pos_is_pos(m[i], pow2(k as nat) as int);
    }
}

/// Fits signed samples to what the shell coder can carry: what a decoder gets to see of them.
pub fn quantize_to_shell(signed_mags: &[i32]) -> (out: Vec<i32>)
    requires
        signed_mags@.len() % 16 == 0,
    ensures
        signed_ints(out@) == quantised(signed_ints(signed_mags@)),
{
    let len: usize = signed_mags.len();
    let n: usize = len / 16;
    let mut out: Vec<i32> = Vec::new();
    let ghost v = signed_ints(signed_mags@);
    for s in 0..n
        invariant
            len == signed_mags@.len(),
            len == 16 * n,
            v == signed_ints(signed_mags@),
            out@.len() == 16 * s,
            forall|j: int| 0 <= j < 16 * s ==> #[trigger] out@[j] == quantised(v)[j],
    {
        let block: &[i32] = vstd::slice::slice_subrange(signed_mags, 16 * s, 16 * s + 16);
        let mut w: Vec<i32> = quantise_block(block);
        proof {
            assert(signed_ints(block@) =~= block_of(v, s as int));
            assert forall|j: int| 0 <= j < 16 implies #[trigger] w@[j] == quantised(
                v,
            )[16 * s + j] by {
                assert(signed_ints(w@)[j] == quantised_block(block_of(v, s as int))[j]);
                assert((16 * s + j) / 16 == s && (16 * s + j) % 16 == j);
            }
        }
        let ghost was = out@;
        let ghost tail = w@;
        out.append(&mut w);
        proof {
            assert forall|j: int| 0 <= j < 16 * (s + 1) implies #[trigger] out@[j] == quantised(
                v,
            )[j] by {
                if j >= 16 * s {
                    assert(out@[j] == tail[j - 16 * s]);
                } else {
                    assert(out@[j] == was[j]);
                }
            }
        }
    }
    assert(signed_ints(out@) =~= quantised(v));
    out
}

} // verus!
