//! What taking pulses off a block comes to.
use vstd::arithmetic::power2::{lemma_pow2_pos, pow2};
use vstd::prelude::*;

use crate::silk::shell::{magnitude, magnitudes, naturals, shifted, total};
use crate::silk::shell_encode::{lemma_shift_range, rate_for, sent_frame};
use crate::silk::shell_quant::{
    all_open, block_of, clipped, excess_of, fitted, lemma_fitted, lemma_pick,
    lemma_shifted_natural, pick, quantised_block, shift_from, shift_of, trim,
};

verus! {

/// The total of a sequence grows by what is added to it.
pub proof fn law_total(s: Seq<int>, x: int)
    ensures
        total(Seq::empty()) == 0,
        total(s.push(x)) == total(s) + x,
{
    assert(s.push(x).drop_last() =~= s);
}

/// A sample is its magnitude or the negative of it, and its pulses are its magnitude without the
/// low-order bits.
pub proof fn law_pulses_of_sample(v: Seq<int>, k: int, i: int)
    requires
        0 <= i < v.len(),
        k >= 0,
    ensures
        ({
            let m = magnitudes(v)[i];
            let p = shifted(magnitudes(v), k)[i];
            &&& m >= 0
            &&& m == v[i] || m == -v[i]
            &&& pow2(k as nat) * p <= m < pow2(k as nat) * p + pow2(k as nat)
        }),
{
    lemma_pow2_pos(k as nat);
    let step = pow2(k as nat) as int;
    vstd::arithmetic::div_mod::lemma_fundamental_div_mod(magnitude(v[i]), step);
    vstd::arithmetic::div_mod::lemma_mod_bound(magnitude(v[i]), step);
}

proof fn lemma_fewest(m: Seq<int>, k: int, j: int)
    requires
        0 <= k <= 10,
    ensures
        k <= shift_from(m, k) <= 10,
        shift_from(m, k) < 10 ==> total(shifted(m, shift_from(m, k))) <= 16,
        k <= j < shift_from(m, k) ==> total(shifted(m, j)) > 16,
    decreases 10 - k,
{
    if !(k >= 10 || total(shifted(m, k)) <= 16) {
        lemma_fewest(m, k + 1, j);
    }
}

/// A block has the fewest low-order bits that leave at most sixteen pulses, but no more than ten:
/// with any fewer there are more than sixteen.
pub proof fn law_fewest_low_bits(m: Seq<int>, j: int)
    requires
        0 <= j < shift_of(m),
    ensures
        shift_of(m) <= 10,
        shift_of(m) < 10 ==> total(shifted(m, shift_of(m))) <= 16,
        total(shifted(m, j)) > 16,
{
    lemma_fewest(m, 0, j);
}

/// A block that has at most sixteen pulses as it is has no low-order bits.
pub proof fn law_no_low_bits(m: Seq<int>)
    ensures
        0 <= shift_of(m) <= 10,
        shift_of(m) == 0 <==> total(shifted(m, 0)) <= 16,
{
    lemma_fewest(m, 0, 0);
}

/// The picked entry is the first of the largest open ones.
proof fn lemma_pick_largest(p: Seq<int>, open: Seq<bool>, n: int, j: int)
    requires
        0 <= j < n <= p.len(),
        p.len() == open.len(),
        open[j],
    ensures
        pick(p, open, n) >= 0,
        p[pick(p, open, n)] >= p[j],
        p[pick(p, open, n)] == p[j] ==> pick(p, open, n) <= j,
    decreases n,
{
    lemma_pick(p, open, n - 1);
    if j < n - 1 {
        lemma_pick_largest(p, open, n - 1, j);
    }
}

proof fn lemma_trim_range(p: Seq<int>, open: Seq<bool>, excess: int, rounds: int, i: int)
    requires
        naturals(p),
        p.len() == open.len(),
        0 <= i < p.len(),
    ensures
        trim(p, open, excess, rounds).len() == p.len(),
        0 <= trim(p, open, excess, rounds)[i] <= p[i],
        !open[i] ==> trim(p, open, excess, rounds)[i] == p[i],
    decreases rounds,
{
    let b = pick(p, open, p.len() as int);
    lemma_pick(p, open, p.len() as int);
    if !(rounds <= 0 || excess <= 0 || b < 0) {
        let r = if p[b] < excess {
            p[b]
        } else {
            excess
        };
        let q = p.update(b, p[b] - r);
        assert forall|x: int| 0 <= x < q.len() implies #[trigger] q[x] >= 0 by {
            assert(p[x] >= 0);
        }
        lemma_trim_range(q, open.update(b, false), excess - r, rounds - 1, i);
    }
}

proof fn lemma_trim_order(
    p: Seq<int>,
    open: Seq<bool>,
    excess: int,
    rounds: int,
    i: int,
    j: int,
)
    requires
        naturals(p),
        p.len() == open.len(),
        0 <= i < p.len(),
        0 <= j < p.len(),
        i != j,
        open[i],
        open[j],
        trim(p, open, excess, rounds)[i] < p[i],
        trim(p, open, excess, rounds)[j] > 0 || trim(p, open, excess, rounds)[j] == p[j],
    ensures
        p[i] > p[j] || (p[i] == p[j] && i < j),
    decreases rounds,
{
    let b = pick(p, open, p.len() as int);
    lemma_pick(p, open, p.len() as int);
    lemma_pick_largest(p, open, p.len() as int, i);
    lemma_pick_largest(p, open, p.len() as int, j);
    if !(rounds <= 0 || excess <= 0) {
        let r = if p[b] < excess {
            p[b]
        } else {
            excess
        };
        let q = p.update(b, p[b] - r);
        let o = open.update(b, false);
        assert forall|x: int| 0 <= x < q.len() implies #[trigger] q[x] >= 0 by {
            assert(p[x] >= 0);
        }
        lemma_trim_range(q, o, excess - r, rounds - 1, b);
        lemma_trim_range(q, o, excess - r, rounds - 1, i);
        if b != i && b != j {
            lemma_trim_order(q, o, excess - r, rounds - 1, i, j);
        } else if b == j {
            assert(p[i] >= 0);
            if p[b] > excess {
                assert(trim(q, o, 0, rounds - 1) == q);
            }
        }
    }
}

/// Pulses are taken off the largest entry first, the first of those as large, and as many as it
/// has: an entry that gave some comes before any that still has some, and before any that gave
/// none.
pub proof fn law_largest_gives_first(p: Seq<int>, excess: int, i: int, j: int)
    requires
        naturals(p),
        excess >= 0,
        0 <= i < p.len(),
        0 <= j < p.len(),
        i != j,
        fitted(p, excess)[i] < clipped(p)[i],
        fitted(p, excess)[j] > 0 || fitted(p, excess)[j] == clipped(p)[j],
    ensures
        clipped(p)[i] > clipped(p)[j] || (clipped(p)[i] == clipped(p)[j] && i < j),
{
    assert(naturals(clipped(p)));
    lemma_trim_order(clipped(p), all_open(p.len()), excess, p.len() as int, i, j);
}

/// An entry is clipped to sixteen, and after fitting a block has sixteen pulses, or what it had
/// where that is less.
pub proof fn law_fitted_pulses(p: Seq<int>, i: int)
    requires
        naturals(p),
        0 <= i < p.len(),
    ensures
        ({
            let c = clipped(p);
            let f = fitted(p, excess_of(total(c)));
            &&& c[i] <= 16 && c[i] <= p[i] && (c[i] == 16 || c[i] == p[i])
            &&& 0 <= f[i] <= c[i]
            &&& total(f) <= 16 && total(f) <= total(c) && (total(f) == 16 || total(f) == total(c))
        }),
{
    lemma_fitted(p, excess_of(total(clipped(p))));
}

/// Fitting moves a sample towards zero, never past it, and keeps its low-order bits: what it takes
/// off is a whole number of pulses.
pub proof fn law_fitted_sample(b: Seq<int>, i: int)
    requires
        0 <= i < b.len(),
    ensures
        ({
            let k = shift_of(magnitudes(b));
            let q = quantised_block(b)[i];
            &&& b[i] >= 0 ==> 0 <= q <= b[i]
            &&& b[i] <= 0 ==> b[i] <= q <= 0
            &&& exists|n: int| #[trigger] (n * pow2(k as nat)) == b[i] - q
        }),
{
    let m = magnitudes(b);
    let k = shift_of(m);
    let p = shifted(m, k);
    lemma_shift_range(m, 0);
    assert(naturals(m));
    lemma_shifted_natural(m, k);
    let e = excess_of(total(clipped(p)));
    lemma_fitted(p, e);
    let f = fitted(p, e)[i];
    assert(0 <= f <= clipped(p)[i] <= p[i]);
    lemma_pow2_pos(k as nat);
    let step = pow2(k as nat) as int;
    vstd::arithmetic::div_mod::lemma_fundamental_div_mod(m[i], step);
    vstd::arithmetic::div_mod::lemma_mod_bound(m[i], step);
    let low = m[i] % step;
    assert(m[i] == p[i] * step + low) by (nonlinear_arith)
        requires
            m[i] == step * (m[i] / step) + low,
            p[i] == m[i] / step,
    ;
    assert(0 <= f * step <= p[i] * step) by (nonlinear_arith)
        requires
            0 <= f <= p[i],
            step >= 1,
    ;
    let n = if b[i] < 0 {
        f - p[i]
    } else {
        p[i] - f
    };
    assert((p[i] - f) * step == p[i] * step - f * step && (f - p[i]) * step == f * step - p[i]
        * step) by (nonlinear_arith);
    assert(n * pow2(k as nat) == b[i] - quantised_block(b)[i]);
}

/// The rate level is the mean count to the nearest whole number, halves up, or 8 where that is
/// more.
pub proof fn law_rate_is_mean(counts: Seq<int>)
    requires
        counts.len() > 0,
    ensures
        ({
            let r = rate_for(counts);
            let n = counts.len();
            &&& r <= 8
            &&& r < 8 ==> n * (2 * r - 1) <= 2 * total(counts) < n * (2 * r + 1)
            &&& r == 8 ==> n * 15 <= 2 * total(counts)
        }),
{
    let n = counts.len() as int;
    let x = 2 * total(counts) + n;
    let q = x / (2 * n);
    let r = rate_for(counts);
    vstd::arithmetic::div_mod::lemma_fundamental_div_mod(x, 2 * n);
    vstd::arithmetic::div_mod::lemma_mod_bound(x, 2 * n);
    assert(r < 8 ==> q == r);
    assert(r == 8 ==> q >= 8);
    assert(2 * n * q == 2 * (n * q)) by (nonlinear_arith);
    assert(n * (2 * q - 1) == 2 * (n * q) - n && n * (2 * q + 1) == 2 * (n * q) + n)
        by (nonlinear_arith);
    if r == 8 {
        assert(n * q >= n * 8) by (nonlinear_arith)
            requires
                q >= 8,
                n > 0,
        ;
    }
}

/// What is written for block `s` goes by its sixteen samples alone.
pub proof fn law_sent_block(v: Seq<int>, s: int)
    requires
        v.len() % 16 == 0,
        0 <= s < v.len() / 16,
    ensures
        ({
            let b = v.subrange(16 * s, 16 * s + 16);
            let x = sent_frame(v);
            &&& x.shifts.len() == x.counts.len() == x.values.len() == v.len() / 16
            &&& x.shifts[s] == shift_of(magnitudes(b))
            &&& x.values[s] == quantised_block(b)
            &&& block_of(v, s) == b
        }),
{
}

} // verus!
