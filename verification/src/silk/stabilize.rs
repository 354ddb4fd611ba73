//! Keeping the normalised line spectral frequencies (NLSFs) of a frame apart.
use vstd::prelude::*;

use crate::arith::{clamp_i32, lemma_shr1, limited};
use crate::silk::shell::signed_ints;
use crate::silk::tables::{NLSF_NBMB_MIN_DELTA_Q15, NLSF_WB_MIN_DELTA_Q15};

verus! {

/// Rounds of local adjustment before the frequencies are sorted and spread for good.
pub const STABILIZE_ROUNDS: u32 = 20;

/// The least distances between neighbouring NLSFs: entry `k` is that of NLSF `k` from the one
/// below it, the last entry that of the top of the range from the last NLSF.
#[verifier::opaque]
pub open spec fn min_deltas(is_wb: bool) -> Seq<int> {
    if is_wb {
        Seq::new(17, |k: int| NLSF_WB_MIN_DELTA_Q15[k] as int)
    } else {
        Seq::new(11, |k: int| NLSF_NBMB_MIN_DELTA_Q15[k] as int)
    }
}

/// The sum of the first `n` entries.
pub open spec fn sum_first(d: Seq<int>, n: int) -> int
    decreases n,
{
    if n <= 0 {
        0
    } else {
        sum_first(d, n - 1) + d[n - 1]
    }
}

/// By how much NLSF `i` keeps more than its least distance from the one below. Below the first
/// lies 0, above the last 32768.
pub open spec fn slack(x: Seq<int>, d: Seq<int>, i: int) -> int {
    let below = if i == 0 {
        0
    } else {
        x[i - 1]
    };
    let here = if i == x.len() {
        32768
    } else {
        x[i]
    };
    here - below - d[i]
}

/// The first of the first `n` positions with the least slack.
pub open spec fn tightest(x: Seq<int>, d: Seq<int>, n: int) -> int
    decreases n,
{
    if n <= 1 {
        0
    } else {
        let b = tightest(x, d, n - 1);
        if slack(x, d, n - 1) < slack(x, d, b) {
            n - 1
        } else {
            b
        }
    }
}

/// Where the middle between NLSFs `i - 1` and `i` comes to lie when they are moved apart.
pub open spec fn new_center(x: Seq<int>, d: Seq<int>, i: int) -> int {
    let n = x.len() as int;
    let lowest = d[i] / 2 + sum_first(d, i);
    let highest = 32768 - d[i] / 2 - (sum_first(d, n + 1) - sum_first(d, i + 1));
    limited((x[i - 1] + x[i] + 1) / 2, lowest, highest)
}

/// One adjustment at position `i`: the two NLSFs that are too close are moved to their least
/// distance.
pub open spec fn adjusted(x: Seq<int>, d: Seq<int>, i: int) -> Seq<int> {
    let n = x.len() as int;
    if i == 0 {
        x.update(0, d[0])
    } else if i == n {
        x.update(n - 1, 32768 - d[n])
    } else {
        let a = new_center(x, d, i) - d[i] / 2;
        x.update(i - 1, a).update(i, a + d[i])
    }
}

/// At most `rounds` adjustments, each where it is tightest, until all distances are kept.
pub open spec fn relaxed(x: Seq<int>, d: Seq<int>, rounds: int) -> Seq<int>
    decreases rounds,
{
    let i = tightest(x, d, x.len() as int + 1);
    if rounds <= 0 || slack(x, d, i) >= 0 {
        x
    } else {
        relaxed(adjusted(x, d, i), d, rounds - 1)
    }
}

/// Entry `k` once every entry up to it is raised to its least distance from the one below.
pub open spec fn lifted(x: Seq<int>, d: Seq<int>, k: int) -> int
    decreases k + 1,
{
    if k < 0 {
        0
    } else {
        let low = lifted(x, d, k - 1) + d[k];
        if x[k] < low {
            low
        } else {
            x[k]
        }
    }
}

/// Entry `k` once every entry from the last down to it is lowered to its least distance from the
/// one above.
pub open spec fn lowered(x: Seq<int>, d: Seq<int>, k: int) -> int
    decreases x.len() - k,
{
    if k >= x.len() || k < 0 {
        32768
    } else {
        let high = lowered(x, d, k + 1) - d[k + 1];
        if x[k] > high {
            high
        } else {
            x[k]
        }
    }
}

/// All entries raised.
pub open spec fn all_lifted(x: Seq<int>, d: Seq<int>) -> Seq<int> {
    Seq::new(x.len(), |k: int| lifted(x, d, k))
}

/// The stabilised NLSFs: adjusted, sorted, spread from below and from above, and kept in range.
pub open spec fn stabilised(x: Seq<int>, d: Seq<int>) -> Seq<int> {
    let up = all_lifted(relaxed(x, d, 20).sort(), d);
    Seq::new(x.len(), |k: int| limited(lowered(up, d, k), 1, 32767))
}

/// Every NLSF keeps its least distance from its neighbours and from the ends of the range.
pub open spec fn spaced(x: Seq<int>, d: Seq<int>) -> bool {
    forall|i: int| 0 <= i <= x.len() ==> #[trigger] slack(x, d, i) >= 0
}

/// Least distances that leave room for `n` NLSFs.
pub open spec fn roomy(d: Seq<int>, n: int) -> bool {
    &&& 0 <= n < d.len()
    &&& forall|k: int| 0 <= k <= n ==> 1 <= #[trigger] d[k] <= 1000
    &&& sum_first(d, n + 1) <= 16384
}

/// Both sets of least distances leave room.
pub proof fn lemma_min_deltas(is_wb: bool, n: int)
    requires
        0 <= n <= (if is_wb {
            16int
        } else {
            10
        }),
    ensures
        roomy(min_deltas(is_wb), n),
{
    reveal(min_deltas);
    let d = min_deltas(is_wb);
    assert forall|k: int| 0 <= k <= n implies 1 <= #[trigger] d[k] <= 1000 by {}
    reveal_with_fuel(sum_first, 18);
    if is_wb {
        assert(sum_first(d, 17) == 583);
        lemma_sum_grows(d, n + 1, 17);
    } else {
        assert(sum_first(d, 11) == 742);
        lemma_sum_grows(d, n + 1, 11);
    }
}

proof fn lemma_sum_most(d: Seq<int>, n: int)
    requires
        0 <= n <= d.len(),
        forall|k: int| 0 <= k < n ==> 0 <= #[trigger] d[k] <= 1000,
    ensures
        0 <= sum_first(d, n) <= 1000 * n,
    decreases n,
{
    if n > 0 {
        lemma_sum_most(d, n - 1);
    }
}

/// Sums of natural numbers grow with their length.
proof fn lemma_sum_grows(d: Seq<int>, j: int, n: int)
    requires
        0 <= j <= n <= d.len(),
        forall|k: int| 0 <= k < n ==> #[trigger] d[k] >= 0,
    ensures
        sum_first(d, j) <= sum_first(d, n),
    decreases n - j,
{
    if j < n {
        lemma_sum_grows(d, j, n - 1);
    }
}

/// The order of numbers is total.
proof fn lemma_order_total()
    ensures
        vstd::relations::total_ordering(|x: int, y: int| x <= y),
{
}

/// Sorting is settled by order and contents alone.
proof fn lemma_sort_is(x: Seq<int>, y: Seq<int>)
    requires
        forall|i: int, j: int| 0 <= i <= j < y.len() ==> y[i] <= y[j],
        x.to_multiset() == y.to_multiset(),
    ensures
        y == x.sort(),
{
    let leq = |a: int, b: int| a <= b;
    x.lemma_sort_ensures();
    lemma_order_total();
    assert(vstd::relations::sorted_by(y, leq));
    vstd::seq_lib::lemma_sorted_unique(x.sort(), y, leq);
}

/// Sorts in ascending order.
fn sort_ascending(x: &Vec<i32>) -> (y: Vec<i32>)
    ensures
        y@.len() == x@.len(),
        signed_ints(y@) == signed_ints(x@).sort(),
{
    let mut y: Vec<i32> = Vec::new();
    proof {
        assert(signed_ints(x@).take(0) =~= Seq::<int>::empty());
        assert(signed_ints(y@) =~= Seq::<int>::empty());
    }
    for i in 0..x.len()
        invariant
            y@.len() == i,
            forall|a: int, b: int| 0 <= a <= b < y@.len() ==> y@[a] <= y@[b],
            signed_ints(y@).to_multiset() == signed_ints(x@).take(i as int).to_multiset(),
    {
        let v: i32 = x[i];
        let mut p: usize = 0;
        while p < y.len() && y[p] <= v
            invariant
                p <= y@.len(),
                forall|a: int| 0 <= a < p ==> #[trigger] y@[a] <= v,
            decreases y@.len() - p,
        {
            p = p + 1;
        }
        let ghost was = y@;
        y.insert(p, v);
        proof {
            assert(signed_ints(y@) =~= signed_ints(was).insert(p as int, v as int));
            vstd::seq_lib::to_multiset_insert(signed_ints(was), p as int, v as int);
            let t = signed_ints(x@).take(i as int);
            assert(signed_ints(x@).take(i + 1) =~= t.push(v as int));
            vstd::seq_lib::to_multiset_build(t, v as int);
            assert forall|a: int, b: int| 0 <= a <= b < y@.len() implies y@[a] <= y@[b] by {
                if a < p && b > p {
                    assert(was[a] <= was[b - 1]);
                } else if a > p {
                    assert(was[a - 1] <= was[b - 1]);
                } else if a == p && b > p {
                    assert(was[p as int] <= was[b - 1]);
                }
            }
        }
    }
    proof {
        assert(signed_ints(x@).take(x@.len() as int) =~= signed_ints(x@));
        assert forall|a: int, b: int| 0 <= a <= b < signed_ints(y@).len() implies signed_ints(
            y@,
        )[a] <= signed_ints(y@)[b] by {
            assert(y@[a] <= y@[b]);
        }
        lemma_sort_is(signed_ints(x@), signed_ints(y@));
    }
    y
}

/// The least distances.
fn min_delta_table(is_wb: bool) -> (d: &'static [i16])
    ensures
        d@.len() == min_deltas(is_wb).len(),
        d@.len() == (if is_wb {
            17int
        } else {
            11
        }),
        forall|k: int| 0 <= k < d@.len() ==> #[trigger] d@[k] == min_deltas(is_wb)[k],
{
    proof {
        reveal(min_deltas);
    }
    if is_wb {
        &NLSF_WB_MIN_DELTA_Q15
    } else {
        &NLSF_NBMB_MIN_DELTA_Q15
    }
}

/// NLSFs that arithmetic in 32 bits can handle.
spec fn tame(x: Seq<i32>) -> bool {
    forall|k: int| 0 <= k < x.len() ==> -32768 <= #[trigger] x[k] <= 32768
}

/// The tightest position.
fn find_tightest(x: &Vec<i32>, t: &[i16], Ghost(d): Ghost<Seq<int>>) -> (r: (usize, i32))
    requires
        tame(x@),
        x@.len() <= 16,
        roomy(d, x@.len() as int),
        t@.len() == d.len(),
        forall|k: int| 0 <= k < d.len() ==> #[trigger] t@[k] == d[k],
    ensures
        r.0 == tightest(signed_ints(x@), d, x@.len() as int + 1),
        r.0 <= x@.len(),
        r.1 == slack(signed_ints(x@), d, r.0 as int),
{
    let n: usize = x.len();
    let ghost v = signed_ints(x@);
    let mut best: usize = 0;
    let mut least: i32 = (if n == 0 {
        32768
    } else {
        x[0]
    }) - t[0] as i32;
    let mut i: usize = 1;
    while i <= n
        invariant
            n == x@.len(),
            n <= 16,
            v == signed_ints(x@),
            tame(x@),
            roomy(d, n as int),
            t@.len() == d.len(),
            forall|k: int| 0 <= k < d.len() ==> #[trigger] t@[k] == d[k],
            1 <= i <= n + 1,
            best < i,
            best == tightest(v, d, i as int),
            least == slack(v, d, best as int),
        decreases n + 1 - i,
    {
        let below: i32 = x[i - 1];
        let here: i32 = if i == n {
            32768
        } else {
            x[i]
        };
        assert(1 <= d[i as int] <= 1000);
        let s: i32 = here - below - t[i] as i32;
        assert(s == slack(v, d, i as int));
        if s < least {
            least = s;
            best = i;
        }
        i = i + 1;
    }
    (best, least)
}

/// The sum of entries `a` to `b - 1` of the least distances.
fn sum_range(t: &[i16], a: usize, b: usize, Ghost(d): Ghost<Seq<int>>) -> (sum: i32)
    requires
        a <= b <= d.len(),
        d.len() <= 17,
        t@.len() == d.len(),
        forall|k: int| 0 <= k < d.len() ==> #[trigger] t@[k] == d[k],
        forall|k: int| 0 <= k < b ==> 0 <= #[trigger] d[k] <= 1000,
    ensures
        sum == sum_first(d, b as int) - sum_first(d, a as int),
        0 <= sum <= 17000,
{
    let mut sum: i32 = 0;
    for k in a..b
        invariant
            a <= b <= d.len(),
            d.len() <= 17,
            t@.len() == d.len(),
            forall|j: int| 0 <= j < d.len() ==> #[trigger] t@[j] == d[j],
            forall|j: int| 0 <= j < b ==> 0 <= #[trigger] d[j] <= 1000,
            sum == sum_first(d, k as int) - sum_first(d, a as int),
            0 <= sum <= 1000 * (k - a),
    {
        assert(0 <= d[k as int] <= 1000);
        sum = sum + t[k] as i32;
    }
    sum
}

/// One adjustment at position `i`.
fn adjust(x: &mut Vec<i32>, t: &[i16], i: usize, Ghost(d): Ghost<Seq<int>>)
    requires
        tame(old(x)@),
        1 <= old(x)@.len() <= 16,
        roomy(d, old(x)@.len() as int),
        d.len() <= 17,
        t@.len() == d.len(),
        forall|k: int| 0 <= k < d.len() ==> #[trigger] t@[k] == d[k],
        i <= old(x)@.len(),
    ensures
        final(x)@.len() == old(x)@.len(),
        tame(final(x)@),
        signed_ints(final(x)@) == adjusted(signed_ints(old(x)@), d, i as int),
{
    let n: usize = x.len();
    let ghost v = signed_ints(x@);
    assert(1 <= d[i as int] <= 1000);
    assert(1 <= d[0] <= 1000);
    assert(1 <= d[n as int] <= 1000);
    if i == 0 {
        x[0] = t[0] as i32;
        assert(signed_ints(x@) =~= adjusted(v, d, i as int));
    } else if i == n {
        x[n - 1] = 32768 - t[n] as i32;
        assert(signed_ints(x@) =~= adjusted(v, d, i as int));
    } else {
        let below: i32 = sum_range(t, 0, i, Ghost(d));
        let above: i32 = sum_range(t, i + 1, n + 1, Ghost(d));
        let gap: i32 = t[i] as i32;
        let half: i32 = gap >> 1;
        proof {
            lemma_shr1(gap);
            assert(sum_first(d, i + 1) == sum_first(d, i as int) + d[i as int]);
            assert(sum_first(d, 0) == 0);
            lemma_sum_grows(d, i + 1, n as int);
            assert(sum_first(d, n + 1) == sum_first(d, n as int) + d[n as int]);
        }
        let lowest: i32 = half + below;
        let highest: i32 = 32768 - half - above;
        let mid: i32 = (x[i - 1] + x[i] + 1) >> 1;
        proof {
            lemma_shr1((x@[i - 1] + x@[i as int] + 1) as i32);
        }
        let center: i32 = clamp_i32(mid, lowest, highest);
        let a: i32 = center - half;
        assert(above >= 1 && -32768 <= a && a + gap <= 32768);
        x[i - 1] = a;
        x[i] = a + gap;
        assert(signed_ints(x@) =~= adjusted(v, d, i as int));
    }
}

/// The distances kept by raising.
proof fn lemma_lifted(x: Seq<int>, d: Seq<int>, k: int)
    requires
        roomy(d, x.len() as int),
        forall|i: int| 0 <= i < x.len() ==> -32768 <= #[trigger] x[i] <= 32768,
        0 <= k < x.len(),
    ensures
        lifted(x, d, k) >= lifted(x, d, k - 1) + d[k],
        sum_first(d, k + 1) <= lifted(x, d, k) <= 32768 + sum_first(d, k + 1),
    decreases k,
{
    assert(1 <= d[k] <= 1000);
    assert(-32768 <= x[k] <= 32768);
    assert(sum_first(d, k + 1) == sum_first(d, k) + d[k]);
    lemma_sum_most(d, k);
    if k > 0 {
        lemma_lifted(x, d, k - 1);
    } else {
        assert(sum_first(d, 0) == 0);
    }
}

/// The range and the distances kept by lowering raised entries.
proof fn lemma_lowered(x: Seq<int>, d: Seq<int>, k: int)
    requires
        roomy(d, x.len() as int),
        forall|i: int| 0 <= i < x.len() ==> sum_first(d, i + 1) <= #[trigger] x[i] <= 100_000,
        0 <= k <= x.len(),
    ensures
        sum_first(d, k + 1) - (if k == x.len() {
            d[k]
        } else {
            0
        }) <= lowered(x, d, k) <= 32768,
        k < x.len() ==> lowered(x, d, k) <= lowered(x, d, k + 1) - d[k + 1],
    decreases x.len() - k,
{
    let n = x.len() as int;
    if k < n {
        lemma_lowered(x, d, k + 1);
        assert(sum_first(d, k + 1) <= x[k] <= 100_000);
        assert(1 <= d[k + 1] <= 1000);
        assert(sum_first(d, k + 2) == sum_first(d, k + 1) + d[k + 1]);
    } else {
        assert(sum_first(d, n + 1) == sum_first(d, n) + d[n]);
        assert(1 <= d[n] <= 1000);
    }
}

/// Sorting keeps entries in any range that held them.
proof fn lemma_sort_range(x: Seq<int>)
    requires
        forall|i: int| 0 <= i < x.len() ==> -32768 <= #[trigger] x[i] <= 32768,
    ensures
        x.sort().len() == x.len(),
        forall|i: int| 0 <= i < x.len() ==> -32768 <= #[trigger] x.sort()[i] <= 32768,
{
    x.lemma_sort_ensures();
    let y = x.sort();
    vstd::seq_lib::to_multiset_len(x);
    vstd::seq_lib::to_multiset_len(y);
    assert forall|i: int| 0 <= i < y.len() implies -32768 <= #[trigger] y[i] <= 32768 by {
        vstd::seq_lib::to_multiset_contains(y, y[i]);
        vstd::seq_lib::to_multiset_contains(x, y[i]);
        assert(y.contains(y[i]));
        assert(x.contains(y[i]));
    }
}

proof fn lemma_tightest(x: Seq<int>, d: Seq<int>, n: int)
    requires
        1 <= n <= x.len() + 1,
    ensures
        0 <= tightest(x, d, n) < n,
        forall|i: int| 0 <= i < n ==> slack(x, d, tightest(x, d, n)) <= #[trigger] slack(x, d, i),
    decreases n,
{
    if n > 1 {
        lemma_tightest(x, d, n - 1);
    }
}

/// Stabilises NLSFs: the least distances hold between them and to the ends of the range.
pub fn stabilize(nlsf_in: &[i16], is_wb: bool) -> (out: Vec<i16>)
    requires
        nlsf_in@.len() <= (if is_wb {
            16int
        } else {
            10
        }),
    ensures
        out@.len() == nlsf_in@.len(),
        short_ints(out@) == stabilised(short_ints(nlsf_in@), min_deltas(is_wb)),
        forall|k: int| 0 <= k < out@.len() ==> 1 <= #[trigger] out@[k],
{
    let n: usize = nlsf_in.len();
    let t: &[i16] = min_delta_table(is_wb);
    let ghost d = min_deltas(is_wb);
    proof {
        lemma_min_deltas(is_wb, n as int);
    }
    let mut x: Vec<i32> = Vec::new();
    for i in 0..n
        invariant
            n == nlsf_in@.len(),
            x@.len() == i,
            tame(x@),
            forall|k: int| 0 <= k < i ==> #[trigger] x@[k] == nlsf_in@[k],
    {
        x.push(nlsf_in[i] as i32);
    }
    let ghost start = signed_ints(x@);
    assert(start =~= short_ints(nlsf_in@));
    let mut round: u32 = 0;
    let mut settled: bool = false;
    while round < STABILIZE_ROUNDS && !settled
        invariant
            n == x@.len(),
            n <= 16,
            d.len() <= 17,
            roomy(d, n as int),
            t@.len() == d.len(),
            forall|k: int| 0 <= k < d.len() ==> #[trigger] t@[k] == d[k],
            tame(x@),
            round <= 20,
            relaxed(start, d, 20) == relaxed(signed_ints(x@), d, 20 - round),
            settled ==> relaxed(start, d, 20) == signed_ints(x@),
        decreases
                20 - round + (if settled {
                    0int
                } else {
                    1
                }),
    {
        let (i, s): (usize, i32) = find_tightest(&x, t, Ghost(d));
        if s >= 0 {
            settled = true;
        } else {
            proof {
                if n == 0 {
                    assert(1 <= d[0] <= 1000);
                }
            }
            adjust(&mut x, t, i, Ghost(d));
            round = round + 1;
        }
    }
    assert(signed_ints(x@) == relaxed(start, d, 20));
    let mut y: Vec<i32> = sort_ascending(&x);
    let ghost z = signed_ints(y@);
    proof {
        assert forall|k: int| 0 <= k < n implies -32768 <= #[trigger] signed_ints(x@)[k]
            <= 32768 by {
            assert(-32768 <= x@[k] <= 32768);
        }
        lemma_sort_range(signed_ints(x@));
        assert forall|k: int| 0 <= k < n implies -32768 <= #[trigger] z[k] <= 32768 by {}
    }
    let mut prev: i32 = 0;
    for k in 0..n
        invariant
            n == y@.len(),
            n <= 16,
            roomy(d, n as int),
            t@.len() == d.len(),
            forall|j: int| 0 <= j < d.len() ==> #[trigger] t@[j] == d[j],
            z.len() == n,
            forall|j: int| 0 <= j < n ==> -32768 <= #[trigger] z[j] <= 32768,
            prev == lifted(z, d, k - 1),
            0 <= prev <= 32768 + 16384,
            forall|j: int| 0 <= j < k ==> #[trigger] y@[j] == lifted(z, d, j),
            forall|j: int| k <= j < n ==> #[trigger] y@[j] == z[j],
    {
        proof {
            lemma_lifted(z, d, k as int);
            lemma_sum_grows(d, k + 1, n + 1);
            assert(1 <= d[k as int] <= 1000);
        }
        let low: i32 = prev + t[k] as i32;
        if y[k] < low {
            y[k] = low;
        }
        prev = y[k];
    }
    let ghost up = all_lifted(z, d);
    proof {
        assert(signed_ints(y@) =~= up);
        assert forall|i: int| 0 <= i < n implies sum_first(d, i + 1) <= #[trigger] up[i]
            <= 100_000 by {
            lemma_lifted(z, d, i);
            lemma_sum_grows(d, i + 1, n + 1);
        }
    }
    let mut next: i32 = 32768;
    let mut k: usize = n;
    while k > 0
        invariant
            n == y@.len(),
            n <= 16,
            k <= n,
            roomy(d, n as int),
            t@.len() == d.len(),
            forall|j: int| 0 <= j < d.len() ==> #[trigger] t@[j] == d[j],
            up.len() == n,
            forall|i: int| 0 <= i < n ==> sum_first(d, i + 1) <= #[trigger] up[i] <= 100_000,
            next == lowered(up, d, k as int),
            forall|j: int| 0 <= j < k ==> #[trigger] y@[j] == up[j],
            forall|j: int| k <= j < n ==> #[trigger] y@[j] == lowered(up, d, j),
        decreases k,
    {
        k = k - 1;
        proof {
            lemma_lowered(up, d, k + 1);
            assert(1 <= d[k + 1] <= 1000);
            lemma_sum_most(d, k + 2);
        }
        let high: i32 = next - t[k + 1] as i32;
        if y[k] > high {
            y[k] = high;
        }
        next = y[k];
    }
    let mut out: Vec<i16> = Vec::new();
    for j in 0..n
        invariant
            n == y@.len(),
            up.len() == n,
            forall|i: int| 0 <= i < n ==> #[trigger] y@[i] == lowered(up, d, i),
            out@.len() == j,
            forall|i: int|
                0 <= i < j ==> #[trigger] out@[i] == limited(lowered(up, d, i), 1, 32767),
    {
        out.push(clamp_i32(y[j], 1, 32767) as i16);
    }
    assert(short_ints(out@) =~= stabilised(short_ints(nlsf_in@), d));
    assert forall|i: int| 0 <= i < n implies 1 <= #[trigger] out@[i] by {
        assert(out@[i] == limited(lowered(up, d, i), 1, 32767));
    }
    out
}

/// The mathematical value of each entry.
pub open spec fn short_ints(s: Seq<i16>) -> Seq<int> {
    Seq::new(s.len(), |i: int| s[i] as int)
}

/// The stabilised NLSFs keep their least distances, and so rise strictly within the range.
pub proof fn law_stabilised_spaced(x: Seq<int>, is_wb: bool)
    requires
        x.len() == (if is_wb {
            16int
        } else {
            10
        }),
        forall|i: int| 0 <= i < x.len() ==> -32768 <= #[trigger] x[i] <= 32767,
    ensures
        spaced(stabilised(x, min_deltas(is_wb)), min_deltas(is_wb)),
        forall|i: int|
            0 <= i < x.len() ==> 1 <= #[trigger] stabilised(x, min_deltas(is_wb))[i] <= 32767,
{
    let d = min_deltas(is_wb);
    let n = x.len() as int;
    lemma_min_deltas(is_wb, n);
    lemma_relaxed_tame(x, d, 20);
    let r = relaxed(x, d, 20);
    lemma_sort_range(r);
    let z = r.sort();
    let up = all_lifted(z, d);
    assert forall|i: int| 0 <= i < n implies sum_first(d, i + 1) <= #[trigger] up[i]
        <= 100_000 by {
        lemma_lifted(z, d, i);
        lemma_sum_grows(d, i + 1, n + 1);
    }
    let s = stabilised(x, d);
    assert forall|i: int| 0 <= i < n implies #[trigger] s[i] == lowered(up, d, i) && 1 <= s[i]
        <= 32767 by {
        lemma_lowered(up, d, i);
        lemma_lowered(up, d, i + 1);
        assert(1 <= d[i + 1] <= 1000);
        assert(1 <= d[0] <= 1000);
        assert(sum_first(d, 1) == sum_first(d, 0) + d[0]);
        lemma_sum_grows(d, 1, i + 1);
    }
    assert forall|i: int| 0 <= i <= n implies #[trigger] slack(s, d, i) >= 0 by {
        if i == 0 {
            lemma_lowered(up, d, 0);
            assert(s[0] == lowered(up, d, 0));
            assert(sum_first(d, 1) == sum_first(d, 0) + d[0]);
        } else {
            lemma_lowered(up, d, i - 1);
            assert(s[i - 1] == lowered(up, d, i - 1));
            if i < n {
                assert(s[i] == lowered(up, d, i));
            }
        }
    }
}

/// Adjustments stay in range.
proof fn lemma_relaxed_tame(x: Seq<int>, d: Seq<int>, rounds: int)
    requires
        roomy(d, x.len() as int),
        x.len() >= 1,
        forall|i: int| 0 <= i < x.len() ==> -32768 <= #[trigger] x[i] <= 32768,
    ensures
        relaxed(x, d, rounds).len() == x.len(),
        forall|i: int|
            0 <= i < x.len() ==> -32768 <= #[trigger] relaxed(x, d, rounds)[i] <= 32768,
    decreases rounds,
{
    let n = x.len() as int;
    let i = tightest(x, d, n + 1);
    lemma_tightest(x, d, n + 1);
    if !(rounds <= 0 || slack(x, d, i) >= 0) {
        let y = adjusted(x, d, i);
        assert(1 <= d[i] <= 1000);
        assert(1 <= d[n] <= 1000);
        assert(1 <= d[0] <= 1000);
        assert forall|k: int| 0 <= k < n implies -32768 <= #[trigger] y[k] <= 32768 by {
            assert(-32768 <= x[k] <= 32768);
            if 0 < i < n {
                lemma_sum_most(d, i);
                lemma_sum_grows(d, i + 1, n);
                assert(sum_first(d, n + 1) == sum_first(d, n) + d[n]);
                assert(sum_first(d, i + 1) == sum_first(d, i) + d[i]);
            }
        }
        lemma_relaxed_tame(y, d, rounds - 1);
    }
}

/// NLSFs that already keep their least distances are left as they are.
pub proof fn law_spaced_kept(x: Seq<int>, is_wb: bool)
    requires
        x.len() == (if is_wb {
            16int
        } else {
            10
        }),
        spaced(x, min_deltas(is_wb)),
    ensures
        stabilised(x, min_deltas(is_wb)) == x,
{
    let d = min_deltas(is_wb);
    let n = x.len() as int;
    lemma_min_deltas(is_wb, n);
    lemma_tightest(x, d, n + 1);
    assert(slack(x, d, tightest(x, d, n + 1)) >= 0);
    assert(relaxed(x, d, 20) == x);
    assert forall|i: int, j: int| 0 <= i <= j < n implies x[i] <= x[j] by {
        lemma_spaced_rises(x, d, i, j);
    }
    lemma_sort_is(x, x);
    assert forall|k: int| -1 <= k < n implies #[trigger] lifted(x, d, k) == (if k < 0 {
        0
    } else {
        x[k]
    }) by {
        lemma_lifted_kept(x, d, k);
    }
    let up = all_lifted(x, d);
    assert(up =~= x);
    assert forall|k: int| 0 <= k < n implies stabilised(x, d)[k] == x[k] by {
        lemma_lowered_kept(x, d, k);
        lemma_spaced_rises(x, d, 0, k);
        lemma_spaced_rises(x, d, k, n - 1);
        assert(slack(x, d, 0) >= 0);
        assert(slack(x, d, n) >= 0);
        assert(1 <= d[0] <= 1000);
        assert(1 <= d[n] <= 1000);
    }
    assert(stabilised(x, d) =~= x);
}

proof fn lemma_spaced_rises(x: Seq<int>, d: Seq<int>, i: int, j: int)
    requires
        spaced(x, d),
        roomy(d, x.len() as int),
        0 <= i <= j < x.len(),
    ensures
        x[i] <= x[j],
    decreases j - i,
{
    if i < j {
        lemma_spaced_rises(x, d, i, j - 1);
        assert(slack(x, d, j) >= 0);
        assert(1 <= d[j] <= 1000);
    }
}

proof fn lemma_lifted_kept(x: Seq<int>, d: Seq<int>, k: int)
    requires
        spaced(x, d),
        -1 <= k < x.len(),
    ensures
        lifted(x, d, k) == (if k < 0 {
            0
        } else {
            x[k]
        }),
    decreases k + 1,
{
    if k >= 0 {
        lemma_lifted_kept(x, d, k - 1);
        assert(slack(x, d, k) >= 0);
    }
}

proof fn lemma_lowered_kept(x: Seq<int>, d: Seq<int>, k: int)
    requires
        spaced(x, d),
        0 <= k <= x.len(),
    ensures
        lowered(x, d, k) == (if k == x.len() {
            32768
        } else {
            x[k]
        }),
    decreases x.len() - k,
{
    if k < x.len() {
        lemma_lowered_kept(x, d, k + 1);
        assert(slack(x, d, k + 1) >= 0);
    }
}

/// The least distances are those of the tables.
pub proof fn law_min_delta_entries(is_wb: bool, k: int)
    requires
        0 <= k < (if is_wb {
            17int
        } else {
            11int
        }),
    ensures
        is_wb ==> min_deltas(is_wb).len() == 17 && min_deltas(is_wb)[k]
            == NLSF_WB_MIN_DELTA_Q15@[k],
        !is_wb ==> min_deltas(is_wb).len() == 11 && min_deltas(is_wb)[k]
            == NLSF_NBMB_MIN_DELTA_Q15@[k],
{
    reveal(min_deltas);
}

/// What it means to keep all distances: the first is no less than the first distance, neighbours
/// are no closer than theirs, and the last is no closer to 32768 than the last distance.
pub proof fn law_spaced_means(x: Seq<int>, d: Seq<int>)
    requires
        x.len() >= 1,
        d.len() == x.len() + 1,
    ensures
        spaced(x, d) <==> {
            &&& x[0] >= d[0]
            &&& 32768 - x[x.len() - 1] >= d[x.len() as int]
            &&& forall|i: int| 1 <= i < x.len() ==> #[trigger] x[i] - x[i - 1] >= d[i]
        },
{
    let n = x.len() as int;
    assert(slack(x, d, 0) == x[0] - d[0]);
    assert(slack(x, d, n) == 32768 - x[n - 1] - d[n]);
    assert forall|i: int| 1 <= i < n implies slack(x, d, i) == #[trigger] x[i] - x[i - 1]
        - d[i] by {}
    if x[0] >= d[0] && 32768 - x[n - 1] >= d[n] && forall|i: int|
        1 <= i < n ==> #[trigger] x[i] - x[i - 1] >= d[i] {
        assert forall|i: int| 0 <= i <= n implies #[trigger] slack(x, d, i) >= 0 by {
            if 1 <= i < n {
                assert(x[i] - x[i - 1] >= d[i]);
            }
        }
    }
    if spaced(x, d) {
        assert forall|i: int| 1 <= i < n implies #[trigger] x[i] - x[i - 1] >= d[i] by {
            assert(slack(x, d, i) >= 0);
        }
    }
}

/// Adjustments are made where a distance falls short by the most, at the first such place.
pub proof fn law_tightest_is_tightest(x: Seq<int>, d: Seq<int>, i: int)
    requires
        0 <= i <= x.len(),
    ensures
        ({
            let t = tightest(x, d, x.len() as int + 1);
            &&& 0 <= t <= x.len()
            &&& slack(x, d, t) <= slack(x, d, i)
            &&& i < t ==> slack(x, d, t) < slack(x, d, i)
        }),
{
    lemma_tightest(x, d, x.len() as int + 1);
    if i < tightest(x, d, x.len() as int + 1) {
        lemma_tightest_first(x, d, x.len() as int + 1, i);
    }
}

proof fn lemma_tightest_first(x: Seq<int>, d: Seq<int>, n: int, i: int)
    requires
        1 <= n <= x.len() + 1,
        0 <= i < tightest(x, d, n),
    ensures
        slack(x, d, tightest(x, d, n)) < slack(x, d, i),
    decreases n,
{
    if n > 1 {
        let b = tightest(x, d, n - 1);
        lemma_tightest(x, d, n - 1);
        if tightest(x, d, n) == b {
            lemma_tightest_first(x, d, n - 1, i);
        } else {
            assert(slack(x, d, b) <= slack(x, d, i));
        }
    }
}

/// An adjustment moves two neighbours that are too close to their least distance and leaves the
/// others. Their middle stays where it was, to within a half, unless there would be no room for the
/// least distances below or above. At the ends a single one moves to its least distance.
pub proof fn law_adjustment(x: Seq<int>, d: Seq<int>, i: int)
    requires
        x.len() >= 1,
        d.len() == x.len() + 1,
        0 <= i <= x.len(),
    ensures
        ({
            let (y, n) = (adjusted(x, d, i), x.len() as int);
            &&& y.len() == n
            &&& forall|j: int| 0 <= j < n && j != i && j != i - 1 ==> #[trigger] y[j] == x[j]
            &&& i == 0 ==> y[0] == d[0]
            &&& i == n ==> 32768 - y[n - 1] == d[n]
            &&& 0 < i < n ==> {
                let (low, high) = (sum_first(d, i), sum_first(d, n + 1) - sum_first(d, i + 1));
                let c = y[i - 1] + d[i] / 2;
                &&& y[i] - y[i - 1] == d[i]
                &&& low + d[i] / 2 <= 32768 - d[i] / 2 - high ==> y[i - 1] >= low && c + d[i] / 2
                    + high <= 32768
                &&& c < 32768 - d[i] / 2 - high ==> x[i - 1] + x[i] <= 2 * c
                &&& c > low + d[i] / 2 ==> 2 * c <= x[i - 1] + x[i] + 1
            }
        }),
{
}

/// NLSFs that one adjustment puts right are adjusted once and no more.
pub proof fn law_one_adjustment(x: Seq<int>, is_wb: bool)
    requires
        x.len() == (if is_wb {
            16int
        } else {
            10
        }),
        !spaced(x, min_deltas(is_wb)),
        spaced(
            adjusted(
                x,
                min_deltas(is_wb),
                tightest(x, min_deltas(is_wb), x.len() as int + 1),
            ),
            min_deltas(is_wb),
        ),
    ensures
        stabilised(x, min_deltas(is_wb)) == adjusted(
            x,
            min_deltas(is_wb),
            tightest(x, min_deltas(is_wb), x.len() as int + 1),
        ),
{
    let d = min_deltas(is_wb);
    let n = x.len() as int;
    let i = tightest(x, d, n + 1);
    lemma_tightest(x, d, n + 1);
    if slack(x, d, i) >= 0 {
        assert(spaced(x, d));
    }
    let y = adjusted(x, d, i);
    assert(y.len() == n);
    lemma_tightest(y, d, n + 1);
    assert(slack(y, d, tightest(y, d, n + 1)) >= 0);
    assert(relaxed(y, d, 19) == y);
    assert(relaxed(x, d, 20) == y);
    assert(relaxed(y, d, 20) == y);
    law_spaced_kept(y, is_wb);
}

/// NLSFs that twenty adjustments put right are not touched any more.
pub proof fn law_enough_adjustments(x: Seq<int>, is_wb: bool)
    requires
        x.len() == (if is_wb {
            16int
        } else {
            10
        }),
        spaced(relaxed(x, min_deltas(is_wb), 20), min_deltas(is_wb)),
        relaxed(x, min_deltas(is_wb), 20).len() == x.len(),
    ensures
        stabilised(x, min_deltas(is_wb)) == relaxed(x, min_deltas(is_wb), 20),
{
    let d = min_deltas(is_wb);
    let y = relaxed(x, d, 20);
    let n = y.len() as int;
    lemma_min_deltas(is_wb, n);
    lemma_tightest(y, d, n + 1);
    assert(slack(y, d, tightest(y, d, n + 1)) >= 0);
    assert(relaxed(y, d, 20) == y);
    law_spaced_kept(y, is_wb);
}

/// Spreading from below raises entries to the least that keep their distances: none is lowered, and
/// entries that are no lower and keep their distances from below are no lower than the raised ones.
pub proof fn law_lifted_is_least(x: Seq<int>, d: Seq<int>, y: Seq<int>, k: int)
    requires
        y.len() == x.len(),
        0 <= k < x.len(),
        forall|j: int| 0 <= j < x.len() ==> x[j] <= #[trigger] y[j],
        y[0] >= d[0],
        forall|j: int| 1 <= j < x.len() ==> #[trigger] y[j] >= y[j - 1] + d[j],
    ensures
        x[k] <= lifted(x, d, k) <= y[k],
        lifted(x, d, 0) >= d[0],
        k > 0 ==> lifted(x, d, k) >= lifted(x, d, k - 1) + d[k],
    decreases k,
{
    assert(lifted(x, d, -1) == 0);
    if k > 0 {
        law_lifted_is_least(x, d, y, k - 1);
        assert(y[k] >= y[k - 1] + d[k]);
    }
    assert(x[k] <= y[k]);
}

/// Spreading from above lowers entries to the greatest that keep their distances.
pub proof fn law_lowered_is_greatest(x: Seq<int>, d: Seq<int>, y: Seq<int>, k: int)
    requires
        y.len() == x.len(),
        0 <= k < x.len(),
        forall|j: int| 0 <= j < x.len() ==> #[trigger] y[j] <= x[j],
        y[x.len() - 1] <= 32768 - d[x.len() as int],
        forall|j: int| 0 <= j < x.len() - 1 ==> #[trigger] y[j] <= y[j + 1] - d[j + 1],
    ensures
        y[k] <= lowered(x, d, k) <= x[k],
        lowered(x, d, x.len() - 1) <= 32768 - d[x.len() as int],
        k < x.len() - 1 ==> lowered(x, d, k) <= lowered(x, d, k + 1) - d[k + 1],
    decreases x.len() - k,
{
    assert(lowered(x, d, x.len() as int) == 32768);
    if k < x.len() - 1 {
        law_lowered_is_greatest(x, d, y, k + 1);
        assert(y[k] <= y[k + 1] - d[k + 1]);
    }
    assert(y[k] <= x[k]);
}

} // verus!
