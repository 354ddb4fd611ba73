//! From line spectral frequencies to the polynomial of a prediction filter.
//!
//! The frequencies are the angles of the roots of two symmetric polynomials. Each polynomial is
//! built up root pair by root pair; by symmetry only its lower half is kept.
use vstd::prelude::*;

use crate::arith::{lemma_shr16_wide, lemma_shr3};

verus! {

/// Coefficient `j` of the product of the first `k + 1` root pairs with cosines `c` (Q17), in Q16.
/// With `mirror`, the coefficient just above the kept half is that of the same distance below the
/// middle; without, it counts as zero.
pub open spec fn cell(c: Seq<int>, mirror: bool, k: int, j: int) -> int
    decreases k, j,
{
    if k < 0 || j < 0 || j > k + 2 {
        0
    } else if j == k + 2 {
        if mirror {
            cell(c, mirror, k, k)
        } else {
            0
        }
    } else if k == 0 {
        if j == 0 {
            65536
        } else {
            -c[0]
        }
    } else {
        cell(c, mirror, k - 1, j) + cell(c, mirror, k - 1, j - 2) - (c[k] * cell(
            c,
            mirror,
            k - 1,
            j - 1,
        ) + 32768) / 65536
    }
}

/// The cosines that belong to one of the two polynomials: every second entry from `parity` on.
pub open spec fn side(c: Seq<int>, parity: int) -> Seq<int> {
    Seq::new((c.len() / 2) as nat, |k: int| c[2 * k + parity])
}

/// Difference of neighbouring coefficients of the antisymmetric polynomial.
pub open spec fn q_diff(c: Seq<int>, mirror: bool, k: int) -> int {
    let d2 = (c.len() / 2) as int;
    let q = side(c, 1);
    cell(q, mirror, d2 - 1, k + 1) - cell(q, mirror, d2 - 1, k)
}

/// Sum of neighbouring coefficients of the symmetric polynomial.
pub open spec fn p_sum(c: Seq<int>, mirror: bool, k: int) -> int {
    let d2 = (c.len() / 2) as int;
    let p = side(c, 0);
    cell(p, mirror, d2 - 1, k + 1) + cell(p, mirror, d2 - 1, k)
}

/// Prediction coefficient `k` (Q17) for the ordered cosines `c`.
pub open spec fn lpc_q17(c: Seq<int>, mirror: bool, k: int) -> int {
    let n = c.len() as int;
    if k < n / 2 {
        -q_diff(c, mirror, k) - p_sum(c, mirror, k)
    } else {
        q_diff(c, mirror, n - 1 - k) - p_sum(c, mirror, n - 1 - k)
    }
}

/// Every second entry of `c`, from the first on.
pub open spec fn evens(c: Seq<int>) -> Seq<int> {
    Seq::new((c.len() / 2) as nat, |k: int| c[2 * k])
}

/// Every second entry of `c`, from the second on.
pub open spec fn odds(c: Seq<int>) -> Seq<int> {
    Seq::new((c.len() / 2) as nat, |k: int| c[2 * k + 1])
}

/// The filter is half the sum of two products: the symmetric polynomial, of the root pairs at even
/// places, times `1 + z`, and the antisymmetric one, of those at odd places, times `1 - z`. So
/// coefficient `k` and the one at the mirrored place add up to minus twice the sum of coefficients
/// `k + 1` and `k` of the first polynomial, and differ by minus twice the difference of those of
/// the second.
pub proof fn law_mirrored_coefficients(c: Seq<int>, mirror: bool, k: int)
    requires
        c.len() % 2 == 0,
        0 <= k < c.len() / 2,
    ensures
        ({
            let last = c.len() / 2 - 1;
            let (a, b) = (lpc_q17(c, mirror, k), lpc_q17(c, mirror, c.len() - 1 - k));
            &&& a + b == -2 * (cell(evens(c), mirror, last, k + 1) + cell(
                evens(c),
                mirror,
                last,
                k,
            ))
            &&& a - b == -2 * (cell(odds(c), mirror, last, k + 1) - cell(odds(c), mirror, last, k))
        }),
{
    assert(side(c, 0) =~= evens(c));
    assert(side(c, 1) =~= odds(c));
}

/// The polynomial of one root pair with cosine `c[0] / 2` (Q16) begins `1 - c[0] z`.
pub proof fn law_first_root_pair(c: Seq<int>, mirror: bool)
    ensures
        cell(c, mirror, 0, 0) == 65536,
        cell(c, mirror, 0, 1) == -c[0],
{
}

/// One more root pair multiplies a polynomial by `1 - c[k] z + z^2`, each coefficient to the
/// nearest whole number, halves up. Coefficients before the first are zero, and the one just past
/// the kept half is the mirror image of the one before the middle, or zero.
pub proof fn law_root_pair_multiplies(c: Seq<int>, mirror: bool, k: int, j: int)
    requires
        1 <= k,
        0 <= j <= k + 1,
    ensures
        ({
            let rest = 65536 * (cell(c, mirror, k, j) - cell(c, mirror, k - 1, j) - cell(
                c,
                mirror,
                k - 1,
                j - 2,
            )) + c[k] * cell(c, mirror, k - 1, j - 1);
            -32768 <= rest <= 32767
        }),
        cell(c, mirror, k - 1, -1) == 0,
        cell(c, mirror, k - 1, -2) == 0,
        mirror ==> cell(c, mirror, k - 1, k + 1) == cell(c, mirror, k - 1, k - 1),
        !mirror ==> cell(c, mirror, k - 1, k + 1) == 0,
{
    let x = c[k] * cell(c, mirror, k - 1, j - 1);
    let t = (x + 32768) / 65536;
    assert(cell(c, mirror, k, j) == cell(c, mirror, k - 1, j) + cell(c, mirror, k - 1, j - 2) - t);
}

/// The sum of the first `n` entries.
pub open spec fn sum_of(c: Seq<int>, n: int) -> int
    decreases n,
{
    if n <= 0 {
        0
    } else {
        sum_of(c, n - 1) + c[n - 1]
    }
}

proof fn lemma_low_cells(c: Seq<int>, mirror: bool, k: int)
    requires
        0 <= k,
    ensures
        cell(c, mirror, k, 0) == 65536,
        cell(c, mirror, k, 1) == -sum_of(c, k + 1),
    decreases k,
{
    reveal_with_fuel(sum_of, 2);
    if k > 0 {
        lemma_low_cells(c, mirror, k - 1);
        let ck = c[k];
        assert(cell(c, mirror, k - 1, -1) == 0 && cell(c, mirror, k - 1, -2) == 0);
        assert(ck * 0 == 0) by (nonlinear_arith);
        assert(ck * 65536 + 32768 == 65536 * ck + 32768);
        assert((65536 * ck + 32768) / 65536 == ck);
        assert(32768int / 65536 == 0);
    }
}

/// The first coefficient of a filter is the sum of all cosines, and the last is the sum of those at
/// even places less those at odd places, less 2 (Q16).
pub proof fn law_outer_coefficients(c: Seq<int>, mirror: bool)
    requires
        c.len() % 2 == 0,
        c.len() >= 2,
    ensures
        ({
            let n = (c.len() / 2) as int;
            let (e, o) = (sum_of(evens(c), n), sum_of(odds(c), n));
            &&& lpc_q17(c, mirror, 0) == e + o
            &&& lpc_q17(c, mirror, c.len() - 1) == e - o - 131072
        }),
{
    let n = (c.len() / 2) as int;
    law_mirrored_coefficients(c, mirror, 0);
    lemma_low_cells(evens(c), mirror, n - 1);
    lemma_low_cells(odds(c), mirror, n - 1);
}

/// A point between two entries lies on the straight line between them: 8 times it is the weighted
/// sum of both, to the nearest whole eighth. It is 32 times the entry at either end.
pub proof fn law_between(a: int, b: int, f: int)
    ensures
        -4 <= a * (256 - f) + b * f - 8 * between(a, b, f) <= 3,
        between(a, b, 0) == 32 * a,
        between(a, b, 256) == 32 * b,
{
    assert(a * (256 - f) + b * f == a * 256 + (b - a) * f) by (nonlinear_arith);
}

/// Ordering moves entry `k` to place `ord[k]`.
pub proof fn law_ordered_places(ord: Seq<int>, values: Seq<int>, k: int)
    requires
        permutation(ord),
        0 <= k < ord.len(),
    ensures
        ordered(ord, values)[ord[k]] == values[k],
        ordered(ord, values).len() == ord.len(),
{
    let i = ord[k];
    assert(ord.contains(i));
    let j = ord.index_of(i);
    assert(ord[j] == i);
    assert(j == k);
}

/// Cosines of modest size.
pub open spec fn cosines(c: Seq<int>) -> bool {
    forall|k: int| 0 <= k < c.len() ==> -131072 <= #[trigger] c[k] <= 131072
}

/// `131072 * 5^k`.
pub open spec fn cell_bound(k: int) -> int
    decreases k,
{
    if k <= 0 {
        131072
    } else {
        5 * cell_bound(k - 1)
    }
}

proof fn lemma_bound_grows(j: int, k: int)
    requires
        j <= k,
    ensures
        131072 <= cell_bound(j) <= cell_bound(k),
    decreases k,
{
    if k > 0 {
        lemma_bound_grows(if j < k { j } else { k - 1 }, k - 1);
    }
}

/// Coefficients stay within five times the bound of the step before.
pub proof fn lemma_cell_bound(c: Seq<int>, mirror: bool, k: int, j: int)
    requires
        cosines(c),
        0 <= k < c.len(),
    ensures
        -cell_bound(k) <= cell(c, mirror, k, j) <= cell_bound(k),
    decreases k, j,
{
    lemma_bound_grows(0, k);
    if j < 0 || j > k + 2 {
    } else if j == k + 2 {
        if mirror {
            lemma_cell_bound(c, mirror, k, k);
        }
    } else if k == 0 {
        assert(-131072 <= c[0] <= 131072);
    } else {
        lemma_cell_bound(c, mirror, k - 1, j);
        lemma_cell_bound(c, mirror, k - 1, j - 2);
        lemma_cell_bound(c, mirror, k - 1, j - 1);
        lemma_bound_grows(0, k - 1);
        let b = cell_bound(k - 1);
        let x = cell(c, mirror, k - 1, j - 1);
        let ck = c[k];
        assert(-131072 <= ck <= 131072);
        assert(-131072 * b <= ck * x <= 131072 * b) by (nonlinear_arith)
            requires
                -131072 <= ck <= 131072,
                -b <= x <= b,
        ;
    }
}

/// Builds the coefficients of one polynomial up to and including the middle.
pub fn find_poly(c: &Vec<i32>, mirror: bool) -> (row: Vec<i64>)
    requires
        1 <= c@.len() <= 8,
        cosines(wide_ints(c@)),
    ensures
        row@.len() == c@.len() + 1,
        forall|j: int|
            0 <= j < row@.len() ==> #[trigger] row@[j] == cell(
                wide_ints(c@),
                mirror,
                c@.len() - 1,
                j,
            ) && -20_000_000_000 <= row@[j] <= 20_000_000_000,
{
    let d2: usize = c.len();
    let ghost v = wide_ints(c@);
    let mut prev: Vec<i64> = Vec::new();
    prev.push(65536);
    prev.push(-(c[0] as i64));
    proof {
        reveal_with_fuel(cell_bound, 9);
        assert(-131072 <= v[0] <= 131072);
    }
    let mut k: usize = 1;
    while k < d2
        invariant
            d2 == c@.len(),
            1 <= k <= d2 <= 8,
            v == wide_ints(c@),
            cosines(v),
            prev@.len() == k + 1,
            forall|j: int| 0 <= j <= k ==> #[trigger] prev@[j] == cell(v, mirror, k - 1, j),
            cell_bound(7) == 131072 * 78125,
        decreases d2 - k,
    {
        let ck: i64 = c[k] as i64;
        let mut curr: Vec<i64> = Vec::new();
        let mut j: usize = 0;
        while j <= k + 1
            invariant
                d2 == c@.len(),
                1 <= k < d2 <= 8,
                v == wide_ints(c@),
                cosines(v),
                ck == v[k as int],
                prev@.len() == k + 1,
                forall|i: int| 0 <= i <= k ==> #[trigger] prev@[i] == cell(v, mirror, k - 1, i),
                cell_bound(7) == 131072 * 78125,
                j <= k + 2,
                curr@.len() == j,
                forall|i: int| 0 <= i < j ==> #[trigger] curr@[i] == cell(v, mirror, k as int, i),
            decreases k + 2 - j,
        {
            proof {
                lemma_cell_bound(v, mirror, k - 1, j as int);
                lemma_cell_bound(v, mirror, k - 1, j - 1);
                lemma_cell_bound(v, mirror, k - 1, j - 2);
                lemma_bound_grows(k - 1, 7);
                assert(-131072 <= v[k as int] <= 131072);
            }
            let here: i64 = if j <= k {
                prev[j]
            } else if mirror {
                prev[k - 1]
            } else {
                0
            };
            let two: i64 = if j >= 2 {
                prev[j - 2]
            } else {
                0
            };
            let one: i64 = if j >= 1 {
                prev[j - 1]
            } else {
                0
            };
            assert(one == cell(v, mirror, k - 1, j - 1));
            assert(two == cell(v, mirror, k - 1, j - 2));
            assert(here == cell(v, mirror, k - 1, j as int));
            assert(-2_000_000_000_000_000 <= ck * one <= 2_000_000_000_000_000)
                by (nonlinear_arith)
                requires
                    -131072 <= ck <= 131072,
                    -131072 * 78125 <= one <= 131072 * 78125,
            ;
            let product: i64 = ck * one + 32768;
            proof {
                lemma_shr16_wide(product);
            }
            curr.push(here + two - (product >> 16));
            j = j + 1;
        }
        prev = curr;
        k = k + 1;
    }
    proof {
        assert forall|j: int| 0 <= j < prev@.len() implies #[trigger] prev@[j] == cell(
            v,
            mirror,
            d2 - 1,
            j,
        ) && -20_000_000_000 <= prev@[j] <= 20_000_000_000 by {
            lemma_cell_bound(v, mirror, d2 - 1, j);
            lemma_bound_grows(d2 - 1, 7);
        }
    }
    prev
}

/// Every second entry of `c` from `parity` on.
fn every_second(c: &Vec<i32>, parity: usize) -> (s: Vec<i32>)
    requires
        parity < 2,
        c@.len() % 2 == 0,
    ensures
        s@.len() == c@.len() / 2,
        wide_ints(s@) == side(wide_ints(c@), parity as int),
{
    let half: usize = c.len() / 2;
    let mut s: Vec<i32> = Vec::new();
    for k in 0..half
        invariant
            parity < 2,
            2 * half == c@.len(),
            c@.len() <= usize::MAX,
            s@.len() == k,
            forall|i: int| 0 <= i < k ==> #[trigger] s@[i] == c@[2 * i + parity],
    {
        s.push(c[2 * k + parity]);
    }
    assert(wide_ints(s@) =~= side(wide_ints(c@), parity as int));
    s
}

/// The prediction coefficients (Q17) for the ordered cosines `c`.
pub fn find_lpc(c: &Vec<i32>, mirror: bool) -> (a: Vec<i64>)
    requires
        2 <= c@.len() <= 16,
        c@.len() % 2 == 0,
        cosines(wide_ints(c@)),
    ensures
        a@.len() == c@.len(),
        forall|k: int|
            0 <= k < a@.len() ==> #[trigger] a@[k] == lpc_q17(wide_ints(c@), mirror, k),
{
    let n: usize = c.len();
    let d2: usize = n / 2;
    let ghost v = wide_ints(c@);
    let even: Vec<i32> = every_second(c, 0);
    let odd: Vec<i32> = every_second(c, 1);
    proof {
        assert forall|k: int| 0 <= k < d2 implies -131072 <= #[trigger] side(v, 0)[k]
            <= 131072 by {
            assert(-131072 <= v[2 * k] <= 131072);
        }
        assert forall|k: int| 0 <= k < d2 implies -131072 <= #[trigger] side(v, 1)[k]
            <= 131072 by {
            assert(-131072 <= v[2 * k + 1] <= 131072);
        }
    }
    let p: Vec<i64> = find_poly(&even, mirror);
    let q: Vec<i64> = find_poly(&odd, mirror);
    let mut a: Vec<i64> = vec![0i64; n];
    for k in 0..d2
        invariant
            n == c@.len(),
            n == 2 * d2,
            v == wide_ints(c@),
            p@.len() == d2 + 1,
            q@.len() == d2 + 1,
            forall|j: int|
                0 <= j <= d2 ==> #[trigger] p@[j] == cell(side(v, 0), mirror, d2 - 1, j)
                    && -20_000_000_000 <= p@[j] <= 20_000_000_000,
            forall|j: int|
                0 <= j <= d2 ==> #[trigger] q@[j] == cell(side(v, 1), mirror, d2 - 1, j)
                    && -20_000_000_000 <= q@[j] <= 20_000_000_000,
            a@.len() == n,
            forall|j: int| 0 <= j < k ==> #[trigger] a@[j] == lpc_q17(v, mirror, j),
            forall|j: int| n - k <= j < n ==> #[trigger] a@[j] == lpc_q17(v, mirror, j),
    {
        assert(p@[k + 1] == cell(side(v, 0), mirror, d2 - 1, k + 1));
        assert(q@[k + 1] == cell(side(v, 1), mirror, d2 - 1, k + 1));
        assert(p@[k as int] == cell(side(v, 0), mirror, d2 - 1, k as int));
        assert(q@[k as int] == cell(side(v, 1), mirror, d2 - 1, k as int));
        let diff: i64 = q[k + 1] - q[k];
        let sum: i64 = p[k + 1] + p[k];
        a[k] = -diff - sum;
        a[n - k - 1] = diff - sum;
    }
    a
}

/// Every index up to the length occurs once.
pub open spec fn permutation(ord: Seq<int>) -> bool {
    &&& forall|k: int| 0 <= k < ord.len() ==> 0 <= #[trigger] ord[k] < ord.len()
    &&& ord.no_duplicates()
    &&& forall|i: int| 0 <= i < ord.len() ==> #[trigger] ord.contains(i)
}

/// `values` with entry `k` moved to place `ord[k]`.
pub open spec fn ordered(ord: Seq<int>, values: Seq<int>) -> Seq<int> {
    Seq::new(ord.len(), |i: int| values[ord.index_of(i)])
}

/// Two tables that undo each other are permutations.
pub proof fn lemma_permutation(ord: Seq<int>, inverse: Seq<int>)
    requires
        ord.len() == inverse.len(),
        forall|k: int|
            0 <= k < ord.len() ==> 0 <= #[trigger] ord[k] < ord.len() && inverse[ord[k]] == k,
        forall|i: int|
            0 <= i < ord.len() ==> 0 <= #[trigger] inverse[i] < ord.len() && ord[inverse[i]] == i,
    ensures
        permutation(ord),
{
    assert forall|i: int| 0 <= i < ord.len() implies #[trigger] ord.contains(i) by {
        assert(ord[inverse[i]] == i);
    }
    assert forall|a: int, b: int| 0 <= a < ord.len() && 0 <= b < ord.len() && a != b implies ord[a]
        != ord[b] by {
        assert(inverse[ord[a]] == a);
        assert(inverse[ord[b]] == b);
    }
}

/// Filling each place from the entry that belongs there gives the ordered sequence.
pub proof fn lemma_ordered(ord: Seq<int>, values: Seq<int>, c: Seq<int>)
    requires
        permutation(ord),
        c.len() == ord.len(),
        forall|k: int| 0 <= k < ord.len() ==> c[#[trigger] ord[k]] == values[k],
    ensures
        c == ordered(ord, values),
{
    assert forall|i: int| 0 <= i < ord.len() implies c[i] == ordered(ord, values)[i] by {
        assert(ord.contains(i));
        let k = ord.index_of(i);
        assert(ord[k] == i);
    }
    assert(c =~= ordered(ord, values));
}

/// A point between two table entries, `f / 256` of the way, scaled up by 32.
pub open spec fn between(a: int, b: int, f: int) -> int {
    (a * 256 + (b - a) * f + 4) / 8
}

/// A point between two table entries, `f / 256` of the way, scaled up by 32.
pub fn interpolate_q17(a: i32, b: i32, f: i32) -> (v: i32)
    requires
        -4096 <= a <= 4096,
        -4096 <= b <= 4096,
        0 <= f <= 255,
    ensures
        v == between(a as int, b as int, f as int),
        -131072 <= v <= 131072,
{
    assert((b - a) * f == f * (b - a)) by (nonlinear_arith);
    assert(-4096 * 256 <= a * 256 + (b - a) * f <= 4096 * 256) by (nonlinear_arith)
        requires
            -4096 <= a <= 4096,
            -4096 <= b <= 4096,
            0 <= f <= 255,
    ;
    assert(-8192 * 255 <= (b - a) * f <= 8192 * 255) by (nonlinear_arith)
        requires
            -4096 <= a <= 4096,
            -4096 <= b <= 4096,
            0 <= f <= 255,
    ;
    let x: i32 = a * 256 + (b - a) * f + 4;
    proof {
        lemma_shr3(x);
    }
    x >> 3
}

/// The mathematical value of each entry.
pub open spec fn byte_ints(s: Seq<u8>) -> Seq<int> {
    Seq::new(s.len(), |i: int| s[i] as int)
}

/// The mathematical value of each entry.
pub open spec fn wide_ints(s: Seq<i32>) -> Seq<int> {
    Seq::new(s.len(), |i: int| s[i] as int)
}

} // verus!
