//! The search for a pitch lag: which lags are compared and what the chosen one means.
//!
//! Correlations are measured on samples and are the caller's to say.
use vstd::prelude::*;

use crate::arith::clamp_i32;
use crate::silk::ltp::{lag_in_range, longest_lag, pitch_lag_bounds, shortest_lag};
use crate::toc::OpusBandwidth;

verus! {

/// How many samples are averaged into one before lags are compared.
pub open spec fn thinning(bw: OpusBandwidth) -> int {
    if bw is Narrowband {
        1
    } else {
        2
    }
}

/// How many samples are averaged into one before lags are compared.
pub fn downsample_ratio(bw: OpusBandwidth) -> (r: usize)
    ensures
        r == thinning(bw),
{
    match bw {
        OpusBandwidth::Narrowband => 1,
        _ => 2,
    }
}

/// Longest lag that is compared in `len` thinned samples.
pub open spec fn last_lag(bw: OpusBandwidth, len: int) -> int {
    let most = longest_lag(bw) / thinning(bw);
    if most < len - 1 {
        most
    } else {
        len - 1
    }
}

/// Shortest lag that is compared.
pub open spec fn first_lag(bw: OpusBandwidth) -> int {
    shortest_lag(bw) / thinning(bw)
}

/// The lags that are compared in `len` thinned samples, from the first to the last; none where
/// there are too few samples.
pub fn search_window(bw: OpusBandwidth, len: usize) -> (w: Option<(i32, i32)>)
    requires
        len <= i32::MAX,
    ensures
        match w {
            Some((lo, hi)) => len >= 32 && lo == first_lag(bw) && hi == last_lag(bw, len as int)
                && 2 <= lo < hi < len,
            None => len < 32 || last_lag(bw, len as int) <= first_lag(bw),
        },
{
    if len < 32 {
        return None;
    }
    let (shortest, longest): (i32, i32) = pitch_lag_bounds(bw);
    let (lo, most): (i32, i32) = match bw {
        OpusBandwidth::Narrowband => (shortest, longest),
        _ => (shortest / 2, longest / 2),
    };
    let end: i32 = len as i32 - 1;
    let hi: i32 = if most < end {
        most
    } else {
        end
    };
    if hi <= lo {
        return None;
    }
    Some((lo, hi))
}

/// A half or a third of `best`, rounded down.
pub open spec fn fraction_lag(best: int, k: int) -> int {
    best / k
}

/// The lags around a half or a third of `best`, within those that were compared: one on either
/// side. None where that is shorter than all of them.
pub fn fraction_window(best: i32, k: i32, lo: i32, hi: i32) -> (w: Option<(i32, i32)>)
    requires
        k == 2 || k == 3,
        2 <= lo <= best <= hi < i32::MAX,
    ensures
        match w {
            Some((a, b)) => {
                &&& best as int / k as int >= lo
                &&& a == (if best as int / k as int > lo {
                    best as int / k as int - 1
                } else {
                    lo as int
                })
                &&& b == best as int / k as int + 1
                &&& lo <= a <= b <= hi
                &&& b == fraction_lag(best as int, k as int) + 1
                &&& a == b - 2 || a == lo && a == b - 1
            },
            None => (best as int / k as int) < lo,
        },
{
    let cand: i32 = if k == 2 {
        best / 2
    } else {
        best / 3
    };
    proof {
        assert(k == 2 ==> best as int / k as int == best as int / 2);
        assert(k == 3 ==> best as int / k as int == best as int / 3);
    }
    if cand < lo {
        return None;
    }
    let a: i32 = if cand - 1 < lo {
        lo
    } else {
        cand - 1
    };
    let b: i32 = if cand + 1 > hi {
        hi
    } else {
        cand + 1
    };
    Some((a, b))
}

/// The lag at the internal rate that a lag of thinned samples stands for.
pub fn internal_lag(bw: OpusBandwidth, lag: i32) -> (l: i32)
    requires
        0 <= lag <= 0x3fff_ffff,
    ensures
        l == lag_in_range(bw, lag * thinning(bw)),
{
    let (shortest, longest): (i32, i32) = pitch_lag_bounds(bw);
    let wide: i32 = match bw {
        OpusBandwidth::Narrowband => lag,
        _ => lag * 2,
    };
    clamp_i32(wide, shortest, longest)
}

/// Every lag that is compared stands for one that can be sent.
pub proof fn law_compared_lags_in_range(bw: OpusBandwidth, lag: int)
    requires
        first_lag(bw) <= lag <= longest_lag(bw) / thinning(bw),
    ensures
        shortest_lag(bw) <= lag * thinning(bw) <= longest_lag(bw),
        lag_in_range(bw, lag * thinning(bw)) == lag * thinning(bw),
{
    if bw is Narrowband {
        assert(lag * thinning(bw) == lag);
        assert(shortest_lag(bw) / 1 == shortest_lag(bw) && longest_lag(bw) / 1 == longest_lag(bw));
    } else {
        assert(lag * thinning(bw) == 2 * lag);
        assert(first_lag(bw) == shortest_lag(bw) / 2);
        assert(longest_lag(bw) / thinning(bw) == longest_lag(bw) / 2);
    }
}

/// Lags are compared at 8 kHz, or at 6 kHz in the middle bandwidth, from 2 ms to 18 ms as far as
/// the samples go.
pub proof fn law_compared_lags(bw: OpusBandwidth, len: int)
    ensures
        first_lag(bw) * thinning(bw) == shortest_lag(bw),
        bw is Narrowband ==> thinning(bw) == 1,
        first_lag(bw) == (if bw is Mediumband {
            12int
        } else {
            16
        }),
        last_lag(bw, len) <= len - 1,
        last_lag(bw, len) <= 9 * first_lag(bw),
        last_lag(bw, len) == len - 1 || last_lag(bw, len) == 9 * first_lag(bw),
{
    assert(shortest_lag(bw) / 1 == shortest_lag(bw) && longest_lag(bw) / 1 == longest_lag(bw));
    if !(bw is Narrowband) {
        assert(first_lag(bw) * thinning(bw) == 2 * first_lag(bw)) by (nonlinear_arith)
            requires
                thinning(bw) == 2,
        ;
        assert(first_lag(bw) == shortest_lag(bw) / 2);
        assert(longest_lag(bw) / thinning(bw) == longest_lag(bw) / 2);
    }
}

/// A half or a third of a lag is the largest number that, taken twice or three times, does not
/// exceed the lag.
pub proof fn law_fraction_of_lag(best: int, k: int)
    requires
        k == 2 || k == 3,
    ensures
        0 <= best - k * fraction_lag(best, k) < k,
{
    if k == 2 {
        assert(fraction_lag(best, k) == best / 2);
        assert(k * fraction_lag(best, k) == 2 * fraction_lag(best, k));
    } else {
        assert(fraction_lag(best, k) == best / 3);
        assert(k * fraction_lag(best, k) == 3 * fraction_lag(best, k));
    }
}

} // verus!
