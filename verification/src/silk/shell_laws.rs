//! What holds of the shell coder as a whole: what is written is what is read, and fitting samples
//! to the coder settles at once.
use oxideav_celt::range_decoder::RangeDecoder;
use vstd::arithmetic::power2::{lemma_pow2_pos, pow2};
use vstd::prelude::*;

use crate::range_coder::{carries, lemma_same_symbol, read_log, source_bytes, symbol, Coded};
use crate::silk::shell::{
    count_log, counts_log, escape_log, excitation_log, halved, lemma_total_bounds,
    lemma_total_split, level_after, low_log, low_row, lows_log, magnitude, magnitudes, naturals,
    read_excitation, shifted, sign_log, signs_log, split_log, splits_log, total, ShellFrame,
};
use crate::silk::shell_encode::{
    lemma_rebuilt_pulses, lemma_sent_block, lemma_shift_range, rate_for, sent_frame, sent_pulses,
};
use crate::silk::shell_quant::{
    block_of, clipped, excess_of, fitted, lemma_fitted, lemma_shifted_natural, quantised,
    quantised_block, rebuilt, shift_from, shift_of,
};
use crate::silk::shell_tables::{least, rate_model, sign_model, split_model, PULSE_COUNT_ICDF};

verus! {

/// Two streams of the same bytes that agree up to a symbol of the same model agree on it.
pub proof fn lemma_next_symbol(
    bytes: Seq<u8>,
    past: Seq<Coded>,
    model: Seq<u8>,
    a: int,
    ta: Seq<Coded>,
    b: int,
    tb: Seq<Coded>,
)
    requires
        a >= 0,
        b >= 0,
        carries(bytes, past + seq![symbol(model, a)] + ta),
        carries(bytes, past + seq![symbol(model, b)] + tb),
    ensures
        a == b,
{
    let la = past + seq![symbol(model, a)] + ta;
    let lb = past + seq![symbol(model, b)] + tb;
    let n = past.len() as int;
    assert(la.take(n) =~= past);
    assert(lb.take(n) =~= past);
    lemma_same_symbol(bytes, la, lb, n);
    assert(la[n] == symbol(model, a));
    assert(lb[n] == symbol(model, b));
}

proof fn lemma_escape_log(rate: int, k: int, j: int)
    requires
        0 <= j < k,
    ensures
        escape_log(rate, k).len() == k,
        escape_log(rate, k)[j] == symbol(PULSE_COUNT_ICDF[level_after(rate, j)]@, 17),
        escape_log(rate, k).take(j) == escape_log(rate, j),
    decreases k,
{
    if j < k - 1 {
        lemma_escape_log(rate, k - 1, j);
        assert(escape_log(rate, k).take(j) =~= escape_log(rate, k - 1).take(j));
    } else {
        lemma_escape_len(rate, j);
        assert(escape_log(rate, k).take(j) =~= escape_log(rate, j));
    }
}

proof fn lemma_escape_len(rate: int, k: int)
    requires
        0 <= k,
    ensures
        escape_log(rate, k).len() == k,
    decreases k,
{
    if k > 0 {
        lemma_escape_len(rate, k - 1);
    }
}

/// A pulse count has at least the escapes of any other that shares its stream.
proof fn lemma_count_shorter(
    bytes: Seq<u8>,
    past: Seq<Coded>,
    rate: int,
    ka: int,
    ca: int,
    ta: Seq<Coded>,
    kb: int,
    cb: int,
    tb: Seq<Coded>,
)
    requires
        0 <= ka,
        0 <= ca <= 16,
        carries(bytes, past + count_log(rate, ka, ca) + ta),
        carries(bytes, past + count_log(rate, kb, cb) + tb),
    ensures
        ka >= kb,
{
    if ka < kb {
        let la = past + count_log(rate, ka, ca) + ta;
        let lb = past + count_log(rate, kb, cb) + tb;
        let n = (past.len() + ka) as int;
        lemma_escape_len(rate, ka);
        lemma_escape_log(rate, kb, ka);
        assert(la.take(n) =~= past + escape_log(rate, ka));
        assert(lb.take(n) =~= past + escape_log(rate, kb).take(ka));
        lemma_same_symbol(bytes, la, lb, n);
        assert(la[n] == symbol(PULSE_COUNT_ICDF[level_after(rate, ka)]@, ca));
        assert(lb[n] == symbol(PULSE_COUNT_ICDF[level_after(rate, ka)]@, 17));
    }
}

/// A pulse count and its number of low-order bits are read back.
proof fn lemma_count_unique(
    bytes: Seq<u8>,
    past: Seq<Coded>,
    rate: int,
    ka: int,
    ca: int,
    ta: Seq<Coded>,
    kb: int,
    cb: int,
    tb: Seq<Coded>,
)
    requires
        0 <= ka,
        0 <= kb,
        0 <= ca <= 16,
        0 <= cb <= 16,
        carries(bytes, past + count_log(rate, ka, ca) + ta),
        carries(bytes, past + count_log(rate, kb, cb) + tb),
    ensures
        ka == kb,
        ca == cb,
{
    lemma_count_shorter(bytes, past, rate, ka, ca, ta, kb, cb, tb);
    lemma_count_shorter(bytes, past, rate, kb, cb, tb, ka, ca, ta);
    let p = past + escape_log(rate, ka);
    let m = PULSE_COUNT_ICDF[level_after(rate, ka)]@;
    assert(past + count_log(rate, ka, ca) + ta =~= p + seq![symbol(m, ca)] + ta);
    assert(past + count_log(rate, kb, cb) + tb =~= p + seq![symbol(m, cb)] + tb);
    lemma_next_symbol(bytes, p, m, ca, ta, cb, tb);
}

/// All pulse counts are read back.
proof fn lemma_counts_unique(
    bytes: Seq<u8>,
    past: Seq<Coded>,
    rate: int,
    ka: Seq<int>,
    ca: Seq<int>,
    ta: Seq<Coded>,
    kb: Seq<int>,
    cb: Seq<int>,
    tb: Seq<Coded>,
)
    requires
        ka.len() == ca.len(),
        kb.len() == ca.len(),
        cb.len() == ca.len(),
        forall|s: int| 0 <= s < ca.len() ==> 0 <= #[trigger] ca[s] <= 16 && 0 <= ka[s],
        forall|s: int| 0 <= s < cb.len() ==> 0 <= #[trigger] cb[s] <= 16 && 0 <= kb[s],
        carries(bytes, past + counts_log(rate, ka, ca) + ta),
        carries(bytes, past + counts_log(rate, kb, cb) + tb),
    ensures
        ka == kb,
        ca == cb,
    decreases ca.len(),
{
    if ca.len() > 0 {
        let n = ca.len() - 1;
        let ha = counts_log(rate, ka.drop_last(), ca.drop_last());
        let hb = counts_log(rate, kb.drop_last(), cb.drop_last());
        let ea = count_log(rate, ka.last(), ca.last());
        let eb = count_log(rate, kb.last(), cb.last());
        assert(past + counts_log(rate, ka, ca) + ta =~= past + ha + (ea + ta));
        assert(past + counts_log(rate, kb, cb) + tb =~= past + hb + (eb + tb));
        assert forall|s: int| 0 <= s < n implies 0 <= #[trigger] ca.drop_last()[s] <= 16 && 0
            <= ka.drop_last()[s] by {
            assert(0 <= ca[s] <= 16 && 0 <= ka[s]);
        }
        assert forall|s: int| 0 <= s < n implies 0 <= #[trigger] cb.drop_last()[s] <= 16 && 0
            <= kb.drop_last()[s] by {
            assert(0 <= cb[s] <= 16 && 0 <= kb[s]);
        }
        lemma_counts_unique(
            bytes,
            past,
            rate,
            ka.drop_last(),
            ca.drop_last(),
            ea + ta,
            kb.drop_last(),
            cb.drop_last(),
            eb + tb,
        );
        assert(0 <= ca[n] <= 16 && 0 <= cb[n] <= 16);
        assert(past + ha + (ea + ta) =~= (past + ha) + ea + ta);
        assert(past + hb + (eb + tb) =~= (past + ha) + eb + tb);
        lemma_count_unique(
            bytes,
            past + ha,
            rate,
            ka.last(),
            ca.last(),
            ta,
            kb.last(),
            cb.last(),
            tb,
        );
        assert(ka =~= ka.drop_last().push(ka.last()));
        assert(kb =~= kb.drop_last().push(kb.last()));
        assert(ca =~= ca.drop_last().push(ca.last()));
        assert(cb =~= cb.drop_last().push(cb.last()));
    } else {
        assert(ka =~= kb);
        assert(ca =~= cb);
    }
}

/// The positions of pulses are read back, given how many there are.
proof fn lemma_split_unique(
    bytes: Seq<u8>,
    past: Seq<Coded>,
    pa: Seq<int>,
    ta: Seq<Coded>,
    pb: Seq<int>,
    tb: Seq<Coded>,
)
    requires
        pa.len() == pb.len(),
        naturals(pa),
        naturals(pb),
        total(pa) == total(pb),
        carries(bytes, past + split_log(pa) + ta),
        carries(bytes, past + split_log(pb) + tb),
    ensures
        pa == pb,
    decreases pa.len(),
{
    lemma_total_bounds(pa);
    lemma_total_bounds(pb);
    if pa.len() == 0 {
        assert(pa =~= pb);
    } else if pa.len() == 1 {
        assert(pa.drop_last() =~= Seq::<int>::empty());
        assert(pb.drop_last() =~= Seq::<int>::empty());
        reveal_with_fuel(total, 2);
        assert(pa =~= pb);
    } else if total(pa) == 0 {
        assert forall|i: int| 0 <= i < pa.len() implies pa[i] == pb[i] by {
            assert(0 <= pa[i] <= total(pa));
            assert(0 <= pb[i] <= total(pb));
        }
        assert(pa =~= pb);
    } else {
        let half = (pa.len() / 2) as int;
        let model = split_model(pa.len() as int, total(pa));
        let (la, ra) = (pa.take(half), pa.skip(half));
        let (lb, rb) = (pb.take(half), pb.skip(half));
        assert(naturals(la) && naturals(ra) && naturals(lb) && naturals(rb));
        lemma_total_bounds(la);
        lemma_total_bounds(lb);
        lemma_total_split(pa, half);
        lemma_total_split(pb, half);
        let sa = seq![symbol(model, total(la))];
        let sb = seq![symbol(model, total(lb))];
        assert(past + split_log(pa) + ta =~= past + sa + (split_log(la) + split_log(ra) + ta));
        assert(past + split_log(pb) + tb =~= past + sb + (split_log(lb) + split_log(rb) + tb));
        lemma_next_symbol(
            bytes,
            past,
            model,
            total(la),
            split_log(la) + split_log(ra) + ta,
            total(lb),
            split_log(lb) + split_log(rb) + tb,
        );
        let p1 = past + sa;
        assert(past + split_log(pa) + ta =~= p1 + split_log(la) + (split_log(ra) + ta));
        assert(past + split_log(pb) + tb =~= p1 + split_log(lb) + (split_log(rb) + tb));
        lemma_split_unique(bytes, p1, la, split_log(ra) + ta, lb, split_log(rb) + tb);
        let p2 = p1 + split_log(la);
        assert(past + split_log(pa) + ta =~= p2 + split_log(ra) + ta);
        assert(past + split_log(pb) + tb =~= p2 + split_log(rb) + tb);
        lemma_split_unique(bytes, p2, ra, ta, rb, tb);
        assert(pa =~= la + ra);
        assert(pb =~= lb + rb);
    }
}

/// The positions of the pulses of all blocks are read back.
proof fn lemma_splits_unique(
    bytes: Seq<u8>,
    past: Seq<Coded>,
    counts: Seq<int>,
    pa: Seq<Seq<int>>,
    ta: Seq<Coded>,
    pb: Seq<Seq<int>>,
    tb: Seq<Coded>,
)
    requires
        pa.len() == counts.len(),
        pb.len() == counts.len(),
        forall|s: int|
            0 <= s < pa.len() ==> (#[trigger] pa[s]).len() == 16 && naturals(pa[s]) && total(pa[s])
                == counts[s],
        forall|s: int|
            0 <= s < pb.len() ==> (#[trigger] pb[s]).len() == 16 && naturals(pb[s]) && total(pb[s])
                == counts[s],
        carries(bytes, past + splits_log(counts, pa) + ta),
        carries(bytes, past + splits_log(counts, pb) + tb),
    ensures
        pa == pb,
    decreases counts.len(),
{
    if counts.len() > 0 {
        let n = counts.len() - 1;
        let c = counts.drop_last();
        let none = Seq::<Coded>::empty();
        let ha = splits_log(c, pa.drop_last());
        let hb = splits_log(c, pb.drop_last());
        let ea = if counts.last() == 0 {
            none
        } else {
            split_log(pa.last())
        };
        let eb = if counts.last() == 0 {
            none
        } else {
            split_log(pb.last())
        };
        assert(past + splits_log(counts, pa) + ta =~= past + ha + (ea + ta));
        assert(past + splits_log(counts, pb) + tb =~= past + hb + (eb + tb));
        assert forall|s: int| 0 <= s < n implies (#[trigger] pa.drop_last()[s]).len() == 16
            && naturals(pa.drop_last()[s]) && total(pa.drop_last()[s]) == c[s] by {
            assert(pa[s].len() == 16);
        }
        assert forall|s: int| 0 <= s < n implies (#[trigger] pb.drop_last()[s]).len() == 16
            && naturals(pb.drop_last()[s]) && total(pb.drop_last()[s]) == c[s] by {
            assert(pb[s].len() == 16);
        }
        lemma_splits_unique(bytes, past, c, pa.drop_last(), ea + ta, pb.drop_last(), eb + tb);
        assert(pa[n].len() == 16 && pb[n].len() == 16);
        assert(split_log(pa.last()) == none || counts.last() != 0);
        assert(split_log(pb.last()) == none || counts.last() != 0);
        assert(past + ha + (ea + ta) =~= (past + ha) + split_log(pa.last()) + ta);
        assert(past + hb + (eb + tb) =~= (past + ha) + split_log(pb.last()) + tb);
        lemma_split_unique(bytes, past + ha, pa.last(), ta, pb.last(), tb);
        assert(pa =~= pa.drop_last().push(pa.last()));
        assert(pb =~= pb.drop_last().push(pb.last()));
    } else {
        assert(pa =~= pb);
    }
}

/// One bit per sample is read back.
proof fn lemma_row_unique(
    bytes: Seq<u8>,
    past: Seq<Coded>,
    ma: Seq<int>,
    ta: Seq<Coded>,
    mb: Seq<int>,
    tb: Seq<Coded>,
    n: int,
)
    requires
        0 <= n <= ma.len(),
        ma.len() == mb.len(),
        carries(bytes, past + low_row(ma) + ta),
        carries(bytes, past + low_row(mb) + tb),
    ensures
        low_row(ma).take(n) == low_row(mb).take(n),
        forall|i: int| 0 <= i < n ==> #[trigger] ma[i] % 2 == mb[i] % 2,
    decreases n,
{
    if n > 0 {
        lemma_row_unique(bytes, past, ma, ta, mb, tb, n - 1);
        let la = past + low_row(ma) + ta;
        let lb = past + low_row(mb) + tb;
        let k = (past.len() + n - 1) as int;
        assert(la.take(k) =~= past + low_row(ma).take(n - 1));
        assert(lb.take(k) =~= past + low_row(mb).take(n - 1));
        lemma_same_symbol(bytes, la, lb, k);
        assert(la[k] == low_row(ma)[n - 1]);
        assert(lb[k] == low_row(mb)[n - 1]);
        assert(low_row(ma).take(n) =~= low_row(ma).take(n - 1).push(low_row(ma)[n - 1]));
        assert(low_row(mb).take(n) =~= low_row(mb).take(n - 1).push(low_row(mb)[n - 1]));
    } else {
        assert(low_row(ma).take(0) =~= low_row(mb).take(0));
    }
}

proof fn lemma_shifted_halved(m: Seq<int>, k: int)
    requires
        naturals(m),
        k >= 1,
    ensures
        shifted(halved(m), k - 1) == shifted(m, k),
        naturals(halved(m)),
{
    vstd::arithmetic::power2::lemma_pow2_unfold(k as nat);
    lemma_pow2_pos((k - 1) as nat);
    assert forall|i: int| 0 <= i < m.len() implies shifted(halved(m), k - 1)[i] == shifted(
        m,
        k,
    )[i] by {
        vstd::arithmetic::div_mod::lemma_div_denominator(m[i], 2, pow2((k - 1) as nat) as int);
    }
    assert(shifted(halved(m), k - 1) =~= shifted(m, k));
}

/// The low-order bits of a block are read back, given its pulses.
proof fn lemma_low_unique(
    bytes: Seq<u8>,
    past: Seq<Coded>,
    k: int,
    ma: Seq<int>,
    ta: Seq<Coded>,
    mb: Seq<int>,
    tb: Seq<Coded>,
)
    requires
        k >= 0,
        ma.len() == mb.len(),
        naturals(ma),
        naturals(mb),
        shifted(ma, k) == shifted(mb, k),
        carries(bytes, past + low_log(ma, k) + ta),
        carries(bytes, past + low_log(mb, k) + tb),
    ensures
        ma == mb,
    decreases k,
{
    if k == 0 {
        vstd::arithmetic::power2::lemma2_to64();
        assert(shifted(ma, 0) =~= ma);
        assert(shifted(mb, 0) =~= mb);
    } else {
        lemma_shifted_halved(ma, k);
        lemma_shifted_halved(mb, k);
        let ha = low_log(halved(ma), k - 1);
        let hb = low_log(halved(mb), k - 1);
        assert(past + low_log(ma, k) + ta =~= past + ha + (low_row(ma) + ta));
        assert(past + low_log(mb, k) + tb =~= past + hb + (low_row(mb) + tb));
        lemma_low_unique(
            bytes,
            past,
            k - 1,
            halved(ma),
            low_row(ma) + ta,
            halved(mb),
            low_row(mb) + tb,
        );
        assert(past + ha + (low_row(ma) + ta) =~= (past + ha) + low_row(ma) + ta);
        assert(past + hb + (low_row(mb) + tb) =~= (past + ha) + low_row(mb) + tb);
        lemma_row_unique(bytes, past + ha, ma, ta, mb, tb, ma.len() as int);
        assert forall|i: int| 0 <= i < ma.len() implies ma[i] == mb[i] by {
            assert(halved(ma)[i] == halved(mb)[i]);
            assert(ma[i] % 2 == mb[i] % 2);
        }
        assert(ma =~= mb);
    }
}

/// The low-order bits of all blocks are read back, given their pulses.
proof fn lemma_lows_unique(
    bytes: Seq<u8>,
    past: Seq<Coded>,
    shifts: Seq<int>,
    ma: Seq<Seq<int>>,
    ta: Seq<Coded>,
    mb: Seq<Seq<int>>,
    tb: Seq<Coded>,
)
    requires
        ma.len() == shifts.len(),
        mb.len() == shifts.len(),
        forall|s: int| 0 <= s < shifts.len() ==> 0 <= #[trigger] shifts[s],
        forall|s: int|
            0 <= s < ma.len() ==> (#[trigger] ma[s]).len() == 16 && naturals(ma[s]) && mb[s].len()
                == 16 && naturals(mb[s]) && shifted(ma[s], shifts[s]) == shifted(mb[s], shifts[s]),
        carries(bytes, past + lows_log(shifts, ma) + ta),
        carries(bytes, past + lows_log(shifts, mb) + tb),
    ensures
        ma == mb,
    decreases shifts.len(),
{
    if shifts.len() > 0 {
        let n = shifts.len() - 1;
        let k = shifts.drop_last();
        let ha = lows_log(k, ma.drop_last());
        let hb = lows_log(k, mb.drop_last());
        let ea = low_log(ma.last(), shifts.last());
        let eb = low_log(mb.last(), shifts.last());
        assert(past + lows_log(shifts, ma) + ta =~= past + ha + (ea + ta));
        assert(past + lows_log(shifts, mb) + tb =~= past + hb + (eb + tb));
        assert forall|s: int| 0 <= s < n implies 0 <= #[trigger] k[s] by {
            assert(0 <= shifts[s]);
        }
        assert forall|s: int| 0 <= s < n implies (#[trigger] ma.drop_last()[s]).len() == 16
            && naturals(ma.drop_last()[s]) && mb.drop_last()[s].len() == 16 && naturals(
            mb.drop_last()[s],
        ) && shifted(ma.drop_last()[s], k[s]) == shifted(mb.drop_last()[s], k[s]) by {
            assert(ma[s].len() == 16);
        }
        lemma_lows_unique(bytes, past, k, ma.drop_last(), ea + ta, mb.drop_last(), eb + tb);
        assert(ma[n].len() == 16 && 0 <= shifts[n]);
        assert(past + ha + (ea + ta) =~= (past + ha) + ea + ta);
        assert(past + hb + (eb + tb) =~= (past + ha) + eb + tb);
        lemma_low_unique(bytes, past + ha, shifts.last(), ma.last(), ta, mb.last(), tb);
        assert(ma =~= ma.drop_last().push(ma.last()));
        assert(mb =~= mb.drop_last().push(mb.last()));
    } else {
        assert(ma =~= mb);
    }
}

/// The signs of the first `n` samples are read back, given the magnitudes.
proof fn lemma_sign_unique(
    bytes: Seq<u8>,
    past: Seq<Coded>,
    model: Seq<u8>,
    va: Seq<int>,
    ta: Seq<Coded>,
    vb: Seq<int>,
    tb: Seq<Coded>,
    n: int,
)
    requires
        0 <= n <= va.len(),
        va.len() == vb.len(),
        magnitudes(va) == magnitudes(vb),
        carries(bytes, past + sign_log(model, va, n) + ta),
        carries(bytes, past + sign_log(model, vb, n) + tb),
    ensures
        sign_log(model, va, n) == sign_log(model, vb, n),
        forall|i: int| 0 <= i < n ==> #[trigger] va[i] == vb[i],
    decreases n,
{
    if n > 0 {
        let j = n - 1;
        assert(magnitudes(va)[j] == magnitude(va[j]));
        assert(magnitudes(vb)[j] == magnitude(vb[j]));
        let ha = sign_log(model, va, n - 1);
        let hb = sign_log(model, vb, n - 1);
        if va[n - 1] == 0 {
            lemma_sign_unique(bytes, past, model, va, ta, vb, tb, n - 1);
        } else {
            let xa: int = if va[n - 1] < 0 {
                0
            } else {
                1
            };
            let xb: int = if vb[n - 1] < 0 {
                0
            } else {
                1
            };
            let ea = seq![symbol(model, xa)];
            let eb = seq![symbol(model, xb)];
            assert(past + sign_log(model, va, n) + ta =~= past + ha + (ea + ta));
            assert(past + sign_log(model, vb, n) + tb =~= past + hb + (eb + tb));
            lemma_sign_unique(bytes, past, model, va, ea + ta, vb, eb + tb, n - 1);
            assert(past + ha + (ea + ta) =~= (past + ha) + ea + ta);
            assert(past + hb + (eb + tb) =~= (past + ha) + eb + tb);
            lemma_next_symbol(bytes, past + ha, model, xa, ta, xb, tb);
        }
    }
}

/// The signs of all blocks are read back, given the magnitudes.
proof fn lemma_signs_unique(
    bytes: Seq<u8>,
    past: Seq<Coded>,
    st: int,
    qot: int,
    counts: Seq<int>,
    va: Seq<Seq<int>>,
    ta: Seq<Coded>,
    vb: Seq<Seq<int>>,
    tb: Seq<Coded>,
)
    requires
        va.len() == counts.len(),
        vb.len() == counts.len(),
        forall|s: int|
            0 <= s < va.len() ==> (#[trigger] va[s]).len() == 16 && vb[s].len() == 16
                && magnitudes(va[s]) == magnitudes(vb[s]),
        carries(bytes, past + signs_log(st, qot, counts, va) + ta),
        carries(bytes, past + signs_log(st, qot, counts, vb) + tb),
    ensures
        va == vb,
    decreases counts.len(),
{
    if counts.len() > 0 {
        let n = counts.len() - 1;
        let c = counts.drop_last();
        let model = sign_model(st, qot, counts.last());
        let ha = signs_log(st, qot, c, va.drop_last());
        let hb = signs_log(st, qot, c, vb.drop_last());
        let ea = sign_log(model, va.last(), 16);
        let eb = sign_log(model, vb.last(), 16);
        assert(past + signs_log(st, qot, counts, va) + ta =~= past + ha + (ea + ta));
        assert(past + signs_log(st, qot, counts, vb) + tb =~= past + hb + (eb + tb));
        assert forall|s: int| 0 <= s < n implies (#[trigger] va.drop_last()[s]).len() == 16
            && vb.drop_last()[s].len() == 16 && magnitudes(va.drop_last()[s]) == magnitudes(
            vb.drop_last()[s],
        ) by {
            assert(va[s].len() == 16);
        }
        lemma_signs_unique(
            bytes,
            past,
            st,
            qot,
            c,
            va.drop_last(),
            ea + ta,
            vb.drop_last(),
            eb + tb,
        );
        assert(va[n].len() == 16);
        assert(past + ha + (ea + ta) =~= (past + ha) + ea + ta);
        assert(past + hb + (eb + tb) =~= (past + ha) + eb + tb);
        lemma_sign_unique(bytes, past + ha, model, va.last(), ta, vb.last(), tb, 16);
        assert(va.last() =~= vb.last());
        assert(va =~= va.drop_last().push(va.last()));
        assert(vb =~= vb.drop_last().push(vb.last()));
    } else {
        assert(va =~= vb);
    }
}

proof fn lemma_block_natural(x: ShellFrame, n: int, s: int)
    requires
        x.coherent(n),
        0 <= s < n,
    ensures
        x.values[s].len() == 16,
        0 <= x.shifts[s] <= 10,
        0 <= x.counts[s] <= 16,
        x.all_pulses()[s] == shifted(x.all_magnitudes()[s], x.shifts[s]),
        x.all_pulses()[s].len() == 16,
        naturals(x.all_pulses()[s]),
        total(x.all_pulses()[s]) == x.counts[s],
        x.all_magnitudes()[s] == magnitudes(x.values[s]),
        x.all_magnitudes()[s].len() == 16,
        naturals(x.all_magnitudes()[s]),
{
    let m = magnitudes(x.values[s]);
    assert(x.values[s].len() == 16);
    assert(naturals(m));
    lemma_shifted_natural(m, x.shifts[s]);
    assert(x.counts[s] == total(x.pulses(s)));
}

/// An excitation's log, cut at each of its pieces.
proof fn lemma_cut_excitation(
    past: Seq<Coded>,
    r: Seq<Coded>,
    c: Seq<Coded>,
    p: Seq<Coded>,
    l: Seq<Coded>,
    s: Seq<Coded>,
    t: Seq<Coded>,
)
    ensures
        ({
            let f = past + (r + c + p + l + s) + t;
            &&& f == past + r + (c + p + l + s + t)
            &&& f == past + r + c + (p + l + s + t)
            &&& f == past + r + c + p + (l + s + t)
            &&& f == past + r + c + p + l + (s + t)
            &&& f == past + r + c + p + l + s + t
        }),
{
    let f = past + (r + c + p + l + s) + t;
    assert(f =~= past + r + (c + p + l + s + t));
    assert(f =~= past + r + c + (p + l + s + t));
    assert(f =~= past + r + c + p + (l + s + t));
    assert(f =~= past + r + c + p + l + (s + t));
    assert(f =~= past + r + c + p + l + s + t);
}

/// What is written as an excitation is read back: where the same bytes carry, after the same
/// symbols, two excitations of the same number of blocks, the two are one and the same.
pub proof fn law_excitation_reads_back(
    bytes: Seq<u8>,
    past: Seq<Coded>,
    st: int,
    qot: int,
    n: int,
    ra: int,
    xa: ShellFrame,
    ta: Seq<Coded>,
    rb: int,
    xb: ShellFrame,
    tb: Seq<Coded>,
)
    requires
        0 <= ra <= 8,
        0 <= rb <= 8,
        xa.coherent(n),
        xb.coherent(n),
        carries(bytes, past + excitation_log(st, qot, ra, xa) + ta),
        carries(bytes, past + excitation_log(st, qot, rb, xb) + tb),
    ensures
        ra == rb,
        xa == xb,
{
    let model = rate_model(st);
    let (ca, cb) = (counts_log(ra, xa.shifts, xa.counts), counts_log(rb, xb.shifts, xb.counts));
    let (pa, pb) = (
        splits_log(xa.counts, xa.all_pulses()),
        splits_log(xb.counts, xb.all_pulses()),
    );
    let (la, lb) = (
        lows_log(xa.shifts, xa.all_magnitudes()),
        lows_log(xb.shifts, xb.all_magnitudes()),
    );
    let (sa, sb) = (
        signs_log(st, qot, xa.counts, xa.values),
        signs_log(st, qot, xb.counts, xb.values),
    );
    let fa = past + excitation_log(st, qot, ra, xa) + ta;
    let fb = past + excitation_log(st, qot, rb, xb) + tb;
    lemma_cut_excitation(past, seq![symbol(model, ra)], ca, pa, la, sa, ta);
    lemma_cut_excitation(past, seq![symbol(model, rb)], cb, pb, lb, sb, tb);
    lemma_next_symbol(
        bytes,
        past,
        model,
        ra,
        ca + pa + la + sa + ta,
        rb,
        cb + pb + lb + sb + tb,
    );
    let p1 = past + seq![symbol(model, ra)];
    assert(fa == p1 + ca + (pa + la + sa + ta));
    assert(fb == p1 + cb + (pb + lb + sb + tb));
    assert forall|s: int| 0 <= s < n implies 0 <= #[trigger] xa.counts[s] <= 16 && 0
        <= xa.shifts[s] by {
        lemma_block_natural(xa, n, s);
    }
    assert forall|s: int| 0 <= s < n implies 0 <= #[trigger] xb.counts[s] <= 16 && 0
        <= xb.shifts[s] by {
        lemma_block_natural(xb, n, s);
    }
    lemma_counts_unique(
        bytes,
        p1,
        ra,
        xa.shifts,
        xa.counts,
        pa + la + sa + ta,
        xb.shifts,
        xb.counts,
        pb + lb + sb + tb,
    );
    let p2 = p1 + ca;
    assert(fa == p2 + pa + (la + sa + ta));
    assert(fb == p2 + pb + (lb + sb + tb));
    assert forall|s: int| 0 <= s < n implies (#[trigger] xa.all_pulses()[s]).len() == 16
        && naturals(xa.all_pulses()[s]) && total(xa.all_pulses()[s]) == xa.counts[s] by {
        lemma_block_natural(xa, n, s);
    }
    assert forall|s: int| 0 <= s < n implies (#[trigger] xb.all_pulses()[s]).len() == 16
        && naturals(xb.all_pulses()[s]) && total(xb.all_pulses()[s]) == xa.counts[s] by {
        lemma_block_natural(xb, n, s);
    }
    lemma_splits_unique(
        bytes,
        p2,
        xa.counts,
        xa.all_pulses(),
        la + sa + ta,
        xb.all_pulses(),
        lb + sb + tb,
    );
    let p3 = p2 + pa;
    assert(fa == p3 + la + (sa + ta));
    assert(fb == p3 + lb + (sb + tb));
    assert forall|s: int| 0 <= s < n implies 0 <= #[trigger] xa.shifts[s] by {
        lemma_block_natural(xa, n, s);
    }
    assert forall|s: int| 0 <= s < n implies (#[trigger] xa.all_magnitudes()[s]).len() == 16
        && naturals(xa.all_magnitudes()[s]) && xb.all_magnitudes()[s].len() == 16 && naturals(
        xb.all_magnitudes()[s],
    ) && shifted(xa.all_magnitudes()[s], xa.shifts[s]) == shifted(
        xb.all_magnitudes()[s],
        xa.shifts[s],
    ) by {
        lemma_block_natural(xa, n, s);
        lemma_block_natural(xb, n, s);
    }
    lemma_lows_unique(
        bytes,
        p3,
        xa.shifts,
        xa.all_magnitudes(),
        sa + ta,
        xb.all_magnitudes(),
        sb + tb,
    );
    let p4 = p3 + la;
    assert(fa == p4 + sa + ta);
    assert(fb == p4 + sb + tb);
    assert forall|s: int| 0 <= s < n implies (#[trigger] xa.values[s]).len() == 16
        && xb.values[s].len() == 16 && magnitudes(xa.values[s]) == magnitudes(xb.values[s]) by {
        lemma_block_natural(xa, n, s);
        lemma_block_natural(xb, n, s);
    }
    lemma_signs_unique(bytes, p4, st, qot, xa.counts, xa.values, ta, xb.values, tb);
}

/// Samples small enough for the coder: none has more than sixteen pulses besides ten low-order
/// bits.
pub open spec fn in_reach(v: Seq<int>) -> bool {
    forall|j: int| 0 <= j < v.len() ==> magnitude(#[trigger] v[j]) <= 17407
}

proof fn lemma_clipped_same(p: Seq<int>)
    requires
        forall|i: int| 0 <= i < p.len() ==> #[trigger] p[i] <= 16,
    ensures
        clipped(p) == p,
{
    assert(clipped(p) =~= p);
}

/// Fitting leaves at most sixteen pulses in a block.
pub proof fn law_quantised_block_fits(b: Seq<int>)
    requires
        b.len() == 16,
    ensures
        0 <= shift_of(magnitudes(b)) <= 10,
        total(shifted(magnitudes(quantised_block(b)), shift_of(magnitudes(b)))) <= 16,
{
    let m = magnitudes(b);
    let k = shift_of(m);
    let p = shifted(m, k);
    lemma_shift_range(m, 0);
    assert(naturals(m));
    lemma_shifted_natural(m, k);
    let e = excess_of(total(clipped(p)));
    lemma_fitted(p, e);
    let f = fitted(p, e);
    assert forall|i: int| 0 <= i < f.len() implies #[trigger] f[i] >= 0 by {
        assert(0 <= f[i] <= clipped(p)[i]);
    }
    lemma_rebuilt_pulses(b, k, f);
}

proof fn lemma_shift_at_most(m: Seq<int>, j: int, k: int)
    requires
        0 <= j <= k <= 10,
        total(shifted(m, k)) <= 16,
    ensures
        shift_from(m, j) <= k,
        total(shifted(m, shift_from(m, j))) <= 16,
    decreases k - j,
{
    if !(j >= 10 || total(shifted(m, j)) <= 16) {
        lemma_shift_at_most(m, j + 1, k);
    }
}

/// Samples that fit are carried unchanged.
pub proof fn law_fitting_samples_kept(b: Seq<int>, k: int)
    requires
        b.len() == 16,
        0 <= k <= 10,
        total(shifted(magnitudes(b), k)) <= 16,
    ensures
        quantised_block(b) == b,
{
    let m = magnitudes(b);
    let c = shift_of(m);
    let p = shifted(m, c);
    lemma_shift_at_most(m, 0, k);
    lemma_shift_range(m, 0);
    assert(naturals(m));
    lemma_shifted_natural(m, c);
    lemma_total_bounds(p);
    lemma_clipped_same(p);
    lemma_fitted(p, 0);
    lemma_pow2_pos(c as nat);
    let step = pow2(c as nat) as int;
    assert forall|i: int| 0 <= i < 16 implies quantised_block(b)[i] == b[i] by {
        vstd::arithmetic::div_mod::lemma_fundamental_div_mod(magnitude(b[i]), step);
        assert(p[i] == magnitude(b[i]) / step);
        assert(p[i] * step == step * (magnitude(b[i]) / step)) by (nonlinear_arith)
            requires
                p[i] == magnitude(b[i]) / step,
        ;
    }
    assert(quantised_block(b) =~= b);
}

/// Fitting settles at once: fitting what was fitted changes nothing.
pub proof fn law_quantised_settles(v: Seq<int>)
    requires
        v.len() % 16 == 0,
    ensures
        quantised(quantised(v)) == quantised(v),
{
    let w = quantised(v);
    assert forall|j: int| 0 <= j < v.len() implies quantised(w)[j] == w[j] by {
        let s = j / 16;
        let b = block_of(v, s);
        lemma_fitted_alone(v, s);
        law_quantised_block_fits(b);
        law_fitting_samples_kept(quantised_block(b), shift_of(magnitudes(b)));
    }
    assert(quantised(w) =~= w);
}

/// Smaller entries have a smaller total.
proof fn lemma_total_below(a: Seq<int>, b: Seq<int>)
    requires
        a.len() == b.len(),
        forall|i: int| 0 <= i < a.len() ==> #[trigger] a[i] <= b[i],
    ensures
        total(a) <= total(b),
    decreases a.len(),
{
    if a.len() > 0 {
        assert forall|i: int| 0 <= i < a.len() - 1 implies #[trigger] a.drop_last()[i]
            <= b.drop_last()[i] by {
            assert(a[i] <= b[i]);
        }
        lemma_total_below(a.drop_last(), b.drop_last());
        assert(a.last() <= b.last()) by {
            assert(a[a.len() - 1] <= b[a.len() - 1]);
        }
    }
}

/// A block that has too many pulses with ten low-order bits uses ten.
proof fn lemma_most_low_bits(m: Seq<int>)
    requires
        naturals(m),
        total(shifted(m, 10)) > 16,
    ensures
        shift_of(m) == 10,
{
    lemma_shift_range(m, 0);
    lemma_shift_stops(m, 0);
    let k = shift_of(m);
    if k < 10 {
        let (fine, coarse) = (pow2(k as nat) as int, pow2(10) as int);
        lemma_pow2_pos(k as nat);
        vstd::arithmetic::power2::lemma_pow2_strictly_increases(k as nat, 10);
        assert forall|i: int| 0 <= i < m.len() implies #[trigger] shifted(m, 10)[i] <= shifted(
            m,
            k,
        )[i] by {
            vstd::arithmetic::div_mod::lemma_div_is_ordered_by_denominator(m[i], fine, coarse);
        }
        lemma_total_below(shifted(m, 10), shifted(m, k));
    }
}

/// The number of low-order bits is ten or leaves at most sixteen pulses.
proof fn lemma_shift_stops(m: Seq<int>, k: int)
    requires
        0 <= k <= 10,
    ensures
        shift_from(m, k) >= 10 || total(shifted(m, shift_from(m, k))) <= 16,
    decreases 10 - k,
{
    if !(k >= 10 || total(shifted(m, k)) <= 16) {
        lemma_shift_stops(m, k + 1);
    }
}

/// Clipping entries with a total above sixteen leaves at least sixteen.
proof fn lemma_clipped_enough(p: Seq<int>)
    requires
        naturals(p),
        total(p) > 16,
    ensures
        total(clipped(p)) >= 16,
{
    if exists|i: int| 0 <= i < p.len() && #[trigger] p[i] > 16 {
        let i = choose|i: int| 0 <= i < p.len() && #[trigger] p[i] > 16;
        assert(naturals(clipped(p)));
        lemma_total_bounds(clipped(p));
        assert(clipped(p)[i] <= total(clipped(p)));
    } else {
        assert(clipped(p) =~= p);
    }
}

/// Samples are fitted block by block.
proof fn lemma_fitted_alone(v: Seq<int>, s: int)
    requires
        v.len() % 16 == 0,
        0 <= s < v.len() / 16,
    ensures
        block_of(quantised(v), s) == quantised_block(block_of(v, s)),
{
    let b = block_of(v, s);
    assert forall|i: int| 0 <= i < 16 implies block_of(quantised(v), s)[i] == quantised_block(
        b,
    )[i] by {
        assert((16 * s + i) / 16 == s && (16 * s + i) % 16 == i);
    }
    assert(block_of(quantised(v), s) =~= quantised_block(b));
}

/// A sample of a block that has too many pulses with ten low-order bits.
proof fn lemma_saturated_sample(b: Seq<int>, i: int)
    requires
        b.len() == 16,
        total(shifted(magnitudes(b), 10)) > 16,
        0 <= i < 16,
    ensures
        magnitude(quantised_block(b)[i]) <= magnitude(b[i]),
        magnitude(quantised_block(b)[i]) % 1024 == magnitude(b[i]) % 1024,
        quantised_block(b)[i] == 0 || (quantised_block(b)[i] < 0) == (b[i] < 0),
{
    let m = magnitudes(b);
    assert(naturals(m));
    lemma_most_low_bits(m);
    lemma_sent_block(b);
    vstd::arithmetic::power2::lemma2_to64();
    let p = shifted(m, 10);
    let f = sent_pulses(b);
    lemma_shifted_natural(m, 10);
    lemma_fitted(p, excess_of(total(clipped(p))));
    assert(0 <= f[i] <= clipped(p)[i]);
    assert(f[i] <= m[i] / 1024);
    assert(quantised_block(b) == rebuilt(b, 10, f));
}

/// A block with more than sixteen pulses left after ten low-order bits keeps exactly sixteen. No
/// sample of it grows, and each keeps its ten low-order bits and, unless it is zero, its sign. The
/// other blocks do not go by it, and fitting again changes nothing.
pub proof fn law_saturated_block(v: Seq<int>, s: int)
    requires
        v.len() % 16 == 0,
        0 <= s < v.len() / 16,
        total(shifted(magnitudes(block_of(v, s)), 10)) > 16,
    ensures
        ({
            let (b, q) = (block_of(v, s), block_of(quantised(v), s));
            &&& total(shifted(magnitudes(q), 10)) == 16
            &&& forall|i: int|
                0 <= i < 16 ==> magnitude(#[trigger] q[i]) <= magnitude(b[i]) && magnitude(q[i])
                    % 1024 == magnitude(b[i]) % 1024 && (q[i] == 0 || (q[i] < 0) == (b[i] < 0))
        }),
        forall|t: int|
            0 <= t < v.len() / 16 ==> #[trigger] block_of(quantised(v), t) == quantised_block(
                block_of(v, t),
            ),
        quantised(quantised(v)) == quantised(v),
{
    let b = block_of(v, s);
    let q = block_of(quantised(v), s);
    let m = magnitudes(b);
    lemma_fitted_alone(v, s);
    assert(naturals(m));
    lemma_most_low_bits(m);
    lemma_shifted_natural(m, 10);
    lemma_clipped_enough(shifted(m, 10));
    lemma_sent_block(b);
    assert(total(shifted(magnitudes(q), 10)) == 16);
    assert forall|i: int| 0 <= i < 16 implies magnitude(#[trigger] q[i]) <= magnitude(b[i])
        && magnitude(q[i]) % 1024 == magnitude(b[i]) % 1024 && (q[i] == 0 || (q[i] < 0) == (b[i]
        < 0)) by {
        lemma_saturated_sample(b, i);
    }
    assert forall|t: int| 0 <= t < v.len() / 16 implies #[trigger] block_of(quantised(v), t)
        == quantised_block(block_of(v, t)) by {
        lemma_fitted_alone(v, t);
    }
    law_quantised_settles(v);
}

/// What the excitation coder makes of samples is within its reach.
pub proof fn law_quantised_in_reach(v: Seq<int>)
    requires
        v.len() % 16 == 0,
    ensures
        in_reach(quantised(v)),
{
    let w = quantised(v);
    assert forall|j: int| 0 <= j < w.len() implies magnitude(#[trigger] w[j]) <= 17407 by {
        let s = j / 16;
        let i = j % 16;
        let b = block_of(v, s);
        let q = quantised_block(b);
        let k = shift_of(magnitudes(b));
        law_quantised_block_fits(b);
        assert(w[j] == q[i]);
        assert(naturals(magnitudes(q)));
        lemma_shifted_natural(magnitudes(q), k);
        let p = shifted(magnitudes(q), k);
        lemma_total_bounds(p);
        assert(p[i] <= 16);
        lemma_pow2_pos(k as nat);
        vstd::arithmetic::power2::lemma2_to64();
        if k < 10 {
            vstd::arithmetic::power2::lemma_pow2_strictly_increases(k as nat, 10);
        }
        let step = pow2(k as nat) as int;
        let m = magnitude(q[i]);
        assert(p[i] == m / step);
        vstd::arithmetic::div_mod::lemma_fundamental_div_mod(m, step);
        assert(step * (m / step) <= step * 16) by (nonlinear_arith)
            requires
                m / step <= 16,
                step >= 1,
        ;
    }
}

/// The encoder announces exactly the pulses it sends, and what it sends of samples is what fitting
/// makes of them.
pub proof fn law_sent_frame_coherent(v: Seq<int>)
    requires
        v.len() % 16 == 0,
    ensures
        sent_frame(v).coherent((v.len() / 16) as int),
        sent_frame(v).samples() == quantised(v),
        0 <= rate_for(sent_frame(v).counts) <= 8,
{
    let x = sent_frame(v);
    let n = (v.len() / 16) as int;
    assert forall|s: int| 0 <= s < n implies x.values[s] == quantised_block(block_of(v, s))
        && x.values[s].len() == 16 && 0 <= x.shifts[s] <= 10 && 0 <= x.counts[s] <= 16 && total(
        x.pulses(s),
    ) <= 16 && #[trigger] x.counts[s] == total(x.pulses(s)) by {
        let b = block_of(v, s);
        lemma_shift_range(magnitudes(b), 0);
        lemma_sent_block(b);
        assert(x.pulses(s) == sent_pulses(b));
    }
    assert forall|s: int| 0 <= s < n implies (#[trigger] x.values[s]).len() == 16 && 0
        <= x.shifts[s] <= 10 && 0 <= x.counts[s] <= 16 && total(x.pulses(s)) <= 16 by {
        assert(x.counts[s] == total(x.pulses(s)));
    }
    assert(x.samples() =~= quantised(v)) by {
        assert forall|j: int| 0 <= j < v.len() implies x.samples()[j] == quantised(v)[j] by {
            assert(x.counts[j / 16] == total(x.pulses(j / 16)));
        }
    }
    if n > 0 {
        assert forall|s: int| 0 <= s < x.counts.len() implies #[trigger] x.counts[s] >= 0 by {}
        lemma_total_bounds(x.counts);
        vstd::arithmetic::div_mod::lemma_div_pos_is_pos(
            2 * total(x.counts) + x.counts.len(),
            2 * x.counts.len() as int,
        );
    }
}

/// The excitation round trip: where the bytes that a decoder was started on carry, after what it
/// had read, the excitation that was written for some samples, the decoder reads those samples as
/// fitted to the coder.
pub proof fn law_excitation_round_trip(
    before: &RangeDecoder<'_>,
    after: &RangeDecoder<'_>,
    st: int,
    qot: int,
    v: Seq<int>,
    tail: Seq<Coded>,
    rate: int,
    x: ShellFrame,
    samples: Seq<int>,
)
    requires
        v.len() % 16 == 0,
        carries(
            source_bytes(before),
            read_log(before) + excitation_log(
                st,
                qot,
                rate_for(sent_frame(v).counts),
                sent_frame(v),
            ) + tail,
        ),
        read_excitation(before, after, st, qot, rate, x, samples),
        samples.len() == v.len(),
    ensures
        samples == quantised(v),
{
    law_sent_frame_coherent(v);
    let y = sent_frame(v);
    let n = (v.len() / 16) as int;
    let none = Seq::<Coded>::empty();
    assert(x.values.len() == n);
    assert(read_log(after) =~= read_log(before) + excitation_log(st, qot, rate, x) + none);
    law_excitation_reads_back(
        source_bytes(before),
        read_log(before),
        st,
        qot,
        n,
        rate,
        x,
        none,
        rate_for(y.counts),
        y,
        tail,
    );
}

} // verus!
