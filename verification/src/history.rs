//! Keeping the latest samples of a signal from one frame to the next.
use vstd::prelude::*;

verus! {

/// The last `n` entries of `s`, or all of them where there are fewer.
pub open spec fn latest<T>(s: Seq<T>, n: int) -> Seq<T> {
    if s.len() <= n {
        s
    } else {
        s.skip(s.len() - n)
    }
}

/// The last `n` entries of `s`.
fn copy_latest<T: Copy>(s: &[T], n: usize) -> (v: Vec<T>)
    requires
        n <= s@.len(),
    ensures
        v@ == s@.skip(s@.len() - n),
{
    let start: usize = s.len() - n;
    let mut v: Vec<T> = Vec::new();
    for i in start..s.len()
        invariant
            start <= i <= s@.len(),
            v@ == s@.subrange(start as int, i as int),
    {
        v.push(s[i]);
        assert(v@ =~= s@.subrange(start as int, i + 1));
    }
    assert(v@ =~= s@.skip(start as int));
    v
}

fn append<T: Copy>(v: &mut Vec<T>, s: &[T])
    ensures
        final(v)@ == old(v)@ + s@,
{
    let mut i: usize = 0;
    assert(v@ =~= old(v)@ + s@.take(0));
    while i < s.len()
        invariant
            i <= s@.len(),
            v@ == old(v)@ + s@.take(i as int),
        decreases s@.len() - i,
    {
        v.push(s[i]);
        assert(v@ =~= old(v)@ + s@.take(i + 1));
        i = i + 1;
    }
    assert(s@.take(s@.len() as int) =~= s@);
}

/// Appends a frame to a history of fixed length and drops what is older.
pub fn shift_ltp_history<T: Copy>(history: &mut Vec<T>, new_samples: &[T])
    ensures
        final(history)@ == latest(old(history)@ + new_samples@, old(history)@.len() as int),
        final(history)@.len() == old(history)@.len(),
{
    let hist_len: usize = history.len();
    if new_samples.len() >= hist_len {
        let kept: Vec<T> = copy_latest(new_samples, hist_len);
        proof {
            let all = old(history)@ + new_samples@;
            assert(kept@ =~= latest(all, hist_len as int));
        }
        *history = kept;
    } else {
        let mut kept: Vec<T> = copy_latest(history.as_slice(), hist_len - new_samples.len());
        append(&mut kept, new_samples);
        proof {
            let all = old(history)@ + new_samples@;
            assert(kept@ =~= latest(all, hist_len as int));
        }
        *history = kept;
    }
}

/// What is left of a history of `cap` entries after a frame: its latest entries and the frame. A
/// history that is too short to fill the place is replaced by `zero` throughout.
pub open spec fn ring_after<T>(ring: Seq<T>, frame: Seq<T>, cap: int, zero: T) -> Seq<T> {
    if frame.len() >= cap {
        latest(frame, cap)
    } else if ring.len() >= cap - frame.len() {
        latest(ring, cap - frame.len()) + frame
    } else {
        Seq::new((cap - frame.len()) as nat, |i: int| zero) + frame
    }
}

fn zeros<T: Copy>(n: usize, zero: T) -> (v: Vec<T>)
    ensures
        v@ == Seq::new(n as nat, |i: int| zero),
{
    let mut v: Vec<T> = Vec::new();
    for i in 0..n
        invariant
            v@ == Seq::new(i as nat, |i: int| zero),
    {
        v.push(zero);
        assert(v@ =~= Seq::new((i + 1) as nat, |i: int| zero));
    }
    v
}

/// Appends a frame to a history of `cap` entries and drops what is older.
pub fn shift_ring<T: Copy>(ring: &mut Vec<T>, frame: &[T], cap: usize, zero: T)
    ensures
        final(ring)@ == ring_after(old(ring)@, frame@, cap as int, zero),
        final(ring)@.len() == cap,
{
    if frame.len() >= cap {
        let kept: Vec<T> = copy_latest(frame, cap);
        assert(kept@ =~= latest(frame@, cap as int));
        *ring = kept;
    } else {
        let keep: usize = cap - frame.len();
        let mut kept: Vec<T> = if ring.len() >= keep {
            copy_latest(ring.as_slice(), keep)
        } else {
            zeros(keep, zero)
        };
        assert(ring@.len() >= keep ==> kept@ =~= latest(ring@, keep as int));
        append(&mut kept, frame);
        *ring = kept;
    }
}

/// What an upsampler keeps of its input: the latest `need` entries of all that went in, preceded
/// by `zero` where there were fewer.
pub open spec fn input_kept<T>(history: Seq<T>, samples: Seq<T>, need: int, zero: T) -> Seq<T> {
    latest(Seq::new(need as nat, |i: int| zero) + history + samples, need)
}

/// Appends input to what an upsampler keeps.
pub fn keep_input<T: Copy>(history: &mut Vec<T>, samples: &[T], need: usize, zero: T)
    ensures
        final(history)@ == input_kept(old(history)@, samples@, need as int, zero),
        final(history)@.len() == need,
{
    let ghost all = Seq::new(need as nat, |i: int| zero) + history@ + samples@;
    if samples.len() >= need {
        let kept: Vec<T> = copy_latest(samples, need);
        assert(kept@ =~= latest(all, need as int));
        *history = kept;
    } else {
        let from_old: usize = need - samples.len();
        let mut kept: Vec<T> = if history.len() >= from_old {
            copy_latest(history.as_slice(), from_old)
        } else {
            let mut v: Vec<T> = zeros(from_old - history.len(), zero);
            append(&mut v, history.as_slice());
            v
        };
        append(&mut kept, samples);
        assert(kept@ =~= latest(all, need as int));
        *history = kept;
    }
}

/// The samples of `cur` with those of `history` before them: sample `i`, where `cur` begins at 0
/// and `history` ends at -1, and `zero` where there is none.
pub open spec fn sample_in<T>(i: int, cur: Seq<T>, history: Seq<T>, zero: T) -> T {
    if 0 <= i < cur.len() {
        cur[i]
    } else if i < 0 && history.len() + i >= 0 {
        history[history.len() + i]
    } else {
        zero
    }
}

/// Sample `i` of `cur` with `history` before it.
pub fn sample_history<T: Copy>(i: i32, cur: &[T], history: &[T], zero: T) -> (s: T)
    ensures
        s == sample_in(i as int, cur@, history@, zero),
{
    if i >= 0 {
        if (i as usize) < cur.len() {
            cur[i as usize]
        } else {
            zero
        }
    } else {
        let back: u64 = (-(i as i64)) as u64;
        if back <= history.len() as u64 {
            history[history.len() - back as usize]
        } else {
            zero
        }
    }
}

/// A history that is already full keeps its latest entries and those of the frame, in order: going
/// on with two frames is going on with both at once.
pub proof fn law_history_joins<T>(h: Seq<T>, a: Seq<T>, b: Seq<T>, n: int)
    requires
        n == h.len(),
    ensures
        latest(latest(h + a, n) + b, n) == latest(h + a + b, n),
{
    assert(latest(latest(h + a, n) + b, n) =~= latest(h + a + b, n));
}

/// The latest entries, counted from the end, are those of the whole.
pub proof fn law_latest_entries<T>(s: Seq<T>, n: int, i: int)
    requires
        0 <= n,
        1 <= i <= n,
        i <= s.len(),
    ensures
        latest(s, n).len() == (if s.len() <= n {
            s.len() as int
        } else {
            n
        }),
        latest(s, n)[latest(s, n).len() - i] == s[s.len() - i],
{
}

/// A history that is long enough keeps the latest of its entries and the frame's together. One that
/// is too short counts as zeros.
pub proof fn law_ring_keeps_the_latest<T>(ring: Seq<T>, frame: Seq<T>, cap: int, zero: T)
    requires
        cap >= 0,
    ensures
        ring_after(ring, frame, cap, zero).len() == cap,
        ring.len() + frame.len() >= cap ==> ring_after(ring, frame, cap, zero) == latest(
            ring + frame,
            cap,
        ),
        ring.len() + frame.len() < cap ==> ring_after(ring, frame, cap, zero) == latest(
            Seq::new(cap as nat, |i: int| zero) + frame,
            cap,
        ),
{
    let r = ring_after(ring, frame, cap, zero);
    if ring.len() + frame.len() >= cap {
        assert(r =~= latest(ring + frame, cap));
    } else {
        assert(r =~= latest(Seq::new(cap as nat, |i: int| zero) + frame, cap));
    }
}

/// What an upsampler keeps, counted from the end: the latest input, then the latest of what was
/// kept before, then zeros.
pub proof fn law_input_kept_entries<T>(history: Seq<T>, samples: Seq<T>, need: int, zero: T, i: int)
    requires
        1 <= i <= need,
    ensures
        ({
            let k = input_kept(history, samples, need, zero);
            &&& k.len() == need
            &&& i <= samples.len() ==> k[need - i] == samples[samples.len() - i]
            &&& samples.len() < i <= samples.len() + history.len() ==> k[need - i]
                == history[history.len() + samples.len() - i]
            &&& i > samples.len() + history.len() ==> k[need - i] == zero
        }),
{
}

/// A sample before or in a frame is that of the history and the frame together; outside both there
/// is nothing.
pub proof fn law_sample_of_whole<T>(i: int, cur: Seq<T>, history: Seq<T>, zero: T)
    ensures
        -history.len() <= i < cur.len() ==> sample_in(i, cur, history, zero) == (history
            + cur)[history.len() + i],
        !(-history.len() <= i < cur.len()) ==> sample_in(i, cur, history, zero) == zero,
{
}

} // verus!
