//! Reconstruction of the excitation from its signed pulses.
//!
//! Each sample is scaled, moved towards zero by a little, offset, and then negated or not by a
//! linear congruential generator that is also fed the samples themselves.
use vstd::prelude::*;

use crate::silk::shell_tables::{least, QUANT_OFFSET_Q23};

verus! {

/// The generator's successor of `state`.
pub open spec fn lcg_next(state: u32) -> u32 {
    ((state * 196_314_165 + 907_633_515) % 0x1_0000_0000) as u32
}

/// The generator negates the sample that follows `state`.
pub open spec fn lcg_flips(state: u32) -> bool {
    lcg_next(state) >= 0x8000_0000
}

/// The state after a sample `e` that followed `state`.
pub open spec fn lcg_after(state: u32, e: i32) -> u32 {
    ((lcg_next(state) + e) % 0x1_0000_0000) as u32
}

/// Sign of a number: -1, 0 or 1.
pub open spec fn sign_of(e: int) -> int {
    if e < 0 {
        -1
    } else if e > 0 {
        1
    } else {
        0
    }
}

/// 256 times a sample, as far as 32 bits hold it: a larger product comes round at the other end.
pub open spec fn times_256(e: i32) -> int {
    (256 * e + 0x8000_0000) % 0x1_0000_0000 - 0x8000_0000
}

/// A sample scaled to Q23, 20 closer to zero, plus the offset.
pub open spec fn scaled_q23(e: i32, offset_q23: int) -> int {
    if e < 0 {
        times_256(e) + 20 + offset_q23
    } else if e > 0 {
        times_256(e) - 20 + offset_q23
    } else {
        offset_q23
    }
}

/// The reconstructed sample `e` that follows `state`.
pub open spec fn step_q23(state: u32, e: i32, offset_q23: int) -> int {
    if lcg_flips(state) {
        -scaled_q23(e, offset_q23)
    } else {
        scaled_q23(e, offset_q23)
    }
}

/// The generator's state before sample `i` of `signed`.
pub open spec fn state_before(signed: Seq<i32>, seed: u32, i: int) -> u32
    decreases i,
{
    if i <= 0 {
        seed
    } else {
        lcg_after(state_before(signed, seed, i - 1), signed[i - 1])
    }
}

/// The reconstruction of `signed`.
pub open spec fn reconstructed(signed: Seq<i32>, offset_q23: int, seed: u32) -> Seq<int> {
    Seq::new(
        signed.len(),
        |i: int| step_q23(state_before(signed, seed, i), signed[i], offset_q23),
    )
}

/// The offset for a signal type and quantisation offset type.
pub open spec fn quant_offset(signal_type: int, quant_offset_type: int) -> int {
    QUANT_OFFSET_Q23[least(signal_type, 2)][least(quant_offset_type, 1)] as int
}

/// The sample does not scale to a number that its offset takes out of range.
pub open spec fn scalable(e: i32) -> bool {
    e > 0 ==> times_256(e) != i32::MIN
}

/// A sample of at most 23 bits scales without loss.
pub proof fn lemma_scaled(e: i32)
    requires
        -0x80_0000 <= e < 0x80_0000,
    ensures
        times_256(e) == 256 * e,
        scalable(e),
{
}

/// Shifting left by eight multiplies by 256.
proof fn lemma_shifted(e: i32)
    ensures
        (e << 8) == times_256(e),
        times_256(e) % 256 == 0,
        times_256(e) <= 0x7fff_ff00,
{
    assert((e << 8) == (256 * e + 0x8000_0000) % 0x1_0000_0000 - 0x8000_0000) by (bit_vector);
    let wide: i32 = e << 8;
    assert(wide % 256 == 0 && wide <= 0x7fff_ff00) by (bit_vector)
        requires
            wide == e << 8,
    ;
}

/// Reconstructs one sample, and steps the generator.
pub fn lcg_step_q23(state: u32, e_raw: i32, offset_q23: i32) -> (r: (i32, u32))
    requires
        scalable(e_raw),
        i32::MIN <= scaled_q23(e_raw, offset_q23 as int) <= i32::MAX,
        lcg_flips(state) ==> scaled_q23(e_raw, offset_q23 as int) != i32::MIN,
    ensures
        r.0 == step_q23(state, e_raw, offset_q23 as int),
        r.1 == lcg_after(state, e_raw),
{
    let sgn: i32 = if e_raw < 0 {
        -1
    } else if e_raw > 0 {
        1
    } else {
        0
    };
    let wide: i32 = e_raw << 8;
    proof {
        lemma_shifted(e_raw);
    }
    let mut e_q23: i32 = wide - sgn * 20 + offset_q23;
    let next: u32 = state.wrapping_mul(196_314_165).wrapping_add(907_633_515);
    proof {
        lemma_lcg_wraps(state);
    }
    if next >= 0x8000_0000 {
        e_q23 = -e_q23;
    }
    (e_q23, next.wrapping_add_signed(e_raw))
}

/// The offsets in use keep a scalable sample in range.
proof fn lemma_offset_fits(e: i32, offset_q23: int)
    requires
        scalable(e),
        0 <= offset_q23 <= 60,
    ensures
        i32::MIN < scaled_q23(e, offset_q23) <= i32::MAX,
{
    lemma_shifted(e);
}

/// Wrapping multiplication and addition step the generator.
proof fn lemma_lcg_wraps(state: u32)
    ensures
        state.wrapping_mul(196_314_165).wrapping_add(907_633_515) == lcg_next(state),
{
    let p: int = state * 196_314_165;
    vstd::arithmetic::div_mod::lemma_add_mod_noop(p, 907_633_515, 0x1_0000_0000);
    assert((p % 0x1_0000_0000 + 907_633_515) % 0x1_0000_0000 == (p + 907_633_515) % 0x1_0000_0000);
}

/// Whether the generator will negate the next sample.
pub fn lcg_pre_flip(state: u32) -> (flip: bool)
    ensures
        flip == lcg_flips(state),
{
    let next: u32 = state.wrapping_mul(196_314_165).wrapping_add(907_633_515);
    proof {
        lemma_lcg_wraps(state);
    }
    next >= 0x8000_0000
}

/// Reconstructs the excitation `signed` in Q23.
pub fn reconstruct_q23(
    signed: &[i32],
    signal_type: u8,
    quant_offset_type: u8,
    seed: u32,
) -> (out: Vec<i32>)
    requires
        forall|i: int| 0 <= i < signed@.len() ==> scalable(#[trigger] signed@[i]),
    ensures
        out@.len() == signed@.len(),
        forall|i: int|
            0 <= i < out@.len() ==> #[trigger] out@[i] == reconstructed(
                signed@,
                quant_offset(signal_type as int, quant_offset_type as int),
                seed,
            )[i],
{
    let st: usize = if signal_type < 2 {
        signal_type as usize
    } else {
        2
    };
    let qot: usize = if quant_offset_type < 1 {
        0
    } else {
        1
    };
    let offset_q23: i32 = QUANT_OFFSET_Q23[st][qot];
    let mut state: u32 = seed;
    let mut out: Vec<i32> = Vec::with_capacity(signed.len());
    for i in 0..signed.len()
        invariant
            forall|j: int| 0 <= j < signed@.len() ==> scalable(#[trigger] signed@[j]),
            0 <= offset_q23 <= 60,
            offset_q23 == quant_offset(signal_type as int, quant_offset_type as int),
            out@.len() == i,
            state == state_before(signed@, seed, i as int),
            forall|j: int|
                0 <= j < i ==> #[trigger] out@[j] == step_q23(
                    state_before(signed@, seed, j),
                    signed@[j],
                    offset_q23 as int,
                ),
    {
        proof {
            lemma_offset_fits(signed@[i as int], offset_q23 as int);
        }
        let (e_q23, next): (i32, u32) = lcg_step_q23(state, signed[i], offset_q23);
        out.push(e_q23);
        state = next;
    }
    out
}

/// Knowing the flip ahead of a sample is enough to cancel it: with the flip applied to the sample
/// beforehand, the offset aside, the reconstruction has the sign of the intended sample.
pub proof fn law_pre_flip_cancels(state: u32, want: i32)
    requires
        -0x7f_ffff <= want <= 0x7f_ffff,
    ensures
        ({
            let sent = (if lcg_flips(state) {
                -want
            } else {
                want as int
            }) as i32;
            step_q23(state, sent, 0) == scaled_q23(want, 0)
        }),
{
    let sent = (if lcg_flips(state) {
        -want
    } else {
        want as int
    }) as i32;
    lemma_scaled(sent);
    lemma_scaled(want);
}

/// The state after a sample is a 32-bit number congruent to 196314165 times the state before, plus
/// 907633515, plus the sample, modulo 2^32. Negative samples count as others do.
pub proof fn law_state_is_congruent(state: u32, e: i32)
    ensures
        (lcg_after(state, e) - (196_314_165 * state + 907_633_515 + e)) % 0x1_0000_0000 == 0,
{
    let p: int = state * 196_314_165 + 907_633_515;
    let q = p / 0x1_0000_0000;
    assert(lcg_next(state) == p - 0x1_0000_0000 * q);
    let r = (lcg_next(state) + e) / 0x1_0000_0000;
    assert(lcg_after(state, e) == lcg_next(state) + e - 0x1_0000_0000 * r);
    assert((0x1_0000_0000 * (-q - r)) % 0x1_0000_0000 == 0);
}

/// States that follow the same state differ as the samples do, modulo 2^32. So different samples
/// lead to different states.
pub proof fn law_states_tell_samples_apart(state: u32, d: i32, e: i32)
    ensures
        (lcg_after(state, d) - lcg_after(state, e) - (d - e)) % 0x1_0000_0000 == 0,
        d != e ==> lcg_after(state, d) != lcg_after(state, e),
{
    let n: int = lcg_next(state) as int;
    let (q, r) = ((n + d) / 0x1_0000_0000, (n + e) / 0x1_0000_0000);
    assert(lcg_after(state, d) == n + d - 0x1_0000_0000 * q);
    assert(lcg_after(state, e) == n + e - 0x1_0000_0000 * r);
    assert((0x1_0000_0000 * (r - q)) % 0x1_0000_0000 == 0);
}

/// The generator negates a sample where the state that a sample of zero would lead to, which is
/// 196314165 times the state plus 907633515 modulo 2^32, has its highest bit set.
pub proof fn law_flip_is_the_highest_bit(state: u32)
    ensures
        lcg_flips(state) == (lcg_after(state, 0) >= 0x8000_0000),
        lcg_flips(state) == ((196_314_165 * state + 907_633_515) % 0x1_0000_0000 >= 0x8000_0000),
{
    assert(lcg_after(state, 0) == lcg_next(state));
}

/// What a sample is reconstructed as: 256 times its size, less 20, with its sign; zero is the
/// offset alone. The offset comes on top, and the whole is negated where the generator says so.
pub proof fn law_sample_reconstruction(state: u32, e: i32, offset_q23: int)
    requires
        -0x80_0000 <= e < 0x80_0000,
    ensures
        ({
            let up = if lcg_after(state, 0) >= 0x8000_0000 {
                -step_q23(state, e, offset_q23)
            } else {
                step_q23(state, e, offset_q23)
            } - offset_q23;
            &&& e == 0 ==> up == 0
            &&& e > 0 ==> up + 20 == 256 * e
            &&& e < 0 ==> up - 20 == 256 * e
        }),
{
    lemma_scaled(e);
    law_flip_is_the_highest_bit(state);
}

/// The reconstruction goes on from part to part: that of two parts is that of the first, then that
/// of the second from the state that the first leaves.
pub proof fn law_reconstruction_goes_on(a: Seq<i32>, b: Seq<i32>, offset_q23: int, seed: u32)
    ensures
        ({
            let left = state_before(a, seed, a.len() as int);
            &&& reconstructed(a + b, offset_q23, seed) == reconstructed(a, offset_q23, seed)
                + reconstructed(b, offset_q23, left)
            &&& state_before(a + b, seed, (a + b).len() as int) == state_before(
                b,
                left,
                b.len() as int,
            )
        }),
{
    let left = state_before(a, seed, a.len() as int);
    assert forall|i: int| 0 <= i <= a.len() implies #[trigger] state_before(a + b, seed, i)
        == state_before(a, seed, i) by {
        lemma_state_of_first(a, b, seed, i);
    }
    assert forall|i: int| 0 <= i <= b.len() implies state_before(a + b, seed, a.len() + i)
        == #[trigger] state_before(b, left, i) by {
        lemma_state_of_second(a, b, seed, i);
    }
    let whole = reconstructed(a + b, offset_q23, seed);
    let parts = reconstructed(a, offset_q23, seed) + reconstructed(b, offset_q23, left);
    assert forall|i: int| 0 <= i < whole.len() implies whole[i] == parts[i] by {
        if i < a.len() {
            assert(state_before(a + b, seed, i) == state_before(a, seed, i));
        } else {
            let j = i - a.len();
            assert(state_before(a + b, seed, a.len() + j) == state_before(b, left, j));
            assert((a + b)[i] == b[j]);
        }
    }
    assert(whole =~= parts);
}

/// One sample is reconstructed from the seed itself.
pub proof fn law_first_sample_goes_by_the_seed(e: i32, offset_q23: int, seed: u32)
    ensures
        reconstructed(seq![e], offset_q23, seed) == seq![step_q23(seed, e, offset_q23)],
        state_before(seq![e], seed, 1) == lcg_after(seed, e),
{
    assert(state_before(seq![e], seed, 0) == seed);
    assert(reconstructed(seq![e], offset_q23, seed) =~= seq![step_q23(seed, e, offset_q23)]);
}

proof fn lemma_state_of_first(a: Seq<i32>, b: Seq<i32>, seed: u32, i: int)
    requires
        i <= a.len(),
    ensures
        state_before(a + b, seed, i) == state_before(a, seed, i),
    decreases i,
{
    if i > 0 {
        lemma_state_of_first(a, b, seed, i - 1);
    }
}

proof fn lemma_state_of_second(a: Seq<i32>, b: Seq<i32>, seed: u32, i: int)
    requires
        0 <= i <= b.len(),
    ensures
        state_before(a + b, seed, a.len() + i) == state_before(
            b,
            state_before(a, seed, a.len() as int),
            i,
        ),
    decreases i,
{
    if i > 0 {
        lemma_state_of_second(a, b, seed, i - 1);
        assert((a + b)[a.len() + i - 1] == b[i - 1]);
    } else {
        lemma_state_of_first(a, b, seed, a.len() as int);
    }
}

/// The offsets by signal type: inactive and unvoiced 25 or 60, voiced 8 or 25. Types past the last
/// count as the last.
pub proof fn law_quant_offsets(signal_type: int, quant_offset_type: int)
    requires
        signal_type >= 0,
        quant_offset_type >= 0,
    ensures
        signal_type < 2 && quant_offset_type == 0 ==> quant_offset(
            signal_type,
            quant_offset_type,
        ) == 25,
        signal_type < 2 && quant_offset_type > 0 ==> quant_offset(
            signal_type,
            quant_offset_type,
        ) == 60,
        signal_type >= 2 && quant_offset_type == 0 ==> quant_offset(
            signal_type,
            quant_offset_type,
        ) == 8,
        signal_type >= 2 && quant_offset_type > 0 ==> quant_offset(
            signal_type,
            quant_offset_type,
        ) == 25,
{
}

} // verus!
