//! The round function: bit rotations, the non-linear word transform and the
//! four-word state mixer.

use vstd::prelude::*;
use vstd::wrapping::u128_specs;

verus! {

/// Multiplier and additive constant of the round function.
pub const PRIME: u128 = 0x100000001b3;

/// Modulus of the non-linear transform: `2^64 - 1`.
pub const FOLD_MODULUS: u128 = 0xffff_ffff_ffff_ffff;

/// `x` rotated left by `n` bit positions; the count is taken modulo 128.
pub open spec fn rotl(x: u128, n: u32) -> u128 {
    let k: u32 = n % 128;
    if k == 0 {
        x
    } else {
        (x << k) | (x >> ((128 - k) as u32))
    }
}

/// `x` rotated right by `n` bit positions; the count is taken modulo 128.
pub open spec fn rotr(x: u128, n: u32) -> u128 {
    let k: u32 = n % 128;
    if k == 0 {
        x
    } else {
        (x >> k) | (x << ((128 - k) as u32))
    }
}

/// Rotates `x` left by `n` bits, wrapping the bits shifted out back in at
/// the low end.
pub fn rotate_left(x: u128, n: u32) -> (r: u128)
    ensures
        r == rotl(x, n),
{
    let k: u32 = n % 128;
    if k == 0 {
        x
    } else {
        (x << k) | (x >> (128 - k))
    }
}

/// Rotates `x` right by `n` bits, wrapping the bits shifted out back in at
/// the high end.
pub fn rotate_right(x: u128, n: u32) -> (r: u128)
    ensures
        r == rotr(x, n),
{
    let k: u32 = n % 128;
    if k == 0 {
        x
    } else {
        (x >> k) | (x << (128 - k))
    }
}

/// The non-linear word transform: `value` XOR its rotation right by 23
/// bits, multiplied by [`PRIME`] modulo `2^128`, then reduced modulo
/// `2^64 - 1`.
pub open spec fn nonlinear(value: u128) -> u128 {
    u128_specs::wrapping_mul(value ^ rotr(value, 23), PRIME) % FOLD_MODULUS
}

/// Rotation count used for word `i` in round `round`.
pub open spec fn rotation_of(round: usize, i: int) -> u32 {
    (round % 16 + 8 * i) as u32
}

/// What one mixing step makes of a word before cross-mixing: XOR with the
/// input, add [`PRIME`] modulo `2^128`, rotate left, apply [`nonlinear`].
pub open spec fn stirred(word: u128, mixed_input: u128, round: usize, i: int) -> u128 {
    nonlinear(
        rotl(u128_specs::wrapping_add(word ^ mixed_input, PRIME), rotation_of(round, i)),
    )
}

/// The value that word `i` is XORed with once it has been stirred: its
/// right-hand neighbour as that neighbour stands at the time.
///
/// Words are updated in index order, so words 0, 1 and 2 read a neighbour
/// that has not been touched yet, while word 3 wraps around and reads the
/// already updated word 0.
pub open spec fn neighbour_of(state: Seq<u128>, mixed_input: u128, round: usize, i: int) -> u128
    recommends
        state.len() == 4,
        0 <= i < 4,
{
    if i < 3 {
        state[i + 1]
    } else {
        stirred(state[0], mixed_input, round, 0) ^ state[1]
    }
}

/// Word `i` of the state after one call of the mixer on `state`.
pub open spec fn mixed_word(state: Seq<u128>, mixed_input: u128, round: usize, i: int) -> u128
    recommends
        state.len() == 4,
        0 <= i < 4,
{
    stirred(state[i], mixed_input, round, i) ^ neighbour_of(state, mixed_input, round, i)
}

/// The state that one call of the mixer makes of `state`.
pub open spec fn mixed_state(state: Seq<u128>, mixed_input: u128, round: usize) -> Seq<u128>
    recommends
        state.len() == 4,
{
    Seq::new(4, |i: int| mixed_word(state, mixed_input, round, i))
}

/// Applies the non-linear transform to one word.
pub fn modular_non_linear_transform(value: u128) -> (r: u128)
    ensures
        r == nonlinear(value),
        r < FOLD_MODULUS,
{
    let rotated: u128 = rotate_right(value, 23);
    (value ^ rotated).wrapping_mul(PRIME) % FOLD_MODULUS
}

/// Runs one round of mixing over the four words of `state`, in place.
pub fn hash_round(state: &mut [u128; 4], mixed_input: u128, round: usize)
    ensures
        final(state)@ == mixed_state(old(state)@, mixed_input, round),
{
    let ghost before: Seq<u128> = state@;
    let mut i: usize = 0;
    while i < 4
        invariant
            0 <= i <= 4,
            forall|j: int| 0 <= j < i ==> state@[j] == mixed_word(before, mixed_input, round, j),
            forall|j: int| i <= j < 4 ==> state@[j] == before[j],
        decreases 4 - i,
    {
        let mut word: u128 = state[i] ^ mixed_input;
        word = word.wrapping_add(PRIME);
        word = rotate_left(word, (round % 16 + i * 8) as u32);
        word = modular_non_linear_transform(word);
        word = word ^ state[(i + 1) % 4];
        state[i] = word;
        i += 1;
    }
}

/// Whether bit `i` of `x` is set, bit 0 being the least significant.
pub open spec fn bit_of(x: u128, i: u32) -> bool {
    (x >> i) & 1 == 1
}

/// Rotating left by `n` moves bit `i` to position `(i + n) mod 128`, and
/// rotating right by `n` brings the bit at that position down to `i`: no
/// bit is lost or duplicated.
#[verifier::rlimit(50)]
pub proof fn lemma_rotation_moves_bits(x: u128, n: u32, i: u32)
    requires
        i < 128,
    ensures
        bit_of(rotl(x, n), ((i + n % 128) % 128) as u32) == bit_of(x, i),
        bit_of(rotr(x, n), i) == bit_of(x, ((i + n % 128) % 128) as u32),
{
    let k: u32 = n % 128;
    let back: u32 = (128 - k) as u32;
    let to: u32 = ((i + k) % 128) as u32;
    if k != 0 {
        assert((((x << k) | (x >> back)) >> to) & 1 == (x >> i) & 1) by (bit_vector)
            requires
                0 < k < 128,
                back == 128 - k,
                i < 128,
                to == (i + k) % 128,
        ;
        assert((((x >> k) | (x << back)) >> i) & 1 == (x >> to) & 1) by (bit_vector)
            requires
                0 < k < 128,
                back == 128 - k,
                i < 128,
                to == (i + k) % 128,
        ;
    }
}

/// In one call of the mixer every word is the target of exactly one XOR
/// and the source of exactly one: word `i` is stirred and then XORed with
/// word `i + 1`, and the last word wraps around to word 0, which has
/// already been updated when its turn as a source comes.
pub proof fn lemma_cross_mixing(state: Seq<u128>, mixed_input: u128, round: usize)
    ensures
        mixed_state(state, mixed_input, round).len() == 4,
        forall|i: int|
            0 <= i < 3 ==> #[trigger] mixed_state(state, mixed_input, round)[i] == stirred(
                state[i],
                mixed_input,
                round,
                i,
            ) ^ state[i + 1],
        mixed_state(state, mixed_input, round)[3] == stirred(state[3], mixed_input, round, 3)
            ^ mixed_state(state, mixed_input, round)[0],
{
}

} // verus!
