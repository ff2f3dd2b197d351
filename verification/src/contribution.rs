//! Accumulation seen byte by byte.
//!
//! Every unit of work starts from the same snapshot, so the accumulated
//! state is the initial state XORed with one contribution per input byte,
//! and a byte's contribution depends on nothing but the byte.

use crate::accumulator::{accumulated, all_units, lemma_planned_unit_at, unit_result, ROUNDS};
use crate::merge::{
    lemma_merge_concat, lemma_merge_from_zero, lemma_merge_len, lemma_merge_push,
    lemma_xor_words_laws, lemma_xor_words_regroup, lemma_xor_words_zero, merge_all, xor_words,
    zero_words,
};
use vstd::prelude::*;
use vstd::seq_lib::lemma_fold_left_permutation;

verus! {

/// The results of the units of one round, in input order.
pub open spec fn round_units(base: Seq<u128>, round: usize, input: Seq<u8>) -> Seq<Seq<u128>> {
    Seq::new(input.len(), |j: int| unit_result(base, round, input[j]))
}

/// The results of the units that pair `byte` with each round, in round
/// order.
pub open spec fn byte_units(base: Seq<u128>, byte: u8) -> Seq<Seq<u128>> {
    Seq::new(ROUNDS as nat, |r: int| unit_result(base, r as usize, byte))
}

/// What one occurrence of `byte` adds to the accumulated state: the XOR of
/// its unit results over all rounds.
pub open spec fn contribution(base: Seq<u128>, byte: u8) -> Seq<u128> {
    merge_all(zero_words(), byte_units(base, byte))
}

/// XORing a byte's contribution into a state, as a function value.
pub open spec fn contribute_step(base: Seq<u128>) -> spec_fn(Seq<u128>, u8) -> Seq<u128> {
    |acc: Seq<u128>, byte: u8| xor_words(acc, contribution(base, byte))
}

/// The XOR of the contributions of all bytes of `input`.
pub open spec fn contributions(base: Seq<u128>, input: Seq<u8>) -> Seq<u128> {
    input.fold_left(zero_words(), contribute_step(base))
}

/// The results of the units of the first `rounds` rounds.
#[verifier::opaque]
pub open spec fn units_before(base: Seq<u128>, input: Seq<u8>, rounds: int) -> Seq<Seq<u128>> {
    all_units(base, input).take(rounds * input.len())
}

/// No unit comes before round 0, and all of them before round 256.
pub proof fn lemma_units_before_ends(base: Seq<u128>, input: Seq<u8>)
    ensures
        units_before(base, input, 0) == Seq::<Seq<u128>>::empty(),
        units_before(base, input, ROUNDS as int) == all_units(base, input),
{
    reveal(units_before);
    let len: int = input.len() as int;
    assert(0 * len == 0);
    assert(all_units(base, input).take(0) =~= Seq::<Seq<u128>>::empty());
    assert(all_units(base, input).take(ROUNDS * len) =~= all_units(base, input));
}

/// The units of the first `round + 1` rounds are those of the first
/// `round` rounds followed by those of round `round`.
pub proof fn lemma_units_before_next(base: Seq<u128>, input: Seq<u8>, round: int)
    requires
        0 <= round < ROUNDS,
    ensures
        units_before(base, input, round + 1) == units_before(base, input, round) + round_units(
            base,
            round as usize,
            input,
        ),
{
    reveal(units_before);
    let len: int = input.len() as int;
    let units = all_units(base, input);
    assert(0 <= round * len && (round + 1) * len == round * len + len && (round + 1) * len
        <= ROUNDS * len) by (nonlinear_arith)
        requires
            0 <= round < ROUNDS,
            0 <= len,
    ;
    let whole = units.take((round + 1) * len);
    let parts = units.take(round * len) + round_units(base, round as usize, input);
    assert(whole.len() == parts.len());
    assert forall|k: int| 0 <= k < whole.len() implies whole[k] == parts[k] by {
        if k >= round * len {
            lemma_planned_unit_at(input, round, k - round * len);
        }
    }
    assert(whole =~= parts);
}

/// One more byte at the end of the input adds, over the first `rounds`
/// rounds, exactly that byte's unit results for those rounds.
proof fn lemma_push_byte_rounds(base: Seq<u128>, input: Seq<u8>, byte: u8, rounds: int)
    requires
        0 <= rounds <= ROUNDS,
    ensures
        merge_all(zero_words(), units_before(base, input.push(byte), rounds)) == xor_words(
            merge_all(zero_words(), units_before(base, input, rounds)),
            merge_all(zero_words(), byte_units(base, byte).take(rounds)),
        ),
    decreases rounds,
{
    let longer = input.push(byte);
    let zero = zero_words();
    if rounds == 0 {
        lemma_units_before_ends(base, longer);
        lemma_units_before_ends(base, input);
        assert(byte_units(base, byte).take(0) =~= Seq::<Seq<u128>>::empty());
        lemma_xor_words_zero(zero);
    } else {
        let r: int = rounds - 1;
        lemma_push_byte_rounds(base, input, byte, r);
        lemma_units_before_next(base, longer, r);
        lemma_units_before_next(base, input, r);
        let unit = unit_result(base, r as usize, byte);
        let row = round_units(base, r as usize, input);
        assert(round_units(base, r as usize, longer) =~= row.push(unit));
        assert(byte_units(base, byte).take(r + 1) =~= byte_units(base, byte).take(r).push(unit));

        let before_longer = units_before(base, longer, r);
        let before = units_before(base, input, r);
        let seen = byte_units(base, byte).take(r);
        let a = merge_all(zero, before);
        let c = merge_all(zero, seen);
        let f = merge_all(zero, row);
        lemma_merge_len(zero, before_longer);
        lemma_merge_len(zero, before);

        // The longer input: the rounds so far, then this round's row and unit.
        assert(merge_all(zero, units_before(base, longer, rounds)) == xor_words(
            xor_words(merge_all(zero, before_longer), f),
            unit,
        )) by {
            lemma_merge_concat(zero, before_longer, row.push(unit));
            lemma_merge_push(merge_all(zero, before_longer), row, unit);
            lemma_merge_from_zero(merge_all(zero, before_longer), row);
        }
        // The shorter input and the byte taken alone.
        assert(merge_all(zero, units_before(base, input, rounds)) == xor_words(a, f)) by {
            lemma_merge_concat(zero, before, row);
            lemma_merge_from_zero(a, row);
        }
        assert(merge_all(zero, byte_units(base, byte).take(rounds)) == xor_words(c, unit)) by {
            lemma_merge_push(zero, seen, unit);
        }
        lemma_xor_words_regroup(a, c, f, unit);
    }
}

/// One more byte at the end of the input XORs that byte's contribution
/// into the accumulated state.
pub proof fn lemma_accumulated_push(initial: Seq<u128>, input: Seq<u8>, byte: u8)
    requires
        initial.len() == 4,
    ensures
        accumulated(initial, input.push(byte)) == xor_words(
            accumulated(initial, input),
            contribution(initial, byte),
        ),
{
    let longer = input.push(byte);
    let zero = zero_words();
    lemma_push_byte_rounds(initial, input, byte, ROUNDS as int);
    lemma_units_before_ends(initial, longer);
    lemma_units_before_ends(initial, input);
    assert(byte_units(initial, byte).take(ROUNDS as int) =~= byte_units(initial, byte));
    lemma_merge_from_zero(initial, all_units(initial, longer));
    lemma_merge_from_zero(initial, all_units(initial, input));
    lemma_xor_words_laws(
        initial,
        merge_all(zero, all_units(initial, input)),
        contribution(initial, byte),
    );
}

/// The accumulated state is the initial state XORed with the contribution
/// of each input byte.
pub proof fn lemma_accumulated_by_bytes(initial: Seq<u128>, input: Seq<u8>)
    requires
        initial.len() == 4,
    ensures
        accumulated(initial, input) == xor_words(initial, contributions(initial, input)),
    decreases input.len(),
{
    if input.len() == 0 {
        assert(all_units(initial, input) =~= Seq::<Seq<u128>>::empty());
        lemma_xor_words_zero(initial);
    } else {
        let front = input.drop_last();
        let byte = input.last();
        assert(input =~= front.push(byte));
        lemma_accumulated_by_bytes(initial, front);
        lemma_accumulated_push(initial, front, byte);
        lemma_xor_words_laws(initial, contributions(initial, front), contribution(initial, byte));
    }
}

/// The contributions of any input XOR to a four-word state.
pub proof fn lemma_contributions_len(base: Seq<u128>, input: Seq<u8>)
    ensures
        contributions(base, input).len() == 4,
    decreases input.len(),
{
    if input.len() > 0 {
        lemma_contributions_len(base, input.drop_last());
    }
}

/// The contributions of a concatenation are the XOR of the contributions
/// of its parts.
pub proof fn lemma_contributions_concat(base: Seq<u128>, first: Seq<u8>, second: Seq<u8>)
    ensures
        contributions(base, first + second) == xor_words(
            contributions(base, first),
            contributions(base, second),
        ),
    decreases second.len(),
{
    if second.len() == 0 {
        assert(first + second =~= first);
        lemma_contributions_len(base, first);
        lemma_xor_words_zero(contributions(base, first));
    } else {
        lemma_contributions_concat(base, first, second.drop_last());
        assert((first + second).drop_last() =~= first + second.drop_last());
        lemma_xor_words_laws(
            contributions(base, first),
            contributions(base, second.drop_last()),
            contribution(base, second.last()),
        );
    }
}

/// The contributions of an input depend only on which bytes it holds and
/// how often, not on where they stand.
pub proof fn lemma_contributions_order_independent(
    base: Seq<u128>,
    first: Seq<u8>,
    second: Seq<u8>,
)
    requires
        first.to_multiset() == second.to_multiset(),
    ensures
        contributions(base, first) == contributions(base, second),
{
    let step = contribute_step(base);
    assert forall|x: u8, y: u8, v: Seq<u128>| #[trigger]
        step(step(v, x), y) == step(step(v, y), x) by {
        lemma_xor_words_laws(v, contribution(base, x), contribution(base, y));
    }
    lemma_fold_left_permutation(first, second, step, zero_words());
}

} // verus!
