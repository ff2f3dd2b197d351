//! Units of work over (round, byte) pairs: the plan that pairs every round
//! with every byte, the computation of one unit, and the accumulation of
//! all of them.

use crate::merge::{merge_all, merge_into};
use crate::mixer::{hash_round, mixed_state, PRIME};
use vstd::arithmetic::div_mod::lemma_fundamental_div_mod_converse;
use vstd::prelude::*;
use vstd::wrapping::u128_specs;

verus! {

/// Number of rounds that every input byte is paired with.
pub const ROUNDS: usize = 256;

/// One unit of work: a round index paired with one byte of the combined
/// input.
#[derive(Clone, Copy, Debug)]
pub struct WorkUnit {
    pub round: usize,
    pub byte: u8,
}

/// The salt that a unit derives from the round index and the base state.
pub open spec fn dynamic_salt(base: Seq<u128>, round: usize) -> u128
    recommends
        base.len() == 4,
{
    u128_specs::wrapping_add(round as u128, PRIME) ^ (base[(round % 4) as int] & 0xff)
}

/// The value that a unit feeds to the mixer: the byte plus the dynamic
/// salt, modulo `2^128`.
pub open spec fn mixed_byte(base: Seq<u128>, round: usize, byte: u8) -> u128
    recommends
        base.len() == 4,
{
    u128_specs::wrapping_add(byte as u128, dynamic_salt(base, round))
}

/// The state that the unit `(round, byte)` returns when it starts from
/// `base`.
pub open spec fn unit_result(base: Seq<u128>, round: usize, byte: u8) -> Seq<u128>
    recommends
        base.len() == 4,
{
    mixed_state(base, mixed_byte(base, round, byte), round)
}

/// Every round paired with every byte of `input`: round-major, bytes in
/// input order. Unit `k` has round `k / len` and byte `k % len`.
pub open spec fn planned_units(input: Seq<u8>) -> Seq<WorkUnit> {
    Seq::new(
        (ROUNDS * input.len()) as nat,
        |k: int|
            WorkUnit {
                round: (k / input.len() as int) as usize,
                byte: input[k % input.len() as int],
            },
    )
}

/// The results of all planned units, each started from the same `base`.
pub open spec fn all_units(base: Seq<u128>, input: Seq<u8>) -> Seq<Seq<u128>>
    recommends
        base.len() == 4,
{
    Seq::new(
        planned_units(input).len(),
        |k: int| unit_result(base, planned_units(input)[k].round, planned_units(input)[k].byte),
    )
}

/// The state that accumulation over `input` ends in: `initial` merged with
/// the results of all planned units, each of which started from `initial`.
pub open spec fn accumulated(initial: Seq<u128>, input: Seq<u8>) -> Seq<u128>
    recommends
        initial.len() == 4,
{
    merge_all(initial, all_units(initial, input))
}

/// Runs the unit of work `(round, byte)` on a private copy of `base`.
pub fn unit_computation(base: &[u128; 4], round: usize, byte: u8) -> (result: [u128; 4])
    ensures
        result@ == unit_result(base@, round, byte),
{
    let dynamic_salt: u128 = (round as u128).wrapping_add(PRIME) ^ (base[round % 4] & 0xff);
    let mixed: u128 = (byte as u128).wrapping_add(dynamic_salt);
    let mut local: [u128; 4] = *base;
    hash_round(&mut local, mixed, round);
    local
}

/// Position `round * len + j` of the plan holds round `round` and the byte
/// at index `j` of the input.
pub proof fn lemma_planned_unit_at(input: Seq<u8>, round: int, j: int)
    requires
        0 <= round < ROUNDS,
        0 <= j < input.len(),
    ensures
        0 <= round * input.len() + j < planned_units(input).len(),
        planned_units(input)[round * input.len() + j] == (WorkUnit {
            round: round as usize,
            byte: input[j],
        }),
{
    let len: int = input.len() as int;
    let k: int = round * len + j;
    assert(0 <= round * len && round * len + len <= ROUNDS * len) by (nonlinear_arith)
        requires
            0 <= round < ROUNDS,
            0 < len,
    ;
    lemma_fundamental_div_mod_converse(k, len, round, j);
}

/// Lists the units of work for `input`: every round below 256 paired with
/// every byte, round-major, `256 * input.len()` units in all.
pub fn schedule_units(input: &[u8]) -> (units: Vec<WorkUnit>)
    ensures
        units@ == planned_units(input@),
        units@.len() == ROUNDS * input@.len(),
        forall|k: int| 0 <= k < units@.len() ==> (#[trigger] units@[k]).round < ROUNDS,
{
    let mut units: Vec<WorkUnit> = Vec::new();
    let mut round: usize = 0;
    while round < ROUNDS
        invariant
            0 <= round <= ROUNDS,
            units@.len() == round * input@.len(),
            forall|k: int| 0 <= k < units@.len() ==> units@[k] == planned_units(input@)[k],
            forall|k: int| 0 <= k < units@.len() ==> (#[trigger] units@[k]).round < ROUNDS,
        decreases ROUNDS - round,
    {
        let mut j: usize = 0;
        while j < input.len()
            invariant
                0 <= round < ROUNDS,
                0 <= j <= input@.len(),
                units@.len() == round * input@.len() + j,
                forall|k: int| 0 <= k < units@.len() ==> units@[k] == planned_units(input@)[k],
                forall|k: int| 0 <= k < units@.len() ==> (#[trigger] units@[k]).round < ROUNDS,
            decreases input.len() - j,
        {
            proof {
                lemma_planned_unit_at(input@, round as int, j as int);
            }
            units.push(WorkUnit { round, byte: input[j] });
            j += 1;
        }
        assert((round + 1) * input@.len() == round * input@.len() + input@.len())
            by (nonlinear_arith);
        round += 1;
    }
    units
}

/// Runs every unit of work for `input` from the same snapshot `initial`,
/// one after the other, and merges each result into a copy of `initial`.
pub fn accumulate(initial: &[u128; 4], input: &[u8]) -> (state: [u128; 4])
    ensures
        state@ == accumulated(initial@, input@),
{
    let ghost units: Seq<Seq<u128>> = all_units(initial@, input@);
    let mut state: [u128; 4] = *initial;
    let mut round: usize = 0;
    while round < ROUNDS
        invariant
            0 <= round <= ROUNDS,
            units == all_units(initial@, input@),
            0 <= round * input@.len() <= units.len(),
            state@ == merge_all(initial@, units.take(round * input@.len())),
        decreases ROUNDS - round,
    {
        let mut j: usize = 0;
        while j < input.len()
            invariant
                0 <= round < ROUNDS,
                0 <= j <= input@.len(),
                units == all_units(initial@, input@),
                0 <= round * input@.len() + j <= units.len(),
                state@ == merge_all(initial@, units.take(round * input@.len() + j)),
            decreases input.len() - j,
        {
            let result: [u128; 4] = unit_computation(initial, round, input[j]);
            proof {
                let k: int = round * input@.len() + j;
                lemma_planned_unit_at(input@, round as int, j as int);
                assert(units[k] == result@);
                assert(units.take(k + 1).drop_last() == units.take(k));
            }
            merge_into(&mut state, &result);
            j += 1;
        }
        assert((round + 1) * input@.len() == round * input@.len() + input@.len())
            by (nonlinear_arith);
        round += 1;
    }
    proof {
        assert(units.take(units.len() as int) == units);
    }
    state
}

} // verus!
