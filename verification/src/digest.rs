//! The digest: the initial state, the combined input, the finalizer that
//! truncates a state to 32 bytes, and the hash function itself.

use crate::accumulator::{accumulate, accumulated, all_units};
use crate::merge::{arrived_results, lemma_merge_order_independent, merge_all, merge_outcomes};
use vstd::prelude::*;
use vstd::utf8::encode_utf8;

verus! {

/// First word of the initial state.
pub const IV0: u128 = 0x6a09e667f3bcc908;

/// Second word of the initial state.
pub const IV1: u128 = 0xbb67ae8584caa73b;

/// Third word of the initial state.
pub const IV2: u128 = 0x3c6ef372fe94f82b;

/// Fourth word of the initial state.
pub const IV3: u128 = 0xa54ff53a5f1d36f1;

/// The initial state as a sequence of words.
pub open spec fn initial_words() -> Seq<u128> {
    seq![IV0, IV1, IV2, IV3]
}

/// Byte `j` of `word`, counted from the least significant byte.
pub open spec fn word_byte(word: u128, j: int) -> u8
    recommends
        0 <= j < 16,
{
    ((word >> ((8 * j) as u32)) & 0xff) as u8
}

/// The digest of a state: for each word in order, its eight low-order
/// bytes, least significant first.
pub open spec fn digest_bytes(state: Seq<u128>) -> Seq<u8>
    recommends
        state.len() == 4,
{
    Seq::new(32, |k: int| word_byte(state[k / 8], k % 8))
}

/// The bytes that drive the hash: the UTF-8 encodings of pepper, input and
/// salt, in that order.
pub open spec fn combined_input(input: Seq<char>, salt: Seq<char>, pepper: Seq<char>) -> Seq<u8> {
    encode_utf8(pepper) + encode_utf8(input) + encode_utf8(salt)
}

/// The digest of a combined input.
pub open spec fn digest_of(bytes: Seq<u8>) -> Seq<u8> {
    digest_bytes(accumulated(initial_words(), bytes))
}

/// The digest of `input` under `salt` and `pepper`.
pub open spec fn hash_of(input: Seq<char>, salt: Seq<char>, pepper: Seq<char>) -> Seq<u8> {
    digest_of(combined_input(input, salt, pepper))
}

/// A fresh copy of the initial state.
pub fn initial_state() -> (state: [u128; 4])
    ensures
        state@ == initial_words(),
{
    let state: [u128; 4] = [IV0, IV1, IV2, IV3];
    assert(state@ =~= initial_words());
    state
}

/// Truncates each word of `state` to its eight low-order bytes, least
/// significant first, and concatenates the four groups in word order.
pub fn finalize(state: &[u128; 4]) -> (digest: [u8; 32])
    ensures
        digest@ == digest_bytes(state@),
{
    let mut digest: [u8; 32] = [0u8; 32];
    let mut k: usize = 0;
    while k < 32
        invariant
            0 <= k <= 32,
            forall|m: int| 0 <= m < k ==> digest@[m] == word_byte(state@[m / 8], m % 8),
        decreases 32 - k,
    {
        let word: u128 = state[k / 8];
        let shift: u32 = (8 * (k % 8)) as u32;
        let low: u128 = (word >> shift) & 0xff;
        assert(low < 256) by (bit_vector)
            requires
                low == (word >> shift) & 0xff,
        ;
        digest[k] = low as u8;
        k += 1;
    }
    assert(digest@ =~= digest_bytes(state@));
    digest
}

/// Concatenates the UTF-8 bytes of pepper, input and salt, in that order.
pub fn combine_inputs(input: &str, salt: &str, pepper: &str) -> (bytes: Vec<u8>)
    ensures
        bytes@ == combined_input(input@, salt@, pepper@),
{
    let mut bytes: Vec<u8> = Vec::new();
    bytes.extend_from_slice(pepper.as_bytes());
    bytes.extend_from_slice(input.as_bytes());
    bytes.extend_from_slice(salt.as_bytes());
    assert(bytes@ =~= combined_input(input@, salt@, pepper@));
    bytes
}

/// Computes the 256-bit digest of `input` under `salt` and `pepper`.
///
/// Every round is paired with every byte of pepper, input and salt; each
/// pair is mixed into its own copy of the initial state, and all the
/// results are XOR-merged into the initial state, which is then truncated
/// to 32 bytes.
pub fn advanced_hash(input: &str, salt: &str, pepper: &str) -> (digest: [u8; 32])
    ensures
        digest@ == hash_of(input@, salt@, pepper@),
        digest@.len() == 32,
{
    let state: [u128; 4] = initial_state();
    let combined: Vec<u8> = combine_inputs(input, salt, pepper);
    let merged: [u128; 4] = accumulate(&state, combined.as_slice());
    finalize(&merged)
}

/// The digest that follows from the outcomes of the units of work, merged
/// in the order given. A unit whose result was lost contributes nothing:
/// the digest then reflects the contributions that did arrive.
pub fn digest_from_outcomes(outcomes: &[Option<[u128; 4]>]) -> (digest: [u8; 32])
    ensures
        digest@ == digest_bytes(merge_all(initial_words(), arrived_results(outcomes@))),
        digest@.len() == 32,
{
    let state: [u128; 4] = initial_state();
    let merged: [u128; 4] = merge_outcomes(&state, outcomes);
    finalize(&merged)
}

/// A digest has 32 bytes, whatever the input, the salt and the pepper,
/// empty strings included.
pub proof fn lemma_digest_length(input: Seq<char>, salt: Seq<char>, pepper: Seq<char>)
    ensures
        hash_of(input, salt, pepper).len() == 32,
{
}

/// The digest does not depend on the order in which the units of work
/// complete: whenever `arrived` holds exactly the results of the units
/// planned for the combined input, in any order, merging it into the
/// initial state and truncating gives the digest.
pub proof fn lemma_digest_order_independent(
    input: Seq<char>,
    salt: Seq<char>,
    pepper: Seq<char>,
    arrived: Seq<Seq<u128>>,
)
    requires
        arrived.to_multiset() == all_units(
            initial_words(),
            combined_input(input, salt, pepper),
        ).to_multiset(),
    ensures
        digest_bytes(merge_all(initial_words(), arrived)) == hash_of(input, salt, pepper),
{
    lemma_merge_order_independent(
        initial_words(),
        arrived,
        all_units(initial_words(), combined_input(input, salt, pepper)),
    );
}

} // verus!
