//! The merge: word-wise XOR of four-word states, and its algebra.
//!
//! XOR is associative and commutative, so a merge gives the same state in
//! whatever order the results come in.

use vstd::prelude::*;
use vstd::seq_lib::lemma_fold_left_permutation;

verus! {

/// Word-wise XOR of two states.
pub open spec fn xor_words(a: Seq<u128>, b: Seq<u128>) -> Seq<u128>
    recommends
        a.len() == 4,
        b.len() == 4,
{
    Seq::new(4, |i: int| a[i] ^ b[i])
}

/// The merge step as a function value, for folding.
pub open spec fn merge_step() -> spec_fn(Seq<u128>, Seq<u128>) -> Seq<u128> {
    |acc: Seq<u128>, result: Seq<u128>| xor_words(acc, result)
}

/// `acc` after every state of `results` has been XORed into it, first to
/// last.
pub open spec fn merge_all(acc: Seq<u128>, results: Seq<Seq<u128>>) -> Seq<u128> {
    results.fold_left(acc, merge_step())
}

/// The state whose four words are zero: the neutral element of the merge.
pub open spec fn zero_words() -> Seq<u128> {
    Seq::new(4, |i: int| 0u128)
}

/// The views of a sequence of states.
pub open spec fn state_views(states: Seq<[u128; 4]>) -> Seq<Seq<u128>> {
    Seq::new(states.len(), |i: int| states[i]@)
}

/// XORs `result` into `acc`, word by word.
pub fn merge_into(acc: &mut [u128; 4], result: &[u128; 4])
    ensures
        final(acc)@ == xor_words(old(acc)@, result@),
{
    let ghost before: Seq<u128> = acc@;
    let mut i: usize = 0;
    while i < 4
        invariant
            0 <= i <= 4,
            forall|j: int| 0 <= j < i ==> acc@[j] == before[j] ^ result@[j],
            forall|j: int| i <= j < 4 ==> acc@[j] == before[j],
        decreases 4 - i,
    {
        acc[i] = acc[i] ^ result[i];
        i += 1;
    }
}

/// Merges `results` into a copy of `initial`. The results may be all of a
/// computation's units or only those that arrived: each one given is
/// merged, nothing else is.
pub fn merge_results(initial: &[u128; 4], results: &[[u128; 4]]) -> (state: [u128; 4])
    ensures
        state@ == merge_all(initial@, state_views(results@)),
{
    let mut state: [u128; 4] = *initial;
    let mut i: usize = 0;
    while i < results.len()
        invariant
            0 <= i <= results.len(),
            state@ == merge_all(initial@, state_views(results@).take(i as int)),
        decreases results.len() - i,
    {
        proof {
            let views = state_views(results@);
            assert(views.take(i + 1).drop_last() == views.take(i as int));
        }
        merge_into(&mut state, &results[i]);
        i += 1;
    }
    proof {
        let views = state_views(results@);
        assert(views.take(i as int) == views);
    }
    state
}

/// The results that arrived, in the order of their outcomes. An outcome
/// `None` stands for a unit whose result was lost: it is passed over.
pub open spec fn arrived_results(outcomes: Seq<Option<[u128; 4]>>) -> Seq<Seq<u128>>
    decreases outcomes.len(),
{
    if outcomes.len() == 0 {
        Seq::empty()
    } else {
        let front = arrived_results(outcomes.drop_last());
        match outcomes.last() {
            Some(result) => front.push(result@),
            None => front,
        }
    }
}

/// Merges the outcomes of a computation's units into a copy of `initial`.
///
/// A unit that did not report its result is left out of the merge, and
/// nothing is reported about it: the state then reflects the
/// contributions that did arrive and no others.
pub fn merge_outcomes(initial: &[u128; 4], outcomes: &[Option<[u128; 4]>]) -> (state: [u128; 4])
    ensures
        state@ == merge_all(initial@, arrived_results(outcomes@)),
{
    let mut state: [u128; 4] = *initial;
    let mut i: usize = 0;
    while i < outcomes.len()
        invariant
            0 <= i <= outcomes.len(),
            state@ == merge_all(initial@, arrived_results(outcomes@.take(i as int))),
        decreases outcomes.len() - i,
    {
        proof {
            let next = outcomes@.take(i + 1);
            assert(next.drop_last() == outcomes@.take(i as int));
            assert(next.last() == outcomes@[i as int]);
            if let Some(result) = outcomes@[i as int] {
                let front = arrived_results(outcomes@.take(i as int));
                assert(front.push(result@).drop_last() == front);
            }
        }
        match &outcomes[i] {
            Some(result) => {
                merge_into(&mut state, result);
            },
            None => {},
        }
        i += 1;
    }
    proof {
        assert(outcomes@.take(i as int) == outcomes@);
    }
    state
}

/// XOR of states is associative and commutative.
pub proof fn lemma_xor_words_laws(a: Seq<u128>, b: Seq<u128>, c: Seq<u128>)
    ensures
        xor_words(a, b) == xor_words(b, a),
        xor_words(xor_words(a, b), c) == xor_words(a, xor_words(b, c)),
        xor_words(xor_words(a, b), c) == xor_words(xor_words(a, c), b),
{
    assert forall|i: int| 0 <= i < 4 implies {
        &&& a[i] ^ b[i] == b[i] ^ a[i]
        &&& (a[i] ^ b[i]) ^ c[i] == a[i] ^ (b[i] ^ c[i])
        &&& (a[i] ^ b[i]) ^ c[i] == (a[i] ^ c[i]) ^ b[i]
    } by {
        let x: u128 = a[i];
        let y: u128 = b[i];
        let z: u128 = c[i];
        assert(x ^ y == y ^ x && (x ^ y) ^ z == x ^ (y ^ z) && (x ^ y) ^ z == (x ^ z) ^ y)
            by (bit_vector);
    }
    assert(xor_words(a, b) =~= xor_words(b, a));
    assert(xor_words(xor_words(a, b), c) =~= xor_words(a, xor_words(b, c)));
    assert(xor_words(xor_words(a, b), c) =~= xor_words(xor_words(a, c), b));
}

/// The zero state is neutral, and every state is its own inverse.
pub proof fn lemma_xor_words_zero(a: Seq<u128>)
    requires
        a.len() == 4,
    ensures
        xor_words(a, zero_words()) == a,
        xor_words(a, a) == zero_words(),
{
    assert forall|i: int| 0 <= i < 4 implies a[i] ^ 0u128 == a[i] && a[i] ^ a[i] == 0u128 by {
        let x: u128 = a[i];
        assert(x ^ 0u128 == x && x ^ x == 0u128) by (bit_vector);
    }
    assert(xor_words(a, zero_words()) =~= a);
    assert(xor_words(a, a) =~= zero_words());
}

/// Merging one more result XORs it into what was merged before.
pub proof fn lemma_merge_push(acc: Seq<u128>, results: Seq<Seq<u128>>, last: Seq<u128>)
    ensures
        merge_all(acc, results.push(last)) == xor_words(merge_all(acc, results), last),
{
    assert(results.push(last).drop_last() =~= results);
}

/// A merge into a four-word state is a four-word state.
pub proof fn lemma_merge_len(acc: Seq<u128>, results: Seq<Seq<u128>>)
    requires
        acc.len() == 4,
    ensures
        merge_all(acc, results).len() == 4,
    decreases results.len(),
{
    if results.len() > 0 {
        lemma_merge_len(acc, results.drop_last());
    }
}

/// Merging two batches one after the other is merging their concatenation.
pub proof fn lemma_merge_concat(acc: Seq<u128>, first: Seq<Seq<u128>>, second: Seq<Seq<u128>>)
    ensures
        merge_all(acc, first + second) == merge_all(merge_all(acc, first), second),
    decreases second.len(),
{
    if second.len() == 0 {
        assert(first + second =~= first);
    } else {
        lemma_merge_concat(acc, first, second.drop_last());
        assert((first + second).drop_last() =~= first + second.drop_last());
    }
}

/// A merge into `acc` is `acc` XORed with the merge into the zero state.
pub proof fn lemma_merge_from_zero(acc: Seq<u128>, results: Seq<Seq<u128>>)
    requires
        acc.len() == 4,
    ensures
        merge_all(acc, results) == xor_words(acc, merge_all(zero_words(), results)),
    decreases results.len(),
{
    if results.len() == 0 {
        lemma_xor_words_zero(acc);
    } else {
        lemma_merge_from_zero(acc, results.drop_last());
        lemma_xor_words_laws(acc, merge_all(zero_words(), results.drop_last()), results.last());
    }
}

/// Regrouping four states under XOR.
pub proof fn lemma_xor_words_regroup(a: Seq<u128>, c: Seq<u128>, f: Seq<u128>, u: Seq<u128>)
    ensures
        xor_words(xor_words(xor_words(a, c), f), u) == xor_words(
            xor_words(a, f),
            xor_words(c, u),
        ),
{
    lemma_xor_words_laws(a, c, f);
    lemma_xor_words_laws(xor_words(a, f), c, u);
}

/// Merging is independent of the order in which results arrive: two
/// sequences that hold the same results, each as often as the other,
/// merge to the same state.
pub proof fn lemma_merge_order_independent(
    acc: Seq<u128>,
    first: Seq<Seq<u128>>,
    second: Seq<Seq<u128>>,
)
    requires
        first.to_multiset() == second.to_multiset(),
    ensures
        merge_all(acc, first) == merge_all(acc, second),
{
    assert forall|x: Seq<u128>, y: Seq<u128>, v: Seq<u128>|
        #[trigger] merge_step()(merge_step()(v, x), y) == merge_step()(merge_step()(v, y), x) by {
        lemma_xor_words_laws(v, x, y);
    }
    lemma_fold_left_permutation(first, second, merge_step(), acc);
}

} // verus!
