//! How the digest responds to changes of its input.
//!
//! Every byte contributes to the accumulated state independently of its
//! place and of its neighbours, so a run of bytes leaves a footprint in
//! the digest that depends on the run alone. Replacing one run by another
//! shows in the digest exactly when their footprints differ, and
//! rearranging bytes never shows.

use crate::accumulator::{accumulate, accumulated};
use crate::contribution::{
    contributions, lemma_accumulated_by_bytes, lemma_contributions_concat,
    lemma_contributions_len, lemma_contributions_order_independent,
};
use crate::digest::{
    combined_input, digest_bytes, digest_of, finalize, hash_of, initial_state, initial_words,
    word_byte,
};
use crate::merge::{lemma_xor_words_laws, lemma_xor_words_zero, merge_into, xor_words};
use vstd::prelude::*;
use vstd::utf8::encode_utf8;

verus! {

/// The low-order 64 bits of a word: the part that reaches the digest.
pub open spec fn low_half(word: u128) -> u128 {
    word & 0xffff_ffff_ffff_ffff
}

/// What a run of bytes leaves in a digest: the digest bytes of the XOR of
/// its contributions. It depends on the bytes alone, not on what stands
/// around them.
pub open spec fn footprint(bytes: Seq<u8>) -> Seq<u8> {
    digest_bytes(contributions(initial_words(), bytes))
}

/// The footprint of the UTF-8 encoding of one character.
pub open spec fn char_footprint(c: char) -> Seq<u8> {
    footprint(encode_utf8(seq![c]))
}

/// The eight low-order bytes of a word are those of its low half, and
/// they determine the low half.
proof fn lemma_word_bytes(x: u128, y: u128)
    ensures
        forall|j: int| 0 <= j < 8 ==> #[trigger] word_byte(x, j) == word_byte(low_half(x), j),
        (forall|j: int| 0 <= j < 8 ==> #[trigger] word_byte(x, j) == word_byte(y, j)) ==> low_half(
            x,
        ) == low_half(y),
{
    assert forall|j: int| 0 <= j < 8 implies #[trigger] word_byte(x, j) == word_byte(
        low_half(x),
        j,
    ) by {
        let s: u32 = (8 * j) as u32;
        assert((x >> s) & 0xff == ((x & 0xffff_ffff_ffff_ffff) >> s) & 0xff) by (bit_vector)
            requires
                s <= 56,
        ;
    }
    if forall|j: int| 0 <= j < 8 ==> #[trigger] word_byte(x, j) == word_byte(y, j) {
        assert forall|s: u32| s <= 56 implies #[trigger] ((x >> s) & 0xff) < 256 && #[trigger] ((y
            >> s) & 0xff) < 256 by {
            assert(((x >> s) & 0xff) < 256 && ((y >> s) & 0xff) < 256) by (bit_vector);
        }
        assert(word_byte(x, 0) == word_byte(y, 0));
        assert(word_byte(x, 1) == word_byte(y, 1));
        assert(word_byte(x, 2) == word_byte(y, 2));
        assert(word_byte(x, 3) == word_byte(y, 3));
        assert(word_byte(x, 4) == word_byte(y, 4));
        assert(word_byte(x, 5) == word_byte(y, 5));
        assert(word_byte(x, 6) == word_byte(y, 6));
        assert(word_byte(x, 7) == word_byte(y, 7));
        assert((x >> 0u32) & 0xff == (y >> 0u32) & 0xff);
        assert((x >> 8u32) & 0xff == (y >> 8u32) & 0xff);
        assert((x >> 16u32) & 0xff == (y >> 16u32) & 0xff);
        assert((x >> 24u32) & 0xff == (y >> 24u32) & 0xff);
        assert((x >> 32u32) & 0xff == (y >> 32u32) & 0xff);
        assert((x >> 40u32) & 0xff == (y >> 40u32) & 0xff);
        assert((x >> 48u32) & 0xff == (y >> 48u32) & 0xff);
        assert((x >> 56u32) & 0xff == (y >> 56u32) & 0xff);
        assert(x & 0xffff_ffff_ffff_ffff == y & 0xffff_ffff_ffff_ffff) by (bit_vector)
            requires
                (x >> 0u32) & 0xff == (y >> 0u32) & 0xff,
                (x >> 8u32) & 0xff == (y >> 8u32) & 0xff,
                (x >> 16u32) & 0xff == (y >> 16u32) & 0xff,
                (x >> 24u32) & 0xff == (y >> 24u32) & 0xff,
                (x >> 32u32) & 0xff == (y >> 32u32) & 0xff,
                (x >> 40u32) & 0xff == (y >> 40u32) & 0xff,
                (x >> 48u32) & 0xff == (y >> 48u32) & 0xff,
                (x >> 56u32) & 0xff == (y >> 56u32) & 0xff,
        ;
    }
}

/// Two states have the same digest exactly when their words agree in
/// their low halves.
pub proof fn lemma_digest_bytes_equal(a: Seq<u128>, b: Seq<u128>)
    ensures
        digest_bytes(a) == digest_bytes(b) <==> (forall|i: int|
            0 <= i < 4 ==> low_half(#[trigger] a[i]) == low_half(#[trigger] b[i])),
{
    if digest_bytes(a) == digest_bytes(b) {
        assert forall|i: int| 0 <= i < 4 implies low_half(#[trigger] a[i]) == low_half(
            #[trigger] b[i],
        ) by {
            assert forall|j: int| 0 <= j < 8 implies #[trigger] word_byte(a[i], j) == word_byte(
                b[i],
                j,
            ) by {
                let k: int = 8 * i + j;
                assert(k / 8 == i && k % 8 == j);
                assert(digest_bytes(a)[k] == digest_bytes(b)[k]);
            }
            lemma_word_bytes(a[i], b[i]);
        }
    }
    if forall|i: int| 0 <= i < 4 ==> low_half(#[trigger] a[i]) == low_half(#[trigger] b[i]) {
        assert forall|k: int| 0 <= k < 32 implies digest_bytes(a)[k] == digest_bytes(b)[k] by {
            let i: int = k / 8;
            let j: int = k % 8;
            lemma_word_bytes(a[i], b[i]);
            lemma_word_bytes(b[i], a[i]);
            assert(low_half(a[i]) == low_half(b[i]));
            assert(word_byte(a[i], j) == word_byte(low_half(a[i]), j));
            assert(word_byte(b[i], j) == word_byte(low_half(b[i]), j));
        }
        assert(digest_bytes(a) =~= digest_bytes(b));
    }
}

/// The digest of an input depends only on which bytes the input holds and
/// how often: two inputs that are rearrangements of each other have the
/// same digest.
pub proof fn lemma_digest_of_rearrangement(first: Seq<u8>, second: Seq<u8>)
    requires
        first.to_multiset() == second.to_multiset(),
    ensures
        digest_of(first) == digest_of(second),
{
    let initial = initial_words();
    lemma_accumulated_by_bytes(initial, first);
    lemma_accumulated_by_bytes(initial, second);
    lemma_contributions_order_independent(initial, first, second);
}

/// Replacing a run of bytes inside an input changes the digest exactly
/// when the old run and the new one have different footprints.
pub proof fn lemma_digest_of_replacement(
    before: Seq<u8>,
    old_run: Seq<u8>,
    new_run: Seq<u8>,
    after: Seq<u8>,
)
    ensures
        digest_of(before + old_run + after) != digest_of(before + new_run + after) <==> footprint(
            old_run,
        ) != footprint(new_run),
{
    let initial = initial_words();
    let p = contributions(initial, before);
    let x = contributions(initial, old_run);
    let y = contributions(initial, new_run);
    let q = contributions(initial, after);
    lemma_accumulated_by_bytes(initial, before + old_run + after);
    lemma_accumulated_by_bytes(initial, before + new_run + after);
    lemma_contributions_concat(initial, before, old_run);
    lemma_contributions_concat(initial, before + old_run, after);
    lemma_contributions_concat(initial, before, new_run);
    lemma_contributions_concat(initial, before + new_run, after);
    let with_old = xor_words(initial, xor_words(xor_words(p, x), q));
    let with_new = xor_words(initial, xor_words(xor_words(p, y), q));
    assert(accumulated(initial, before + old_run + after) == with_old);
    assert(accumulated(initial, before + new_run + after) == with_new);
    assert forall|i: int| 0 <= i < 4 implies (low_half(#[trigger] with_old[i]) == low_half(
        #[trigger] with_new[i],
    ) <==> low_half(x[i]) == low_half(y[i])) by {
        let s: u128 = initial[i];
        let pi: u128 = p[i];
        let xi: u128 = x[i];
        let yi: u128 = y[i];
        let qi: u128 = q[i];
        assert(((s ^ ((pi ^ xi) ^ qi)) & 0xffff_ffff_ffff_ffff == (s ^ ((pi ^ yi) ^ qi))
            & 0xffff_ffff_ffff_ffff) <==> (xi & 0xffff_ffff_ffff_ffff == yi
            & 0xffff_ffff_ffff_ffff)) by (bit_vector);
    }
    lemma_digest_bytes_equal(with_old, with_new);
    lemma_digest_bytes_equal(x, y);
    if footprint(old_run) == footprint(new_run) {
        assert forall|i: int| 0 <= i < 4 implies low_half(#[trigger] with_old[i]) == low_half(
            #[trigger] with_new[i],
        ) by {
            assert(low_half(x[i]) == low_half(y[i]));
        }
    }
    if digest_bytes(with_old) == digest_bytes(with_new) {
        assert forall|i: int| 0 <= i < 4 implies low_half(#[trigger] x[i]) == low_half(
            #[trigger] y[i],
        ) by {
            assert(low_half(with_old[i]) == low_half(with_new[i]));
        }
    }
}

/// The UTF-8 encoding of a concatenation is the concatenation of the
/// encodings.
pub proof fn lemma_encode_utf8_concat(first: Seq<char>, second: Seq<char>)
    ensures
        encode_utf8(first + second) == encode_utf8(first) + encode_utf8(second),
    decreases first.len(),
{
    if first.len() == 0 {
        assert(first + second =~= second);
        assert(encode_utf8(first) + encode_utf8(second) =~= encode_utf8(second));
    } else {
        lemma_encode_utf8_concat(first.drop_first(), second);
        assert((first + second).drop_first() =~= first.drop_first() + second);
        assert(encode_utf8(first + second) =~= encode_utf8(first) + encode_utf8(second));
    }
}

/// The encoding of a text around one character, between two runs of
/// bytes, splits at that character.
proof fn lemma_split_at_char(
    prefix: Seq<u8>,
    before: Seq<char>,
    c: char,
    after: Seq<char>,
    suffix: Seq<u8>,
)
    ensures
        prefix + encode_utf8(before + seq![c] + after) + suffix == (prefix + encode_utf8(before))
            + encode_utf8(seq![c]) + (encode_utf8(after) + suffix),
{
    lemma_encode_utf8_concat(before + seq![c], after);
    lemma_encode_utf8_concat(before, seq![c]);
    assert(prefix + encode_utf8(before + seq![c] + after) + suffix =~= (prefix + encode_utf8(
        before,
    )) + encode_utf8(seq![c]) + (encode_utf8(after) + suffix));
}

/// Replacing one character of a text that is hashed between two runs of
/// bytes changes the digest exactly when the two characters differ in
/// their footprints.
proof fn lemma_char_replacement(
    prefix: Seq<u8>,
    before: Seq<char>,
    old_char: char,
    new_char: char,
    after: Seq<char>,
    suffix: Seq<u8>,
)
    ensures
        digest_of(prefix + encode_utf8(before + seq![old_char] + after) + suffix) != digest_of(
            prefix + encode_utf8(before + seq![new_char] + after) + suffix,
        ) <==> char_footprint(old_char) != char_footprint(new_char),
{
    lemma_split_at_char(prefix, before, old_char, after, suffix);
    lemma_split_at_char(prefix, before, new_char, after, suffix);
    lemma_digest_of_replacement(
        prefix + encode_utf8(before),
        encode_utf8(seq![old_char]),
        encode_utf8(seq![new_char]),
        encode_utf8(after) + suffix,
    );
}

/// Whether replacing `old_char` by `new_char` at one place changes the
/// digest, for each of the three arguments that the place may lie in.
///
/// The text that changes is `before`, the character, `after`; `first` and
/// `second` are the two arguments that stay as they are. The three lines
/// put the changing text in the place of the input, of the salt and of the
/// pepper.
pub open spec fn replacement_changes_digest(
    before: Seq<char>,
    old_char: char,
    new_char: char,
    after: Seq<char>,
    first: Seq<char>,
    second: Seq<char>,
) -> bool {
    let old_text = before + seq![old_char] + after;
    let new_text = before + seq![new_char] + after;
    &&& hash_of(old_text, first, second) != hash_of(new_text, first, second)
    &&& hash_of(first, old_text, second) != hash_of(first, new_text, second)
    &&& hash_of(first, second, old_text) != hash_of(first, second, new_text)
}

/// Whether replacing `old_char` by `new_char` at one place leaves the
/// digest as it was, for each of the three arguments that the place may
/// lie in.
pub open spec fn replacement_keeps_digest(
    before: Seq<char>,
    old_char: char,
    new_char: char,
    after: Seq<char>,
    first: Seq<char>,
    second: Seq<char>,
) -> bool {
    let old_text = before + seq![old_char] + after;
    let new_text = before + seq![new_char] + after;
    &&& hash_of(old_text, first, second) == hash_of(new_text, first, second)
    &&& hash_of(first, old_text, second) == hash_of(first, new_text, second)
    &&& hash_of(first, second, old_text) == hash_of(first, second, new_text)
}

/// What replacing one character does to the digest is decided by the two
/// characters alone, wherever the place lies and whatever surrounds it.
proof fn lemma_replacement_decided_by_chars(
    before: Seq<char>,
    old_char: char,
    new_char: char,
    after: Seq<char>,
    first: Seq<char>,
    second: Seq<char>,
)
    ensures
        char_footprint(old_char) != char_footprint(new_char) ==> replacement_changes_digest(
            before,
            old_char,
            new_char,
            after,
            first,
            second,
        ),
        char_footprint(old_char) == char_footprint(new_char) ==> replacement_keeps_digest(
            before,
            old_char,
            new_char,
            after,
            first,
            second,
        ),
{
    let old_text = before + seq![old_char] + after;
    let new_text = before + seq![new_char] + after;
    let none = Seq::<u8>::empty();
    let a = encode_utf8(first);
    let b = encode_utf8(second);
    // The place lies in the input: pepper before it, salt after it.
    lemma_char_replacement(b, before, old_char, new_char, after, a);
    // The place lies in the salt: pepper and input before it.
    lemma_char_replacement(b + a, before, old_char, new_char, after, none);
    assert(combined_input(first, old_text, second) =~= (b + a) + encode_utf8(old_text) + none);
    assert(combined_input(first, new_text, second) =~= (b + a) + encode_utf8(new_text) + none);
    // The place lies in the pepper: input and salt after it.
    lemma_char_replacement(none, before, old_char, new_char, after, a + b);
    assert(combined_input(first, second, old_text) =~= none + encode_utf8(old_text) + (a + b));
    assert(combined_input(first, second, new_text) =~= none + encode_utf8(new_text) + (a + b));
}

/// Changing a single character of the input, of the salt or of the pepper
/// changes the digest, for every pair of characters that differ in their
/// footprints.
pub proof fn lemma_sensitivity(
    before: Seq<char>,
    old_char: char,
    new_char: char,
    after: Seq<char>,
    first: Seq<char>,
    second: Seq<char>,
)
    requires
        char_footprint(old_char) != char_footprint(new_char),
    ensures
        replacement_changes_digest(before, old_char, new_char, after, first, second),
{
    lemma_replacement_decided_by_chars(before, old_char, new_char, after, first, second);
}

/// Two characters with the same footprint can stand in for each other
/// anywhere without a trace in the digest: these are the only
/// replacements that the digest does not show.
pub proof fn lemma_same_footprint_same_digest(
    before: Seq<char>,
    old_char: char,
    new_char: char,
    after: Seq<char>,
    first: Seq<char>,
    second: Seq<char>,
)
    requires
        char_footprint(old_char) == char_footprint(new_char),
    ensures
        replacement_keeps_digest(before, old_char, new_char, after, first, second),
{
    lemma_replacement_decided_by_chars(before, old_char, new_char, after, first, second);
}

/// Computes the footprint of a run of bytes.
pub fn footprint_of(bytes: &[u8]) -> (print: [u8; 32])
    ensures
        print@ == footprint(bytes@),
{
    let initial: [u128; 4] = initial_state();
    let mut state: [u128; 4] = accumulate(&initial, bytes);
    merge_into(&mut state, &initial);
    proof {
        let own = contributions(initial@, bytes@);
        lemma_accumulated_by_bytes(initial@, bytes@);
        lemma_contributions_len(initial@, bytes@);
        // (initial ^ own) ^ initial == (initial ^ initial) ^ own == own
        lemma_xor_words_laws(initial@, own, initial@);
        lemma_xor_words_zero(initial@);
        lemma_xor_words_laws(own, initial@, initial@);
        lemma_xor_words_zero(own);
        assert(state@ == own);
    }
    finalize(&state)
}

/// Tells whether the digest shows the replacement of `old_char` by
/// `new_char`: whether the two differ in their footprints. The answer
/// holds wherever the character stands, in input, salt or pepper.
pub fn shows_replacement(old_char: char, new_char: char) -> (shown: bool)
    ensures
        shown == (char_footprint(old_char) != char_footprint(new_char)),
{
    let mut old_text: String = String::new();
    old_text.push(old_char);
    let mut new_text: String = String::new();
    new_text.push(new_char);
    assert(old_text@ =~= seq![old_char]);
    assert(new_text@ =~= seq![new_char]);
    let old_print: [u8; 32] = footprint_of(old_text.as_str().as_bytes());
    let new_print: [u8; 32] = footprint_of(new_text.as_str().as_bytes());
    let mut k: usize = 0;
    while k < 32
        invariant
            0 <= k <= 32,
            old_print@ == char_footprint(old_char),
            new_print@ == char_footprint(new_char),
            forall|m: int| 0 <= m < k ==> old_print@[m] == new_print@[m],
        decreases 32 - k,
    {
        if old_print[k] != new_print[k] {
            return true;
        }
        k += 1;
    }
    assert(old_print@ =~= new_print@);
    false
}

} // verus!
