//! Renderings of a digest: a string of binary digits and Base64 text.

use vstd::prelude::*;

verus! {

/// Digit `j` of the eight binary digits of `byte`, most significant first.
pub open spec fn bit_char(byte: u8, j: int) -> char
    recommends
        0 <= j < 8,
{
    if (byte >> ((7 - j) as u8)) & 1 == 1 {
        '1'
    } else {
        '0'
    }
}

/// The binary digits of a byte sequence: eight per byte, most significant
/// bit first, bytes in order.
pub open spec fn binary_digits(bytes: Seq<u8>) -> Seq<char> {
    Seq::new(8 * bytes.len(), |k: int| bit_char(bytes[k / 8], k % 8))
}

/// Renders a digest as 256 characters `'0'` and `'1'`.
pub fn hash_to_binary_string(hash: &[u8; 32]) -> (s: String)
    ensures
        s@ == binary_digits(hash@),
        s@.len() == 256,
{
    let mut s: String = String::new();
    let mut k: usize = 0;
    while k < 256
        invariant
            0 <= k <= 256,
            s@.len() == k,
            forall|m: int| 0 <= m < k ==> s@[m] == bit_char(hash@[m / 8], m % 8),
        decreases 256 - k,
    {
        let byte: u8 = hash[k / 8];
        let shift: u8 = (7 - k % 8) as u8;
        if (byte >> shift) & 1 == 1 {
            s.push('1');
        } else {
            s.push('0');
        }
        k += 1;
    }
    assert(s@ =~= binary_digits(hash@));
    s
}

/// The value of a binary digit: 1 for `'1'`, 0 for anything else.
pub open spec fn digit_value(c: char) -> int {
    if c == '1' {
        1
    } else {
        0
    }
}

/// The byte that eight binary digits spell, most significant first.
pub open spec fn byte_of_digits(digits: Seq<char>) -> u8
    recommends
        digits.len() == 8,
{
    (128 * digit_value(digits[0]) + 64 * digit_value(digits[1]) + 32 * digit_value(digits[2]) + 16
        * digit_value(digits[3]) + 8 * digit_value(digits[4]) + 4 * digit_value(digits[5]) + 2
        * digit_value(digits[6]) + digit_value(digits[7])) as u8
}

/// The bytes that a string of binary digits spells when it is read eight
/// digits at a time.
pub open spec fn bytes_of_digits(digits: Seq<char>) -> Seq<u8> {
    Seq::new(digits.len() / 8, |i: int| byte_of_digits(digits.subrange(8 * i, 8 * i + 8)))
}

/// A byte is the weighted sum of its bits.
proof fn lemma_byte_is_sum_of_bits(b: u8)
    ensures
        128 * ((b >> 7u8) & 1) + 64 * ((b >> 6u8) & 1) + 32 * ((b >> 5u8) & 1) + 16 * ((b >> 4u8)
            & 1) + 8 * ((b >> 3u8) & 1) + 4 * ((b >> 2u8) & 1) + 2 * ((b >> 1u8) & 1) + ((b >> 0u8)
            & 1) == b,
        (b >> 7u8) & 1 <= 1,
        (b >> 6u8) & 1 <= 1,
        (b >> 5u8) & 1 <= 1,
        (b >> 4u8) & 1 <= 1,
        (b >> 3u8) & 1 <= 1,
        (b >> 2u8) & 1 <= 1,
        (b >> 1u8) & 1 <= 1,
        (b >> 0u8) & 1 <= 1,
{
    assert(128 * ((b >> 7u8) & 1) + 64 * ((b >> 6u8) & 1) + 32 * ((b >> 5u8) & 1) + 16 * ((b
        >> 4u8) & 1) + 8 * ((b >> 3u8) & 1) + 4 * ((b >> 2u8) & 1) + 2 * ((b >> 1u8) & 1) + ((b
        >> 0u8) & 1) == b) by (bit_vector);
    assert((b >> 7u8) & 1 <= 1 && (b >> 6u8) & 1 <= 1 && (b >> 5u8) & 1 <= 1 && (b >> 4u8) & 1 <= 1
        && (b >> 3u8) & 1 <= 1 && (b >> 2u8) & 1 <= 1 && (b >> 1u8) & 1 <= 1 && (b >> 0u8) & 1
        <= 1) by (bit_vector);
}

/// The binary rendering has eight digits per byte and, read back eight
/// digits at a time, spells the bytes it was made from.
pub proof fn lemma_binary_digits_roundtrip(bytes: Seq<u8>)
    ensures
        binary_digits(bytes).len() == 8 * bytes.len(),
        bytes_of_digits(binary_digits(bytes)) == bytes,
{
    let digits = binary_digits(bytes);
    let read = bytes_of_digits(digits);
    assert(read.len() == bytes.len());
    assert forall|i: int| 0 <= i < bytes.len() implies read[i] == bytes[i] by {
        let group = digits.subrange(8 * i, 8 * i + 8);
        let b: u8 = bytes[i];
        assert forall|j: int| 0 <= j < 8 implies #[trigger] group[j] == bit_char(b, j) by {
            assert((8 * i + j) / 8 == i && (8 * i + j) % 8 == j);
        }
        lemma_byte_is_sum_of_bits(b);
        assert(digit_value(group[0]) == (b >> 7u8) & 1);
        assert(digit_value(group[1]) == (b >> 6u8) & 1);
        assert(digit_value(group[2]) == (b >> 5u8) & 1);
        assert(digit_value(group[3]) == (b >> 4u8) & 1);
        assert(digit_value(group[4]) == (b >> 3u8) & 1);
        assert(digit_value(group[5]) == (b >> 2u8) & 1);
        assert(digit_value(group[6]) == (b >> 1u8) & 1);
        assert(digit_value(group[7]) == (b >> 0u8) & 1);
    }
    assert(read =~= bytes);
}

/// The text that `base64::encode` makes of a byte sequence: Base64 in the
/// standard alphabet, padded with `=`, without line breaks.
pub uninterp spec fn base64_text(bytes: Seq<u8>) -> Seq<char>;

/// Calls `base64::encode` on the 32 bytes of a digest.
///
/// Taken on trust: the result is the crate's standard padded encoding of
/// exactly these bytes, and for 32 bytes of input it has 44 characters
/// (ten full groups of three bytes, four characters each, and one padded
/// group for the two bytes left over).
#[verifier::external_body]
fn encode_base64(hash: &[u8; 32]) -> (text: String)
    ensures
        text@ == base64_text(hash@),
        text@.len() == 44,
{
    base64::encode(hash)
}

/// Renders a digest as padded Base64 text in the standard alphabet.
pub fn hash_to_base64(hash: &[u8; 32]) -> (text: String)
    ensures
        text@ == base64_text(hash@),
        text@.len() == 44,
{
    encode_base64(hash)
}

} // verus!
