//! Keying material that accompanies an input: the random salt and the
//! pepper that is written from a time value and a process identifier.

use vstd::prelude::*;

verus! {

/// Number of characters in a salt.
pub const SALT_LENGTH: usize = 67;

/// Whether `c` is an ASCII letter or digit.
pub open spec fn is_alphanumeric(c: char) -> bool {
    ||| '0' <= c <= '9'
    ||| 'A' <= c <= 'Z'
    ||| 'a' <= c <= 'z'
}

/// Whether `s` has the shape of a salt: 67 ASCII letters and digits.
pub open spec fn is_salt(s: Seq<char>) -> bool {
    &&& s.len() == SALT_LENGTH
    &&& forall|i: int| 0 <= i < s.len() ==> is_alphanumeric(#[trigger] s[i])
}

/// Draws one character from `rand::distributions::Alphanumeric` with the
/// thread-local generator `rand::thread_rng()`.
///
/// Taken on trust: whatever is drawn is one of the 62 ASCII letters and
/// digits. Nothing is claimed about which one. The generator seeds itself
/// from the operating system and gives up only where that source cannot
/// be reached.
#[verifier::external_body]
fn sample_alphanumeric() -> (c: char)
    ensures
        is_alphanumeric(c),
{
    let byte: u8 = rand::Rng::sample(&mut rand::thread_rng(), rand::distributions::Alphanumeric);
    char::from(byte)
}

/// Draws a fresh salt: 67 random ASCII letters and digits.
pub fn generate_salt() -> (salt: String)
    ensures
        is_salt(salt@),
{
    let mut salt: String = String::new();
    let mut i: usize = 0;
    while i < SALT_LENGTH
        invariant
            0 <= i <= SALT_LENGTH,
            salt@.len() == i,
            forall|m: int| 0 <= m < salt@.len() ==> is_alphanumeric(#[trigger] salt@[m]),
        decreases SALT_LENGTH - i,
    {
        let c: char = sample_alphanumeric();
        salt.push(c);
        i += 1;
    }
    salt
}

/// The lower-case hexadecimal digit for a value below 16.
pub open spec fn hex_digit(d: int) -> char
    recommends
        0 <= d < 16,
{
    seq!['0', '1', '2', '3', '4', '5', '6', '7', '8', '9', 'a', 'b', 'c', 'd', 'e', 'f'][d]
}

/// The lower-case hexadecimal numeral of `v`: no prefix, no leading zeros,
/// `"0"` for zero.
pub open spec fn hex_digits(v: nat) -> Seq<char>
    decreases v,
{
    if v < 16 {
        seq![hex_digit(v as int)]
    } else {
        hex_digits(v / 16).push(hex_digit((v % 16) as int))
    }
}

/// The pepper for a time value and a process identifier: both in
/// lower-case hexadecimal, joined by a hyphen.
pub open spec fn pepper_text(time: u128, process_id: u32) -> Seq<char> {
    hex_digits(time as nat) + seq!['-'] + hex_digits(process_id as nat)
}

/// The character for one hexadecimal digit.
fn hex_digit_char(d: u8) -> (c: char)
    requires
        d < 16,
    ensures
        c == hex_digit(d as int),
{
    if d < 10 {
        (48u8 + d) as char
    } else {
        (97u8 + d - 10) as char
    }
}

/// Appends the lower-case hexadecimal numeral of `v` to `out`.
pub fn push_lower_hex(out: &mut String, v: u128)
    ensures
        final(out)@ == old(out)@ + hex_digits(v as nat),
{
    let mut low_first: Vec<char> = Vec::new();
    let mut rest: u128 = v;
    while rest >= 16
        invariant
            hex_digits(v as nat) == hex_digits(rest as nat) + low_first@.reverse(),
        decreases rest,
    {
        let c: char = hex_digit_char((rest % 16) as u8);
        proof {
            assert(low_first@.push(c).reverse() =~= seq![c] + low_first@.reverse());
            assert(hex_digits(rest as nat) == hex_digits((rest / 16) as nat).push(c));
            assert(hex_digits((rest / 16) as nat).push(c) + low_first@.reverse() =~= hex_digits(
                (rest / 16) as nat,
            ) + (seq![c] + low_first@.reverse()));
        }
        low_first.push(c);
        rest = rest / 16;
    }
    let c: char = hex_digit_char(rest as u8);
    proof {
        assert(low_first@.push(c).reverse() =~= seq![c] + low_first@.reverse());
    }
    low_first.push(c);
    let ghost digits: Seq<char> = hex_digits(v as nat);
    assert(digits == low_first@.reverse());
    let mut i: usize = low_first.len();
    while i > 0
        invariant
            0 <= i <= low_first@.len(),
            digits == low_first@.reverse(),
            out@ == old(out)@ + digits.subrange(0, low_first@.len() - i),
        decreases i,
    {
        i -= 1;
        proof {
            let n: int = low_first@.len() - i;
            assert(digits.subrange(0, n) =~= digits.subrange(0, n - 1).push(low_first@[i as int]));
            assert(old(out)@ + digits.subrange(0, n - 1).push(low_first@[i as int]) =~= (old(out)@
                + digits.subrange(0, n - 1)).push(low_first@[i as int]));
        }
        out.push(low_first[i]);
    }
    assert(digits.subrange(0, low_first@.len() as int) =~= digits);
}

/// Writes the pepper for a time value in nanoseconds and a process
/// identifier: `<time in hex>-<process id in hex>`.
pub fn generate_dynamic_pepper(time: u128, process_id: u32) -> (pepper: String)
    ensures
        pepper@ == pepper_text(time, process_id),
{
    let mut pepper: String = String::new();
    push_lower_hex(&mut pepper, time);
    pepper.push('-');
    push_lower_hex(&mut pepper, process_id as u128);
    assert(pepper@ =~= pepper_text(time, process_id));
    pepper
}

} // verus!
