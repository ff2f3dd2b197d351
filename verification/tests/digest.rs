use advanced_hash::accumulator::{schedule_units, unit_computation};
use advanced_hash::digest::{
    advanced_hash, combine_inputs, digest_from_outcomes, finalize, initial_state,
};
use rand::seq::SliceRandom;

/// The digest written out with the standard library's operations, one
/// unit after the other.
fn digest_with_std(input: &str, salt: &str, pepper: &str) -> [u8; 32] {
    const PRIME: u128 = 0x100000001b3;
    let initial: [u128; 4] = [
        0x6a09e667f3bcc908,
        0xbb67ae8584caa73b,
        0x3c6ef372fe94f82b,
        0xa54ff53a5f1d36f1,
    ];
    let mut state = initial;
    let combined = format!("{}{}{}", pepper, input, salt);
    for round in 0..256usize {
        for byte in combined.bytes() {
            let dynamic_salt = (round as u128).wrapping_add(PRIME) ^ (initial[round % 4] & 0xff);
            let mixed = u128::from(byte).wrapping_add(dynamic_salt);
            let mut chunk = initial;
            for i in 0..4 {
                chunk[i] ^= mixed;
                chunk[i] = chunk[i].wrapping_add(PRIME);
                chunk[i] = chunk[i].rotate_left((round % 16 + i * 8) as u32);
                let rotated = chunk[i].rotate_right(23);
                chunk[i] = (chunk[i] ^ rotated).wrapping_mul(PRIME) % 0xffffffffffffffff;
                chunk[i] ^= chunk[(i + 1) % 4];
            }
            for i in 0..4 {
                state[i] ^= chunk[i];
            }
        }
    }
    let mut digest = [0u8; 32];
    for (i, word) in state.iter().enumerate() {
        digest[i * 8..(i + 1) * 8].copy_from_slice(&word.to_le_bytes()[..8]);
    }
    digest
}

fn unit_outcomes(input: &str, salt: &str, pepper: &str) -> Vec<Option<[u128; 4]>> {
    let initial = initial_state();
    let combined = combine_inputs(input, salt, pepper);
    schedule_units(&combined)
        .iter()
        .map(|unit| Some(unit_computation(&initial, unit.round, unit.byte)))
        .collect()
}

#[test]
fn same_arguments_give_the_same_digest() {
    let first = advanced_hash("abc", "S1", "P1");
    let second = advanced_hash("abc", "S1", "P1");
    assert_eq!(first, second);
    assert_eq!(first.len(), 32);
}

#[test]
fn changed_input_gives_another_digest() {
    let abc = advanced_hash("abc", "S1", "P1");
    let abd = advanced_hash("abd", "S1", "P1");
    assert_ne!(abc, abd);
}

#[test]
fn empty_arguments_give_a_digest() {
    let digest = advanced_hash("", "", "");
    assert_eq!(digest.len(), 32);
    // With no byte to mix, the digest is the truncated initial state.
    assert_eq!(
        digest,
        [
            0x08, 0xc9, 0xbc, 0xf3, 0x67, 0xe6, 0x09, 0x6a, 0x3b, 0xa7, 0xca, 0x84, 0x85, 0xae,
            0x67, 0xbb, 0x2b, 0xf8, 0x94, 0xfe, 0x72, 0xf3, 0x6e, 0x3c, 0xf1, 0x36, 0x1d, 0x5f,
            0x3a, 0xf5, 0x4f, 0xa5
        ]
    );
}

#[test]
fn digest_has_the_expected_bytes() {
    assert_eq!(
        advanced_hash("abc", "S1", "P1"),
        [
            0x08, 0xa2, 0x1f, 0x6e, 0x66, 0xe6, 0xfd, 0x6e, 0x6c, 0x6b, 0x60, 0x6e, 0x65, 0x4e,
            0x60, 0x8c, 0x19, 0xd4, 0x1d, 0xad, 0x10, 0x02, 0x3f, 0x22, 0xf1, 0x00, 0x93, 0x08,
            0x3f, 0xbe, 0x21, 0x2c
        ]
    );
    assert_eq!(
        advanced_hash("abd", "S1", "P1"),
        [
            0x08, 0x0d, 0xa6, 0x07, 0x66, 0xe6, 0x40, 0xe3, 0x74, 0x01, 0x80, 0x39, 0x7e, 0x52,
            0x60, 0xc2, 0x75, 0x1d, 0x08, 0x98, 0xb2, 0x52, 0x3f, 0x22, 0xf1, 0x49, 0x70, 0x2f,
            0x44, 0xed, 0xef, 0xef
        ]
    );
    assert_eq!(
        advanced_hash("hello world", "salt", "pepper"),
        [
            0x43, 0xb7, 0x11, 0x55, 0x67, 0xe3, 0x41, 0x40, 0xf0, 0x45, 0x3b, 0xe7, 0x0a, 0x0c,
            0x61, 0x61, 0x87, 0x80, 0x7b, 0xe0, 0xf3, 0x86, 0x28, 0x21, 0xb9, 0xce, 0xb9, 0x6b,
            0xed, 0xf0, 0x3b, 0x46
        ]
    );
}

#[test]
fn digest_agrees_with_the_standard_library_rendering() {
    let cases = [
        ("", "", ""),
        ("a", "", ""),
        ("", "b", ""),
        ("", "", "c"),
        ("abc", "S1", "P1"),
        ("The quick brown fox", "0123456789", "17f3a9c2-4d2"),
        ("na\u{ef}ve \u{2603} \u{1f600}", "s\u{e9}l", "p\u{ea}pper"),
        ("\0\u{7f}", "\n", "\t"),
    ];
    for (input, salt, pepper) in cases {
        assert_eq!(
            advanced_hash(input, salt, pepper),
            digest_with_std(input, salt, pepper)
        );
    }
}

#[test]
fn digest_always_has_thirty_two_bytes() {
    let long = "x".repeat(300);
    for input in ["", "a", "ab", long.as_str()] {
        assert_eq!(advanced_hash(input, "", "").len(), 32);
        assert_eq!(advanced_hash("", input, "").len(), 32);
        assert_eq!(advanced_hash("", "", input).len(), 32);
    }
}

#[test]
fn initial_state_holds_the_four_constants() {
    assert_eq!(
        initial_state(),
        [
            0x6a09e667f3bcc908,
            0xbb67ae8584caa73b,
            0x3c6ef372fe94f82b,
            0xa54ff53a5f1d36f1
        ]
    );
}

#[test]
fn combined_input_is_pepper_then_input_then_salt() {
    assert_eq!(combine_inputs("in", "sa", "pe"), b"peinsa".to_vec());
    assert_eq!(combine_inputs("", "", ""), Vec::<u8>::new());
    assert_eq!(
        combine_inputs("\u{e9}", "\u{2603}", "\u{1f600}"),
        vec![0xf0, 0x9f, 0x98, 0x80, 0xc3, 0xa9, 0xe2, 0x98, 0x83]
    );
}

#[test]
fn finalizer_keeps_the_low_eight_bytes_of_each_word() {
    let state: [u128; 4] = [
        0xffee_ddcc_bbaa_9988_0706_0504_0302_0100,
        0x1111_1111_1111_1111_0f0e_0d0c_0b0a_0908,
        0x17161514_13121110,
        u128::MAX,
    ];
    assert_eq!(
        finalize(&state),
        [
            0x00, 0x01, 0x02, 0x03, 0x04, 0x05, 0x06, 0x07, 0x08, 0x09, 0x0a, 0x0b, 0x0c, 0x0d,
            0x0e, 0x0f, 0x10, 0x11, 0x12, 0x13, 0x14, 0x15, 0x16, 0x17, 0xff, 0xff, 0xff, 0xff,
            0xff, 0xff, 0xff, 0xff
        ]
    );
}

#[test]
fn finalizer_ignores_the_high_halves() {
    let low: [u128; 4] = [1, 2, 3, 4];
    let high: [u128; 4] = [
        1 | (9u128 << 64),
        2 | (1u128 << 127),
        3 | (u128::MAX << 64),
        4 | (5u128 << 100),
    ];
    assert_eq!(finalize(&low), finalize(&high));
}

#[test]
fn digest_does_not_depend_on_the_completion_order() {
    let expected = advanced_hash("abc", "S1", "P1");
    let outcomes = unit_outcomes("abc", "S1", "P1");
    assert_eq!(outcomes.len(), 256 * 7);
    assert_eq!(digest_from_outcomes(&outcomes), expected);

    let mut reversed = outcomes.clone();
    reversed.reverse();
    assert_eq!(digest_from_outcomes(&reversed), expected);

    let n = outcomes.len();
    for (stride, offset) in [(3usize, 0usize), (5, 11), (1791, 1), (1025, 500)] {
        let scrambled: Vec<Option<[u128; 4]>> = (0..n)
            .map(|k| outcomes[(k * stride + offset) % n])
            .collect();
        assert_eq!(digest_from_outcomes(&scrambled), expected);
    }
}

#[test]
fn digest_does_not_depend_on_a_random_completion_order() {
    let expected = advanced_hash("shuffle me", "salt", "pepper");
    let mut outcomes = unit_outcomes("shuffle me", "salt", "pepper");
    let mut rng = rand::thread_rng();
    for _ in 0..5 {
        outcomes.shuffle(&mut rng);
        assert_eq!(digest_from_outcomes(&outcomes), expected);
    }
}

#[test]
fn digest_of_no_outcomes_is_the_truncated_initial_state() {
    assert_eq!(digest_from_outcomes(&[]), advanced_hash("", "", ""));
    assert_eq!(digest_from_outcomes(&[None, None]), advanced_hash("", "", ""));
}

#[test]
fn lost_results_are_left_out_of_the_digest() {
    let full = unit_outcomes("ab", "", "");
    let last = full.len() - 1;

    // The last unit does not report.
    let mut partial = full.clone();
    partial[last] = None;
    let degraded = digest_from_outcomes(&partial);
    assert_ne!(degraded, advanced_hash("ab", "", ""));
    // The digest is that of the results that did arrive.
    assert_eq!(degraded, digest_from_outcomes(&full[..last]));

    // Where the loss happens makes no difference to what the rest merges to.
    let mut holes = full.clone();
    holes[0] = None;
    holes[17] = None;
    let kept: Vec<Option<[u128; 4]>> = full
        .iter()
        .enumerate()
        .filter(|(k, _)| *k != 0 && *k != 17)
        .map(|(_, outcome)| *outcome)
        .collect();
    assert_eq!(digest_from_outcomes(&holes), digest_from_outcomes(&kept));
}
