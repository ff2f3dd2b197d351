use advanced_hash::digest::advanced_hash;
use advanced_hash::sensitivity::{footprint_of, shows_replacement};

#[test]
fn changing_one_ascii_character_changes_the_digest() {
    // Every pair of distinct one-byte characters, as input, salt and pepper.
    let digests: Vec<[u8; 32]> = (0u8..128)
        .map(|b| advanced_hash(&(b as char).to_string(), "", ""))
        .collect();
    for i in 0..digests.len() {
        for j in (i + 1)..digests.len() {
            assert_ne!(digests[i], digests[j]);
        }
    }
    for (old, new) in [("salt", "s1lt"), ("Pepper", "pepper"), ("aaaa", "aaab")] {
        assert_ne!(advanced_hash(old, "s", "p"), advanced_hash(new, "s", "p"));
        assert_ne!(advanced_hash("i", old, "p"), advanced_hash("i", new, "p"));
        assert_ne!(advanced_hash("i", "s", old), advanced_hash("i", "s", new));
    }
}

#[test]
fn replacements_of_ascii_characters_are_shown() {
    for old in 0u8..128 {
        for new in [old.wrapping_add(1) % 128, old ^ 0x20, (old + 64) % 128] {
            if old != new {
                assert!(shows_replacement(old as char, new as char));
            }
        }
        assert!(!shows_replacement(old as char, old as char));
    }
    assert!(shows_replacement('c', 'd'));
    assert!(shows_replacement('\u{e9}', '\u{e8}'));
    assert!(shows_replacement('\u{1f600}', '\u{1f601}'));
}

#[test]
fn replacement_of_a_character_by_a_rearrangement_of_its_bytes_is_not_shown() {
    assert!(!shows_replacement('\u{1001}', '\u{1040}'));
    assert_eq!(
        footprint_of("\u{1001}".as_bytes()),
        footprint_of("\u{1040}".as_bytes())
    );
}

#[test]
fn footprint_is_the_trace_that_bytes_leave_in_the_digest() {
    // The footprint of nothing is all zeros.
    assert_eq!(footprint_of(&[]), [0u8; 32]);
    // Appending a run of bytes XORs its footprint into the digest.
    let plain = advanced_hash("abc", "S1", "P1");
    let longer = advanced_hash("abcxyz", "S1", "P1");
    let print = footprint_of(b"xyz");
    for k in 0..32 {
        assert_eq!(plain[k] ^ print[k], longer[k]);
    }
    // A run of bytes taken twice leaves no trace.
    assert_eq!(footprint_of(b"abab"), [0u8; 32]);
    assert_eq!(advanced_hash("abab", "", ""), advanced_hash("", "", ""));
}

#[test]
fn rearranged_bytes_give_the_same_digest() {
    assert_eq!(advanced_hash("ab", "", ""), advanced_hash("ba", "", ""));
    assert_eq!(advanced_hash("abc", "de", "f"), advanced_hash("fed", "cb", "a"));
    assert_eq!(advanced_hash("abc", "", ""), advanced_hash("", "abc", ""));
    assert_eq!(advanced_hash("abc", "", ""), advanced_hash("a", "b", "c"));
}

#[test]
fn characters_with_the_same_bytes_in_another_order_collide() {
    // U+1001 is E1 80 81 in UTF-8 and U+1040 is E1 81 80.
    assert_eq!("\u{1001}".as_bytes(), [0xe1, 0x80, 0x81]);
    assert_eq!("\u{1040}".as_bytes(), [0xe1, 0x81, 0x80]);
    assert_eq!(
        advanced_hash("\u{1001}", "s", "p"),
        advanced_hash("\u{1040}", "s", "p")
    );
    assert_eq!(
        advanced_hash("\u{1001}", "s", "p"),
        [
            0x01, 0x5f, 0x13, 0xce, 0x64, 0xe4, 0x48, 0xc4, 0x33, 0x58, 0xc8, 0x05, 0x5d, 0xc3,
            0x60, 0x77, 0x58, 0x3d, 0xf3, 0x55, 0x89, 0x5b, 0x24, 0x3c, 0xf8, 0xb1, 0x1d, 0xf9,
            0x91, 0x76, 0x3b, 0x5b
        ]
    );
}

#[test]
fn replacing_a_run_of_bytes_has_the_same_effect_everywhere() {
    // "b" against "c": the digests differ, whatever stands around them.
    for (before, after) in [("", ""), ("x", ""), ("", "y"), ("long before ", " and after")] {
        let with_b = advanced_hash(&format!("{}b{}", before, after), "s", "p");
        let with_c = advanced_hash(&format!("{}c{}", before, after), "s", "p");
        assert_ne!(with_b, with_c);
        // The difference of the two digests is the same in every context.
        let plain_b = advanced_hash("b", "", "");
        let plain_c = advanced_hash("c", "", "");
        for k in 0..32 {
            assert_eq!(with_b[k] ^ with_c[k], plain_b[k] ^ plain_c[k]);
        }
    }
}
