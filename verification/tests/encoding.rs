use advanced_hash::digest::advanced_hash;
use advanced_hash::encoding::{hash_to_base64, hash_to_binary_string};

fn sample_digest() -> [u8; 32] {
    let mut digest = [0u8; 32];
    for (i, byte) in digest.iter_mut().enumerate() {
        *byte = (i as u8).wrapping_mul(37).wrapping_add(11);
    }
    digest
}

fn parse_binary(text: &str) -> Vec<u8> {
    text.as_bytes()
        .chunks(8)
        .map(|group| {
            group
                .iter()
                .fold(0u8, |byte, digit| (byte << 1) | (digit - b'0'))
        })
        .collect()
}

#[test]
fn binary_string_has_256_binary_digits() {
    let text = hash_to_binary_string(&sample_digest());
    assert_eq!(text.len(), 256);
    assert!(text.chars().all(|c| c == '0' || c == '1'));
}

#[test]
fn binary_string_puts_the_most_significant_bit_first() {
    let mut digest = [0u8; 32];
    digest[0] = 0b1000_0000;
    digest[1] = 0b0000_0001;
    digest[31] = 0b1010_0101;
    let text = hash_to_binary_string(&digest);
    assert_eq!(&text[0..8], "10000000");
    assert_eq!(&text[8..16], "00000001");
    assert_eq!(&text[16..24], "00000000");
    assert_eq!(&text[248..256], "10100101");
}

#[test]
fn binary_string_of_a_digest_has_the_expected_text() {
    let digest = advanced_hash("abc", "S1", "P1");
    assert_eq!(
        hash_to_binary_string(&digest),
        "0000100010100010000111110110111001100110111001101111110101101110\
         0110110001101011011000000110111001100101010011100110000010001100\
         0001100111010100000111011010110100010000000000100011111100100010\
         1111000100000000100100110000100000111111101111100010000100101100"
    );
}

#[test]
fn binary_string_matches_the_standard_formatting() {
    let digest = sample_digest();
    let expected: String = digest.iter().map(|byte| format!("{:08b}", byte)).collect();
    assert_eq!(hash_to_binary_string(&digest), expected);
}

#[test]
fn binary_string_reads_back_to_the_digest() {
    for digest in [
        [0u8; 32],
        [0xffu8; 32],
        sample_digest(),
        advanced_hash("round trip", "salt", "pepper"),
    ] {
        let text = hash_to_binary_string(&digest);
        assert_eq!(text.len(), 256);
        assert_eq!(parse_binary(&text), digest.to_vec());
    }
}

#[test]
fn base64_of_known_digests() {
    assert_eq!(
        hash_to_base64(&[0u8; 32]),
        "AAAAAAAAAAAAAAAAAAAAAAAAAAAAAAAAAAAAAAAAAAA="
    );
    assert_eq!(
        hash_to_base64(&[0xffu8; 32]),
        "//////////////////////////////////////////8="
    );
    assert_eq!(
        hash_to_base64(&advanced_hash("abc", "S1", "P1")),
        "CKIfbmbm/W5sa2BuZU5gjBnUHa0QAj8i8QCTCD++ISw="
    );
    assert_eq!(
        hash_to_base64(&advanced_hash("", "", "")),
        "CMm882fmCWo7p8qEha5nuyv4lP5y82488TYdXzr1T6U="
    );
}

#[test]
fn base64_has_44_characters() {
    for digest in [[0u8; 32], [0xffu8; 32], sample_digest()] {
        let text = hash_to_base64(&digest);
        assert_eq!(text.chars().count(), 44);
        assert!(text.ends_with('='));
        assert!(!text.contains('\n'));
    }
}

#[test]
fn base64_decodes_back_to_the_digest() {
    for digest in [
        [0u8; 32],
        [0xffu8; 32],
        sample_digest(),
        advanced_hash("round trip", "salt", "pepper"),
    ] {
        let text = hash_to_base64(&digest);
        assert_eq!(base64::decode(&text).unwrap(), digest.to_vec());
    }
}
