use name_codec::{hash_file_name, hash_recovery_answer, hash_to_username, username_to_hash};

#[test]
fn encode_single_letter_boundaries() {
    assert_eq!(username_to_hash("a".to_string()), 1);
    assert_eq!(username_to_hash("z".to_string()), 26);
}

#[test]
fn encode_single_digit_boundaries() {
    assert_eq!(username_to_hash("0".to_string()), 27);
    assert_eq!(username_to_hash("9".to_string()), 36);
}

#[test]
fn encode_single_blank_is_zero() {
    assert_eq!(username_to_hash(" ".to_string()), 0);
}

#[test]
fn encode_empty_name_is_zero() {
    assert_eq!(username_to_hash(String::new()), 0);
}

#[test]
fn encode_rejects_thirteen_bytes() {
    let name = "thirteenchrs+".to_string();
    assert_eq!(name.len(), 13);
    assert_eq!(username_to_hash(name), 0);
}

#[test]
fn encode_accepts_twelve_bytes() {
    let name = "thirteenchr+".to_string();
    assert_eq!(name.len(), 12);
    assert_eq!(username_to_hash(name), 3598055902696173644);
}

#[test]
fn encode_largest_name() {
    assert_eq!(username_to_hash("999999999999".to_string()), 6582952005840035280);
    assert_eq!(username_to_hash("player123456".to_string()), 2904603257506529636);
}

#[test]
fn encode_folds_case() {
    assert_eq!(username_to_hash("zezima".to_string()), 1813643468);
    assert_eq!(username_to_hash("ZEZIMA".to_string()), 1813643468);
    assert_eq!(username_to_hash("Bob".to_string()), 3295);
}

#[test]
fn encode_length_counts_bytes() {
    // twelve characters, thirteen bytes
    let name = "abcdefghijk\u{e9}".to_string();
    assert_eq!(name.chars().count(), 12);
    assert_eq!(username_to_hash(name), 0);
}

#[test]
fn encode_folds_ascii_case_only() {
    // the Kelvin sign is not ASCII: its three bytes count as blanks
    assert_eq!(username_to_hash("\u{212a}".to_string()), 0);
    assert_eq!(username_to_hash("\u{e9}".to_string()), 0);
    assert_eq!(username_to_hash("AB CD".to_string()), 1975582);
}

#[test]
fn encode_other_bytes_are_blanks() {
    assert_eq!(username_to_hash("ab cd".to_string()), 1975582);
    assert_eq!(username_to_hash("ab+cd".to_string()), 1975582);
}

#[test]
fn decode_zero_is_null() {
    assert_eq!(hash_to_username(0), "null");
}

#[test]
fn decode_single_digits() {
    assert_eq!(hash_to_username(1), "A");
    assert_eq!(hash_to_username(26), "Z");
    assert_eq!(hash_to_username(27), "0");
    assert_eq!(hash_to_username(36), "9");
}

#[test]
fn decode_capitalizes_first_letter() {
    assert_eq!(hash_to_username(1813643468), "Zezima");
    assert_eq!(hash_to_username(3295), "Bob");
}

#[test]
fn decode_stops_at_twelve_characters() {
    let name = hash_to_username(u64::MAX);
    assert_eq!(name.len(), 12);
    assert_eq!(name, "2yg2214il10k");
}

#[test]
fn round_trip_lowercase_names() {
    assert_eq!(hash_to_username(username_to_hash("zezima".to_string())), "Zezima");
    assert_eq!(hash_to_username(username_to_hash("player123456".to_string())), "Player123456");
    assert_eq!(hash_to_username(username_to_hash("aaaaaaaaaaaa".to_string())), "Aaaaaaaaaaaa");
    assert_eq!(hash_to_username(username_to_hash("999999999999".to_string())), "999999999999");
    assert_eq!(hash_to_username(username_to_hash("x".to_string())), "X");
}

#[test]
fn round_trip_keeps_blank() {
    assert_eq!(hash_to_username(username_to_hash("ab cd".to_string())), "Ab cd");
}

#[test]
fn decode_then_encode_gives_code_back() {
    for code in [1u64, 36, 37, 1975582, 1813643468, 2904603257506529636, 6582952005840035280] {
        assert_eq!(username_to_hash(hash_to_username(code)), code);
    }
}

#[test]
fn calls_are_deterministic() {
    assert_eq!(username_to_hash("bob".to_string()), username_to_hash("bob".to_string()));
    assert_eq!(hash_to_username(3295), hash_to_username(3295));
    assert_eq!(
        hash_recovery_answer("Answer42".to_string()),
        hash_recovery_answer("Answer42".to_string())
    );
    assert_eq!(hash_file_name("file.dat".to_string()), hash_file_name("file.dat".to_string()));
}

#[test]
fn recovery_fingerprint_values() {
    assert_eq!(hash_recovery_answer("Answer42".to_string()), 17222733789417256844);
    assert_eq!(hash_recovery_answer("a".to_string()), 65);
}

#[test]
fn recovery_fingerprint_folds_case() {
    assert_eq!(
        hash_recovery_answer("answer42".to_string()),
        hash_recovery_answer("ANSWER42".to_string())
    );
}

#[test]
fn recovery_fingerprint_skips_other_bytes() {
    assert_eq!(hash_recovery_answer(String::new()), 0);
    assert_eq!(hash_recovery_answer("!!!".to_string()), 0);
    assert_eq!(hash_recovery_answer("An-swer 42?".to_string()), 17222733789417256844);
}

#[test]
fn resource_fingerprint_values() {
    assert_eq!(hash_file_name(String::new()), 0);
    assert_eq!(hash_file_name("a".to_string()), 33);
    assert_eq!(hash_file_name("file.dat".to_string()), 896684139);
}

#[test]
fn resource_fingerprint_ignores_case() {
    assert_eq!(hash_file_name("file.dat".to_string()), hash_file_name("FILE.DAT".to_string()));
}

#[test]
fn resource_fingerprint_wraps() {
    let name = "x".repeat(50);
    let mut exact: i128 = 0;
    for _ in 0..50 {
        exact = (exact * 61 + 88 - 32).rem_euclid(1i128 << 32);
    }
    let expected = if exact >= 1i128 << 31 { exact - (1i128 << 32) } else { exact };
    assert_eq!(expected, -2946800);
    assert_eq!(hash_file_name(name), -2946800);
    assert_eq!(hash_file_name("averyveryverylongresourcename.bin".to_string()), 147999991);
}
