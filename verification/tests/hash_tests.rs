use aviutl2_catalog::hashing::xxh3_128_hex;

fn to_chars(s: &str) -> Vec<char> {
    s.chars().collect()
}

fn hm(found: &str, want: &str) -> bool {
    aviutl2_catalog::hashing::hashes_match_exec(&to_chars(found), &to_chars(want))
}

#[test]
fn hex_matches_reference_implementation() {
    for data in [&b""[..], &b"abc"[..], &b"hello world"[..]] {
        let expected = format!("{:032x}", xxhash_rust::xxh3::xxh3_128(data));
        assert_eq!(xxh3_128_hex(data), expected);
    }
}

#[test]
fn hex_is_32_lowercase_digits() {
    let h = xxh3_128_hex(b"sample");
    assert_eq!(h.len(), 32);
    assert!(h.chars().all(|c| c.is_ascii_hexdigit() && !c.is_ascii_uppercase()));
}

#[test]
fn direct_match_ignores_case() {
    assert!(hm("00aaBBcc", "00AABBCC"));
    assert!(hm("deadbeef", "deadbeef"));
    assert!(!hm("deadbeef", "deadbeee"));
}

#[test]
fn byte_reversed_match_is_accepted() {
    // the same 128-bit value rendered in the two byte orders
    assert!(hm(
        "ffeeddccbbaa99887766554433221100",
        "00112233445566778899aabbccddeeff"
    ));
    assert!(hm("ccddeeff", "FFEEDDCC"));
    assert!(!hm("ccddeeff", "ffeeddca"));
}

#[test]
fn empty_never_matches_nonempty() {
    assert!(!hm("", "00112233"));
    assert!(hm("", ""));
}
