use solception::identifier::validate;
use solception::LookupFailure;

#[test]
fn accepts_known_program_identifiers() {
    for id in [
        "BPFLoaderUpgradeab1e11111111111111111111111",
        "MarBmsSgKXdrN1egZf5sqe1TMai9K1rChYNDJgjq7aD",
        "Prog111111111111111111111111111111111111111",
    ] {
        let parsed = validate(id).expect("a 32-byte base58 identifier must validate");
        assert_eq!(parsed.text, id);
        assert_eq!(parsed.bytes.len(), 32);
    }
}

#[test]
fn accepts_the_zero_address() {
    let parsed = validate("11111111111111111111111111111111").expect("32 ones are 32 zero bytes");
    assert_eq!(parsed.bytes, vec![0u8; 32]);
}

#[test]
fn decodes_the_loader_bytes_big_endian() {
    let parsed = validate("BPFLoaderUpgradeab1e11111111111111111111111").unwrap();
    // Leading byte of the loader address, fixed by the base58 digits.
    assert_eq!(parsed.bytes[0], 2);
    assert_eq!(parsed.bytes[31], 0);
}

#[test]
fn rejects_malformed_identifiers() {
    let too_short_ones = "1".repeat(31);
    let too_long_ones = "1".repeat(33);
    let too_large = "z".repeat(44);
    let cases: Vec<&str> = vec![
        "",
        "abc",
        "0000000000000000000000000000000000000000000",
        "OOOOOOOOOOOOOOOOOOOOOOOOOOOOOOOOOOOOOOOOOOO",
        "l",
        "I",
        &too_short_ones,
        &too_long_ones,
        &too_large,
        "BPFLoaderUpgradeab1e1111111111111111111111111",
        "not base58 at all!",
    ];
    for raw in cases {
        match validate(raw) {
            Err(LookupFailure::InvalidIdentifier) => {}
            other => panic!("{:?} should be rejected, got {:?}", raw, other.map(|id| id.text)),
        }
    }
}

#[test]
fn accepts_the_largest_identifiers() {
    // 43 characters of the top digit still denote a 32-byte value.
    let big = "z".repeat(43);
    let parsed = validate(&big).expect("58^43 - 1 fits in 32 bytes");
    assert_eq!(parsed.bytes.len(), 32);
}
