use contract_identity::hexstr::sanitize_hex;
use contract_identity::recovery::{
    address_from_digest, address_matches, build_eip191_message, bytes_equal, key_fingerprint,
    normalize_recovery_id, recover_address, verify_address_claim,
};
use contract_identity::{k256_verifier, IdentityError};

const ADDRESS: &str = "0x437aa724e898f0ba345852bbbc2e416d9346e1c9";
const REGISTRATION_SIGNATURE: &str = "0x3279f925d976ddfc012a95157f87054717610b4fa08028913ab3139f552e76342d609c11acbca164fb9c64fb5553db3fe34c826c0084fd6bc934dcd154993b0a1b";
const EXAMPLE_SIGNATURE: &str = "0xc4b1989d045e1f9aacc448032a7e278780de9a1c1735984c8d4e95cc1840715b3255b0cb791df3c5c137fa22773f9f6976b96418581e44f3fdf1e6ec395f6b661b";

#[test]
fn registration_vector_is_valid() {
    assert!(k256_verifier(ADDRESS, REGISTRATION_SIGNATURE, "hyle registration"));
}

#[test]
fn registration_vector_fails_for_another_message() {
    assert!(!k256_verifier(ADDRESS, REGISTRATION_SIGNATURE, "hyle registration!"));
}

#[test]
fn personal_sign_example_vector_is_valid() {
    assert!(k256_verifier(ADDRESS, EXAMPLE_SIGNATURE, "Example `personal_sign` message"));
    assert!(!k256_verifier(ADDRESS, EXAMPLE_SIGNATURE, "hyle registration"));
}

#[test]
fn prefixes_are_optional() {
    let address = &ADDRESS[2..];
    let signature = &REGISTRATION_SIGNATURE[2..];
    assert!(k256_verifier(address, signature, "hyle registration"));
    assert!(k256_verifier(ADDRESS, signature, "hyle registration"));
    assert!(k256_verifier(address, REGISTRATION_SIGNATURE, "hyle registration"));
}

#[test]
fn claimed_address_is_compared_letter_for_letter() {
    let upper = ADDRESS[2..].to_uppercase();
    assert!(!k256_verifier(&upper, REGISTRATION_SIGNATURE, "hyle registration"));
    let mixed = format!("0x{}", upper);
    assert!(!k256_verifier(&mixed, REGISTRATION_SIGNATURE, "hyle registration"));
    assert!(!k256_verifier("0X437aa724e898f0ba345852bbbc2e416d9346e1c9", REGISTRATION_SIGNATURE, "hyle registration"));
}

#[test]
fn signature_digits_may_have_either_case() {
    let upper = format!("0x{}", REGISTRATION_SIGNATURE[2..].to_uppercase());
    assert!(k256_verifier(ADDRESS, &upper, "hyle registration"));
}

#[test]
fn another_address_is_refused() {
    assert!(!k256_verifier(
        "0x437aa724e898f0ba345852bbbc2e416d9346e1c8",
        REGISTRATION_SIGNATURE,
        "hyle registration"
    ));
    assert!(!k256_verifier("", REGISTRATION_SIGNATURE, "hyle registration"));
}

#[test]
fn malformed_signatures_are_refused_without_panic() {
    let message = "hyle registration";
    assert!(!k256_verifier(ADDRESS, "", message));
    assert!(!k256_verifier(ADDRESS, "0x", message));
    assert!(!k256_verifier(ADDRESS, "0", message));
    assert!(!k256_verifier(ADDRESS, "zz", message));
    assert!(!k256_verifier(ADDRESS, "0x1b", message));
    assert!(!k256_verifier(ADDRESS, "é", message));
    // 64 bytes: the recovery byte is missing
    assert!(!k256_verifier(ADDRESS, &REGISTRATION_SIGNATURE[..130], message));
    // 66 bytes: one byte too many
    let long = format!("{}1b", REGISTRATION_SIGNATURE);
    assert!(!k256_verifier(ADDRESS, &long, message));
    // odd number of digits
    assert!(!k256_verifier(ADDRESS, &REGISTRATION_SIGNATURE[..131], message));
    // r and s are zero
    let zero = format!("0x{}1b", "00".repeat(64));
    assert!(!k256_verifier(ADDRESS, &zero, message));
    // r and s are above the order of the curve
    let high = format!("0x{}1b", "ff".repeat(64));
    assert!(!k256_verifier(ADDRESS, &high, message));
}

#[test]
fn recovery_byte_out_of_range_is_refused() {
    let body = &REGISTRATION_SIGNATURE[..130];
    for v in ["02", "03", "04", "05", "1a", "1d", "1e", "1f", "20", "ff"] {
        let signature = format!("{}{}", body, v);
        assert!(!k256_verifier(ADDRESS, &signature, "hyle registration"), "{}", v);
    }
    // 0x1b is 27; the same signature with the recovery id written as 0
    let low = format!("{}00", body);
    assert!(k256_verifier(ADDRESS, &low, "hyle registration"));
    // the other parity recovers another key
    let other = format!("{}1c", body);
    assert!(!k256_verifier(ADDRESS, &other, "hyle registration"));
}

#[test]
fn claim_that_stands_has_forty_digits() {
    assert_eq!(ADDRESS[2..].len(), 40);
    let short = &ADDRESS[..ADDRESS.len() - 1];
    assert!(!k256_verifier(short, REGISTRATION_SIGNATURE, "hyle registration"));
    let long = format!("{}0", ADDRESS);
    assert!(!k256_verifier(&long, REGISTRATION_SIGNATURE, "hyle registration"));
}

#[test]
fn recovery_id_is_normalized() {
    assert_eq!(normalize_recovery_id(0), Some(0));
    assert_eq!(normalize_recovery_id(1), Some(1));
    assert_eq!(normalize_recovery_id(2), None);
    assert_eq!(normalize_recovery_id(3), None);
    assert_eq!(normalize_recovery_id(4), None);
    assert_eq!(normalize_recovery_id(26), None);
    assert_eq!(normalize_recovery_id(27), Some(0));
    assert_eq!(normalize_recovery_id(28), Some(1));
    assert_eq!(normalize_recovery_id(29), None);
    assert_eq!(normalize_recovery_id(30), None);
    assert_eq!(normalize_recovery_id(31), None);
    assert_eq!(normalize_recovery_id(255), None);
}

#[test]
fn recover_address_gives_the_signer() {
    let signature = hex::decode(&REGISTRATION_SIGNATURE[2..]).unwrap();
    let address = recover_address(b"hyle registration", &signature).unwrap();
    assert_eq!(hex::encode(&address), &ADDRESS[2..]);
    assert_eq!(address.len(), 20);
    let other = recover_address(b"hyle registration!", &signature);
    assert_ne!(other, Ok(address));
    assert_eq!(
        recover_address(b"hyle registration", &signature[..64]),
        Err(IdentityError::InvalidSignature)
    );
    assert_eq!(recover_address(b"hyle registration", &[]), Err(IdentityError::InvalidSignature));
}

#[test]
fn verify_address_claim_takes_any_bytes() {
    assert!(verify_address_claim(ADDRESS, REGISTRATION_SIGNATURE, b"hyle registration"));
    assert!(!verify_address_claim(ADDRESS, REGISTRATION_SIGNATURE, &[0xff, 0xfe]));
}

#[test]
fn eip191_message_has_prefix_and_length() {
    assert_eq!(
        build_eip191_message(b"hyle registration"),
        b"\x19Ethereum Signed Message:\n17hyle registration".to_vec()
    );
    assert_eq!(build_eip191_message(b""), b"\x19Ethereum Signed Message:\n0".to_vec());
    let long = vec![b'a'; 1234];
    let mut expected = b"\x19Ethereum Signed Message:\n1234".to_vec();
    expected.extend_from_slice(&long);
    assert_eq!(build_eip191_message(&long), expected);
}

#[test]
fn address_is_the_last_twenty_bytes_of_the_digest() {
    let digest: Vec<u8> = (0u8..32).collect();
    assert_eq!(address_from_digest(&digest), Some((12u8..32).collect::<Vec<u8>>()));
    assert_eq!(address_from_digest(&digest[..31]), None);
    assert_eq!(address_from_digest(&[]), None);
}

#[test]
fn address_matches_lower_case_hex() {
    let address = [0x0a, 0xbc, 0x00, 0xff];
    assert!(address_matches(&address, "0abc00ff"));
    assert!(address_matches(&address, "0x0abc00ff"));
    assert!(!address_matches(&address, "0ABC00FF"));
    assert!(!address_matches(&address, "0abc00f"));
    assert!(!address_matches(&address, "0abc00ff0"));
    assert!(!address_matches(&address, "0x0x0abc00ff"));
    assert!(address_matches(&[], ""));
    assert!(address_matches(&[], "0x"));
}

#[test]
fn fingerprint_is_keccak_not_sha3() {
    assert_eq!(
        key_fingerprint(""),
        "c5d2460186f7233c927e7db2dcc703c0e500b653ca82273b7bfad8045d85a470"
    );
    assert_eq!(
        key_fingerprint("abc"),
        "4e03657aea45a94fc7d47ba826c8d667c0d1e6e33a64a036ec44f58fa12d6c45"
    );
}

#[test]
fn sanitize_hex_strips_one_prefix() {
    assert_eq!(sanitize_hex("0xabc"), "abc");
    assert_eq!(sanitize_hex("abc"), "abc");
    assert_eq!(sanitize_hex("0x"), "");
    assert_eq!(sanitize_hex("0"), "0");
    assert_eq!(sanitize_hex(""), "");
    assert_eq!(sanitize_hex("0x0xab"), "0xab");
    assert_eq!(sanitize_hex("0Xab"), "0Xab");
    assert_eq!(sanitize_hex("0xé"), "é");
}

#[test]
fn bytes_equal_compares_whole_strings() {
    assert!(bytes_equal(b"", b""));
    assert!(bytes_equal(b"abc", b"abc"));
    assert!(!bytes_equal(b"abc", b"abd"));
    assert!(!bytes_equal(b"abc", b"ab"));
    assert!(!bytes_equal(b"", b"a"));
}
