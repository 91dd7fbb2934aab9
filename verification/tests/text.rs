use contract_identity::bundle::build_binding_message;
use contract_identity::bytes::{compare_bytes, push_decimal, push_list_notation, ByteOrder};
use contract_identity::{resolve_key, Blob, IdentityError};

fn blob(name: &str, data: &[u8]) -> Blob {
    Blob { contract_name: name.to_string(), data: data.to_vec() }
}

fn decimal(n: u128) -> Vec<u8> {
    let mut out = Vec::new();
    push_decimal(&mut out, n);
    out
}

fn list(data: &[u8]) -> Vec<u8> {
    let mut out = Vec::new();
    push_list_notation(&mut out, data);
    out
}

#[test]
fn decimal_matches_display() {
    for n in [0u128, 1, 9, 10, 11, 99, 100, 101, 255, 256, 1000, 65535, 4294967296, u128::MAX] {
        assert_eq!(decimal(n), n.to_string().into_bytes(), "{}", n);
    }
    assert_eq!(decimal(340282366920938463463374607431768211455), b"340282366920938463463374607431768211455".to_vec());
}

#[test]
fn decimal_appends() {
    let mut out = b"n=".to_vec();
    push_decimal(&mut out, 42);
    assert_eq!(out, b"n=42".to_vec());
}

#[test]
fn list_notation_matches_debug() {
    assert_eq!(list(&[]), b"[]".to_vec());
    assert_eq!(list(&[0]), b"[0]".to_vec());
    assert_eq!(list(&[1, 2, 3]), b"[1, 2, 3]".to_vec());
    assert_eq!(list(&[255, 0, 10, 100]), b"[255, 0, 10, 100]".to_vec());
    let all: Vec<u8> = (0u8..=255).collect();
    assert_eq!(list(&all), format!("{:?}", all).into_bytes());
}

#[test]
fn binding_message_of_empty_bundle() {
    assert_eq!(build_binding_message(0, &[]), b"verify 0 ".to_vec());
    assert_eq!(build_binding_message(17, &[]), b"verify 17 ".to_vec());
}

#[test]
fn binding_message_lists_blobs_in_order() {
    let blobs = [blob("hyllar", &[1, 2, 3]), blob("amm", &[]), blob("x y", &[200])];
    assert_eq!(
        build_binding_message(5, &blobs),
        b"verify 5 hyllar [1, 2, 3] amm [] x y [200]".to_vec()
    );
    let expected = format!(
        "verify {} {}",
        5,
        blobs
            .iter()
            .map(|b| format!("{} {:?}", b.contract_name, b.data))
            .collect::<Vec<String>>()
            .join(" ")
    );
    assert_eq!(build_binding_message(5, &blobs), expected.into_bytes());
}

#[test]
fn binding_message_depends_on_order_and_content() {
    let a = blob("a", &[1]);
    let b = blob("b", &[2]);
    let forward = build_binding_message(1, &[a.clone(), b.clone()]);
    let backward = build_binding_message(1, &[b.clone(), a.clone()]);
    assert_ne!(forward, backward);
    assert_ne!(forward, build_binding_message(1, &[a.clone(), blob("b", &[3])]));
    assert_ne!(forward, build_binding_message(2, &[a.clone(), b.clone()]));
    assert_ne!(forward, build_binding_message(1, &[a.clone()]));
}

#[test]
fn binding_message_is_ambiguous_for_names_with_spaces() {
    let one = [blob("a [1] b", &[2])];
    let two = [blob("a", &[1]), blob("b", &[2])];
    assert_eq!(build_binding_message(0, &one), build_binding_message(0, &two));
}

#[test]
fn binding_message_keeps_names_that_are_not_ascii() {
    let blobs = [blob("é", &[7])];
    assert_eq!(build_binding_message(3, &blobs), "verify 3 é [7]".as_bytes().to_vec());
}

#[test]
fn dictionary_order() {
    assert_eq!(compare_bytes(b"", b""), ByteOrder::Same);
    assert_eq!(compare_bytes(b"", b"a"), ByteOrder::Before);
    assert_eq!(compare_bytes(b"a", b""), ByteOrder::After);
    assert_eq!(compare_bytes(b"abc", b"abd"), ByteOrder::Before);
    assert_eq!(compare_bytes(b"abd", b"abc"), ByteOrder::After);
    assert_eq!(compare_bytes(b"ab", b"abc"), ByteOrder::Before);
    assert_eq!(compare_bytes(b"b", b"abc"), ByteOrder::After);
    assert_eq!(compare_bytes(b"abc", b"abc"), ByteOrder::Same);
    assert_eq!(compare_bytes(&[0xff], &[0x00, 0x01]), ByteOrder::After);
    for (a, b) in [("0x1", "0x10"), ("Z", "a"), ("é", "z"), ("1", "2")] {
        let expected = match a.cmp(b) {
            std::cmp::Ordering::Less => ByteOrder::Before,
            std::cmp::Ordering::Equal => ByteOrder::Same,
            std::cmp::Ordering::Greater => ByteOrder::After,
        };
        assert_eq!(compare_bytes(a.as_bytes(), b.as_bytes()), expected);
    }
}

#[test]
fn resolve_key_strips_contract_name() {
    assert_eq!(resolve_key("0xabc.mmid", "mmid"), Ok("0xabc"));
    assert_eq!(resolve_key("alice.bob.mmid", "mmid"), Ok("alice.bob"));
    assert_eq!(resolve_key("0xabc.mmid.mmid", "mmid"), Ok("0xabc.mmid"));
    assert_eq!(resolve_key(".mmid", "mmid"), Ok(""));
    assert_eq!(resolve_key("key.", ""), Ok("key"));
    assert_eq!(resolve_key("clé.mmid", "mmid"), Ok("clé"));
    assert_eq!(resolve_key("key.é", "é"), Ok("key"));
}

#[test]
fn resolve_key_trims_trailing_dots() {
    assert_eq!(resolve_key("0xabc..mmid", "mmid"), Ok("0xabc"));
    assert_eq!(resolve_key("0xabc....mmid", "mmid"), Ok("0xabc"));
    assert_eq!(resolve_key("...mmid", "mmid"), Ok(""));
    assert_eq!(resolve_key("a.b..mmid", "mmid"), Ok("a.b"));
}

#[test]
fn resolve_key_takes_the_name_once() {
    assert_eq!(resolve_key("ya.a.", "a."), Ok("ya"));
}

#[test]
fn suffix_is_enforced() {
    assert_eq!(resolve_key("0xabc.other", "mmid"), Err(IdentityError::InvalidAccountSuffix));
    assert_eq!(resolve_key("0xabcmmid", "mmid"), Err(IdentityError::InvalidAccountSuffix));
    assert_eq!(resolve_key("mmid", "mmid"), Err(IdentityError::InvalidAccountSuffix));
    assert_eq!(resolve_key("", "mmid"), Err(IdentityError::InvalidAccountSuffix));
    assert_eq!(resolve_key("", ""), Err(IdentityError::InvalidAccountSuffix));
    assert_eq!(resolve_key("0xabc.mmid ", "mmid"), Err(IdentityError::InvalidAccountSuffix));
    assert_eq!(resolve_key("0xabc.MMID", "mmid"), Err(IdentityError::InvalidAccountSuffix));
    assert_eq!(resolve_key("0xabc.mmi", "mmid"), Err(IdentityError::InvalidAccountSuffix));
    assert_eq!(resolve_key("0xabc", ""), Err(IdentityError::InvalidAccountSuffix));
}

#[test]
fn errors_have_texts() {
    assert_eq!(IdentityError::IdentityNotFound.message(), "Identity not found");
    assert_eq!(IdentityError::AlreadyRegistered.message(), "Identity already exists");
    assert_eq!(IdentityError::InvalidNonce.message(), "Invalid nonce");
    assert_eq!(IdentityError::MissingBundleEntry.message(), "No blob");
    assert_eq!(IdentityError::StateDecodeError.message(), "Could not decode identity state");
    assert_eq!(IdentityError::StateEncodeError.message(), "Failed to encode state");
    assert_eq!(IdentityError::InvalidAccountSuffix.message(), "Invalid account extension");
    assert_eq!(IdentityError::InvalidSignature.message(), "Invalid signature");
    assert_eq!(IdentityError::CredentialMismatch.message(), "Identity verification failed");
    assert_eq!(IdentityError::ActionDecodeError.message(), "Could not decode identity action");
}
