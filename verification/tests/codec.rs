use std::collections::BTreeMap;

use contract_identity::actions::IdentityAction;
use contract_identity::wire::{push_le, push_string, read_le, read_string, read_u128, read_u32};
use contract_identity::{AccountInfo, IdentityContractState, IdentityError};

fn info(hash: &str, nonce: u128) -> AccountInfo {
    AccountInfo { pub_key_hash: hash.to_string(), nonce }
}

fn sample() -> IdentityContractState {
    let mut state = IdentityContractState::new();
    state.store("0xbb".to_string(), info("hash-b", 7));
    state.store("0xaa".to_string(), info("hash-a", 0));
    state.store("carol".to_string(), info("", u128::MAX));
    state
}

fn as_map(state: &IdentityContractState) -> BTreeMap<String, (String, u128)> {
    let mut map = BTreeMap::new();
    for i in 0..state.len() {
        let stored = state.info_at(i);
        map.insert(state.key_at(i).to_string(), (stored.pub_key_hash.clone(), stored.nonce));
    }
    map
}

#[test]
fn little_endian_numbers() {
    let mut out = Vec::new();
    push_le(&mut out, 0x0102_0304, 4);
    assert_eq!(out, vec![4, 3, 2, 1]);
    push_le(&mut out, 1, 16);
    assert_eq!(out.len(), 20);
    assert_eq!(out[4..], [1, 0, 0, 0, 0, 0, 0, 0, 0, 0, 0, 0, 0, 0, 0, 0]);
    assert_eq!(read_le(&out, 0, 4), 0x0102_0304);
    assert_eq!(read_le(&out, 4, 16), 1);
    assert_eq!(read_le(&out, 0, 0), 0);
    let mut max = Vec::new();
    push_le(&mut max, u128::MAX, 16);
    assert_eq!(max, vec![0xff; 16]);
    assert_eq!(read_le(&max, 0, 16), u128::MAX);
    let mut low = Vec::new();
    push_le(&mut low, 0x1_0000_0001, 4);
    assert_eq!(low, vec![1, 0, 0, 0]);
}

#[test]
fn numbers_match_borsh() {
    for x in [0u128, 1, 255, 256, 0xdead_beef, u128::MAX, 1 << 127] {
        let mut out = Vec::new();
        push_le(&mut out, x, 16);
        assert_eq!(out, borsh::to_vec(&x).unwrap());
        assert_eq!(read_u128(&out, 0), Some((x, 16)));
    }
    for x in [0u32, 1, 255, 256, 0xdead_beef, u32::MAX] {
        let mut out = Vec::new();
        push_le(&mut out, x as u128, 4);
        assert_eq!(out, borsh::to_vec(&x).unwrap());
        assert_eq!(read_u32(&out, 0), Some((x, 4)));
    }
}

#[test]
fn readers_refuse_short_input() {
    assert_eq!(read_u32(&[1, 2, 3], 0), None);
    assert_eq!(read_u32(&[1, 2, 3, 4], 1), None);
    assert_eq!(read_u32(&[], 0), None);
    assert_eq!(read_u128(&[0; 15], 0), None);
    assert_eq!(read_u128(&[0; 16], 1), None);
    assert_eq!(read_string(&[2, 0, 0, 0, b'a'], 0), None);
    assert_eq!(read_string(&[2, 0, 0], 0), None);
    assert_eq!(read_string(&[0xff, 0xff, 0xff, 0xff, b'a'], 0), None);
}

#[test]
fn strings_match_borsh() {
    for text in ["", "a", "0x437aa724e898f0ba345852bbbc2e416d9346e1c9", "clé €"] {
        let mut out = vec![9u8];
        assert!(push_string(&mut out, text.as_bytes()));
        let mut expected = vec![9u8];
        expected.extend(borsh::to_vec(&text.to_string()).unwrap());
        assert_eq!(out, expected);
        assert_eq!(read_string(&out, 1), Some((text.to_string(), out.len())));
    }
}

#[test]
fn strings_must_be_utf8() {
    assert_eq!(read_string(&[1, 0, 0, 0, 0xff], 0), None);
    assert_eq!(read_string(&[2, 0, 0, 0, 0xc3, 0x28], 0), None);
    assert_eq!(read_string(&[2, 0, 0, 0, 0xc3, 0xa9], 0), Some(("é".to_string(), 6)));
    assert_eq!(read_string(&[1, 0, 0, 0, 0xc3, 0xa9], 0), None);
}

#[test]
fn register_action_round_trip() {
    let action = IdentityAction::RegisterIdentity { signature: "0xabcdef".to_string() };
    let payload = action.encode().unwrap();
    assert_eq!(payload, borsh::to_vec(&(0u8, "0xabcdef".to_string())).unwrap());
    assert_eq!(payload[0], 0);
    assert_eq!(IdentityAction::decode(&payload), Ok(action));
}

#[test]
fn verify_action_round_trip() {
    let action = IdentityAction::VerifyIdentity { nonce: 258, signature: "0x12".to_string() };
    let payload = action.encode().unwrap();
    assert_eq!(payload, borsh::to_vec(&(1u8, 258u128, "0x12".to_string())).unwrap());
    let mut expected = vec![1u8, 2, 1];
    expected.extend_from_slice(&[0; 14]);
    expected.extend_from_slice(&[4, 0, 0, 0]);
    expected.extend_from_slice(b"0x12");
    assert_eq!(payload, expected);
    assert_eq!(IdentityAction::decode(&payload), Ok(action));
}

#[test]
fn malformed_actions_are_refused() {
    let refused = Err(IdentityError::ActionDecodeError);
    assert_eq!(IdentityAction::decode(&[]), refused);
    assert_eq!(IdentityAction::decode(&[2, 0, 0, 0, 0]), refused);
    assert_eq!(IdentityAction::decode(&[255]), refused);
    assert_eq!(IdentityAction::decode(&[0]), refused);
    assert_eq!(IdentityAction::decode(&[0, 1, 0, 0]), refused);
    assert_eq!(IdentityAction::decode(&[0, 1, 0, 0, 0]), refused);
    assert_eq!(IdentityAction::decode(&[0, 1, 0, 0, 0, 0xff]), refused);
    assert_eq!(IdentityAction::decode(&[1]), refused);
    assert_eq!(IdentityAction::decode(&[1; 17]), refused);
    let good = IdentityAction::RegisterIdentity { signature: "ab".to_string() }.encode().unwrap();
    let mut long = good.clone();
    long.push(0);
    assert_eq!(IdentityAction::decode(&long), refused);
    assert_eq!(IdentityAction::decode(&good[..good.len() - 1]), refused);
    let good = IdentityAction::VerifyIdentity { nonce: 1, signature: "ab".to_string() }
        .encode()
        .unwrap();
    let mut long = good.clone();
    long.push(0);
    assert_eq!(IdentityAction::decode(&long), refused);
    assert_eq!(IdentityAction::decode(&good[..good.len() - 1]), refused);
}

#[test]
fn empty_signature_is_an_action() {
    assert_eq!(
        IdentityAction::decode(&[0, 0, 0, 0, 0]),
        Ok(IdentityAction::RegisterIdentity { signature: String::new() })
    );
}

#[test]
fn empty_state_commitment() {
    let state = IdentityContractState::new();
    assert_eq!(state.as_bytes(), Ok(vec![0, 0, 0, 0]));
    assert_eq!(state.len(), 0);
    let empty: BTreeMap<String, (String, u128)> = BTreeMap::new();
    assert_eq!(state.as_bytes().unwrap(), borsh::to_vec(&empty).unwrap());
    let back = IdentityContractState::from_bytes(&[0, 0, 0, 0]).unwrap();
    assert_eq!(back.len(), 0);
    assert_eq!(IdentityContractState::default().as_bytes(), Ok(vec![0, 0, 0, 0]));
}

#[test]
fn commitment_matches_borsh() {
    let state = sample();
    let digest = state.as_bytes().unwrap();
    assert_eq!(digest, borsh::to_vec(&as_map(&state)).unwrap());
    let mut expected = vec![3u8, 0, 0, 0];
    expected.extend_from_slice(&[4, 0, 0, 0]);
    expected.extend_from_slice(b"0xaa");
    expected.extend_from_slice(&[6, 0, 0, 0]);
    expected.extend_from_slice(b"hash-a");
    expected.extend_from_slice(&[0; 16]);
    expected.extend_from_slice(&[4, 0, 0, 0]);
    expected.extend_from_slice(b"0xbb");
    expected.extend_from_slice(&[6, 0, 0, 0]);
    expected.extend_from_slice(b"hash-b");
    expected.push(7);
    expected.extend_from_slice(&[0; 15]);
    expected.extend_from_slice(&[5, 0, 0, 0]);
    expected.extend_from_slice(b"carol");
    expected.extend_from_slice(&[0, 0, 0, 0]);
    expected.extend_from_slice(&[0xff; 16]);
    assert_eq!(digest, expected);
}

#[test]
fn commitment_round_trip() {
    let state = sample();
    let digest = state.as_bytes().unwrap();
    let back = IdentityContractState::from_bytes(&digest).unwrap();
    assert_eq!(as_map(&back), as_map(&state));
    assert_eq!(back.as_bytes().unwrap(), digest);
    assert_eq!(back.get_nonce("0xbb"), Ok(7));
    assert_eq!(back.get_identity_info("carol"), Ok(info("", u128::MAX)));
    let decoded: BTreeMap<String, (String, u128)> = borsh::from_slice(&digest).unwrap();
    assert_eq!(decoded, as_map(&back));
}

#[test]
fn accounts_are_kept_in_key_order() {
    let state = sample();
    assert_eq!(state.len(), 3);
    assert_eq!(state.key_at(0), "0xaa");
    assert_eq!(state.key_at(1), "0xbb");
    assert_eq!(state.key_at(2), "carol");
    assert_eq!(state.info_at(1), &info("hash-b", 7));
}

#[test]
fn store_replaces_an_account() {
    let mut state = sample();
    state.store("0xbb".to_string(), info("other", 9));
    assert_eq!(state.len(), 3);
    assert_eq!(state.get_identity_info("0xbb"), Ok(info("other", 9)));
    assert_eq!(state.get_nonce("0xaa"), Ok(0));
}

#[test]
fn lookups_of_unknown_accounts_fail() {
    let state = sample();
    assert_eq!(state.get_nonce("0xab"), Err(IdentityError::IdentityNotFound));
    assert_eq!(state.get_nonce(""), Err(IdentityError::IdentityNotFound));
    assert_eq!(state.get_nonce("0xAA"), Err(IdentityError::IdentityNotFound));
    assert_eq!(state.get_identity_info("dave"), Err(IdentityError::IdentityNotFound));
    assert_eq!(
        IdentityContractState::new().get_nonce("0xaa"),
        Err(IdentityError::IdentityNotFound)
    );
}

#[test]
fn clone_keeps_the_accounts() {
    let state = sample();
    let copy = state.clone();
    assert_eq!(copy.as_bytes(), state.as_bytes());
}

#[test]
fn malformed_commitments_are_refused() {
    let refused = Some(IdentityError::StateDecodeError);
    assert_eq!(IdentityContractState::from_bytes(&[]).err(), refused);
    assert_eq!(IdentityContractState::from_bytes(&[0, 0, 0]).err(), refused);
    assert_eq!(IdentityContractState::from_bytes(&[0, 0, 0, 0, 0]).err(), refused);
    assert_eq!(IdentityContractState::from_bytes(&[1, 0, 0, 0]).err(), refused);
    assert_eq!(IdentityContractState::from_bytes(&[0xff, 0xff, 0xff, 0xff]).err(), refused);
    let digest = sample().as_bytes().unwrap();
    for cut in 0..digest.len() {
        assert_eq!(IdentityContractState::from_bytes(&digest[..cut]).err(), refused, "{}", cut);
    }
    let mut long = digest.clone();
    long.push(0);
    assert_eq!(IdentityContractState::from_bytes(&long).err(), refused);
    let mut bad_key = digest.clone();
    bad_key[8] = 0xff;
    assert_eq!(IdentityContractState::from_bytes(&bad_key).err(), refused);
    let mut count = digest.clone();
    count[0] = 4;
    assert_eq!(IdentityContractState::from_bytes(&count).err(), refused);
    count[0] = 2;
    assert_eq!(IdentityContractState::from_bytes(&count).err(), refused);
}

#[test]
fn commitments_may_list_accounts_in_any_order() {
    let listed = vec![
        ("b".to_string(), ("hb".to_string(), 2u128)),
        ("a".to_string(), ("ha".to_string(), 1u128)),
        ("b".to_string(), ("hb2".to_string(), 3u128)),
    ];
    let digest = borsh::to_vec(&listed).unwrap();
    let state = IdentityContractState::from_bytes(&digest).unwrap();
    let expected: BTreeMap<String, (String, u128)> = borsh::from_slice(&digest).unwrap();
    assert_eq!(as_map(&state), expected);
    assert_eq!(state.len(), 2);
    assert_eq!(state.get_identity_info("b"), Ok(info("hb2", 3)));
    assert_eq!(state.as_bytes().unwrap(), borsh::to_vec(&expected).unwrap());
}
