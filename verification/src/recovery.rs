//! Recovery of the signer's address from a `personal_sign` signature.

use sha3::Digest;
use vstd::prelude::*;
use vstd::slice::slice_subrange;
use vstd::string::StringSliceAdditionalSpecFns;
use vstd::utf8::encode_utf8;

use crate::bytes::{decimal, push_decimal};
use crate::error::IdentityError;
use crate::hexstr::{hex_decode, hex_decoded, hex_encode, hex_lower, sanitize_hex, strip_0x};

verus! {

/// The Keccak-256 digest of `data`, with the padding of Keccak as it was
/// submitted, which Ethereum uses, and not that of the SHA-3 standard.
pub uninterp spec fn keccak256(data: Seq<u8>) -> Seq<u8>;

/// The secp256k1 public key, as the 65 bytes of an uncompressed SEC1 point,
/// that a signature over a prehashed message recovers to, if it recovers to
/// one. `signature` is `r` and `s`, 32 bytes each, big-endian.
pub uninterp spec fn secp256k1_recovered_key(
    prehash: Seq<u8>,
    signature: Seq<u8>,
    recovery_id: u8,
) -> Option<Seq<u8>>;

/// Calls `sha3::Keccak256::digest`. Trusted: the digest is a function of
/// `data` alone and is 32 bytes long.
#[verifier::external_body]
pub(crate) fn keccak256_digest(data: &[u8]) -> (digest: Vec<u8>)
    ensures
        digest@ == keccak256(data@),
        digest@.len() == 32,
{
    sha3::Keccak256::digest(data).to_vec()
}

/// Calls `k256::ecdsa::VerifyingKey::recover_from_prehash` on the signature
/// that `k256::ecdsa::Signature::from_slice` reads from `signature`, and
/// encodes the key with `to_encoded_point(false)`. Trusted: whether a key is
/// recovered, and which, is a function of the three arguments alone, and an
/// uncompressed point is 65 bytes long.
#[verifier::external_body]
pub(crate) fn recover_key(
    prehash: &[u8],
    signature: &[u8],
    recovery_id: u8,
) -> (key: Option<Vec<u8>>)
    requires
        prehash@.len() == 32,
        signature@.len() == 64,
        recovery_id < 4,
    ensures
        match key {
            Some(point) => secp256k1_recovered_key(prehash@, signature@, recovery_id) == Some(
                point@,
            ) && point@.len() == 65,
            None => secp256k1_recovered_key(prehash@, signature@, recovery_id) is None,
        },
{
    let id = k256::ecdsa::RecoveryId::from_byte(recovery_id)?;
    let signature = k256::ecdsa::Signature::from_slice(signature).ok()?;
    let key = k256::ecdsa::VerifyingKey::recover_from_prehash(prehash, &signature, id).ok()?;
    Some(key.to_encoded_point(false).as_bytes().to_vec())
}

/// The bytes of `"\x19Ethereum Signed Message:\n"`.
pub const EIP191_PREFIX: [u8; 26] = [
    25, 69, 116, 104, 101, 114, 101, 117, 109, 32, 83, 105, 103, 110, 101, 100, 32, 77, 101, 115,
    115, 97, 103, 101, 58, 10,
];

/// What `personal_sign` hashes for `message`: the prefix, the length of the
/// message in decimal, and the message.
pub open spec fn eip191_message(message: Seq<u8>) -> Seq<u8> {
    EIP191_PREFIX@ + decimal(message.len()) + message
}

/// Builds the bytes that `personal_sign` hashes for `message`.
pub fn build_eip191_message(message: &[u8]) -> (out: Vec<u8>)
    ensures
        out@ == eip191_message(message@),
{
    let mut out: Vec<u8> = Vec::new();
    let mut i: usize = 0;
    while i < 26
        invariant
            i <= 26,
            out@ == EIP191_PREFIX@.take(i as int),
        decreases 26 - i,
    {
        out.push(EIP191_PREFIX[i]);
        i += 1;
    }
    push_decimal(&mut out, message.len() as u128);
    out.extend_from_slice(message);
    out
}

/// The recovery id that the last byte of a signature stands for: 0 or 1,
/// which wallets write as 27 or 28. No other byte stands for one.
pub open spec fn recovery_id_of(v: u8) -> Option<u8> {
    let id = if v >= 27 {
        v - 27
    } else {
        v as int
    };
    if id < 2 {
        Some(id as u8)
    } else {
        None
    }
}

/// The address of a public key from the digest of its two coordinates: the
/// last 20 bytes of the 32.
pub open spec fn address_of_digest(digest: Seq<u8>) -> Seq<u8> {
    digest.subrange(12, 32)
}

/// The address of a public key given as an uncompressed point: the marker
/// byte is left out of what is hashed.
pub open spec fn address_of_key(key: Seq<u8>) -> Seq<u8> {
    address_of_digest(keccak256(key.subrange(1, 65)))
}

/// The address that signed `message`, if the 65 bytes of `signature` are a
/// signature over it under `personal_sign`.
pub open spec fn signer_address(message: Seq<u8>, signature: Seq<u8>) -> Option<Seq<u8>> {
    if signature.len() != 65 {
        None
    } else {
        match recovery_id_of(signature[64]) {
            None => None,
            Some(id) => match secp256k1_recovered_key(
                keccak256(eip191_message(message)),
                signature.subrange(0, 64),
                id,
            ) {
                None => None,
                Some(key) => Some(address_of_key(key)),
            },
        }
    }
}

/// `address`, written in lower-case hexadecimal, is `claimed` without its
/// optional `0x`, letter for letter.
pub open spec fn claim_matches(address: Seq<u8>, claimed: Seq<u8>) -> bool {
    hex_lower(address) == strip_0x(claimed)
}

/// The signature in `signature_hex` was made over `message` by the key whose
/// address is `claimed`.
pub open spec fn address_claim_holds(
    claimed: Seq<u8>,
    signature_hex: Seq<u8>,
    message: Seq<u8>,
) -> bool {
    match hex_decoded(strip_0x(signature_hex)) {
        None => false,
        Some(signature) => match signer_address(message, signature) {
            None => false,
            Some(address) => claim_matches(address, claimed),
        },
    }
}

/// The fingerprint stored with an account: the digest of the key's text, in
/// lower-case hexadecimal.
pub open spec fn fingerprint(key: Seq<u8>) -> Seq<u8> {
    hex_lower(keccak256(key))
}

/// Reads the recovery id from the last byte of a signature.
pub fn normalize_recovery_id(v: u8) -> (id: Option<u8>)
    ensures
        id == recovery_id_of(v),
{
    let id: u8 = if v >= 27 {
        v - 27
    } else {
        v
    };
    if id < 2 {
        Some(id)
    } else {
        None
    }
}

/// Takes the address out of the digest of a key's coordinates.
pub fn address_from_digest(digest: &[u8]) -> (address: Option<Vec<u8>>)
    ensures
        digest@.len() == 32 ==> address is Some && address->0@ == address_of_digest(digest@),
        digest@.len() != 32 ==> address is None,
{
    if digest.len() == 32 {
        Some(vstd::slice::slice_to_vec(slice_subrange(digest, 12, 32)))
    } else {
        None
    }
}

/// Compares an address with the hexadecimal text that claims it. The text
/// may begin with `0x`; its case must be that of the lower-case encoding.
pub fn address_matches(address: &[u8], claimed: &str) -> (ok: bool)
    ensures
        ok == claim_matches(address@, claimed.spec_bytes()),
{
    let text = hex_encode(address);
    let claimed = sanitize_hex(claimed);
    bytes_equal(text.as_str().as_bytes(), claimed.as_bytes())
}

/// Whether two byte strings are the same.
pub fn bytes_equal(a: &[u8], b: &[u8]) -> (same: bool)
    ensures
        same == (a@ == b@),
{
    if a.len() != b.len() {
        return false;
    }
    let mut i: usize = 0;
    while i < a.len()
        invariant
            i <= a.len(),
            a.len() == b.len(),
            forall|j: int| 0 <= j < i ==> a@[j] == b@[j],
        decreases a.len() - i,
    {
        if a[i] != b[i] {
            return false;
        }
        i += 1;
    }
    assert(a@ =~= b@);
    true
}

/// Recovers the address that signed `message` under `personal_sign`: 20
/// bytes. `signature` is `r`, `s` and the recovery byte, 65 bytes in all.
pub fn recover_address(message: &[u8], signature: &[u8]) -> (r: Result<Vec<u8>, IdentityError>)
    ensures
        match r {
            Ok(address) => signer_address(message@, signature@) == Some(address@)
                && address@.len() == 20,
            Err(e) => e == IdentityError::InvalidSignature && signer_address(
                message@,
                signature@,
            ) is None,
        },
{
    if signature.len() != 65 {
        return Err(IdentityError::InvalidSignature);
    }
    let id = match normalize_recovery_id(signature[64]) {
        Some(id) => id,
        None => { return Err(IdentityError::InvalidSignature); },
    };
    let prehash = keccak256_digest(build_eip191_message(message).as_slice());
    let key = match recover_key(prehash.as_slice(), slice_subrange(signature, 0, 64), id) {
        Some(key) => key,
        None => { return Err(IdentityError::InvalidSignature); },
    };
    let digest = keccak256_digest(slice_subrange(key.as_slice(), 1, 65));
    match address_from_digest(digest.as_slice()) {
        Some(address) => Ok(address),
        None => Err(IdentityError::InvalidSignature),
    }
}

/// Whether `signature_hex` is a `personal_sign` signature over `message` by
/// the key whose address is `pub_key`. Both texts may begin with `0x`.
/// Malformed input of any kind gives `false`. An address that stands is
/// written in 40 digits.
pub fn k256_verifier(pub_key: &str, signature_hex: &str, message: &str) -> (valid: bool)
    ensures
        valid == address_claim_holds(
            pub_key.spec_bytes(),
            signature_hex.spec_bytes(),
            message.spec_bytes(),
        ),
        valid ==> strip_0x(pub_key.spec_bytes()).len() == 40,
{
    verify_address_claim(pub_key, signature_hex, message.as_bytes())
}

/// As [`k256_verifier`], for a message that is given as bytes.
pub fn verify_address_claim(pub_key: &str, signature_hex: &str, message: &[u8]) -> (valid: bool)
    ensures
        valid == address_claim_holds(pub_key.spec_bytes(), signature_hex.spec_bytes(), message@),
        valid ==> strip_0x(pub_key.spec_bytes()).len() == 40,
{
    let signature = match hex_decode(sanitize_hex(signature_hex).as_bytes()) {
        Ok(signature) => signature,
        Err(_) => { return false; },
    };
    match recover_address(message, signature.as_slice()) {
        Ok(address) => address_matches(address.as_slice(), pub_key),
        Err(_) => false,
    }
}

/// Computes the fingerprint that is stored with the account of `key`.
pub fn key_fingerprint(key: &str) -> (text: String)
    ensures
        encode_utf8(text@) == fingerprint(key.spec_bytes()),
{
    hex_encode(keccak256_digest(key.as_bytes()).as_slice())
}

} // verus!
