//! What holds of the contract whatever the registry, the account and the
//! transaction: the laws that callers may build on.

use vstd::prelude::*;

use crate::actions::{
    encoded_action, lemma_action_encoding_unique, lemma_action_round_trip, parsed_action,
    ActionView,
};
use crate::bundle::{
    binding_message, lemma_binding_message_injective, names_without_space, BlobView,
};
use crate::commitment::{
    encodable, encoded_state, lemma_state_encoding_unique, lemma_state_round_trip, parsed_state,
};
use crate::contract::{
    action_effect, action_outcome, register_outcome, registered, verified, verify_outcome,
};
use crate::error::IdentityError;
use crate::identity::raw_key;
use crate::contract::REGISTRATION_MESSAGE;
use crate::recovery::{address_claim_holds, fingerprint};
use crate::registry::{
    lemma_sorted_records_unique, registry_of, strictly_sorted, Credential, Record,
};

verus! {

/// Every account of the registry holds the fingerprint of its own key.
pub open spec fn fingerprints_hold(registry: Map<Seq<u8>, Credential>) -> bool {
    forall|key: Seq<u8>| #[trigger]
        registry.contains_key(key) ==> registry[key].pub_key_hash == fingerprint(key)
}

/// A commitment is read back as the registry that it was written from:
/// the same accounts in the same order, and so the same map.
pub proof fn law_commitment_round_trip(records: Seq<Record>)
    requires
        encodable(records),
    ensures
        parsed_state(encoded_state(records)) == Some(records),
        registry_of(parsed_state(encoded_state(records))->0) == registry_of(records),
{
    lemma_state_round_trip(records);
}

/// A digest that is read as a list of accounts is the commitment of that
/// list: reading and committing are inverse to each other.
pub proof fn law_commitment_is_canonical(digest: Seq<u8>)
    requires
        parsed_state(digest) is Some,
    ensures
        encodable(parsed_state(digest)->0),
        encoded_state(parsed_state(digest)->0) == digest,
{
    lemma_state_encoding_unique(digest);
}

/// An action is read back from its encoding, and a payload that is read as
/// an action is the encoding of that action.
pub proof fn law_action_round_trip(action: ActionView, payload: Seq<u8>)
    ensures
        action.encodable() ==> parsed_action(encoded_action(action)) == Some(action),
        parsed_action(payload) is Some ==> encoded_action(parsed_action(payload)->0) == payload,
{
    if action.encodable() {
        lemma_action_round_trip(action);
    }
    if parsed_action(payload) is Some {
        lemma_action_encoding_unique(payload);
    }
}

/// A registry has one commitment: two sorted lists of accounts that build
/// the same map are committed by the same bytes.
pub proof fn law_commitment_determined(a: Seq<Record>, b: Seq<Record>)
    requires
        strictly_sorted(a),
        strictly_sorted(b),
        registry_of(a) == registry_of(b),
    ensures
        encoded_state(a) == encoded_state(b),
{
    lemma_sorted_records_unique(a, b);
}

/// An account that was just registered holds the given fingerprint and the
/// nonce 0, and every other account is as it was.
pub proof fn law_registration_starts_at_zero(
    registry: Map<Seq<u8>, Credential>,
    key: Seq<u8>,
    fingerprint: Seq<u8>,
)
    ensures
        registered(registry, key, fingerprint).contains_key(key),
        registered(registry, key, fingerprint)[key] == (Credential {
            pub_key_hash: fingerprint,
            nonce: 0,
        }),
        forall|other: Seq<u8>|
            other != key ==> registered(registry, key, fingerprint).contains_key(other)
                == registry.contains_key(other) && (registry.contains_key(other)
                ==> #[trigger] registered(registry, key, fingerprint)[other] == registry[other]),
{
}

/// A key cannot be registered twice: once it is registered, a second
/// registration fails whatever its signature, and with a signature that
/// stands it fails as already registered.
pub proof fn law_double_registration_fails(
    registry: Map<Seq<u8>, Credential>,
    key: Seq<u8>,
    fingerprint: Seq<u8>,
    signature_valid: bool,
)
    ensures
        register_outcome(registered(registry, key, fingerprint), key, signature_valid) is Err,
        signature_valid ==> register_outcome(
            registered(registry, key, fingerprint),
            key,
            signature_valid,
        ) == Err::<(), IdentityError>(IdentityError::AlreadyRegistered),
{
}

/// When a verification succeeds, when it reports a stale fingerprint, and
/// when it is refused for its signature or its nonce. The signature and
/// the fingerprint are judged at every nonce that is not behind the stored
/// one; the last nonce of all is refused only where both have passed.
pub proof fn law_verification_outcomes(
    registry: Map<Seq<u8>, Credential>,
    key: Seq<u8>,
    nonce: u128,
    fingerprint: Seq<u8>,
    signature_valid: bool,
)
    ensures
        ({
            let outcome = verify_outcome(registry, key, nonce, fingerprint, signature_valid);
            let known = registry.contains_key(key);
            let reached = known && registry[key].nonce <= nonce;
            let fresh = reached && registry[key].pub_key_hash == fingerprint;
            &&& outcome == Ok::<bool, IdentityError>(true) <==> fresh && signature_valid && nonce
                < u128::MAX
            &&& outcome == Ok::<bool, IdentityError>(false) <==> reached && !fresh
            &&& outcome == Err::<bool, IdentityError>(IdentityError::InvalidSignature) <==> fresh
                && !signature_valid
            &&& outcome == Err::<bool, IdentityError>(IdentityError::InvalidNonce) <==> known && (
            !reached || (fresh && signature_valid && nonce == u128::MAX))
            &&& outcome == Err::<bool, IdentityError>(IdentityError::IdentityNotFound) <==> !known
        }),
{
}

/// A verification that succeeds stores the nonce after the one it was made
/// with, keeps the fingerprint, and leaves every other account as it was.
pub proof fn law_verification_advances_nonce(
    registry: Map<Seq<u8>, Credential>,
    key: Seq<u8>,
    nonce: u128,
    fingerprint: Seq<u8>,
    signature_valid: bool,
)
    requires
        verify_outcome(registry, key, nonce, fingerprint, signature_valid) == Ok::<
            bool,
            IdentityError,
        >(true),
    ensures
        signature_valid,
        registry[key].pub_key_hash == fingerprint,
        verified(registry, key, nonce)[key].nonce == nonce + 1,
        verified(registry, key, nonce)[key].pub_key_hash == fingerprint,
        verified(registry, key, nonce).dom() == registry.dom(),
        forall|other: Seq<u8>|
            other != key && registry.contains_key(other) ==> #[trigger] verified(
                registry,
                key,
                nonce,
            )[other] == registry[other],
{
    assert(verified(registry, key, nonce).dom() =~= registry.dom());
}

/// A verification cannot be replayed: after one that succeeded with
/// `nonce`, no verification of the same key with that nonce or an earlier
/// one is accepted, whatever its signature.
pub proof fn law_replay_rejected(
    registry: Map<Seq<u8>, Credential>,
    key: Seq<u8>,
    nonce: u128,
    fingerprint: Seq<u8>,
    signature_valid: bool,
    replayed: u128,
    replayed_fingerprint: Seq<u8>,
    replayed_valid: bool,
)
    requires
        verify_outcome(registry, key, nonce, fingerprint, signature_valid) == Ok::<
            bool,
            IdentityError,
        >(true),
        replayed <= nonce,
    ensures
        verify_outcome(
            verified(registry, key, nonce),
            key,
            replayed,
            replayed_fingerprint,
            replayed_valid,
        ) == Err::<bool, IdentityError>(IdentityError::InvalidNonce),
{
}

/// A key that is registered and then verified with nonce 0 ends with the
/// nonce 1, and a second verification with nonce 0 is refused.
pub proof fn law_register_then_verify(
    registry: Map<Seq<u8>, Credential>,
    key: Seq<u8>,
    fingerprint: Seq<u8>,
)
    requires
        register_outcome(registry, key, true) is Ok,
    ensures
        ({
            let first = registered(registry, key, fingerprint);
            let second = verified(first, key, 0);
            &&& first[key].nonce == 0
            &&& verify_outcome(first, key, 0, fingerprint, true) == Ok::<bool, IdentityError>(
                true,
            )
            &&& second[key].nonce == 1
            &&& verify_outcome(second, key, 0, fingerprint, true) == Err::<
                bool,
                IdentityError,
            >(IdentityError::InvalidNonce)
        }),
{
}

/// No action lowers the nonce of an account or removes an account.
pub proof fn law_nonces_never_decrease(
    registry: Map<Seq<u8>, Credential>,
    action: ActionView,
    contract_name: Seq<u8>,
    account: Seq<u8>,
    blobs: Seq<BlobView>,
    key: Seq<u8>,
)
    requires
        action_outcome(registry, action, contract_name, account, blobs) is Ok,
        registry.contains_key(key),
    ensures
        action_effect(registry, action, contract_name, account).contains_key(key),
        action_effect(registry, action, contract_name, account)[key].nonce
            >= registry[key].nonce,
{
}

/// Where every account holds the fingerprint of its key, it does so after
/// any action that succeeds.
pub proof fn law_fingerprints_preserved(
    registry: Map<Seq<u8>, Credential>,
    action: ActionView,
    contract_name: Seq<u8>,
    account: Seq<u8>,
    blobs: Seq<BlobView>,
)
    requires
        fingerprints_hold(registry),
        action_outcome(registry, action, contract_name, account, blobs) is Ok,
    ensures
        fingerprints_hold(action_effect(registry, action, contract_name, account)),
{
    let after = action_effect(registry, action, contract_name, account);
    let own = raw_key(account, contract_name)->0;
    assert forall|key: Seq<u8>| #[trigger] after.contains_key(key) implies after[key].pub_key_hash
        == fingerprint(key) by {
        if key != own {
            assert(registry.contains_key(key));
        }
    }
}

/// An action that succeeds touches the account of its own key and no
/// other.
pub proof fn law_action_touches_own_account(
    registry: Map<Seq<u8>, Credential>,
    action: ActionView,
    contract_name: Seq<u8>,
    account: Seq<u8>,
    blobs: Seq<BlobView>,
    other: Seq<u8>,
)
    requires
        action_outcome(registry, action, contract_name, account, blobs) is Ok,
        raw_key(account, contract_name) != Some(other),
    ensures
        action_effect(registry, action, contract_name, account).contains_key(other)
            == registry.contains_key(other),
        registry.contains_key(other) ==> action_effect(
            registry,
            action,
            contract_name,
            account,
        )[other] == registry[other],
{
}

/// No action succeeds without a signature of the account's key: a
/// registration needs one over `hyle registration`, a verification one
/// over the message that binds its nonce to the bundle at hand.
pub proof fn law_success_needs_signature(
    registry: Map<Seq<u8>, Credential>,
    action: ActionView,
    contract_name: Seq<u8>,
    account: Seq<u8>,
    blobs: Seq<BlobView>,
)
    requires
        action_outcome(registry, action, contract_name, account, blobs) is Ok,
    ensures
        raw_key(account, contract_name) is Some,
        match action {
            ActionView::RegisterIdentity { signature } => address_claim_holds(
                raw_key(account, contract_name)->0,
                signature,
                REGISTRATION_MESSAGE@,
            ),
            ActionView::VerifyIdentity { nonce, signature } => address_claim_holds(
                raw_key(account, contract_name)->0,
                signature,
                binding_message(nonce, blobs),
            ),
        },
{
}

/// A bundle that was altered in any way (an operation added, left out,
/// moved or changed) is signed by another message, where the names of the
/// contracts are free of spaces.
pub proof fn law_altered_bundle_alters_message(
    nonce: u128,
    blobs: Seq<BlobView>,
    altered: Seq<BlobView>,
)
    requires
        names_without_space(blobs),
        names_without_space(altered),
        altered != blobs,
    ensures
        binding_message(nonce, altered) != binding_message(nonce, blobs),
{
    if binding_message(nonce, altered) == binding_message(nonce, blobs) {
        lemma_binding_message_injective(nonce, altered, nonce, blobs);
    }
}

/// A verification is bound to its bundle: with another bundle, one that is
/// not written as the same message, it succeeds only if the signature is
/// one over the message of that bundle, which is not the message of the
/// first.
pub proof fn law_bundle_binding(
    registry: Map<Seq<u8>, Credential>,
    nonce: u128,
    signature: Seq<u8>,
    contract_name: Seq<u8>,
    account: Seq<u8>,
    blobs: Seq<BlobView>,
    altered: Seq<BlobView>,
)
    requires
        binding_message(nonce, altered) != binding_message(nonce, blobs),
        action_outcome(
            registry,
            ActionView::VerifyIdentity { nonce, signature },
            contract_name,
            account,
            altered,
        ) is Ok,
    ensures
        exists|message: Seq<u8>|
            message != binding_message(nonce, blobs) && #[trigger] address_claim_holds(
                raw_key(account, contract_name)->0,
                signature,
                message,
            ),
{
    assert(address_claim_holds(
        raw_key(account, contract_name)->0,
        signature,
        binding_message(nonce, altered),
    ));
}

} // verus!
