//! The transitions of the contract: registering an account and verifying
//! it for a transaction. A transition that fails leaves the registry as it
//! was.

use vstd::prelude::*;
use vstd::string::StringSliceAdditionalSpecFns;
use vstd::utf8::encode_utf8;

use crate::actions::{parsed_action, ActionView, IdentityAction};
use crate::bundle::{binding_message, build_binding_message, bundle_view, Blob, BlobView};
use crate::error::IdentityError;
use crate::identity::{raw_key, resolve_key};
use crate::recovery::{
    address_claim_holds, bytes_equal, fingerprint, key_fingerprint, verify_address_claim,
};
use crate::registry::{AccountInfo, Credential, IdentityContractState};

verus! {

/// The bytes of `"hyle registration"`, the message that a registration
/// signs.
pub const REGISTRATION_MESSAGE: [u8; 17] = [
    104, 121, 108, 101, 32, 114, 101, 103, 105, 115, 116, 114, 97, 116, 105, 111, 110,
];

/// Whether `key` can be registered: the signature must stand, and the key
/// must be new.
pub open spec fn register_outcome(
    registry: Map<Seq<u8>, Credential>,
    key: Seq<u8>,
    signature_valid: bool,
) -> Result<(), IdentityError> {
    if !signature_valid {
        Err(IdentityError::InvalidSignature)
    } else if registry.contains_key(key) {
        Err(IdentityError::AlreadyRegistered)
    } else {
        Ok(())
    }
}

/// The registry after `key` was registered with `fingerprint`.
pub open spec fn registered(
    registry: Map<Seq<u8>, Credential>,
    key: Seq<u8>,
    fingerprint: Seq<u8>,
) -> Map<Seq<u8>, Credential> {
    registry.insert(key, Credential { pub_key_hash: fingerprint, nonce: 0 })
}

/// A nonce is accepted if it is not behind the stored one.
pub open spec fn nonce_accepted(stored: u128, nonce: u128) -> bool {
    stored <= nonce
}

/// What a verification of `key` with `nonce` comes to before its signature
/// is looked at: the key must be registered and the nonce accepted.
/// `Ok(true)` says that the stored fingerprint is `fingerprint`, so that
/// the signature decides; `Ok(false)` that it is not.
pub open spec fn verification_admitted(
    registry: Map<Seq<u8>, Credential>,
    key: Seq<u8>,
    nonce: u128,
    fingerprint: Seq<u8>,
) -> Result<bool, IdentityError> {
    if !registry.contains_key(key) {
        Err(IdentityError::IdentityNotFound)
    } else if !nonce_accepted(registry[key].nonce, nonce) {
        Err(IdentityError::InvalidNonce)
    } else {
        Ok(registry[key].pub_key_hash == fingerprint)
    }
}

/// Whether `key` is verified with `nonce`: the key must be registered, the
/// nonce accepted, and the signature must stand. `Ok(false)` says that the
/// stored fingerprint is not `fingerprint`, that of the key. The last
/// nonce of all is refused where everything else has passed, since the
/// nonce after it cannot be stored.
pub open spec fn verify_outcome(
    registry: Map<Seq<u8>, Credential>,
    key: Seq<u8>,
    nonce: u128,
    fingerprint: Seq<u8>,
    signature_valid: bool,
) -> Result<bool, IdentityError> {
    if !registry.contains_key(key) {
        Err(IdentityError::IdentityNotFound)
    } else if !nonce_accepted(registry[key].nonce, nonce) {
        Err(IdentityError::InvalidNonce)
    } else if registry[key].pub_key_hash != fingerprint {
        Ok(false)
    } else if !signature_valid {
        Err(IdentityError::InvalidSignature)
    } else if nonce == u128::MAX {
        Err(IdentityError::InvalidNonce)
    } else {
        Ok(true)
    }
}

/// The registry after `key` was verified with `nonce`: the stored nonce is
/// the one after it.
pub open spec fn verified(registry: Map<Seq<u8>, Credential>, key: Seq<u8>, nonce: u128) -> Map<
    Seq<u8>,
    Credential,
> {
    registry.insert(
        key,
        Credential { pub_key_hash: registry[key].pub_key_hash, nonce: (nonce + 1) as u128 },
    )
}

/// How an action of `account` under `contract_name` ends, in a transaction
/// that carries `blobs` beside it.
pub open spec fn action_outcome(
    registry: Map<Seq<u8>, Credential>,
    action: ActionView,
    contract_name: Seq<u8>,
    account: Seq<u8>,
    blobs: Seq<BlobView>,
) -> Result<(), IdentityError> {
    match raw_key(account, contract_name) {
        None => Err(IdentityError::InvalidAccountSuffix),
        Some(key) => match action {
            ActionView::RegisterIdentity { signature } => register_outcome(
                registry,
                key,
                address_claim_holds(key, signature, REGISTRATION_MESSAGE@),
            ),
            ActionView::VerifyIdentity { nonce, signature } => match verify_outcome(
                registry,
                key,
                nonce,
                fingerprint(key),
                address_claim_holds(key, signature, binding_message(nonce, blobs)),
            ) {
                Ok(true) => Ok(()),
                Ok(false) => Err(IdentityError::CredentialMismatch),
                Err(e) => Err(e),
            },
        },
    }
}

/// The registry after an action of `account` that succeeded.
pub open spec fn action_effect(
    registry: Map<Seq<u8>, Credential>,
    action: ActionView,
    contract_name: Seq<u8>,
    account: Seq<u8>,
) -> Map<Seq<u8>, Credential> {
    let key = raw_key(account, contract_name)->0;
    match action {
        ActionView::RegisterIdentity { .. } => registered(registry, key, fingerprint(key)),
        ActionView::VerifyIdentity { nonce, .. } => verified(registry, key, nonce),
    }
}

/// What an action that succeeded reports.
pub open spec fn action_report(action: ActionView, account: Seq<char>) -> Seq<char> {
    match action {
        ActionView::RegisterIdentity { .. } => "Identity registered"@,
        ActionView::VerifyIdentity { .. } => "Identity verified for account: "@ + account,
    }
}

/// How a transaction ends whose blob at `index` is the identity action of
/// `identity`: the blob must be there and hold an action, and the action is
/// bound to the other blobs in their order.
pub open spec fn execution_outcome(
    registry: Map<Seq<u8>, Credential>,
    identity: Seq<u8>,
    blobs: Seq<BlobView>,
    index: int,
) -> Result<(), IdentityError> {
    if !(0 <= index < blobs.len()) {
        Err(IdentityError::MissingBundleEntry)
    } else {
        match parsed_action(blobs[index].data) {
            None => Err(IdentityError::ActionDecodeError),
            Some(action) => action_outcome(
                registry,
                action,
                blobs[index].contract_name,
                identity,
                blobs.remove(index),
            ),
        }
    }
}

impl IdentityContractState {
    /// Registers `pub_key` with `fingerprint`, given whether the signature
    /// of the registration stands.
    pub fn register_with(
        &mut self,
        pub_key: &str,
        fingerprint: String,
        signature_valid: bool,
    ) -> (r: Result<String, IdentityError>)
        ensures
            match register_outcome(old(self)@, pub_key.spec_bytes(), signature_valid) {
                Ok(()) => r is Ok && r->Ok_0@ == "Identity registered"@ && final(self)@
                    == registered(old(self)@, pub_key.spec_bytes(), encode_utf8(fingerprint@)),
                Err(e) => r is Err && r->Err_0 == e && *final(self) == *old(self),
            },
    {
        if !signature_valid {
            return Err(IdentityError::InvalidSignature);
        }
        match self.get_nonce(pub_key) {
            Ok(_) => Err(IdentityError::AlreadyRegistered),
            Err(_) => {
                self.store(pub_key.to_owned(), AccountInfo { pub_key_hash: fingerprint, nonce: 0 });
                Ok(String::from_str("Identity registered"))
            },
        }
    }

    /// Registers `pub_key`, whose address must be the one that signed
    /// `hyle registration` in `signature`.
    pub fn register_identity(
        &mut self,
        pub_key: &str,
        signature: &str,
    ) -> (r: Result<String, IdentityError>)
        ensures
            match register_outcome(
                old(self)@,
                pub_key.spec_bytes(),
                address_claim_holds(
                    pub_key.spec_bytes(),
                    signature.spec_bytes(),
                    REGISTRATION_MESSAGE@,
                ),
            ) {
                Ok(()) => r is Ok && r->Ok_0@ == "Identity registered"@ && final(self)@
                    == registered(
                    old(self)@,
                    pub_key.spec_bytes(),
                    fingerprint(pub_key.spec_bytes()),
                ),
                Err(e) => r is Err && r->Err_0 == e && *final(self) == *old(self),
            },
    {
        let valid = verify_address_claim(pub_key, signature, REGISTRATION_MESSAGE.as_slice());
        if !valid {
            return Err(IdentityError::InvalidSignature);
        }
        self.register_with(pub_key, key_fingerprint(pub_key), true)
    }

    /// What a verification of `pub_key` with `nonce` comes to before its
    /// signature is looked at. `Ok(true)` says that the signature decides.
    /// The registry is only read.
    pub fn admit_verification(
        &self,
        pub_key: &str,
        nonce: u128,
        fingerprint: &str,
    ) -> (r: Result<bool, IdentityError>)
        ensures
            r == verification_admitted(
                self@,
                pub_key.spec_bytes(),
                nonce,
                fingerprint.spec_bytes(),
            ),
    {
        let stored = match self.get_identity_info(pub_key) {
            Ok(stored) => stored,
            Err(e) => { return Err(e); },
        };
        if nonce < stored.nonce {
            return Err(IdentityError::InvalidNonce);
        }
        Ok(bytes_equal(stored.pub_key_hash.as_str().as_bytes(), fingerprint.as_bytes()))
    }

    /// Verifies `pub_key` with `nonce`, given the fingerprint of the key
    /// and whether the signature of the verification stands. On `Ok(true)`
    /// the stored nonce becomes the one after `nonce`.
    pub fn verify_with(
        &mut self,
        pub_key: &str,
        nonce: u128,
        fingerprint: &str,
        signature_valid: bool,
    ) -> (r: Result<bool, IdentityError>)
        ensures
            r == verify_outcome(
                old(self)@,
                pub_key.spec_bytes(),
                nonce,
                fingerprint.spec_bytes(),
                signature_valid,
            ),
            r == Ok::<bool, IdentityError>(true) ==> final(self)@ == verified(
                old(self)@,
                pub_key.spec_bytes(),
                nonce,
            ),
            r != Ok::<bool, IdentityError>(true) ==> *final(self) == *old(self),
    {
        match self.admit_verification(pub_key, nonce, fingerprint) {
            Ok(true) => {
                if !signature_valid {
                    return Err(IdentityError::InvalidSignature);
                }
                if nonce == u128::MAX {
                    return Err(IdentityError::InvalidNonce);
                }
                self.store(
                    pub_key.to_owned(),
                    AccountInfo { pub_key_hash: fingerprint.to_owned(), nonce: nonce + 1 },
                );
                Ok(true)
            },
            refused => refused,
        }
    }

    /// Verifies `pub_key` with `nonce` for a transaction that carries
    /// `blobs` beside the action: the address of the key must be the one
    /// that signed the message binding the nonce to the blobs. The
    /// signature is looked at only where the account, the nonce and the
    /// fingerprint pass.
    pub fn verify_identity(
        &mut self,
        pub_key: &str,
        nonce: u128,
        blobs: &[Blob],
        signature: &str,
    ) -> (r: Result<bool, IdentityError>)
        ensures
            r == verify_outcome(
                old(self)@,
                pub_key.spec_bytes(),
                nonce,
                fingerprint(pub_key.spec_bytes()),
                address_claim_holds(
                    pub_key.spec_bytes(),
                    signature.spec_bytes(),
                    binding_message(nonce, bundle_view(blobs@)),
                ),
            ),
            r == Ok::<bool, IdentityError>(true) ==> final(self)@ == verified(
                old(self)@,
                pub_key.spec_bytes(),
                nonce,
            ),
            r != Ok::<bool, IdentityError>(true) ==> *final(self) == *old(self),
    {
        let fingerprint = key_fingerprint(pub_key);
        let valid = match self.admit_verification(pub_key, nonce, fingerprint.as_str()) {
            Ok(true) => {
                let message = build_binding_message(nonce, blobs);
                verify_address_claim(pub_key, signature, message.as_slice())
            },
            _ => false,
        };
        self.verify_with(pub_key, nonce, fingerprint.as_str(), valid)
    }

    /// Carries out `action` for `account`, which must end with a dot and
    /// `contract_name`, in a transaction that carries `blobs` beside it.
    pub fn execute_action(
        &mut self,
        action: IdentityAction,
        contract_name: &str,
        account: &str,
        blobs: &[Blob],
    ) -> (r: Result<String, IdentityError>)
        ensures
            match action_outcome(
                old(self)@,
                action@,
                contract_name.spec_bytes(),
                account.spec_bytes(),
                bundle_view(blobs@),
            ) {
                Ok(()) => r is Ok && r->Ok_0@ == action_report(action@, account@) && final(self)@
                    == action_effect(
                    old(self)@,
                    action@,
                    contract_name.spec_bytes(),
                    account.spec_bytes(),
                ),
                Err(e) => r is Err && r->Err_0 == e && *final(self) == *old(self),
            },
    {
        let pub_key = match resolve_key(account, contract_name) {
            Ok(pub_key) => pub_key,
            Err(e) => { return Err(e); },
        };
        match action {
            IdentityAction::RegisterIdentity { signature } => self.register_identity(
                pub_key,
                signature.as_str(),
            ),
            IdentityAction::VerifyIdentity { nonce, signature } => {
                match self.verify_identity(pub_key, nonce, blobs, signature.as_str()) {
                    Ok(true) => Ok(
                        String::from_str("Identity verified for account: ").concat(account),
                    ),
                    Ok(false) => Err(IdentityError::CredentialMismatch),
                    Err(e) => Err(e),
                }
            },
        }
    }

    /// Carries out the identity action of a transaction: the blob at
    /// `index` holds the action and names the contract, and the other blobs
    /// are what the action is bound to.
    pub fn execute(
        &mut self,
        identity: &str,
        blobs: Vec<Blob>,
        index: usize,
    ) -> (r: Result<String, IdentityError>)
        ensures
            match execution_outcome(
                old(self)@,
                identity.spec_bytes(),
                bundle_view(blobs@),
                index as int,
            ) {
                Ok(()) => {
                    let own = blobs@[index as int]@;
                    let action = parsed_action(own.data)->0;
                    &&& r is Ok
                    &&& r->Ok_0@ == action_report(action, identity@)
                    &&& final(self)@ == action_effect(
                        old(self)@,
                        action,
                        own.contract_name,
                        identity.spec_bytes(),
                    )
                },
                Err(e) => r is Err && r->Err_0 == e && *final(self) == *old(self),
            },
    {
        if index >= blobs.len() {
            return Err(IdentityError::MissingBundleEntry);
        }
        let mut blobs = blobs;
        let ghost all = bundle_view(blobs@);
        let own = blobs.remove(index);
        assert(bundle_view(blobs@) =~= all.remove(index as int));
        let action = match IdentityAction::decode(own.data.as_slice()) {
            Ok(action) => action,
            Err(e) => { return Err(e); },
        };
        self.execute_action(action, own.contract_name.as_str(), identity, blobs.as_slice())
    }
}

} // verus!
