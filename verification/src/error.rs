//! The failures a transition can end in.

use vstd::prelude::*;

verus! {

/// Why an action, a digest or a lookup was rejected.
#[derive(Clone, Copy, Debug, PartialEq, Eq, Structural)]
pub enum IdentityError {
    /// The identity does not end with a dot and the contract's name.
    InvalidAccountSuffix,
    /// No blob stands at the index that the transaction declares for the action.
    MissingBundleEntry,
    /// The action's payload is not the encoding of an action.
    ActionDecodeError,
    /// The signature is not hex, has the wrong length, recovers no key, or
    /// recovers the key of another address.
    InvalidSignature,
    /// The key is registered already.
    AlreadyRegistered,
    /// The key is not registered.
    IdentityNotFound,
    /// The nonce lies behind the stored one, or cannot be advanced.
    InvalidNonce,
    /// The stored fingerprint is not the fingerprint of the key.
    CredentialMismatch,
    /// The digest is not the encoding of a registry.
    StateDecodeError,
    /// The registry holds a string or a number of accounts too long to encode.
    StateEncodeError,
}

impl IdentityError {
    /// The diagnostic text of each failure.
    pub open spec fn text(self) -> Seq<char> {
        match self {
            IdentityError::InvalidAccountSuffix => "Invalid account extension"@,
            IdentityError::MissingBundleEntry => "No blob"@,
            IdentityError::ActionDecodeError => "Could not decode identity action"@,
            IdentityError::InvalidSignature => "Invalid signature"@,
            IdentityError::AlreadyRegistered => "Identity already exists"@,
            IdentityError::IdentityNotFound => "Identity not found"@,
            IdentityError::InvalidNonce => "Invalid nonce"@,
            IdentityError::CredentialMismatch => "Identity verification failed"@,
            IdentityError::StateDecodeError => "Could not decode identity state"@,
            IdentityError::StateEncodeError => "Failed to encode state"@,
        }
    }

    /// The diagnostic text, for the caller to show.
    pub fn message(&self) -> (out: String)
        ensures
            out@ == self.text(),
    {
        match self {
            IdentityError::InvalidAccountSuffix => String::from_str("Invalid account extension"),
            IdentityError::MissingBundleEntry => String::from_str("No blob"),
            IdentityError::ActionDecodeError => String::from_str(
                "Could not decode identity action",
            ),
            IdentityError::InvalidSignature => String::from_str("Invalid signature"),
            IdentityError::AlreadyRegistered => String::from_str("Identity already exists"),
            IdentityError::IdentityNotFound => String::from_str("Identity not found"),
            IdentityError::InvalidNonce => String::from_str("Invalid nonce"),
            IdentityError::CredentialMismatch => String::from_str("Identity verification failed"),
            IdentityError::StateDecodeError => String::from_str("Could not decode identity state"),
            IdentityError::StateEncodeError => String::from_str("Failed to encode state"),
        }
    }
}

} // verus!
