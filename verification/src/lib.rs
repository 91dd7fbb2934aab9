//! Identity registry for accounts that are named by an Ethereum-style address
//! and that authenticate with `personal_sign` (EIP-191) signatures.
//!
//! The registry is a value: every transition takes it by `&mut` and either
//! succeeds, changing exactly what its contract says, or fails and leaves the
//! registry as it was.

pub mod actions;
pub mod bundle;
pub mod bytes;
pub mod commitment;
pub mod contract;
pub mod error;
pub mod hexstr;
pub mod identity;
pub mod laws;
pub mod recovery;
pub mod registry;
pub mod wire;

pub use actions::IdentityAction;
pub use bundle::Blob;
pub use error::IdentityError;
pub use identity::resolve_key;
pub use recovery::{k256_verifier, recover_address};
pub use registry::{AccountInfo, IdentityContractState};
