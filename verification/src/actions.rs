//! The actions of the contract and their binary encoding: one byte that
//! tells the kind, then the fields in their order.

use vstd::prelude::*;
use vstd::utf8::{encode_utf8, encode_utf8_valid_utf8, valid_utf8};

use crate::error::IdentityError;
use crate::wire::{
    lemma_le_bytes_of_le_value, lemma_parse_string, lemma_parse_u128, parse_string, parse_u128,
    push_le, push_string, read_string, read_u128, wire_string, wire_u128,
};

verus! {

/// An action as plain values; a signature is the bytes of its text.
pub enum ActionView {
    RegisterIdentity { signature: Seq<u8> },
    VerifyIdentity { nonce: u128, signature: Seq<u8> },
}

/// What an account asks of the contract. A signature is 65 bytes in
/// hexadecimal, with or without `0x` in front.
#[derive(Debug, Clone, PartialEq, Eq)]
pub enum IdentityAction {
    /// Registers the account, by a signature over `hyle registration`.
    RegisterIdentity { signature: String },
    /// Verifies the account for the transaction at hand, by a signature
    /// over the message that binds `nonce` to the transaction's operations.
    VerifyIdentity { nonce: u128, signature: String },
}

impl View for IdentityAction {
    type V = ActionView;

    open spec fn view(&self) -> ActionView {
        match self {
            IdentityAction::RegisterIdentity { signature } => ActionView::RegisterIdentity {
                signature: encode_utf8(signature@),
            },
            IdentityAction::VerifyIdentity { nonce, signature } => ActionView::VerifyIdentity {
                nonce: *nonce,
                signature: encode_utf8(signature@),
            },
        }
    }
}

impl ActionView {
    /// The signature that the action carries.
    pub open spec fn signature(self) -> Seq<u8> {
        match self {
            ActionView::RegisterIdentity { signature } => signature,
            ActionView::VerifyIdentity { signature, .. } => signature,
        }
    }

    /// The action can be encoded and read back: its signature is UTF-8 and
    /// its length fits in 32 bits.
    pub open spec fn encodable(self) -> bool {
        self.signature().len() <= u32::MAX && valid_utf8(self.signature())
    }
}

/// The encoding of an action.
pub open spec fn encoded_action(action: ActionView) -> Seq<u8> {
    match action {
        ActionView::RegisterIdentity { signature } => seq![0u8] + wire_string(signature),
        ActionView::VerifyIdentity { nonce, signature } => seq![1u8] + wire_u128(nonce)
            + wire_string(signature),
    }
}

/// The action that `payload` encodes, if it is the whole encoding of one.
pub open spec fn parsed_action(payload: Seq<u8>) -> Option<ActionView> {
    if payload.len() == 0 {
        None
    } else if payload[0] == 0 {
        match parse_string(payload.skip(1)) {
            Some((signature, rest)) => if rest.len() == 0 {
                Some(ActionView::RegisterIdentity { signature })
            } else {
                None
            },
            None => None,
        }
    } else if payload[0] == 1 {
        match parse_u128(payload.skip(1)) {
            Some((nonce, rest)) => match parse_string(rest) {
                Some((signature, rest)) => if rest.len() == 0 {
                    Some(ActionView::VerifyIdentity { nonce, signature })
                } else {
                    None
                },
                None => None,
            },
            None => None,
        }
    } else {
        None
    }
}

/// An action is read back from its encoding.
pub proof fn lemma_action_round_trip(action: ActionView)
    requires
        action.encodable(),
    ensures
        parsed_action(encoded_action(action)) == Some(action),
{
    let payload = encoded_action(action);
    let empty = Seq::<u8>::empty();
    match action {
        ActionView::RegisterIdentity { signature } => {
            lemma_parse_string(signature, empty);
            assert(payload.skip(1) =~= wire_string(signature) + empty);
        },
        ActionView::VerifyIdentity { nonce, signature } => {
            lemma_parse_u128(nonce, wire_string(signature));
            lemma_parse_string(signature, empty);
            assert(payload.skip(1) =~= wire_u128(nonce) + wire_string(signature));
            assert(wire_string(signature) =~= wire_string(signature) + empty);
        },
    }
}

/// A payload that encodes an action is the encoding of that action: no
/// action has two encodings.
pub proof fn lemma_action_encoding_unique(payload: Seq<u8>)
    requires
        parsed_action(payload) is Some,
    ensures
        encoded_action(parsed_action(payload)->0) == payload,
        parsed_action(payload)->0.encodable(),
{
    let body = payload.skip(1);
    crate::wire::lemma_pow256_values();
    if payload[0] == 0 {
        let (signature, rest) = parse_string(body)->0;
        lemma_le_bytes_of_le_value(body.take(4));
        assert(body =~= wire_string(signature) + rest);
        assert(payload =~= seq![0u8] + body);
        assert(payload =~= encoded_action(parsed_action(payload)->0));
    } else {
        let (nonce, after) = parse_u128(body)->0;
        let (signature, rest) = parse_string(after)->0;
        lemma_le_bytes_of_le_value(body.take(16));
        lemma_le_bytes_of_le_value(after.take(4));
        assert(after =~= wire_string(signature) + rest);
        assert(body =~= wire_u128(nonce) + after);
        assert(payload =~= seq![1u8] + body);
        assert(payload =~= encoded_action(parsed_action(payload)->0));
    }
}

impl IdentityAction {
    /// Decodes an action. The payload must be the encoding of one action and
    /// nothing more.
    pub fn decode(payload: &[u8]) -> (r: Result<IdentityAction, IdentityError>)
        ensures
            match r {
                Ok(action) => parsed_action(payload@) == Some(action@),
                Err(e) => e == IdentityError::ActionDecodeError && parsed_action(payload@) is None,
            },
    {
        if payload.len() == 0 {
            return Err(IdentityError::ActionDecodeError);
        }
        let kind: u8 = payload[0];
        if kind == 0 {
            match read_string(payload, 1) {
                Some((signature, end)) => {
                    if end == payload.len() {
                        Ok(IdentityAction::RegisterIdentity { signature })
                    } else {
                        Err(IdentityError::ActionDecodeError)
                    }
                },
                None => Err(IdentityError::ActionDecodeError),
            }
        } else if kind == 1 {
            let (nonce, next) = match read_u128(payload, 1) {
                Some(found) => found,
                None => { return Err(IdentityError::ActionDecodeError); },
            };
            match read_string(payload, next) {
                Some((signature, end)) => {
                    if end == payload.len() {
                        Ok(IdentityAction::VerifyIdentity { nonce, signature })
                    } else {
                        Err(IdentityError::ActionDecodeError)
                    }
                },
                None => Err(IdentityError::ActionDecodeError),
            }
        } else {
            Err(IdentityError::ActionDecodeError)
        }
    }

    /// Encodes the action. None where the signature is too long for its
    /// length to be written in 32 bits.
    pub fn encode(&self) -> (r: Option<Vec<u8>>)
        ensures
            match r {
                Some(payload) => self@.encodable() && payload@ == encoded_action(self@),
                None => !self@.encodable(),
            },
    {
        let mut out: Vec<u8> = Vec::new();
        let written = match self {
            IdentityAction::RegisterIdentity { signature } => {
                proof {
                    encode_utf8_valid_utf8(signature@);
                }
                out.push(0);
                push_string(&mut out, signature.as_str().as_bytes())
            },
            IdentityAction::VerifyIdentity { nonce, signature } => {
                proof {
                    encode_utf8_valid_utf8(signature@);
                }
                out.push(1);
                push_le(&mut out, *nonce, 16);
                push_string(&mut out, signature.as_str().as_bytes())
            },
        };
        if written {
            assert(out@ =~= encoded_action(self@));
            Some(out)
        } else {
            None
        }
    }
}

} // verus!
