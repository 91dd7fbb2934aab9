//! Identity strings: the key of an account, a dot, and the name of the
//! contract that the account belongs to.

use vstd::prelude::*;
use vstd::string::StringSliceAdditionalSpecFns;
use vstd::utf8::encode_utf8_valid_utf8;

use crate::error::IdentityError;

verus! {

/// `text` without the dots that it ends in.
pub open spec fn without_trailing_dots(text: Seq<u8>) -> Seq<u8>
    decreases text.len(),
{
    if text.len() > 0 && text.last() == 46 {
        without_trailing_dots(text.drop_last())
    } else {
        text
    }
}

/// `identity` ends with a dot and `contract_name`.
pub open spec fn has_contract_suffix(identity: Seq<u8>, contract_name: Seq<u8>) -> bool {
    &&& identity.len() > contract_name.len()
    &&& identity[identity.len() - contract_name.len() - 1] == 46
    &&& identity.skip(identity.len() - contract_name.len()) == contract_name
}

/// The key of the account that `identity` names under `contract_name`: what
/// stands before the last dot and the contract's name, without the dots
/// that it ends in. None where `identity` does not end with a dot and
/// `contract_name`.
pub open spec fn raw_key(identity: Seq<u8>, contract_name: Seq<u8>) -> Option<Seq<u8>> {
    if has_contract_suffix(identity, contract_name) {
        Some(without_trailing_dots(identity.take(identity.len() - contract_name.len() - 1)))
    } else {
        None
    }
}

/// A prefix that is cut where a dot follows it has lost every dot that it
/// ended in, if it does not end in one itself.
proof fn lemma_without_trailing_dots(text: Seq<u8>, end: int)
    requires
        0 <= end <= text.len(),
        forall|i: int| end <= i < text.len() ==> text[i] == 46,
        end > 0 ==> text[end - 1] != 46,
    ensures
        without_trailing_dots(text) == text.take(end),
    decreases text.len(),
{
    if end < text.len() {
        assert(text.last() == 46);
        lemma_without_trailing_dots(text.drop_last(), end);
        assert(text.drop_last().take(end) =~= text.take(end));
    } else {
        assert(text.take(end) =~= text);
    }
}

/// Takes the key of the account out of `identity`, which must end with a dot
/// and `contract_name`.
pub fn resolve_key<'a>(
    identity: &'a str,
    contract_name: &str,
) -> (r: Result<&'a str, IdentityError>)
    ensures
        match r {
            Ok(key) => raw_key(identity.spec_bytes(), contract_name.spec_bytes()) == Some(
                key.spec_bytes(),
            ),
            Err(e) => e == IdentityError::InvalidAccountSuffix && raw_key(
                identity.spec_bytes(),
                contract_name.spec_bytes(),
            ) is None,
        },
{
    let text = identity.as_bytes();
    let name = contract_name.as_bytes();
    if text.len() <= name.len() {
        return Err(IdentityError::InvalidAccountSuffix);
    }
    let start: usize = text.len() - name.len();
    if text[start - 1] != 46 {
        return Err(IdentityError::InvalidAccountSuffix);
    }
    let mut i: usize = 0;
    while i < name.len()
        invariant
            i <= name.len(),
            start + name.len() == text.len(),
            text@ == identity.spec_bytes(),
            name@ == contract_name.spec_bytes(),
            forall|j: int| 0 <= j < i ==> text@[start + j] == name@[j],
        decreases name.len() - i,
    {
        if text[start + i] != name[i] {
            proof {
                let tail = text@.skip(text@.len() - name@.len());
                assert(tail[i as int] == text@[start + i]);
                assert(tail != name@);
            }
            return Err(IdentityError::InvalidAccountSuffix);
        }
        i += 1;
    }
    assert(text@.skip(start as int) =~= name@);
    let mut end: usize = start - 1;
    while end > 0 && text[end - 1] == 46
        invariant
            end < start,
            start <= text.len(),
            forall|j: int| end <= j < start ==> text@[j] == 46,
        decreases end,
    {
        end -= 1;
    }
    proof {
        let front = text@.take(start - 1);
        lemma_without_trailing_dots(front, end as int);
        assert(front.take(end as int) =~= text@.subrange(0, end as int));
        encode_utf8_valid_utf8(identity@);
        vstd::utf8::utf8_byte_ranges_bitwise(text@[end as int]);
        vstd::utf8::is_char_boundary_iff_not_is_continuation_byte(text@, end as int);
    }
    let (key, _) = identity.split_at(end);
    Ok(key)
}

} // verus!
