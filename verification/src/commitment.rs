//! The commitment of the registry: the bytes that stand for it on chain.
//! The number of accounts comes first, then each account in the order of
//! the keys: its key, its fingerprint and its nonce.

use vstd::prelude::*;
use vstd::utf8::{encode_utf8_valid_utf8, valid_utf8};

use crate::error::IdentityError;
use crate::registry::{
    lemma_sorted_records_unique, registry_of, strictly_sorted, AccountInfo, Credential,
    IdentityContractState, Record,
};
use crate::wire::{
    le_bytes, lemma_le_bytes_len, lemma_le_bytes_of_le_value, lemma_le_value_of_le_bytes,
    lemma_parse_string, lemma_parse_u128, lemma_pow256_values, parse_string, parse_u128,
    parse_u32, push_le, push_string, read_string, read_u128, read_u32, wire_string, wire_u128,
};

verus! {

/// The encoding of one account.
pub open spec fn encoded_record(record: Record) -> Seq<u8> {
    wire_string(record.key) + wire_string(record.credential.pub_key_hash) + wire_u128(
        record.credential.nonce,
    )
}

/// The encodings of the accounts, one after the other.
pub open spec fn encoded_records(records: Seq<Record>) -> Seq<u8>
    decreases records.len(),
{
    if records.len() == 0 {
        Seq::<u8>::empty()
    } else {
        encoded_records(records.drop_last()) + encoded_record(records.last())
    }
}

/// The commitment of a list of accounts.
pub open spec fn encoded_state(records: Seq<Record>) -> Seq<u8> {
    le_bytes(records.len(), 4) + encoded_records(records)
}

/// The strings of the account are UTF-8 and their lengths fit in 32 bits.
pub open spec fn record_encodable(record: Record) -> bool {
    &&& record.key.len() <= u32::MAX
    &&& valid_utf8(record.key)
    &&& record.credential.pub_key_hash.len() <= u32::MAX
    &&& valid_utf8(record.credential.pub_key_hash)
}

/// The list can be committed: the number of accounts fits in 32 bits and
/// each account can be encoded.
pub open spec fn encodable(records: Seq<Record>) -> bool {
    &&& records.len() <= u32::MAX
    &&& forall|i: int| 0 <= i < records.len() ==> record_encodable(#[trigger] records[i])
}

/// The account at the front of `input`, and what follows it.
pub open spec fn parse_record(input: Seq<u8>) -> Option<(Record, Seq<u8>)> {
    match parse_string(input) {
        None => None,
        Some((key, rest)) => match parse_string(rest) {
            None => None,
            Some((pub_key_hash, rest)) => match parse_u128(rest) {
                None => None,
                Some((nonce, rest)) => Some(
                    (Record { key, credential: Credential { pub_key_hash, nonce } }, rest),
                ),
            },
        },
    }
}

/// The `count` accounts at the front of `input`, and what follows them.
pub open spec fn parse_records(input: Seq<u8>, count: nat) -> Option<(Seq<Record>, Seq<u8>)>
    decreases count,
{
    if count == 0 {
        Some((Seq::<Record>::empty(), input))
    } else {
        match parse_records(input, (count - 1) as nat) {
            None => None,
            Some((front, rest)) => match parse_record(rest) {
                None => None,
                Some((last, rest)) => Some((front.push(last), rest)),
            },
        }
    }
}

/// The accounts that `digest` commits to, in the order in which it lists
/// them, if it is the whole commitment of a list.
pub open spec fn parsed_state(digest: Seq<u8>) -> Option<Seq<Record>> {
    match parse_u32(digest) {
        None => None,
        Some((count, rest)) => match parse_records(rest, count) {
            None => None,
            Some((records, rest)) => if rest.len() == 0 {
                Some(records)
            } else {
                None
            },
        },
    }
}

/// Where some accounts cannot be read, more cannot be read either.
pub proof fn lemma_parse_records_fails(input: Seq<u8>, few: nat, many: nat)
    requires
        few <= many,
        parse_records(input, few) is None,
    ensures
        parse_records(input, many) is None,
    decreases many,
{
    if few < many {
        lemma_parse_records_fails(input, few, (many - 1) as nat);
    }
}

/// An account is read back from the front of what it was written to.
pub proof fn lemma_parse_record(record: Record, tail: Seq<u8>)
    requires
        record_encodable(record),
    ensures
        parse_record(encoded_record(record) + tail) == Some((record, tail)),
{
    let hash = wire_string(record.credential.pub_key_hash);
    let nonce = wire_u128(record.credential.nonce);
    lemma_parse_string(record.key, hash + nonce + tail);
    lemma_parse_string(record.credential.pub_key_hash, nonce + tail);
    lemma_parse_u128(record.credential.nonce, tail);
    assert(encoded_record(record) + tail =~= wire_string(record.key) + (hash + nonce + tail));
    assert(hash + nonce + tail =~= hash + (nonce + tail));
}

/// Accounts are read back from the front of what they were written to.
pub proof fn lemma_parse_records(records: Seq<Record>, tail: Seq<u8>)
    requires
        forall|i: int| 0 <= i < records.len() ==> record_encodable(#[trigger] records[i]),
    ensures
        parse_records(encoded_records(records) + tail, records.len()) == Some((records, tail)),
    decreases records.len(),
{
    if records.len() > 0 {
        let front = records.drop_last();
        let last = records.last();
        assert forall|i: int| 0 <= i < front.len() implies record_encodable(
            #[trigger] front[i],
        ) by {
            assert(front[i] == records[i]);
        }
        lemma_parse_records(front, encoded_record(last) + tail);
        lemma_parse_record(last, tail);
        assert(encoded_records(records) + tail =~= encoded_records(front) + (encoded_record(last)
            + tail));
        assert(front.push(last) =~= records);
    }
}

/// A list of accounts is read back from its commitment.
pub proof fn lemma_state_round_trip(records: Seq<Record>)
    requires
        encodable(records),
    ensures
        parsed_state(encoded_state(records)) == Some(records),
{
    let count = le_bytes(records.len(), 4);
    let body = encoded_records(records);
    lemma_le_bytes_len(records.len(), 4);
    lemma_pow256_values();
    lemma_le_value_of_le_bytes(records.len(), 4);
    lemma_parse_records(records, Seq::<u8>::empty());
    assert((count + body).take(4) =~= count);
    assert((count + body).skip(4) =~= body);
    assert(body + Seq::<u8>::empty() =~= body);
}

/// What an account was read from is its encoding.
pub proof fn lemma_parse_record_unique(input: Seq<u8>)
    requires
        parse_record(input) is Some,
    ensures
        ({
            let (record, rest) = parse_record(input)->0;
            input == encoded_record(record) + rest && record_encodable(record)
        }),
{
    lemma_pow256_values();
    let (key, after_key) = parse_string(input)->0;
    let (hash, after_hash) = parse_string(after_key)->0;
    let (nonce, rest) = parse_u128(after_hash)->0;
    lemma_le_bytes_of_le_value(input.take(4));
    lemma_le_bytes_of_le_value(after_key.take(4));
    lemma_le_bytes_of_le_value(after_hash.take(16));
    assert(input =~= wire_string(key) + after_key);
    assert(after_key =~= wire_string(hash) + after_hash);
    assert(after_hash =~= wire_u128(nonce) + rest);
    assert(input =~= wire_string(key) + wire_string(hash) + wire_u128(nonce) + rest);
}

/// What accounts were read from is their encodings, one after the other.
pub proof fn lemma_parse_records_unique(input: Seq<u8>, count: nat)
    requires
        parse_records(input, count) is Some,
    ensures
        ({
            let (records, rest) = parse_records(input, count)->0;
            &&& input == encoded_records(records) + rest
            &&& records.len() == count
            &&& forall|i: int| 0 <= i < count ==> record_encodable(#[trigger] records[i])
        }),
    decreases count,
{
    if count == 0 {
        assert(input =~= encoded_records(Seq::<Record>::empty()) + input);
    } else {
        let (front, middle) = parse_records(input, (count - 1) as nat)->0;
        let (last, rest) = parse_record(middle)->0;
        let records = front.push(last);
        lemma_parse_records_unique(input, (count - 1) as nat);
        lemma_parse_record_unique(middle);
        assert(records.drop_last() =~= front);
        assert(input =~= encoded_records(records) + rest);
        assert forall|i: int| 0 <= i < count implies record_encodable(#[trigger] records[i]) by {
            if i < count - 1 {
                assert(records[i] == front[i]);
            }
        }
    }
}

/// A digest that commits to a list of accounts is the commitment of that
/// list: no list has two commitments.
pub proof fn lemma_state_encoding_unique(digest: Seq<u8>)
    requires
        parsed_state(digest) is Some,
    ensures
        encoded_state(parsed_state(digest)->0) == digest,
        encodable(parsed_state(digest)->0),
{
    let (count, body) = parse_u32(digest)->0;
    lemma_pow256_values();
    lemma_le_bytes_of_le_value(digest.take(4));
    lemma_parse_records_unique(body, count);
    let records = parsed_state(digest)->0;
    assert(body =~= encoded_records(records));
    assert(digest =~= digest.take(4) + body);
}

/// Reads the account at `pos`, and gives the place behind it.
pub fn read_record(input: &[u8], pos: usize) -> (r: Option<(String, AccountInfo, usize)>)
    requires
        pos <= input@.len(),
    ensures
        match r {
            Some((key, info, next)) => pos <= next <= input@.len() && parse_record(
                input@.skip(pos as int),
            ) == Some(
                (
                    Record { key: vstd::utf8::encode_utf8(key@), credential: info@ },
                    input@.skip(next as int),
                ),
            ),
            None => parse_record(input@.skip(pos as int)) is None,
        },
{
    let (key, after_key) = match read_string(input, pos) {
        Some(found) => found,
        None => { return None; },
    };
    let (pub_key_hash, after_hash) = match read_string(input, after_key) {
        Some(found) => found,
        None => { return None; },
    };
    let (nonce, next) = match read_u128(input, after_hash) {
        Some(found) => found,
        None => { return None; },
    };
    Some((key, AccountInfo { pub_key_hash, nonce }, next))
}

impl IdentityContractState {
    /// Commits the registry: the accounts are written in the order of
    /// their keys. Fails only where the registry holds a string, or a
    /// number of accounts, too long to be written in 32 bits.
    pub fn as_bytes(&self) -> (r: Result<Vec<u8>, IdentityError>)
        ensures
            strictly_sorted(self.records()),
            match r {
                Ok(digest) => encodable(self.records()) && digest@ == encoded_state(
                    self.records(),
                ),
                Err(e) => e == IdentityError::StateEncodeError && !encodable(self.records()),
            },
    {
        self.observe_order();
        let count = self.len();
        if count > 0xffff_ffff {
            return Err(IdentityError::StateEncodeError);
        }
        let ghost records = self.records();
        let mut out: Vec<u8> = Vec::new();
        push_le(&mut out, count as u128, 4);
        let ghost head = out@;
        let mut i: usize = 0;
        while i < count
            invariant
                i <= count,
                count == records.len(),
                records == self.records(),
                strictly_sorted(records),
                head == le_bytes(records.len(), 4),
                out@ == head + encoded_records(records.take(i as int)),
                forall|j: int| 0 <= j < i ==> record_encodable(#[trigger] records[j]),
            decreases count - i,
        {
            let key = self.key_at(i);
            let info = self.info_at(i);
            proof {
                encode_utf8_valid_utf8(key@);
                encode_utf8_valid_utf8(info.pub_key_hash@);
            }
            if !push_string(&mut out, key.as_bytes()) {
                return Err(IdentityError::StateEncodeError);
            }
            if !push_string(&mut out, info.pub_key_hash.as_str().as_bytes()) {
                return Err(IdentityError::StateEncodeError);
            }
            push_le(&mut out, info.nonce, 16);
            proof {
                let next = records.take(i + 1);
                assert(next.drop_last() =~= records.take(i as int));
                assert(next.last() == records[i as int]);
                assert(out@ =~= head + encoded_records(next));
            }
            i += 1;
        }
        proof {
            assert(records.take(i as int) =~= records);
        }
        Ok(out)
    }

    /// Reads the registry that `digest` commits to. Where the digest lists
    /// a key more than once, the last account of that key stands; the
    /// order in which it lists the accounts is free.
    pub fn from_bytes(digest: &[u8]) -> (r: Result<IdentityContractState, IdentityError>)
        ensures
            match r {
                Ok(state) => parsed_state(digest@) is Some && state@ == registry_of(
                    parsed_state(digest@)->0,
                ) && (strictly_sorted(parsed_state(digest@)->0) ==> state.records()
                    == parsed_state(digest@)->0),
                Err(e) => e == IdentityError::StateDecodeError && parsed_state(digest@) is None,
            },
    {
        let (count, start) = match read_u32(digest, 0) {
            Some(found) => found,
            None => {
                assert(digest@.skip(0) =~= digest@);
                return Err(IdentityError::StateDecodeError);
            },
        };
        let ghost body = digest@.skip(start as int);
        assert(digest@.skip(0) =~= digest@);
        let mut state = IdentityContractState::new();
        let ghost mut read: Seq<Record> = Seq::empty();
        let mut pos: usize = start;
        let mut i: u32 = 0;
        while i < count
            invariant
                i <= count,
                pos <= digest@.len(),
                parse_u32(digest@) == Some((count as nat, body)),
                parse_records(body, i as nat) == Some((read, digest@.skip(pos as int))),
                state@ == registry_of(read),
            decreases count - i,
        {
            let (key, info, next) = match read_record(digest, pos) {
                Some(found) => found,
                None => {
                    proof {
                        lemma_parse_records_fails(body, (i + 1) as nat, count as nat);
                    }
                    return Err(IdentityError::StateDecodeError);
                },
            };
            proof {
                let record = Record { key: vstd::utf8::encode_utf8(key@), credential: info@ };
                assert(read.push(record).drop_last() =~= read);
                read = read.push(record);
            }
            state.store(key, info);
            pos = next;
            i += 1;
        }
        if pos != digest.len() {
            return Err(IdentityError::StateDecodeError);
        }
        state.observe_order();
        proof {
            if strictly_sorted(read) {
                lemma_sorted_records_unique(state.records(), read);
            }
        }
        Ok(state)
    }
}

} // verus!
