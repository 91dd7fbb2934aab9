//! The registry of accounts: an ordered map from the key of an account to
//! what is stored for it.

use vstd::prelude::*;
use vstd::string::StringSliceAdditionalSpecFns;
use vstd::utf8::encode_utf8;

use crate::bytes::{
    compare_bytes, lemma_lex_lt_asymmetric, lemma_lex_lt_irreflexive, lemma_lex_lt_total,
    lemma_lex_lt_transitive, lex_lt, ByteOrder,
};
use crate::error::IdentityError;

verus! {

/// What is stored for an account, as plain values: the fingerprint of its
/// key, as the bytes of its text, and the nonce that the next verification
/// must reach.
pub struct Credential {
    pub pub_key_hash: Seq<u8>,
    pub nonce: u128,
}

/// One account of a registry, as plain values: the bytes of its key and its
/// credential.
pub struct Record {
    pub key: Seq<u8>,
    pub credential: Credential,
}

/// What is stored for an account.
#[derive(Debug, Clone, PartialEq, Eq)]
pub struct AccountInfo {
    pub pub_key_hash: String,
    pub nonce: u128,
}

impl View for AccountInfo {
    type V = Credential;

    open spec fn view(&self) -> Credential {
        Credential { pub_key_hash: encode_utf8(self.pub_key_hash@), nonce: self.nonce }
    }
}

#[derive(Debug, Clone)]
struct Entry {
    key: String,
    info: AccountInfo,
}

impl Entry {
    spec fn record(&self) -> Record {
        Record { key: encode_utf8(self.key@), credential: self.info@ }
    }
}

/// The keys rise strictly in dictionary order, so no key stands twice.
pub open spec fn strictly_sorted(records: Seq<Record>) -> bool {
    forall|i: int, j: int|
        0 <= i < j < records.len() ==> lex_lt(
            (#[trigger] records[i]).key,
            (#[trigger] records[j]).key,
        )
}

/// Some record has this key.
pub open spec fn has_key(records: Seq<Record>, key: Seq<u8>) -> bool {
    exists|i: int| 0 <= i < records.len() && (#[trigger] records[i]).key == key
}

/// The map that a list of records builds when each is stored in turn, a
/// later record replacing an earlier one of the same key.
pub open spec fn registry_of(records: Seq<Record>) -> Map<Seq<u8>, Credential>
    decreases records.len(),
{
    if records.len() == 0 {
        Map::empty()
    } else {
        registry_of(records.drop_last()).insert(records.last().key, records.last().credential)
    }
}

/// The keys of the map are the keys of the records.
pub proof fn lemma_registry_keys(records: Seq<Record>, key: Seq<u8>)
    ensures
        registry_of(records).contains_key(key) <==> has_key(records, key),
    decreases records.len(),
{
    if records.len() > 0 {
        let front = records.drop_last();
        lemma_registry_keys(front, key);
        if has_key(front, key) {
            let i = choose|i: int| 0 <= i < front.len() && (#[trigger] front[i]).key == key;
            assert(records[i].key == key);
        }
        if has_key(records, key) {
            let i = choose|i: int| 0 <= i < records.len() && (#[trigger] records[i]).key == key;
            if i < records.len() - 1 {
                assert(front[i].key == key);
            }
        }
        if records.last().key == key {
            assert(records[records.len() - 1].key == key);
        }
    }
}

/// In a sorted list each record is what the map holds for its key.
pub proof fn lemma_registry_value(records: Seq<Record>, i: int)
    requires
        strictly_sorted(records),
        0 <= i < records.len(),
    ensures
        registry_of(records).contains_key(records[i].key),
        registry_of(records)[records[i].key] == records[i].credential,
    decreases records.len(),
{
    let front = records.drop_last();
    if i < records.len() - 1 {
        assert(strictly_sorted(front)) by {
            assert forall|a: int, b: int| 0 <= a < b < front.len() implies lex_lt(
                (#[trigger] front[a]).key,
                (#[trigger] front[b]).key,
            ) by {
                assert(front[a] == records[a] && front[b] == records[b]);
            }
        }
        lemma_registry_value(front, i);
        assert(front[i] == records[i]);
        assert(lex_lt(records[i].key, records[records.len() - 1].key));
        lemma_lex_lt_irreflexive(records[i].key);
    }
}

/// A sorted list holds a key at most once.
pub proof fn lemma_sorted_keys_distinct(records: Seq<Record>, i: int, j: int)
    requires
        strictly_sorted(records),
        0 <= i < records.len(),
        0 <= j < records.len(),
        records[i].key == records[j].key,
    ensures
        i == j,
{
    lemma_lex_lt_irreflexive(records[i].key);
    if i < j {
        assert(lex_lt(records[i].key, records[j].key));
    } else if j < i {
        assert(lex_lt(records[j].key, records[i].key));
    }
}

/// Where a sorted list `after` is made of `record` and of the records of the
/// sorted list `before` that have another key, its map is that of `before`
/// with `record` stored.
pub proof fn lemma_registry_stored(before: Seq<Record>, after: Seq<Record>, record: Record)
    requires
        strictly_sorted(before),
        strictly_sorted(after),
        has_key(after, record.key),
        forall|i: int|
            0 <= i < after.len() && (#[trigger] after[i]).key == record.key ==> after[i]
                == record,
        forall|i: int|
            0 <= i < after.len() && (#[trigger] after[i]).key != record.key ==> exists|j: int|
                0 <= j < before.len() && #[trigger] before[j] == after[i],
        forall|j: int|
            0 <= j < before.len() && (#[trigger] before[j]).key != record.key ==> exists|i: int|
                0 <= i < after.len() && #[trigger] after[i] == before[j],
    ensures
        registry_of(after) == registry_of(before).insert(record.key, record.credential),
{
    let left = registry_of(after);
    let right = registry_of(before).insert(record.key, record.credential);
    assert forall|k: Seq<u8>| left.contains_key(k) <==> right.contains_key(k) by {
        lemma_registry_keys(after, k);
        lemma_registry_keys(before, k);
        if has_key(after, k) && k != record.key {
            let i = choose|i: int| 0 <= i < after.len() && (#[trigger] after[i]).key == k;
            let j = choose|j: int| 0 <= j < before.len() && #[trigger] before[j] == after[i];
            assert(before[j].key == k);
        }
        if has_key(before, k) && k != record.key {
            let j = choose|j: int| 0 <= j < before.len() && (#[trigger] before[j]).key == k;
            let i = choose|i: int| 0 <= i < after.len() && #[trigger] after[i] == before[j];
            assert(after[i].key == k);
        }
    }
    assert forall|k: Seq<u8>| left.contains_key(k) implies left[k] == right[k] by {
        lemma_registry_keys(after, k);
        let i = choose|i: int| 0 <= i < after.len() && (#[trigger] after[i]).key == k;
        lemma_registry_value(after, i);
        if k != record.key {
            let j = choose|j: int| 0 <= j < before.len() && #[trigger] before[j] == after[i];
            lemma_registry_value(before, j);
        }
    }
    assert(left =~= right);
}

/// A record that takes the place of the record with its key leaves the list
/// sorted, and the map holds it.
pub proof fn lemma_replaced_record(before: Seq<Record>, at: int, record: Record)
    requires
        strictly_sorted(before),
        0 <= at < before.len(),
        before[at].key == record.key,
    ensures
        strictly_sorted(before.update(at, record)),
        registry_of(before.update(at, record)) == registry_of(before).insert(
            record.key,
            record.credential,
        ),
{
    let after = before.update(at, record);
    assert forall|i: int, j: int| 0 <= i < j < after.len() implies lex_lt(
        (#[trigger] after[i]).key,
        (#[trigger] after[j]).key,
    ) by {
        assert(lex_lt(before[i].key, before[j].key));
    }
    assert(after[at].key == record.key);
    assert forall|i: int|
        0 <= i < after.len() && (#[trigger] after[i]).key != record.key implies exists|j: int|
        0 <= j < before.len() && #[trigger] before[j] == after[i] by {
        assert(before[i] == after[i]);
    }
    assert forall|j: int|
        0 <= j < before.len() && (#[trigger] before[j]).key != record.key implies exists|i: int|
        0 <= i < after.len() && #[trigger] after[i] == before[j] by {
        assert(after[j] == before[j]);
    }
    assert forall|i: int|
        0 <= i < after.len() && (#[trigger] after[i]).key == record.key implies after[i]
        == record by {
        lemma_sorted_keys_distinct(after, i, at);
    }
    lemma_registry_stored(before, after, record);
}

/// A record that is put between the keys below its own and the keys above
/// leaves the list sorted, and the map holds it.
pub proof fn lemma_inserted_record(before: Seq<Record>, at: int, record: Record)
    requires
        strictly_sorted(before),
        0 <= at <= before.len(),
        forall|j: int| 0 <= j < at ==> lex_lt((#[trigger] before[j]).key, record.key),
        forall|j: int| at <= j < before.len() ==> lex_lt(record.key, (#[trigger] before[j]).key),
    ensures
        strictly_sorted(before.insert(at, record)),
        registry_of(before.insert(at, record)) == registry_of(before).insert(
            record.key,
            record.credential,
        ),
{
    let after = before.insert(at, record);
    assert forall|i: int, j: int| 0 <= i < j < after.len() implies lex_lt(
        (#[trigger] after[i]).key,
        (#[trigger] after[j]).key,
    ) by {
        if i < at && j > at {
            assert(lex_lt(before[i].key, before[j - 1].key));
        } else if i < at && j < at {
            assert(lex_lt(before[i].key, before[j].key));
        } else if i > at {
            assert(lex_lt(before[i - 1].key, before[j - 1].key));
        } else if i == at {
            assert(lex_lt(record.key, before[j - 1].key));
        } else {
            assert(lex_lt(before[i].key, record.key));
        }
    }
    assert(after[at].key == record.key);
    assert forall|i: int|
        0 <= i < after.len() && (#[trigger] after[i]).key != record.key implies exists|j: int|
        0 <= j < before.len() && #[trigger] before[j] == after[i] by {
        if i < at {
            assert(before[i] == after[i]);
        } else {
            assert(before[i - 1] == after[i]);
        }
    }
    assert forall|j: int|
        0 <= j < before.len() && (#[trigger] before[j]).key != record.key implies exists|i: int|
        0 <= i < after.len() && #[trigger] after[i] == before[j] by {
        if j < at {
            assert(after[j] == before[j]);
        } else {
            assert(after[j + 1] == before[j]);
        }
    }
    assert forall|i: int|
        0 <= i < after.len() && (#[trigger] after[i]).key == record.key implies after[i]
        == record by {
        lemma_sorted_keys_distinct(after, i, at);
    }
    lemma_registry_stored(before, after, record);
}

/// The first records of a sorted list are sorted.
pub proof fn lemma_sorted_front(records: Seq<Record>)
    requires
        strictly_sorted(records),
        records.len() > 0,
    ensures
        strictly_sorted(records.drop_last()),
        !has_key(records.drop_last(), records.last().key),
        registry_of(records.drop_last()) == registry_of(records).remove(records.last().key),
{
    let front = records.drop_last();
    let last = records.last();
    assert forall|a: int, b: int| 0 <= a < b < front.len() implies lex_lt(
        (#[trigger] front[a]).key,
        (#[trigger] front[b]).key,
    ) by {
        assert(front[a] == records[a] && front[b] == records[b]);
    }
    if has_key(front, last.key) {
        let i = choose|i: int| 0 <= i < front.len() && (#[trigger] front[i]).key == last.key;
        assert(front[i] == records[i]);
        lemma_sorted_keys_distinct(records, i, records.len() - 1);
    }
    lemma_registry_keys(front, last.key);
    assert(registry_of(front) =~= registry_of(records).remove(last.key));
}

/// A registry has one sorted list of records: two sorted lists that build
/// the same map are the same list.
pub proof fn lemma_sorted_records_unique(a: Seq<Record>, b: Seq<Record>)
    requires
        strictly_sorted(a),
        strictly_sorted(b),
        registry_of(a) == registry_of(b),
    ensures
        a == b,
    decreases a.len(),
{
    if a.len() == 0 {
        if b.len() > 0 {
            lemma_registry_value(b, 0);
        }
        assert(a =~= b);
    } else if b.len() == 0 {
        lemma_registry_value(a, 0);
    } else {
        let x = a.last();
        let y = b.last();
        lemma_registry_value(a, a.len() - 1);
        lemma_registry_value(b, b.len() - 1);
        lemma_registry_keys(b, x.key);
        lemma_registry_keys(a, y.key);
        let i = choose|i: int| 0 <= i < a.len() && (#[trigger] a[i]).key == y.key;
        let j = choose|j: int| 0 <= j < b.len() && (#[trigger] b[j]).key == x.key;
        if x.key != y.key {
            assert(i < a.len() - 1);
            assert(j < b.len() - 1);
            assert(lex_lt(a[i].key, a[a.len() - 1].key));
            assert(lex_lt(b[j].key, b[b.len() - 1].key));
            lemma_lex_lt_asymmetric(x.key, y.key);
        }
        assert(x == y);
        lemma_sorted_front(a);
        lemma_sorted_front(b);
        lemma_sorted_records_unique(a.drop_last(), b.drop_last());
        assert(a =~= a.drop_last().push(x));
        assert(b =~= b.drop_last().push(y));
    }
}

/// The state of the contract: every registered account, in the order of
/// the keys.
#[derive(Debug)]
pub struct IdentityContractState {
    identities: Vec<Entry>,
}

impl View for IdentityContractState {
    type V = Map<Seq<u8>, Credential>;

    /// The accounts by key.
    open spec fn view(&self) -> Map<Seq<u8>, Credential> {
        registry_of(self.records())
    }
}

impl Default for IdentityContractState {
    fn default() -> (state: Self)
        ensures
            state@ == Map::<Seq<u8>, Credential>::empty(),
    {
        IdentityContractState::new()
    }
}

impl Clone for IdentityContractState {
    fn clone(&self) -> (copy: Self)
        ensures
            copy.records() == self.records(),
    {
        proof {
            use_type_invariant(self);
        }
        let mut identities: Vec<Entry> = Vec::new();
        let mut i: usize = 0;
        while i < self.identities.len()
            invariant
                i <= self.identities.len(),
                identities@.len() == i,
                forall|j: int|
                    0 <= j < i ==> (#[trigger] identities@[j]).record()
                        == self.identities@[j].record(),
            decreases self.identities.len() - i,
        {
            let entry = &self.identities[i];
            identities.push(
                Entry {
                    key: entry.key.clone(),
                    info: AccountInfo {
                        pub_key_hash: entry.info.pub_key_hash.clone(),
                        nonce: entry.info.nonce,
                    },
                },
            );
            i += 1;
        }
        proof {
            let copied = Seq::new(identities@.len(), |i: int| identities@[i].record());
            assert(copied =~= self.records());
        }
        IdentityContractState { identities }
    }
}

impl IdentityContractState {
    /// The accounts in the order in which they are kept and committed.
    pub closed spec fn records(&self) -> Seq<Record> {
        Seq::new(self.identities@.len(), |i: int| self.identities@[i].record())
    }

    #[verifier::type_invariant]
    spec fn ordered(&self) -> bool {
        strictly_sorted(self.records())
    }

    /// The registry without accounts.
    pub fn new() -> (state: Self)
        ensures
            state@ == Map::<Seq<u8>, Credential>::empty(),
            state.records() == Seq::<Record>::empty(),
    {
        let state = IdentityContractState { identities: Vec::new() };
        assert(state.records() =~= Seq::<Record>::empty());
        state
    }

    /// Where `key` stands, or would stand, among the accounts, and whether
    /// it stands there.
    fn position(&self, key: &[u8]) -> (r: (usize, bool))
        ensures
            r.0 <= self.records().len(),
            r.1 ==> r.0 < self.records().len() && self.records()[r.0 as int].key == key@,
            !r.1 ==> !has_key(self.records(), key@),
            forall|j: int| 0 <= j < r.0 ==> lex_lt((#[trigger] self.records()[j]).key, key@),
            forall|j: int|
                r.0 + (if r.1 { 1int } else { 0int }) <= j < self.records().len() ==> lex_lt(
                    key@,
                    (#[trigger] self.records()[j]).key,
                ),
    {
        proof {
            use_type_invariant(self);
        }
        let mut lo: usize = 0;
        let mut hi: usize = self.identities.len();
        while lo < hi
            invariant
                lo <= hi <= self.identities.len(),
                self.identities.len() == self.records().len(),
                strictly_sorted(self.records()),
                forall|j: int| 0 <= j < lo ==> lex_lt((#[trigger] self.records()[j]).key, key@),
                forall|j: int|
                    hi <= j < self.records().len() ==> lex_lt(
                        key@,
                        (#[trigger] self.records()[j]).key,
                    ),
            decreases hi - lo,
        {
            let mid: usize = lo + (hi - lo) / 2;
            let here = self.identities[mid].key.as_str().as_bytes();
            assert(here@ == self.records()[mid as int].key);
            match compare_bytes(here, key) {
                ByteOrder::Same => {
                    proof {
                        assert forall|j: int| 0 <= j < mid implies lex_lt(
                            (#[trigger] self.records()[j]).key,
                            key@,
                        ) by {
                            assert(lex_lt(self.records()[j].key, self.records()[mid as int].key));
                        }
                        assert forall|j: int| mid + 1 <= j < self.records().len() implies lex_lt(
                            key@,
                            (#[trigger] self.records()[j]).key,
                        ) by {
                            assert(lex_lt(self.records()[mid as int].key, self.records()[j].key));
                        }
                    }
                    return (mid, true);
                },
                ByteOrder::Before => {
                    proof {
                        assert forall|j: int| 0 <= j < mid + 1 implies lex_lt(
                            (#[trigger] self.records()[j]).key,
                            key@,
                        ) by {
                            if j < mid {
                                assert(lex_lt(
                                    self.records()[j].key,
                                    self.records()[mid as int].key,
                                ));
                                lemma_lex_lt_transitive(self.records()[j].key, here@, key@);
                            }
                        }
                    }
                    lo = mid + 1;
                },
                ByteOrder::After => {
                    proof {
                        lemma_lex_lt_total(here@, key@);
                        assert forall|j: int| mid <= j < self.records().len() implies lex_lt(
                            key@,
                            (#[trigger] self.records()[j]).key,
                        ) by {
                            if mid < j {
                                assert(lex_lt(
                                    self.records()[mid as int].key,
                                    self.records()[j].key,
                                ));
                                lemma_lex_lt_transitive(key@, here@, self.records()[j].key);
                            }
                        }
                    }
                    hi = mid;
                },
            }
        }
        proof {
            if has_key(self.records(), key@) {
                let j = choose|j: int|
                    0 <= j < self.records().len() && (#[trigger] self.records()[j]).key == key@;
                lemma_lex_lt_irreflexive(key@);
            }
        }
        (lo, false)
    }

    /// The nonce that the next verification of `account` must reach.
    pub fn get_nonce(&self, account: &str) -> (r: Result<u128, IdentityError>)
        ensures
            match r {
                Ok(nonce) => self@.contains_key(account.spec_bytes()) && nonce
                    == self@[account.spec_bytes()].nonce,
                Err(e) => !self@.contains_key(account.spec_bytes()) && e
                    == IdentityError::IdentityNotFound,
            },
    {
        proof {
            use_type_invariant(self);
            lemma_registry_keys(self.records(), account.spec_bytes());
        }
        let (at, found) = self.position(account.as_bytes());
        if found {
            proof {
                lemma_registry_value(self.records(), at as int);
            }
            Ok(self.identities[at].info.nonce)
        } else {
            Err(IdentityError::IdentityNotFound)
        }
    }

    /// What is stored for `account`.
    pub fn get_identity_info(&self, account: &str) -> (r: Result<AccountInfo, IdentityError>)
        ensures
            match r {
                Ok(info) => self@.contains_key(account.spec_bytes()) && info@
                    == self@[account.spec_bytes()],
                Err(e) => !self@.contains_key(account.spec_bytes()) && e
                    == IdentityError::IdentityNotFound,
            },
    {
        proof {
            use_type_invariant(self);
            lemma_registry_keys(self.records(), account.spec_bytes());
        }
        let (at, found) = self.position(account.as_bytes());
        if found {
            proof {
                lemma_registry_value(self.records(), at as int);
            }
            let stored = &self.identities[at].info;
            Ok(AccountInfo { pub_key_hash: stored.pub_key_hash.clone(), nonce: stored.nonce })
        } else {
            Err(IdentityError::IdentityNotFound)
        }
    }

    /// The number of accounts.
    pub fn len(&self) -> (count: usize)
        ensures
            count == self.records().len(),
    {
        self.identities.len()
    }

    /// The key of the account at index `i` in the order of the keys.
    pub fn key_at(&self, i: usize) -> (key: &str)
        requires
            i < self.records().len(),
        ensures
            key.spec_bytes() == self.records()[i as int].key,
    {
        self.identities[i].key.as_str()
    }

    /// What is stored for the account at index `i` in the order of the keys.
    pub fn info_at(&self, i: usize) -> (info: &AccountInfo)
        requires
            i < self.records().len(),
        ensures
            info@ == self.records()[i as int].credential,
    {
        &self.identities[i].info
    }

    /// The accounts are kept sorted by key, and the map holds what they say.
    pub fn observe_order(&self)
        ensures
            strictly_sorted(self.records()),
            forall|i: int|
                0 <= i < self.records().len() ==> self@.contains_key(
                    (#[trigger] self.records()[i]).key,
                ) && self@[self.records()[i].key] == self.records()[i].credential,
    {
        proof {
            use_type_invariant(self);
            assert forall|i: int| 0 <= i < self.records().len() implies self@.contains_key(
                (#[trigger] self.records()[i]).key,
            ) && self@[self.records()[i].key] == self.records()[i].credential by {
                lemma_registry_value(self.records(), i);
            }
        }
    }

    /// Stores `info` for `key`, in the place of what was stored for it if
    /// the key stands in the registry already.
    pub fn store(&mut self, key: String, info: AccountInfo)
        ensures
            final(self)@ == old(self)@.insert(encode_utf8(key@), info@),
    {
        proof {
            use_type_invariant(&*self);
        }
        let (at, found) = self.position(key.as_str().as_bytes());
        let ghost before = self.records();
        let ghost record = Record { key: encode_utf8(key@), credential: info@ };
        let ghost after = if found {
            before.update(at as int, record)
        } else {
            before.insert(at as int, record)
        };
        let entry = Entry { key, info };
        let mut items: Vec<Entry> = Vec::new();
        core::mem::swap(&mut self.identities, &mut items);
        assert(before =~= Seq::new(items@.len(), |i: int| items@[i].record()));
        if found {
            proof {
                lemma_replaced_record(before, at as int, record);
                assert(Seq::new(
                    items@.update(at as int, entry).len(),
                    |i: int| items@.update(at as int, entry)[i].record(),
                ) =~= after);
            }
            items.set(at, entry);
        } else {
            proof {
                lemma_inserted_record(before, at as int, record);
                assert(Seq::new(
                    items@.insert(at as int, entry).len(),
                    |i: int| items@.insert(at as int, entry)[i].record(),
                ) =~= after);
            }
            items.insert(at, entry);
        }
        self.identities = items;
        assert(self.records() =~= after);
    }
}

} // verus!
