//! The operations that a transaction carries beside the identity action, and
//! the message that binds a verification to them.

use vstd::prelude::*;
use vstd::utf8::encode_utf8;

use crate::bytes::{
    decimal, lemma_cut_at_first, lemma_cut_at_last, lemma_decimal_digits, lemma_list_items_bytes,
    lemma_list_items_injective, list_items, list_notation, no_byte, push_decimal,
    push_list_notation,
};

verus! {

/// One operation of a transaction, as plain values.
pub struct BlobView {
    pub contract_name: Seq<u8>,
    pub data: Seq<u8>,
}

/// One operation of a transaction: the name of the contract that it is for,
/// and its payload.
#[derive(Debug, Clone, PartialEq, Eq)]
pub struct Blob {
    pub contract_name: String,
    pub data: Vec<u8>,
}

impl View for Blob {
    type V = BlobView;

    open spec fn view(&self) -> BlobView {
        BlobView { contract_name: encode_utf8(self.contract_name@), data: self.data@ }
    }
}

/// The operations of a list, as plain values.
pub open spec fn bundle_view(blobs: Seq<Blob>) -> Seq<BlobView> {
    Seq::new(blobs.len(), |i: int| blobs[i]@)
}

/// The bytes of `"verify "`.
pub const VERIFY_WORD: [u8; 7] = [118, 101, 114, 105, 102, 121, 32];

/// How an operation is written in the message: its contract's name, a
/// space, and its payload as a list of numbers.
pub open spec fn blob_text(blob: BlobView) -> Seq<u8> {
    blob.contract_name + seq![32u8] + list_notation(blob.data)
}

/// The operations in their order, a space between one and the next.
pub open spec fn bundle_text(blobs: Seq<BlobView>) -> Seq<u8>
    decreases blobs.len(),
{
    if blobs.len() == 0 {
        Seq::<u8>::empty()
    } else if blobs.len() == 1 {
        blob_text(blobs[0])
    } else {
        bundle_text(blobs.drop_last()) + seq![32u8] + blob_text(blobs.last())
    }
}

/// The message that a wallet signs to verify an identity with `nonce` in a
/// transaction that carries `blobs` beside: `verify`, the nonce, and the
/// operations, a space after each of the first two.
pub open spec fn binding_message(nonce: u128, blobs: Seq<BlobView>) -> Seq<u8> {
    VERIFY_WORD@ + decimal(nonce as nat) + seq![32u8] + bundle_text(blobs)
}

/// Writes the message that binds a verification with `nonce` to `blobs`.
pub fn build_binding_message(nonce: u128, blobs: &[Blob]) -> (out: Vec<u8>)
    ensures
        out@ == binding_message(nonce, bundle_view(blobs@)),
{
    let ghost views = bundle_view(blobs@);
    let mut out: Vec<u8> = Vec::new();
    out.extend_from_slice(VERIFY_WORD.as_slice());
    push_decimal(&mut out, nonce);
    out.push(32);
    let ghost head = out@;
    let mut i: usize = 0;
    while i < blobs.len()
        invariant
            i <= blobs.len(),
            views == bundle_view(blobs@),
            out@ == head + bundle_text(views.take(i as int)),
        decreases blobs.len() - i,
    {
        if i > 0 {
            out.push(32);
        }
        out.extend_from_slice(blobs[i].contract_name.as_str().as_bytes());
        out.push(32);
        push_list_notation(&mut out, blobs[i].data.as_slice());
        assert(views.take(i + 1).drop_last() =~= views.take(i as int));
        i += 1;
    }
    assert(views.take(i as int) =~= views);
    out
}

/// No contract's name holds a space.
pub open spec fn names_without_space(blobs: Seq<BlobView>) -> bool {
    forall|i: int| 0 <= i < blobs.len() ==> no_byte((#[trigger] blobs[i]).contract_name, 32)
}

/// The text of operations that are not none is not empty.
proof fn lemma_bundle_text_not_empty(blobs: Seq<BlobView>)
    requires
        blobs.len() > 0,
    ensures
        bundle_text(blobs).len() > 0,
{
}

/// What stands before the last operation in the text of a bundle: nothing,
/// or the operations before it and a space.
spec fn text_before_last(blobs: Seq<BlobView>) -> Seq<u8> {
    if blobs.len() <= 1 {
        Seq::<u8>::empty()
    } else {
        bundle_text(blobs.drop_last()) + seq![32u8]
    }
}

/// The text of a bundle ends with its last operation: the name, a space, an
/// opening bracket, the items and the closing bracket.
proof fn lemma_bundle_text_last(blobs: Seq<BlobView>)
    requires
        blobs.len() > 0,
    ensures
        bundle_text(blobs) == (text_before_last(blobs) + blobs.last().contract_name + seq![32u8])
            + seq![91u8] + (list_items(blobs.last().data) + seq![93u8]),
        no_byte(list_items(blobs.last().data) + seq![93u8], 91),
{
    let last = blobs.last();
    lemma_list_items_bytes(last.data);
    assert(bundle_text(blobs) =~= (text_before_last(blobs) + last.contract_name + seq![32u8])
        + seq![91u8] + (list_items(last.data) + seq![93u8]));
}

/// Two bundles whose names are free of spaces and whose texts are the same
/// are the same bundle.
pub proof fn lemma_bundle_text_injective(a: Seq<BlobView>, b: Seq<BlobView>)
    requires
        names_without_space(a),
        names_without_space(b),
        bundle_text(a) == bundle_text(b),
    ensures
        a == b,
    decreases a.len(),
{
    if a.len() == 0 || b.len() == 0 {
        if a.len() > 0 {
            lemma_bundle_text_not_empty(a);
        }
        if b.len() > 0 {
            lemma_bundle_text_not_empty(b);
        }
    } else {
        let x = a.last();
        let y = b.last();
        let before_a = text_before_last(a);
        let before_b = text_before_last(b);
        lemma_bundle_text_last(a);
        lemma_bundle_text_last(b);
        lemma_cut_at_last(
            before_a + x.contract_name + seq![32u8],
            list_items(x.data) + seq![93u8],
            before_b + y.contract_name + seq![32u8],
            list_items(y.data) + seq![93u8],
            91,
        );
        assert(list_items(x.data) =~= (list_items(x.data) + seq![93u8]).drop_last());
        assert(list_items(y.data) =~= (list_items(y.data) + seq![93u8]).drop_last());
        lemma_list_items_injective(x.data, y.data);
        let named_a = before_a + x.contract_name;
        let named_b = before_b + y.contract_name;
        assert(named_a =~= (named_a + seq![32u8]).drop_last());
        assert(named_b =~= (named_b + seq![32u8]).drop_last());
        if a.len() == 1 && b.len() > 1 {
            assert(named_b[bundle_text(b.drop_last()).len() as int] == 32);
        } else if b.len() == 1 && a.len() > 1 {
            assert(named_a[bundle_text(a.drop_last()).len() as int] == 32);
        } else if a.len() > 1 {
            lemma_cut_at_last(
                bundle_text(a.drop_last()),
                x.contract_name,
                bundle_text(b.drop_last()),
                y.contract_name,
                32,
            );
            assert forall|i: int| 0 <= i < a.drop_last().len() implies no_byte(
                (#[trigger] a.drop_last()[i]).contract_name,
                32,
            ) by {}
            assert forall|i: int| 0 <= i < b.drop_last().len() implies no_byte(
                (#[trigger] b.drop_last()[i]).contract_name,
                32,
            ) by {}
            lemma_bundle_text_injective(a.drop_last(), b.drop_last());
            assert(a =~= a.drop_last().push(x));
            assert(b =~= b.drop_last().push(y));
        }
    }
}

/// Two verifications whose contracts' names are free of spaces and that
/// sign the same message have the same nonce and the same operations in
/// the same order: a message stands for one nonce and one bundle.
pub proof fn lemma_binding_message_injective(
    nonce_a: u128,
    blobs_a: Seq<BlobView>,
    nonce_b: u128,
    blobs_b: Seq<BlobView>,
)
    requires
        names_without_space(blobs_a),
        names_without_space(blobs_b),
        binding_message(nonce_a, blobs_a) == binding_message(nonce_b, blobs_b),
    ensures
        nonce_a == nonce_b,
        blobs_a == blobs_b,
{
    let number_a = decimal(nonce_a as nat);
    let number_b = decimal(nonce_b as nat);
    let tail_a = number_a + seq![32u8] + bundle_text(blobs_a);
    let tail_b = number_b + seq![32u8] + bundle_text(blobs_b);
    assert(tail_a =~= binding_message(nonce_a, blobs_a).skip(7));
    assert(tail_b =~= binding_message(nonce_b, blobs_b).skip(7));
    lemma_decimal_digits(nonce_a as nat);
    lemma_decimal_digits(nonce_b as nat);
    lemma_cut_at_first(number_a, bundle_text(blobs_a), number_b, bundle_text(blobs_b), 32);
    crate::bytes::lemma_decimal_injective(nonce_a as nat, nonce_b as nat);
    lemma_bundle_text_injective(blobs_a, blobs_b);
}

} // verus!
