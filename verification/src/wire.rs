//! The binary layout that actions and the registry are committed in:
//! little-endian integers of fixed width, and strings as a 32-bit length
//! followed by their UTF-8 bytes.

use vstd::prelude::*;
use vstd::slice::slice_subrange;
use vstd::utf8::{encode_utf8, valid_utf8};

verus! {

/// 256 to the power `n`.
pub open spec fn pow256(n: nat) -> nat
    decreases n,
{
    if n == 0 {
        1
    } else {
        256 * pow256((n - 1) as nat)
    }
}

/// The `width` low bytes of `x`, the lowest first.
pub open spec fn le_bytes(x: nat, width: nat) -> Seq<u8>
    decreases width,
{
    if width == 0 {
        Seq::<u8>::empty()
    } else {
        seq![(x % 256) as u8] + le_bytes(x / 256, (width - 1) as nat)
    }
}

/// The number that `bytes` stand for, the lowest byte first.
pub open spec fn le_value(bytes: Seq<u8>) -> nat
    decreases bytes.len(),
{
    if bytes.len() == 0 {
        0
    } else {
        bytes[0] as nat + 256 * le_value(bytes.drop_first())
    }
}

/// What four and sixteen bytes can hold.
pub proof fn lemma_pow256_values()
    ensures
        pow256(4) == 0x1_0000_0000,
        pow256(16) == 0x1_0000_0000_0000_0000_0000_0000_0000_0000,
{
    reveal_with_fuel(pow256, 5);
    assert(pow256(4) == 0x1_0000_0000);
    assert(pow256(8) == 0x1_0000_0000 * pow256(4));
    assert(pow256(12) == 0x1_0000_0000 * pow256(8));
    assert(pow256(16) == 0x1_0000_0000 * pow256(12));
}

/// A number is written in as many bytes as are asked for.
pub proof fn lemma_le_bytes_len(x: nat, width: nat)
    ensures
        le_bytes(x, width).len() == width,
    decreases width,
{
    if width > 0 {
        lemma_le_bytes_len(x / 256, (width - 1) as nat);
    }
}

/// A number that fits in `width` bytes is read back from them.
pub proof fn lemma_le_value_of_le_bytes(x: nat, width: nat)
    requires
        x < pow256(width),
    ensures
        le_value(le_bytes(x, width)) == x,
    decreases width,
{
    if width > 0 {
        let rest = le_bytes(x / 256, (width - 1) as nat);
        lemma_le_value_of_le_bytes(x / 256, (width - 1) as nat);
        assert(le_bytes(x, width).drop_first() =~= rest);
    }
}

/// Bytes are written back from the number that they stand for, which fits
/// in as many bytes.
pub proof fn lemma_le_bytes_of_le_value(bytes: Seq<u8>)
    ensures
        le_value(bytes) < pow256(bytes.len()),
        le_bytes(le_value(bytes), bytes.len()) == bytes,
    decreases bytes.len(),
{
    if bytes.len() > 0 {
        let tail = bytes.drop_first();
        lemma_le_bytes_of_le_value(tail);
        let v = le_value(bytes);
        assert(v % 256 == bytes[0] as nat);
        assert(v / 256 == le_value(tail));
        assert(le_bytes(v, bytes.len()) =~= bytes);
    } else {
        assert(le_bytes(0, 0) =~= bytes);
    }
}

/// Appends the `width` low bytes of `x`, the lowest first.
pub fn push_le(out: &mut Vec<u8>, x: u128, width: usize)
    ensures
        final(out)@ == old(out)@ + le_bytes(x as nat, width as nat),
{
    let mut rest: u128 = x;
    let mut i: usize = 0;
    while i < width
        invariant
            i <= width,
            old(out)@ + le_bytes(x as nat, width as nat) == out@ + le_bytes(
                rest as nat,
                (width - i) as nat,
            ),
        decreases width - i,
    {
        let low: u8 = (rest % 256) as u8;
        proof {
            let tail = le_bytes(rest as nat / 256, (width - i - 1) as nat);
            assert(le_bytes(rest as nat, (width - i) as nat) =~= seq![low] + tail);
            assert(out@.push(low) + tail =~= out@ + (seq![low] + tail));
        }
        out.push(low);
        rest = rest / 256;
        i += 1;
    }
    assert(out@ + le_bytes(rest as nat, 0) =~= out@);
}

/// Reads the number that the `width` bytes from `pos` on stand for.
pub fn read_le(input: &[u8], pos: usize, width: usize) -> (x: u128)
    requires
        width <= 16,
        pos + width <= input@.len(),
    ensures
        x as nat == le_value(input@.subrange(pos as int, pos + width)),
{
    let ghost bytes = input@.subrange(pos as int, pos + width);
    let mut acc: u128 = 0;
    let mut i: usize = width;
    proof {
        assert(bytes.skip(width as int) =~= Seq::<u8>::empty());
    }
    while i > 0
        invariant
            i <= width,
            width <= 16,
            pos + width <= input.len(),
            bytes == input@.subrange(pos as int, pos + width),
            acc as nat == le_value(bytes.skip(i as int)),
        decreases i,
    {
        proof {
            let upper = bytes.skip(i as int);
            let next = bytes.skip(i - 1);
            lemma_le_bytes_of_le_value(upper);
            lemma_le_bytes_of_le_value(next);
            lemma_pow256_values();
            lemma_pow256_monotonic(next.len(), 16);
            assert(next.drop_first() =~= upper);
            assert(next[0] == input@[pos + i - 1]);
        }
        i -= 1;
        acc = acc * 256 + input[pos + i] as u128;
    }
    assert(bytes.skip(0) =~= bytes);
    acc
}

/// More bytes hold no less.
pub proof fn lemma_pow256_monotonic(a: nat, b: nat)
    requires
        a <= b,
    ensures
        pow256(a) <= pow256(b),
    decreases b,
{
    if a < b {
        lemma_pow256_monotonic(a, (b - 1) as nat);
    }
}

/// A string on the wire: its length in four bytes, then its bytes.
pub open spec fn wire_string(text: Seq<u8>) -> Seq<u8> {
    le_bytes(text.len(), 4) + text
}

/// A 128-bit number on the wire.
pub open spec fn wire_u128(x: u128) -> Seq<u8> {
    le_bytes(x as nat, 16)
}

/// The 32-bit number at the front of `input`, and what follows it.
pub open spec fn parse_u32(input: Seq<u8>) -> Option<(nat, Seq<u8>)> {
    if input.len() < 4 {
        None
    } else {
        Some((le_value(input.take(4)), input.skip(4)))
    }
}

/// The 128-bit number at the front of `input`, and what follows it.
pub open spec fn parse_u128(input: Seq<u8>) -> Option<(u128, Seq<u8>)> {
    if input.len() < 16 {
        None
    } else {
        Some((le_value(input.take(16)) as u128, input.skip(16)))
    }
}

/// The string at the front of `input`, as its bytes, and what follows it.
/// None where the input ends early or the bytes are not UTF-8.
pub open spec fn parse_string(input: Seq<u8>) -> Option<(Seq<u8>, Seq<u8>)> {
    match parse_u32(input) {
        None => None,
        Some((len, rest)) => if rest.len() < len || !valid_utf8(rest.take(len as int)) {
            None
        } else {
            Some((rest.take(len as int), rest.skip(len as int)))
        },
    }
}

/// A number is read back from the front of what it was written to.
pub proof fn lemma_parse_u128(x: u128, tail: Seq<u8>)
    ensures
        parse_u128(wire_u128(x) + tail) == Some((x, tail)),
{
    let head = wire_u128(x);
    lemma_le_bytes_len(x as nat, 16);
    lemma_pow256_values();
    lemma_le_value_of_le_bytes(x as nat, 16);
    assert((head + tail).take(16) =~= head);
    assert((head + tail).skip(16) =~= tail);
}

/// A string is read back from the front of what it was written to, if its
/// length fits in 32 bits and it is UTF-8.
pub proof fn lemma_parse_string(text: Seq<u8>, tail: Seq<u8>)
    requires
        text.len() <= u32::MAX,
        valid_utf8(text),
    ensures
        parse_string(wire_string(text) + tail) == Some((text, tail)),
{
    let head = le_bytes(text.len(), 4);
    let input = wire_string(text) + tail;
    lemma_le_bytes_len(text.len(), 4);
    lemma_pow256_values();
    lemma_le_value_of_le_bytes(text.len(), 4);
    assert(input.take(4) =~= head);
    assert(input.skip(4) =~= text + tail);
    assert((text + tail).take(text.len() as int) =~= text);
    assert((text + tail).skip(text.len() as int) =~= tail);
}

/// Calls `String::from_utf8`. Trusted: it succeeds where `bytes` are valid
/// UTF-8 and on no other bytes, and the string that it returns is made of
/// those bytes.
#[verifier::external_body]
pub(crate) fn string_from_utf8(bytes: Vec<u8>) -> (text: Option<String>)
    ensures
        match text {
            Some(s) => valid_utf8(bytes@) && encode_utf8(s@) == bytes@,
            None => !valid_utf8(bytes@),
        },
{
    String::from_utf8(bytes).ok()
}

/// Appends a string. Returns `false`, with nothing appended, where the
/// string is too long for its length to be written in 32 bits.
pub fn push_string(out: &mut Vec<u8>, text: &[u8]) -> (written: bool)
    ensures
        written == (text@.len() <= u32::MAX),
        written ==> final(out)@ == old(out)@ + wire_string(text@),
        !written ==> final(out)@ == old(out)@,
{
    if text.len() > 0xffff_ffff {
        return false;
    }
    push_le(out, text.len() as u128, 4);
    out.extend_from_slice(text);
    assert(out@ =~= old(out)@ + wire_string(text@));
    true
}

/// Reads the 32-bit number at `pos`, and gives the place behind it.
pub fn read_u32(input: &[u8], pos: usize) -> (r: Option<(u32, usize)>)
    requires
        pos <= input@.len(),
    ensures
        match r {
            Some((x, next)) => pos <= next <= input@.len() && parse_u32(input@.skip(pos as int))
                == Some((x as nat, input@.skip(next as int))),
            None => parse_u32(input@.skip(pos as int)) is None,
        },
{
    if input.len() - pos < 4 {
        return None;
    }
    let x = read_le(input, pos, 4);
    proof {
        let bytes = input@.subrange(pos as int, pos + 4);
        lemma_le_bytes_of_le_value(bytes);
        lemma_pow256_values();
        assert(input@.skip(pos as int).take(4) =~= bytes);
        assert(input@.skip(pos as int).skip(4) =~= input@.skip(pos + 4));
    }
    Some((x as u32, pos + 4))
}

/// Reads the 128-bit number at `pos`, and gives the place behind it.
pub fn read_u128(input: &[u8], pos: usize) -> (r: Option<(u128, usize)>)
    requires
        pos <= input@.len(),
    ensures
        match r {
            Some((x, next)) => pos <= next <= input@.len() && parse_u128(input@.skip(pos as int))
                == Some((x, input@.skip(next as int))),
            None => parse_u128(input@.skip(pos as int)) is None,
        },
{
    if input.len() - pos < 16 {
        return None;
    }
    let x = read_le(input, pos, 16);
    proof {
        let bytes = input@.subrange(pos as int, pos + 16);
        assert(input@.skip(pos as int).take(16) =~= bytes);
        assert(input@.skip(pos as int).skip(16) =~= input@.skip(pos + 16));
    }
    Some((x, pos + 16))
}

/// Reads the string at `pos`, and gives the place behind it.
pub fn read_string(input: &[u8], pos: usize) -> (r: Option<(String, usize)>)
    requires
        pos <= input@.len(),
    ensures
        match r {
            Some((text, next)) => pos <= next <= input@.len() && parse_string(
                input@.skip(pos as int),
            ) == Some((encode_utf8(text@), input@.skip(next as int))),
            None => parse_string(input@.skip(pos as int)) is None,
        },
{
    let (len, start) = match read_u32(input, pos) {
        Some(found) => found,
        None => { return None; },
    };
    if input.len() - start < len as usize {
        proof {
            assert(input@.skip(pos as int).skip(4) =~= input@.skip(start as int));
        }
        return None;
    }
    let end: usize = start + len as usize;
    let bytes = vstd::slice::slice_to_vec(slice_subrange(input, start, end));
    proof {
        assert(input@.skip(start as int).take(len as int) =~= bytes@);
        assert(input@.skip(start as int).skip(len as int) =~= input@.skip(end as int));
    }
    match string_from_utf8(bytes) {
        Some(text) => Some((text, end)),
        None => None,
    }
}

} // verus!
