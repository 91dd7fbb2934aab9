//! Byte strings: their dictionary order and the decimal and list notations
//! that signed messages are written in.

use vstd::prelude::*;

verus! {

/// How one byte string stands to another in dictionary order.
#[derive(Clone, Copy, Debug, PartialEq, Eq, Structural)]
pub enum ByteOrder {
    Before,
    Same,
    After,
}

/// `a` comes strictly before `b` in dictionary order: at the first place
/// where they differ `a` has the smaller byte, or `a` is a proper prefix of `b`.
pub open spec fn lex_lt(a: Seq<u8>, b: Seq<u8>) -> bool
    decreases a.len(),
{
    if b.len() == 0 {
        false
    } else if a.len() == 0 {
        true
    } else if a[0] != b[0] {
        a[0] < b[0]
    } else {
        lex_lt(a.drop_first(), b.drop_first())
    }
}

/// The place of `a` relative to `b`.
pub open spec fn byte_order(a: Seq<u8>, b: Seq<u8>) -> ByteOrder {
    if a == b {
        ByteOrder::Same
    } else if lex_lt(a, b) {
        ByteOrder::Before
    } else {
        ByteOrder::After
    }
}

/// No byte string comes before itself.
pub proof fn lemma_lex_lt_irreflexive(a: Seq<u8>)
    ensures
        !lex_lt(a, a),
    decreases a.len(),
{
    if a.len() > 0 {
        lemma_lex_lt_irreflexive(a.drop_first());
    }
}

/// Of two byte strings at most one comes before the other.
pub proof fn lemma_lex_lt_asymmetric(a: Seq<u8>, b: Seq<u8>)
    requires
        lex_lt(a, b),
    ensures
        !lex_lt(b, a),
    decreases a.len(),
{
    if a.len() > 0 && b.len() > 0 && a[0] == b[0] {
        lemma_lex_lt_asymmetric(a.drop_first(), b.drop_first());
    }
}

/// Dictionary order is transitive.
pub proof fn lemma_lex_lt_transitive(a: Seq<u8>, b: Seq<u8>, c: Seq<u8>)
    requires
        lex_lt(a, b),
        lex_lt(b, c),
    ensures
        lex_lt(a, c),
    decreases a.len(),
{
    if a.len() > 0 && a[0] == b[0] && b[0] == c[0] {
        lemma_lex_lt_transitive(a.drop_first(), b.drop_first(), c.drop_first());
    }
}

/// Two different byte strings are ordered one way or the other.
pub proof fn lemma_lex_lt_total(a: Seq<u8>, b: Seq<u8>)
    ensures
        a == b || lex_lt(a, b) || lex_lt(b, a),
    decreases a.len(),
{
    if a.len() > 0 && b.len() > 0 && a[0] == b[0] {
        lemma_lex_lt_total(a.drop_first(), b.drop_first());
        if a.drop_first() == b.drop_first() {
            assert(a =~= seq![a[0]] + a.drop_first());
            assert(b =~= seq![b[0]] + b.drop_first());
        }
    }
}

/// Where two byte strings agree on their first `i` bytes, their order is the
/// order of what follows.
proof fn lemma_lex_lt_skip(a: Seq<u8>, b: Seq<u8>, i: int)
    requires
        0 <= i <= a.len(),
        i <= b.len(),
        forall|j: int| 0 <= j < i ==> a[j] == b[j],
    ensures
        lex_lt(a, b) == lex_lt(a.skip(i), b.skip(i)),
    decreases i,
{
    if i == 0 {
        assert(a.skip(0) =~= a);
        assert(b.skip(0) =~= b);
    } else {
        lemma_lex_lt_skip(a, b, i - 1);
        let x = a.skip(i - 1);
        let y = b.skip(i - 1);
        assert(x[0] == y[0]);
        assert(x.drop_first() =~= a.skip(i));
        assert(y.drop_first() =~= b.skip(i));
    }
}

/// Compares two byte strings in dictionary order.
pub fn compare_bytes(a: &[u8], b: &[u8]) -> (r: ByteOrder)
    ensures
        r == byte_order(a@, b@),
{
    let mut i: usize = 0;
    while i < a.len() && i < b.len()
        invariant
            i <= a.len(),
            i <= b.len(),
            forall|j: int| 0 <= j < i ==> a@[j] == b@[j],
        decreases a.len() - i,
    {
        if a[i] != b[i] {
            proof {
                lemma_lex_lt_skip(a@, b@, i as int);
                lemma_lex_lt_skip(b@, a@, i as int);
                assert(a@.skip(i as int)[0] == a@[i as int]);
                assert(b@.skip(i as int)[0] == b@[i as int]);
            }
            if a[i] < b[i] {
                return ByteOrder::Before;
            } else {
                return ByteOrder::After;
            }
        }
        i += 1;
    }
    proof {
        lemma_lex_lt_skip(a@, b@, i as int);
        lemma_lex_lt_skip(b@, a@, i as int);
        if a.len() == b.len() {
            assert(a@ =~= b@);
        }
    }
    if a.len() < b.len() {
        ByteOrder::Before
    } else if a.len() > b.len() {
        ByteOrder::After
    } else {
        ByteOrder::Same
    }
}

/// The ASCII decimal notation of `n`, without leading zeros.
pub open spec fn decimal(n: nat) -> Seq<u8>
    decreases n,
{
    if n < 10 {
        seq![(48 + n) as u8]
    } else {
        decimal(n / 10).push((48 + n % 10) as u8)
    }
}

/// The items of a byte list in decimal, separated by a comma and a space.
pub open spec fn list_items(data: Seq<u8>) -> Seq<u8>
    decreases data.len(),
{
    if data.len() == 0 {
        Seq::<u8>::empty()
    } else if data.len() == 1 {
        decimal(data[0] as nat)
    } else {
        list_items(data.drop_last()) + seq![44u8, 32u8] + decimal(data.last() as nat)
    }
}

/// A byte list as Rust's `Debug` prints a `Vec<u8>`: `[1, 2, 3]`.
pub open spec fn list_notation(data: Seq<u8>) -> Seq<u8> {
    seq![91u8] + list_items(data) + seq![93u8]
}

/// Appends the decimal notation of `n` to `out`.
pub fn push_decimal(out: &mut Vec<u8>, n: u128)
    ensures
        final(out)@ == old(out)@ + decimal(n as nat),
    decreases n,
{
    if n >= 10 {
        push_decimal(out, n / 10);
    }
    let digit: u8 = (n % 10) as u8;
    out.push(48 + digit);
}

/// Appends the list notation of `data` to `out`.
pub fn push_list_notation(out: &mut Vec<u8>, data: &[u8])
    ensures
        final(out)@ == old(out)@ + list_notation(data@),
{
    out.push(91);
    let mut i: usize = 0;
    while i < data.len()
        invariant
            i <= data.len(),
            out@ == old(out)@ + seq![91u8] + list_items(data@.take(i as int)),
        decreases data.len() - i,
    {
        if i > 0 {
            out.push(44);
            out.push(32);
        }
        push_decimal(out, data[i] as u128);
        assert(data@.take(i + 1).drop_last() =~= data@.take(i as int));
        i += 1;
    }
    out.push(93);
    assert(data@.take(i as int) =~= data@);
}

/// The byte `b` stands nowhere in `s`.
pub open spec fn no_byte(s: Seq<u8>, b: u8) -> bool {
    forall|i: int| 0 <= i < s.len() ==> s[i] != b
}

/// A text is cut in one way only at the last place where a byte stands:
/// where the same text is read as a front, the byte, and a rest that is free
/// of the byte, the two readings agree.
pub proof fn lemma_cut_at_last(x: Seq<u8>, y: Seq<u8>, x2: Seq<u8>, y2: Seq<u8>, b: u8)
    requires
        x + seq![b] + y == x2 + seq![b] + y2,
        no_byte(y, b),
        no_byte(y2, b),
    ensures
        x == x2,
        y == y2,
{
    let t = x + seq![b] + y;
    let t2 = x2 + seq![b] + y2;
    assert(t.len() == x.len() + 1 + y.len());
    assert(t2.len() == x2.len() + 1 + y2.len());
    if x.len() < x2.len() {
        assert(t2[x2.len() as int] == b);
        assert(t[x2.len() as int] == y[x2.len() - x.len() - 1]);
    } else if x2.len() < x.len() {
        assert(t[x.len() as int] == b);
        assert(t2[x.len() as int] == y2[x.len() - x2.len() - 1]);
    }
    assert(x =~= x2) by {
        assert forall|i: int| 0 <= i < x.len() implies x[i] == x2[i] by {
            assert(t[i] == x[i]);
            assert(t2[i] == x2[i]);
        }
    }
    assert(y =~= y2) by {
        assert forall|i: int| 0 <= i < y.len() implies y[i] == y2[i] by {
            assert(t[x.len() + 1 + i] == y[i]);
            assert(t2[x.len() + 1 + i] == y2[i]);
        }
    }
}

/// A text is cut in one way only at the first place where a byte stands.
pub proof fn lemma_cut_at_first(x: Seq<u8>, y: Seq<u8>, x2: Seq<u8>, y2: Seq<u8>, b: u8)
    requires
        x + seq![b] + y == x2 + seq![b] + y2,
        no_byte(x, b),
        no_byte(x2, b),
    ensures
        x == x2,
        y == y2,
{
    let t = x + seq![b] + y;
    let t2 = x2 + seq![b] + y2;
    assert(t.len() == x.len() + 1 + y.len());
    assert(t2.len() == x2.len() + 1 + y2.len());
    if x.len() < x2.len() {
        assert(t[x.len() as int] == b);
        assert(t2[x.len() as int] == x2[x.len() as int]);
    } else if x2.len() < x.len() {
        assert(t2[x2.len() as int] == b);
        assert(t[x2.len() as int] == x[x2.len() as int]);
    }
    assert(x =~= x2) by {
        assert forall|i: int| 0 <= i < x.len() implies x[i] == x2[i] by {
            assert(t[i] == x[i]);
            assert(t2[i] == x2[i]);
        }
    }
    assert(y =~= y2) by {
        assert forall|i: int| 0 <= i < y.len() implies y[i] == y2[i] by {
            assert(t[x.len() + 1 + i] == y[i]);
            assert(t2[x.len() + 1 + i] == y2[i]);
        }
    }
}

/// A decimal notation has a digit at least, and digits only.
pub proof fn lemma_decimal_digits(n: nat)
    ensures
        decimal(n).len() >= 1,
        forall|i: int| 0 <= i < decimal(n).len() ==> 48 <= #[trigger] decimal(n)[i] <= 57,
    decreases n,
{
    if n >= 10 {
        lemma_decimal_digits(n / 10);
    }
}

/// Two numbers with the same decimal notation are the same number.
pub proof fn lemma_decimal_injective(a: nat, b: nat)
    requires
        decimal(a) == decimal(b),
    ensures
        a == b,
    decreases a,
{
    lemma_decimal_digits(a / 10);
    lemma_decimal_digits(b / 10);
    assert(a < 10 ==> decimal(a).len() == 1);
    assert(b < 10 ==> decimal(b).len() == 1);
    assert(a >= 10 ==> decimal(a).len() == decimal(a / 10).len() + 1);
    assert(b >= 10 ==> decimal(b).len() == decimal(b / 10).len() + 1);
    if a >= 10 {
        assert(b >= 10);
        assert(decimal(a).drop_last() =~= decimal(a / 10));
        assert(decimal(b).drop_last() =~= decimal(b / 10));
        assert(decimal(a).last() == (48 + a % 10) as u8);
        assert(decimal(b).last() == (48 + b % 10) as u8);
        lemma_decimal_injective(a / 10, b / 10);
        assert(a % 10 == b % 10);
        assert(a == 10 * (a / 10) + a % 10);
        assert(b == 10 * (b / 10) + b % 10);
    } else {
        assert(b < 10);
        assert(decimal(a)[0] == (48 + a) as u8);
        assert(decimal(b)[0] == (48 + b) as u8);
    }
}

/// The items of a list are written with digits, commas and spaces only,
/// and a list that is not empty is not written as nothing.
pub proof fn lemma_list_items_bytes(data: Seq<u8>)
    ensures
        data.len() > 0 ==> list_items(data).len() > 0,
        forall|i: int|
            0 <= i < list_items(data).len() ==> {
                let c = #[trigger] list_items(data)[i];
                48 <= c <= 57 || c == 44 || c == 32
            },
    decreases data.len(),
{
    if data.len() == 1 {
        lemma_decimal_digits(data[0] as nat);
    } else if data.len() > 1 {
        lemma_list_items_bytes(data.drop_last());
        lemma_decimal_digits(data.last() as nat);
    }
}

/// Two byte lists whose items are written alike are the same list.
pub proof fn lemma_list_items_injective(a: Seq<u8>, b: Seq<u8>)
    requires
        list_items(a) == list_items(b),
    ensures
        a == b,
    decreases a.len(),
{
    lemma_list_items_bytes(a);
    lemma_list_items_bytes(b);
    if a.len() == 0 || b.len() == 0 {
        assert(a =~= b);
    } else {
        let x = decimal(a.last() as nat);
        let y = decimal(b.last() as nat);
        lemma_decimal_digits(a.last() as nat);
        lemma_decimal_digits(b.last() as nat);
        if a.len() == 1 && b.len() == 1 {
            lemma_decimal_injective(a[0] as nat, b[0] as nat);
            assert(a =~= b);
        } else if a.len() == 1 {
            let front = list_items(b.drop_last()) + seq![44u8];
            assert(list_items(b) =~= front + seq![32u8] + y);
            assert(list_items(b)[front.len() as int] == 32);
        } else if b.len() == 1 {
            let front = list_items(a.drop_last()) + seq![44u8];
            assert(list_items(a) =~= front + seq![32u8] + x);
            assert(list_items(a)[front.len() as int] == 32);
        } else {
            let front_a = list_items(a.drop_last()) + seq![44u8];
            let front_b = list_items(b.drop_last()) + seq![44u8];
            assert(list_items(a) =~= front_a + seq![32u8] + x);
            assert(list_items(b) =~= front_b + seq![32u8] + y);
            lemma_cut_at_last(front_a, x, front_b, y, 32);
            lemma_decimal_injective(a.last() as nat, b.last() as nat);
            assert(front_a.drop_last() =~= list_items(a.drop_last()));
            assert(front_b.drop_last() =~= list_items(b.drop_last()));
            lemma_list_items_injective(a.drop_last(), b.drop_last());
            assert(a =~= a.drop_last().push(a.last()));
            assert(b =~= b.drop_last().push(b.last()));
        }
    }
}

} // verus!
