//! Lexicographic order, the order in which the stores scan their keys, and
//! the fixed-width encodings whose lexicographic order is numeric order.

use vstd::arithmetic::power::{lemma_pow0, lemma_pow_positive, pow};
use vstd::prelude::*;

verus! {

/// `a` comes strictly before `b` in lexicographic order; a proper prefix comes
/// first.
pub open spec fn lex_lt(a: Seq<int>, b: Seq<int>) -> bool
    decreases a.len(),
{
    if b.len() == 0 {
        false
    } else if a.len() == 0 {
        true
    } else if a[0] != b[0] {
        a[0] < b[0]
    } else {
        lex_lt(a.drop_first(), b.drop_first())
    }
}

/// The bytes of a key as integers.
pub open spec fn octets(s: Seq<u8>) -> Seq<int> {
    s.map_values(|b: u8| b as int)
}

/// The characters of a key as integers. UTF-8 keeps this order on the encoded
/// bytes.
pub open spec fn codes(s: Seq<char>) -> Seq<int> {
    s.map_values(|c: char| c as int)
}

/// No key comes before itself.
pub proof fn law_lex_irreflexive(a: Seq<int>)
    ensures
        !lex_lt(a, a),
    decreases a.len(),
{
    if a.len() > 0 {
        law_lex_irreflexive(a.drop_first());
    }
}

/// The order is transitive.
pub proof fn law_lex_transitive(a: Seq<int>, b: Seq<int>, c: Seq<int>)
    requires
        lex_lt(a, b),
        lex_lt(b, c),
    ensures
        lex_lt(a, c),
    decreases a.len(),
{
    if a.len() > 0 && a[0] == b[0] && b[0] == c[0] {
        law_lex_transitive(a.drop_first(), b.drop_first(), c.drop_first());
    }
}

/// Any two different keys are ordered.
pub proof fn law_lex_total(a: Seq<int>, b: Seq<int>)
    ensures
        lex_lt(a, b) || lex_lt(b, a) || a == b,
    decreases a.len(),
{
    if a.len() > 0 && b.len() > 0 && a[0] == b[0] {
        law_lex_total(a.drop_first(), b.drop_first());
        if a.drop_first() == b.drop_first() {
            assert(a =~= seq![a[0]] + a.drop_first());
            assert(b =~= seq![b[0]] + b.drop_first());
        }
    } else if a.len() == 0 && b.len() == 0 {
        assert(a =~= b);
    }
}

/// Behind heads of one length, the heads decide first and the tails after.
pub proof fn lemma_lex_append(x: Seq<int>, u: Seq<int>, y: Seq<int>, v: Seq<int>)
    requires
        x.len() == y.len(),
    ensures
        lex_lt(x + u, y + v) <==> lex_lt(x, y) || (x == y && lex_lt(u, v)),
    decreases x.len(),
{
    law_lex_irreflexive(x);
    if x.len() == 0 {
        assert(x + u =~= u);
        assert(y + v =~= v);
        assert(x =~= y);
        if u.len() == 0 && v.len() > 0 {
            assert(lex_lt(u, v));
        }
    } else {
        lemma_lex_append(x.drop_first(), u, y.drop_first(), v);
        assert((x + u).drop_first() =~= x.drop_first() + u);
        assert((y + v).drop_first() =~= y.drop_first() + v);
        if x[0] == y[0] && x.drop_first() == y.drop_first() {
            assert(x =~= seq![x[0]] + x.drop_first());
            assert(y =~= seq![y[0]] + y.drop_first());
        }
    }
}

/// The low `width` digits of `n` in `base`, most significant first.
pub open spec fn digits(n: nat, base: nat, width: nat) -> Seq<int>
    decreases width,
{
    if width == 0 {
        Seq::empty()
    } else {
        digits(n / base, base, (width - 1) as nat).push((n % base) as int)
    }
}

pub proof fn lemma_digits_len(n: nat, base: nat, width: nat)
    requires
        base > 1,
    ensures
        digits(n, base, width).len() == width,
    decreases width,
{
    if width > 0 {
        lemma_digits_len(n / base, base, (width - 1) as nat);
    }
}

proof fn lemma_pow_step(base: nat, width: nat)
    requires
        base > 1,
        width > 0,
    ensures
        pow(base as int, width) == base * pow(base as int, (width - 1) as nat),
{
    reveal(pow);
}

/// Fixed-width digit strings order as the numbers they stand for.
pub proof fn lemma_digits_order(a: nat, b: nat, base: nat, width: nat)
    requires
        base > 1,
        a < pow(base as int, width),
        b < pow(base as int, width),
    ensures
        lex_lt(digits(a, base, width), digits(b, base, width)) <==> a < b,
        digits(a, base, width) == digits(b, base, width) <==> a == b,
    decreases width,
{
    if width == 0 {
        lemma_pow0(base as int);
    } else {
        let w = (width - 1) as nat;
        lemma_pow_step(base, width);
        let p = pow(base as int, w);
        lemma_pow_positive(base as int, w);
        assert(a / base < p && b / base < p) by (nonlinear_arith)
            requires
                a < base * p,
                b < base * p,
                base > 1,
        ;
        lemma_digits_order(a / base, b / base, base, w);
        lemma_digits_len(a / base, base, w);
        lemma_digits_len(b / base, base, w);
        let x = digits(a / base, base, w);
        let y = digits(b / base, base, w);
        let u = seq![(a % base) as int];
        let v = seq![(b % base) as int];
        assert(digits(a, base, width) =~= x + u);
        assert(digits(b, base, width) =~= y + v);
        lemma_lex_append(x, u, y, v);
        assert(lex_lt(u, v) <==> a % base < b % base) by {
            reveal_with_fuel(lex_lt, 2);
        }
        assert(a == base * (a / base) + a % base) by (nonlinear_arith)
            requires
                base > 1,
        ;
        assert(b == base * (b / base) + b % base) by (nonlinear_arith)
            requires
                base > 1,
        ;
        assert(0 <= a % base < base && 0 <= b % base < base) by (nonlinear_arith)
            requires
                base > 1,
        ;
        assert(a / base < b / base ==> a < b) by (nonlinear_arith)
            requires
                a == base * (a / base) + a % base,
                b == base * (b / base) + b % base,
                0 <= a % base < base,
                0 <= b % base < base,
                base > 1,
        ;
        assert(b / base < a / base ==> b < a) by (nonlinear_arith)
            requires
                a == base * (a / base) + a % base,
                b == base * (b / base) + b % base,
                0 <= a % base < base,
                0 <= b % base < base,
                base > 1,
        ;
        if digits(a, base, width) == digits(b, base, width) {
            assert(x =~= digits(a, base, width).drop_last());
            assert(y =~= digits(b, base, width).drop_last());
            assert(digits(a, base, width).last() == a % base);
            assert(digits(b, base, width).last() == b % base);
        }
    }
}

/// `n` as `width` big-endian bytes.
pub open spec fn be_bytes(n: nat, width: nat) -> Seq<u8>
    decreases width,
{
    if width == 0 {
        Seq::empty()
    } else {
        be_bytes(n / 256, (width - 1) as nat).push((n % 256) as u8)
    }
}

pub proof fn lemma_be_digits(n: nat, width: nat)
    ensures
        octets(be_bytes(n, width)) == digits(n, 256, width),
        be_bytes(n, width).len() == width,
    decreases width,
{
    if width > 0 {
        let w = (width - 1) as nat;
        lemma_be_digits(n / 256, w);
        assert(octets(be_bytes(n, width)) =~= octets(be_bytes(n / 256, w)).push((n % 256) as int));
    } else {
        assert(octets(be_bytes(n, width)) =~= digits(n, 256, width));
    }
}

/// Equal integer images come from equal byte strings.
pub proof fn lemma_octets_injective(a: Seq<u8>, b: Seq<u8>)
    ensures
        octets(a) == octets(b) <==> a == b,
{
    if octets(a) == octets(b) {
        assert(a.len() == octets(a).len() && b.len() == octets(b).len());
        assert forall|i: int| 0 <= i < a.len() implies a[i] == b[i] by {
            assert(octets(a)[i] == a[i] as int);
            assert(octets(b)[i] == b[i] as int);
        }
        assert(a =~= b);
    }
}

pub proof fn lemma_octets_append(a: Seq<u8>, b: Seq<u8>)
    ensures
        octets(a + b) == octets(a) + octets(b),
{
    assert(octets(a + b) =~= octets(a) + octets(b));
}

pub proof fn lemma_pow256()
    ensures
        pow(256, 4) == 0x1_0000_0000,
        pow(256, 8) == 0x1_0000_0000_0000_0000,
        pow(256, 16) == 0x1_0000_0000_0000_0000_0000_0000_0000_0000,
{
    reveal_with_fuel(pow, 17);
}

/// Big-endian keys of one width order as the numbers they hold, and different
/// numbers have different keys.
pub proof fn law_be_order(a: nat, b: nat, width: nat)
    requires
        a < pow(256, width),
        b < pow(256, width),
    ensures
        lex_lt(octets(be_bytes(a, width)), octets(be_bytes(b, width))) <==> a < b,
        be_bytes(a, width) == be_bytes(b, width) <==> a == b,
{
    lemma_be_digits(a, width);
    lemma_be_digits(b, width);
    lemma_digits_order(a, b, 256, width);
    lemma_octets_injective(be_bytes(a, width), be_bytes(b, width));
}

/// Of two keys, the first place where they differ decides: the lower value comes
/// first, and so does the key that ends there.
pub proof fn law_first_difference_decides(a: Seq<int>, b: Seq<int>, i: int)
    requires
        0 <= i <= a.len(),
        i < b.len(),
        forall|j: int| 0 <= j < i ==> #[trigger] a[j] == b[j],
        i == a.len() || a[i] < b[i],
    ensures
        lex_lt(a, b),
        !lex_lt(b, a),
    decreases i,
{
    if i > 0 {
        assert(a[0] == b[0]);
        assert forall|j: int| 0 <= j < i - 1 implies #[trigger] a.drop_first()[j]
            == b.drop_first()[j] by {
            assert(a[j + 1] == b[j + 1]);
        }
        law_first_difference_decides(a.drop_first(), b.drop_first(), i - 1);
    }
}

/// Bytes and characters are ordered by their values, one by one.
pub proof fn law_values_are_kept(s: Seq<u8>, t: Seq<char>, i: int)
    ensures
        octets(s).len() == s.len(),
        codes(t).len() == t.len(),
        0 <= i < s.len() ==> octets(s)[i] == s[i],
        0 <= i < t.len() ==> codes(t)[i] == t[i] as int,
{
}

/// A number written in bytes, the highest first, is read back by weighing each
/// byte with its place.
pub proof fn law_be_bytes_weigh(n: nat, width: nat)
    ensures
        be_bytes(n, width).len() == width,
        width > 0 ==> be_bytes(n, width).last() == (n % 256) as u8,
        width > 0 ==> be_bytes(n, width).drop_last() == be_bytes(n / 256, (width - 1) as nat),
    decreases width,
{
    if width > 0 {
        law_be_bytes_weigh(n / 256, (width - 1) as nat);
        assert(be_bytes(n, width).drop_last() =~= be_bytes(n / 256, (width - 1) as nat));
    }
}

} // verus!
