//! Text the rest of the crate writes: decimal and hexadecimal numerals, uuid
//! text, and the pieces of a slash-separated key.

use vstd::prelude::*;

verus! {

/// The decimal digit `d`, as a character.
pub open spec fn decimal_digit(d: nat) -> char {
    (48 + d) as char
}

/// `n` in decimal, without leading zeros.
pub open spec fn decimal_text(n: nat) -> Seq<char>
    decreases n,
{
    if n < 10 {
        seq![decimal_digit(n)]
    } else {
        decimal_text(n / 10).push(decimal_digit(n % 10))
    }
}

/// The uppercase hexadecimal digit `d`, as a character.
pub open spec fn upper_digit(d: nat) -> char {
    if d < 10 {
        (48 + d) as char
    } else {
        (55 + d) as char
    }
}

/// The lowercase hexadecimal digit `d`, as a character.
pub open spec fn lower_digit(d: nat) -> char {
    if d < 10 {
        (48 + d) as char
    } else {
        (87 + d) as char
    }
}

/// The low `width` hexadecimal digits of `n`, most significant first, in
/// uppercase.
pub open spec fn upper_hex(n: nat, width: nat) -> Seq<char>
    decreases width,
{
    if width == 0 {
        Seq::empty()
    } else {
        upper_hex(n / 16, (width - 1) as nat).push(upper_digit(n % 16))
    }
}

/// The low `width` hexadecimal digits of `n`, most significant first, in
/// lowercase.
pub open spec fn lower_hex(n: nat, width: nat) -> Seq<char>
    decreases width,
{
    if width == 0 {
        Seq::empty()
    } else {
        lower_hex(n / 16, (width - 1) as nat).push(lower_digit(n % 16))
    }
}

/// A uuid as 32 lowercase hexadecimal digits.
pub open spec fn uuid_simple(id: u128) -> Seq<char> {
    lower_hex(id as nat, 32)
}

/// A uuid in the usual 8-4-4-4-12 grouping.
pub open spec fn uuid_hyphenated(id: u128) -> Seq<char> {
    let h = uuid_simple(id);
    h.subrange(0, 8) + seq!['-'] + h.subrange(8, 12) + seq!['-'] + h.subrange(12, 16) + seq!['-']
        + h.subrange(16, 20) + seq!['-'] + h.subrange(20, 32)
}

/// One decimal digit as text.
fn decimal_digit_text(d: u64) -> (r: &'static str)
    requires
        d < 10,
    ensures
        r@ == seq![decimal_digit(d as nat)],
{
    proof {
        reveal_strlit("0");
        reveal_strlit("1");
        reveal_strlit("2");
        reveal_strlit("3");
        reveal_strlit("4");
        reveal_strlit("5");
        reveal_strlit("6");
        reveal_strlit("7");
        reveal_strlit("8");
        reveal_strlit("9");
    }
    match d {
        0 => "0",
        1 => "1",
        2 => "2",
        3 => "3",
        4 => "4",
        5 => "5",
        6 => "6",
        7 => "7",
        8 => "8",
        _ => "9",
    }
}

/// `n` in decimal.
pub fn decimal(n: u64) -> (r: String)
    ensures
        r@ == decimal_text(n as nat),
    decreases n,
{
    if n < 10 {
        decimal_digit_text(n).to_owned()
    } else {
        let mut s = decimal(n / 10);
        s.append(decimal_digit_text(n % 10));
        assert(s@ =~= decimal_text(n as nat / 10).push(decimal_digit(n as nat % 10)));
        s
    }
}

/// One uppercase hexadecimal digit as text.
fn upper_digit_text(d: u64) -> (r: &'static str)
    requires
        d < 16,
    ensures
        r@ == seq![upper_digit(d as nat)],
{
    proof {
        reveal_strlit("A");
        reveal_strlit("B");
        reveal_strlit("C");
        reveal_strlit("D");
        reveal_strlit("E");
        reveal_strlit("F");
    }
    if d < 10 {
        decimal_digit_text(d)
    } else {
        match d {
            10 => "A",
            11 => "B",
            12 => "C",
            13 => "D",
            14 => "E",
            _ => "F",
        }
    }
}

/// The low `width` hexadecimal digits of `v`, zero-padded, in uppercase.
fn upper_hex_text(v: u64, width: u8) -> (r: String)
    ensures
        r@ == upper_hex(v as nat, width as nat),
    decreases width,
{
    if width == 0 {
        String::new()
    } else {
        let mut s = upper_hex_text(v / 16, width - 1);
        s.append(upper_digit_text(v % 16));
        assert(s@ =~= upper_hex(v as nat / 16, (width - 1) as nat).push(
            upper_digit(v as nat % 16),
        ));
        s
    }
}

/// Fixed-width uppercase hex, so that byte order equals numeric order.
pub fn hex_u64(v: u64) -> (r: String)
    ensures
        r@ == upper_hex(v as nat, 16),
{
    upper_hex_text(v, 16)
}

/// Fixed-width uppercase hex, so that byte order equals numeric order.
pub fn hex_u32(v: u32) -> (r: String)
    ensures
        r@ == upper_hex(v as nat, 8),
{
    upper_hex_text(v as u64, 8)
}

/// `uuid::Uuid::to_string` on the uuid whose big-endian value is `id`: 32
/// lowercase hexadecimal digits grouped 8-4-4-4-12.
#[verifier::external_body]
pub(crate) fn uuid_text(id: u128) -> (r: String)
    ensures
        r@ == uuid_hyphenated(id),
{
    uuid::Uuid::from_u128(id).to_string()
}

/// `uuid::fmt::Simple::to_string` on the uuid whose big-endian value is `id`:
/// 32 lowercase hexadecimal digits.
#[verifier::external_body]
pub(crate) fn uuid_simple_text(id: u128) -> (r: String)
    ensures
        r@ == uuid_simple(id),
{
    uuid::Uuid::from_u128(id).simple().to_string()
}

/// A decimal numeral is that of a tenth of the number with one more digit behind it:
/// the digits are the characters from zero to nine, and a number below ten has one.
pub proof fn law_decimal_digits(n: nat, d: nat)
    requires
        d < 10,
    ensures
        decimal_text(d).len() == 1,
        decimal_text(d)[0] as int == 48 + d,
        n > 0 ==> decimal_text(n * 10 + d).len() == decimal_text(n).len() + 1,
        n > 0 ==> decimal_text(n * 10 + d).drop_last() == decimal_text(n),
        n > 0 ==> decimal_text(n * 10 + d).last() as int == 48 + d,
{
    if n > 0 {
        assert((n * 10 + d) / 10 == n && (n * 10 + d) % 10 == d);
        assert(decimal_text(n * 10 + d).drop_last() =~= decimal_text(n));
    }
}

/// A hexadecimal numeral of one digit more is that of a sixteenth of the number with
/// one digit behind it: zero to nine, then the first six letters, large or small.
pub proof fn law_hex_digits(n: nat, d: nat, width: nat)
    requires
        d < 16,
    ensures
        upper_hex(n, 0).len() == 0,
        lower_hex(n, 0).len() == 0,
        ({
            let u = upper_hex(n * 16 + d, width + 1);
            let l = lower_hex(n * 16 + d, width + 1);
            &&& u.len() == width + 1 && l.len() == width + 1
            &&& u.drop_last() == upper_hex(n, width)
            &&& l.drop_last() == lower_hex(n, width)
            &&& d < 10 ==> u.last() as int == 48 + d && l.last() as int == 48 + d
            &&& d >= 10 ==> u.last() as int == 'A' as int + d - 10 && l.last() as int == 'a' as int
                + d - 10
        }),
    decreases width,
{
    assert((n * 16 + d) / 16 == n && (n * 16 + d) % 16 == d);
    if width > 0 {
        let m = n / 16;
        law_hex_digits(m, n % 16, (width - 1) as nat);
        assert(m * 16 + n % 16 == n);
    }
    assert(upper_hex(n * 16 + d, width + 1).drop_last() =~= upper_hex(n, width));
    assert(lower_hex(n * 16 + d, width + 1).drop_last() =~= lower_hex(n, width));
}

/// A uuid in its usual form has thirty-six characters. Four of them are dashes; without
/// these it is the plain form.
pub proof fn law_uuid_groups(id: u128, i: int)
    requires
        0 <= i < 36,
    ensures
        ({
            let h = uuid_hyphenated(id);
            let s = lower_hex(id as nat, 32);
            &&& uuid_simple(id) == s && s.len() == 32
            &&& h.len() == 36
            &&& i == 8 || i == 13 || i == 18 || i == 23 ==> h[i] == '-'
            &&& i < 8 ==> h[i] == s[i]
            &&& 8 < i < 13 ==> h[i] == s[i - 1]
            &&& 13 < i < 18 ==> h[i] == s[i - 2]
            &&& 18 < i < 23 ==> h[i] == s[i - 3]
            &&& 23 < i ==> h[i] == s[i - 4]
        }),
{
    let n = id as nat;
    law_hex_digits(n / 16, n % 16, 31);
    assert(n / 16 * 16 + n % 16 == n);
}

} // verus!
