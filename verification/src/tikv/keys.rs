//! Key layout of the shared store (`{p}` is the configured prefix):
//!
//! ```text
//! {p}/config/{name}                          raw config bytes
//! {p}/cursor/{workflow_id}/{node_id}/prior   processor state blob
//! {p}/cursor/{workflow_id}/{source_id}/meta  source cursor
//! {p}/batch/{batch_id:016X}                  master batch
//! {p}/rows/{batch_id:016X}/{start:08X}       row range
//! {p}/claim/{claim_id_hex}                   claim index
//! {p}/checkpoint/{claim_id_hex}/{stage_idx:08X}  checkpoint
//! {p}/meta/schema_id                         schema id
//! ```
//!
//! Integer segments are fixed-width hex, so that byte order is numeric order.

use vstd::arithmetic::power::pow;
use vstd::prelude::*;

use crate::consensus::types::Uid;
use crate::order::{
    codes, digits, law_lex_irreflexive, lemma_digits_len, lemma_digits_order, lemma_lex_append,
    lex_lt, octets,
};
use crate::text::{
    hex_u32, hex_u64, lower_hex, upper_digit, upper_hex, uuid_simple, uuid_simple_text,
};

verus! {

pub open spec fn config_key_text(prefix: Seq<char>, name: Seq<char>) -> Seq<char> {
    prefix + "/config/"@ + name
}

pub open spec fn cursor_text(
    prefix: Seq<char>,
    workflow_id: Seq<char>,
    id: Seq<char>,
    tail: Seq<char>,
) -> Seq<char> {
    prefix + "/cursor/"@ + workflow_id + "/"@ + id + tail
}

pub open spec fn batch_key_text(prefix: Seq<char>, batch_id: u64) -> Seq<char> {
    prefix + "/batch/"@ + upper_hex(batch_id as nat, 16)
}

pub open spec fn rows_prefix_text(prefix: Seq<char>, batch_id: u64) -> Seq<char> {
    prefix + "/rows/"@ + upper_hex(batch_id as nat, 16)
}

pub open spec fn rows_key_text(prefix: Seq<char>, batch_id: u64, start: u32) -> Seq<char> {
    rows_prefix_text(prefix, batch_id) + "/"@ + upper_hex(start as nat, 8)
}

pub open spec fn claim_key_text(prefix: Seq<char>, claim_id: Uid) -> Seq<char> {
    prefix + "/claim/"@ + uuid_simple(claim_id)
}

pub open spec fn checkpoint_key_text(
    prefix: Seq<char>,
    claim_id: Uid,
    stage_idx: u32,
) -> Seq<char> {
    prefix + "/checkpoint/"@ + uuid_simple(claim_id) + "/"@ + upper_hex(stage_idx as nat, 8)
}

/// 32-char lowercase hex.
pub fn hex_uuid(u: Uid) -> (r: String)
    ensures
        r@ == uuid_simple(u),
{
    uuid_simple_text(u)
}

/// Raw bytes of a persisted config file.
pub fn config_key(prefix: &str, name: &str) -> (r: String)
    ensures
        r@ == config_key_text(prefix@, name@),
{
    let mut k = prefix.to_owned();
    k.append("/config/");
    k.append(name);
    k
}

/// Processor state blob key.
pub fn prior_key(prefix: &str, workflow_id: &str, node_id: &str) -> (r: String)
    ensures
        r@ == cursor_text(prefix@, workflow_id@, node_id@, "/prior"@),
{
    let mut k = prefix.to_owned();
    k.append("/cursor/");
    k.append(workflow_id);
    k.append("/");
    k.append(node_id);
    k.append("/prior");
    k
}

/// Source cursor metadata key.
pub fn cursor_key(prefix: &str, workflow_id: &str, source_id: &str) -> (r: String)
    ensures
        r@ == cursor_text(prefix@, workflow_id@, source_id@, "/meta"@),
{
    let mut k = prefix.to_owned();
    k.append("/cursor/");
    k.append(workflow_id);
    k.append("/");
    k.append(source_id);
    k.append("/meta");
    k
}

/// Master batch record key.
pub fn batch_key(prefix: &str, batch_id: u64) -> (r: String)
    ensures
        r@ == batch_key_text(prefix@, batch_id),
{
    let mut k = prefix.to_owned();
    k.append("/batch/");
    k.append(hex_u64(batch_id).as_str());
    k
}

/// Scan prefix of all master batches.
pub fn batches_prefix(prefix: &str) -> (r: String)
    ensures
        r@ == prefix@ + "/batch/"@,
{
    let mut k = prefix.to_owned();
    k.append("/batch/");
    k
}

/// Scan prefix of the row ranges of all batches.
pub fn all_rows_prefix(prefix: &str) -> (r: String)
    ensures
        r@ == prefix@ + "/rows/"@,
{
    let mut k = prefix.to_owned();
    k.append("/rows/");
    k
}

/// Row-range scan prefix for one master batch.
pub fn rows_prefix(prefix: &str, batch_id: u64) -> (r: String)
    ensures
        r@ == rows_prefix_text(prefix@, batch_id),
{
    let mut k = prefix.to_owned();
    k.append("/rows/");
    k.append(hex_u64(batch_id).as_str());
    k
}

/// One row-range record key; `start` is the range's inclusive start.
pub fn rows_key(prefix: &str, batch_id: u64, start: u32) -> (r: String)
    ensures
        r@ == rows_key_text(prefix@, batch_id, start),
{
    let mut k = rows_prefix(prefix, batch_id);
    k.append("/");
    k.append(hex_u32(start).as_str());
    k
}

/// Claim index key.
pub fn claim_key(prefix: &str, claim_id: Uid) -> (r: String)
    ensures
        r@ == claim_key_text(prefix@, claim_id),
{
    let mut k = prefix.to_owned();
    k.append("/claim/");
    k.append(hex_uuid(claim_id).as_str());
    k
}

/// Checkpoint key for one claim at one stage.
pub fn checkpoint_key(prefix: &str, claim_id: Uid, stage_idx: u32) -> (r: String)
    ensures
        r@ == checkpoint_key_text(prefix@, claim_id, stage_idx),
{
    let mut k = prefix.to_owned();
    k.append("/checkpoint/");
    k.append(hex_uuid(claim_id).as_str());
    k.append("/");
    k.append(hex_u32(stage_idx).as_str());
    k
}

/// Schema-id metadata key, updated on every data-stage checkpoint.
pub fn schema_id_key(prefix: &str) -> (r: String)
    ensures
        r@ == prefix@ + "/meta/schema_id"@,
{
    let mut k = prefix.to_owned();
    k.append("/meta/schema_id");
    k
}

/// Byte-ordered key immediately after `key`, for exclusive scan resumption.
pub fn key_after(key: &[u8]) -> (r: Vec<u8>)
    ensures
        r@ == key@.push(0),
{
    let mut out: Vec<u8> = Vec::new();
    out.extend_from_slice(key);
    assert(out@ =~= key@);
    out.push(0);
    out
}

/// The exclusive end of a prefix scan: the prefix with its last byte one
/// higher.
pub open spec fn scan_end_bytes(prefix: Seq<u8>) -> Seq<u8> {
    prefix.drop_last().push((prefix.last() + 1) as u8)
}

/// The exclusive end of the scan of all keys that start with `prefix`.
pub fn scan_end(prefix: &[u8]) -> (r: Vec<u8>)
    requires
        prefix@.len() > 0,
        prefix@.last() < 255,
    ensures
        r@ == scan_end_bytes(prefix@),
{
    let mut out: Vec<u8> = Vec::new();
    out.extend_from_slice(prefix);
    assert(out@ =~= prefix@);
    let last: usize = out.len() - 1;
    let b: u8 = out[last];
    out[last] = b + 1;
    assert(out@ =~= scan_end_bytes(prefix@));
    out
}

/// How many pairs one page of a scan may hold.
pub const SCAN_PAGE: usize = 1024;

/// What a paged scan does after a page came back.
#[derive(Debug, PartialEq, Eq)]
pub enum ScanNext {
    /// The page was short: nothing follows.
    Done,
    /// Fetch the next page from this key on.
    Resume(Vec<u8>),
}

/// Go on after the last key of a full page; a short page ends the scan.
pub fn scan_next(page_len: usize, last_key: Option<&[u8]>) -> (r: ScanNext)
    requires
        page_len > 0 ==> last_key is Some,
    ensures
        r is Done <==> page_len < SCAN_PAGE,
        r matches ScanNext::Resume(k) ==> last_key is Some && k@ == last_key->0@.push(0),
{
    if page_len < SCAN_PAGE {
        return ScanNext::Done;
    }
    match last_key {
        Some(k) => ScanNext::Resume(key_after(k)),
        None => ScanNext::Done,
    }
}

/// The value of a hexadecimal digit of either case.
pub open spec fn digit_value(c: char) -> Option<nat> {
    if '0' <= c <= '9' {
        Some((c as int - 48) as nat)
    } else if 'A' <= c <= 'F' {
        Some((c as int - 55) as nat)
    } else if 'a' <= c <= 'f' {
        Some((c as int - 87) as nat)
    } else {
        None
    }
}

/// The number a string of hexadecimal digits stands for; `None` if another
/// character is among them.
pub open spec fn hex_value(s: Seq<char>) -> Option<nat>
    decreases s.len(),
{
    if s.len() == 0 {
        Some(0)
    } else {
        match (hex_value(s.drop_last()), digit_value(s.last())) {
            (Some(v), Some(d)) => Some(v * 16 + d),
            _ => None,
        }
    }
}

/// What follows the last slash; all of it where there is none.
pub open spec fn last_segment(s: Seq<char>) -> Seq<char>
    decreases s.len(),
{
    if s.len() == 0 || s.last() == '/' {
        Seq::empty()
    } else {
        last_segment(s.drop_last()).push(s.last())
    }
}

/// A segment as an integer: hexadecimal digits, at least one, with a plus sign
/// allowed in front, and no more than 64 bits.
pub open spec fn segment_value(s: Seq<char>) -> Option<u64> {
    let d = if s.len() > 0 && s[0] == '+' {
        s.drop_first()
    } else {
        s
    };
    match hex_value(d) {
        Some(v) => if d.len() > 0 && v <= u64::MAX {
            Some(v as u64)
        } else {
            None
        },
        None => None,
    }
}

fn digit_of(c: char) -> (r: Option<u64>)
    ensures
        match r {
            Some(d) => digit_value(c) == Some(d as nat) && d < 16,
            None => digit_value(c) is None,
        },
{
    let n: u64 = c as u64;
    if '0' <= c && c <= '9' {
        Some(n - 48)
    } else if 'A' <= c && c <= 'F' {
        Some(n - 55)
    } else if 'a' <= c && c <= 'f' {
        Some(n - 87)
    } else {
        None
    }
}

/// A value grows with every digit behind it.
proof fn lemma_hex_value_grows(s: Seq<char>, i: int)
    requires
        0 <= i <= s.len(),
    ensures
        hex_value(s.take(i)) is None ==> hex_value(s) is None,
        hex_value(s) is Some ==> hex_value(s.take(i)) is Some && hex_value(s.take(i))->0
            <= hex_value(s)->0,
    decreases s.len() - i,
{
    if i < s.len() {
        lemma_hex_value_grows(s, i + 1);
        assert(s.take(i + 1).drop_last() =~= s.take(i));
    } else {
        assert(s.take(i) =~= s);
    }
}

/// Parse the trailing hex segment of a key back into its integer.
pub fn parse_hex_tail(key: &str) -> (r: Option<u64>)
    ensures
        r == segment_value(last_segment(key@)),
{
    let n: usize = key.unicode_len();
    let ghost s = key@;
    let mut from: usize = n;
    assert(s.subrange(n as int, n as int) =~= Seq::<char>::empty());
    assert(s.take(n as int) =~= s);
    proof {
        lemma_last_segment_tail(s, n as int);
    }
    while from > 0 && key.get_char(from - 1) != '/'
        invariant
            s == key@,
            n == s.len(),
            0 <= from <= n,
            last_segment(s) == last_segment(s.take(from as int)) + s.subrange(
                from as int,
                n as int,
            ),
        decreases from,
    {
        proof {
            let t = s.take(from as int);
            assert(t.last() == s[from - 1]);
            assert(t.drop_last() =~= s.take(from - 1));
            assert(last_segment(t) =~= last_segment(s.take(from - 1)).push(s[from - 1]));
            assert(last_segment(s.take(from - 1)).push(s[from - 1]) + s.subrange(
                from as int,
                n as int,
            ) =~= last_segment(s.take(from - 1)) + s.subrange(from - 1, n as int));
        }
        from = from - 1;
    }
    let ghost seg = last_segment(s);
    proof {
        let t = s.take(from as int);
        if from > 0 {
            assert(t.last() == s[from - 1]);
        }
        assert(last_segment(t) =~= Seq::<char>::empty());
        assert(seg =~= s.subrange(from as int, n as int));
    }
    if from < n && key.get_char(from) == '+' {
        assert(s.subrange(from as int, n as int).drop_first() =~= s.subrange(
            from + 1,
            n as int,
        ));
        from = from + 1;
    }
    let ghost d = s.subrange(from as int, n as int);
    if from == n {
        return None;
    }
    let mut v: u64 = 0;
    let mut i: usize = from;
    assert(d.take(0) =~= Seq::<char>::empty());
    while i < n
        invariant
            s == key@,
            n == s.len(),
            from <= i <= n,
            d == s.subrange(from as int, n as int),
            d.len() > 0,
            seg == last_segment(s),
            segment_value(seg) == (match hex_value(d) {
                Some(w) => if w <= u64::MAX {
                    Some(w as u64)
                } else {
                    None
                },
                None => None,
            }),
            hex_value(d.take(i - from)) == Some(v as nat),
        decreases n - i,
    {
        let c = key.get_char(i);
        proof {
            assert(d.take(i - from + 1).drop_last() =~= d.take(i - from));
            assert(d.take(i - from + 1).last() == c);
            lemma_hex_value_grows(d, i - from + 1);
        }
        match digit_of(c) {
            None => {
                return None;
            },
            Some(x) => {
                if v > 0x0FFF_FFFF_FFFF_FFFF {
                    return None;
                }
                v = v * 16 + x;
            },
        }
        i = i + 1;
    }
    assert(d.take(n - from) =~= d);
    Some(v)
}

proof fn lemma_last_segment_tail(s: Seq<char>, n: int)
    requires
        n == s.len(),
    ensures
        last_segment(s) == last_segment(s.take(n)) + s.subrange(n, n),
{
    assert(s.take(n) =~= s);
    assert(last_segment(s) + s.subrange(n, n) =~= last_segment(s));
}

/// A fixed-width numeral holds hexadecimal digits and reads back as its
/// number.
pub proof fn lemma_upper_hex_reads_back(n: nat, width: nat)
    requires
        n < pow(16, width),
    ensures
        upper_hex(n, width).len() == width,
        hex_value(upper_hex(n, width)) == Some(n),
        forall|i: int|
            0 <= i < width ==> (#[trigger] upper_hex(n, width)[i]) != '/' && upper_hex(
                n,
                width,
            )[i] != '+',
    decreases width,
{
    reveal(pow);
    if width > 0 {
        let w = (width - 1) as nat;
        assert(n / 16 < pow(16, w)) by (nonlinear_arith)
            requires
                n < 16 * pow(16, w),
        ;
        lemma_upper_hex_reads_back(n / 16, w);
        let h = upper_hex(n, width);
        assert(h.drop_last() =~= upper_hex(n / 16, w));
        assert(digit_value(upper_digit(n % 16)) == Some(n % 16));
        assert forall|i: int| 0 <= i < width implies (#[trigger] h[i]) != '/' && h[i] != '+' by {
            if i < w {
                assert(h[i] == upper_hex(n / 16, w)[i]);
            }
        }
    }
}

proof fn lemma_segment_after_slash(head: Seq<char>, tail: Seq<char>)
    requires
        head.len() > 0,
        head.last() == '/',
        forall|i: int| 0 <= i < tail.len() ==> #[trigger] tail[i] != '/',
    ensures
        last_segment(head + tail) == tail,
    decreases tail.len(),
{
    if tail.len() == 0 {
        assert(head + tail =~= head);
        assert(last_segment(head) =~= tail);
    } else {
        let t = tail.drop_last();
        assert forall|i: int| 0 <= i < t.len() implies #[trigger] t[i] != '/' by {
            assert(tail[i] != '/');
        }
        lemma_segment_after_slash(head, t);
        assert((head + tail).drop_last() =~= head + t);
        assert((head + tail).last() == tail.last());
        assert(tail.last() == tail[tail.len() - 1]);
        assert(tail =~= t.push(tail.last()));
    }
}

proof fn lemma_pow16()
    ensures
        pow(16, 8) == 0x1_0000_0000,
        pow(16, 16) == 0x1_0000_0000_0000_0000,
        pow(16, 32) == 0x1_0000_0000_0000_0000_0000_0000_0000_0000,
{
    reveal_with_fuel(pow, 33);
}

/// The trailing segment of a batch key reads back as the batch id, and that of
/// a row-range key as the range's start.
pub proof fn law_keys_read_back(prefix: Seq<char>, batch_id: u64, start: u32)
    ensures
        segment_value(last_segment(batch_key_text(prefix, batch_id))) == Some(batch_id),
        segment_value(last_segment(rows_key_text(prefix, batch_id, start))) == Some(start as u64),
{
    lemma_pow16();
    lemma_upper_hex_reads_back(batch_id as nat, 16);
    lemma_upper_hex_reads_back(start as nat, 8);
    reveal_strlit("/batch/");
    reveal_strlit("/");
    let head = prefix + "/batch/"@;
    lemma_segment_after_slash(head, upper_hex(batch_id as nat, 16));
    let rows = rows_prefix_text(prefix, batch_id) + "/"@;
    lemma_segment_after_slash(rows, upper_hex(start as nat, 8));
}

/// The character code of an uppercase hexadecimal digit.
spec fn upper_code(d: int) -> int {
    if d < 10 {
        48 + d
    } else {
        55 + d
    }
}

/// `codes` spells the digits `ds`.
spec fn spells(codes: Seq<int>, ds: Seq<int>) -> bool {
    &&& codes.len() == ds.len()
    &&& forall|i: int|
        0 <= i < ds.len() ==> 0 <= #[trigger] ds[i] < 16 && codes[i] == upper_code(ds[i])
}

/// The codes of an uppercase numeral order as its digits do.
proof fn lemma_upper_codes(n: nat, width: nat)
    ensures
        upper_hex(n, width).len() == width,
        codes(upper_hex(n, width)).len() == width,
        spells(codes(upper_hex(n, width)), digits(n, 16, width)),
    decreases width,
{
    lemma_digits_len(n, 16, width);
    if width > 0 {
        let w = (width - 1) as nat;
        lemma_upper_codes(n / 16, w);
        lemma_digits_len(n / 16, 16, w);
        let c = codes(upper_hex(n, width));
        let d = digits(n, 16, width);
        assert(d =~= digits(n / 16, 16, w).push((n % 16) as int));
        assert(c =~= codes(upper_hex(n / 16, w)).push(upper_digit(n % 16) as int));
        assert forall|i: int| 0 <= i < d.len() implies 0 <= #[trigger] d[i] < 16 && c[i]
            == upper_code(d[i]) by {
            if i < w {
                assert(d[i] == digits(n / 16, 16, w)[i]);
            }
        }
    }
}

/// A strictly monotone recoding of the elements keeps the order.
proof fn lemma_recode(a: Seq<int>, b: Seq<int>, x: Seq<int>, y: Seq<int>)
    requires
        spells(x, a),
        spells(y, b),
    ensures
        lex_lt(a, b) == lex_lt(x, y),
        a == b <==> x == y,
    decreases a.len(),
{
    if a.len() > 0 && b.len() > 0 {
        let a1 = a.drop_first();
        let b1 = b.drop_first();
        let x1 = x.drop_first();
        let y1 = y.drop_first();
        assert forall|i: int| 0 <= i < a1.len() implies 0 <= #[trigger] a1[i] < 16 && x1[i]
            == upper_code(a1[i]) by {
            assert(a[i + 1] == a1[i]);
        }
        assert forall|i: int| 0 <= i < b1.len() implies 0 <= #[trigger] b1[i] < 16 && y1[i]
            == upper_code(b1[i]) by {
            assert(b[i + 1] == b1[i]);
        }
        lemma_recode(a1, b1, x1, y1);
        assert(0 <= a[0] < 16 && 0 <= b[0] < 16);
    }
    if x == y {
        assert forall|i: int| 0 <= i < a.len() implies a[i] == b[i] by {
            assert(0 <= a[i] < 16 && 0 <= b[i] < 16);
            assert(x[i] == y[i]);
        }
        assert(a =~= b);
    }
    if a == b {
        assert forall|i: int| 0 <= i < x.len() implies x[i] == y[i] by {
            assert(0 <= a[i] < 16 && 0 <= b[i] < 16);
        }
        assert(x =~= y);
    }
}

/// Fixed-width hex numerals order byte by byte as their numbers do.
pub proof fn law_hex_ordering_is_bytewise(a: nat, b: nat, width: nat)
    requires
        a < pow(16, width),
        b < pow(16, width),
    ensures
        lex_lt(codes(upper_hex(a, width)), codes(upper_hex(b, width))) <==> a < b,
        codes(upper_hex(a, width)) == codes(upper_hex(b, width)) <==> a == b,
{
    lemma_digits_order(a, b, 16, width);
    lemma_digits_len(a, 16, width);
    lemma_digits_len(b, 16, width);
    lemma_upper_codes(a, width);
    lemma_upper_codes(b, width);
    lemma_recode(
        digits(a, 16, width),
        digits(b, 16, width),
        codes(upper_hex(a, width)),
        codes(upper_hex(b, width)),
    );
}

pub proof fn lemma_codes_append(a: Seq<char>, b: Seq<char>)
    ensures
        codes(a + b) == codes(a) + codes(b),
{
    assert(codes(a + b) =~= codes(a) + codes(b));
}

/// A scan meets batches in the order of their ids, and one batch's row ranges
/// in the order of their starts.
pub proof fn law_scan_order_is_numeric(prefix: Seq<char>, b1: u64, s1: u32, b2: u64, s2: u32)
    ensures
        lex_lt(codes(batch_key_text(prefix, b1)), codes(batch_key_text(prefix, b2))) <==> b1 < b2,
        lex_lt(codes(rows_key_text(prefix, b1, s1)), codes(rows_key_text(prefix, b2, s2))) <==> b1
            < b2 || (b1 == b2 && s1 < s2),
{
    lemma_pow16();
    let h1 = upper_hex(b1 as nat, 16);
    let h2 = upper_hex(b2 as nat, 16);
    let t1 = upper_hex(s1 as nat, 8);
    let t2 = upper_hex(s2 as nat, 8);
    law_hex_ordering_is_bytewise(b1 as nat, b2 as nat, 16);
    law_hex_ordering_is_bytewise(s1 as nat, s2 as nat, 8);
    lemma_upper_codes(b1 as nat, 16);
    lemma_upper_codes(b2 as nat, 16);
    let bh = prefix + "/batch/"@;
    lemma_codes_append(bh, h1);
    lemma_codes_append(bh, h2);
    lemma_lex_append(codes(bh), codes(h1), codes(bh), codes(h2));
    law_lex_irreflexive(codes(bh));
    let rh = prefix + "/rows/"@;
    let sl = "/"@;
    law_lex_irreflexive(codes(rh));
    law_lex_irreflexive(codes(sl));
    lemma_codes_append(sl, t1);
    lemma_codes_append(sl, t2);
    lemma_codes_append(h1, sl + t1);
    lemma_codes_append(h2, sl + t2);
    assert(rows_key_text(prefix, b1, s1) =~= rh + (h1 + (sl + t1)));
    assert(rows_key_text(prefix, b2, s2) =~= rh + (h2 + (sl + t2)));
    lemma_codes_append(rh, h1 + (sl + t1));
    lemma_codes_append(rh, h2 + (sl + t2));
    lemma_lex_append(codes(sl), codes(t1), codes(sl), codes(t2));
    lemma_lex_append(codes(h1), codes(sl + t1), codes(h2), codes(sl + t2));
    lemma_lex_append(codes(rh), codes(h1 + (sl + t1)), codes(rh), codes(h2 + (sl + t2)));
}

/// The scan of one batch's row ranges meets no key of another batch.
pub proof fn law_rows_prefix_isolates(prefix: Seq<char>, batch_id: u64, other: u64, start: u32)
    ensures
        rows_prefix_text(prefix, batch_id).is_prefix_of(rows_key_text(prefix, other, start)) <==>
            batch_id == other,
{
    lemma_pow16();
    let p = rows_prefix_text(prefix, batch_id);
    let k = rows_key_text(prefix, other, start);
    let h = upper_hex(batch_id as nat, 16);
    let o = upper_hex(other as nat, 16);
    lemma_upper_codes(batch_id as nat, 16);
    lemma_upper_codes(other as nat, 16);
    law_hex_ordering_is_bytewise(batch_id as nat, other as nat, 16);
    let n = p.len() - 16;
    assert(p.subrange(n, p.len() as int) =~= h);
    assert(k.subrange(n, p.len() as int) =~= o);
    if p.is_prefix_of(k) {
        assert(k.subrange(0, p.len() as int) =~= p);
        assert(h =~= o);
    }
    if batch_id == other {
        assert(k.subrange(0, p.len() as int) =~= p);
    }
}

/// The key range of a prefix scan holds exactly the keys that start with the
/// prefix.
pub proof fn law_scan_range_is_the_prefix(prefix: Seq<u8>, key: Seq<u8>)
    requires
        prefix.len() > 0,
        prefix.last() < 255,
    ensures
        (!lex_lt(octets(key), octets(prefix)) && lex_lt(
            octets(key),
            octets(scan_end_bytes(prefix)),
        )) <==> prefix.is_prefix_of(key),
    decreases prefix.len(),
{
    let p = octets(prefix);
    let k = octets(key);
    let e = octets(scan_end_bytes(prefix));
    reveal_with_fuel(lex_lt, 2);
    assert(p[0] == prefix[0] as int);
    assert(e.len() == p.len());
    if key.len() == 0 {
        assert(lex_lt(k, p));
        assert(!prefix.is_prefix_of(key));
    } else if prefix.len() == 1 {
        assert(e[0] == p[0] + 1);
        assert(e.drop_first() =~= Seq::<int>::empty());
        assert(p.drop_first() =~= Seq::<int>::empty());
        assert(k[0] == key[0] as int);
        if prefix.is_prefix_of(key) {
            assert(key.subrange(0, 1)[0] == key[0]);
        } else {
            if key[0] == prefix[0] {
                assert(key.subrange(0, 1) =~= prefix);
            }
        }
    } else {
        let p1 = prefix.drop_first();
        let k1 = key.drop_first();
        law_scan_range_is_the_prefix(p1, k1);
        assert(octets(p1) =~= p.drop_first());
        assert(octets(k1) =~= k.drop_first());
        assert(octets(scan_end_bytes(p1)) =~= e.drop_first());
        assert(e[0] == p[0]);
        assert(k[0] == key[0] as int);
        let n = prefix.len() as int;
        if prefix.is_prefix_of(key) {
            assert(key.subrange(0, n)[0] == key[0]);
            assert(k1.subrange(0, n - 1) =~= key.subrange(0, n).drop_first());
        }
        if key[0] == prefix[0] && p1.is_prefix_of(k1) {
            assert forall|i: int| 0 <= i < n implies key.subrange(0, n)[i] == prefix[i] by {
                if i > 0 {
                    assert(k1.subrange(0, n - 1)[i - 1] == p1[i - 1]);
                }
            }
            assert(key.subrange(0, n) =~= prefix);
        }
    }
}

/// No key lies strictly between a key and the one its scan resumes from, so a
/// page boundary loses nothing and repeats nothing.
pub proof fn law_key_after_is_next(key: Seq<u8>, other: Seq<u8>)
    ensures
        lex_lt(octets(key), octets(key.push(0))),
        lex_lt(octets(key), octets(other)) ==> !lex_lt(octets(other), octets(key.push(0))),
    decreases key.len(),
{
    reveal_with_fuel(lex_lt, 2);
    let k = octets(key);
    let n = octets(key.push(0));
    let o = octets(other);
    assert(n =~= k.push(0));
    if key.len() == 0 {
        if o.len() > 0 {
            assert(o[0] == other[0] as int);
            assert(n.drop_first() =~= Seq::<int>::empty());
        }
    } else {
        let k1 = key.drop_first();
        assert(octets(k1) =~= k.drop_first());
        assert(octets(k1.push(0)) =~= n.drop_first());
        if other.len() > 0 {
            law_key_after_is_next(k1, other.drop_first());
            assert(octets(other.drop_first()) =~= o.drop_first());
        } else {
            law_key_after_is_next(k1, other);
        }
        assert(n[0] == k[0]);
    }
}

/// Each kind of key stands under its own word below the prefix, with what it is about
/// behind it; numbers are written at full width.
pub proof fn law_keys_are_spelled_out(
    prefix: Seq<char>,
    a: Seq<char>,
    b: Seq<char>,
    batch_id: u64,
    start: u32,
    claim_id: Uid,
)
    ensures
        config_key_text(prefix, a) == prefix + "/config/"@ + a,
        cursor_text(prefix, a, b, "/prior"@) == prefix + "/cursor/"@ + a + "/"@ + b + "/prior"@,
        cursor_text(prefix, a, b, "/meta"@) == prefix + "/cursor/"@ + a + "/"@ + b + "/meta"@,
        batch_key_text(prefix, batch_id) == prefix + "/batch/"@ + upper_hex(batch_id as nat, 16),
        rows_prefix_text(prefix, batch_id) == prefix + "/rows/"@ + upper_hex(batch_id as nat, 16),
        rows_key_text(prefix, batch_id, start) == prefix + "/rows/"@ + upper_hex(
            batch_id as nat,
            16,
        ) + "/"@ + upper_hex(start as nat, 8),
        claim_key_text(prefix, claim_id) == prefix + "/claim/"@ + lower_hex(claim_id as nat, 32),
        checkpoint_key_text(prefix, claim_id, start) == prefix + "/checkpoint/"@ + lower_hex(
            claim_id as nat,
            32,
        ) + "/"@ + upper_hex(start as nat, 8),
{
}

/// A numeral is worth sixteen times what stands before its last digit, and that digit:
/// digits are zero to nine and the first six letters of either case.
pub proof fn law_numerals_are_read(s: Seq<char>, c: char)
    ensures
        hex_value(Seq::empty()) == Some(0nat),
        hex_value(s) is None ==> hex_value(s.push(c)) is None,
        hex_value(s) matches Some(v) ==> ({
            let r = hex_value(s.push(c));
            &&& 48 <= c as int <= 57 ==> r == Some((v * 16 + (c as int - 48)) as nat)
            &&& 65 <= c as int <= 70 ==> r == Some((v * 16 + (c as int - 55)) as nat)
            &&& 97 <= c as int <= 102 ==> r == Some((v * 16 + (c as int - 87)) as nat)
            &&& r is Some ==> 48 <= c as int <= 57 || 65 <= c as int <= 70 || 97 <= c as int <= 102
        }),
{
    assert(s.push(c).drop_last() =~= s);
}

/// The last segment is what follows the last slash.
pub proof fn law_last_segment(head: Seq<char>, tail: Seq<char>)
    requires
        !tail.contains('/'),
    ensures
        last_segment(head.push('/') + tail) == tail,
        last_segment(tail) == tail,
    decreases tail.len(),
{
    assert forall|i: int| 0 <= i < tail.len() implies #[trigger] tail[i] != '/' by {
        assert(tail.contains(tail[i]));
    }
    lemma_segment_after_slash(head.push('/'), tail);
    if tail.len() > 0 {
        let t = tail.drop_last();
        assert forall|i: int| 0 <= i < t.len() implies t[i] != '/' by {
            assert(tail[i] != '/');
        }
        law_last_segment(head, t);
        assert(tail =~= t.push(tail.last()));
    }
}

/// A segment is worth its numeral where that is one and fits; a plus sign in front
/// changes nothing, and a segment without a digit is worth nothing.
pub proof fn law_segments_are_read(d: Seq<char>)
    requires
        d.len() > 0 ==> d[0] != '+',
    ensures
        segment_value(d) == segment_value(seq!['+'] + d),
        d.len() == 0 ==> segment_value(d) is None,
        d.len() > 0 ==> (hex_value(d) matches Some(v) ==> (v <= 0xFFFF_FFFF_FFFF_FFFF
            ==> segment_value(d) == Some(v as u64)) && (v > 0xFFFF_FFFF_FFFF_FFFF ==> segment_value(
            d,
        ) is None)),
        hex_value(d) is None ==> segment_value(d) is None,
{
    let p = seq!['+'] + d;
    assert(p[0] == '+');
    assert(p.drop_first() =~= d);
}

/// The end of a prefix scan differs from the prefix in its last byte alone, which is one
/// higher. A page is full at a thousand and twenty-four pairs.
pub proof fn law_scan_end_is_one_higher(prefix: Seq<u8>, i: int)
    requires
        prefix.len() > 0,
        prefix.last() < 255,
        0 <= i < prefix.len(),
    ensures
        scan_end_bytes(prefix).len() == prefix.len(),
        i + 1 < prefix.len() ==> scan_end_bytes(prefix)[i] == prefix[i],
        i + 1 == prefix.len() ==> scan_end_bytes(prefix)[i] == prefix[i] + 1,
        SCAN_PAGE == 1024,
{
}

} // verus!
