//! Byte layout of the state machine's composite keys and of the per-batch
//! claim index.
//!
//! | Table | Key | Value |
//! |---|---|---|
//! | claims | `claim_id` (16) | claim record |
//! | claims by batch | `batch_id` (8, big-endian) then `claim_id` (16) | start (4), end (4), status (1) |
//! | checkpoints | `claim_id` (16) then `stage_idx` (4, big-endian) | checkpoint record |

use vstd::arithmetic::power::pow;
use vstd::prelude::*;

use crate::consensus::types::{ClaimStatus, Uid};
use crate::order::{
    be_bytes, law_be_order, lemma_be_digits, lemma_lex_append, lemma_octets_append,
    lemma_octets_injective, lemma_pow256, lex_lt, octets,
};

verus! {

/// `x` as four big-endian bytes.
pub fn be4(x: u32) -> (r: [u8; 4])
    ensures
        r@ == be_bytes(x as nat, 4),
{
    let r: [u8; 4] = [
        (x / 0x100_0000) as u8,
        (x / 0x1_0000 % 256) as u8,
        (x / 256 % 256) as u8,
        (x % 256) as u8,
    ];
    proof {
        reveal_with_fuel(be_bytes, 5);
        assert(r@ =~= be_bytes(x as nat, 4));
    }
    r
}

/// `x` as eight big-endian bytes.
pub fn be8(x: u64) -> (r: [u8; 8])
    ensures
        r@ == be_bytes(x as nat, 8),
{
    let r: [u8; 8] = [
        (x / 0x100_0000_0000_0000) as u8,
        (x / 0x1_0000_0000_0000 % 256) as u8,
        (x / 0x100_0000_0000 % 256) as u8,
        (x / 0x1_0000_0000 % 256) as u8,
        (x / 0x100_0000 % 256) as u8,
        (x / 0x1_0000 % 256) as u8,
        (x / 256 % 256) as u8,
        (x % 256) as u8,
    ];
    proof {
        reveal_with_fuel(be_bytes, 9);
        assert(r@ =~= be_bytes(x as nat, 8));
    }
    r
}

/// Reads four big-endian bytes at `at`.
pub fn read_be4(v: &[u8], at: usize) -> (r: u32)
    requires
        at + 4 <= v@.len(),
    ensures
        be_bytes(r as nat, 4) == v@.subrange(at as int, at + 4),
{
    let r: u32 = v[at] as u32 * 0x100_0000 + v[at + 1] as u32 * 0x1_0000 + v[at + 2] as u32 * 256
        + v[at + 3] as u32;
    proof {
        reveal_with_fuel(be_bytes, 5);
        assert(be_bytes(r as nat, 4) =~= v@.subrange(at as int, at + 4));
    }
    r
}

/// Reads sixteen big-endian bytes at `at`.
pub fn read_be16(v: &[u8], at: usize) -> (r: u128)
    requires
        at + 16 <= v@.len(),
    ensures
        be_bytes(r as nat, 16) == v@.subrange(at as int, at + 16),
{
    let len: usize = v.len();
    let mut r: u128 = 0;
    let mut i: usize = 0;
    proof {
        lemma_pow256_small(0);
        assert(be_bytes(0, 0) =~= v@.subrange(at as int, at as int));
    }
    while i < 16
        invariant
            0 <= i <= 16,
            at + 16 <= len == v@.len(),
            r < pow(256, i as nat),
            be_bytes(r as nat, i as nat) == v@.subrange(at as int, at + i),
        decreases 16 - i,
    {
        proof {
            lemma_pow256_small(i as nat);
            lemma_pow256_small((i + 1) as nat);
            let n = (r * 256 + v@[at + i]) as nat;
            assert(n / 256 == r && n % 256 == v@[at + i]);
            assert(be_bytes(n, (i + 1) as nat) =~= v@.subrange(at as int, at + i).push(
                v@[at + i],
            ));
            assert(v@.subrange(at as int, at + i).push(v@[at + i]) =~= v@.subrange(
                at as int,
                at + i + 1,
            ));
        }
        r = r * 256 + v[at + i] as u128;
        i = i + 1;
    }
    r
}

/// The powers of 256 up to the sixteenth, and what one more digit makes of
/// them.
proof fn lemma_pow256_small(n: nat)
    requires
        n <= 16,
    ensures
        n == 0 ==> pow(256, n) == 1,
        n > 0 ==> pow(256, n) == 256 * pow(256, (n - 1) as nat),
        pow(256, n) <= 0x1_0000_0000_0000_0000_0000_0000_0000_0000,
{
    reveal_with_fuel(pow, 18);
}

/// `uuid::Uuid::as_bytes` on the uuid whose big-endian value is `id`: that
/// value as sixteen big-endian bytes.
#[verifier::external_body]
pub(crate) fn uuid_bytes(id: Uid) -> (r: [u8; 16])
    ensures
        r@ == be_bytes(id as nat, 16),
{
    *uuid::Uuid::from_u128(id).as_bytes()
}

/// The checkpoint table's key: the claim's bytes, then the stage.
pub open spec fn checkpoint_key_bytes(claim_id: Seq<u8>, stage_idx: u32) -> Seq<u8> {
    claim_id + be_bytes(stage_idx as nat, 4)
}

/// Build a 20-byte composite key: `claim_id_bytes (16) || stage_idx_be (4)`.
pub fn checkpoint_key(claim_id: &[u8; 16], stage_idx: u32) -> (r: [u8; 20])
    ensures
        r@ == checkpoint_key_bytes(claim_id@, stage_idx),
{
    let c = claim_id;
    let s = be4(stage_idx);
    let r: [u8; 20] = [
        c[0], c[1], c[2], c[3], c[4], c[5], c[6], c[7], c[8], c[9], c[10], c[11], c[12], c[13],
        c[14], c[15], s[0], s[1], s[2], s[3],
    ];
    assert(r@ =~= checkpoint_key_bytes(claim_id@, stage_idx));
    r
}

/// Read a 20-byte checkpoint key back into its claim and stage.
pub fn decode_checkpoint_key(k: &[u8; 20]) -> (r: (Uid, u32))
    ensures
        k@ == checkpoint_key_bytes(be_bytes(r.0 as nat, 16), r.1),
{
    let claim_id = read_be16(k.as_slice(), 0);
    let stage_idx = read_be4(k.as_slice(), 16);
    assert(k@ =~= k@.subrange(0, 16) + k@.subrange(16, 20));
    (claim_id, stage_idx)
}

/// The claim index's key: the batch, then the claim's bytes.
pub open spec fn claims_by_batch_key_bytes(batch_id: u64, claim_id: Seq<u8>) -> Seq<u8> {
    be_bytes(batch_id as nat, 8) + claim_id
}

/// Build a 24-byte secondary index key: `batch_id_be8 (8) || claim_id_16 (16)`.
///
/// The batch comes first, so that one batch's claims are one key range.
pub fn claims_by_batch_key(batch_id: u64, claim_id: &[u8; 16]) -> (r: [u8; 24])
    ensures
        r@ == claims_by_batch_key_bytes(batch_id, claim_id@),
{
    let b = be8(batch_id);
    let c = claim_id;
    let r: [u8; 24] = [
        b[0], b[1], b[2], b[3], b[4], b[5], b[6], b[7], c[0], c[1], c[2], c[3], c[4], c[5], c[6],
        c[7], c[8], c[9], c[10], c[11], c[12], c[13], c[14], c[15],
    ];
    assert(r@ =~= claims_by_batch_key_bytes(batch_id, claim_id@));
    r
}

/// Lower bound of a batch's key range: `batch_id_be8`.
pub fn batch_range_start(batch_id: u64) -> (r: [u8; 8])
    ensures
        r@ == be_bytes(batch_id as nat, 8),
{
    be8(batch_id)
}

/// Exclusive upper bound of a batch's key range: `(batch_id + 1)_be8`, or
/// `None` for the last batch id, whose range runs to the end of the table.
pub fn batch_range_end(batch_id: u64) -> (r: Option<[u8; 8]>)
    ensures
        r is None <==> batch_id == u64::MAX,
        r matches Some(k) ==> k@ == be_bytes(batch_id as nat + 1, 8),
{
    if batch_id == u64::MAX {
        None
    } else {
        Some(be8(batch_id + 1))
    }
}

/// The byte a status is stored as.
pub open spec fn status_code(s: ClaimStatus) -> u8 {
    match s {
        ClaimStatus::Pending => 0,
        ClaimStatus::Claimed => 1,
        ClaimStatus::Completed => 2,
    }
}

/// Encode a [`ClaimStatus`] as a single byte.
pub fn status_byte(s: ClaimStatus) -> (r: u8)
    ensures
        r == status_code(s),
{
    match s {
        ClaimStatus::Pending => 0,
        ClaimStatus::Claimed => 1,
        ClaimStatus::Completed => 2,
    }
}

/// Decode a [`ClaimStatus`] from a single byte. Returns `None` for unknown bytes.
pub fn status_from_byte(b: u8) -> (r: Option<ClaimStatus>)
    ensures
        r is Some <==> b <= 2,
        r matches Some(s) ==> status_code(s) == b,
{
    match b {
        0 => Some(ClaimStatus::Pending),
        1 => Some(ClaimStatus::Claimed),
        2 => Some(ClaimStatus::Completed),
        _ => None,
    }
}

/// The claim index's value: start, end, status.
pub open spec fn claims_by_batch_value_bytes(start: u32, end: u32, status: ClaimStatus) -> Seq<u8> {
    be_bytes(start as nat, 4) + be_bytes(end as nat, 4) + seq![status_code(status)]
}

/// Encode the secondary index value: `start_row_be4 ++ end_row_be4 ++ status_byte`.
pub fn claims_by_batch_value(start: u32, end: u32, status: ClaimStatus) -> (r: [u8; 9])
    ensures
        r@ == claims_by_batch_value_bytes(start, end, status),
{
    let s = be4(start);
    let e = be4(end);
    let r: [u8; 9] = [s[0], s[1], s[2], s[3], e[0], e[1], e[2], e[3], status_byte(status)];
    assert(r@ =~= claims_by_batch_value_bytes(start, end, status));
    r
}

/// Decode the secondary index value into `(start_row, end_row, status)`.
///
/// `None` unless the slice is exactly 9 bytes ending in a known status byte.
pub fn decode_claims_by_batch_value(v: &[u8]) -> (r: Option<(u32, u32, ClaimStatus)>)
    ensures
        r is Some <==> v@.len() == 9 && v@[8] <= 2,
        r matches Some(t) ==> claims_by_batch_value_bytes(t.0, t.1, t.2) == v@,
{
    if v.len() != 9 {
        return None;
    }
    let start = read_be4(v, 0);
    let end = read_be4(v, 4);
    match status_from_byte(v[8]) {
        None => None,
        Some(status) => {
            assert(claims_by_batch_value_bytes(start, end, status) =~= v@);
            Some((start, end, status))
        },
    }
}

/// Encoding is injective, so decoding an encoded value gives it back.
pub proof fn law_index_value_round_trip(
    s1: u32,
    e1: u32,
    c1: ClaimStatus,
    s2: u32,
    e2: u32,
    c2: ClaimStatus,
)
    ensures
        claims_by_batch_value_bytes(s1, e1, c1).len() == 9,
        claims_by_batch_value_bytes(s1, e1, c1)[8] <= 2,
        claims_by_batch_value_bytes(s1, e1, c1) == claims_by_batch_value_bytes(s2, e2, c2) <==> s1
            == s2 && e1 == e2 && c1 == c2,
{
    lemma_pow256();
    lemma_be_digits(s1 as nat, 4);
    lemma_be_digits(e1 as nat, 4);
    lemma_be_digits(s2 as nat, 4);
    lemma_be_digits(e2 as nat, 4);
    law_be_order(s1 as nat, s2 as nat, 4);
    law_be_order(e1 as nat, e2 as nat, 4);
    let a = claims_by_batch_value_bytes(s1, e1, c1);
    let b = claims_by_batch_value_bytes(s2, e2, c2);
    if a == b {
        assert(a.subrange(0, 4) =~= be_bytes(s1 as nat, 4));
        assert(b.subrange(0, 4) =~= be_bytes(s2 as nat, 4));
        assert(a.subrange(4, 8) =~= be_bytes(e1 as nat, 4));
        assert(b.subrange(4, 8) =~= be_bytes(e2 as nat, 4));
        assert(a[8] == status_code(c1));
        assert(b[8] == status_code(c2));
    }
}

/// A batch's key range holds the index keys of that batch and of no other:
/// a key lies at or above the lower bound and below the upper bound exactly
/// when it carries the batch's id.
pub proof fn law_batch_range_isolates(batch_id: u64, other: u64, claim_id: Seq<u8>)
    ensures
        ({
            let key = octets(claims_by_batch_key_bytes(other, claim_id));
            let lo = octets(be_bytes(batch_id as nat, 8));
            let hi = octets(be_bytes(batch_id as nat + 1, 8));
            &&& !lex_lt(key, lo) <==> other >= batch_id
            &&& batch_id < u64::MAX ==> (lex_lt(key, hi) <==> other <= batch_id)
            &&& (!lex_lt(key, lo) && (batch_id < u64::MAX ==> lex_lt(key, hi))) <==> other
                == batch_id
        }),
{
    lemma_pow256();
    let head = be_bytes(other as nat, 8);
    let lo = be_bytes(batch_id as nat, 8);
    let hi = be_bytes(batch_id as nat + 1, 8);
    lemma_be_digits(other as nat, 8);
    lemma_be_digits(batch_id as nat, 8);
    lemma_be_digits(batch_id as nat + 1, 8);
    lemma_octets_append(head, claim_id);
    let none = Seq::<int>::empty();
    assert(octets(lo) + none =~= octets(lo));
    assert(octets(hi) + none =~= octets(hi));
    lemma_lex_append(octets(head), octets(claim_id), octets(lo), none);
    law_be_order(other as nat, batch_id as nat, 8);
    if batch_id < u64::MAX {
        lemma_lex_append(octets(head), octets(claim_id), octets(hi), none);
        law_be_order(other as nat, batch_id as nat + 1, 8);
    }
}

/// Index keys order by batch, then by claim; checkpoint keys by claim, then by
/// stage. Different pairs have different keys.
pub proof fn law_composite_keys_order(b1: u64, c1: Uid, b2: u64, c2: Uid, s1: u32, s2: u32)
    ensures
        ({
            let i1 = claims_by_batch_key_bytes(b1, be_bytes(c1 as nat, 16));
            let i2 = claims_by_batch_key_bytes(b2, be_bytes(c2 as nat, 16));
            let k1 = checkpoint_key_bytes(be_bytes(c1 as nat, 16), s1);
            let k2 = checkpoint_key_bytes(be_bytes(c2 as nat, 16), s2);
            &&& lex_lt(octets(i1), octets(i2)) <==> b1 < b2 || (b1 == b2 && c1 < c2)
            &&& lex_lt(octets(k1), octets(k2)) <==> c1 < c2 || (c1 == c2 && s1 < s2)
        }),
{
    lemma_pow256();
    lemma_be_digits(b1 as nat, 8);
    lemma_be_digits(b2 as nat, 8);
    lemma_be_digits(c1 as nat, 16);
    lemma_be_digits(c2 as nat, 16);
    law_be_order(b1 as nat, b2 as nat, 8);
    law_be_order(c1 as nat, c2 as nat, 16);
    law_be_order(s1 as nat, s2 as nat, 4);
    let ob1 = be_bytes(b1 as nat, 8);
    let ob2 = be_bytes(b2 as nat, 8);
    let oc1 = be_bytes(c1 as nat, 16);
    let oc2 = be_bytes(c2 as nat, 16);
    let os1 = be_bytes(s1 as nat, 4);
    let os2 = be_bytes(s2 as nat, 4);
    lemma_octets_append(ob1, oc1);
    lemma_octets_append(ob2, oc2);
    lemma_octets_append(oc1, os1);
    lemma_octets_append(oc2, os2);
    lemma_octets_injective(ob1, ob2);
    lemma_octets_injective(oc1, oc2);
    lemma_lex_append(octets(ob1), octets(oc1), octets(ob2), octets(oc2));
    lemma_lex_append(octets(oc1), octets(os1), octets(oc2), octets(os2));
}

/// One byte of the FNV-1a hash: xor the byte in, then multiply by the prime.
pub open spec fn fnv1a_step(h: u64, b: u8) -> u64 {
    ((h ^ (b as u64)) * 0x100_0000_01b3) as u64
}

/// The FNV-1a hash of `s`, started from `h`.
pub open spec fn fnv1a(h: u64, s: Seq<u8>) -> u64 {
    s.fold_left(h, |acc: u64, b: u8| fnv1a_step(acc, b))
}

/// The hash under which a checkpoint is recognised as a repeat.
pub open spec fn content_hash(claim_id: Seq<u8>, stage_idx: u32, ipc_bytes: Seq<u8>) -> u64 {
    fnv1a(
        0xcbf2_9ce4_8422_2325,
        claim_id + be_bytes(stage_idx as nat, 4) + ipc_bytes,
    )
}

/// `fnv::FnvHasher`, started by `with_key(h)`, fed `bytes` by `write` and read
/// by `finish`: the FNV-1a hash of `bytes` started from `h`.
#[verifier::external_body]
fn fnv_write(h: u64, bytes: &[u8]) -> (r: u64)
    ensures
        r == fnv1a(h, bytes@),
{
    let mut hasher = fnv::FnvHasher::with_key(h);
    std::hash::Hasher::write(&mut hasher, bytes);
    std::hash::Hasher::finish(&hasher)
}

/// Compute the checkpoint content hash (FNV-1a 64) from its identifying
/// inputs, without joining them in one buffer.
pub fn checkpoint_content_hash(claim_id: &[u8; 16], stage_idx: u32, ipc_bytes: &[u8]) -> (r: u64)
    ensures
        r == content_hash(claim_id@, stage_idx, ipc_bytes@),
{
    let s = be4(stage_idx);
    let h1 = fnv_write(0xcbf2_9ce4_8422_2325, claim_id.as_slice());
    let h2 = fnv_write(h1, s.as_slice());
    let h3 = fnv_write(h2, ipc_bytes);
    proof {
        let f = |acc: u64, b: u8| fnv1a_step(acc, b);
        let all = claim_id@ + s@ + ipc_bytes@;
        all.lemma_fold_left_split(0xcbf2_9ce4_8422_2325u64, f, 20);
        assert(all.subrange(0, 20) =~= claim_id@ + s@);
        assert(all.subrange(20, all.len() as int) =~= ipc_bytes@);
        let head = claim_id@ + s@;
        head.lemma_fold_left_split(0xcbf2_9ce4_8422_2325u64, f, 16);
        assert(head.subrange(0, 16) =~= claim_id@);
        assert(head.subrange(16, 20) =~= s@);
    }
    h3
}

/// Where each part of a key stands: a checkpoint's claim first, then its stage; an index
/// row's batch first, then its claim.
pub proof fn law_composite_keys_are_laid_out(batch_id: u64, claim_id: Seq<u8>, stage_idx: u32)
    requires
        claim_id.len() == 16,
    ensures
        checkpoint_key_bytes(claim_id, stage_idx).len() == 20,
        checkpoint_key_bytes(claim_id, stage_idx).subrange(0, 16) == claim_id,
        checkpoint_key_bytes(claim_id, stage_idx).subrange(16, 20) == be_bytes(stage_idx as nat, 4),
        claims_by_batch_key_bytes(batch_id, claim_id).len() == 24,
        claims_by_batch_key_bytes(batch_id, claim_id).subrange(0, 8) == be_bytes(
            batch_id as nat,
            8,
        ),
        claims_by_batch_key_bytes(batch_id, claim_id).subrange(8, 24) == claim_id,
{
    lemma_pow256();
    lemma_be_digits(batch_id as nat, 8);
    lemma_be_digits(stage_idx as nat, 4);
    let k = checkpoint_key_bytes(claim_id, stage_idx);
    assert(k.subrange(0, 16) =~= claim_id);
    assert(k.subrange(16, 20) =~= be_bytes(stage_idx as nat, 4));
    let i = claims_by_batch_key_bytes(batch_id, claim_id);
    assert(i.subrange(0, 8) =~= be_bytes(batch_id as nat, 8));
    assert(i.subrange(8, 24) =~= claim_id);
}

/// Where each part of an index row stands: its first row, the row it ends before, and
/// its status as zero, one or two.
pub proof fn law_index_value_is_laid_out(start: u32, end: u32, status: ClaimStatus)
    ensures
        ({
            let v = claims_by_batch_value_bytes(start, end, status);
            &&& v.len() == 9
            &&& v.subrange(0, 4) == be_bytes(start as nat, 4)
            &&& v.subrange(4, 8) == be_bytes(end as nat, 4)
            &&& status is Pending ==> v[8] == 0
            &&& status is Claimed ==> v[8] == 1
            &&& status is Completed ==> v[8] == 2
        }),
{
    lemma_pow256();
    lemma_be_digits(start as nat, 4);
    lemma_be_digits(end as nat, 4);
    let v = claims_by_batch_value_bytes(start, end, status);
    assert(v.subrange(0, 4) =~= be_bytes(start as nat, 4));
    assert(v.subrange(4, 8) =~= be_bytes(end as nat, 4));
}

} // verus!
