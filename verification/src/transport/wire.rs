//! On-wire frame body codec and the length-prefixed frame header.
//!
//! A frame is a four-byte big-endian length and that many bytes. The body of
//! a raft message frame is one tag byte and the encoded message. Tags are
//! append-only: an existing tag keeps its value.

use vstd::prelude::*;

use crate::consensus::codec::{be4, read_be4};
use crate::order::{be_bytes, law_be_order, lemma_pow256};
use crate::text::{decimal, decimal_text};

verus! {

/// Hard cap on a single frame: 16 MiB.
pub const MAX_FRAME_BYTES: usize = 16_777_216;

/// Tag byte for a raft message frame body.
pub const TAG_RAFT_MESSAGE: u8 = 0;

/// What a frame body fails to decode as.
#[derive(Debug, Clone, PartialEq, Eq)]
pub enum FrameError {
    /// The body holds no tag.
    Empty,
    /// The tag is none this node knows.
    UnknownTag(u8),
    /// The frame is longer than [`MAX_FRAME_BYTES`].
    TooLarge(usize),
}

/// The error's text.
pub open spec fn frame_error_text(e: FrameError) -> Seq<char> {
    match e {
        FrameError::Empty => "empty transport frame"@,
        FrameError::UnknownTag(t) => "unknown transport tag "@ + decimal_text(t as nat),
        FrameError::TooLarge(n) => "frame too large: "@ + decimal_text(n as nat) + " > "@
            + decimal_text(MAX_FRAME_BYTES as nat),
    }
}

impl FrameError {
    /// The error's text.
    pub fn describe(&self) -> (r: String)
        ensures
            r@ == frame_error_text(*self),
    {
        match self {
            FrameError::Empty => "empty transport frame".to_owned(),
            FrameError::UnknownTag(t) => {
                let mut m = "unknown transport tag ".to_owned();
                m.append(decimal(*t as u64).as_str());
                m
            },
            FrameError::TooLarge(n) => {
                let mut m = "frame too large: ".to_owned();
                m.append(decimal(*n as u64).as_str());
                m.append(" > ");
                m.append(decimal(MAX_FRAME_BYTES as u64).as_str());
                m
            },
        }
    }
}

/// Encode raft message bytes as a tagged frame body.
pub fn encode_raft_message(bytes: &[u8]) -> (r: Vec<u8>)
    ensures
        r@ == seq![TAG_RAFT_MESSAGE] + bytes@,
{
    let mut out: Vec<u8> = Vec::new();
    out.push(TAG_RAFT_MESSAGE);
    out.extend_from_slice(bytes);
    assert(out@ =~= seq![TAG_RAFT_MESSAGE] + bytes@);
    out
}

/// Strip the tag byte from a frame body, returning the raft message bytes.
///
/// An empty body and an unknown tag are errors.
pub fn decode_raft_message(body: &[u8]) -> (r: Result<Vec<u8>, FrameError>)
    ensures
        match r {
            Ok(rest) => body@ == seq![TAG_RAFT_MESSAGE] + rest@,
            Err(FrameError::Empty) => body@.len() == 0,
            Err(FrameError::UnknownTag(t)) => body@.len() > 0 && body@[0] == t && t
                != TAG_RAFT_MESSAGE,
            Err(FrameError::TooLarge(_)) => false,
        },
{
    if body.len() == 0 {
        return Err(FrameError::Empty);
    }
    if body[0] != TAG_RAFT_MESSAGE {
        return Err(FrameError::UnknownTag(body[0]));
    }
    let mut rest: Vec<u8> = Vec::new();
    let (_, tail) = body.split_at(1);
    rest.extend_from_slice(tail);
    assert(rest@ =~= body@.subrange(1, body@.len() as int));
    assert(body@ =~= seq![TAG_RAFT_MESSAGE] + rest@);
    Ok(rest)
}

/// The frame that carries `data`; data over the cap is refused.
pub fn encode_frame(data: &[u8]) -> (r: Result<Vec<u8>, FrameError>)
    ensures
        r is Ok <==> data@.len() <= MAX_FRAME_BYTES,
        r matches Ok(f) ==> f@ == be_bytes(data@.len(), 4) + data@,
        r matches Err(e) ==> e == FrameError::TooLarge(data@.len() as usize),
{
    if data.len() > MAX_FRAME_BYTES {
        return Err(FrameError::TooLarge(data.len()));
    }
    let header = be4(data.len() as u32);
    let mut out: Vec<u8> = Vec::new();
    out.extend_from_slice(header.as_slice());
    out.extend_from_slice(data);
    assert(out@ =~= be_bytes(data@.len(), 4) + data@);
    Ok(out)
}

/// How many payload bytes follow the header; a length over the cap is
/// refused.
pub fn decode_frame_header(header: &[u8; 4]) -> (r: Result<usize, FrameError>)
    ensures
        match r {
            Ok(n) => n <= MAX_FRAME_BYTES && header@ == be_bytes(n as nat, 4),
            Err(FrameError::TooLarge(n)) => n > MAX_FRAME_BYTES && n <= u32::MAX && header@
                == be_bytes(n as nat, 4),
            Err(_) => false,
        },
{
    let len: usize = read_be4(header.as_slice(), 0) as usize;
    assert(header@.subrange(0, 4) =~= header@);
    if len > MAX_FRAME_BYTES {
        return Err(FrameError::TooLarge(len));
    }
    Ok(len)
}

/// A frame's header tells how long its payload is: the header of an encoded
/// frame decodes to that length and no other.
pub proof fn law_frame_header_round_trip(len: nat, n: nat)
    requires
        len <= MAX_FRAME_BYTES,
        n <= u32::MAX,
        be_bytes(len, 4) == be_bytes(n, 4),
    ensures
        n == len,
{
    lemma_pow256();
    law_be_order(len, n, 4);
}

/// Decoding an encoded raft message gives it back.
pub proof fn law_raft_message_round_trip(bytes: Seq<u8>, rest: Seq<u8>)
    requires
        seq![TAG_RAFT_MESSAGE] + bytes == seq![TAG_RAFT_MESSAGE] + rest,
    ensures
        rest == bytes,
{
    let a = seq![TAG_RAFT_MESSAGE] + bytes;
    let b = seq![TAG_RAFT_MESSAGE] + rest;
    assert(a.subrange(1, a.len() as int) =~= bytes);
    assert(b.subrange(1, b.len() as int) =~= rest);
}

/// The hexadecimal digit `d`, as an ASCII byte.
pub open spec fn digit_byte(d: int) -> u8 {
    if d < 10 {
        (48 + d) as u8
    } else {
        (87 + d) as u8
    }
}

/// Bytes as hexadecimal digits, two for each.
pub open spec fn byte_digits(data: Seq<u8>) -> Seq<u8> {
    Seq::new(
        2 * data.len(),
        |i: int|
            if i % 2 == 0 {
                digit_byte(data[i / 2] as int / 16)
            } else {
                digit_byte(data[i / 2] as int % 16)
            },
    )
}

fn digit_of(d: u8) -> (r: u8)
    requires
        d < 16,
    ensures
        r == digit_byte(d as int),
{
    if d < 10 {
        48 + d
    } else {
        87 + d
    }
}

/// The bytes of a snapshot chunk as text for an envelope: hexadecimal digits,
/// so that the largest chunk stays well within a frame.
pub fn encode_chunk(data: &[u8]) -> (r: Vec<u8>)
    ensures
        r@ == byte_digits(data@),
{
    let mut r: Vec<u8> = Vec::new();
    let mut i: usize = 0;
    while i < data.len()
        invariant
            i <= data@.len(),
            r@ =~= byte_digits(data@.take(i as int)),
        decreases data@.len() - i,
    {
        r.push(digit_of(data[i] / 16));
        r.push(digit_of(data[i] % 16));
        proof {
            let before = data@.take(i as int);
            let after = data@.take(i as int + 1);
            assert forall|k: int| 0 <= k < 2 * i implies byte_digits(after)[k] == #[trigger]
                byte_digits(before)[k] by {
                assert(after[k / 2] == before[k / 2]);
            }
        }
        i = i + 1;
    }
    assert(data@.take(i as int) =~= data@);
    r
}

fn digit_value(b: u8) -> (r: Option<u8>)
    ensures
        match r {
            Some(d) => d < 16 && b == digit_byte(d as int),
            None => forall|d: int| 0 <= d < 16 ==> b != #[trigger] digit_byte(d),
        },
{
    if 48 <= b && b < 58 {
        Some(b - 48)
    } else if 97 <= b && b < 103 {
        Some(b - 87)
    } else {
        None
    }
}

/// The bytes that the digits stand for. There are none where the digits are
/// those of no bytes.
pub fn decode_chunk(digits: &[u8]) -> (r: Option<Vec<u8>>)
    ensures
        match r {
            Some(data) => byte_digits(data@) == digits@,
            None => forall|data: Seq<u8>| #[trigger] byte_digits(data) != digits@,
        },
{
    if digits.len() % 2 != 0 {
        return None;
    }
    let mut data: Vec<u8> = Vec::new();
    let mut i: usize = 0;
    while i < digits.len()
        invariant
            i <= digits@.len(),
            i % 2 == 0,
            digits@.len() % 2 == 0,
            data@.len() == i / 2,
            forall|k: int| 0 <= k < i ==> #[trigger] byte_digits(data@)[k] == digits@[k],
        decreases digits@.len() - i,
    {
        let (high, low) = match (digit_value(digits[i]), digit_value(digits[i + 1])) {
            (Some(high), Some(low)) => (high, low),
            _ => {
                proof {
                    assert forall|d: Seq<u8>| #[trigger] byte_digits(d) != digits@ by {
                        if byte_digits(d) == digits@ {
                            let b = d[i as int / 2] as int;
                            assert(byte_digits(d)[i as int] == digit_byte(b / 16));
                            assert(byte_digits(d)[i as int + 1] == digit_byte(b % 16));
                        }
                    }
                }
                return None;
            },
        };
        let ghost before = data@;
        data.push(high * 16 + low);
        proof {
            assert forall|k: int| 0 <= k < i + 2 implies #[trigger] byte_digits(data@)[k]
                == digits@[k] by {
                if k < i {
                    assert(data@[k / 2] == before[k / 2]);
                    assert(byte_digits(before)[k] == digits@[k]);
                } else {
                    assert(data@[k / 2] == high * 16 + low);
                }
            }
        }
        i = i + 2;
    }
    assert(byte_digits(data@) =~= digits@);
    Some(data)
}

/// Digits stand for one sequence of bytes, so that a chunk arrives as it was
/// sent; there are two for each byte.
pub proof fn law_chunk_round_trip(a: Seq<u8>, b: Seq<u8>)
    ensures
        byte_digits(a) == byte_digits(b) ==> a == b,
        byte_digits(a).len() == 2 * a.len(),
{
    if byte_digits(a) == byte_digits(b) {
        assert(a.len() == b.len());
        assert forall|i: int| 0 <= i < a.len() implies a[i] == b[i] by {
            assert(byte_digits(a)[2 * i] == byte_digits(b)[2 * i]);
            assert(byte_digits(a)[2 * i + 1] == byte_digits(b)[2 * i + 1]);
            assert((2 * i) / 2 == i && (2 * i + 1) / 2 == i);
        }
        assert(a =~= b);
    }
}

/// A byte is sent as two digits, its sixteens first: zero to nine, then the first six
/// small letters.
pub proof fn law_chunk_digits(data: Seq<u8>, i: int)
    requires
        0 <= i < data.len(),
    ensures
        ({
            let high = data[i] as int / 16;
            let low = data[i] as int % 16;
            let d = byte_digits(data);
            &&& high < 10 ==> d[2 * i] == '0' as int + high
            &&& high >= 10 ==> d[2 * i] == 'a' as int + high - 10
            &&& low < 10 ==> d[2 * i + 1] == '0' as int + low
            &&& low >= 10 ==> d[2 * i + 1] == 'a' as int + low - 10
        }),
{
    assert((2 * i) / 2 == i && (2 * i + 1) / 2 == i);
    assert((2 * i) % 2 == 0 && (2 * i + 1) % 2 == 1);
}

/// A frame holds at most sixteen mebibytes, and a raft message has the tag zero.
pub proof fn law_frame_limits(tag: u8, n: usize)
    ensures
        MAX_FRAME_BYTES == 16_777_216,
        TAG_RAFT_MESSAGE == 0,
        frame_error_text(FrameError::Empty) == "empty transport frame"@,
        frame_error_text(FrameError::UnknownTag(tag)) == "unknown transport tag "@ + decimal_text(
            tag as nat,
        ),
        frame_error_text(FrameError::TooLarge(n)) == "frame too large: "@ + decimal_text(n as nat)
            + " > "@ + decimal_text(16_777_216),
{
}

} // verus!
