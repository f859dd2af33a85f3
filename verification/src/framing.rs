//! Length-prefixed frames: eight big-endian bytes holding the payload's
//! length, followed by the payload itself.

use vstd::prelude::*;

verus! {

/// Number of bytes in the length prefix of a frame.
pub const HEADER_LEN: usize = 8;

/// The eight big-endian bytes of `n`, most significant first
/// (what `u64::to_be_bytes` gives).
pub open spec fn be_bytes(n: u64) -> Seq<u8> {
    seq![
        (n >> 56u64) as u8,
        (n >> 48u64) as u8,
        (n >> 40u64) as u8,
        (n >> 32u64) as u8,
        (n >> 24u64) as u8,
        (n >> 16u64) as u8,
        (n >> 8u64) as u8,
        n as u8,
    ]
}

/// The number that eight bytes denote, most significant first.
pub open spec fn be_value_of(
    b0: u8,
    b1: u8,
    b2: u8,
    b3: u8,
    b4: u8,
    b5: u8,
    b6: u8,
    b7: u8,
) -> u64 {
    ((b0 as u64) << 56u64) | ((b1 as u64) << 48u64) | ((b2 as u64) << 40u64) | ((b3 as u64)
        << 32u64) | ((b4 as u64) << 24u64) | ((b5 as u64) << 16u64) | ((b6 as u64) << 8u64) | (
    b7 as u64)
}

/// The number that the first eight bytes of `b` denote in big-endian order
/// (what `u64::from_be_bytes` gives on them).
pub open spec fn be_value(b: Seq<u8>) -> u64
    recommends
        b.len() >= 8,
{
    be_value_of(b[0], b[1], b[2], b[3], b[4], b[5], b[6], b[7])
}

/// The frame that carries `payload`.
pub open spec fn frame(payload: Seq<u8>) -> Seq<u8> {
    be_bytes(payload.len() as u64) + payload
}

/// The payload that a reader takes from `buf`: it reads the eight header
/// bytes, then exactly as many bytes as the header says; bytes after them
/// are left unread. `None` when `buf` ends before that.
pub open spec fn frame_payload(buf: Seq<u8>) -> Option<Seq<u8>> {
    if buf.len() >= 8 && buf.len() - 8 >= be_value(buf) {
        Some(buf.subrange(8, 8 + be_value(buf)))
    } else {
        None
    }
}

/// Reading back the header of a number gives that number.
pub proof fn lemma_be_value_of_be_bytes(n: u64)
    ensures
        be_value(be_bytes(n)) == n,
{
    let b = be_bytes(n);
    assert(b[0] == (n >> 56u64) as u8 && b[1] == (n >> 48u64) as u8 && b[2] == (n >> 40u64) as u8
        && b[3] == (n >> 32u64) as u8 && b[4] == (n >> 24u64) as u8 && b[5] == (n >> 16u64) as u8
        && b[6] == (n >> 8u64) as u8 && b[7] == n as u8);
    assert(be_value_of(
        (n >> 56u64) as u8,
        (n >> 48u64) as u8,
        (n >> 40u64) as u8,
        (n >> 32u64) as u8,
        (n >> 24u64) as u8,
        (n >> 16u64) as u8,
        (n >> 8u64) as u8,
        n as u8,
    ) == n) by (bit_vector);
}

/// Writing the number that eight bytes denote gives those bytes back.
pub proof fn lemma_be_bytes_of_be_value(b: Seq<u8>)
    requires
        b.len() == 8,
    ensures
        be_bytes(be_value(b)) == b,
{
    let (b0, b1, b2, b3, b4, b5, b6, b7) = (b[0], b[1], b[2], b[3], b[4], b[5], b[6], b[7]);
    let v = be_value_of(b0, b1, b2, b3, b4, b5, b6, b7);
    assert((v >> 56u64) as u8 == b0 && (v >> 48u64) as u8 == b1 && (v >> 40u64) as u8 == b2 && (v
        >> 32u64) as u8 == b3 && (v >> 24u64) as u8 == b4 && (v >> 16u64) as u8 == b5 && (v
        >> 8u64) as u8 == b6 && v as u8 == b7) by (bit_vector)
        requires
            v == be_value_of(b0, b1, b2, b3, b4, b5, b6, b7),
    ;
    assert(be_bytes(v) =~= b);
}

/// A reader takes from a frame exactly the payload that was framed.
pub proof fn lemma_frame_round_trip(payload: Seq<u8>)
    requires
        payload.len() <= u64::MAX,
    ensures
        frame_payload(frame(payload)) == Some(payload),
{
    let n = payload.len() as u64;
    lemma_be_value_of_be_bytes(n);
    let f = frame(payload);
    assert(f.subrange(0, 8) =~= be_bytes(n));
    assert(be_value(f) == be_value(be_bytes(n)));
    assert(f.subrange(8, 8 + n) =~= payload);
}

/// A reader takes from a frame exactly the payload that was framed, whatever
/// bytes follow the frame in the buffer (the next frame, say): they are left
/// unread.
pub proof fn lemma_frame_then_rest(payload: Seq<u8>, rest: Seq<u8>)
    requires
        payload.len() <= u64::MAX,
    ensures
        frame_payload(frame(payload) + rest) == Some(payload),
{
    let n = payload.len() as u64;
    lemma_be_value_of_be_bytes(n);
    let f = frame(payload) + rest;
    assert(be_value(f) == be_value(be_bytes(n))) by {
        assert(f[0] == be_bytes(n)[0] && f[1] == be_bytes(n)[1] && f[2] == be_bytes(n)[2]
            && f[3] == be_bytes(n)[3] && f[4] == be_bytes(n)[4] && f[5] == be_bytes(n)[5]
            && f[6] == be_bytes(n)[6] && f[7] == be_bytes(n)[7]);
    }
    assert(f.subrange(8, 8 + n) =~= payload);
}

/// A frame header is the length written in base 256, most significant
/// digit first: byte `k` is the length divided by `256^(7-k)`, modulo 256.
pub proof fn lemma_be_bytes_digits(n: u64)
    ensures
        be_bytes(n).len() == 8,
        be_bytes(n)[0] == (n / 0x0100_0000_0000_0000) % 256,
        be_bytes(n)[1] == (n / 0x0001_0000_0000_0000) % 256,
        be_bytes(n)[2] == (n / 0x0000_0100_0000_0000) % 256,
        be_bytes(n)[3] == (n / 0x0000_0001_0000_0000) % 256,
        be_bytes(n)[4] == (n / 0x0000_0000_0100_0000) % 256,
        be_bytes(n)[5] == (n / 0x0000_0000_0001_0000) % 256,
        be_bytes(n)[6] == (n / 0x0000_0000_0000_0100) % 256,
        be_bytes(n)[7] == n % 256,
{
    assert((n >> 56u64) as u8 == (n / 0x0100_0000_0000_0000) % 256) by (bit_vector);
    assert((n >> 48u64) as u8 == (n / 0x0001_0000_0000_0000) % 256) by (bit_vector);
    assert((n >> 40u64) as u8 == (n / 0x0000_0100_0000_0000) % 256) by (bit_vector);
    assert((n >> 32u64) as u8 == (n / 0x0000_0001_0000_0000) % 256) by (bit_vector);
    assert((n >> 24u64) as u8 == (n / 0x0000_0000_0100_0000) % 256) by (bit_vector);
    assert((n >> 16u64) as u8 == (n / 0x0000_0000_0001_0000) % 256) by (bit_vector);
    assert((n >> 8u64) as u8 == (n / 0x0000_0000_0000_0100) % 256) by (bit_vector);
    assert(n as u8 == n % 256) by (bit_vector);
}

/// The length that a header announces is its bytes read in base 256, most
/// significant first.
pub proof fn lemma_be_value_digits(b: Seq<u8>)
    requires
        b.len() >= 8,
    ensures
        be_value(b) == b[0] * 0x0100_0000_0000_0000 + b[1] * 0x0001_0000_0000_0000 + b[2]
            * 0x0000_0100_0000_0000 + b[3] * 0x0000_0001_0000_0000 + b[4] * 0x0000_0000_0100_0000
            + b[5] * 0x0000_0000_0001_0000 + b[6] * 0x0000_0000_0000_0100 + b[7],
{
    let (b0, b1, b2, b3, b4, b5, b6, b7) = (b[0], b[1], b[2], b[3], b[4], b[5], b[6], b[7]);
    assert(be_value_of(b0, b1, b2, b3, b4, b5, b6, b7) == b0 * 0x0100_0000_0000_0000 + b1
        * 0x0001_0000_0000_0000 + b2 * 0x0000_0100_0000_0000 + b3 * 0x0000_0001_0000_0000 + b4
        * 0x0000_0000_0100_0000 + b5 * 0x0000_0000_0001_0000 + b6 * 0x0000_0000_0000_0100 + b7)
        by (bit_vector);
}

/// The length that a frame header announces (as `u64::from_be_bytes`);
/// only the first eight bytes of `header` are read.
pub fn frame_length(header: &[u8]) -> (len: u64)
    requires
        header@.len() >= 8,
    ensures
        len == be_value(header@),
{
    ((header[0] as u64) << 56u64) | ((header[1] as u64) << 48u64) | ((header[2] as u64) << 40u64)
        | ((header[3] as u64) << 32u64) | ((header[4] as u64) << 24u64) | ((header[5] as u64)
        << 16u64) | ((header[6] as u64) << 8u64) | (header[7] as u64)
}

/// The frame that carries `payload`: its length in eight big-endian bytes,
/// then the payload.
pub fn encode_frame(payload: &[u8]) -> (out: Vec<u8>)
    ensures
        out@ == frame(payload@),
{
    let n = payload.len() as u64;
    let mut out: Vec<u8> = Vec::new();
    out.push((n >> 56u64) as u8);
    out.push((n >> 48u64) as u8);
    out.push((n >> 40u64) as u8);
    out.push((n >> 32u64) as u8);
    out.push((n >> 24u64) as u8);
    out.push((n >> 16u64) as u8);
    out.push((n >> 8u64) as u8);
    out.push(n as u8);
    assert(out@ =~= be_bytes(n));
    let mut i: usize = 0;
    while i < payload.len()
        invariant
            i <= payload@.len(),
            n == payload@.len(),
            out@ =~= be_bytes(n) + payload@.subrange(0, i as int),
        decreases payload@.len() - i,
    {
        out.push(payload[i]);
        i = i + 1;
    }
    assert(payload@.subrange(0, payload@.len() as int) =~= payload@);
    out
}

/// The payload of the frame at the start of `buf`, as a reader takes it:
/// the header, then exactly as many bytes as it announces. `None` when
/// `buf` ends before the frame does.
pub fn decode_frame(buf: &[u8]) -> (out: Option<Vec<u8>>)
    ensures
        match out {
            Some(p) => frame_payload(buf@) == Some(p@),
            None => frame_payload(buf@) is None,
        },
{
    if buf.len() < HEADER_LEN {
        return None;
    }
    let len = frame_length(buf);
    let avail = (buf.len() - HEADER_LEN) as u64;
    if avail < len {
        return None;
    }
    let end = HEADER_LEN + len as usize;
    let mut out: Vec<u8> = Vec::new();
    let mut i: usize = HEADER_LEN;
    while i < end
        invariant
            HEADER_LEN <= i <= end <= buf@.len(),
            end == 8 + len,
            out@ =~= buf@.subrange(8, i as int),
        decreases end - i,
    {
        out.push(buf[i]);
        i = i + 1;
    }
    Some(out)
}

} // verus!
