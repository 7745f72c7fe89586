//! Length-prefixed framing of control messages: a 4-byte big-endian length
//! followed by exactly that many payload bytes.

use vstd::prelude::*;

verus! {

/// Number of bytes in the length prefix.
pub const PREFIX_LEN: usize = 4;

/// Largest payload a frame can announce.
pub const MAX_PAYLOAD: u64 = 0xffff_ffff;

/// Why a frame could not be written or read.
#[derive(Debug, Clone, Copy, PartialEq, Eq, Structural)]
pub enum FrameError {
    /// The payload is longer than a 4-byte length can announce.
    TooLong,
    /// The stream ended before a whole length prefix arrived.
    ConnectionClosed,
    /// The stream ended inside the announced payload.
    ShortRead,
}

/// The four bytes of `n`, most significant first.
pub open spec fn be32(n: nat) -> Seq<u8> {
    seq![
        ((n / 0x100_0000) % 0x100) as u8,
        ((n / 0x1_0000) % 0x100) as u8,
        ((n / 0x100) % 0x100) as u8,
        (n % 0x100) as u8,
    ]
}

/// The number whose big-endian bytes are the first four of `bytes`.
pub open spec fn from_be32(bytes: Seq<u8>) -> nat
    recommends
        bytes.len() >= 4,
{
    (bytes[0] as nat) * 0x100_0000 + (bytes[1] as nat) * 0x1_0000 + (bytes[2] as nat) * 0x100
        + (bytes[3] as nat)
}

/// A whole frame: prefix, then payload.
pub open spec fn frame_of(payload: Seq<u8>) -> Seq<u8> {
    be32(payload.len()) + payload
}

/// What a reader makes of the bytes that a stream still holds: the first
/// payload and the number of bytes it used, or the reason it cannot.
pub open spec fn read_frame(stream: Seq<u8>) -> Result<(Seq<u8>, nat), FrameError> {
    if stream.len() < 4 {
        Err(FrameError::ConnectionClosed)
    } else if stream.len() < 4 + from_be32(stream) {
        Err(FrameError::ShortRead)
    } else {
        Ok((stream.subrange(4, 4 + from_be32(stream) as int), 4 + from_be32(stream)))
    }
}

/// The length prefix for a payload of `len` bytes.
pub fn length_prefix(len: u32) -> (prefix: [u8; 4])
    ensures
        prefix@ == be32(len as nat),
{
    let b0: u8 = (len / 0x100_0000) as u8;
    let b1: u8 = ((len / 0x1_0000) % 0x100) as u8;
    let b2: u8 = ((len / 0x100) % 0x100) as u8;
    let b3: u8 = (len % 0x100) as u8;
    let prefix: [u8; 4] = [b0, b1, b2, b3];
    assert(prefix@ =~= be32(len as nat));
    prefix
}

/// The payload length that a prefix announces.
pub fn payload_len(prefix: &[u8; 4]) -> (len: u32)
    ensures
        len as nat == from_be32(prefix@),
{
    let b0: u32 = prefix[0] as u32;
    let b1: u32 = prefix[1] as u32;
    let b2: u32 = prefix[2] as u32;
    let b3: u32 = prefix[3] as u32;
    b0 * 0x100_0000 + b1 * 0x1_0000 + b2 * 0x100 + b3
}

/// Frames `payload`. Fails with `TooLong` exactly when the payload has more
/// than `MAX_PAYLOAD` bytes.
pub fn encode_frame(payload: &Vec<u8>) -> (r: Result<Vec<u8>, FrameError>)
    ensures
        payload@.len() <= MAX_PAYLOAD ==> r is Ok && r->Ok_0@ == frame_of(payload@),
        payload@.len() > MAX_PAYLOAD ==> r == Err::<Vec<u8>, FrameError>(FrameError::TooLong),
{
    let n: usize = payload.len();
    if n as u64 > MAX_PAYLOAD {
        return Err(FrameError::TooLong);
    }
    let prefix: [u8; 4] = length_prefix(n as u32);
    let mut out: Vec<u8> = Vec::new();
    out.push(prefix[0]);
    out.push(prefix[1]);
    out.push(prefix[2]);
    out.push(prefix[3]);
    let mut i: usize = 0;
    while i < n
        invariant
            n == payload@.len(),
            i <= n,
            out@ == be32(n as nat) + payload@.subrange(0, i as int),
        decreases n - i,
    {
        out.push(payload[i]);
        i += 1;
    }
    assert(payload@.subrange(0, n as int) =~= payload@);
    Ok(out)
}

/// Reads the first frame out of `stream`: its payload and the number of bytes
/// consumed. `ConnectionClosed` when fewer than four bytes are there,
/// `ShortRead` when the announced payload is not all there.
pub fn decode_frame(stream: &Vec<u8>) -> (r: Result<(Vec<u8>, usize), FrameError>)
    ensures
        match r {
            Ok((payload, used)) => read_frame(stream@) == Ok::<(Seq<u8>, nat), FrameError>(
                (payload@, used as nat),
            ),
            Err(e) => read_frame(stream@) == Err::<(Seq<u8>, nat), FrameError>(e),
        },
{
    let total: usize = stream.len();
    if total < PREFIX_LEN {
        return Err(FrameError::ConnectionClosed);
    }
    let prefix: [u8; 4] = [stream[0], stream[1], stream[2], stream[3]];
    let len: u32 = payload_len(&prefix);
    if ((total - PREFIX_LEN) as u64) < len as u64 {
        return Err(FrameError::ShortRead);
    }
    let end: usize = PREFIX_LEN + len as usize;
    let mut payload: Vec<u8> = Vec::new();
    let mut i: usize = PREFIX_LEN;
    while i < end
        invariant
            4 <= i <= end <= stream@.len(),
            payload@ == stream@.subrange(4, i as int),
        decreases end - i,
    {
        payload.push(stream[i]);
        i += 1;
    }
    Ok((payload, end))
}

/// Reading back what was framed gives the payload again and uses the whole
/// frame, whatever follows it on the stream.
pub proof fn lemma_frame_round_trip(payload: Seq<u8>, rest: Seq<u8>)
    requires
        payload.len() <= MAX_PAYLOAD,
    ensures
        read_frame(frame_of(payload) + rest) == Ok::<(Seq<u8>, nat), FrameError>(
            (payload, 4 + payload.len()),
        ),
{
    let n = payload.len();
    let stream = frame_of(payload) + rest;
    assert(stream[0] == be32(n)[0]);
    assert(stream[1] == be32(n)[1]);
    assert(stream[2] == be32(n)[2]);
    assert(stream[3] == be32(n)[3]);
    assert(from_be32(stream) == n);
    assert(stream.subrange(4, 4 + n as int) =~= payload);
}

} // verus!
