//! The outer frame of the serial protocol.
//!
//! On the wire a frame is `START, length, payload, END, checksum`: the length
//! byte counts the payload alone, and the checksum is taken over the payload.
//! Framing and unframing are done by the `ucpack` crate; this module states
//! what its calls return and hands them fixed-size byte arrays.
use ucpack::{UcPack, UcPackError};
use vstd::prelude::*;

verus! {

/// First byte of every frame (`'A'`).
pub const START: u8 = 0x41;

/// Byte that follows the payload of every frame (`'#'`).
pub const END: u8 = 0x23;

/// Bytes of a frame besides its payload: start, length, end, checksum.
pub const OVERHEAD: usize = 4;

/// Why a buffer could not be unframed.
#[derive(Debug, Clone, Copy, PartialEq, Eq)]
pub enum DecodeError {
    /// The buffer ends before the frame does, or the payload is shorter than
    /// what was to be read from it.
    Truncated,
    /// The first byte is not the start byte, or the byte after the payload is
    /// not the end byte.
    BadDelimiter,
    /// The checksum byte does not match the payload.
    BadChecksum,
}

/// The checksum of a payload: what `ucpack::crc8_slice` returns for it, and
/// what the packer puts behind the end byte.
pub uninterp spec fn crc8(payload: Seq<u8>) -> u8;

/// Whether `buffer` begins with a whole frame: the length byte is there, and
/// so are the payload and the three bytes around it that the length announces.
pub open spec fn is_complete(buffer: Seq<u8>) -> bool {
    buffer.len() >= 2 && buffer.len() >= buffer[1] as int + OVERHEAD as int
}

/// Length of the frame that `buffer` begins with, as its length byte gives it.
pub open spec fn frame_len(buffer: Seq<u8>) -> int
    recommends
        buffer.len() >= 2,
{
    buffer[1] as int + OVERHEAD as int
}

/// The frame that carries `payload` between the delimiters `start` and `end`.
pub open spec fn framed(start: u8, end: u8, payload: Seq<u8>) -> Seq<u8> {
    seq![start, payload.len() as u8] + payload + seq![end, crc8(payload)]
}

/// The first `count` payload bytes of the frame that `buffer` begins with, or
/// the first fault found: an incomplete frame, then a wrong delimiter, then a
/// wrong checksum, then a payload of fewer than `count` bytes.
pub open spec fn unframed(start: u8, end: u8, buffer: Seq<u8>, count: int) -> Result<
    Seq<u8>,
    DecodeError,
> {
    let n = buffer[1] as int;
    if !is_complete(buffer) {
        Err(DecodeError::Truncated)
    } else if buffer[0] != start || buffer[n + 2] != end {
        Err(DecodeError::BadDelimiter)
    } else if buffer[n + 3] != crc8(buffer.subrange(2, n + 2)) {
        Err(DecodeError::BadChecksum)
    } else if n < count {
        Err(DecodeError::Truncated)
    } else {
        Ok(buffer.subrange(2, 2 + count))
    }
}

/// `ucpack::is_complete_message` reads the length byte at index 1 and returns
/// the first `length + 4` bytes of the buffer when it holds that many. It looks
/// at no other byte, so the delimiters and the checksum are not its concern.
pub assume_specification[ ucpack::is_complete_message ](buffer: &[u8]) -> (frame: Option<&[u8]>)
    ensures
        frame is Some <==> is_complete(buffer@),
        frame matches Some(f) ==> f@ == buffer@.subrange(0, frame_len(buffer@)),
;

/// `ucpack::UcPack::serialize_slice` on an array of `K` bytes, which `serde`
/// serialises byte by byte for every `K` up to 32. It writes the start byte,
/// the length `K`, the bytes in order, the end byte and the checksum of the
/// bytes to the front of `out` and returns `K + 4`. Where `out` is shorter than
/// that it fails, and may have overwritten part of `out` by then.
#[verifier::external_body]
pub(crate) fn pack<const K: usize>(
    start: u8,
    end: u8,
    payload: &[u8; K],
    out: &mut [u8],
) -> (written: Option<usize>) where [u8; K]: serde::Serialize
    ensures
        final(out)@.len() == old(out)@.len(),
        written is Some <==> K + OVERHEAD <= old(out)@.len(),
        written matches Some(n) ==> n == K + OVERHEAD && final(out)@ == seq![start, K as u8]
            + payload@ + seq![end, crc8(payload@)] + old(out)@.subrange(
            n as int,
            old(out)@.len() as int,
        ),
{
    UcPack::new(start, end).serialize_slice(payload, out).ok()
}

/// `ucpack::UcPack::deserialize_slice` into an array of `K` bytes. It takes the
/// frame that `buffer` begins with, checks the two delimiters (the crate's
/// `strict` feature, which is on unless switched off) and then the checksum,
/// and reads the first `K` bytes of the payload. Bytes of the payload after
/// those, and bytes of `buffer` after the frame, are not looked at. Its errors
/// `WrongIndex` and `WrongCrc` are told apart; the one other that it gives on
/// an array of bytes, `Eof`, is `Truncated`.
#[verifier::external_body]
pub(crate) fn unpack<const K: usize>(start: u8, end: u8, buffer: &[u8]) -> (payload: Result<
    [u8; K],
    DecodeError,
>) where [u8; K]: serde::de::DeserializeOwned
    ensures
        match payload {
            Ok(bytes) => unframed(start, end, buffer@, K as int) == Ok::<Seq<u8>, DecodeError>(
                bytes@,
            ),
            Err(fault) => unframed(start, end, buffer@, K as int) == Err::<Seq<u8>, DecodeError>(
                fault,
            ),
        },
{
    match UcPack::new(start, end).deserialize_slice::<[u8; K]>(buffer) {
        Ok(bytes) => Ok(bytes),
        Err(UcPackError::WrongIndex) => Err(DecodeError::BadDelimiter),
        Err(UcPackError::WrongCrc) => Err(DecodeError::BadChecksum),
        Err(_) => Err(DecodeError::Truncated),
    }
}

/// Unframing undoes framing: a buffer that begins with the frame of a payload
/// of at most 255 bytes, whatever follows the frame, is complete, its frame is
/// as long as the payload and four more, and its first `count` payload bytes
/// are those of the payload, for every `count` up to the payload's length.
pub proof fn lemma_unframed_framed(start: u8, end: u8, payload: Seq<u8>, rest: Seq<u8>, count: int)
    requires
        payload.len() <= 255,
        0 <= count <= payload.len(),
    ensures
        is_complete(framed(start, end, payload) + rest),
        frame_len(framed(start, end, payload) + rest) == payload.len() + OVERHEAD,
        unframed(start, end, framed(start, end, payload) + rest, count) == Ok::<
            Seq<u8>,
            DecodeError,
        >(payload.subrange(0, count)),
{
    let buffer = framed(start, end, payload) + rest;
    let n = payload.len() as int;
    assert(buffer[1] == n);
    assert(buffer.subrange(2, n + 2) =~= payload);
    assert(buffer.subrange(2, 2 + count) =~= payload.subrange(0, count));
}

/// A payload shorter than `count` bytes cannot be read to `count` bytes: the
/// frame is sound, so the fault is `Truncated`.
pub proof fn lemma_unframed_short(start: u8, end: u8, payload: Seq<u8>, rest: Seq<u8>, count: int)
    requires
        payload.len() <= 255,
        payload.len() < count,
    ensures
        unframed(start, end, framed(start, end, payload) + rest, count) == Err::<
            Seq<u8>,
            DecodeError,
        >(DecodeError::Truncated),
{
    let buffer = framed(start, end, payload) + rest;
    let n = payload.len() as int;
    assert(buffer[1] == n);
    assert(buffer.subrange(2, n + 2) =~= payload);
}

} // verus!
