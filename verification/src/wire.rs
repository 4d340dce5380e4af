//! The mathematical model of the wire format: big-endian integers,
//! null-terminated strings and tagged, length-prefixed frames.

use vstd::prelude::*;

verus! {

/// The unsigned 32-bit value with the same bit pattern as `v`.
pub open spec fn twos_complement(v: i32) -> int {
    if v < 0 {
        v + 0x1_0000_0000
    } else {
        v as int
    }
}

/// The four bytes of `v` in big-endian (network) order.
pub open spec fn be_i32(v: i32) -> Seq<u8> {
    let u = twos_complement(v);
    seq![
        (u / 0x100_0000) as u8,
        ((u / 0x1_0000) % 0x100) as u8,
        ((u / 0x100) % 0x100) as u8,
        (u % 0x100) as u8,
    ]
}

/// The signed 32-bit integer whose big-endian bytes are the four bytes of
/// `bytes` starting at index `at`.
pub open spec fn i32_at(bytes: Seq<u8>, at: int) -> int
    recommends
        0 <= at,
        at + 4 <= bytes.len(),
{
    let u = bytes[at] * 0x100_0000 + bytes[at + 1] * 0x1_0000 + bytes[at + 2] * 0x100 + bytes[at
        + 3];
    if u >= 0x8000_0000 {
        u - 0x1_0000_0000
    } else {
        u
    }
}

/// `text` followed by its null terminator.
pub open spec fn cstr(text: Seq<u8>) -> Seq<u8> {
    text.push(0u8)
}

/// A tagged frame: the tag byte, the length field, the payload.  The length
/// field counts itself and the payload, not the tag.
pub open spec fn tagged_frame(tag: u8, payload: Seq<u8>) -> Seq<u8> {
    seq![tag] + be_i32((payload.len() + 4) as i32) + payload
}

/// The value of the length field of the frame that `stream` starts with.
pub open spec fn frame_length(stream: Seq<u8>) -> int
    recommends
        stream.len() >= 5,
{
    i32_at(stream, 1)
}

/// Whether `stream` starts with a whole frame: a tag, a length field of at
/// least 4, and all the payload bytes that the length field announces.
pub open spec fn starts_with_frame(stream: Seq<u8>) -> bool {
    &&& stream.len() >= 5
    &&& frame_length(stream) >= 4
    &&& stream.len() >= frame_length(stream) + 1
}

/// Decoding undoes encoding: the integer read back from the big-endian
/// bytes of `v` is `v`.
pub proof fn lemma_be_i32_decodes(v: i32)
    ensures
        be_i32(v).len() == 4,
        i32_at(be_i32(v), 0) == v,
{
}

/// The big-endian bytes of the integer whose bit pattern is
/// `b0 b1 b2 b3` are those four bytes.
pub proof fn lemma_be_i32_of_bytes(v: i32, b0: u8, b1: u8, b2: u8, b3: u8)
    requires
        twos_complement(v) == b0 * 0x100_0000 + b1 * 0x1_0000 + b2 * 0x100 + b3,
    ensures
        be_i32(v) == seq![b0, b1, b2, b3],
{
    let u = twos_complement(v);
    assert(u / 0x100_0000 == b0);
    assert(u / 0x1_0000 == b0 * 0x100 + b1);
    assert(u / 0x100 == b0 * 0x1_0000 + b1 * 0x100 + b2);
    assert(be_i32(v) =~= seq![b0, b1, b2, b3]);
}

/// Reads the big-endian signed 32-bit integer stored at `bytes[at..at + 4]`.
pub fn read_i32(bytes: &[u8], at: usize) -> (value: i32)
    requires
        at + 4 <= bytes@.len(),
    ensures
        value == i32_at(bytes@, at as int),
        be_i32(value) == bytes@.subrange(at as int, at + 4),
{
    let b0: u8 = bytes[at];
    let b1: u8 = bytes[at + 1];
    let b2: u8 = bytes[at + 2];
    let b3: u8 = bytes[at + 3];
    let high: i32 = if b0 >= 128 {
        b0 as i32 - 256
    } else {
        b0 as i32
    };
    let value: i32 = high * 0x100_0000 + b1 as i32 * 0x1_0000 + b2 as i32 * 0x100 + b3 as i32;
    proof {
        lemma_be_i32_of_bytes(value, b0, b1, b2, b3);
    }
    value
}

/// The frame that `stream` starts with: as many bytes as its tag and its
/// length field account for.
pub open spec fn first_frame(stream: Seq<u8>) -> Seq<u8>
    recommends
        starts_with_frame(stream),
{
    stream.take(frame_length(stream) + 1)
}

/// The first frame of a stream is its tag, its length field and a payload
/// four bytes shorter than the length field says.
pub proof fn lemma_first_frame_shape(stream: Seq<u8>)
    requires
        starts_with_frame(stream),
    ensures
        first_frame(stream).len() == frame_length(stream) + 1,
        first_frame(stream) == tagged_frame(
            stream[0],
            stream.subrange(5, frame_length(stream) + 1),
        ),
        stream.subrange(5, frame_length(stream) + 1).len() == frame_length(stream) - 4,
{
    let n = frame_length(stream);
    lemma_be_i32_of_bytes(n as i32, stream[1], stream[2], stream[3], stream[4]);
}

/// A tagged frame, whatever follows it, is read back whole: the stream
/// starts with a frame, and that frame is the one that was written.
pub proof fn lemma_frame_roundtrip(tag: u8, payload: Seq<u8>, rest: Seq<u8>)
    requires
        payload.len() + 4 <= i32::MAX,
    ensures
        starts_with_frame(tagged_frame(tag, payload) + rest),
        frame_length(tagged_frame(tag, payload) + rest) == payload.len() + 4,
        first_frame(tagged_frame(tag, payload) + rest) == tagged_frame(tag, payload),
        (tagged_frame(tag, payload) + rest).skip(payload.len() as int + 5) == rest,
{
    let length = (payload.len() + 4) as i32;
    let frame = tagged_frame(tag, payload);
    let stream = frame + rest;
    lemma_be_i32_decodes(length);
    assert forall|i: int| 0 <= i < 4 implies stream[1 + i] == be_i32(length)[i] by {
        assert(stream[1 + i] == frame[1 + i]);
    }
}

} // verus!
