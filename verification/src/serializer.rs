//! HTTP/2 on the wire, written: frame headers.

use crate::parser::{FrameHeader, FrameType, FRAME_HEADER_LEN};
use vstd::arithmetic::div_mod::{
    lemma_div_denominator, lemma_fundamental_div_mod, lemma_fundamental_div_mod_converse,
};
use vstd::prelude::*;

verus! {

/// Why nothing was written.
#[derive(Clone, Copy, Debug, PartialEq, Eq, Structural)]
pub enum GenError {
    /// The buffer is shorter than what is to be written.
    BufferTooSmall,
}

/// The number of a frame type on the wire.
pub open spec fn frame_type_code(frame_type: FrameType) -> u8 {
    match frame_type {
        FrameType::Data => 0,
        FrameType::Headers => 1,
        FrameType::Priority => 2,
        FrameType::RstStream => 3,
        FrameType::Settings => 4,
        FrameType::PushPromise => 5,
        FrameType::Ping => 6,
        FrameType::GoAway => 7,
        FrameType::WindowUpdate => 8,
        FrameType::Continuation => 9,
    }
}

/// The nine bytes of a frame header: the low 24 bits of the length of the payload, the type, the
/// flags, and the low 31 bits of the stream behind a reserved bit that is 0.
pub open spec fn frame_header_bytes(frame: FrameHeader) -> Seq<u8> {
    seq![
        (frame.payload_len / 0x1_0000 % 0x100) as u8,
        (frame.payload_len / 0x100 % 0x100) as u8,
        (frame.payload_len % 0x100) as u8,
        frame_type_code(frame.frame_type),
        frame.flags,
        (frame.stream_id / 0x100_0000 % 0x80) as u8,
        (frame.stream_id / 0x1_0000 % 0x100) as u8,
        (frame.stream_id / 0x100 % 0x100) as u8,
        (frame.stream_id % 0x100) as u8,
    ]
}

/// The number of a frame type on the wire.
pub fn serialize_frame_type(frame_type: &FrameType) -> (code: u8)
    ensures
        code == frame_type_code(*frame_type),
{
    match frame_type {
        FrameType::Data => 0,
        FrameType::Headers => 1,
        FrameType::Priority => 2,
        FrameType::RstStream => 3,
        FrameType::Settings => 4,
        FrameType::PushPromise => 5,
        FrameType::Ping => 6,
        FrameType::GoAway => 7,
        FrameType::WindowUpdate => 8,
        FrameType::Continuation => 9,
    }
}

/// Writes a frame header to the front of `buf` and returns how many bytes that took.
pub fn gen_frame_header(buf: &mut [u8], frame: &FrameHeader) -> (size: Result<usize, GenError>)
    ensures
        match size {
            Ok(size) => {
                &&& old(buf)@.len() >= 9
                &&& size == 9
                &&& final(buf)@ == frame_header_bytes(*frame) + old(buf)@.skip(9)
            },
            Err(GenError::BufferTooSmall) => old(buf)@.len() < 9 && final(buf)@ == old(buf)@,
        },
{
    if buf.len() < FRAME_HEADER_LEN {
        return Err(GenError::BufferTooSmall);
    }
    buf[0] = (frame.payload_len / 0x1_0000 % 0x100) as u8;
    buf[1] = (frame.payload_len / 0x100 % 0x100) as u8;
    buf[2] = (frame.payload_len % 0x100) as u8;
    buf[3] = serialize_frame_type(&frame.frame_type);
    buf[4] = frame.flags;
    buf[5] = (frame.stream_id / 0x100_0000 % 0x80) as u8;
    buf[6] = (frame.stream_id / 0x1_0000 % 0x100) as u8;
    buf[7] = (frame.stream_id / 0x100 % 0x100) as u8;
    buf[8] = (frame.stream_id % 0x100) as u8;
    assert(buf@ =~= frame_header_bytes(*frame) + old(buf)@.skip(9));
    Ok(FRAME_HEADER_LEN)
}

/// A frame header that fits its fields is read back from the bytes it is written as.
pub proof fn law_frame_header_read_back(frame: FrameHeader, rest: Seq<u8>)
    requires
        frame.payload_len < 0x100_0000,
        frame.stream_id < 0x8000_0000,
    ensures
        crate::parser::frame_header_of(frame_header_bytes(frame) + rest) == Some(frame),
{
    let bytes = frame_header_bytes(frame) + rest;
    lemma_from_digits(frame.payload_len);
    lemma_from_digits(frame.stream_id);
    assert(crate::parser::big_endian(bytes, 0, 3) == bytes[0] * 0x1_0000 + bytes[1] * 0x100
        + bytes[2]) by {
        reveal_with_fuel(crate::parser::big_endian, 4);
    }
    assert(crate::parser::big_endian(bytes, 5, 4) == bytes[5] * 0x100_0000 + bytes[6] * 0x1_0000
        + bytes[7] * 0x100 + bytes[8]) by {
        reveal_with_fuel(crate::parser::big_endian, 5);
    }
}

/// The first nine bytes that a frame header is read from are those it is written as, if their
/// reserved bit is 0.
pub proof fn law_frame_header_written_back(bytes: Seq<u8>, read: FrameHeader)
    requires
        crate::parser::frame_header_of(bytes) == Some(read),
        bytes[5] < 0x80,
    ensures
        frame_header_bytes(read) == bytes.take(9),
{
    assert(crate::parser::big_endian(bytes, 0, 3) == bytes[0] * 0x1_0000 + bytes[1] * 0x100
        + bytes[2]) by {
        reveal_with_fuel(crate::parser::big_endian, 4);
    }
    assert(crate::parser::big_endian(bytes, 5, 4) == bytes[5] * 0x100_0000 + bytes[6] * 0x1_0000
        + bytes[7] * 0x100 + bytes[8]) by {
        reveal_with_fuel(crate::parser::big_endian, 5);
    }
    lemma_digits(bytes[0], bytes[1], bytes[2], 0);
    lemma_digits(bytes[6], bytes[7], bytes[8], bytes[5]);
    assert(frame_header_bytes(read) =~= bytes.take(9));
}

/// The bytes of a number are its digits to the base of 256.
proof fn lemma_digits(a: u8, b: u8, c: u8, top: u8)
    ensures
        ({
            let number = top * 0x100_0000 + a * 0x1_0000 + b * 0x100 + c;
            &&& number / 0x100_0000 == top
            &&& number / 0x1_0000 % 0x100 == a
            &&& number / 0x100 % 0x100 == b
            &&& number % 0x100 == c
        }),
{
    let number = top * 0x100_0000 + a * 0x1_0000 + b * 0x100 + c;
    let high = top * 0x100 + a;
    let middle = high * 0x100 + b;
    lemma_fundamental_div_mod_converse(number, 0x100, middle, c as int);
    lemma_fundamental_div_mod_converse(middle, 0x100, high, b as int);
    lemma_fundamental_div_mod_converse(number, 0x1_0000, high, b * 0x100 + c);
    lemma_fundamental_div_mod_converse(high, 0x100, top as int, a as int);
    lemma_fundamental_div_mod_converse(number, 0x100_0000, top as int, a * 0x1_0000 + b * 0x100 + c);
}

/// A number of up to four bytes is made of its digits to the base of 256.
proof fn lemma_from_digits(number: u32)
    ensures
        number == number / 0x100_0000 * 0x100_0000 + number / 0x1_0000 % 0x100 * 0x1_0000 + number
            / 0x100 % 0x100 * 0x100 + number % 0x100,
        number / 0x100_0000 < 0x100,
{
    let x = number as int;
    lemma_fundamental_div_mod(x, 0x100);
    lemma_fundamental_div_mod(x / 0x100, 0x100);
    lemma_fundamental_div_mod(x / 0x1_0000, 0x100);
    lemma_div_denominator(x, 0x100, 0x100);
    lemma_div_denominator(x, 0x1_0000, 0x100);
}

/// A frame header is written as nine bytes, of the payload length only the lowest 24 bits and of the
/// stream only the lowest 31.
pub proof fn law_frame_header_cut_to_fields(frame: FrameHeader)
    ensures
        frame_header_bytes(frame).len() == 9,
        frame_header_bytes(frame) == frame_header_bytes(
            FrameHeader {
                payload_len: frame.payload_len % 0x100_0000,
                stream_id: frame.stream_id % 0x8000_0000,
                ..frame
            },
        ),
{
    let len = frame.payload_len;
    let id = frame.stream_id;
    assert(len % 0x100_0000 / 0x1_0000 % 0x100 == len / 0x1_0000 % 0x100) by (bit_vector);
    assert(len % 0x100_0000 / 0x100 % 0x100 == len / 0x100 % 0x100) by (bit_vector);
    assert(len % 0x100_0000 % 0x100 == len % 0x100) by (bit_vector);
    assert(id % 0x8000_0000 / 0x100_0000 % 0x80 == id / 0x100_0000 % 0x80) by (bit_vector);
    assert(id % 0x8000_0000 / 0x1_0000 % 0x100 == id / 0x1_0000 % 0x100) by (bit_vector);
    assert(id % 0x8000_0000 / 0x100 % 0x100 == id / 0x100 % 0x100) by (bit_vector);
    assert(id % 0x8000_0000 % 0x100 == id % 0x100) by (bit_vector);
}

} // verus!
