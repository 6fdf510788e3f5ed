//! HTTP/2 on the wire, read: the client preface, frame headers and settings frames.

use crate::serializer::{frame_header_bytes, law_frame_header_read_back};
use vstd::arithmetic::div_mod::{lemma_fundamental_div_mod, lemma_fundamental_div_mod_converse};
use vstd::prelude::*;

verus! {

/// The length of the client preface.
pub const PREFACE_LEN: usize = 24;

/// The length of a frame header.
pub const FRAME_HEADER_LEN: usize = 9;

/// The length of one setting.
pub const SETTING_LEN: usize = 6;

/// What a client opens an HTTP/2 connection with: `PRI * HTTP/2.0\r\n\r\nSM\r\n\r\n`.
pub open spec fn client_preface() -> Seq<u8> {
    seq![
        0x50u8, 0x52u8, 0x49u8, 0x20u8, 0x2au8, 0x20u8,
        0x48u8, 0x54u8, 0x54u8, 0x50u8, 0x2fu8, 0x32u8,
        0x2eu8, 0x30u8, 0x0du8, 0x0au8, 0x0du8, 0x0au8,
        0x53u8, 0x4du8, 0x0du8, 0x0au8, 0x0du8, 0x0au8,
    ]
}

/// The frame types.
#[derive(Clone, Copy, Debug, PartialEq, Eq, Structural)]
pub enum FrameType {
    Data,
    Headers,
    Priority,
    RstStream,
    Settings,
    PushPromise,
    Ping,
    GoAway,
    WindowUpdate,
    Continuation,
}

/// The header of a frame.
#[derive(Clone, Copy, Debug, PartialEq, Eq, Structural)]
pub struct FrameHeader {
    pub payload_len: u32,
    pub frame_type: FrameType,
    pub flags: u8,
    pub stream_id: u32,
}

/// One setting of a settings frame.
#[derive(Clone, Copy, Debug, PartialEq, Eq, Structural)]
pub struct Setting {
    pub identifier: u16,
    pub value: u32,
}

/// Why bytes were not taken for what they should be.
#[derive(Clone, Copy, Debug, PartialEq, Eq, Structural)]
pub enum ParseError {
    /// There are fewer bytes than it takes.
    Incomplete,
    /// The bytes are not those of the client preface.
    Preface,
    /// No frame type has that number.
    FrameType,
    /// The payload of a settings frame is not made of whole settings.
    FrameSize,
}

/// The number that `len` bytes from `at` make, the most significant first.
pub open spec fn big_endian(bytes: Seq<u8>, at: int, len: nat) -> nat
    decreases len,
{
    if len == 0 {
        0
    } else {
        256 * big_endian(bytes, at, (len - 1) as nat) + bytes[at + len - 1] as nat
    }
}

/// The frame type that has the number `code`.
pub open spec fn frame_type_of(code: u8) -> Option<FrameType> {
    match code {
        0 => Some(FrameType::Data),
        1 => Some(FrameType::Headers),
        2 => Some(FrameType::Priority),
        3 => Some(FrameType::RstStream),
        4 => Some(FrameType::Settings),
        5 => Some(FrameType::PushPromise),
        6 => Some(FrameType::Ping),
        7 => Some(FrameType::GoAway),
        8 => Some(FrameType::WindowUpdate),
        9 => Some(FrameType::Continuation),
        _ => None,
    }
}

/// The frame header that the first nine bytes make: the length of the payload in three bytes, the
/// type and the flags in one each, and the stream in four, without their topmost bit, which is
/// reserved. Bytes of an unknown type make none.
pub open spec fn frame_header_of(bytes: Seq<u8>) -> Option<FrameHeader> {
    match frame_type_of(bytes[3]) {
        Some(frame_type) if bytes.len() >= 9 => Some(
            FrameHeader {
                payload_len: big_endian(bytes, 0, 3) as u32,
                frame_type,
                flags: bytes[4],
                stream_id: (big_endian(bytes, 5, 4) % 0x8000_0000) as u32,
            },
        ),
        _ => None,
    }
}

/// The header is that of a settings frame that is no acknowledgement, on the connection itself.
pub open spec fn is_settings(header: FrameHeader) -> bool {
    header.frame_type is Settings && header.flags == 0 && header.stream_id == 0
}

/// The header of the settings frame that follows the client preface. Bytes that do not start with
/// the preface and such a header make none.
pub open spec fn opening_of(bytes: Seq<u8>) -> Option<FrameHeader> {
    match frame_header_of(bytes.skip(24)) {
        Some(header) if client_preface().is_prefix_of(bytes) && is_settings(header) => Some(header),
        _ => None,
    }
}

/// The setting that six bytes from `at` make.
pub open spec fn setting_at(bytes: Seq<u8>, at: int) -> Setting {
    Setting {
        identifier: big_endian(bytes, at, 2) as u16,
        value: big_endian(bytes, at + 2, 4) as u32,
    }
}

/// The payload that `header` announces is there, and is made of whole settings.
pub open spec fn settings_complete(bytes: Seq<u8>, header: FrameHeader) -> bool {
    header.payload_len <= bytes.len() && header.payload_len % 6 == 0
}

/// The settings that the first `len` bytes are made of.
pub open spec fn settings_of(bytes: Seq<u8>, len: nat) -> Seq<Setting> {
    Seq::new(len / 6, |i: int| setting_at(bytes, 6 * i))
}

fn be_u16(bytes: &[u8], at: usize) -> (number: u16)
    requires
        at + 2 <= bytes.len(),
    ensures
        number == big_endian(bytes@, at as int, 2),
{
    proof {
        reveal_with_fuel(big_endian, 3);
    }
    bytes[at] as u16 * 0x100 + bytes[at + 1] as u16
}

fn be_u24(bytes: &[u8], at: usize) -> (number: u32)
    requires
        at + 3 <= bytes.len(),
    ensures
        number == big_endian(bytes@, at as int, 3),
        number < 0x100_0000,
{
    proof {
        reveal_with_fuel(big_endian, 4);
    }
    bytes[at] as u32 * 0x1_0000 + bytes[at + 1] as u32 * 0x100 + bytes[at + 2] as u32
}

fn be_u32(bytes: &[u8], at: usize) -> (number: u32)
    requires
        at + 4 <= bytes.len(),
    ensures
        number == big_endian(bytes@, at as int, 4),
{
    proof {
        reveal_with_fuel(big_endian, 5);
    }
    bytes[at] as u32 * 0x100_0000 + bytes[at + 1] as u32 * 0x1_0000 + bytes[at + 2] as u32 * 0x100
        + bytes[at + 3] as u32
}

/// The frame type that has the number `code`.
pub fn convert_frame_type(code: u8) -> (frame_type: Option<FrameType>)
    ensures
        frame_type == frame_type_of(code),
{
    match code {
        0 => Some(FrameType::Data),
        1 => Some(FrameType::Headers),
        2 => Some(FrameType::Priority),
        3 => Some(FrameType::RstStream),
        4 => Some(FrameType::Settings),
        5 => Some(FrameType::PushPromise),
        6 => Some(FrameType::Ping),
        7 => Some(FrameType::GoAway),
        8 => Some(FrameType::WindowUpdate),
        9 => Some(FrameType::Continuation),
        _ => None,
    }
}

/// Takes the client preface off the front of `input` and returns what follows.
pub fn preface(input: &[u8]) -> (rest: Result<&[u8], ParseError>)
    ensures
        match rest {
            Ok(rest) => client_preface().is_prefix_of(input@) && rest@ == input@.skip(24),
            Err(ParseError::Incomplete) => input@.len() < 24,
            Err(ParseError::Preface) => input@.len() >= 24 && !client_preface().is_prefix_of(
                input@,
            ),
            Err(_) => false,
        },
{
    if input.len() < PREFACE_LEN {
        return Err(ParseError::Incomplete);
    }
    let expected: [u8; 24] = [
        0x50, 0x52, 0x49, 0x20, 0x2a, 0x20,
        0x48, 0x54, 0x54, 0x50, 0x2f, 0x32,
        0x2e, 0x30, 0x0d, 0x0a, 0x0d, 0x0a,
        0x53, 0x4d, 0x0d, 0x0a, 0x0d, 0x0a,
    ];
    assert(expected@ =~= client_preface());
    let mut at: usize = 0;
    while at < PREFACE_LEN
        invariant
            at <= 24,
            expected@ == client_preface(),
            client_preface().len() == 24,
            input@.len() >= 24,
            forall|i: int| 0 <= i < at ==> input@[i] == client_preface()[i],
        decreases PREFACE_LEN - at,
    {
        if input[at] != expected[at] {
            assert(input@[at as int] != client_preface()[at as int]);
            return Err(ParseError::Preface);
        }
        at = at + 1;
    }
    let (_, rest) = input.split_at(PREFACE_LEN);
    Ok(rest)
}

/// Reads a frame header off the front of `input`.
pub fn frame_header(input: &[u8]) -> (header: Result<FrameHeader, ParseError>)
    ensures
        match header {
            Ok(header) => frame_header_of(input@) == Some(header),
            Err(ParseError::Incomplete) => input@.len() < 9,
            Err(ParseError::FrameType) => input@.len() >= 9 && frame_type_of(input@[3]) is None,
            Err(_) => false,
        },
{
    if input.len() < FRAME_HEADER_LEN {
        return Err(ParseError::Incomplete);
    }
    match convert_frame_type(input[3]) {
        Some(frame_type) => Ok(
            FrameHeader {
                payload_len: be_u24(input, 0),
                frame_type,
                flags: input[4],
                stream_id: be_u32(input, 5) % 0x8000_0000,
            },
        ),
        None => Err(ParseError::FrameType),
    }
}

/// Reads the settings of the frame with the header `header`, whose payload is at the front of
/// `input`.
pub fn settings_frame(input: &[u8], header: &FrameHeader) -> (settings: Result<
    Vec<Setting>,
    ParseError,
>)
    ensures
        match settings {
            Ok(settings) => {
                &&& settings_complete(input@, *header)
                &&& settings@ == settings_of(input@, header.payload_len as nat)
            },
            Err(ParseError::Incomplete) => header.payload_len > input@.len(),
            Err(ParseError::FrameSize) => header.payload_len <= input@.len() && header.payload_len
                % 6 != 0,
            Err(_) => false,
        },
{
    if header.payload_len as u64 > input.len() as u64 {
        return Err(ParseError::Incomplete);
    }
    if header.payload_len % 6 != 0 {
        return Err(ParseError::FrameSize);
    }
    let len: usize = header.payload_len as usize;
    let mut settings: Vec<Setting> = Vec::new();
    let mut at: usize = 0;
    while at < len
        invariant
            len == header.payload_len,
            len % 6 == 0,
            len <= input@.len(),
            at <= len,
            at == 6 * settings@.len(),
            forall|i: int|
                0 <= i < settings@.len() ==> settings@[i] == #[trigger] setting_at(input@, 6 * i),
        decreases len - at,
    {
        settings.push(Setting { identifier: be_u16(input, at), value: be_u32(input, at + 2) });
        at = at + SETTING_LEN;
    }
    assert(settings@ =~= settings_of(input@, header.payload_len as nat));
    Ok(settings)
}

/// Reads the client preface and the header of the settings frame that follows it.
pub fn opening(input: &[u8]) -> (header: Option<FrameHeader>)
    ensures
        header == opening_of(input@),
{
    match preface(input) {
        Ok(rest) => match frame_header(rest) {
            Ok(header) => match header.frame_type {
                FrameType::Settings if header.flags == 0 && header.stream_id == 0 => Some(header),
                _ => None,
            },
            Err(_) => None,
        },
        Err(_) => None,
    }
}

/// The frame types in the order of their numbers, from 0 on.
pub open spec fn numbered_frame_types() -> Seq<FrameType> {
    seq![
        FrameType::Data,
        FrameType::Headers,
        FrameType::Priority,
        FrameType::RstStream,
        FrameType::Settings,
        FrameType::PushPromise,
        FrameType::Ping,
        FrameType::GoAway,
        FrameType::WindowUpdate,
        FrameType::Continuation,
    ]
}

/// What a client opens with, as text.
pub proof fn law_preface_text()
    ensures
        client_preface() == "PRI * HTTP/2.0\r\n\r\nSM\r\n\r\n"@.map_values(|c: char| c as u8),
{
    reveal_strlit("PRI * HTTP/2.0\r\n\r\nSM\r\n\r\n");
    assert(client_preface() =~= "PRI * HTTP/2.0\r\n\r\nSM\r\n\r\n"@.map_values(|c: char| c as u8));
}

/// The numbers below 10 are those of the frame types, in order; no other number is one.
pub proof fn law_frame_types_are_numbered(code: u8)
    ensures
        code < 10 ==> frame_type_of(code) == Some(numbered_frame_types()[code as int]),
        code >= 10 ==> frame_type_of(code) is None,
{
}

/// Nine bytes or more make a frame header exactly if the fourth is the number of a frame type. Each
/// field is then that of its own bytes, the most significant first: three for the length of the
/// payload, one for the type, one for the flags, and four for the stream, of which the topmost bit
/// does not count. Fewer bytes make none.
pub proof fn law_frame_header_fields(bytes: Seq<u8>)
    ensures
        frame_header_of(bytes) is Some <==> bytes.len() >= 9 && bytes[3] < 10,
        frame_header_of(bytes) matches Some(header) ==> {
            &&& header.payload_len == bytes[0] * 0x1_0000 + bytes[1] * 0x100 + bytes[2]
            &&& header.frame_type == numbered_frame_types()[bytes[3] as int]
            &&& header.flags == bytes[4]
            &&& header.stream_id == bytes[5] % 128 * 0x100_0000 + bytes[6] * 0x1_0000 + bytes[7]
                * 0x100 + bytes[8]
        },
{
    if bytes.len() >= 9 {
        law_frame_types_are_numbered(bytes[3]);
        reveal_with_fuel(big_endian, 5);
        let low = bytes[6] * 0x1_0000 + bytes[7] * 0x100 + bytes[8];
        let top = bytes[5] as int;
        assert(big_endian(bytes, 0, 3) == bytes[0] * 0x1_0000 + bytes[1] * 0x100 + bytes[2]);
        assert(big_endian(bytes, 5, 4) == top * 0x100_0000 + low);
        lemma_fundamental_div_mod(top, 128);
        lemma_fundamental_div_mod_converse(
            top * 0x100_0000 + low,
            0x8000_0000,
            top / 128,
            top % 128 * 0x100_0000 + low,
        );
    }
}

/// Bytes open a connection exactly if they start with the preface and the header of a settings frame
/// without flags on stream 0, however long its payload is: after the preface come the three bytes of
/// that length, then 4, 0 and the stream.
pub proof fn law_opening_fields(bytes: Seq<u8>)
    ensures
        opening_of(bytes) is Some <==> {
            &&& bytes.len() >= 33
            &&& bytes.take(24) == client_preface()
            &&& bytes[27] == 4 && bytes[28] == 0
            &&& bytes[29] % 128 == 0 && bytes[30] == 0 && bytes[31] == 0 && bytes[32] == 0
        },
        opening_of(bytes) matches Some(header) ==> header == (FrameHeader {
            payload_len: (bytes[24] * 0x1_0000 + bytes[25] * 0x100 + bytes[26]) as u32,
            frame_type: FrameType::Settings,
            flags: 0,
            stream_id: 0,
        }),
{
    if bytes.len() >= 33 {
        law_frame_header_fields(bytes.skip(24));
        if client_preface().is_prefix_of(bytes) {
            assert(bytes.take(24) =~= client_preface());
        }
        if bytes.take(24) == client_preface() {
            assert forall|i: int| 0 <= i < 24 implies client_preface()[i] == bytes[i] by {
                assert(bytes.take(24)[i] == bytes[i]);
            }
            assert(client_preface().is_prefix_of(bytes));
        }
    } else if bytes.len() >= 24 {
        law_frame_header_fields(bytes.skip(24));
    }
}

/// The preface followed by the nine bytes of any settings header without flags on stream 0 opens a
/// connection with exactly that header, whatever comes after.
pub proof fn law_every_settings_header_opens(header: FrameHeader, rest: Seq<u8>)
    requires
        header.frame_type is Settings,
        header.flags == 0,
        header.stream_id == 0,
        header.payload_len < 0x100_0000,
    ensures
        opening_of(client_preface() + frame_header_bytes(header) + rest) == Some(header),
{
    let bytes = client_preface() + frame_header_bytes(header) + rest;
    law_frame_header_read_back(header, rest);
    assert(bytes.skip(24) =~= frame_header_bytes(header) + rest);
    assert(client_preface().is_prefix_of(bytes));
}

/// There are as many settings as whole groups of six bytes, and each is made of its own six: two for
/// the identifier and four for the value, the most significant first.
pub proof fn law_settings_fields(bytes: Seq<u8>, count: nat, at: int)
    requires
        6 * count <= bytes.len(),
    ensures
        settings_of(bytes, 6 * count).len() == count,
        0 <= at < count ==> {
            let setting = settings_of(bytes, 6 * count)[at];
            &&& setting.identifier == bytes[6 * at] * 0x100 + bytes[6 * at + 1]
            &&& setting.value == bytes[6 * at + 2] * 0x100_0000 + bytes[6 * at + 3] * 0x1_0000
                + bytes[6 * at + 4] * 0x100 + bytes[6 * at + 5]
        },
{
    lemma_fundamental_div_mod_converse(6 * count as int, 6, count as int, 0);
    reveal_with_fuel(big_endian, 5);
    if 0 <= at < count {
        assert(big_endian(bytes, 6 * at, 2) == bytes[6 * at] * 0x100 + bytes[6 * at + 1]);
        assert(big_endian(bytes, 6 * at + 2, 4) == bytes[6 * at + 2] * 0x100_0000 + bytes[6 * at
            + 3] * 0x1_0000 + bytes[6 * at + 4] * 0x100 + bytes[6 * at + 5]);
    }
}

/// Settings are complete exactly if they are some number of whole settings and all bytes of them
/// are there.
pub proof fn law_complete_settings(bytes: Seq<u8>, header: FrameHeader)
    ensures
        settings_complete(bytes, header) <==> header.payload_len <= bytes.len() && exists|
            count: nat,
        | header.payload_len == #[trigger] (6 * count),
{
    if header.payload_len % 6 == 0 {
        let count = (header.payload_len / 6) as nat;
        assert(header.payload_len == 6 * count);
    }
}

} // verus!
