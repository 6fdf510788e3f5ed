use mux::parser::{
    convert_frame_type, frame_header, opening, preface, settings_frame, FrameHeader, FrameType,
    ParseError, Setting,
};
use mux::ready::{Readiness, Ready};
use mux::serializer::{gen_frame_header, serialize_frame_type, GenError};

const PREFACE: &[u8] = b"PRI * HTTP/2.0\r\n\r\nSM\r\n\r\n";

fn settings(payload_len: u32, flags: u8) -> FrameHeader {
    FrameHeader { payload_len, frame_type: FrameType::Settings, flags, stream_id: 0 }
}

#[test]
fn events_are_inserted_and_removed() {
    let mut ready = Ready(0);
    ready.insert(Ready::READABLE | Ready::HUP);
    assert!(ready.is_readable() && ready.is_hup());
    assert!(!ready.is_writable() && !ready.is_error());
    ready.remove(Ready::READABLE);
    assert!(!ready.is_readable() && ready.is_hup());
    assert_eq!(ready, Ready(0b1000));
    assert!(ready.contains(0));
    assert!(!ready.contains(Ready::HUP | Ready::ERROR));
}

#[test]
fn interest_filters_events() {
    let readiness = Readiness { event: Ready(0b0111), interest: Ready(0b1010) };
    let events = readiness.filter_interest();
    assert_eq!(events, Ready(0b0010));
    assert!(events.is_writable() && !events.is_readable() && !events.is_error());
}

#[test]
fn preface_is_taken_off() {
    let mut input = PREFACE.to_vec();
    input.extend_from_slice(b"rest");
    assert_eq!(preface(&input), Ok(&b"rest"[..]));
    assert_eq!(preface(PREFACE), Ok(&b""[..]));
    assert_eq!(preface(&PREFACE[..23]), Err(ParseError::Incomplete));
    input[20] = b'x';
    assert_eq!(preface(&input), Err(ParseError::Preface));
}

#[test]
fn frame_header_is_read() {
    let bytes = [0x01, 0x02, 0x03, 0x01, 0x25, 0x80, 0x00, 0x01, 0x02];
    assert_eq!(
        frame_header(&bytes),
        Ok(FrameHeader {
            payload_len: 0x010203,
            frame_type: FrameType::Headers,
            flags: 0x25,
            stream_id: 0x0102,
        })
    );
    assert_eq!(frame_header(&bytes[..8]), Err(ParseError::Incomplete));
    assert_eq!(
        frame_header(&[0, 0, 0, 10, 0, 0, 0, 0, 0]),
        Err(ParseError::FrameType)
    );
}

#[test]
fn frame_types_have_numbers() {
    for code in 0..=9u8 {
        let frame_type = convert_frame_type(code).unwrap();
        assert_eq!(serialize_frame_type(&frame_type), code);
    }
    assert_eq!(convert_frame_type(4), Some(FrameType::Settings));
    assert_eq!(convert_frame_type(10), None);
    assert_eq!(convert_frame_type(255), None);
}

#[test]
fn settings_are_read() {
    let payload = [0, 3, 0, 0, 0, 100, 0, 4, 0, 1, 0, 0, 9];
    assert_eq!(
        settings_frame(&payload, &settings(12, 0)),
        Ok(vec![
            Setting { identifier: 3, value: 100 },
            Setting { identifier: 4, value: 65536 },
        ])
    );
    assert_eq!(settings_frame(&payload, &settings(0, 0)), Ok(vec![]));
    assert_eq!(settings_frame(&payload, &settings(18, 0)), Err(ParseError::Incomplete));
    assert_eq!(settings_frame(&payload, &settings(7, 0)), Err(ParseError::FrameSize));
}

#[test]
fn opening_is_preface_and_settings() {
    let mut input = PREFACE.to_vec();
    input.extend_from_slice(&[0, 0, 12, 4, 0, 0, 0, 0, 0]);
    assert_eq!(opening(&input), Some(settings(12, 0)));
    input[28] = 1;
    assert_eq!(opening(&input), None);
    input[28] = 0;
    input[32] = 1;
    assert_eq!(opening(&input), None);
    input[32] = 0;
    input[27] = 6;
    assert_eq!(opening(&input), None);
    input[27] = 4;
    input[0] = b'Q';
    assert_eq!(opening(&input), None);
    assert_eq!(opening(PREFACE), None);
}

#[test]
fn frame_header_is_written() {
    let mut buffer = [0xffu8; 11];
    let header = FrameHeader {
        payload_len: 0x010203,
        frame_type: FrameType::Continuation,
        flags: 4,
        stream_id: 0x7f000102,
    };
    assert_eq!(gen_frame_header(&mut buffer, &header), Ok(9));
    assert_eq!(buffer, [1, 2, 3, 9, 4, 0x7f, 0, 1, 2, 0xff, 0xff]);
    assert_eq!(frame_header(&buffer), Ok(header));
}

#[test]
fn frame_header_needs_room() {
    let mut buffer = [7u8; 8];
    assert_eq!(
        gen_frame_header(&mut buffer, &settings(0, 1)),
        Err(GenError::BufferTooSmall)
    );
    assert_eq!(buffer, [7u8; 8]);
}
