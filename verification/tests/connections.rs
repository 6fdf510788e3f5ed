use mux::connection::{ReadAction, ReadEvent, SocketResult, WriteAction, WriteEvent};
use mux::mux::{FrontRustls, Mux};
use mux::parser::{FrameHeader, FrameType, Setting};
use mux::ready::{Readiness, Ready};
use mux::{Connection, ConnectionH1, ConnectionH2, H2State, Position, Stream};
use rusty_ulid::Ulid;
use std::collections::HashMap;

fn readiness() -> Readiness {
    Readiness { event: Ready(0b0011), interest: Ready(0b0011) }
}

fn h1(position: Position, stream: usize) -> Connection<u8> {
    Connection::H1(ConnectionH1 { position, readiness: readiness(), socket: 7, stream })
}

fn h2(position: Position, state: H2State) -> Connection<u8> {
    Connection::H2(ConnectionH2 {
        socket: 7,
        position,
        readiness: readiness(),
        state,
        expected: None,
        streams: HashMap::new(),
    })
}

fn streams<'a>(front: &'a mut [u8], back: &'a mut [u8]) -> Vec<Stream<'a>> {
    let frontend = Connection::H1(ConnectionH1 {
        position: Position::Server,
        readiness: readiness(),
        socket: FrontRustls { stream: 1u8, session: 2u8 },
        stream: 0,
    });
    let mut session = Mux {
        frontend_token: 0,
        frontend,
        backends: HashMap::new(),
        streams: Vec::new(),
        sticky_name: String::new(),
    };
    assert_eq!(session.create_stream(Ulid::from(1u128), Some((Some(front), Some(back)))), Ok(0));
    session.streams
}

fn receive_with(
    connection: &mut Connection<u8>,
    streams: &mut [Stream<'_>],
    bytes: &[u8],
    status: SocketResult,
) {
    let action = connection.try_readable(streams, ReadEvent::Ready);
    assert!(matches!(action, Some(ReadAction::ReadSpace)));
    if let Connection::H1(c) = connection {
        c.read_space(streams)[..bytes.len()].copy_from_slice(bytes);
    }
    let event = ReadEvent::Space { size: bytes.len(), status };
    assert!(matches!(connection.try_readable(streams, event), Some(ReadAction::Done)));
}

fn receive(connection: &mut Connection<u8>, streams: &mut [Stream<'_>], bytes: &[u8]) {
    receive_with(connection, streams, bytes, SocketResult::Continue)
}

const REQUEST: &[u8] = b"GET / HTTP/1.1\r\nHost: a.b\r\nAccept: x\r\n\r\n";

#[test]
fn request_goes_from_server_to_client() {
    let (mut front, mut back) = ([0u8; 256], [0u8; 256]);
    let mut streams = streams(&mut front, &mut back);
    let mut server = h1(Position::Server, 0);
    let mut client = h1(Position::Client, 0);

    receive(&mut server, &mut streams, &REQUEST[..20]);
    assert_eq!(server.readiness().interest, Ready(0b0011));
    assert!(!streams[0].back.is_terminated());
    assert_eq!(streams[0].back.data(), &REQUEST[..20]);
    receive(&mut server, &mut streams, &REQUEST[20..]);
    assert!(streams[0].back.is_terminated());
    assert!(!streams[0].front.is_terminated());
    assert_eq!(server.readiness().interest, Ready(0b0010));
    assert_eq!(server.readiness().event, Ready(0b0011));
    assert_eq!(streams[0].back.data(), REQUEST);
    assert_eq!(streams[0].back.data_len_filled(3), REQUEST.len() + 3);
    assert_eq!(streams[0].back.data_len_filled(1000), 256);

    let action = client.try_writable(&mut streams, WriteEvent::Ready);
    assert_eq!(action, Some(WriteAction::WriteOutgoing));
    let sent = client.outgoing(&streams).unwrap();
    assert_eq!(sent[0], b"GET");
    assert_eq!(sent.concat(), REQUEST);

    let event = WriteEvent::Wrote { size: 10 };
    assert_eq!(client.try_writable(&mut streams, event), Some(WriteAction::Done));
    assert_eq!(client.outgoing(&streams).unwrap().concat(), &REQUEST[10..]);

    let event = WriteEvent::Wrote { size: REQUEST.len() - 10 };
    assert_eq!(client.try_writable(&mut streams, event), Some(WriteAction::Done));
    assert_eq!(client.outgoing(&streams).unwrap().len(), 0);
    assert_eq!(streams[0].back.data(), b"");
    assert_eq!(streams[0].back.available_space(), 256);
    assert_eq!(client.readiness().interest, Ready(0b0011));

    let action = client.try_writable(&mut streams, WriteEvent::Ready);
    assert_eq!(action, Some(WriteAction::Done));
    assert_eq!(client.readiness().interest, Ready(0b0001));
}

#[test]
fn terminated_message_takes_no_more() {
    let (mut front, mut back) = ([0u8; 256], [0u8; 256]);
    let mut streams = streams(&mut front, &mut back);
    let mut client = h1(Position::Client, 0);
    receive(&mut client, &mut streams, REQUEST);
    assert!(streams[0].front.is_terminated());
    receive(&mut client, &mut streams, b"more");
    assert!(streams[0].front.is_terminated());
    assert_eq!(streams[0].front.data_len_filled(0), REQUEST.len() + 4);
    assert_eq!(streams[0].back.data(), b"");
}

#[test]
fn blocked_socket_is_not_readable() {
    let (mut front, mut back) = ([0u8; 64], [0u8; 64]);
    let mut streams = streams(&mut front, &mut back);
    let mut server = h1(Position::Server, 0);
    receive_with(&mut server, &mut streams, b"GET", SocketResult::WouldBlock);
    assert_eq!(server.readiness().event, Ready(0b0010));
    assert_eq!(streams[0].back.data(), b"GET");

    let mut server = h1(Position::Server, 0);
    receive(&mut server, &mut streams, b"");
    assert_eq!(server.readiness().event, Ready(0b0010));
    assert_eq!(server.readiness().interest, Ready(0b0011));
    assert_eq!(streams[0].back.data(), b"GET");
}

#[test]
fn closed_socket_is_not_handled() {
    let (mut front, mut back) = ([0u8; 64], [0u8; 64]);
    let mut streams = streams(&mut front, &mut back);
    let mut server = h1(Position::Server, 0);
    for status in [SocketResult::Closed, SocketResult::Error] {
        let event = ReadEvent::Space { size: 0, status };
        assert!(server.try_readable(&mut streams, event).is_none());
    }
    let event = ReadEvent::Bytes { bytes: b"x", size: 1 };
    assert!(server.try_readable(&mut streams, event).is_none());
    let mut lost = h1(Position::Client, 1);
    assert!(lost.try_readable(&mut streams, ReadEvent::Ready).is_none());
    assert!(lost.try_writable(&mut streams, WriteEvent::Ready).is_none());
    assert!(lost.outgoing(&streams).is_none());
}

#[test]
fn unfinished_headers_cannot_be_sent() {
    let (mut front, mut back) = ([0u8; 64], [0u8; 64]);
    let mut streams = streams(&mut front, &mut back);
    let mut server = h1(Position::Server, 0);
    let mut client = h1(Position::Client, 0);
    receive(&mut server, &mut streams, b"GET / HTTP/1.1\r\nHo");
    let action = client.try_writable(&mut streams, WriteEvent::Ready);
    assert_eq!(action, Some(WriteAction::WriteOutgoing));
    assert!(!streams[0].back.nothing_to_send());
    assert!(!streams[0].back.can_send());
    assert!(client.outgoing(&streams).is_none());
}

#[test]
fn no_more_is_written_than_there_is() {
    let (mut front, mut back) = ([0u8; 64], [0u8; 64]);
    let mut streams = streams(&mut front, &mut back);
    let mut server = h1(Position::Server, 0);
    let mut client = h1(Position::Client, 0);
    receive(&mut server, &mut streams, REQUEST);
    client.try_writable(&mut streams, WriteEvent::Ready);
    assert!(streams[0].back.can_release(REQUEST.len()));
    assert!(!streams[0].back.can_release(REQUEST.len() + 1));
    let event = WriteEvent::Wrote { size: REQUEST.len() + 1 };
    assert!(client.try_writable(&mut streams, event).is_none());
    assert_eq!(client.outgoing(&streams).unwrap().concat(), REQUEST);

    let event = WriteEvent::Wrote { size: 0 };
    assert_eq!(client.try_writable(&mut streams, event), Some(WriteAction::Done));
    assert_eq!(client.readiness().event, Ready(0b0001));
    assert_eq!(client.outgoing(&streams).unwrap().concat(), REQUEST);
}

#[test]
fn data_moves_while_a_body_is_sent() {
    let (mut front, mut back) = ([0u8; 64], [0u8; 64]);
    let mut streams = streams(&mut front, &mut back);
    let mut server = h1(Position::Server, 0);
    let mut client = h1(Position::Client, 0);
    let head = b"PUT / HTTP/1.1\r\nHost: a\r\nContent-Length: 20\r\n\r\n";
    receive(&mut server, &mut streams, head);
    receive(&mut server, &mut streams, b"0123456789");
    client.try_writable(&mut streams, WriteEvent::Ready);
    assert_eq!(streams[0].back.available_space(), 64 - head.len() - 10);
    let all = client.outgoing(&streams).unwrap().concat();
    assert_eq!(&all[all.len() - 10..], b"0123456789");
    let event = WriteEvent::Wrote { size: all.len() - 6 };
    assert_eq!(client.try_writable(&mut streams, event), Some(WriteAction::Done));
    assert_eq!(client.outgoing(&streams).unwrap().concat(), b"456789");
    assert_eq!(streams[0].back.data(), b"456789");
    assert_eq!(streams[0].back.available_space(), 58);
    receive(&mut server, &mut streams, b"abcdefghij");
    assert!(streams[0].back.is_terminated());
    client.try_writable(&mut streams, WriteEvent::Ready);
    assert_eq!(client.outgoing(&streams).unwrap().concat(), b"456789abcdefghij");
}

const OPENING: &[u8] = b"PRI * HTTP/2.0\r\n\r\nSM\r\n\r\n\0\0\x06\x04\0\0\0\0\0";

fn payload(connection: &Connection<u8>, streams: &mut [Stream<'_>], header: &FrameHeader, b: &[u8]) {
    if let Connection::H2(c) = connection {
        assert_eq!(c.expected.as_ref(), Some(header));
        let space = c.payload_space(streams);
        assert_eq!(space.len(), header.payload_len as usize);
        space[..b.len()].copy_from_slice(b);
    }
}

fn state(connection: &Connection<u8>) -> H2State {
    match connection {
        Connection::H2(c) => c.state,
        Connection::H1(_) => H2State::Error,
    }
}

#[test]
fn server_is_opened_and_answers() {
    let (mut front, mut back) = ([0u8; 64], [0u8; 64]);
    let mut streams = streams(&mut front, &mut back);
    let mut server = h2(Position::Server, H2State::ClientPreface);
    let action = server.try_readable(&mut streams, ReadEvent::Ready);
    assert!(matches!(action, Some(ReadAction::ReadBytes { len: 33 })));
    let event = ReadEvent::Bytes { bytes: OPENING, size: 33 };
    let header = match server.try_readable(&mut streams, event) {
        Some(ReadAction::ReadPayload { header }) => header,
        _ => unreachable!(),
    };
    assert_eq!(header.payload_len, 6);
    payload(&server, &mut streams, &header, &[0, 3, 0, 0, 0, 100]);
    let event = ReadEvent::Payload { size: 5 };
    assert!(server.try_readable(&mut streams, event).is_none());
    let event = ReadEvent::Payload { size: 6 };
    match server.try_readable(&mut streams, event) {
        Some(ReadAction::Opened { settings }) => {
            assert_eq!(settings, vec![Setting { identifier: 3, value: 100 }]);
        }
        _ => unreachable!(),
    }
    assert_eq!(streams[0].front.data(), [0, 3, 0, 0, 0, 100]);
    assert_eq!(state(&server), H2State::ServerPreface);
    assert_eq!(server.readiness().interest, Ready(0b0010));

    let action = server.try_readable(&mut streams, ReadEvent::Ready);
    assert!(matches!(action, Some(ReadAction::Done)));

    let action = server.try_writable(&mut streams, WriteEvent::Ready);
    assert_eq!(action, Some(WriteAction::WriteOutgoing));
    let answer = [0, 0, 12, 4, 0, 0, 0, 0, 0, 0, 0, 0, 4, 1, 0, 0, 0, 0];
    assert_eq!(server.outgoing(&streams).unwrap(), vec![answer.to_vec()]);
    let event = WriteEvent::Wrote { size: 3 };
    assert_eq!(server.try_writable(&mut streams, event), Some(WriteAction::Done));
    assert_eq!(streams[0].back.data(), b"");
    assert_eq!(state(&server), H2State::Connected);
    assert_eq!(server.readiness().interest, Ready(0b0001));
}

#[test]
fn server_is_opened_by_nothing_else() {
    let (mut front, mut back) = ([0u8; 64], [0u8; 64]);
    let mut streams = streams(&mut front, &mut back);
    let mut server = h2(Position::Server, H2State::ClientPreface);
    let event = ReadEvent::Bytes { bytes: &[0; 33], size: 33 };
    assert!(server.try_readable(&mut streams, event).is_none());
    for size in [0, 6, 33] {
        let event = ReadEvent::Payload { size };
        assert!(server.try_readable(&mut streams, event).is_none());
    }
    assert!(server.try_readable(&mut [], ReadEvent::Ready).is_none());
    assert!(server.try_writable(&mut streams, WriteEvent::Ready).is_none());
    assert_eq!(state(&server), H2State::ClientPreface);

    let event = ReadEvent::Bytes { bytes: OPENING, size: 33 };
    assert!(server.try_readable(&mut streams, event).is_some());
    assert_eq!(state(&server), H2State::ClientPreface);
    assert!(server.try_readable(&mut streams, event).is_none());
    assert!(server.try_readable(&mut streams, ReadEvent::Ready).is_none());
    assert!(server.try_writable(&mut streams, WriteEvent::Ready).is_none());
    assert!(server.try_readable(&mut streams, ReadEvent::Payload { size: 6 }).is_some());
    assert_eq!(state(&server), H2State::ServerPreface);
}

#[test]
fn server_needs_space_for_its_answer() {
    for (space, opens) in [(17, false), (18, true)] {
        let (mut front, mut back) = ([0u8; 64], vec![0u8; space]);
        let mut streams = streams(&mut front, &mut back);
        let mut server = h2(Position::Server, H2State::ClientPreface);
        let event = ReadEvent::Bytes { bytes: OPENING, size: 33 };
        assert!(server.try_readable(&mut streams, event).is_some());
        let action = server.try_readable(&mut streams, ReadEvent::Payload { size: 6 });
        assert_eq!(action.is_some(), opens);
    }
}

#[test]
fn settings_need_space() {
    let (mut front, mut back) = ([0u8; 5], [0u8; 64]);
    let mut streams = streams(&mut front, &mut back);
    let mut server = h2(Position::Server, H2State::ClientPreface);
    let event = ReadEvent::Bytes { bytes: OPENING, size: 33 };
    assert!(server.try_readable(&mut streams, event).is_none());
}

#[test]
fn new_stream_has_nothing_to_write() {
    let (mut front, mut back) = ([0u8; 64], [0u8; 64]);
    let mut streams = streams(&mut front, &mut back);
    for position in [Position::Client, Position::Server] {
        let mut connection = h1(position, 0);
        let action = connection.try_writable(&mut streams, WriteEvent::Ready);
        assert_eq!(action, Some(WriteAction::Done));
        assert_eq!(connection.readiness().interest, Ready(0b0001));
        assert_eq!(connection.readiness().event, Ready(0b0011));
    }
    assert_eq!(streams[0].front.available_space(), 64);
    assert_eq!(streams[0].back.available_space(), 64);
}

#[test]
fn hangups_and_errors_stay() {
    let (mut front, mut back) = ([0u8; 64], [0u8; 64]);
    let mut streams = streams(&mut front, &mut back);
    let mut server = h1(Position::Server, 0);
    let mut client = h1(Position::Client, 0);
    for connection in [&mut server, &mut client] {
        *connection.readiness_mut() = Readiness { event: Ready(0b1111), interest: Ready(0b1111) };
    }
    receive_with(&mut server, &mut streams, REQUEST, SocketResult::WouldBlock);
    let expected = Readiness { event: Ready(0b1110), interest: Ready(0b1110) };
    assert_eq!(server.readiness(), &expected);
    client.try_writable(&mut streams, WriteEvent::Ready);
    client.try_writable(&mut streams, WriteEvent::Wrote { size: 0 });
    let expected = Readiness { event: Ready(0b1101), interest: Ready(0b1111) };
    assert_eq!(client.readiness(), &expected);

    let mut server = h2(Position::Server, H2State::Connected);
    *server.readiness_mut() = Readiness { event: Ready(0b1101), interest: Ready(0b1111) };
    let event = ReadEvent::Bytes { bytes: &[0; 9], size: 0 };
    assert!(server.try_readable(&mut streams, event).is_some());
    assert_eq!(server.readiness().event, Ready(0b1100));
}

#[test]
fn connected_server_reads_frames() {
    let (mut front, mut back) = ([0u8; 8], [0u8; 8]);
    let mut streams = streams(&mut front, &mut back);
    let mut server = h2(Position::Server, H2State::Connected);
    let action = server.try_readable(&mut streams, ReadEvent::Ready);
    assert!(matches!(action, Some(ReadAction::ReadBytes { len: 9 })));
    for text in [b"abc", b"xyz"] {
        let bytes = [0, 0, 3, 0, 1, 0, 0, 0, 5];
        let event = ReadEvent::Bytes { bytes: &bytes, size: 9 };
        let header = match server.try_readable(&mut streams, event) {
            Some(ReadAction::ReadPayload { header }) => header,
            _ => unreachable!(),
        };
        assert_eq!((header.frame_type, header.stream_id), (FrameType::Data, 5));
        payload(&server, &mut streams, &header, text);
        let event = ReadEvent::Payload { size: 3 };
        assert!(matches!(server.try_readable(&mut streams, event), Some(ReadAction::Done)));
        assert_eq!(streams[0].front.data(), text);
        assert!(server.try_readable(&mut streams, event).is_none());
    }
    let event = ReadEvent::Bytes { bytes: &[0, 0, 9, 0, 1, 0, 0, 0, 5], size: 9 };
    assert!(server.try_readable(&mut streams, event).is_none());

    let event = ReadEvent::Bytes { bytes: &[0; 9], size: 0 };
    assert!(matches!(server.try_readable(&mut streams, event), Some(ReadAction::Done)));
    assert_eq!(server.readiness().event, Ready(0b0010));
    assert_eq!(streams[0].front.data(), b"xyz");
    assert_eq!(state(&server), H2State::Connected);
}

#[test]
fn unknown_frame_is_an_error() {
    let (mut front, mut back) = ([0u8; 8], [0u8; 8]);
    let mut streams = streams(&mut front, &mut back);
    let mut server = h2(Position::Server, H2State::Connected);
    let event = ReadEvent::Bytes { bytes: &[0, 0, 0, 99, 0, 0, 0, 0, 0], size: 9 };
    assert!(matches!(server.try_readable(&mut streams, event), Some(ReadAction::Done)));
    assert_eq!(state(&server), H2State::Error);
    assert!(server.try_readable(&mut streams, ReadEvent::Ready).is_none());
    assert!(server.try_writable(&mut streams, WriteEvent::Ready).is_none());
}

#[test]
fn client_waits_to_write_its_preface() {
    let (mut front, mut back) = ([0u8; 8], [0u8; 8]);
    let mut streams = streams(&mut front, &mut back);
    let mut client = h2(Position::Client, H2State::ClientPreface);
    let action = client.try_readable(&mut streams, ReadEvent::Ready);
    assert!(matches!(action, Some(ReadAction::Done)));
    assert_eq!(client.readiness(), &readiness());
    let mut client = h2(Position::Client, H2State::ServerPreface);
    assert!(client.try_readable(&mut streams, ReadEvent::Ready).is_none());
    assert!(client.try_writable(&mut streams, WriteEvent::Ready).is_none());
}
