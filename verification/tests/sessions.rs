use mux::connection::{ReadAction, ReadEvent, SocketResult};
use mux::mux::{
    AcceptError, Cursor, FrontRustls, Mux, Peer, Progress, ReadyAction, SessionResult,
    StateResult, MAX_LOOP_ITERATIONS,
};
use mux::ready::{Readiness, Ready};
use mux::{Connection, ConnectionH1, ConnectionH2, H2State, Position};
use rusty_ulid::Ulid;
use std::collections::HashMap;

type Session<'a> = Mux<'a, &'static str, u8>;

fn backend(event: u16, interest: u16) -> Connection<&'static str> {
    Connection::H1(ConnectionH1 {
        position: Position::Client,
        readiness: Readiness { event: Ready(event), interest: Ready(interest) },
        socket: "backend",
        stream: 0,
    })
}

fn session<'a>(event: u16, interest: u16) -> Session<'a> {
    Mux {
        frontend_token: 3,
        frontend: Connection::H2(ConnectionH2 {
            socket: FrontRustls { stream: "front", session: 5 },
            position: Position::Server,
            readiness: Readiness { event: Ready(event), interest: Ready(interest) },
            state: H2State::Connected,
            expected: None,
            streams: HashMap::new(),
        }),
        backends: HashMap::new(),
        streams: Vec::new(),
        sticky_name: String::from("SOZU"),
    }
}

#[test]
fn front_socket_is_the_tcp_stream() {
    let mut session = session(0, 0);
    assert_eq!(*session.front_socket(), "front");
    session.frontend = Connection::H1(ConnectionH1 {
        position: Position::Server,
        readiness: Readiness { event: Ready(0), interest: Ready(0) },
        socket: FrontRustls { stream: "other", session: 5 },
        stream: 0,
    });
    assert_eq!(*session.front_socket(), "other");
}

#[test]
fn timeout_closes_the_session() {
    assert_eq!(session(0, 0).timeout(3), StateResult::CloseSession);
}

#[test]
fn readiness_goes_to_its_connection() {
    let mut session = session(0b0001, 0b0011);
    session.backends.insert(4, backend(0, 0b0011));
    session.backends.insert(5, backend(0b0010, 0b0011));
    session.update_readiness(3, Ready(0b1000));
    session.update_readiness(4, Ready(0b0001));
    session.update_readiness(5, Ready(0b0100));
    session.update_readiness(6, Ready(0b1111));
    assert_eq!(session.frontend.readiness().event, Ready(0b1001));
    assert_eq!(session.frontend.readiness().interest, Ready(0b0011));
    assert_eq!(session.backends[&4].readiness().event, Ready(0b0001));
    assert_eq!(session.backends[&5].readiness().event, Ready(0b0110));
    assert_eq!(session.backends.len(), 2);
}

#[test]
fn readiness_can_be_changed() {
    let mut connection = backend(0, 0b0011);
    connection.readiness_mut().event.insert(Ready::HUP);
    connection.readiness_mut().interest.remove(Ready::READABLE);
    let expected = Readiness { event: Ready(0b1000), interest: Ready(0b0010) };
    assert_eq!(connection.readiness(), &expected);
}

#[test]
fn streams_are_numbered() {
    let (mut a, mut b, mut c, mut d) = ([0u8; 16], [1u8; 16], [2u8; 8], [3u8; 8]);
    let mut session = session(0, 0);
    assert_eq!(session.create_stream(Ulid::from(10u128), Some((Some(&mut a), Some(&mut b)))), Ok(0));
    assert_eq!(session.create_stream(Ulid::from(11u128), Some((Some(&mut c), Some(&mut d)))), Ok(1));
    assert_eq!(session.streams.len(), 2);
    assert_eq!(session.streams[0].request_id, Ulid::from(10u128));
    assert_eq!(session.streams[1].request_id, Ulid::from(11u128));
    assert_eq!(session.streams[0].front.capacity(), 16);
    assert_eq!(session.streams[1].back.capacity(), 8);
    for stream in &session.streams {
        assert_eq!(stream.front.data(), b"");
        assert_eq!(stream.back.data(), b"");
        assert!(!stream.front.is_terminated() && !stream.back.is_terminated());
        assert!(stream.front.nothing_to_send() && stream.back.nothing_to_send());
    }
}

#[test]
fn both_halves_take_requests() {
    let (mut front, mut back) = ([0u8; 64], [0u8; 64]);
    let mut session = session(0, 0);
    let checkouts = Some((Some(&mut front[..]), Some(&mut back[..])));
    assert_eq!(session.create_stream(Ulid::from(1u128), checkouts), Ok(0));
    for position in [Position::Client, Position::Server] {
        let mut connection = ConnectionH1 {
            position,
            readiness: Readiness { event: Ready(1), interest: Ready(1) },
            socket: (),
            stream: 0,
        };
        let request = b"GET / HTTP/1.1\r\nHost: a\r\n\r\n";
        let space = connection.read_space(&mut session.streams);
        assert_eq!(space.len(), 64);
        space[..request.len()].copy_from_slice(request);
        let event = ReadEvent::Space { size: request.len(), status: SocketResult::Continue };
        let action = connection.readable(&mut session.streams, event);
        assert!(matches!(action, ReadAction::Done));
    }
    assert!(session.streams[0].front.is_terminated());
    assert!(session.streams[0].back.is_terminated());
}

#[test]
fn streams_need_two_buffers() {
    let (mut one, mut two) = ([0u8; 8], [0u8; 8]);
    let mut session = session(0, 0);
    let full = Err(AcceptError::BufferCapacityReached);
    assert_eq!(session.create_stream(Ulid::from(1u128), None), full);
    assert_eq!(session.create_stream(Ulid::from(1u128), Some((None, None))), full);
    assert_eq!(session.create_stream(Ulid::from(1u128), Some((Some(&mut one), None))), full);
    assert_eq!(session.create_stream(Ulid::from(1u128), Some((None, Some(&mut two)))), full);
    assert_eq!(session.streams.len(), 0);
}

#[test]
fn frontend_hup_closes() {
    let session = session(0b1001, 0b0001);
    let mut progress = session.begin_ready();
    assert_eq!(session.ready(&mut progress), ReadyAction::Finish(SessionResult::Close));
}

#[test]
fn idle_session_goes_on() {
    let mut session = session(0b0011, 0b0000);
    session.backends.insert(4, backend(0b1111, 0b0000));
    let mut progress = session.begin_ready();
    assert_eq!(session.ready(&mut progress), ReadyAction::Finish(SessionResult::Continue));
    assert_eq!(session.ready(&mut progress), ReadyAction::Finish(SessionResult::Continue));
    assert_eq!(progress.counter, 0);
}

#[test]
fn connections_are_told_in_order() {
    let mut session = session(0b0011, 0b0011);
    session.backends.insert(4, backend(0b0011, 0b0011));
    let mut progress = session.begin_ready();
    let backend = Peer::Backend(4);
    assert_eq!(session.ready(&mut progress), ReadyAction::Readable(Peer::Frontend));
    assert_eq!(session.ready(&mut progress), ReadyAction::Writable(backend));
    assert_eq!(session.ready(&mut progress), ReadyAction::Readable(backend));
    assert_eq!(session.ready(&mut progress), ReadyAction::Writable(Peer::Frontend));
    assert_eq!(session.ready(&mut progress), ReadyAction::Readable(Peer::Frontend));
    assert_eq!(progress.counter, 1);
    session.frontend.readiness_mut().event.remove(Ready::WRITABLE);
    session.backends.get_mut(&4).unwrap().readiness_mut().event.remove(Ready::WRITABLE);
    assert_eq!(session.ready(&mut progress), ReadyAction::Readable(backend));
    session.frontend.readiness_mut().event.remove(Ready::READABLE);
    session.backends.get_mut(&4).unwrap().readiness_mut().event.remove(Ready::READABLE);
    assert_eq!(session.ready(&mut progress), ReadyAction::Finish(SessionResult::Continue));
    assert_eq!(progress.counter, 2);
    assert_eq!(progress.cursor, Cursor::End(SessionResult::Continue));
}

#[test]
fn each_backend_is_told() {
    let mut session = session(0, 0);
    for token in 10..15 {
        session.backends.insert(token, backend(0b0001, 0b0001));
    }
    let mut progress = session.begin_ready();
    let mut told = Vec::new();
    for _ in 0..5 {
        match session.ready(&mut progress) {
            ReadyAction::Readable(Peer::Backend(token)) => told.push(token),
            _ => unreachable!(),
        }
    }
    told.sort();
    assert_eq!(told, vec![10, 11, 12, 13, 14]);
}

#[test]
fn broken_backend_closes() {
    for event in [Ready::HUP, Ready::ERROR] {
        let mut session = session(0b0001, 0b0001);
        session.backends.insert(4, backend(event, 0b1111));
        session.backends.insert(5, backend(0, 0b1111));
        let mut progress = session.begin_ready();
        assert_eq!(session.ready(&mut progress), ReadyAction::Readable(Peer::Frontend));
        assert_eq!(session.ready(&mut progress), ReadyAction::Finish(SessionResult::Close));
        assert_eq!(progress.counter, 0);
    }
}

#[test]
fn restless_session_closes() {
    let session = session(0b0001, 0b0001);
    let mut progress = session.begin_ready();
    let mut told = 0;
    while session.ready(&mut progress) == ReadyAction::Readable(Peer::Frontend) {
        told += 1;
    }
    assert_eq!(told, 100000);
    assert_eq!(progress.counter, MAX_LOOP_ITERATIONS);
    assert_eq!(session.ready(&mut progress), ReadyAction::Finish(SessionResult::Close));
}

#[test]
fn run_ends_for_a_reason() {
    let mut session = session(0b0001, 0b0001);
    session.backends.insert(4, backend(0b0010, 0b1011));
    let mut progress = session.begin_ready();
    assert_eq!(session.ready(&mut progress), ReadyAction::Readable(Peer::Frontend));
    assert!(progress.dirty);
    assert_eq!(session.ready(&mut progress), ReadyAction::Writable(Peer::Backend(4)));
    assert!(progress.dirty);
    session.frontend.readiness_mut().event.remove(Ready::READABLE);
    session.backends.get_mut(&4).unwrap().readiness_mut().event.remove(Ready::WRITABLE);
    session.update_readiness(3, Ready(Ready::HUP));
    let mut other = Progress {
        counter: progress.counter,
        dirty: progress.dirty,
        cursor: progress.cursor,
        tokens: progress.tokens.clone(),
    };
    assert_eq!(session.ready(&mut progress), ReadyAction::Finish(SessionResult::Continue));
    session.update_readiness(4, Ready(Ready::HUP));
    assert_eq!(session.ready(&mut other), ReadyAction::Finish(SessionResult::Close));
    assert_eq!(other.counter, 0);
}

#[test]
fn stream_gives_its_buffers_back() {
    let (mut front, mut back) = ([1u8, 2, 3], [4u8, 5]);
    let mut session = session(0, 0);
    let checkouts = Some((Some(&mut front[..]), Some(&mut back[..])));
    assert_eq!(session.create_stream(Ulid::from(1u128), checkouts), Ok(0));
    let (front, back) = session.streams.pop().unwrap().into_buffers();
    assert_eq!(front, [1, 2, 3]);
    assert_eq!(back, [4, 5]);
    front[0] = 9;
    let checkouts = Some((Some(back), Some(front)));
    assert_eq!(session.create_stream(Ulid::from(2u128), checkouts), Ok(0));
    assert_eq!(session.streams[0].front.capacity(), 2);
    assert_eq!(session.streams.pop().unwrap().into_buffers().1, [9, 2, 3]);
}
