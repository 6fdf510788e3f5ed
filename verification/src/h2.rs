//! Connections that speak HTTP/2.

use crate::connection::{
    Outcome, Position, ReadAction, ReadActionView, ReadEvent, WriteAction, WriteEvent,
};
use crate::parser::{
    client_preface, frame_header, frame_header_of, is_settings, law_every_settings_header_opens,
    law_frame_header_fields, law_opening_fields, opening, opening_of, settings_complete,
    settings_frame, settings_of, FrameHeader, FrameType, FRAME_HEADER_LEN, PREFACE_LEN,
};
use crate::ready::{Readiness, Ready};
use crate::serializer::{frame_header_bytes, law_frame_header_read_back};
use crate::stream::{all_wf, law_append_extends_data, views, HttpView, Stream, StreamView};
use std::collections::HashMap;
use vstd::prelude::*;

verus! {

/// How far an HTTP/2 connection has come.
#[derive(Clone, Copy, Debug, PartialEq, Eq, Structural)]
pub enum H2State {
    ClientPreface,
    ServerPreface,
    Connected,
    Error,
}

/// An HTTP/2 connection.
pub struct ConnectionH2<Front> {
    pub socket: Front,
    pub position: Position,
    pub readiness: Readiness,
    pub state: H2State,
    /// The header of the frame whose payload is to be read next.
    pub expected: Option<FrameHeader>,
    /// The stream that each stream of the connection stands for.
    pub streams: HashMap<usize, usize>,
}

/// The header of the settings frame that a server opens with.
pub open spec fn server_settings() -> FrameHeader {
    FrameHeader { payload_len: 12, frame_type: FrameType::Settings, flags: 0, stream_id: 0 }
}

/// The header of the frame that acknowledges the settings of the client.
pub open spec fn settings_ack() -> FrameHeader {
    FrameHeader { payload_len: 0, frame_type: FrameType::Settings, flags: 1, stream_id: 0 }
}

/// The half with what a server opens with behind its data.
pub open spec fn with_server_preface(half: HttpView) -> HttpView {
    half.appended(frame_header_bytes(server_settings())).appended(
        frame_header_bytes(settings_ack()),
    )
}

/// The streams with another front half in the first one.
pub open spec fn with_front(streams: Seq<StreamView>, front: HttpView) -> Seq<StreamView> {
    streams.update(0, StreamView { front, ..streams[0] })
}

/// The streams with another back half in the first one.
pub open spec fn with_back(streams: Seq<StreamView>, back: HttpView) -> Seq<StreamView> {
    streams.update(0, StreamView { back, ..streams[0] })
}

impl<Front> ConnectionH2<Front> {
    /// The connection handles `event`. A server that waits for the client to open takes nothing
    /// but the client preface and then whole settings, and needs space for its answer. A payload is
    /// taken only where one is expected, and has to fit the storage. There is no way to go on for a
    /// client whose turn it is, nor after an error.
    pub open spec fn read_requires(self, streams: Seq<StreamView>, event: ReadEvent<'_>) -> bool {
        match (self.state, self.position) {
            (H2State::ClientPreface, Position::Client) => event is Ready,
            (H2State::ServerPreface, Position::Server) => event is Ready,
            (H2State::ClientPreface, Position::Server) => streams.len() > 0 && match (
                event,
                self.expected,
            ) {
                (ReadEvent::Ready, None) => true,
                (ReadEvent::Bytes { bytes, .. }, None) => opening_of(bytes@) matches Some(header)
                    && header.payload_len <= streams[0].front.space(),
                (ReadEvent::Payload { size }, Some(header)) => {
                    &&& is_settings(header)
                    &&& settings_complete(streams[0].front.filled(size as nat).data(), header)
                    &&& streams[0].back.space() >= 18
                },
                _ => false,
            },
            (H2State::Connected, Position::Server) => match (event, self.expected) {
                (ReadEvent::Ready, None) => true,
                (ReadEvent::Bytes { bytes, size }, None) => {
                    &&& bytes@.len() >= 9
                    &&& frame_header_of(bytes@) matches Some(header) ==> size > 0 ==> streams.len()
                        > 0 && header.payload_len <= streams[0].front.bytes.len()
                },
                (ReadEvent::Payload { .. }, Some(_)) => streams.len() > 0,
                _ => false,
            },
            _ => false,
        }
    }

    /// What comes of `event`.
    ///
    /// A server first reads the client preface with the header of a settings frame, then the
    /// settings. It answers with its own opening and waits to write it. Once connected, it reads
    /// a frame header and then the payload, which replaces the data of the first front half. A
    /// header that is none is an error, and a socket that gives nothing is no longer readable. A
    /// connection that has its opening to write first does nothing.
    pub open spec fn after_read(self, streams: Seq<StreamView>, event: ReadEvent<'_>) -> Outcome<
        Self,
        ReadActionView,
    > {
        let idle = Outcome { connection: self, streams, action: ReadActionView::Done };
        match (self.state, self.position) {
            (H2State::ClientPreface, Position::Server) => match event {
                ReadEvent::Bytes { bytes, .. } => Outcome {
                    connection: ConnectionH2 { expected: opening_of(bytes@), ..self },
                    action: ReadActionView::ReadPayload { header: opening_of(bytes@)->0 },
                    ..idle
                },
                ReadEvent::Payload { size } => {
                    let front = streams[0].front.filled(size as nat);
                    Outcome {
                        connection: ConnectionH2 {
                            state: H2State::ServerPreface,
                            expected: None,
                            readiness: Readiness {
                                interest: self.readiness.interest.with(Ready::WRITABLE).without(
                                    Ready::READABLE,
                                ),
                                ..self.readiness
                            },
                            ..self
                        },
                        streams: with_back(
                            with_front(streams, front),
                            with_server_preface(streams[0].back),
                        ),
                        action: ReadActionView::Opened {
                            settings: settings_of(
                                front.data(),
                                self.expected->0.payload_len as nat,
                            ),
                        },
                    }
                },
                _ => Outcome { action: ReadActionView::ReadBytes { len: 33 }, ..idle },
            },
            (H2State::Connected, Position::Server) => match event {
                ReadEvent::Bytes { bytes, size } => if size == 0 {
                    Outcome {
                        connection: ConnectionH2 {
                            readiness: Readiness {
                                event: self.readiness.event.without(Ready::READABLE),
                                ..self.readiness
                            },
                            ..self
                        },
                        ..idle
                    }
                } else {
                    match frame_header_of(bytes@) {
                        Some(header) => Outcome {
                            connection: ConnectionH2 { expected: Some(header), ..self },
                            streams: with_front(streams, streams[0].front.cleared()),
                            action: ReadActionView::ReadPayload { header },
                        },
                        None => Outcome {
                            connection: ConnectionH2 { state: H2State::Error, ..self },
                            ..idle
                        },
                    }
                },
                ReadEvent::Payload { size } => Outcome {
                    connection: ConnectionH2 { expected: None, ..self },
                    streams: with_front(streams, streams[0].front.filled(size as nat)),
                    ..idle
                },
                _ => Outcome { action: ReadActionView::ReadBytes { len: 9 }, ..idle },
            },
            _ => idle,
        }
    }

    /// There is a payload to read, and space for it.
    pub open spec fn payload_requires(self, streams: Seq<StreamView>) -> bool {
        &&& self.expected matches Some(header)
        &&& streams.len() > 0
        &&& header.payload_len <= streams[0].front.space()
    }

    /// The streams once the socket wrote to the space for the payload, which then holds `payload`.
    pub open spec fn with_payload(self, streams: Seq<StreamView>, payload: Seq<u8>) -> Seq<
        StreamView,
    > {
        let front = streams[0].front;
        with_front(
            streams,
            front.with_space(payload + front.bytes.skip(front.end + self.expected->0.payload_len)),
        )
    }

    /// The space that the socket is to write the expected payload to.
    pub fn payload_space<'a, 'b>(&self, streams: &'b mut [Stream<'a>]) -> (space: &'b mut [u8])
        requires
            all_wf(views(old(streams)@)),
            self.payload_requires(views(old(streams)@)),
        ensures
            space@ == old(streams)@[0].front@.bytes.subrange(
                old(streams)@[0].front@.end as int,
                old(streams)@[0].front@.end + self.expected->0.payload_len,
            ),
            final(space)@.len() == self.expected->0.payload_len,
            views(final(streams)@) == self.with_payload(views(old(streams)@), final(space)@),
    {
        assert(views(streams@)[0].wf());
        let len: usize = match self.expected {
            Some(header) => header.payload_len as usize,
            None => 0,
        };
        let stream = &mut streams[0];
        let space = stream.front.storage_space();
        let (payload, rest) = space.split_at_mut(len);
        assert(rest@ =~= old(streams)@[0].front@.bytes.skip(old(streams)@[0].front@.end + len));
        payload
    }

    /// Takes in what the socket gave.
    pub fn readable(&mut self, streams: &mut [Stream<'_>], event: ReadEvent<'_>) -> (action:
        ReadAction)
        requires
            all_wf(views(old(streams)@)),
            old(self).read_requires(views(old(streams)@), event),
        ensures
            (Outcome { connection: *final(self), streams: views(final(streams)@), action: action@ })
                == old(self).after_read(views(old(streams)@), event),
            all_wf(views(final(streams)@)),
    {
        let ghost before = views(streams@);
        match (self.state, self.position) {
            (H2State::ClientPreface, Position::Server) => {
                assert(before[0].wf());
                match event {
                    ReadEvent::Bytes { bytes, .. } => match opening(bytes) {
                        Some(header) => {
                            self.expected = Some(header);
                            ReadAction::ReadPayload { header }
                        },
                        None => ReadAction::Done,
                    },
                    ReadEvent::Payload { size } => {
                        let stream = &mut streams[0];
                        stream.front.storage_fill(size);
                        let settings = match self.expected {
                            Some(header) => match settings_frame(stream.front.data(), &header) {
                                Ok(settings) => settings,
                                Err(_) => Vec::new(),
                            },
                            None => Vec::new(),
                        };
                        self.expected = None;
                        self.state = H2State::ServerPreface;
                        stream.back.push_frame_header(
                            &FrameHeader {
                                payload_len: 12,
                                frame_type: FrameType::Settings,
                                flags: 0,
                                stream_id: 0,
                            },
                        );
                        stream.back.push_frame_header(
                            &FrameHeader {
                                payload_len: 0,
                                frame_type: FrameType::Settings,
                                flags: 1,
                                stream_id: 0,
                            },
                        );
                        self.readiness.interest.insert(Ready::WRITABLE);
                        self.readiness.interest.remove(Ready::READABLE);
                        proof {
                            assert(views(streams@) =~= with_back(
                                with_front(before, before[0].front.filled(size as nat)),
                                with_server_preface(before[0].back),
                            ));
                        }
                        ReadAction::Opened { settings }
                    },
                    _ => ReadAction::ReadBytes { len: PREFACE_LEN + FRAME_HEADER_LEN },
                }
            },
            (H2State::Connected, Position::Server) => match event {
                ReadEvent::Bytes { bytes, size } => {
                    if size == 0 {
                        self.readiness.event.remove(Ready::READABLE);
                        return ReadAction::Done;
                    }
                    match frame_header(bytes) {
                        Ok(header) => {
                            self.expected = Some(header);
                            let stream = &mut streams[0];
                            stream.front.storage_clear();
                            proof {
                                assert(views(streams@) =~= with_front(
                                    before,
                                    before[0].front.cleared(),
                                ));
                            }
                            ReadAction::ReadPayload { header }
                        },
                        Err(_) => {
                            self.state = H2State::Error;
                            ReadAction::Done
                        },
                    }
                },
                ReadEvent::Payload { size } => {
                    self.expected = None;
                    assert(before[0].wf());
                    let stream = &mut streams[0];
                    stream.front.storage_fill(size);
                    proof {
                        assert(views(streams@) =~= with_front(
                            before,
                            before[0].front.filled(size as nat),
                        ));
                    }
                    ReadAction::Done
                },
                _ => ReadAction::ReadBytes { len: FRAME_HEADER_LEN },
            },
            _ => ReadAction::Done,
        }
    }

    /// Whether the connection handles `event`.
    pub fn can_read(&self, streams: &[Stream<'_>], event: &ReadEvent<'_>) -> (can: bool)
        requires
            all_wf(views(streams@)),
        ensures
            can == self.read_requires(views(streams@), *event),
    {
        assert(streams@.len() > 0 ==> views(streams@)[0].wf());
        match (self.state, self.position) {
            (H2State::ClientPreface, Position::Client) => matches!(event, ReadEvent::Ready),
            (H2State::ServerPreface, Position::Server) => matches!(event, ReadEvent::Ready),
            (H2State::ClientPreface, Position::Server) => streams.len() > 0 && match (
                event,
                self.expected,
            ) {
                (ReadEvent::Ready, None) => true,
                (ReadEvent::Bytes { bytes, .. }, None) => match opening(bytes) {
                    Some(header) => header.payload_len as u64
                        <= streams[0].front.available_space() as u64,
                    None => false,
                },
                (ReadEvent::Payload { size }, Some(header)) => {
                    matches!(header.frame_type, FrameType::Settings) && header.flags == 0
                        && header.stream_id == 0 && header.payload_len % 6 == 0
                        && header.payload_len as u64 <= streams[0].front.data_len_filled(
                        *size,
                    ) as u64 && streams[0].back.available_space() >= 2 * FRAME_HEADER_LEN
                },
                _ => false,
            },
            (H2State::Connected, Position::Server) => match (event, self.expected) {
                (ReadEvent::Ready, None) => true,
                (ReadEvent::Bytes { bytes, size }, None) => bytes.len() >= FRAME_HEADER_LEN && (*size == 0
                    || match frame_header(bytes) {
                    Ok(header) => streams.len() > 0 && header.payload_len as u64
                        <= streams[0].front.capacity() as u64,
                    Err(_) => true,
                }),
                (ReadEvent::Payload { .. }, Some(_)) => streams.len() > 0,
                _ => false,
            },
            _ => false,
        }
    }

    /// The connection handles events of its socket: only a server writes, and only once the client
    /// has opened.
    pub open spec fn write_requires(self, streams: Seq<StreamView>, event: WriteEvent) -> bool {
        &&& self.position is Server
        &&& self.state is ServerPreface || self.state is Connected
        &&& streams.len() > 0
    }

    /// What comes of `event`: once the data of the first back half went to the socket, all of it is
    /// dropped, however much of it the socket took. The connection is then open, and waits to read.
    pub open spec fn after_write(self, streams: Seq<StreamView>, event: WriteEvent) -> Outcome<
        Self,
        WriteAction,
    > {
        match event {
            WriteEvent::Ready => Outcome {
                connection: self,
                streams,
                action: WriteAction::WriteOutgoing,
            },
            WriteEvent::Wrote { .. } => Outcome {
                connection: ConnectionH2 {
                    state: H2State::Connected,
                    readiness: Readiness {
                        interest: self.readiness.interest.without(Ready::WRITABLE).with(
                            Ready::READABLE,
                        ),
                        ..self.readiness
                    },
                    ..self
                },
                streams: with_back(
                    streams,
                    streams[0].back.discarded(streams[0].back.data().len()),
                ),
                action: WriteAction::Done,
            },
        }
    }

    /// Has its data written to the socket.
    pub fn writable(&mut self, streams: &mut [Stream<'_>], event: WriteEvent) -> (action:
        WriteAction)
        requires
            all_wf(views(old(streams)@)),
            old(self).write_requires(views(old(streams)@), event),
        ensures
            (Outcome { connection: *final(self), streams: views(final(streams)@), action })
                == old(self).after_write(views(old(streams)@), event),
            all_wf(views(final(streams)@)),
    {
        match event {
            WriteEvent::Ready => WriteAction::WriteOutgoing,
            WriteEvent::Wrote { .. } => {
                let ghost before = views(streams@);
                assert(before[0].wf());
                let stream = &mut streams[0];
                let size = stream.back.storage_available_data();
                stream.back.storage_consume(size);
                if stream.back.storage_is_empty() {
                    self.readiness.interest.remove(Ready::WRITABLE);
                    self.readiness.interest.insert(Ready::READABLE);
                    self.state = H2State::Connected;
                }
                proof {
                    assert(views(streams@) =~= with_back(
                        before,
                        before[0].back.discarded(before[0].back.data().len()),
                    ));
                }
                WriteAction::Done
            },
        }
    }

    /// Whether the connection handles events of its socket.
    pub fn can_write(&self, streams: &[Stream<'_>], event: &WriteEvent) -> (can: bool)
        ensures
            can == self.write_requires(views(streams@), *event),
    {
        match (self.state, self.position) {
            (H2State::ServerPreface, Position::Server) | (H2State::Connected, Position::Server) =>
                streams.len() > 0,
            _ => false,
        }
    }

    /// The outgoing bytes: the data of the first back half.
    pub fn outgoing(&self, streams: &[Stream<'_>]) -> (slices: Vec<Vec<u8>>)
        requires
            streams@.len() > 0,
            all_wf(views(streams@)),
        ensures
            slices@.map_values(|slice: Vec<u8>| slice@) == seq![streams@[0].back@.data()],
    {
        assert(views(streams@)[0].wf());
        let mut data: Vec<u8> = Vec::new();
        data.extend_from_slice(streams[0].back.data());
        assert(data@ =~= streams@[0].back@.data());
        let mut slices: Vec<Vec<u8>> = Vec::new();
        slices.push(data);
        assert(slices@.map_values(|slice: Vec<u8>| slice@) =~= seq![streams@[0].back@.data()]);
        slices
    }
}

/// A payload is asked for only where there is space for it.
pub proof fn law_asked_payload_has_space<Front>(
    connection: ConnectionH2<Front>,
    streams: Seq<StreamView>,
    event: ReadEvent<'_>,
)
    requires
        all_wf(streams),
        connection.read_requires(streams, event),
    ensures
        ({
            let outcome = connection.after_read(streams, event);
            outcome.action matches ReadActionView::ReadPayload { header } ==> {
                &&& outcome.connection.expected == Some(header)
                &&& outcome.connection.payload_requires(outcome.streams)
            }
        }),
{
}

/// Only the client opens a server: a server that waits for that and expects no payload stays as it
/// is, unless it gets the opening bytes of a client, and then it expects the payload that they
/// announce. Only with that payload does it go on, and before that it writes nothing.
pub proof fn law_only_client_opens<Front>(
    connection: ConnectionH2<Front>,
    streams: Seq<StreamView>,
    event: ReadEvent<'_>,
)
    requires
        connection.state is ClientPreface,
        connection.position is Server,
        connection.read_requires(streams, event),
    ensures
        ({
            let after = connection.after_read(streams, event).connection;
            match connection.expected {
                None => match event {
                    ReadEvent::Bytes { bytes, .. } => {
                        &&& opening_of(bytes@) is Some
                        &&& after == ConnectionH2 { expected: opening_of(bytes@), ..connection }
                    },
                    _ => after == connection,
                },
                Some(_) => event is Payload && after.state is ServerPreface,
            }
        }),
        forall|written: WriteEvent| !connection.write_requires(streams, written),
{
}

/// A server that gets the opening bytes of a client asks for the payload of the settings that they
/// announce. With whole settings there, it is open and hands them out. Once it has written its
/// answer, it is connected and waits to read. What it hands to its socket is what it had to write
/// before, its own settings header and the acknowledgement of the settings of the client.
pub proof fn law_server_handshake<Front>(
    connection: ConnectionH2<Front>,
    streams: Seq<StreamView>,
    bytes: &[u8],
    got: usize,
    payload: Seq<u8>,
    read: usize,
    written: usize,
)
    requires
        connection.state is ClientPreface,
        connection.position is Server,
        all_wf(streams),
        connection.read_requires(streams, ReadEvent::Bytes { bytes, size: got }),
        payload.len() == opening_of(bytes@)->0.payload_len,
        payload.len() % 6 == 0,
        payload.len() <= streams[0].front.data().len() + read,
        streams[0].back.space() >= 18,
    ensures
        ({
            let header = opening_of(bytes@)->0;
            let asked = connection.after_read(streams, ReadEvent::Bytes { bytes, size: got });
            let filled = asked.connection.with_payload(asked.streams, payload);
            let opened = asked.connection.after_read(filled, ReadEvent::Payload { size: read });
            let answered = opened.connection.after_write(
                opened.streams,
                WriteEvent::Wrote { size: written },
            );
            &&& asked.action == (ReadActionView::ReadPayload { header })
            &&& asked.streams == streams
            &&& asked.connection.payload_requires(asked.streams)
            &&& asked.connection.read_requires(filled, ReadEvent::Payload { size: read })
            &&& opened.action == (ReadActionView::Opened {
                settings: settings_of(filled[0].front.filled(read as nat).data(), payload.len()),
            })
            &&& streams[0].front.data().len() == 0 && read == payload.len() ==> opened.action == (
            ReadActionView::Opened { settings: settings_of(payload, payload.len()) })
            &&& opened.connection.state is ServerPreface
            &&& opened.connection.expected is None
            &&& opened.connection.readiness.interest.has(Ready::WRITABLE)
            &&& !opened.connection.readiness.interest.has(Ready::READABLE)
            &&& opened.connection.write_requires(opened.streams, WriteEvent::Ready)
            &&& opened.streams[0].back.data() == streams[0].back.data() + frame_header_bytes(
                server_settings(),
            ) + frame_header_bytes(settings_ack())
            &&& answered.connection.state is Connected
            &&& answered.connection.readiness.interest.has(Ready::READABLE)
            &&& !answered.connection.readiness.interest.has(Ready::WRITABLE)
            &&& answered.connection.read_requires(answered.streams, ReadEvent::Ready)
            &&& answered.streams[0].back.data().len() == 0
        }),
{
    let front = streams[0].front;
    let back = streams[0].back;
    assert(streams[0].wf());
    let asked = connection.after_read(streams, ReadEvent::Bytes { bytes, size: got });
    let filled = asked.connection.with_payload(asked.streams, payload);
    assert(filled[0].front.filled(read as nat).data().len() >= payload.len());
    if front.data().len() == 0 && read == payload.len() {
        assert(filled[0].front.filled(read as nat).data() =~= payload);
    }
    assert(with_server_preface(back).data() =~= back.data() + frame_header_bytes(server_settings())
        + frame_header_bytes(settings_ack()));
    let bits = connection.readiness.interest.0;
    assert((bits | 2u16) & !1u16 & 2u16 == 2u16) by (bit_vector);
    assert((bits | 2u16) & !1u16 & 1u16 != 1u16) by (bit_vector);
    let waited = ((bits | 2u16) & !1u16);
    assert((waited & !2u16 | 1u16) & 1u16 == 1u16) by (bit_vector);
    assert((waited & !2u16 | 1u16) & 2u16 != 2u16) by (bit_vector);
}

/// A connection that has its opening to write first ignores its readable socket.
pub proof fn law_waits_for_own_preface<Front>(
    connection: ConnectionH2<Front>,
    streams: Seq<StreamView>,
)
    requires
        (connection.state is ClientPreface && connection.position is Client)
            || (connection.state is ServerPreface && connection.position is Server),
    ensures
        connection.read_requires(streams, ReadEvent::Ready),
        connection.after_read(streams, ReadEvent::Ready) == (Outcome {
            connection,
            streams,
            action: ReadActionView::Done,
        }),
{
}

/// The payload that a connected server reads becomes all data of the first front half.
pub proof fn law_payload_replaces_data<Front>(
    connection: ConnectionH2<Front>,
    streams: Seq<StreamView>,
    bytes: &[u8],
    got: usize,
    payload: Seq<u8>,
    size: usize,
)
    requires
        connection.state is Connected,
        connection.position is Server,
        all_wf(streams),
        connection.read_requires(streams, ReadEvent::Bytes { bytes, size: got }),
        got > 0,
        frame_header_of(bytes@) is Some,
        payload.len() == frame_header_of(bytes@)->0.payload_len,
        size <= payload.len(),
    ensures
        ({
            let header = frame_header_of(bytes@)->0;
            let asked = connection.after_read(streams, ReadEvent::Bytes { bytes, size: got });
            let filled = asked.connection.with_payload(asked.streams, payload);
            let read = asked.connection.after_read(filled, ReadEvent::Payload { size });
            &&& asked.action == (ReadActionView::ReadPayload { header })
            &&& asked.connection.payload_requires(asked.streams)
            &&& asked.connection.read_requires(filled, ReadEvent::Payload { size })
            &&& read.connection == connection
            &&& read.streams[0].front.data() == payload.take(size as int)
            &&& read.streams[0].back == streams[0].back
            &&& forall|i: int| 0 < i < streams.len() ==> read.streams[i] == streams[i]
        }),
{
    let asked = connection.after_read(streams, ReadEvent::Bytes { bytes, size: got });
    let filled = asked.connection.with_payload(asked.streams, payload);
    assert(filled[0].front.filled(size as nat).data() =~= payload.take(size as int));
}

/// A server that waits for the client and expects no payload takes the preface followed by the
/// header of any settings without flags on stream 0, if there is space for their payload: it then
/// expects exactly that payload and asks for it.
pub proof fn law_server_takes_every_opening<Front>(
    connection: ConnectionH2<Front>,
    streams: Seq<StreamView>,
    header: FrameHeader,
    bytes: &[u8],
    got: usize,
)
    requires
        connection.state is ClientPreface,
        connection.position is Server,
        connection.expected is None,
        streams.len() > 0,
        header.frame_type is Settings,
        header.flags == 0,
        header.stream_id == 0,
        header.payload_len < 0x100_0000,
        header.payload_len <= streams[0].front.bytes.len() - streams[0].front.end,
        (client_preface() + frame_header_bytes(header)).is_prefix_of(bytes@) || opening_of(bytes@)
            == Some(header),
    ensures
        connection.read_requires(streams, ReadEvent::Bytes { bytes, size: got }),
        connection.after_read(streams, ReadEvent::Bytes { bytes, size: got }) == (Outcome {
            connection: ConnectionH2 { expected: Some(header), ..connection },
            streams,
            action: ReadActionView::ReadPayload { header },
        }),
{
    let opening = client_preface() + frame_header_bytes(header);
    if opening.is_prefix_of(bytes@) {
        law_every_settings_header_opens(header, bytes@.skip(33));
        assert(opening.len() == 33);
        assert forall|i: int| 0 <= i < 33 implies opening[i] == bytes@[i] by {
            assert(bytes@.subrange(0, 33)[i] == bytes@[i]);
        }
        assert(bytes@ =~= client_preface() + frame_header_bytes(header) + bytes@.skip(33));
    }
}

/// A connected server that expects no payload takes a frame of any type, with any flags, on any
/// stream, if its payload fits the storage of the first front half, and however many bytes of its
/// header were read: it drops the data of that half, expects the payload and asks for it. All else
/// stays.
pub proof fn law_connected_server_takes_every_frame<Front>(
    connection: ConnectionH2<Front>,
    streams: Seq<StreamView>,
    header: FrameHeader,
    bytes: &[u8],
    got: usize,
)
    requires
        connection.state is Connected,
        connection.position is Server,
        connection.expected is None,
        streams.len() > 0,
        header.payload_len < 0x100_0000,
        header.stream_id < 0x8000_0000,
        header.payload_len <= streams[0].front.bytes.len(),
        frame_header_bytes(header).is_prefix_of(bytes@) || frame_header_of(bytes@) == Some(header),
        got > 0,
    ensures
        connection.read_requires(streams, ReadEvent::Bytes { bytes, size: got }),
        ({
            let outcome = connection.after_read(streams, ReadEvent::Bytes { bytes, size: got });
            let front = outcome.streams[0].front;
            &&& outcome.action == (ReadActionView::ReadPayload { header })
            &&& outcome.connection == (ConnectionH2 { expected: Some(header), ..connection })
            &&& (front.start, front.head, front.end) == (0nat, 0nat, 0nat)
            &&& front.bytes == streams[0].front.bytes
            &&& front.out == streams[0].front.out
            &&& front.message == streams[0].front.message
            &&& outcome.streams[0].back == streams[0].back
            &&& outcome.streams[0].request_id == streams[0].request_id
            &&& outcome.streams.len() == streams.len()
            &&& forall|i: int| 0 < i < streams.len() ==> outcome.streams[i] == streams[i]
        }),
{
    if frame_header_bytes(header).is_prefix_of(bytes@) {
        law_frame_header_read_back(header, bytes@.skip(9));
        assert forall|i: int| 0 <= i < 9 implies frame_header_bytes(header)[i] == bytes@[i] by {
            assert(bytes@.subrange(0, 9)[i] == bytes@[i]);
        }
        assert(bytes@ =~= frame_header_bytes(header) + bytes@.skip(9));
    }
}

/// A frame of an unknown type puts a connected server into its error state, and changes nothing
/// else.
pub proof fn law_unknown_frame_is_an_error<Front>(
    connection: ConnectionH2<Front>,
    streams: Seq<StreamView>,
    bytes: &[u8],
    got: usize,
)
    requires
        connection.state is Connected,
        connection.position is Server,
        connection.expected is None,
        bytes@.len() >= 9,
        bytes@[3] >= 10,
        got > 0,
    ensures
        connection.read_requires(streams, ReadEvent::Bytes { bytes, size: got }),
        connection.after_read(streams, ReadEvent::Bytes { bytes, size: got }) == (Outcome {
            connection: ConnectionH2 { state: H2State::Error, ..connection },
            streams,
            action: ReadActionView::Done,
        }),
{
    law_frame_header_fields(bytes@);
}

/// The socket of a connected server that gave nothing is no longer readable, whatever the bytes
/// hold, and nothing else changes.
pub proof fn law_nothing_read_of_a_frame<Front>(
    connection: ConnectionH2<Front>,
    streams: Seq<StreamView>,
    bytes: &[u8],
)
    requires
        connection.state is Connected,
        connection.position is Server,
        connection.expected is None,
        bytes@.len() >= 9,
    ensures
        connection.read_requires(streams, ReadEvent::Bytes { bytes, size: 0 }),
        connection.after_read(streams, ReadEvent::Bytes { bytes, size: 0 }) == (Outcome {
            connection: ConnectionH2 {
                readiness: Readiness {
                    event: connection.readiness.event.without(Ready::READABLE),
                    interest: connection.readiness.interest,
                },
                ..connection
            },
            streams,
            action: ReadActionView::Done,
        }),
{
}

/// A server that expects no payload asks for the preface with a frame header, 33 bytes, as long as
/// it waits for the client, and for a frame header, 9 bytes, once it is connected. Nothing changes.
pub proof fn law_server_asks_for_a_header<Front>(
    connection: ConnectionH2<Front>,
    streams: Seq<StreamView>,
)
    requires
        connection.position is Server,
        connection.expected is None,
    ensures
        connection.state is ClientPreface && streams.len() > 0 ==> {
            &&& connection.read_requires(streams, ReadEvent::Ready)
            &&& connection.after_read(streams, ReadEvent::Ready) == (Outcome {
                connection,
                streams,
                action: ReadActionView::ReadBytes { len: 33 },
            })
        },
        connection.state is Connected ==> {
            &&& connection.read_requires(streams, ReadEvent::Ready)
            &&& connection.after_read(streams, ReadEvent::Ready) == (Outcome {
                connection,
                streams,
                action: ReadActionView::ReadBytes { len: 9 },
            })
        },
{
}

/// The payload that a connected server expects is taken whatever its header says and however much of
/// it was read: those bytes count as data of the first front half, as far as there is space, no
/// payload is expected any more, and nothing else changes.
pub proof fn law_expected_payload_is_taken<Front>(
    connection: ConnectionH2<Front>,
    streams: Seq<StreamView>,
    size: usize,
)
    requires
        connection.state is Connected,
        connection.position is Server,
        connection.expected is Some,
        streams.len() > 0,
        all_wf(streams),
    ensures
        connection.read_requires(streams, ReadEvent::Payload { size }),
        ({
            let outcome = connection.after_read(streams, ReadEvent::Payload { size });
            let (old_front, front) = (streams[0].front, outcome.streams[0].front);
            &&& outcome.action is Done
            &&& outcome.connection == (ConnectionH2 { expected: None, ..connection })
            &&& front.end == if old_front.end + size <= old_front.bytes.len() {
                old_front.end + size
            } else {
                old_front.bytes.len() as int
            }
            &&& front == (HttpView { end: front.end, ..old_front })
            &&& outcome.streams[0].back == streams[0].back
            &&& outcome.streams[0].request_id == streams[0].request_id
            &&& outcome.streams.len() == streams.len()
            &&& forall|i: int| 0 < i < streams.len() ==> outcome.streams[i] == streams[i]
        }),
{
    assert(streams[0].wf());
}

/// Opening leaves alone all that it is not about: of the connection, all but how far it has come,
/// the expected payload and what it waits for; of the streams, all but the end of the first front
/// half, which moves by the payload that was read, and the 18 bytes that are put behind the data of
/// the first back half: the header of settings of 12 bytes, and that of their acknowledgement.
pub proof fn law_opening_touches_little<Front>(
    connection: ConnectionH2<Front>,
    streams: Seq<StreamView>,
    size: usize,
)
    requires
        connection.state is ClientPreface,
        connection.position is Server,
        all_wf(streams),
        connection.read_requires(streams, ReadEvent::Payload { size }),
    ensures
        ({
            let outcome = connection.after_read(streams, ReadEvent::Payload { size });
            let (old_front, front) = (streams[0].front, outcome.streams[0].front);
            let (old_back, back) = (streams[0].back, outcome.streams[0].back);
            &&& outcome.connection == (ConnectionH2 {
                state: H2State::ServerPreface,
                expected: None,
                readiness: Readiness {
                    event: connection.readiness.event,
                    interest: connection.readiness.interest.with(Ready::WRITABLE).without(
                        Ready::READABLE,
                    ),
                },
                ..connection
            })
            &&& front.end == if old_front.end + size <= old_front.bytes.len() {
                old_front.end + size
            } else {
                old_front.bytes.len() as int
            }
            &&& front == (HttpView { end: front.end, ..old_front })
            &&& back.data() == old_back.data() + seq![
                0u8, 0u8, 12u8, 4u8, 0u8, 0u8, 0u8, 0u8, 0u8,
                0u8, 0u8, 0u8, 4u8, 1u8, 0u8, 0u8, 0u8, 0u8,
            ]
            &&& back.bytes.len() == old_back.bytes.len()
            &&& (back.start, back.head, back.out, back.message) == (
                old_back.start,
                old_back.head,
                old_back.out,
                old_back.message,
            )
            &&& outcome.streams[0].request_id == streams[0].request_id
            &&& outcome.streams.len() == streams.len()
            &&& forall|i: int| 0 < i < streams.len() ==> outcome.streams[i] == streams[i]
        }),
{
    assert(streams[0].wf());
    let back = streams[0].back;
    let first = frame_header_bytes(server_settings());
    let second = frame_header_bytes(settings_ack());
    law_append_extends_data(back, first);
    law_append_extends_data(back.appended(first), second);
    assert(first + second =~= seq![
        0u8, 0u8, 12u8, 4u8, 0u8, 0u8, 0u8, 0u8, 0u8,
        0u8, 0u8, 0u8, 4u8, 1u8, 0u8, 0u8, 0u8, 0u8,
    ]);
    assert(back.data() + first + second =~= back.data() + (first + second));
}

/// A connection refuses what it has no way to go on with: bytes that it did not ask for; a payload
/// that it does not expect, and anything else as long as it expects one; anything at all without a
/// stream to open on, after an error, or as a client that is past its preface; and anything but a
/// readable socket as long as it has its opening to write.
pub proof fn law_reads_nothing_out_of_turn<Front>(
    connection: ConnectionH2<Front>,
    streams: Seq<StreamView>,
    event: ReadEvent<'_>,
)
    requires
        ({
            let waits = (connection.state is ClientPreface && connection.position is Client) || (
            connection.state is ServerPreface && connection.position is Server);
            ||| event is Space
            ||| event is Payload && connection.expected is None
            ||| !waits && !(event is Payload) && connection.expected is Some
            ||| connection.state is ClientPreface && connection.position is Server && streams.len()
                == 0
            ||| connection.state is Error
            ||| connection.position is Client && !(connection.state is ClientPreface)
            ||| waits && !(event is Ready)
        }),
    ensures
        !connection.read_requires(streams, event),
{
}

/// A server that waits for the client refuses bytes that do not start with the preface and the
/// header of settings without flags on stream 0, and those whose payload does not fit.
pub proof fn law_server_refuses_other_openings<Front>(
    connection: ConnectionH2<Front>,
    streams: Seq<StreamView>,
    bytes: &[u8],
    got: usize,
)
    requires
        connection.state is ClientPreface,
        connection.position is Server,
        ({
            ||| bytes@.len() < 33
            ||| bytes@.take(24) != client_preface()
            ||| bytes@[27] != 4 || bytes@[28] != 0
            ||| bytes@[29] % 128 != 0 || bytes@[30] != 0 || bytes@[31] != 0 || bytes@[32] != 0
            ||| bytes@[24] * 0x1_0000 + bytes@[25] * 0x100 + bytes@[26]
                > streams[0].front.bytes.len() - streams[0].front.end
        }),
        all_wf(streams),
    ensures
        !connection.read_requires(streams, ReadEvent::Bytes { bytes, size: got }),
{
    law_opening_fields(bytes@);
    if streams.len() > 0 {
        assert(streams[0].wf());
    }
}

/// A server that waits for the client takes the settings that it expects exactly if they are whole
/// settings, all of them are there, and there is space for its answer.
pub proof fn law_server_takes_whole_settings<Front>(
    connection: ConnectionH2<Front>,
    streams: Seq<StreamView>,
    header: FrameHeader,
    size: usize,
)
    requires
        connection.state is ClientPreface,
        connection.position is Server,
        connection.expected == Some(header),
        header.frame_type is Settings,
        header.flags == 0,
        header.stream_id == 0,
        streams.len() > 0,
        all_wf(streams),
        streams[0].front.end + size <= streams[0].front.bytes.len(),
    ensures
        connection.read_requires(streams, ReadEvent::Payload { size }) <==> {
            &&& header.payload_len % 6 == 0
            &&& header.payload_len <= streams[0].front.end - streams[0].front.start + size
            &&& streams[0].back.bytes.len() - streams[0].back.end >= 18
        },
{
    assert(streams[0].wf());
}

/// A connected server takes what a frame header is read from exactly if it expects no payload, there
/// are nine bytes, and the payload of a known frame fits the storage of the first front half.
pub proof fn law_connected_server_refuses_little<Front>(
    connection: ConnectionH2<Front>,
    streams: Seq<StreamView>,
    bytes: &[u8],
    got: usize,
)
    requires
        connection.state is Connected,
        connection.position is Server,
        connection.expected is None,
    ensures
        !connection.read_requires(streams, ReadEvent::Bytes { bytes, size: got }) <==> {
            ||| bytes@.len() < 9
            ||| got > 0 && bytes@[3] < 10 && (streams.len() == 0 || bytes@[0] * 0x1_0000 + bytes@[1]
                * 0x100 + bytes@[2] > streams[0].front.bytes.len())
        },
{
    law_frame_header_fields(bytes@);
}

/// Only a server that was opened writes, from the first stream. All data of the first back half then
/// goes, however much of it the socket took, the connection is open and waits to read and no longer
/// to write, and nothing else changes.
pub proof fn law_server_writes_all<Front>(
    connection: ConnectionH2<Front>,
    streams: Seq<StreamView>,
    event: WriteEvent,
)
    requires
        all_wf(streams),
    ensures
        connection.write_requires(streams, event) <==> connection.position is Server && (
        connection.state is ServerPreface || connection.state is Connected) && streams.len() > 0,
        event is Ready ==> connection.after_write(streams, event) == (Outcome {
            connection,
            streams,
            action: WriteAction::WriteOutgoing,
        }),
        event is Wrote && streams.len() > 0 ==> {
            let outcome = connection.after_write(streams, event);
            &&& outcome.action is Done
            &&& outcome.connection == (ConnectionH2 {
                state: H2State::Connected,
                readiness: Readiness {
                    event: connection.readiness.event,
                    interest: connection.readiness.interest.without(Ready::WRITABLE).with(
                        Ready::READABLE,
                    ),
                },
                ..connection
            })
            &&& outcome.streams[0].back == (HttpView {
                start: streams[0].back.end,
                ..streams[0].back
            })
            &&& outcome.streams[0].front == streams[0].front
            &&& outcome.streams[0].request_id == streams[0].request_id
            &&& outcome.streams.len() == streams.len()
            &&& forall|i: int| 0 < i < streams.len() ==> outcome.streams[i] == streams[i]
        },
{
    if streams.len() > 0 {
        assert(streams[0].wf());
    }
}

/// What the socket writes for a payload lands behind the data of the first front half, and nothing
/// but those bytes changes.
pub proof fn law_payload_lands_behind_data<Front>(
    connection: ConnectionH2<Front>,
    streams: Seq<StreamView>,
    payload: Seq<u8>,
)
    requires
        all_wf(streams),
        connection.payload_requires(streams),
        payload.len() == connection.expected->0.payload_len,
    ensures
        ({
            let written = connection.with_payload(streams, payload);
            let (old_front, front) = (streams[0].front, written[0].front);
            let end = old_front.end as int;
            &&& front.bytes.len() == old_front.bytes.len()
            &&& front.bytes.subrange(end, end + payload.len()) == payload
            &&& forall|i: int|
                0 <= i < front.bytes.len() && !(end <= i < end + payload.len())
                    ==> #[trigger] front.bytes[i] == old_front.bytes[i]
            &&& front == (HttpView { bytes: front.bytes, ..old_front })
            &&& written[0].back == streams[0].back
            &&& written[0].request_id == streams[0].request_id
            &&& written.len() == streams.len()
            &&& forall|i: int| 0 < i < streams.len() ==> written[i] == streams[i]
        }),
{
    assert(streams[0].wf());
    let end = streams[0].front.end as int;
    let front = connection.with_payload(streams, payload)[0].front;
    assert(front.bytes.subrange(end, end + payload.len()) =~= payload);
}

} // verus!
