//! A connection of either protocol, and what passes between it and its socket.

use crate::h1::ConnectionH1;
use crate::h2::ConnectionH2;
use crate::out::io_slices;
use crate::parser::{FrameHeader, Setting};
use crate::ready::{Readiness, Ready};
use crate::stream::{all_wf, views, Stream, StreamView};
use vstd::prelude::*;

verus! {

/// Which side of the exchange a connection is on.
#[derive(Clone, Copy, Debug, PartialEq, Eq, Structural)]
pub enum Position {
    Client,
    Server,
}

/// How a socket is after a read or a write.
#[derive(Clone, Copy, Debug, PartialEq, Eq, Structural)]
pub enum SocketResult {
    Continue,
    Closed,
    WouldBlock,
    Error,
}

/// What a connection that reads is told.
#[derive(Clone, Copy, Debug)]
pub enum ReadEvent<'b> {
    /// Its socket is readable.
    Ready,
    /// The socket wrote `size` bytes to the space of the stream and left it at `status`.
    Space { size: usize, status: SocketResult },
    /// The socket wrote `size` bytes to the front of `bytes`.
    Bytes { bytes: &'b [u8], size: usize },
    /// The socket wrote `size` bytes to the space for the payload that the connection expects.
    Payload { size: usize },
}

/// What a connection that reads wants done.
#[derive(Debug)]
pub enum ReadAction {
    /// Nothing more.
    Done,
    /// Nothing more: the peer has opened the connection with these settings.
    Opened { settings: Vec<Setting> },
    /// Read into the space of the stream.
    ReadSpace,
    /// Read into `len` bytes, all of them 0 at first.
    ReadBytes { len: usize },
    /// Read into the space for the payload of the frame with that header.
    ReadPayload { header: FrameHeader },
}

/// What a `ReadAction` holds.
pub enum ReadActionView {
    Done,
    Opened { settings: Seq<Setting> },
    ReadSpace,
    ReadBytes { len: usize },
    ReadPayload { header: FrameHeader },
}

impl View for ReadAction {
    type V = ReadActionView;

    open spec fn view(&self) -> ReadActionView {
        match self {
            ReadAction::Done => ReadActionView::Done,
            ReadAction::Opened { settings } => ReadActionView::Opened { settings: settings@ },
            ReadAction::ReadSpace => ReadActionView::ReadSpace,
            ReadAction::ReadBytes { len } => ReadActionView::ReadBytes { len: *len },
            ReadAction::ReadPayload { header } => ReadActionView::ReadPayload { header: *header },
        }
    }
}

/// What a connection that writes is told.
#[derive(Clone, Copy, Debug, PartialEq, Eq, Structural)]
pub enum WriteEvent {
    /// Its socket is writable.
    Ready,
    /// The socket took `size` of the outgoing bytes.
    Wrote { size: usize },
}

/// What a connection that writes wants done.
#[derive(Clone, Copy, Debug, PartialEq, Eq, Structural)]
pub enum WriteAction {
    /// Nothing more.
    Done,
    /// Write the outgoing bytes.
    WriteOutgoing,
}

/// What comes of an event: the connection and the streams after it, and what is to be done.
pub struct Outcome<Connection, Action> {
    pub connection: Connection,
    pub streams: Seq<StreamView>,
    pub action: Action,
}

/// A connection of either protocol.
pub enum Connection<Front> {
    H1(ConnectionH1<Front>),
    H2(ConnectionH2<Front>),
}

impl<Front> Connection<Front> {
    /// The readiness of the connection.
    pub open spec fn spec_readiness(self) -> Readiness {
        match self {
            Connection::H1(c) => c.readiness,
            Connection::H2(c) => c.readiness,
        }
    }

    /// The connection with another readiness.
    pub open spec fn with_readiness(self, readiness: Readiness) -> Self {
        match self {
            Connection::H1(c) => Connection::H1(ConnectionH1 { readiness, ..c }),
            Connection::H2(c) => Connection::H2(ConnectionH2 { readiness, ..c }),
        }
    }

    /// The connection with `events` added to those its socket reported.
    pub open spec fn with_event(self, events: Ready) -> Self {
        self.with_readiness(
            Readiness {
                event: self.spec_readiness().event.with(events.0),
                ..self.spec_readiness()
            },
        )
    }

    /// The socket of the connection.
    pub open spec fn spec_socket(self) -> Front {
        match self {
            Connection::H1(c) => c.socket,
            Connection::H2(c) => c.socket,
        }
    }

    pub fn readiness(&self) -> (readiness: &Readiness)
        ensures
            *readiness == self.spec_readiness(),
    {
        match self {
            Connection::H1(c) => &c.readiness,
            Connection::H2(c) => &c.readiness,
        }
    }

    pub fn readiness_mut(&mut self) -> (readiness: &mut Readiness)
        ensures
            *readiness == old(self).spec_readiness(),
            *final(self) == old(self).with_readiness(*final(readiness)),
    {
        match self {
            Connection::H1(c) => &mut c.readiness,
            Connection::H2(c) => &mut c.readiness,
        }
    }

    /// The stream that the connection reads into and writes from.
    pub open spec fn stream_index(self) -> int {
        match self {
            Connection::H1(c) => c.stream as int,
            Connection::H2(_) => 0,
        }
    }

    /// The connection handles `event`.
    pub open spec fn read_requires(self, streams: Seq<StreamView>, event: ReadEvent<'_>) -> bool {
        match self {
            Connection::H1(c) => c.read_requires(streams, event),
            Connection::H2(c) => c.read_requires(streams, event),
        }
    }

    /// What comes of `event`, as its protocol has it.
    pub open spec fn after_read(self, streams: Seq<StreamView>, event: ReadEvent<'_>) -> Outcome<
        Self,
        ReadActionView,
    > {
        match self {
            Connection::H1(c) => {
                let outcome = c.after_read(streams, event);
                Outcome {
                    connection: Connection::H1(outcome.connection),
                    streams: outcome.streams,
                    action: outcome.action,
                }
            },
            Connection::H2(c) => {
                let outcome = c.after_read(streams, event);
                Outcome {
                    connection: Connection::H2(outcome.connection),
                    streams: outcome.streams,
                    action: outcome.action,
                }
            },
        }
    }

    /// Takes in what the socket gave.
    pub fn readable(&mut self, streams: &mut [Stream<'_>], event: ReadEvent<'_>) -> (action:
        ReadAction)
        requires
            all_wf(views(old(streams)@)),
            old(self).read_requires(views(old(streams)@), event),
        ensures
            (Outcome { connection: *final(self), streams: views(final(streams)@), action: action@ })
                == old(self).after_read(views(old(streams)@), event),
            all_wf(views(final(streams)@)),
    {
        match self {
            Connection::H1(c) => c.readable(streams, event),
            Connection::H2(c) => c.readable(streams, event),
        }
    }

    /// Takes in what the socket gave, if the connection handles that.
    pub fn try_readable(&mut self, streams: &mut [Stream<'_>], event: ReadEvent<'_>) -> (action:
        Option<ReadAction>)
        requires
            all_wf(views(old(streams)@)),
        ensures
            action is Some <==> old(self).read_requires(views(old(streams)@), event),
            match action {
                Some(action) => (Outcome {
                    connection: *final(self),
                    streams: views(final(streams)@),
                    action: action@,
                }) == old(self).after_read(views(old(streams)@), event),
                None => *final(self) == *old(self) && final(streams)@ == old(streams)@,
            },
            all_wf(views(final(streams)@)),
    {
        let can = match &*self {
            Connection::H1(c) => c.can_read(streams, &event),
            Connection::H2(c) => c.can_read(streams, &event),
        };
        if can {
            Some(self.readable(streams, event))
        } else {
            None
        }
    }

    /// The connection handles `event`.
    pub open spec fn write_requires(self, streams: Seq<StreamView>, event: WriteEvent) -> bool {
        match self {
            Connection::H1(c) => c.write_requires(streams, event),
            Connection::H2(c) => c.write_requires(streams, event),
        }
    }

    /// What comes of `event`, as its protocol has it.
    pub open spec fn after_write(self, streams: Seq<StreamView>, event: WriteEvent) -> Outcome<
        Self,
        WriteAction,
    > {
        match self {
            Connection::H1(c) => {
                let outcome = c.after_write(streams, event);
                Outcome {
                    connection: Connection::H1(outcome.connection),
                    streams: outcome.streams,
                    action: outcome.action,
                }
            },
            Connection::H2(c) => {
                let outcome = c.after_write(streams, event);
                Outcome {
                    connection: Connection::H2(outcome.connection),
                    streams: outcome.streams,
                    action: outcome.action,
                }
            },
        }
    }

    /// Gets output ready for the socket, or takes off it what the socket took.
    pub fn writable(&mut self, streams: &mut [Stream<'_>], event: WriteEvent) -> (action:
        WriteAction)
        requires
            all_wf(views(old(streams)@)),
            old(self).write_requires(views(old(streams)@), event),
        ensures
            (Outcome { connection: *final(self), streams: views(final(streams)@), action })
                == old(self).after_write(views(old(streams)@), event),
            all_wf(views(final(streams)@)),
    {
        match self {
            Connection::H1(c) => c.writable(streams, event),
            Connection::H2(c) => c.writable(streams, event),
        }
    }

    /// Gets output ready for the socket, or takes off it what the socket took, if the connection
    /// handles that.
    pub fn try_writable(&mut self, streams: &mut [Stream<'_>], event: WriteEvent) -> (action:
        Option<WriteAction>)
        requires
            all_wf(views(old(streams)@)),
        ensures
            action is Some <==> old(self).write_requires(views(old(streams)@), event),
            match action {
                Some(action) => (Outcome {
                    connection: *final(self),
                    streams: views(final(streams)@),
                    action,
                }) == old(self).after_write(views(old(streams)@), event),
                None => *final(self) == *old(self) && final(streams)@ == old(streams)@,
            },
            all_wf(views(final(streams)@)),
    {
        let can = match &*self {
            Connection::H1(c) => c.can_write(streams, &event),
            Connection::H2(c) => c.can_write(streams, &event),
        };
        if can {
            Some(self.writable(streams, event))
        } else {
            None
        }
    }

    /// The outgoing bytes are there.
    pub open spec fn outgoing_requires(self, streams: Seq<StreamView>) -> bool {
        match self {
            Connection::H1(c) => c.outgoing_requires(streams),
            Connection::H2(_) => streams.len() > 0,
        }
    }

    /// The outgoing bytes: the output of the stream in HTTP/1, the data of the first back half in
    /// HTTP/2.
    pub open spec fn outgoing_slices(self, streams: Seq<StreamView>) -> Seq<Seq<u8>> {
        match self {
            Connection::H1(c) => io_slices(c.writes(streams).out, c.writes(streams).bytes),
            Connection::H2(_) => seq![streams[0].back.data()],
        }
    }

    /// The outgoing bytes, if they are there.
    pub fn outgoing(&self, streams: &[Stream<'_>]) -> (slices: Option<Vec<Vec<u8>>>)
        requires
            all_wf(views(streams@)),
        ensures
            slices is Some <==> self.outgoing_requires(views(streams@)),
            slices matches Some(slices) ==> slices@.map_values(|slice: Vec<u8>| slice@)
                == self.outgoing_slices(views(streams@)),
    {
        match self {
            Connection::H1(c) => if c.has_outgoing(streams) {
                Some(c.outgoing(streams))
            } else {
                None
            },
            Connection::H2(c) => if streams.len() > 0 {
                Some(c.outgoing(streams))
            } else {
                None
            },
        }
    }
}

/// Reading changes no stream but the one of the connection, and no request identifier; the
/// connection keeps its socket.
pub proof fn law_read_changes_one_stream<Front>(
    connection: Connection<Front>,
    streams: Seq<StreamView>,
    event: ReadEvent<'_>,
)
    requires
        connection.read_requires(streams, event),
    ensures
        ({
            let outcome = connection.after_read(streams, event);
            &&& outcome.streams.len() == streams.len()
            &&& forall|i: int|
                0 <= i < streams.len() && i != connection.stream_index() ==> outcome.streams[i]
                    == streams[i]
            &&& forall|i: int|
                0 <= i < streams.len() ==> (#[trigger] outcome.streams[i]).request_id
                    == streams[i].request_id
            &&& outcome.connection.spec_socket() == connection.spec_socket()
            &&& outcome.connection.stream_index() == connection.stream_index()
        }),
{
}

/// Writing changes no stream but the one of the connection, and no request identifier; the
/// connection keeps its socket.
pub proof fn law_write_changes_one_stream<Front>(
    connection: Connection<Front>,
    streams: Seq<StreamView>,
    event: WriteEvent,
)
    requires
        connection.write_requires(streams, event),
    ensures
        ({
            let outcome = connection.after_write(streams, event);
            &&& outcome.streams.len() == streams.len()
            &&& forall|i: int|
                0 <= i < streams.len() && i != connection.stream_index() ==> outcome.streams[i]
                    == streams[i]
            &&& forall|i: int|
                0 <= i < streams.len() ==> (#[trigger] outcome.streams[i]).request_id
                    == streams[i].request_id
            &&& outcome.connection.spec_socket() == connection.spec_socket()
            &&& outcome.connection.stream_index() == connection.stream_index()
        }),
{
}

/// Events that a socket reports add up: no report takes one back, and two reports amount to one of
/// both.
pub proof fn law_events_add_up<Front>(
    connection: Connection<Front>,
    first: Ready,
    second: Ready,
    event: u16,
)
    ensures
        connection.with_event(first).spec_readiness().event.has(first.0),
        connection.spec_readiness().event.has(event) ==> connection.with_event(
            first,
        ).spec_readiness().event.has(event),
        connection.with_event(first).spec_readiness().interest
            == connection.spec_readiness().interest,
        connection.with_event(first).with_event(second) == connection.with_event(
            first.with(second.0),
        ),
{
    let bits = connection.spec_readiness().event.0;
    let (a, b) = (first.0, second.0);
    assert((bits | a) & a == a) by (bit_vector);
    assert(bits & event == event ==> (bits | a) & event == event) by (bit_vector);
    assert(bits | a | b == bits | (a | b)) by (bit_vector);
}

/// No event is gained from `before` to `after`, and hang-ups and errors stay reported and waited for
/// as they were.
pub open spec fn only_served(before: Readiness, after: Readiness) -> bool {
    &&& forall|event: u16| #[trigger] after.event.has(event) ==> before.event.has(event)
    &&& after.event.has(Ready::HUP) == before.event.has(Ready::HUP)
    &&& after.event.has(Ready::ERROR) == before.event.has(Ready::ERROR)
    &&& after.interest.has(Ready::HUP) == before.interest.has(Ready::HUP)
    &&& after.interest.has(Ready::ERROR) == before.interest.has(Ready::ERROR)
}

/// Taking out events, or adding some, that are neither hang-ups nor errors leaves those two alone,
/// and taking out gains none.
proof fn lemma_served(ready: Ready, events: u16)
    requires
        events == Ready::READABLE || events == Ready::WRITABLE,
    ensures
        forall|event: u16| #[trigger] ready.without(events).has(event) ==> ready.has(event),
        ready.without(events).has(Ready::HUP) == ready.has(Ready::HUP),
        ready.without(events).has(Ready::ERROR) == ready.has(Ready::ERROR),
        ready.with(events).has(Ready::HUP) == ready.has(Ready::HUP),
        ready.with(events).has(Ready::ERROR) == ready.has(Ready::ERROR),
{
    let bits = ready.0;
    assert forall|event: u16| #[trigger] ready.without(events).has(event) implies ready.has(
        event,
    ) by {
        assert(bits & !events & event == event ==> bits & event == event) by (bit_vector);
    }
    assert(bits & !events & 8u16 == bits & 8u16 && bits & !events & 4u16 == bits & 4u16) by (
    bit_vector)
        requires
            events == 1u16 || events == 2u16,
    ;
    assert((bits | events) & 8u16 == bits & 8u16 && (bits | events) & 4u16 == bits & 4u16) by (
    bit_vector)
        requires
            events == 1u16 || events == 2u16,
    ;
}

/// Reading makes no event up, and hides neither a hang-up nor an error.
pub proof fn law_read_only_serves<Front>(
    connection: Connection<Front>,
    streams: Seq<StreamView>,
    event: ReadEvent<'_>,
)
    ensures
        only_served(
            connection.spec_readiness(),
            connection.after_read(streams, event).connection.spec_readiness(),
        ),
{
    let readiness = connection.spec_readiness();
    lemma_served(readiness.event, Ready::READABLE);
    lemma_served(readiness.interest, Ready::READABLE);
    lemma_served(readiness.interest, Ready::WRITABLE);
    lemma_served(readiness.interest.with(Ready::WRITABLE), Ready::READABLE);
}

/// Writing makes no event up, and hides neither a hang-up nor an error.
pub proof fn law_write_only_serves<Front>(
    connection: Connection<Front>,
    streams: Seq<StreamView>,
    event: WriteEvent,
)
    ensures
        only_served(
            connection.spec_readiness(),
            connection.after_write(streams, event).connection.spec_readiness(),
        ),
{
    let readiness = connection.spec_readiness();
    lemma_served(readiness.event, Ready::WRITABLE);
    lemma_served(readiness.interest, Ready::WRITABLE);
    lemma_served(readiness.interest.without(Ready::WRITABLE), Ready::READABLE);
}

/// A connection handles, does and has outgoing what its protocol says, and stays one of its
/// protocol.
pub proof fn law_connection_is_its_protocol<Front>(
    h1: ConnectionH1<Front>,
    h2: ConnectionH2<Front>,
    streams: Seq<StreamView>,
    read: ReadEvent<'_>,
    write: WriteEvent,
)
    ensures
        Connection::H1(h1).read_requires(streams, read) == h1.read_requires(streams, read),
        Connection::H2(h2).read_requires(streams, read) == h2.read_requires(streams, read),
        Connection::H1(h1).write_requires(streams, write) == h1.write_requires(streams, write),
        Connection::H2(h2).write_requires(streams, write) == h2.write_requires(streams, write),
        Connection::H1(h1).outgoing_requires(streams) == h1.outgoing_requires(streams),
        Connection::H2(h2).outgoing_requires(streams) <==> streams.len() > 0,
        ({
            let outer = Connection::H1(h1).after_read(streams, read);
            let inner = h1.after_read(streams, read);
            &&& outer.connection == Connection::H1(inner.connection)
            &&& outer.streams == inner.streams
            &&& outer.action == inner.action
        }),
        ({
            let outer = Connection::H2(h2).after_read(streams, read);
            let inner = h2.after_read(streams, read);
            &&& outer.connection == Connection::H2(inner.connection)
            &&& outer.streams == inner.streams
            &&& outer.action == inner.action
        }),
        ({
            let outer = Connection::H1(h1).after_write(streams, write);
            let inner = h1.after_write(streams, write);
            &&& outer.connection == Connection::H1(inner.connection)
            &&& outer.streams == inner.streams
            &&& outer.action == inner.action
        }),
        ({
            let outer = Connection::H2(h2).after_write(streams, write);
            let inner = h2.after_write(streams, write);
            &&& outer.connection == Connection::H2(inner.connection)
            &&& outer.streams == inner.streams
            &&& outer.action == inner.action
        }),
{
}

/// What goes out is, in HTTP/1, the output in the back of the stream of a client and in the front of
/// the stream of a server, and in HTTP/2 all data of the back of the first stream.
pub proof fn law_outgoing_comes_from_its_side<Front>(
    h1: ConnectionH1<Front>,
    h2: ConnectionH2<Front>,
    streams: Seq<StreamView>,
)
    ensures
        h1.position is Client ==> Connection::H1(h1).outgoing_slices(streams) == io_slices(
            streams[h1.stream as int].back.out,
            streams[h1.stream as int].back.bytes,
        ),
        h1.position is Server ==> Connection::H1(h1).outgoing_slices(streams) == io_slices(
            streams[h1.stream as int].front.out,
            streams[h1.stream as int].front.bytes,
        ),
        Connection::H2(h2).outgoing_slices(streams) == seq![
            streams[0].back.bytes.subrange(streams[0].back.start as int, streams[0].back.end as int),
        ],
{
}

/// The readiness and the socket of a connection are those of its protocol; giving it another
/// readiness, or reporting events to it, changes nothing else, and a report leaves what it waits for.
pub proof fn law_readiness_is_its_protocols<Front>(
    h1: ConnectionH1<Front>,
    h2: ConnectionH2<Front>,
    readiness: Readiness,
    events: Ready,
)
    ensures
        Connection::H1(h1).spec_readiness() == h1.readiness,
        Connection::H2(h2).spec_readiness() == h2.readiness,
        Connection::H1(h1).spec_socket() == h1.socket,
        Connection::H2(h2).spec_socket() == h2.socket,
        Connection::H1(h1).with_readiness(readiness) == Connection::H1(
            ConnectionH1 { readiness, ..h1 },
        ),
        Connection::H2(h2).with_readiness(readiness) == Connection::H2(
            ConnectionH2 { readiness, ..h2 },
        ),
        Connection::H1(h1).with_event(events) == Connection::H1(
            ConnectionH1 {
                readiness: Readiness {
                    event: Ready(h1.readiness.event.0 | events.0),
                    interest: h1.readiness.interest,
                },
                ..h1
            },
        ),
        Connection::H2(h2).with_event(events) == Connection::H2(
            ConnectionH2 {
                readiness: Readiness {
                    event: Ready(h2.readiness.event.0 | events.0),
                    interest: h2.readiness.interest,
                },
                ..h2
            },
        ),
{
}

} // verus!
