//! Connections that speak HTTP/1.

use crate::connection::{
    Outcome, Position, ReadAction, ReadActionView, ReadEvent, SocketResult, WriteAction, WriteEvent,
};
use crate::out::{
    all_bytes, all_within, before_delimiter, io_slices, law_one_write, sendable, total_len,
};
use crate::ready::{lemma_without_twice, Readiness, Ready};
use crate::stream::{
    all_wf, h1_parsed, h1_prepared, has_blocks, law_release_drops_a_prefix,
    law_release_takes_written_bytes, terminated, views, HttpView, Stream, StreamView,
};
use vstd::prelude::*;

verus! {

/// An HTTP/1 connection.
pub struct ConnectionH1<Front> {
    pub position: Position,
    pub readiness: Readiness,
    pub socket: Front,
    /// A server always refers to stream 0, a client can refer to any stream.
    pub stream: usize,
}

impl StreamView {
    /// The half that an HTTP/1 connection at `position` reads into.
    pub open spec fn read_half(self, position: Position) -> HttpView {
        match position {
            Position::Client => self.front,
            Position::Server => self.back,
        }
    }

    /// The stream with another half there.
    pub open spec fn with_read_half(self, position: Position, half: HttpView) -> StreamView {
        match position {
            Position::Client => StreamView { front: half, ..self },
            Position::Server => StreamView { back: half, ..self },
        }
    }

    /// The half that an HTTP/1 connection at `position` writes from.
    pub open spec fn write_half(self, position: Position) -> HttpView {
        match position {
            Position::Client => self.back,
            Position::Server => self.front,
        }
    }

    /// The stream with another half there.
    pub open spec fn with_write_half(self, position: Position, half: HttpView) -> StreamView {
        match position {
            Position::Client => StreamView { back: half, ..self },
            Position::Server => StreamView { front: half, ..self },
        }
    }
}

impl<Front> ConnectionH1<Front> {
    /// A server refers to stream 0.
    pub open spec fn wf(self) -> bool {
        self.position is Server ==> self.stream == 0
    }

    /// The half that the connection reads into.
    pub open spec fn reads(self, streams: Seq<StreamView>) -> HttpView {
        streams[self.stream as int].read_half(self.position)
    }

    /// The half that the connection writes from.
    pub open spec fn writes(self, streams: Seq<StreamView>) -> HttpView {
        streams[self.stream as int].write_half(self.position)
    }

    /// The streams with another half where the connection reads into.
    pub open spec fn with_reads(self, streams: Seq<StreamView>, half: HttpView) -> Seq<StreamView> {
        streams.update(
            self.stream as int,
            streams[self.stream as int].with_read_half(self.position, half),
        )
    }

    /// The streams with another half where the connection writes from.
    pub open spec fn with_writes(self, streams: Seq<StreamView>, half: HttpView) -> Seq<
        StreamView,
    > {
        streams.update(
            self.stream as int,
            streams[self.stream as int].with_write_half(self.position, half),
        )
    }

    /// The connection handles `event`. It has no way to go on once its socket is closed or failed.
    pub open spec fn read_requires(self, streams: Seq<StreamView>, event: ReadEvent<'_>) -> bool {
        &&& self.stream < streams.len()
        &&& match event {
            ReadEvent::Ready => true,
            ReadEvent::Space { status, .. } => status is Continue || status is WouldBlock,
            _ => false,
        }
    }

    /// What comes of `event`: bytes that were read count as data of the half and go to the parser.
    /// The socket is no longer readable once it gave nothing or would block, and the connection
    /// no longer waits for it to be once the message is at its end.
    pub open spec fn after_read(self, streams: Seq<StreamView>, event: ReadEvent<'_>) -> Outcome<
        Self,
        ReadActionView,
    > {
        match event {
            ReadEvent::Space { size, status } => {
                let half = self.reads(streams).filled(size as nat).parsed();
                let readiness = Readiness {
                    event: if size == 0 || status is WouldBlock {
                        self.readiness.event.without(Ready::READABLE)
                    } else {
                        self.readiness.event
                    },
                    interest: if terminated(half.message) {
                        self.readiness.interest.without(Ready::READABLE)
                    } else {
                        self.readiness.interest
                    },
                };
                Outcome {
                    connection: ConnectionH1 { readiness, ..self },
                    streams: self.with_reads(streams, half),
                    action: ReadActionView::Done,
                }
            },
            _ => Outcome { connection: self, streams, action: ReadActionView::ReadSpace },
        }
    }

    /// The space that the socket is to write to.
    pub fn read_space<'a, 'b>(&self, streams: &'b mut [Stream<'a>]) -> (space: &'b mut [u8])
        requires
            self.stream < old(streams)@.len(),
            all_wf(views(old(streams)@)),
        ensures
            space@ == self.reads(views(old(streams)@)).bytes.skip(
                self.reads(views(old(streams)@)).end as int,
            ),
            final(space)@.len() == space@.len(),
            views(final(streams)@) == self.with_reads(
                views(old(streams)@),
                self.reads(views(old(streams)@)).with_space(final(space)@),
            ),
    {
        assert(views(streams@)[self.stream as int].wf());
        let stream = &mut streams[self.stream];
        match self.position {
            Position::Client => stream.front.storage_space(),
            Position::Server => stream.back.storage_space(),
        }
    }

    /// Takes in what the socket gave.
    pub fn readable(&mut self, streams: &mut [Stream<'_>], event: ReadEvent<'_>) -> (action:
        ReadAction)
        requires
            all_wf(views(old(streams)@)),
            old(self).read_requires(views(old(streams)@), event),
        ensures
            (Outcome { connection: *final(self), streams: views(final(streams)@), action: action@ })
                == old(self).after_read(views(old(streams)@), event),
            all_wf(views(final(streams)@)),
            old(self).wf() ==> final(self).wf(),
            // A message at its end stays as it is.
            event matches ReadEvent::Space { size, .. } ==> terminated(
                old(self).reads(views(old(streams)@)).message,
            ) ==> final(self).reads(views(final(streams)@)) == old(self).reads(
                views(old(streams)@),
            ).filled(size as nat),
            // Without new bytes there is nothing new to parse.
            event matches ReadEvent::Space { size, .. } ==> size == 0 && old(self).reads(
                views(old(streams)@),
            ).head == old(self).reads(views(old(streams)@)).end ==> views(final(streams)@) == views(
                old(streams)@,
            ),
    {
        match event {
            ReadEvent::Space { size, status } => {
                let ghost before = views(streams@);
                assert(before[self.stream as int].wf());
                let done = {
                    let stream = &mut streams[self.stream];
                    let half = match self.position {
                        Position::Client => &mut stream.front,
                        Position::Server => &mut stream.back,
                    };
                    if size > 0 {
                        half.storage_fill(size);
                    } else {
                        self.readiness.event.remove(Ready::READABLE);
                    }
                    match status {
                        SocketResult::WouldBlock => self.readiness.event.remove(Ready::READABLE),
                        _ => {},
                    }
                    half.kawa_parse();
                    half.is_terminated()
                };
                if done {
                    self.readiness.interest.remove(Ready::READABLE);
                }
                proof {
                    lemma_without_twice(old(self).readiness.event, Ready::READABLE);
                    let half = old(self).reads(before).filled(size as nat).parsed();
                    assert(half.wf());
                    assert(views(streams@) =~= old(self).with_reads(before, half));
                }
                ReadAction::Done
            },
            _ => ReadAction::ReadSpace,
        }
    }

    /// Whether the connection handles `event`.
    pub fn can_read(&self, streams: &[Stream<'_>], event: &ReadEvent<'_>) -> (can: bool)
        ensures
            can == self.read_requires(views(streams@), *event),
    {
        self.stream < streams.len() && match event {
            ReadEvent::Ready => true,
            ReadEvent::Space { status: SocketResult::Continue, .. } => true,
            ReadEvent::Space { status: SocketResult::WouldBlock, .. } => true,
            _ => false,
        }
    }

    /// The connection handles `event`: what was written can be taken off its output queue.
    pub open spec fn write_requires(self, streams: Seq<StreamView>, event: WriteEvent) -> bool {
        &&& self.stream < streams.len()
        &&& event matches WriteEvent::Wrote { size } ==> size > 0 ==> self.writes(
            streams,
        ).releasable(size as nat)
    }

    /// What comes of `event`: the blocks of the half become output, and the connection no longer
    /// waits for its socket to be writable once there is none. What the socket took is taken off
    /// the output; once it took nothing, it is no longer writable.
    pub open spec fn after_write(self, streams: Seq<StreamView>, event: WriteEvent) -> Outcome<
        Self,
        WriteAction,
    > {
        match event {
            WriteEvent::Ready => {
                let half = self.writes(streams).prepared();
                if io_slices(half.out, half.bytes).len() == 0 {
                    Outcome {
                        connection: ConnectionH1 {
                            readiness: Readiness {
                                interest: self.readiness.interest.without(Ready::WRITABLE),
                                ..self.readiness
                            },
                            ..self
                        },
                        streams: self.with_writes(streams, half),
                        action: WriteAction::Done,
                    }
                } else {
                    Outcome {
                        connection: self,
                        streams: self.with_writes(streams, half),
                        action: WriteAction::WriteOutgoing,
                    }
                }
            },
            WriteEvent::Wrote { size } => if size > 0 {
                Outcome {
                    connection: self,
                    streams: self.with_writes(
                        streams,
                        self.writes(streams).released(size as nat),
                    ),
                    action: WriteAction::Done,
                }
            } else {
                Outcome {
                    connection: ConnectionH1 {
                        readiness: Readiness {
                            event: self.readiness.event.without(Ready::WRITABLE),
                            ..self.readiness
                        },
                        ..self
                    },
                    streams,
                    action: WriteAction::Done,
                }
            },
        }
    }

    /// Gets output ready for the socket, or takes off it what the socket took.
    pub fn writable(&mut self, streams: &mut [Stream<'_>], event: WriteEvent) -> (action:
        WriteAction)
        requires
            all_wf(views(old(streams)@)),
            old(self).write_requires(views(old(streams)@), event),
        ensures
            (Outcome { connection: *final(self), streams: views(final(streams)@), action })
                == old(self).after_write(views(old(streams)@), event),
            all_wf(views(final(streams)@)),
            old(self).wf() ==> final(self).wf(),
            // No block is left to convert.
            event is Ready ==> match old(self).position {
                Position::Client => !has_blocks(
                    final(streams)@[old(self).stream as int].back@.message,
                ),
                Position::Server => !has_blocks(
                    final(streams)@[old(self).stream as int].front@.message,
                ),
            },
            // Without blocks there is nothing to convert; without output either, the connection
            // stops waiting.
            event is Ready && !has_blocks(old(self).writes(views(old(streams)@)).message) ==> {
                let half = old(self).writes(views(old(streams)@));
                &&& views(final(streams)@) == views(old(streams)@)
                &&& if io_slices(half.out, half.bytes).len() == 0 {
                    &&& action == WriteAction::Done
                    &&& final(self).readiness.interest == old(self).readiness.interest.without(
                        Ready::WRITABLE,
                    )
                } else {
                    action == WriteAction::WriteOutgoing && *final(self) == *old(self)
                }
            },
    {
        let ghost before = views(streams@);
        assert(before[self.stream as int].wf());
        match event {
            WriteEvent::Ready => {
                let nothing = {
                    let stream = &mut streams[self.stream];
                    let half = match self.position {
                        Position::Client => &mut stream.back,
                        Position::Server => &mut stream.front,
                    };
                    half.kawa_prepare();
                    half.nothing_to_send()
                };
                proof {
                    let half = self.writes(before).prepared();
                    assert(views(streams@) =~= self.with_writes(before, half));
                }
                if nothing {
                    self.readiness.interest.remove(Ready::WRITABLE);
                    return WriteAction::Done;
                }
                WriteAction::WriteOutgoing
            },
            WriteEvent::Wrote { size } => {
                if size > 0 {
                    let stream = &mut streams[self.stream];
                    let half = match self.position {
                        Position::Client => &mut stream.back,
                        Position::Server => &mut stream.front,
                    };
                    half.kawa_consume(size);
                    proof {
                        let half = self.writes(before).released(size as nat);
                        assert(half.wf());
                        assert(views(streams@) =~= self.with_writes(before, half));
                    }
                } else {
                    self.readiness.event.remove(Ready::WRITABLE);
                }
                WriteAction::Done
            },
        }
    }

    /// Whether the connection handles `event`.
    pub fn can_write(&self, streams: &[Stream<'_>], event: &WriteEvent) -> (can: bool)
        requires
            all_wf(views(streams@)),
        ensures
            can == self.write_requires(views(streams@), *event),
    {
        if self.stream >= streams.len() {
            return false;
        }
        assert(views(streams@)[self.stream as int].wf());
        match event {
            WriteEvent::Ready => true,
            WriteEvent::Wrote { size } => *size == 0 || match self.position {
                Position::Client => streams[self.stream].back.can_release(*size),
                Position::Server => streams[self.stream].front.can_release(*size),
            },
        }
    }

    /// The output is there and has bytes to send.
    pub open spec fn outgoing_requires(self, streams: Seq<StreamView>) -> bool {
        &&& self.stream < streams.len()
        &&& sendable(self.writes(streams).out, self.writes(streams).bytes.len())
    }

    /// Whether the output is there and has bytes to send.
    pub fn has_outgoing(&self, streams: &[Stream<'_>]) -> (has: bool)
        ensures
            has == self.outgoing_requires(views(streams@)),
    {
        self.stream < streams.len() && match self.position {
            Position::Client => streams[self.stream].back.can_send(),
            Position::Server => streams[self.stream].front.can_send(),
        }
    }

    /// The outgoing bytes: those of each entry of the output queue, up to the first delimiter.
    pub fn outgoing(&self, streams: &[Stream<'_>]) -> (slices: Vec<Vec<u8>>)
        requires
            self.outgoing_requires(views(streams@)),
        ensures
            slices@.map_values(|slice: Vec<u8>| slice@) == io_slices(
                self.writes(views(streams@)).out,
                self.writes(views(streams@)).bytes,
            ),
    {
        match self.position {
            Position::Client => streams[self.stream].back.kawa_as_io_slice(),
            Position::Server => streams[self.stream].front.kawa_as_io_slice(),
        }
    }
}

/// What a connection reads into is what a connection at the other end of the stream writes from.
pub proof fn law_halves_cross(stream: StreamView)
    ensures
        stream.read_half(Position::Server) == stream.write_half(Position::Client),
        stream.read_half(Position::Client) == stream.write_half(Position::Server),
{
}

/// Reading leaves alone what the connection writes from, and writing what it reads into.
pub proof fn law_directions_apart<Front>(
    connection: ConnectionH1<Front>,
    streams: Seq<StreamView>,
    read: ReadEvent<'_>,
    write: WriteEvent,
)
    requires
        connection.stream < streams.len(),
    ensures
        connection.writes(connection.after_read(streams, read).streams) == connection.writes(
            streams,
        ),
        connection.reads(connection.after_write(streams, write).streams) == connection.reads(
            streams,
        ),
{
}

/// A client reads into the front of its stream and writes from the back, a server the other way
/// round.
pub proof fn law_sides<Front>(
    connection: ConnectionH1<Front>,
    streams: Seq<StreamView>,
    half: HttpView,
)
    requires
        connection.stream < streams.len(),
    ensures
        ({
            let own = streams[connection.stream as int];
            let read = connection.with_reads(streams, half);
            let written = connection.with_writes(streams, half);
            match connection.position {
                Position::Client => {
                    &&& connection.reads(streams) == own.front
                    &&& connection.writes(streams) == own.back
                    &&& read == streams.update(
                        connection.stream as int,
                        StreamView { front: half, ..own },
                    )
                    &&& written == streams.update(
                        connection.stream as int,
                        StreamView { back: half, ..own },
                    )
                },
                Position::Server => {
                    &&& connection.reads(streams) == own.back
                    &&& connection.writes(streams) == own.front
                    &&& read == streams.update(
                        connection.stream as int,
                        StreamView { back: half, ..own },
                    )
                    &&& written == streams.update(
                        connection.stream as int,
                        StreamView { front: half, ..own },
                    )
                },
            }
        }),
{
}

/// A connection on either side reads into any stream there is, as long as its socket is open: it
/// asks for the space of the stream, and takes any number of bytes. Nothing else is handled.
pub proof fn law_reads_any_stream<Front>(
    connection: ConnectionH1<Front>,
    streams: Seq<StreamView>,
    event: ReadEvent<'_>,
)
    ensures
        connection.stream >= streams.len() ==> !connection.read_requires(streams, event),
        connection.stream < streams.len() ==> match event {
            ReadEvent::Ready => {
                &&& connection.read_requires(streams, event)
                &&& connection.after_read(streams, event) == (Outcome {
                    connection,
                    streams,
                    action: ReadActionView::ReadSpace,
                })
            },
            ReadEvent::Space { status: SocketResult::Continue, .. } => connection.read_requires(
                streams,
                event,
            ),
            ReadEvent::Space { status: SocketResult::WouldBlock, .. } => connection.read_requires(
                streams,
                event,
            ),
            _ => !connection.read_requires(streams, event),
        },
{
}

/// The bytes of a read count as data of the front for a client and of the back for a server, as far
/// as there is space. The message there and the start of its unparsed data become what the HTTP/1
/// parser makes of the message, of all bytes of the storage, and of the unparsed data up to its new
/// end. Nothing else of the streams changes. The connection stops waiting to read exactly if that
/// message is at its end, and its socket is no longer readable exactly if it gave nothing or would
/// block.
pub proof fn law_read_bytes_are_parsed<Front>(
    connection: ConnectionH1<Front>,
    streams: Seq<StreamView>,
    size: usize,
    status: SocketResult,
)
    requires
        connection.stream < streams.len(),
        all_wf(streams),
    ensures
        ({
            let i = connection.stream as int;
            let outcome = connection.after_read(streams, ReadEvent::Space { size, status });
            let (old_half, half) = match connection.position {
                Position::Client => (streams[i].front, outcome.streams[i].front),
                Position::Server => (streams[i].back, outcome.streams[i].back),
            };
            let (old_event, old_interest) = (
                connection.readiness.event,
                connection.readiness.interest,
            );
            let (event, interest) = (
                outcome.connection.readiness.event,
                outcome.connection.readiness.interest,
            );
            &&& half.end == if old_half.end + size <= old_half.bytes.len() {
                old_half.end + size
            } else {
                old_half.bytes.len() as int
            }
            &&& (half.message, half.head) == h1_parsed(
                old_half.message,
                old_half.bytes,
                old_half.head,
                half.end,
                usize::MAX as nat,
            )
            &&& (half.bytes, half.start, half.out) == (old_half.bytes, old_half.start, old_half.out)
            &&& outcome.streams.len() == streams.len()
            &&& outcome.streams[i].request_id == streams[i].request_id
            &&& connection.position is Client ==> outcome.streams[i].back == streams[i].back
            &&& connection.position is Server ==> outcome.streams[i].front == streams[i].front
            &&& forall|j: int| 0 <= j < streams.len() && j != i ==> outcome.streams[j] == streams[j]
            &&& terminated(half.message) ==> interest == old_interest.without(Ready::READABLE)
            &&& !terminated(half.message) ==> interest == old_interest
            &&& size == 0 || status is WouldBlock ==> event == old_event.without(Ready::READABLE)
            &&& size > 0 && !(status is WouldBlock) ==> event == old_event
            &&& outcome.connection == (ConnectionH1 {
                readiness: Readiness { event, interest },
                ..connection
            })
            &&& outcome.action is Done
        }),
{
    assert(streams[connection.stream as int].wf());
}

/// Two reads of the bytes that one read would give come to the same data.
pub proof fn law_reads_add_up<Front>(
    connection: ConnectionH1<Front>,
    streams: Seq<StreamView>,
    first: usize,
    second: usize,
    status: SocketResult,
)
    requires
        connection.stream < streams.len(),
        all_wf(streams),
        first + second <= usize::MAX,
    ensures
        ({
            let one = connection.after_read(streams, ReadEvent::Space { size: first, status });
            let two = one.connection.after_read(
                one.streams,
                ReadEvent::Space { size: second, status },
            );
            let both = connection.after_read(
                streams,
                ReadEvent::Space { size: (first + second) as usize, status },
            );
            let i = connection.stream as int;
            match connection.position {
                Position::Client => two.streams[i].front.data() == both.streams[i].front.data(),
                Position::Server => two.streams[i].back.data() == both.streams[i].back.data(),
            }
        }),
{
    assert(streams[connection.stream as int].wf());
}

/// A connection on either side writes from any stream there is: it can always get its output ready
/// or learn that its socket took nothing, and that its socket took some of the output if that can be
/// counted as written.
pub proof fn law_writes_any_stream<Front>(
    connection: ConnectionH1<Front>,
    streams: Seq<StreamView>,
    event: WriteEvent,
)
    ensures
        connection.stream >= streams.len() ==> !connection.write_requires(streams, event),
        connection.stream < streams.len() ==> match event {
            WriteEvent::Ready => connection.write_requires(streams, event),
            WriteEvent::Wrote { size } => {
                let half = match connection.position {
                    Position::Client => streams[connection.stream as int].back,
                    Position::Server => streams[connection.stream as int].front,
                };
                connection.write_requires(streams, event) <==> size == 0 || half.releasable(
                    size as nat,
                )
            },
        },
{
}

/// Getting output ready turns the message in the back for a client, and in the front for a server,
/// into what the HTTP/1 converter leaves of it, and puts what the converter makes of it behind the
/// output that is queued there. Nothing else of the streams changes. The output is then to be
/// written exactly if the queue has an entry and does not start with a delimiter; if not, the
/// connection stops waiting to write.
pub proof fn law_message_becomes_output<Front>(
    connection: ConnectionH1<Front>,
    streams: Seq<StreamView>,
)
    requires
        connection.stream < streams.len(),
    ensures
        ({
            let i = connection.stream as int;
            let outcome = connection.after_write(streams, WriteEvent::Ready);
            let (old_half, half) = match connection.position {
                Position::Client => (streams[i].back, outcome.streams[i].back),
                Position::Server => (streams[i].front, outcome.streams[i].front),
            };
            let has_output = half.out.len() > 0 && !(half.out[0] is Delimiter);
            &&& half.message == h1_prepared(old_half.message).0
            &&& half.out == old_half.out + h1_prepared(old_half.message).1
            &&& (half.bytes, half.start, half.head, half.end) == (
                old_half.bytes,
                old_half.start,
                old_half.head,
                old_half.end,
            )
            &&& outcome.streams.len() == streams.len()
            &&& outcome.streams[i].request_id == streams[i].request_id
            &&& connection.position is Client ==> outcome.streams[i].front == streams[i].front
            &&& connection.position is Server ==> outcome.streams[i].back == streams[i].back
            &&& forall|j: int| 0 <= j < streams.len() && j != i ==> outcome.streams[j] == streams[j]
            &&& outcome.action is WriteOutgoing <==> has_output
            &&& has_output ==> outcome.connection == connection
            &&& !has_output ==> outcome.connection == (ConnectionH1 {
                readiness: Readiness {
                    event: connection.readiness.event,
                    interest: connection.readiness.interest.without(Ready::WRITABLE),
                },
                ..connection
            })
        }),
{
    let half = connection.writes(streams).prepared();
    assert(io_slices(half.out, half.bytes).len() == 0 <==> half.out.len() == 0
        || half.out[0] is Delimiter);
}

/// What the socket took is taken off the output, and the message stays: in the back for a client, in
/// the front for a server. Nothing else changes. A socket that took nothing is no longer writable,
/// and then the streams stay as they are.
pub proof fn law_written_output_is_taken_off<Front>(
    connection: ConnectionH1<Front>,
    streams: Seq<StreamView>,
    size: usize,
)
    requires
        all_wf(streams),
        connection.write_requires(streams, WriteEvent::Wrote { size }),
    ensures
        ({
            let i = connection.stream as int;
            let outcome = connection.after_write(streams, WriteEvent::Wrote { size });
            let (old_half, half) = match connection.position {
                Position::Client => (streams[i].back, outcome.streams[i].back),
                Position::Server => (streams[i].front, outcome.streams[i].front),
            };
            &&& total_len(half.out) == total_len(old_half.out) - size
            &&& half.message == old_half.message
            &&& size > 0 ==> half == old_half.released(size as nat)
            &&& size > 0 && (old_half.shifts(size as nat) ==> all_within(
                old_half.unsent(size as nat),
                old_half.end,
            )) ==> all_bytes(half.out, half.bytes) == all_bytes(old_half.out, old_half.bytes).skip(
                size as int,
            )
            &&& size > 0 ==> outcome.connection == connection
            &&& size == 0 ==> outcome.streams == streams
            &&& size == 0 ==> outcome.connection == (ConnectionH1 {
                readiness: Readiness {
                    event: connection.readiness.event.without(Ready::WRITABLE),
                    interest: connection.readiness.interest,
                },
                ..connection
            })
            &&& outcome.streams.len() == streams.len()
            &&& outcome.streams[i].request_id == streams[i].request_id
            &&& connection.position is Client ==> outcome.streams[i].front == streams[i].front
            &&& connection.position is Server ==> outcome.streams[i].back == streams[i].back
            &&& forall|j: int| 0 <= j < streams.len() && j != i ==> outcome.streams[j] == streams[j]
            &&& outcome.action is Done
        }),
{
    assert(streams[connection.stream as int].wf());
    if size > 0 {
        let half = connection.writes(streams);
        law_release_drops_a_prefix(half, size as nat);
        if half.shifts(size as nat) ==> all_within(half.unsent(size as nat), half.end) {
            law_release_takes_written_bytes(half, size as nat);
        }
    }
}

/// A connection has outgoing bytes exactly if each entry in front of the first delimiter of the queue
/// in the back of its stream for a client, and in the front for a server, can be sent.
pub proof fn law_outgoing_side<Front>(
    connection: ConnectionH1<Front>,
    streams: Seq<StreamView>,
    half: HttpView,
    count: nat,
)
    requires
        connection.stream < streams.len(),
        connection.position is Client ==> half == streams[connection.stream as int].back,
        connection.position is Server ==> half == streams[connection.stream as int].front,
        before_delimiter(half.out, count),
    ensures
        connection.outgoing_requires(streams) <==> forall|i: int|
            0 <= i < count ==> !((#[trigger] half.out[i]) is Empty) && half.out[i].within(
                half.bytes.len(),
            ),
{
    law_one_write(half.out, half.bytes, count);
}

/// Without its stream, a connection has no outgoing bytes.
pub proof fn law_no_outgoing_without_stream<Front>(
    connection: ConnectionH1<Front>,
    streams: Seq<StreamView>,
)
    requires
        connection.stream >= streams.len(),
    ensures
        !connection.outgoing_requires(streams),
{
}

} // verus!
