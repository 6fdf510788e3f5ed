//! A session: one frontend connection and its backends, over shared streams.

use crate::connection::Connection;
use crate::out::OutStore;
use crate::ready::{law_filter, Readiness, Ready};
use crate::stream::{
    all_wf, fresh, has_blocks, terminated, views, GenericHttpStream, HttpView, MessageKind, Stream,
};
use rusty_ulid::Ulid;
use std::collections::hash_map::Entry;
use std::collections::HashMap;
use vstd::prelude::*;

verus! {

/// How often a session goes over its connections before it is given up.
pub const MAX_LOOP_ITERATIONS: u32 = 100000;

/// The socket of a frontend: its TCP stream below its TLS session.
pub struct FrontRustls<Tcp, Tls> {
    pub stream: Tcp,
    pub session: Tls,
}

/// A session.
pub struct Mux<'a, Tcp, Tls> {
    pub frontend_token: usize,
    pub frontend: Connection<FrontRustls<Tcp, Tls>>,
    pub backends: HashMap<usize, Connection<Tcp>>,
    pub streams: Vec<Stream<'a>>,
    pub sticky_name: String,
}

/// What becomes of a session.
#[derive(Clone, Copy, Debug, PartialEq, Eq, Structural)]
pub enum SessionResult {
    Close,
    Continue,
}

/// What becomes of a session after a timeout.
#[derive(Clone, Copy, Debug, PartialEq, Eq, Structural)]
pub enum StateResult {
    CloseSession,
    Continue,
}

/// Why a stream was not made.
#[derive(Clone, Copy, Debug, PartialEq, Eq, Structural)]
pub enum AcceptError {
    BufferCapacityReached,
}

/// One of the connections of a session.
#[derive(Clone, Copy, Debug, PartialEq, Eq, Structural)]
pub enum Peer {
    Frontend,
    Backend(usize),
}

/// What a session wants done.
#[derive(Clone, Copy, Debug, PartialEq, Eq, Structural)]
pub enum ReadyAction {
    /// Tell the connection that its socket is readable.
    Readable(Peer),
    /// Tell the connection that its socket is writable.
    Writable(Peer),
    /// Nothing more.
    Finish(SessionResult),
}

/// What a session looks at next.
#[derive(Clone, Copy, Debug, PartialEq, Eq, Structural)]
pub enum Cursor {
    /// Whether the frontend hung up.
    Start,
    /// Whether the frontend is readable.
    FrontRead,
    /// Whether the backend at that place is writable.
    BackWrite(usize),
    /// Whether the backend at that place is readable.
    BackRead(usize),
    /// Whether the frontend is writable.
    FrontWrite,
    /// Whether to go over the connections once more.
    Turn,
    /// Nothing any more.
    End(SessionResult),
}

/// How far a session has come in going over its connections.
pub struct Progress {
    /// How often it went over all of them.
    pub counter: u32,
    /// Whether it had anything done this time.
    pub dirty: bool,
    pub cursor: Cursor,
    /// The backends, in the order in which it goes over them.
    pub tokens: Vec<usize>,
}

/// What a `Progress` holds.
pub struct ProgressView {
    pub counter: nat,
    pub dirty: bool,
    pub cursor: Cursor,
    pub tokens: Seq<usize>,
}

impl View for Progress {
    type V = ProgressView;

    open spec fn view(&self) -> ProgressView {
        ProgressView {
            counter: self.counter as nat,
            dirty: self.dirty,
            cursor: self.cursor,
            tokens: self.tokens@,
        }
    }
}

/// The readiness of all connections of a session.
pub struct Sockets {
    pub front: Readiness,
    pub backs: Map<usize, Readiness>,
}

impl Sockets {
    /// Some backend hung up or failed, and is waited for to do so.
    pub open spec fn broken(self) -> bool {
        exists|token: usize| #[trigger]
            self.backs.contains_key(token) && (self.backs[token].filtered().has(Ready::HUP)
                || self.backs[token].filtered().has(Ready::ERROR))
    }
}

impl ProgressView {
    /// The session goes over each backend once, and did not go over them too often.
    pub open spec fn wf(self, sockets: Sockets) -> bool {
        &&& self.tokens.len() <= usize::MAX
        &&& self.tokens.no_duplicates()
        &&& forall|token: usize|
            self.tokens.contains(token) <==> #[trigger] sockets.backs.contains_key(token)
        &&& self.counter < MAX_LOOP_ITERATIONS || self.cursor is End
    }

    /// How many places are left in this round.
    pub open spec fn places_left(self) -> nat {
        let n = self.tokens.len();
        match self.cursor {
            Cursor::Start => 2 * n + 5,
            Cursor::FrontRead => 2 * n + 4,
            Cursor::BackWrite(i) => if i < n {
                (2 * (n - i) + 3) as nat
            } else {
                3
            },
            Cursor::BackRead(i) => if i < n {
                (2 * (n - i) + 2) as nat
            } else {
                4
            },
            Cursor::FrontWrite => 2,
            Cursor::Turn => 1,
            Cursor::End(_) => 0,
        }
    }

    /// How many rounds are left.
    pub open spec fn rounds_left(self) -> nat {
        if self.counter < MAX_LOOP_ITERATIONS {
            (MAX_LOOP_ITERATIONS - self.counter) as nat
        } else {
            0
        }
    }

    pub open spec fn at(self, cursor: Cursor) -> ProgressView {
        ProgressView { cursor, ..self }
    }

    /// The session at `cursor`, after it had something done.
    pub open spec fn busy_at(self, cursor: Cursor) -> ProgressView {
        ProgressView { cursor, dirty: true, ..self }
    }

    /// What the session has done next, and how far it has come then.
    ///
    /// A session whose frontend hung up is closed. Otherwise it goes over its connections, and has
    /// each one told that is ready for what it waits for: the frontend to read, each backend to
    /// write and then to read, and the frontend to write. After that it is closed if a backend
    /// hung up or failed. It goes over them again until there is nothing to be told, or, as the
    /// connections get no rest then, closes.
    pub open spec fn next(self, sockets: Sockets) -> (ProgressView, ReadyAction)
        decreases self.rounds_left(), self.places_left(),
        when self.tokens.len() <= usize::MAX
    {
        match self.cursor {
            Cursor::Start => if sockets.front.event.has(Ready::HUP) {
                (
                    self.at(Cursor::End(SessionResult::Close)),
                    ReadyAction::Finish(SessionResult::Close),
                )
            } else {
                self.at(Cursor::FrontRead).next(sockets)
            },
            Cursor::FrontRead => if sockets.front.filtered().has(Ready::READABLE) {
                (self.busy_at(Cursor::BackWrite(0)), ReadyAction::Readable(Peer::Frontend))
            } else {
                self.at(Cursor::BackWrite(0)).next(sockets)
            },
            Cursor::BackWrite(i) => if i >= self.tokens.len() {
                self.at(Cursor::FrontWrite).next(sockets)
            } else if sockets.backs[self.tokens[i as int]].filtered().has(Ready::WRITABLE) {
                (
                    self.busy_at(Cursor::BackRead(i)),
                    ReadyAction::Writable(Peer::Backend(self.tokens[i as int])),
                )
            } else {
                self.at(Cursor::BackRead(i)).next(sockets)
            },
            Cursor::BackRead(i) => if i >= self.tokens.len() {
                self.at(Cursor::FrontWrite).next(sockets)
            } else if sockets.backs[self.tokens[i as int]].filtered().has(Ready::READABLE) {
                (
                    self.busy_at(Cursor::BackWrite((i + 1) as usize)),
                    ReadyAction::Readable(Peer::Backend(self.tokens[i as int])),
                )
            } else {
                self.at(Cursor::BackWrite((i + 1) as usize)).next(sockets)
            },
            Cursor::FrontWrite => if sockets.front.filtered().has(Ready::WRITABLE) {
                (self.busy_at(Cursor::Turn), ReadyAction::Writable(Peer::Frontend))
            } else {
                self.at(Cursor::Turn).next(sockets)
            },
            Cursor::Turn => if sockets.broken() {
                (
                    self.at(Cursor::End(SessionResult::Close)),
                    ReadyAction::Finish(SessionResult::Close),
                )
            } else if !self.dirty {
                (
                    self.at(Cursor::End(SessionResult::Continue)),
                    ReadyAction::Finish(SessionResult::Continue),
                )
            } else if self.counter + 1 < MAX_LOOP_ITERATIONS {
                (ProgressView {
                    counter: self.counter + 1,
                    dirty: false,
                    cursor: Cursor::FrontRead,
                    ..self
                }).next(sockets)
            } else {
                (
                    ProgressView {
                        counter: self.counter + 1,
                        cursor: Cursor::End(SessionResult::Close),
                        ..self
                    },
                    ReadyAction::Finish(SessionResult::Close),
                )
            },
            Cursor::End(result) => (self, ReadyAction::Finish(result)),
        }
    }
}

impl<'a, Tcp, Tls> Mux<'a, Tcp, Tls> {
    /// All streams are well-formed.
    pub open spec fn wf(self) -> bool {
        all_wf(views(self.streams@))
    }

    /// The readiness of all connections.
    pub open spec fn sockets(self) -> Sockets {
        Sockets {
            front: self.frontend.spec_readiness(),
            backs: self.backends@.map_values(|backend: Connection<Tcp>| backend.spec_readiness()),
        }
    }

    /// Starts going over the connections.
    pub fn begin_ready(&self) -> (progress: Progress)
        ensures
            progress@.wf(self.sockets()),
            progress@.counter == 0,
            !progress@.dirty,
            progress@.cursor == Cursor::Start,
    {
        let mut tokens: Vec<usize> = Vec::new();
        proof {
            assert(self.backends@.dom().len() == 0 ==> self.backends@.dom() =~= Set::empty());
        }
        for token in keys: self.backends.keys()
            invariant
                tokens@ == keys.seq().unref().take(keys.index()),
                keys.seq().unref().to_set() == self.backends@.dom(),
                keys.seq().no_duplicates(),
                keys.index() == keys.seq().len() ==> tokens@.to_set() == self.backends@.dom(),
        {
            tokens.push(*token);
            assert(keys.index() + 1 == keys.seq().len() ==> tokens@ =~= keys.seq().unref());
        }
        assert(tokens@.len() == tokens.len());
        assert forall|token: usize|
            tokens@.contains(token) <==> #[trigger] self.sockets().backs.contains_key(token) by {
            assert(tokens@.to_set().contains(token) == self.backends@.contains_key(token));
        }
        Progress { counter: 0, dirty: false, cursor: Cursor::Start, tokens }
    }

    /// Whether a backend hung up or failed, and is waited for to do so.
    fn is_broken(&self, tokens: &Vec<usize>) -> (broken: bool)
        requires
            forall|token: usize|
                tokens@.contains(token) <==> #[trigger] self.sockets().backs.contains_key(token),
        ensures
            broken == self.sockets().broken(),
    {
        let mut at: usize = 0;
        while at < tokens.len()
            invariant
                at <= tokens@.len(),
                forall|token: usize|
                    tokens@.contains(token) <==> #[trigger] self.sockets().backs.contains_key(
                        token,
                    ),
                forall|i: int|
                    0 <= i < at ==> !self.sockets().backs[#[trigger] tokens@[i]].filtered().has(
                        Ready::HUP,
                    ) && !self.sockets().backs[tokens@[i]].filtered().has(Ready::ERROR),
            decreases tokens@.len() - at,
        {
            assert(tokens@.contains(tokens@[at as int]));
            assert(self.sockets().backs.contains_key(tokens@[at as int]));
            if let Some(backend) = self.backends.get(&tokens[at]) {
                let events = backend.readiness().filter_interest();
                if events.is_hup() || events.is_error() {
                    return true;
                }
            }
            at = at + 1;
        }
        false
    }

    /// Goes over the connections up to the next one that has to be told something.
    pub fn ready(&self, progress: &mut Progress) -> (action: ReadyAction)
        requires
            old(progress)@.wf(self.sockets()),
        ensures
            (final(progress)@, action) == old(progress)@.next(self.sockets()),
            final(progress)@.wf(self.sockets()),
    {
        loop
            invariant
                progress@.wf(self.sockets()),
                progress@.next(self.sockets()) == old(progress)@.next(self.sockets()),
            decreases progress@.rounds_left(), progress@.places_left(),
        {
            match progress.cursor {
                Cursor::Start => {
                    if self.frontend.readiness().event.is_hup() {
                        progress.cursor = Cursor::End(SessionResult::Close);
                        return ReadyAction::Finish(SessionResult::Close);
                    }
                    progress.cursor = Cursor::FrontRead;
                },
                Cursor::FrontRead => {
                    progress.cursor = Cursor::BackWrite(0);
                    if self.frontend.readiness().filter_interest().is_readable() {
                        progress.dirty = true;
                        return ReadyAction::Readable(Peer::Frontend);
                    }
                },
                Cursor::BackWrite(i) => {
                    if i >= progress.tokens.len() {
                        progress.cursor = Cursor::FrontWrite;
                    } else {
                        progress.cursor = Cursor::BackRead(i);
                        let token = progress.tokens[i];
                        assert(progress@.tokens.contains(token));
                        assert(self.sockets().backs.contains_key(token));
                        if self.backend_events(token).is_writable() {
                            progress.dirty = true;
                            return ReadyAction::Writable(Peer::Backend(token));
                        }
                    }
                },
                Cursor::BackRead(i) => {
                    if i >= progress.tokens.len() {
                        progress.cursor = Cursor::FrontWrite;
                    } else {
                        progress.cursor = Cursor::BackWrite(i + 1);
                        let token = progress.tokens[i];
                        assert(progress@.tokens.contains(token));
                        assert(self.sockets().backs.contains_key(token));
                        if self.backend_events(token).is_readable() {
                            progress.dirty = true;
                            return ReadyAction::Readable(Peer::Backend(token));
                        }
                    }
                },
                Cursor::FrontWrite => {
                    progress.cursor = Cursor::Turn;
                    if self.frontend.readiness().filter_interest().is_writable() {
                        progress.dirty = true;
                        return ReadyAction::Writable(Peer::Frontend);
                    }
                },
                Cursor::Turn => {
                    if self.is_broken(&progress.tokens) {
                        progress.cursor = Cursor::End(SessionResult::Close);
                        return ReadyAction::Finish(SessionResult::Close);
                    }
                    if !progress.dirty {
                        progress.cursor = Cursor::End(SessionResult::Continue);
                        return ReadyAction::Finish(SessionResult::Continue);
                    }
                    progress.counter = progress.counter + 1;
                    if progress.counter == MAX_LOOP_ITERATIONS {
                        progress.cursor = Cursor::End(SessionResult::Close);
                        return ReadyAction::Finish(SessionResult::Close);
                    }
                    progress.dirty = false;
                    progress.cursor = Cursor::FrontRead;
                },
                Cursor::End(result) => {
                    return ReadyAction::Finish(result);
                },
            }
        }
    }

    /// The events of a backend that it waits for.
    fn backend_events(&self, token: usize) -> (events: Ready)
        requires
            self.backends@.contains_key(token),
        ensures
            events == self.sockets().backs[token].filtered(),
    {
        match self.backends.get(&token) {
            Some(backend) => backend.readiness().filter_interest(),
            None => Ready(0),
        }
    }

    /// Adds events that a socket reported to the connection that has it.
    pub fn update_readiness(&mut self, token: usize, events: Ready)
        ensures
            final(self).frontend == if token == old(self).frontend_token {
                old(self).frontend.with_event(events)
            } else {
                old(self).frontend
            },
            final(self).backends@ == if token != old(self).frontend_token
                && old(self).backends@.contains_key(token) {
                old(self).backends@.insert(token, old(self).backends@[token].with_event(events))
            } else {
                old(self).backends@
            },
            final(self).frontend_token == old(self).frontend_token,
            final(self).streams == old(self).streams,
            final(self).sticky_name == old(self).sticky_name,
    {
        if token == self.frontend_token {
            self.frontend.readiness_mut().event.insert(events.0);
        } else if let Entry::Occupied(entry) = self.backends.entry(token) {
            entry.into_mut().readiness_mut().event.insert(events.0);
        }
        assert(self.backends@ =~= if token != old(self).frontend_token
            && old(self).backends@.contains_key(token) {
            old(self).backends@.insert(token, old(self).backends@[token].with_event(events))
        } else {
            old(self).backends@
        });
    }

    /// A session that runs into a timeout is closed.
    pub fn timeout(&self, token: usize) -> (result: StateResult)
        ensures
            result == StateResult::CloseSession,
    {
        StateResult::CloseSession
    }

    /// The TCP stream of the frontend.
    pub fn front_socket(&self) -> (socket: &Tcp)
        ensures
            *socket == self.frontend.spec_socket().stream,
    {
        match &self.frontend {
            Connection::H1(c) => &c.socket.stream,
            Connection::H2(c) => &c.socket.stream,
        }
    }

    /// Makes a stream over two buffers of a pool: `None` if there is no pool any more, else what
    /// it gave, in the order in which it was asked.
    pub fn create_stream(
        &mut self,
        request_id: Ulid,
        checkouts: Option<(Option<&'a mut [u8]>, Option<&'a mut [u8]>)>,
    ) -> (stream: Result<usize, AcceptError>)
        ensures
            match checkouts {
                Some((Some(front), Some(back))) => {
                    &&& stream == Ok::<usize, AcceptError>(old(self).streams@.len() as usize)
                    &&& final(self).streams@.len() == old(self).streams@.len() + 1
                    &&& final(self).streams@.drop_last() == old(self).streams@
                    &&& final(self).streams@.last().request_id == request_id
                    &&& final(self).streams@.last().front@ == new_request_view((*front)@)
                    &&& final(self).streams@.last().back@ == new_request_view((*back)@)
                },
                _ => {
                    &&& stream == Err::<usize, AcceptError>(AcceptError::BufferCapacityReached)
                    &&& final(self).streams == old(self).streams
                },
            },
            stream is Ok ==> !terminated(fresh(MessageKind::Request)) && !has_blocks(
                fresh(MessageKind::Request),
            ),
            final(self).frontend_token == old(self).frontend_token,
            final(self).frontend == old(self).frontend,
            final(self).backends == old(self).backends,
            final(self).sticky_name == old(self).sticky_name,
            old(self).wf() ==> final(self).wf(),
    {
        match checkouts {
            Some((Some(front), Some(back))) => {
                self.streams.push(
                    Stream {
                        request_id,
                        front: GenericHttpStream::new(MessageKind::Request, front),
                        back: GenericHttpStream::new(MessageKind::Request, back),
                    },
                );
                assert(self.streams@.drop_last() =~= old(self).streams@);
                proof {
                    if old(self).wf() {
                        assert forall|i: int| 0 <= i < views(self.streams@).len() implies (
                        #[trigger] views(self.streams@)[i]).wf() by {
                            if i < old(self).streams@.len() {
                                assert(views(old(self).streams@)[i].wf());
                            }
                        }
                    }
                }
                Ok(self.streams.len() - 1)
            },
            _ => Err(AcceptError::BufferCapacityReached),
        }
    }
}

/// A half of a stream that was just made over `memory`.
pub open spec fn new_request_view(memory: Seq<u8>) -> HttpView {
    HttpView {
        bytes: memory,
        start: 0,
        head: 0,
        end: 0,
        out: Seq::<OutStore>::empty(),
        message: fresh(MessageKind::Request),
    }
}

/// The readiness of one of the connections.
pub open spec fn readiness_of(sockets: Sockets, peer: Peer) -> Readiness {
    match peer {
        Peer::Frontend => sockets.front,
        Peer::Backend(token) => sockets.backs[token],
    }
}

/// The connection is one of the session.
pub open spec fn is_peer(sockets: Sockets, peer: Peer) -> bool {
    match peer {
        Peer::Frontend => true,
        Peer::Backend(token) => sockets.backs.contains_key(token),
    }
}

/// Some connection is ready to read or to write, and waits for that.
pub open spec fn has_work(sockets: Sockets) -> bool {
    exists|peer: Peer| #[trigger]
        is_peer(sockets, peer) && (readiness_of(sockets, peer).filtered().has(Ready::READABLE)
            || readiness_of(sockets, peer).filtered().has(Ready::WRITABLE))
}

/// An upper bound on how many more times the session can have something done.
pub open spec fn work_left(progress: ProgressView) -> nat {
    progress.rounds_left() * (2 * progress.tokens.len() + 5) + progress.places_left()
}

/// Going over the connections keeps the order of the backends and comes to an end: as long as
/// something is to be done, less is left each time, whatever the sockets report in between.
pub proof fn law_ready_ends(progress: ProgressView, sockets: Sockets)
    requires
        progress.wf(sockets),
    ensures
        progress.next(sockets).0.wf(sockets),
        progress.next(sockets).0.tokens == progress.tokens,
        progress.next(sockets).0.counter <= MAX_LOOP_ITERATIONS || progress.cursor is End,
        match progress.next(sockets).1 {
            ReadyAction::Finish(result) => progress.next(sockets).0.cursor == Cursor::End(result),
            _ => work_left(progress.next(sockets).0) < work_left(progress),
        },
        work_left(progress.next(sockets).0) <= work_left(progress),
    decreases progress.rounds_left(), progress.places_left(),
{
    let n = progress.tokens.len();
    let rounds = progress.rounds_left();
    if rounds > 0 {
        assert(rounds * (2 * n + 5) == (rounds - 1) * (2 * n + 5) + (2 * n + 5)) by (nonlinear_arith)
            requires
                rounds > 0,
        ;
    }
    match progress.cursor {
        Cursor::Start => law_ready_ends(progress.at(Cursor::FrontRead), sockets),
        Cursor::FrontRead => law_ready_ends(progress.at(Cursor::BackWrite(0)), sockets),
        Cursor::BackWrite(i) => if i >= n {
            law_ready_ends(progress.at(Cursor::FrontWrite), sockets);
        } else {
            law_ready_ends(progress.at(Cursor::BackRead(i)), sockets);
        },
        Cursor::BackRead(i) => if i >= n {
            law_ready_ends(progress.at(Cursor::FrontWrite), sockets);
        } else {
            law_ready_ends(progress.at(Cursor::BackWrite((i + 1) as usize)), sockets);
        },
        Cursor::FrontWrite => law_ready_ends(progress.at(Cursor::Turn), sockets),
        Cursor::Turn => if !sockets.broken() && progress.dirty && progress.counter + 1
            < MAX_LOOP_ITERATIONS {
            law_ready_ends(
                ProgressView {
                    counter: progress.counter + 1,
                    dirty: false,
                    cursor: Cursor::FrontRead,
                    ..progress
                },
                sockets,
            );
        },
        Cursor::End(_) => {},
    }
}

/// A connection is told of its socket only if it is one of the session, and the socket reported
/// what the connection waits for.
pub proof fn law_only_ready_are_told(progress: ProgressView, sockets: Sockets)
    requires
        progress.wf(sockets),
    ensures
        match progress.next(sockets).1 {
            ReadyAction::Readable(peer) => is_peer(sockets, peer) && readiness_of(
                sockets,
                peer,
            ).filtered().has(Ready::READABLE),
            ReadyAction::Writable(peer) => is_peer(sockets, peer) && readiness_of(
                sockets,
                peer,
            ).filtered().has(Ready::WRITABLE),
            ReadyAction::Finish(_) => true,
        },
    decreases progress.rounds_left(), progress.places_left(),
{
    let n = progress.tokens.len();
    match progress.cursor {
        Cursor::Start => law_only_ready_are_told(progress.at(Cursor::FrontRead), sockets),
        Cursor::FrontRead => law_only_ready_are_told(progress.at(Cursor::BackWrite(0)), sockets),
        Cursor::BackWrite(i) => if i >= n {
            law_only_ready_are_told(progress.at(Cursor::FrontWrite), sockets);
        } else {
            assert(progress.tokens.contains(progress.tokens[i as int]));
            assert(sockets.backs.contains_key(progress.tokens[i as int]));
            law_only_ready_are_told(progress.at(Cursor::BackRead(i)), sockets);
        },
        Cursor::BackRead(i) => if i >= n {
            law_only_ready_are_told(progress.at(Cursor::FrontWrite), sockets);
        } else {
            assert(progress.tokens.contains(progress.tokens[i as int]));
            assert(sockets.backs.contains_key(progress.tokens[i as int]));
            law_only_ready_are_told(progress.at(Cursor::BackWrite((i + 1) as usize)), sockets);
        },
        Cursor::FrontWrite => law_only_ready_are_told(progress.at(Cursor::Turn), sockets),
        Cursor::Turn => if !sockets.broken() && progress.dirty && progress.counter + 1
            < MAX_LOOP_ITERATIONS {
            law_only_ready_are_told(
                ProgressView {
                    counter: progress.counter + 1,
                    dirty: false,
                    cursor: Cursor::FrontRead,
                    ..progress
                },
                sockets,
            );
        },
        Cursor::End(_) => {},
    }
}

/// A session whose frontend hung up is closed before anything else is done.
pub proof fn law_frontend_hup_closes(progress: ProgressView, sockets: Sockets)
    requires
        progress.wf(sockets),
        progress.cursor is Start,
        sockets.front.event.has(Ready::HUP),
    ensures
        progress.next(sockets).1 == ReadyAction::Finish(SessionResult::Close),
{
}

/// A session that goes on has no backend that hung up or failed and is waited for to do so.
pub proof fn law_continue_means_sound(progress: ProgressView, sockets: Sockets)
    requires
        progress.wf(sockets),
        !(progress.cursor is End),
        progress.next(sockets).1 == ReadyAction::Finish(SessionResult::Continue),
    ensures
        !sockets.broken(),
    decreases progress.rounds_left(), progress.places_left(),
{
    let n = progress.tokens.len();
    match progress.cursor {
        Cursor::Start => law_continue_means_sound(progress.at(Cursor::FrontRead), sockets),
        Cursor::FrontRead => law_continue_means_sound(progress.at(Cursor::BackWrite(0)), sockets),
        Cursor::BackWrite(i) => if i >= n {
            law_continue_means_sound(progress.at(Cursor::FrontWrite), sockets);
        } else {
            law_continue_means_sound(progress.at(Cursor::BackRead(i)), sockets);
        },
        Cursor::BackRead(i) => if i >= n {
            law_continue_means_sound(progress.at(Cursor::FrontWrite), sockets);
        } else {
            law_continue_means_sound(progress.at(Cursor::BackWrite((i + 1) as usize)), sockets);
        },
        Cursor::FrontWrite => law_continue_means_sound(progress.at(Cursor::Turn), sockets),
        _ => {},
    }
}

/// A session that starts, or starts over, does not finish as long as a connection has work; if
/// none has, it is closed if a backend hung up or failed and goes on otherwise.
pub proof fn law_finishes_when_idle(progress: ProgressView, sockets: Sockets)
    requires
        progress.wf(sockets),
        progress.cursor is Start || progress.cursor is FrontRead,
        progress.cursor is Start ==> !sockets.front.event.has(Ready::HUP),
        !progress.dirty,
    ensures
        has_work(sockets) <==> !(progress.next(sockets).1 is Finish),
        !has_work(sockets) ==> progress.next(sockets).1 == ReadyAction::Finish(
            if sockets.broken() {
                SessionResult::Close
            } else {
                SessionResult::Continue
            },
        ),
{
    let front = progress.at(Cursor::FrontRead);
    if progress.cursor is Start {
        assert(progress.next(sockets) == front.next(sockets));
    }
    lemma_backends_in_turn(front.at(Cursor::BackWrite(0)), sockets, 0);
    law_only_ready_are_told(progress, sockets);
    assert(is_peer(sockets, Peer::Frontend));
    if has_work(sockets) {
        let peer = choose|peer: Peer| #[trigger]
            is_peer(sockets, peer) && (readiness_of(sockets, peer).filtered().has(Ready::READABLE)
                || readiness_of(sockets, peer).filtered().has(Ready::WRITABLE));
        if let Peer::Backend(token) = peer {
            assert(sockets.backs.contains_key(token));
            assert(progress.tokens.contains(token));
        }
    } else {
        assert forall|i: int| 0 <= i < progress.tokens.len() implies !(sockets.backs[
        #[trigger] progress.tokens[i]].filtered().has(Ready::READABLE)
            || sockets.backs[progress.tokens[i]].filtered().has(Ready::WRITABLE)) by {
            assert(progress.tokens.contains(progress.tokens[i]));
            assert(sockets.backs.contains_key(progress.tokens[i]));
            assert(is_peer(sockets, Peer::Backend(progress.tokens[i])));
        }
    }
}

/// From the backend at place `i` on: the session has something done exactly if one of the backends
/// from there on, or the frontend, has work; if none has, it finishes.
proof fn lemma_backends_in_turn(progress: ProgressView, sockets: Sockets, i: usize)
    requires
        progress.wf(sockets),
        progress.cursor == Cursor::BackWrite(i),
        i <= progress.tokens.len(),
        !progress.dirty,
    ensures
        ({
            let backend_works = exists|j: int|
                i <= j < progress.tokens.len() && (sockets.backs[
                #[trigger] progress.tokens[j]].filtered().has(Ready::READABLE)
                    || sockets.backs[progress.tokens[j]].filtered().has(Ready::WRITABLE));
            if backend_works || sockets.front.filtered().has(Ready::WRITABLE) {
                !(progress.next(sockets).1 is Finish)
            } else {
                progress.next(sockets).1 == ReadyAction::Finish(
                    if sockets.broken() {
                        SessionResult::Close
                    } else {
                        SessionResult::Continue
                    },
                )
            }
        }),
    decreases progress.tokens.len() - i,
{
    let n = progress.tokens.len();
    if i >= n {
        let front = progress.at(Cursor::FrontWrite);
        assert(progress.next(sockets) == front.next(sockets));
        if !sockets.front.filtered().has(Ready::WRITABLE) {
            assert(front.next(sockets) == progress.at(Cursor::Turn).next(sockets));
        }
    } else {
        let own = sockets.backs[progress.tokens[i as int]].filtered();
        let after = progress.at(Cursor::BackWrite((i + 1) as usize));
        lemma_backends_in_turn(after, sockets, (i + 1) as usize);
        if !own.has(Ready::WRITABLE) {
            let read = progress.at(Cursor::BackRead(i));
            assert(progress.next(sockets) == read.next(sockets));
            if !own.has(Ready::READABLE) {
                assert(read.next(sockets) == after.next(sockets));
            }
        }
    }
}

/// Where a run can be between two calls, as long as it goes on: at its start, or in a round in which
/// something was done.
pub open spec fn is_under_way(progress: ProgressView) -> bool {
    (progress.cursor is Start && !progress.dirty) || (progress.dirty && !(progress.cursor is End))
}

/// A run that has something done is still under way after that.
pub proof fn law_run_stays_under_way(progress: ProgressView, sockets: Sockets)
    requires
        progress.wf(sockets),
        !(progress.next(sockets).1 is Finish),
    ensures
        is_under_way(progress.next(sockets).0),
    decreases progress.rounds_left(), progress.places_left(),
{
    let n = progress.tokens.len();
    match progress.cursor {
        Cursor::Start => law_run_stays_under_way(progress.at(Cursor::FrontRead), sockets),
        Cursor::FrontRead => if !sockets.front.filtered().has(Ready::READABLE) {
            law_run_stays_under_way(progress.at(Cursor::BackWrite(0)), sockets);
        },
        Cursor::BackWrite(i) => if i >= n {
            law_run_stays_under_way(progress.at(Cursor::FrontWrite), sockets);
        } else if !sockets.backs[progress.tokens[i as int]].filtered().has(Ready::WRITABLE) {
            law_run_stays_under_way(progress.at(Cursor::BackRead(i)), sockets);
        },
        Cursor::BackRead(i) => if i >= n {
            law_run_stays_under_way(progress.at(Cursor::FrontWrite), sockets);
        } else if !sockets.backs[progress.tokens[i as int]].filtered().has(Ready::READABLE) {
            law_run_stays_under_way(progress.at(Cursor::BackWrite((i + 1) as usize)), sockets);
        },
        Cursor::FrontWrite => if !sockets.front.filtered().has(Ready::WRITABLE) {
            law_run_stays_under_way(progress.at(Cursor::Turn), sockets);
        },
        Cursor::Turn => {
            law_run_stays_under_way(
                ProgressView {
                    counter: progress.counter + 1,
                    dirty: false,
                    cursor: Cursor::FrontRead,
                    ..progress
                },
                sockets,
            );
        },
        Cursor::End(_) => {},
    }
}

/// A run ends for one of these reasons: the session goes on because no connection has work and no
/// backend broke; or it is closed because the frontend had hung up at the start, because a backend
/// broke, or because there was work in each of too many rounds.
pub proof fn law_run_ends_for_a_reason(progress: ProgressView, sockets: Sockets)
    requires
        progress.wf(sockets),
        is_under_way(progress),
    ensures
        progress.next(sockets).1 == ReadyAction::Finish(SessionResult::Continue) ==> !has_work(
            sockets,
        ) && !sockets.broken(),
        progress.next(sockets).1 == ReadyAction::Finish(SessionResult::Close) ==> {
            ||| progress.cursor is Start && sockets.front.event.has(Ready::HUP)
            ||| sockets.broken()
            ||| progress.next(sockets).0.counter == MAX_LOOP_ITERATIONS
        },
    decreases progress.places_left(),
{
    let n = progress.tokens.len();
    match progress.cursor {
        Cursor::Start => if !progress.dirty {
            if !sockets.front.event.has(Ready::HUP) {
                law_finishes_when_idle(progress, sockets);
            }
        } else {
            law_run_ends_for_a_reason(progress.at(Cursor::FrontRead), sockets);
        },
        Cursor::FrontRead => law_run_ends_for_a_reason(progress.at(Cursor::BackWrite(0)), sockets),
        Cursor::BackWrite(i) => if i >= n {
            law_run_ends_for_a_reason(progress.at(Cursor::FrontWrite), sockets);
        } else {
            law_run_ends_for_a_reason(progress.at(Cursor::BackRead(i)), sockets);
        },
        Cursor::BackRead(i) => if i >= n {
            law_run_ends_for_a_reason(progress.at(Cursor::FrontWrite), sockets);
        } else {
            law_run_ends_for_a_reason(progress.at(Cursor::BackWrite((i + 1) as usize)), sockets);
        },
        Cursor::FrontWrite => law_run_ends_for_a_reason(progress.at(Cursor::Turn), sockets),
        Cursor::Turn => if !sockets.broken() && progress.counter + 1 < MAX_LOOP_ITERATIONS {
            law_finishes_when_idle(
                ProgressView {
                    counter: progress.counter + 1,
                    dirty: false,
                    cursor: Cursor::FrontRead,
                    ..progress
                },
                sockets,
            );
        },
        Cursor::End(_) => {},
    }
}

/// How many places a round has: the frontend is looked at twice, and so is each backend.
pub open spec fn round_len(tokens: Seq<usize>) -> int {
    2 * (tokens.len() as int) + 2
}

/// Who would be told what at the place `at` of a round: first the frontend to read, then each backend
/// in turn to write and to read, and last the frontend to write.
pub open spec fn told_at(tokens: Seq<usize>, at: int) -> ReadyAction {
    if at == 0 {
        ReadyAction::Readable(Peer::Frontend)
    } else if at == round_len(tokens) - 1 {
        ReadyAction::Writable(Peer::Frontend)
    } else if at % 2 == 1 {
        ReadyAction::Writable(Peer::Backend(tokens[at / 2]))
    } else {
        ReadyAction::Readable(Peer::Backend(tokens[at / 2 - 1]))
    }
}

/// The socket reported what the connection would be told, and the connection waits for it.
pub open spec fn is_due(sockets: Sockets, action: ReadyAction) -> bool {
    match action {
        ReadyAction::Readable(peer) => readiness_of(sockets, peer).event.has(Ready::READABLE)
            && readiness_of(sockets, peer).interest.has(Ready::READABLE),
        ReadyAction::Writable(peer) => readiness_of(sockets, peer).event.has(Ready::WRITABLE)
            && readiness_of(sockets, peer).interest.has(Ready::WRITABLE),
        ReadyAction::Finish(_) => false,
    }
}

/// The place of the round that a session in the middle of one looks at next.
pub open spec fn place(progress: ProgressView) -> int {
    let n = progress.tokens.len() as int;
    match progress.cursor {
        Cursor::Start => 0,
        Cursor::FrontRead => 0,
        Cursor::BackWrite(i) => if i < n {
            2 * i + 1
        } else {
            2 * n + 1
        },
        Cursor::BackRead(i) => if i < n {
            2 * i + 2
        } else {
            2 * n + 1
        },
        Cursor::FrontWrite => 2 * n + 1,
        Cursor::Turn => 2 * n + 2,
        Cursor::End(_) => 2 * n + 3,
    }
}

/// A session tells who comes next in the round of those that are due, whoever that is: it goes on
/// behind that place, in the same round, of which it now knows that something was done.
pub proof fn law_next_due_is_told(progress: ProgressView, sockets: Sockets, at: int)
    requires
        progress.wf(sockets),
        !(progress.cursor is Start),
        !(progress.cursor is End),
        place(progress) <= at < round_len(progress.tokens),
        is_due(sockets, told_at(progress.tokens, at)),
        forall|other: int|
            place(progress) <= other < at ==> !is_due(
                sockets,
                #[trigger] told_at(progress.tokens, other),
            ),
    ensures
        progress.next(sockets).1 == told_at(progress.tokens, at),
        place(progress.next(sockets).0) == at + 1,
        progress.next(sockets).0.dirty,
        progress.next(sockets).0.counter == progress.counter,
        progress.next(sockets).0.tokens == progress.tokens,
    decreases progress.places_left(),
{
    let n = progress.tokens.len();
    let here = place(progress);
    let own = told_at(progress.tokens, here);
    law_filter(sockets.front, Ready::READABLE);
    law_filter(sockets.front, Ready::WRITABLE);
    if is_due(sockets, own) {
        assert(at == here);
    }
    match progress.cursor {
        Cursor::FrontRead => if at > here {
            law_next_due_is_told(progress.at(Cursor::BackWrite(0)), sockets, at);
        },
        Cursor::BackWrite(i) => if i >= n {
            law_next_due_is_told(progress.at(Cursor::FrontWrite), sockets, at);
        } else {
            assert(own == ReadyAction::Writable(Peer::Backend(progress.tokens[i as int])));
            law_filter(sockets.backs[progress.tokens[i as int]], Ready::WRITABLE);
            if at > here {
                law_next_due_is_told(progress.at(Cursor::BackRead(i)), sockets, at);
            }
        },
        Cursor::BackRead(i) => if i >= n {
            law_next_due_is_told(progress.at(Cursor::FrontWrite), sockets, at);
        } else {
            assert(own == ReadyAction::Readable(Peer::Backend(progress.tokens[i as int])));
            law_filter(sockets.backs[progress.tokens[i as int]], Ready::READABLE);
            if at > here {
                law_next_due_is_told(
                    progress.at(Cursor::BackWrite((i + 1) as usize)),
                    sockets,
                    at,
                );
            }
        },
        _ => {},
    }
}

/// A session with nobody due in the rest of the round is closed if a backend broke; goes on if
/// nothing was done in the round; and is closed if something was and this is the last of 100000
/// rounds. Otherwise it does what it would do at the start of a new round, with one more round
/// counted, whatever backends it has.
pub proof fn law_round_with_nobody_due_ends(progress: ProgressView, sockets: Sockets)
    requires
        progress.wf(sockets),
        !(progress.cursor is Start),
        !(progress.cursor is End),
        forall|other: int|
            place(progress) <= other < round_len(progress.tokens) ==> !is_due(
                sockets,
                #[trigger] told_at(progress.tokens, other),
            ),
    ensures
        ({
            let (after, action) = progress.next(sockets);
            if sockets.broken() {
                action == ReadyAction::Finish(SessionResult::Close) && after.counter
                    == progress.counter
            } else if !progress.dirty {
                action == ReadyAction::Finish(SessionResult::Continue) && after.counter
                    == progress.counter
            } else if progress.counter + 1 == 100000 {
                action == ReadyAction::Finish(SessionResult::Close) && after.counter == 100000
            } else {
                (after, action) == (ProgressView {
                    counter: progress.counter + 1,
                    dirty: false,
                    cursor: Cursor::FrontRead,
                    tokens: progress.tokens,
                }).next(sockets)
            }
        }),
    decreases progress.places_left(),
{
    let n = progress.tokens.len();
    let here = place(progress);
    let own = told_at(progress.tokens, here);
    law_filter(sockets.front, Ready::READABLE);
    law_filter(sockets.front, Ready::WRITABLE);
    match progress.cursor {
        Cursor::FrontRead => {
            law_round_with_nobody_due_ends(progress.at(Cursor::BackWrite(0)), sockets);
        },
        Cursor::BackWrite(i) => if i >= n {
            law_round_with_nobody_due_ends(progress.at(Cursor::FrontWrite), sockets);
        } else {
            assert(own == ReadyAction::Writable(Peer::Backend(progress.tokens[i as int])));
            law_filter(sockets.backs[progress.tokens[i as int]], Ready::WRITABLE);
            law_round_with_nobody_due_ends(progress.at(Cursor::BackRead(i)), sockets);
        },
        Cursor::BackRead(i) => if i >= n {
            law_round_with_nobody_due_ends(progress.at(Cursor::FrontWrite), sockets);
        } else {
            assert(own == ReadyAction::Readable(Peer::Backend(progress.tokens[i as int])));
            law_filter(sockets.backs[progress.tokens[i as int]], Ready::READABLE);
            law_round_with_nobody_due_ends(
                progress.at(Cursor::BackWrite((i + 1) as usize)),
                sockets,
            );
        },
        Cursor::FrontWrite => {
            law_round_with_nobody_due_ends(progress.at(Cursor::Turn), sockets);
        },
        _ => {},
    }
}

/// A session that starts does what it would do at the start of its first round, unless its frontend
/// hung up: then it is closed. One that came to its end stays there.
pub proof fn law_start_and_end(progress: ProgressView, sockets: Sockets)
    requires
        progress.wf(sockets),
    ensures
        progress.cursor is Start ==> if sockets.front.event.has(Ready::HUP) {
            &&& progress.next(sockets).1 == ReadyAction::Finish(SessionResult::Close)
            &&& progress.next(sockets).0.counter == progress.counter
        } else {
            progress.next(sockets) == (ProgressView {
                cursor: Cursor::FrontRead,
                ..progress
            }).next(sockets)
        },
        progress.cursor matches Cursor::End(result) ==> progress.next(sockets) == (
            progress,
            ReadyAction::Finish(result),
        ),
{
}

/// A call counts at most one round, and none if nothing was done in the one it starts in.
pub proof fn law_one_round_at_a_time(progress: ProgressView, sockets: Sockets)
    requires
        progress.wf(sockets),
    ensures
        progress.counter <= progress.next(sockets).0.counter <= progress.counter + 1,
        !progress.dirty ==> progress.next(sockets).0.counter == progress.counter,
    decreases progress.rounds_left(), progress.places_left(),
{
    let n = progress.tokens.len();
    match progress.cursor {
        Cursor::Start => law_one_round_at_a_time(progress.at(Cursor::FrontRead), sockets),
        Cursor::FrontRead => law_one_round_at_a_time(progress.at(Cursor::BackWrite(0)), sockets),
        Cursor::BackWrite(i) => if i >= n {
            law_one_round_at_a_time(progress.at(Cursor::FrontWrite), sockets);
        } else {
            law_one_round_at_a_time(progress.at(Cursor::BackRead(i)), sockets);
        },
        Cursor::BackRead(i) => if i >= n {
            law_one_round_at_a_time(progress.at(Cursor::FrontWrite), sockets);
        } else {
            law_one_round_at_a_time(progress.at(Cursor::BackWrite((i + 1) as usize)), sockets);
        },
        Cursor::FrontWrite => law_one_round_at_a_time(progress.at(Cursor::Turn), sockets),
        Cursor::Turn => if !sockets.broken() && progress.dirty && progress.counter + 1
            < MAX_LOOP_ITERATIONS {
            law_one_round_at_a_time(
                ProgressView {
                    counter: progress.counter + 1,
                    dirty: false,
                    cursor: Cursor::FrontRead,
                    ..progress
                },
                sockets,
            );
        },
        Cursor::End(_) => {},
    }
}

/// A run of a session from its start: call after call, with the sockets as they are at each call,
/// where each but the last has somebody told.
pub open spec fn is_run(steps: Seq<ProgressView>, sockets: Seq<Sockets>) -> bool {
    &&& sockets.len() > 0
    &&& steps.len() == sockets.len() + 1
    &&& steps[0].cursor is Start
    &&& steps[0].counter == 0
    &&& !steps[0].dirty
    &&& forall|i: int|
        0 <= i < sockets.len() ==> (#[trigger] steps[i]).wf(sockets[i]) && steps[i + 1]
            == steps[i].next(sockets[i]).0
    &&& forall|i: int|
        0 <= i < sockets.len() - 1 ==> !((#[trigger] steps[i]).next(sockets[i]).1 is Finish)
}

/// A run is under way before each of its calls, and has counted fewer rounds than it had somebody
/// told.
proof fn lemma_run_counts(steps: Seq<ProgressView>, sockets: Seq<Sockets>, at: int)
    requires
        is_run(steps, sockets),
        0 <= at < sockets.len(),
    ensures
        is_under_way(steps[at]),
        at > 0 ==> steps[at].counter < at,
        at == 0 ==> steps[at].counter == 0,
    decreases at,
{
    if at > 0 {
        lemma_run_counts(steps, sockets, at - 1);
        let before = steps[at - 1];
        assert(before.wf(sockets[at - 1]) && steps[at - 1 + 1] == before.next(sockets[at - 1]).0);
        law_run_stays_under_way(before, sockets[at - 1]);
        law_one_round_at_a_time(before, sockets[at - 1]);
    }
}

/// A session is closed because its connections get no rest only after it had somebody told at least
/// 100000 times, and then it counted 100000 rounds: if neither the frontend had hung up at the start
/// nor a backend is broken, no shorter run is closed.
pub proof fn law_only_a_long_run_is_restless(steps: Seq<ProgressView>, sockets: Seq<Sockets>)
    requires
        is_run(steps, sockets),
        steps[sockets.len() - 1].next(sockets.last()).1 == ReadyAction::Finish(
            SessionResult::Close,
        ),
        !sockets.last().broken(),
        !sockets[0].front.event.has(Ready::HUP),
    ensures
        sockets.len() > 100000,
        steps.last().counter == 100000,
{
    let last = sockets.len() - 1;
    lemma_run_counts(steps, sockets, last);
    assert(steps[last].wf(sockets[last]) && steps[last + 1] == steps[last].next(sockets[last]).0);
    law_run_ends_for_a_reason(steps[last], sockets[last]);
    law_one_round_at_a_time(steps[last], sockets[last]);
    if last > 0 && steps[last].cursor is Start {
        assert(!(steps[last - 1].next(sockets[last - 1]).1 is Finish));
        assert(steps[last - 1].wf(sockets[last - 1]) && steps[last - 1 + 1] == steps[last - 1].next(
            sockets[last - 1],
        ).0);
        lemma_start_is_left(steps[last - 1], sockets[last - 1]);
    }
}

/// A session that has somebody told is no longer at its start.
proof fn lemma_start_is_left(progress: ProgressView, sockets: Sockets)
    requires
        progress.wf(sockets),
        !(progress.next(sockets).1 is Finish),
    ensures
        !(progress.next(sockets).0.cursor is Start),
    decreases progress.rounds_left(), progress.places_left(),
{
    let n = progress.tokens.len();
    match progress.cursor {
        Cursor::Start => lemma_start_is_left(progress.at(Cursor::FrontRead), sockets),
        Cursor::FrontRead => if !sockets.front.filtered().has(Ready::READABLE) {
            lemma_start_is_left(progress.at(Cursor::BackWrite(0)), sockets);
        },
        Cursor::BackWrite(i) => if i >= n {
            lemma_start_is_left(progress.at(Cursor::FrontWrite), sockets);
        } else if !sockets.backs[progress.tokens[i as int]].filtered().has(Ready::WRITABLE) {
            lemma_start_is_left(progress.at(Cursor::BackRead(i)), sockets);
        },
        Cursor::BackRead(i) => if i >= n {
            lemma_start_is_left(progress.at(Cursor::FrontWrite), sockets);
        } else if !sockets.backs[progress.tokens[i as int]].filtered().has(Ready::READABLE) {
            lemma_start_is_left(progress.at(Cursor::BackWrite((i + 1) as usize)), sockets);
        },
        Cursor::FrontWrite => if !sockets.front.filtered().has(Ready::WRITABLE) {
            lemma_start_is_left(progress.at(Cursor::Turn), sockets);
        },
        Cursor::Turn => {
            lemma_start_is_left(
                ProgressView {
                    counter: progress.counter + 1,
                    dirty: false,
                    cursor: Cursor::FrontRead,
                    ..progress
                },
                sockets,
            );
        },
        Cursor::End(_) => {},
    }
}

/// A backend is broken exactly if its socket reported a hang-up and it waits for hang-ups, or an
/// error and it waits for errors; one such backend is enough.
pub proof fn law_what_breaks_a_session(sockets: Sockets, token: usize)
    ensures
        sockets.backs.contains_key(token) && sockets.backs[token].event.has(Ready::HUP)
            && sockets.backs[token].interest.has(Ready::HUP) ==> sockets.broken(),
        sockets.backs.contains_key(token) && sockets.backs[token].event.has(Ready::ERROR)
            && sockets.backs[token].interest.has(Ready::ERROR) ==> sockets.broken(),
        sockets.broken() ==> exists|other: usize| #[trigger]
            sockets.backs.contains_key(other) && ((sockets.backs[other].event.has(Ready::HUP)
                && sockets.backs[other].interest.has(Ready::HUP)) || (
            sockets.backs[other].event.has(Ready::ERROR) && sockets.backs[other].interest.has(
                Ready::ERROR,
            ))),
{
    law_filter(sockets.backs[token], Ready::HUP);
    law_filter(sockets.backs[token], Ready::ERROR);
    if sockets.broken() {
        let other = choose|other: usize| #[trigger]
            sockets.backs.contains_key(other) && (sockets.backs[other].filtered().has(Ready::HUP)
                || sockets.backs[other].filtered().has(Ready::ERROR));
        law_filter(sockets.backs[other], Ready::HUP);
        law_filter(sockets.backs[other], Ready::ERROR);
    }
}

/// The sockets of a session are those of its frontend and of each of its backends, and no others.
pub proof fn law_sockets_of_a_session<Tcp, Tls>(session: Mux<'_, Tcp, Tls>, token: usize)
    ensures
        session.sockets().front == session.frontend.spec_readiness(),
        session.sockets().backs.contains_key(token) <==> session.backends@.contains_key(token),
        session.backends@.contains_key(token) ==> session.sockets().backs[token]
            == session.backends@[token].spec_readiness(),
{
}

/// A half that was just made is an empty request over all of its memory: it holds no data and no
/// output.
pub proof fn law_new_half_is_empty(memory: Seq<u8>)
    ensures
        ({
            let half = new_request_view(memory);
            &&& half.bytes == memory
            &&& half.data().len() == 0
            &&& half.space() == memory.len()
            &&& half.head == 0
            &&& half.out.len() == 0
            &&& half.message == fresh(MessageKind::Request)
            &&& half.wf()
        }),
{
}

} // verus!
