//! Streams: a request identifier with the two halves of an HTTP exchange.

use crate::out::{
    all_bytes, all_within, drop_bytes, first_slice, io_slices, lemma_drop_bytes, lemma_drop_keeps_tail,
    lemma_same_bytes, sendable, total_len, OutStore,
};
use crate::parser::FrameHeader;
use crate::serializer::{frame_header_bytes, gen_frame_header};
use kawa::{Buffer, Kawa, Kind, OutBlock, SliceBuffer, Store};
use rusty_ulid::Ulid;
use vstd::prelude::*;

verus! {

/// The identifier of a request: `rusty_ulid::Ulid`, carried through unread.
#[verifier::external_type_specification]
#[verifier::external_body]
pub struct ExUlid(Ulid);

/// One direction of an HTTP exchange: a `kawa::Kawa` over its storage.
///
/// The field is private: a value is made by `GenericHttpStream::new` and changed by the
/// functions of this module only.
#[verifier::external_body]
pub struct GenericHttpStream<'a> {
    kawa: Kawa<SliceBuffer<'a>>,
}

/// All bytes of the memory behind the storage, used or not.
pub uninterp spec fn storage_bytes(stream: GenericHttpStream<'_>) -> Seq<u8>;

/// Where the data of the storage starts, where its unparsed part starts, and where it ends.
pub uninterp spec fn storage_marks(stream: GenericHttpStream<'_>) -> (nat, nat, nat);

/// The output queue.
pub uninterp spec fn out_stores(stream: GenericHttpStream<'_>) -> Seq<OutStore>;

/// All the rest that is ever read, written out as numbers: the blocks and what is detached from
/// them, the kind, the parsing phase, the size of the body and how much of it is expected. What is
/// left out is the mark that some output was taken, which nothing here reads.
pub uninterp spec fn message(stream: GenericHttpStream<'_>) -> Seq<int>;

/// Whether a message is a request or a response.
#[derive(Clone, Copy, Debug, PartialEq, Eq, Structural)]
pub enum MessageKind {
    Request,
    Response,
}

/// The message part of a new message.
pub uninterp spec fn fresh(kind: MessageKind) -> Seq<int>;

/// What `kawa::h1::parse` makes of a message part, of the bytes of the storage, of where its
/// unparsed data starts and of where it ends: the message part and where unparsed data starts then.
/// It takes no length above `max`, the largest `usize`.
pub uninterp spec fn h1_parsed(
    message: Seq<int>,
    bytes: Seq<u8>,
    head: nat,
    end: nat,
    max: nat,
) -> (Seq<int>, nat);

/// What `kawa::Kawa::prepare` makes of a message part with the HTTP/1 converter: the message part
/// then, and what it adds to the output queue.
pub uninterp spec fn h1_prepared(message: Seq<int>) -> (Seq<int>, Seq<OutStore>);

/// The message part is at its end: what `kawa::Kawa::is_terminated` returns.
pub uninterp spec fn terminated(message: Seq<int>) -> bool;

/// The message part holds blocks that were not converted yet.
pub uninterp spec fn has_blocks(message: Seq<int>) -> bool;

/// What a `GenericHttpStream` holds.
pub struct HttpView {
    pub bytes: Seq<u8>,
    pub start: nat,
    pub head: nat,
    pub end: nat,
    pub out: Seq<OutStore>,
    pub message: Seq<int>,
}

impl HttpView {
    /// The marks are in order and within the storage.
    pub open spec fn wf(self) -> bool {
        &&& self.start <= self.end
        &&& self.head <= self.end
        &&& self.end <= self.bytes.len()
    }

    /// The bytes that the storage holds.
    pub open spec fn data(self) -> Seq<u8> {
        self.bytes.subrange(self.start as int, self.end as int)
    }

    /// How many bytes the storage can still take.
    pub open spec fn space(self) -> nat {
        (self.bytes.len() - self.end) as nat
    }

    /// With `memory` in place of the bytes that the storage does not use yet.
    pub open spec fn with_space(self, memory: Seq<u8>) -> HttpView {
        HttpView { bytes: self.bytes.take(self.end as int) + memory, ..self }
    }

    /// With up to `count` more bytes counted as data.
    pub open spec fn filled(self, count: nat) -> HttpView {
        HttpView {
            end: self.end + if count <= self.space() {
                count
            } else {
                self.space()
            },
            ..self
        }
    }

    /// With `added` written behind the data and counted as data.
    pub open spec fn appended(self, added: Seq<u8>) -> HttpView {
        HttpView {
            bytes: self.bytes.take(self.end as int) + added + self.bytes.skip(
                (self.end + added.len()) as int,
            ),
            end: self.end + added.len(),
            ..self
        }
    }

    /// With up to `count` bytes of data dropped from the front.
    pub open spec fn discarded(self, count: nat) -> HttpView {
        HttpView {
            start: if count <= self.end - self.start {
                self.start + count
            } else {
                self.end
            },
            ..self
        }
    }

    /// With no data.
    pub open spec fn cleared(self) -> HttpView {
        HttpView { start: 0, head: 0, end: 0, ..self }
    }

    /// With the unparsed data taken in by the HTTP/1 parser, as far as it goes.
    pub open spec fn parsed(self) -> HttpView {
        let (message, head) = h1_parsed(
            self.message,
            self.bytes,
            self.head,
            self.end,
            usize::MAX as nat,
        );
        HttpView { message, head, ..self }
    }

    /// With the parsed blocks converted to HTTP/1 output.
    pub open spec fn prepared(self) -> HttpView {
        let (message, added) = h1_prepared(self.message);
        HttpView { message, out: self.out + added, ..self }
    }

    /// The output queue once `amount` bytes of it are written.
    pub open spec fn unsent(self, amount: nat) -> Seq<OutStore> {
        drop_bytes(self.out, amount)
    }

    /// The first byte of the storage that is still referred to once `amount` bytes of output are
    /// written: that of the first slice in the queue; without one, that of the unparsed data, or
    /// that of all data as long as there are blocks to convert.
    pub open spec fn leftmost(self, amount: nat) -> nat {
        match first_slice(self.unsent(amount)) {
            Some(start) => start,
            None => if has_blocks(self.message) {
                self.start
            } else {
                self.head
            },
        }
    }

    /// Where the data starts once `amount` bytes of output are written.
    pub open spec fn kept_from(self, amount: nat) -> nat {
        if self.leftmost(amount) <= self.end {
            self.leftmost(amount)
        } else {
            self.end
        }
    }

    /// Whether the data is then moved to the front of the storage: when more than half of the
    /// storage is unused in front of it, or when it is empty and not there already.
    pub open spec fn shifts(self, amount: nat) -> bool {
        let from = self.kept_from(amount);
        from > self.bytes.len() / 2 || (from > 0 && from == self.end)
    }

    /// `amount` bytes of output can be counted as written: the queue has that many, nothing in it
    /// lies outside of the storage or refers to bytes that were given up before, and nothing refers
    /// to bytes that are given up when the data moves.
    pub open spec fn releasable(self, amount: nat) -> bool {
        &&& self.bytes.len() <= u32::MAX
        &&& all_within(self.out, self.bytes.len())
        &&& forall|i: int| 0 <= i < self.out.len() ==> (#[trigger] self.out[i]).len() <= u32::MAX
        &&& amount <= total_len(self.out)
        &&& self.start <= self.leftmost(amount)
        &&& self.shifts(amount) ==> {
            &&& self.kept_from(amount) <= self.head
            &&& forall|i: int|
                0 <= i < self.unsent(amount).len() ==> (#[trigger] self.unsent(amount)[i]).at_or_after(
                    self.kept_from(amount),
                )
        }
    }

    /// With `amount` bytes of output counted as written, and the storage tidied.
    pub open spec fn released(self, amount: nat) -> HttpView {
        let from = self.kept_from(amount);
        if self.shifts(amount) {
            HttpView {
                bytes: self.bytes.subrange(from as int, self.end as int) + self.bytes.skip(
                    self.end - from,
                ),
                start: 0,
                head: (self.head - from) as nat,
                end: (self.end - from) as nat,
                out: self.unsent(amount).map_values(|store: OutStore| store.shifted(from)),
                ..self
            }
        } else {
            HttpView { start: from, out: self.unsent(amount), ..self }
        }
    }
}

impl<'a> View for GenericHttpStream<'a> {
    type V = HttpView;

    open spec fn view(&self) -> HttpView {
        HttpView {
            bytes: storage_bytes(*self),
            start: storage_marks(*self).0,
            head: storage_marks(*self).1,
            end: storage_marks(*self).2,
            out: out_stores(*self),
            message: message(*self),
        }
    }
}

/// One entry of an output queue, without the bytes it stands for.
enum OutPiece {
    Delimiter,
    Empty,
    Slice { start: u32, len: u32 },
    Detached { start: u32, len: u32 },
    Owned { size: usize },
}

impl OutPiece {
    /// The piece describes `store`.
    spec fn describes(self, store: OutStore) -> bool {
        match self {
            OutPiece::Delimiter => store is Delimiter,
            OutPiece::Empty => store is Empty,
            OutPiece::Slice { start, len } => store == (OutStore::Slice {
                start: start as nat,
                len: len as nat,
            }),
            OutPiece::Detached { start, len } => store == (OutStore::Detached {
                start: start as nat,
                len: len as nat,
            }),
            OutPiece::Owned { size } => store is Owned && store.len() == size,
        }
    }
}

/// The calls into kawa. None of them is reached with a value that was not made by `new` and
/// changed by these functions alone.
impl<'a> GenericHttpStream<'a> {
    /// Calls `kawa::Kawa::new` over `kawa::Buffer::new`: the storage is empty, nothing is queued,
    /// and the message part is that of a new message of that kind, which is not at its end and has
    /// no blocks.
    #[verifier::external_body]
    pub(crate) fn new(kind: MessageKind, buffer: &'a mut [u8]) -> (stream: GenericHttpStream<'a>)
        ensures
            storage_bytes(stream) == old(buffer)@,
            storage_marks(stream) == (0nat, 0nat, 0nat),
            out_stores(stream) == Seq::<OutStore>::empty(),
            message(stream) == fresh(kind),
            !terminated(message(stream)),
            !has_blocks(message(stream)),
    {
        let kind = match kind {
            MessageKind::Request => Kind::Request,
            MessageKind::Response => Kind::Response,
        };
        GenericHttpStream { kawa: Kawa::new(kind, Buffer::new(SliceBuffer(buffer))) }
    }

    /// Takes the memory back out of the fields of `kawa::Kawa`, `kawa::Buffer` and
    /// `kawa::SliceBuffer` that `new` put it in: it is the storage, with what the storage holds.
    #[verifier::external_body]
    fn into_memory(self) -> (memory: &'a mut [u8])
        ensures
            (*memory)@ == storage_bytes(self),
    {
        self.kawa.storage.buffer.0
    }

    /// Calls `kawa::Buffer::space`: the part of the storage behind its data, to be written to.
    /// Nothing but those bytes can change through it.
    #[verifier::external_body]
    pub(crate) fn storage_space(&mut self) -> (space: &mut [u8])
        requires
            old(self)@.wf(),
        ensures
            space@ == old(self)@.bytes.skip(old(self)@.end as int),
            final(space)@.len() == space@.len(),
            final(self)@ == old(self)@.with_space(final(space)@),
    {
        self.kawa.storage.space()
    }

    /// Calls `kawa::Buffer::fill`: counts `count` bytes behind the data as data, or as many as
    /// there is space for, and returns how many.
    #[verifier::external_body]
    pub(crate) fn storage_fill(&mut self, count: usize) -> (filled: usize)
        requires
            old(self)@.wf(),
        ensures
            final(self)@ == old(self)@.filled(count as nat),
            filled == final(self)@.end - old(self)@.end,
    {
        self.kawa.storage.fill(count)
    }

    /// Calls `kawa::Buffer::data`: the data of the storage.
    #[verifier::external_body]
    pub(crate) fn storage_data(&self) -> (data: &[u8])
        requires
            self@.wf(),
        ensures
            data@ == self@.data(),
    {
        self.kawa.storage.data()
    }

    /// Calls `kawa::Buffer::available_data`: the length of the data.
    #[verifier::external_body]
    pub(crate) fn storage_available_data(&self) -> (len: usize)
        requires
            self@.wf(),
        ensures
            len == self@.data().len(),
    {
        self.kawa.storage.available_data()
    }

    /// Calls `kawa::Buffer::capacity`: the length of the whole storage.
    #[verifier::external_body]
    fn storage_capacity(&self) -> (len: usize)
        ensures
            len == self@.bytes.len(),
    {
        self.kawa.storage.capacity()
    }

    /// Calls `kawa::Buffer::is_empty`: whether there is no data.
    #[verifier::external_body]
    pub(crate) fn storage_is_empty(&self) -> (empty: bool)
        ensures
            empty == (self@.start == self@.end),
    {
        self.kawa.storage.is_empty()
    }

    /// Calls `kawa::Buffer::consume`: drops `count` bytes of data, or as many as there are, and
    /// returns how many.
    #[verifier::external_body]
    pub(crate) fn storage_consume(&mut self, count: usize) -> (consumed: usize)
        requires
            old(self)@.wf(),
        ensures
            final(self)@ == old(self)@.discarded(count as nat),
            consumed == final(self)@.start - old(self)@.start,
    {
        self.kawa.storage.consume(count)
    }

    /// Calls `kawa::Buffer::clear`: drops all data and starts over at the front of the storage.
    #[verifier::external_body]
    pub(crate) fn storage_clear(&mut self)
        ensures
            final(self)@ == old(self)@.cleared(),
    {
        self.kawa.storage.clear()
    }

    /// Reads the public marks of `kawa::Buffer`: start, head and end of its data.
    #[verifier::external_body]
    fn storage_positions(&self) -> (marks: (usize, usize, usize))
        ensures
            marks.0 == self@.start,
            marks.1 == self@.head,
            marks.2 == self@.end,
    {
        (self.kawa.storage.start, self.kawa.storage.head, self.kawa.storage.end)
    }

    /// Calls `kawa::h1::parse` without callbacks: it moves the start of the unparsed data forward
    /// and changes the message part; the bytes, the other marks and the output queue stay.
    /// Nothing changes where there is no unparsed data or the message is at its end.
    #[verifier::external_body]
    pub(crate) fn kawa_parse(&mut self)
        requires
            old(self)@.wf(),
        ensures
            (final(self)@.message, final(self)@.head) == h1_parsed(
                old(self)@.message,
                old(self)@.bytes,
                old(self)@.head,
                old(self)@.end,
                usize::MAX as nat,
            ),
            final(self)@ == old(self)@.parsed(),
            old(self)@.head <= final(self)@.head <= final(self)@.end,
            old(self)@.head == old(self)@.end ==> final(self)@ == old(self)@,
            terminated(old(self)@.message) ==> final(self)@ == old(self)@,
    {
        kawa::h1::parse(&mut self.kawa, &mut kawa::h1::NoCallbacks)
    }

    /// Calls `kawa::Kawa::is_terminated`: whether the message is at its end.
    #[verifier::external_body]
    pub(crate) fn kawa_is_terminated(&self) -> (done: bool)
        ensures
            done == terminated(self@.message),
    {
        self.kawa.is_terminated()
    }

    /// Calls `kawa::Kawa::prepare` with the HTTP/1 converter: it converts all blocks and adds what
    /// they give to the end of the output queue; the storage stays. Nothing changes where there are
    /// no blocks.
    #[verifier::external_body]
    pub(crate) fn kawa_prepare(&mut self)
        ensures
            (final(self)@.message, final(self)@.out) == (
                h1_prepared(old(self)@.message).0,
                old(self)@.out + h1_prepared(old(self)@.message).1,
            ),
            final(self)@ == old(self)@.prepared(),
            !has_blocks(final(self)@.message),
            !has_blocks(old(self)@.message) ==> final(self)@ == old(self)@,
    {
        self.kawa.prepare(&mut kawa::h1::BlockConverter)
    }

    /// Calls `kawa::Kawa::as_io_slice`: the bytes of each entry of the output queue, up to the
    /// first delimiter.
    #[verifier::external_body]
    pub(crate) fn kawa_as_io_slice(&self) -> (slices: Vec<Vec<u8>>)
        requires
            sendable(self@.out, self@.bytes.len()),
        ensures
            slices@.map_values(|slice: Vec<u8>| slice@) == io_slices(self@.out, self@.bytes),
    {
        self.kawa.as_io_slice().iter().map(|slice| slice.to_vec()).collect()
    }

    /// Calls `kawa::Kawa::consume`: takes `amount` bytes out of the output queue, gives up the
    /// part of the storage that nothing refers to any more, and moves the data to the front of
    /// the storage where that pays.
    #[verifier::external_body]
    pub(crate) fn kawa_consume(&mut self, amount: usize)
        requires
            old(self)@.wf(),
            old(self)@.releasable(amount as nat),
        ensures
            final(self)@ == old(self)@.released(amount as nat),
    {
        self.kawa.consume(amount)
    }

    /// Calls `std::collections::VecDeque::is_empty` on the blocks of `kawa::Kawa`.
    #[verifier::external_body]
    fn kawa_blocks_empty(&self) -> (empty: bool)
        ensures
            empty == !has_blocks(self@.message),
    {
        self.kawa.blocks.is_empty()
    }

    /// Calls `std::collections::VecDeque::len` on the output queue of `kawa::Kawa`.
    #[verifier::external_body]
    fn kawa_out_len(&self) -> (len: usize)
        ensures
            len == self@.out.len(),
    {
        self.kawa.out.len()
    }

    /// Tells what one entry of the output queue of `kawa::Kawa` is, with `kawa::Store::len` for
    /// one that lies outside of the storage.
    #[verifier::external_body]
    fn kawa_out_piece(&self, index: usize) -> (piece: OutPiece)
        requires
            index < self@.out.len(),
        ensures
            piece.describes(self@.out[index as int]),
    {
        match &self.kawa.out[index] {
            OutBlock::Delimiter => OutPiece::Delimiter,
            OutBlock::Store(Store::Empty) => OutPiece::Empty,
            OutBlock::Store(Store::Slice(slice)) => OutPiece::Slice {
                start: slice.start,
                len: slice.len,
            },
            OutBlock::Store(Store::Detached(slice)) => OutPiece::Detached {
                start: slice.start,
                len: slice.len,
            },
            OutBlock::Store(store) => OutPiece::Owned { size: store.len() },
        }
    }
}

/// A request with the two halves of its exchange.
pub struct Stream<'a> {
    pub request_id: Ulid,
    pub front: GenericHttpStream<'a>,
    pub back: GenericHttpStream<'a>,
}

impl<'a> Stream<'a> {
    /// Gives the memory of both halves back, the front first.
    pub fn into_buffers(self) -> (buffers: (&'a mut [u8], &'a mut [u8]))
        ensures
            (*buffers.0)@ == self.front@.bytes,
            (*buffers.1)@ == self.back@.bytes,
    {
        (self.front.into_memory(), self.back.into_memory())
    }
}

/// What a `Stream` holds.
pub struct StreamView {
    pub request_id: Ulid,
    pub front: HttpView,
    pub back: HttpView,
}

impl StreamView {
    /// Both halves are well-formed.
    pub open spec fn wf(self) -> bool {
        self.front.wf() && self.back.wf()
    }
}

impl<'a> View for Stream<'a> {
    type V = StreamView;

    open spec fn view(&self) -> StreamView {
        StreamView { request_id: self.request_id, front: self.front@, back: self.back@ }
    }
}

/// What each of `streams` holds.
pub open spec fn views(streams: Seq<Stream<'_>>) -> Seq<StreamView> {
    Seq::new(streams.len(), |i: int| streams[i]@)
}

/// All streams are well-formed.
pub open spec fn all_wf(streams: Seq<StreamView>) -> bool {
    forall|i: int| 0 <= i < streams.len() ==> (#[trigger] streams[i]).wf()
}

/// The length of one entry of an output queue.
fn piece_len(piece: &OutPiece) -> (len: usize)
    ensures
        forall|store: OutStore| piece.describes(store) ==> len == store.len(),
{
    match piece {
        OutPiece::Slice { len, .. } => *len as usize,
        OutPiece::Detached { len, .. } => *len as usize,
        OutPiece::Owned { size } => *size,
        _ => 0,
    }
}

impl<'a> GenericHttpStream<'a> {
    /// The bytes that the storage holds.
    pub fn data(&self) -> (data: &[u8])
        requires
            self@.wf(),
        ensures
            data@ == self@.data(),
    {
        self.storage_data()
    }

    /// Whether the message is at its end.
    pub fn is_terminated(&self) -> (done: bool)
        ensures
            done == terminated(self@.message),
    {
        self.kawa_is_terminated()
    }

    /// How many bytes the storage can still take.
    pub fn available_space(&self) -> (len: usize)
        requires
            self@.wf(),
        ensures
            len == self@.space(),
    {
        let (_, _, end) = self.storage_positions();
        self.storage_capacity() - end
    }

    /// How many bytes the storage would hold with `count` more counted as data.
    pub fn data_len_filled(&self, count: usize) -> (len: usize)
        requires
            self@.wf(),
        ensures
            len == self@.filled(count as nat).data().len(),
    {
        let capacity = self.storage_capacity();
        let (start, _, end) = self.storage_positions();
        if count <= capacity - end {
            end + count - start
        } else {
            capacity - start
        }
    }

    /// How many bytes the storage can hold.
    pub fn capacity(&self) -> (len: usize)
        ensures
            len == self@.bytes.len(),
    {
        self.storage_capacity()
    }

    /// Writes a frame header behind the data.
    pub(crate) fn push_frame_header(&mut self, frame: &FrameHeader)
        requires
            old(self)@.wf(),
            old(self)@.space() >= 9,
        ensures
            final(self)@ == old(self)@.appended(frame_header_bytes(*frame)),
            final(self)@.wf(),
    {
        if let Ok(size) = gen_frame_header(self.storage_space(), frame) {
            self.storage_fill(size);
        }
        assert(self@.bytes =~= old(self)@.appended(frame_header_bytes(*frame)).bytes);
    }

    /// Whether nothing is queued in front of the first delimiter.
    pub fn nothing_to_send(&self) -> (nothing: bool)
        ensures
            nothing == (io_slices(self@.out, self@.bytes).len() == 0),
    {
        self.kawa_out_len() == 0 || match self.kawa_out_piece(0) {
            OutPiece::Delimiter => true,
            _ => false,
        }
    }

    /// Whether each entry in front of the first delimiter of the output queue has bytes to send.
    pub fn can_send(&self) -> (can: bool)
        ensures
            can == sendable(self@.out, self@.bytes.len()),
    {
        let len = self.kawa_out_len();
        let capacity = self.storage_capacity();
        let mut index: usize = 0;
        proof {
            assert(self@.out.skip(0) =~= self@.out);
        }
        while index < len
            invariant
                index <= len,
                len == self@.out.len(),
                capacity == self@.bytes.len(),
                sendable(self@.out, self@.bytes.len()) == sendable(
                    self@.out.skip(index as int),
                    self@.bytes.len(),
                ),
            decreases len - index,
        {
            proof {
                assert(self@.out.skip(index as int)[0] == self@.out[index as int]);
                assert(self@.out.skip(index as int).drop_first() =~= self@.out.skip(index + 1));
            }
            match self.kawa_out_piece(index) {
                OutPiece::Delimiter => {
                    return true;
                },
                OutPiece::Empty => {
                    return false;
                },
                OutPiece::Slice { start, len } => {
                    if start as u64 + len as u64 > capacity as u64 {
                        return false;
                    }
                },
                OutPiece::Detached { start, len } => {
                    if start as u64 + len as u64 > capacity as u64 {
                        return false;
                    }
                },
                OutPiece::Owned { .. } => {},
            }
            index = index + 1;
        }
        true
    }

    /// Where the first slice among the entries from `index` on starts.
    fn first_slice_from(&self, index: usize) -> (first: Option<u32>)
        requires
            index <= self@.out.len(),
        ensures
            match first {
                Some(start) => first_slice(self@.out.skip(index as int)) == Some(start as nat),
                None => first_slice(self@.out.skip(index as int)) is None,
            },
    {
        let len = self.kawa_out_len();
        let mut at: usize = index;
        while at < len
            invariant
                index <= at <= len,
                len == self@.out.len(),
                first_slice(self@.out.skip(index as int)) == first_slice(self@.out.skip(at as int)),
            decreases len - at,
        {
            proof {
                assert(self@.out.skip(at as int)[0] == self@.out[at as int]);
                assert(self@.out.skip(at as int).drop_first() =~= self@.out.skip(at + 1));
            }
            if let OutPiece::Slice { start, .. } = self.kawa_out_piece(at) {
                return Some(start);
            }
            at = at + 1;
        }
        None
    }

    /// Whether no entry from `index` on refers to a byte of the storage before `bound`.
    fn all_at_or_after(&self, index: usize, bound: usize) -> (all: bool)
        requires
            index <= self@.out.len(),
        ensures
            all == forall|i: int|
                index <= i < self@.out.len() ==> (#[trigger] self@.out[i]).at_or_after(
                    bound as nat,
                ),
    {
        let len = self.kawa_out_len();
        let mut at: usize = index;
        while at < len
            invariant
                index <= at <= len,
                len == self@.out.len(),
                forall|i: int|
                    index <= i < at ==> (#[trigger] self@.out[i]).at_or_after(bound as nat),
            decreases len - at,
        {
            let early = match self.kawa_out_piece(at) {
                OutPiece::Slice { start, .. } => (start as usize) < bound,
                OutPiece::Detached { start, .. } => (start as usize) < bound,
                _ => false,
            };
            if early {
                assert(!self@.out[at as int].at_or_after(bound as nat));
                return false;
            }
            at = at + 1;
        }
        true
    }

    /// Whether `amount` bytes of output can be counted as written.
    pub fn can_release(&self, amount: usize) -> (can: bool)
        requires
            self@.wf(),
        ensures
            can == self@.releasable(amount as nat),
    {
        let capacity = self.storage_capacity();
        let (start, head, end) = self.storage_positions();
        let len = self.kawa_out_len();
        if capacity as u64 > u32::MAX as u64 {
            return false;
        }
        let mut at: usize = 0;
        while at < len
            invariant
                at <= len,
                len == self@.out.len(),
                capacity == self@.bytes.len(),
                forall|i: int|
                    0 <= i < at ==> (#[trigger] self@.out[i]).len() <= u32::MAX
                        && self@.out[i].within(self@.bytes.len()),
            decreases len - at,
        {
            let piece = self.kawa_out_piece(at);
            let outside = match piece {
                OutPiece::Slice { start, len } => start as u64 + len as u64 > capacity as u64,
                OutPiece::Detached { start, len } => start as u64 + len as u64 > capacity as u64,
                _ => false,
            };
            if outside {
                assert(!self@.out[at as int].within(self@.bytes.len()));
                return false;
            }
            if piece_len(&piece) as u64 > u32::MAX as u64 {
                assert(self@.out[at as int].len() > u32::MAX);
                return false;
            }
            at = at + 1;
        }
        let mut index: usize = 0;
        let mut left: usize = amount;
        proof {
            assert(self@.out.skip(0) =~= self@.out);
        }
        while index < len
            invariant
                index <= len,
                len == self@.out.len(),
                drop_bytes(self@.out, amount as nat) == drop_bytes(
                    self@.out.skip(index as int),
                    left as nat,
                ),
                amount <= total_len(self@.out) <==> left <= total_len(self@.out.skip(index as int)),
            ensures
                index <= len,
                drop_bytes(self@.out, amount as nat) == drop_bytes(
                    self@.out.skip(index as int),
                    left as nat,
                ),
                amount <= total_len(self@.out) <==> left <= total_len(self@.out.skip(index as int)),
                index < len ==> left < self@.out[index as int].len(),
            decreases len - index,
        {
            proof {
                assert(self@.out.skip(index as int)[0] == self@.out[index as int]);
                assert(self@.out.skip(index as int).drop_first() =~= self@.out.skip(index + 1));
            }
            let piece = self.kawa_out_piece(index);
            let size = piece_len(&piece);
            if left < size {
                break;
            }
            left = left - size;
            index = index + 1;
        }
        let ghost unsent = self@.unsent(amount as nat);
        if index == len {
            assert(unsent =~= Seq::<OutStore>::empty());
            if left > 0 {
                return false;
            }
            let leftmost = if self.kawa_blocks_empty() {
                head
            } else {
                start
            };
            if leftmost < start {
                return false;
            }
            let shifts = leftmost > capacity / 2 || (leftmost > 0 && leftmost == end);
            return !shifts || leftmost <= head;
        }
        proof {
            let rest = self@.out.skip(index as int);
            assert(rest[0] == self@.out[index as int]);
            assert(rest.drop_first() =~= self@.out.skip(index + 1));
            assert(unsent == seq![self@.out[index as int].after(left as nat)] + self@.out.skip(
                index + 1,
            ));
            assert(unsent[0] == self@.out[index as int].after(left as nat));
            assert(unsent.drop_first() =~= self@.out.skip(index + 1));
        }
        let own: Option<u64> = match self.kawa_out_piece(index) {
            OutPiece::Slice { start, .. } => Some(start as u64 + left as u64),
            OutPiece::Detached { start, .. } => Some(start as u64 + left as u64),
            _ => None,
        };
        let first: Option<u64> = match own {
            Some(at) => Some(at),
            None => match self.first_slice_from(index + 1) {
                Some(at) => Some(at as u64),
                None => None,
            },
        };
        let leftmost: u64 = match first {
            Some(at) => at,
            None => if self.kawa_blocks_empty() {
                head as u64
            } else {
                start as u64
            },
        };
        assert(leftmost == self@.leftmost(amount as nat));
        if leftmost < start as u64 {
            return false;
        }
        let from: usize = if leftmost <= end as u64 {
            leftmost as usize
        } else {
            end
        };
        let shifts = from > capacity / 2 || (from > 0 && from == end);
        assert(shifts == self@.shifts(amount as nat));
        if !shifts {
            return true;
        }
        let own_kept = match own {
            Some(at) => from as u64 <= at,
            None => true,
        };
        let others_kept = self.all_at_or_after(index + 1, from);
        proof {
            assert(own_kept == unsent[0].at_or_after(from as nat));
            if others_kept {
                assert forall|i: int| 0 < i < unsent.len() implies (
                #[trigger] unsent[i]).at_or_after(from as nat) by {
                    assert(unsent[i] == self@.out[index + i]);
                }
            } else {
                let j = choose|j: int|
                    index < j < self@.out.len() && !(#[trigger] self@.out[j]).at_or_after(
                        from as nat,
                    );
                assert(unsent[j - index] == self@.out[j]);
            }
        }
        from <= head && own_kept && others_kept
    }
}

/// Counting output as written takes exactly those bytes off what is queued, in order. Where the
/// data moves within the storage, this holds as long as what is left in the queue refers to data
/// only.
pub proof fn law_release_takes_written_bytes(stream: HttpView, amount: nat)
    requires
        stream.wf(),
        stream.releasable(amount),
        stream.shifts(amount) ==> all_within(stream.unsent(amount), stream.end),
    ensures
        all_bytes(stream.released(amount).out, stream.released(amount).bytes) == all_bytes(
            stream.out,
            stream.bytes,
        ).skip(amount as int),
        stream.released(amount).wf(),
        all_within(stream.released(amount).out, stream.released(amount).bytes.len()),
        stream.shifts(amount) ==> all_within(
            stream.released(amount).out,
            stream.released(amount).end,
        ),
{
    let unsent = stream.unsent(amount);
    lemma_drop_bytes(stream.out, amount, stream.bytes);
    if stream.shifts(amount) {
        let from = stream.kept_from(amount);
        let after = stream.released(amount);
        assert(after.out.len() == unsent.len());
        assert forall|i: int| 0 <= i < unsent.len() implies (#[trigger] unsent[i]).bytes(
            stream.bytes,
        ) == after.out[i].bytes(after.bytes) by {
            assert(unsent[i].within(stream.end));
            assert(unsent[i].at_or_after(from));
            assert(after.out[i] == unsent[i].shifted(from));
            assert(unsent[i].bytes(stream.bytes) =~= after.out[i].bytes(after.bytes));
        }
        lemma_same_bytes(unsent, stream.bytes, after.out, after.bytes);
        assert forall|i: int| 0 <= i < after.out.len() implies (#[trigger] after.out[i]).within(
            after.end,
        ) by {
            assert(unsent[i].within(stream.end));
            assert(unsent[i].at_or_after(from));
        }
        assert forall|i: int| 0 <= i < after.out.len() implies (#[trigger] after.out[i]).within(
            after.bytes.len(),
        ) by {
            assert(after.out[i].within(after.end));
        }
    }
}

/// A queue that refers to data only still does so once output is counted as written.
pub proof fn law_release_keeps_queue_within_data(stream: HttpView, amount: nat)
    requires
        stream.wf(),
        stream.releasable(amount),
        all_within(stream.out, stream.end),
    ensures
        all_within(stream.unsent(amount), stream.end),
        all_within(stream.released(amount).out, stream.released(amount).end),
{
    let data = stream.bytes.take(stream.end as int);
    lemma_drop_bytes(stream.out, amount, data);
    law_release_takes_written_bytes(stream, amount);
}

/// What a read wrote to the space and counted as data follows the data that was there before.
pub proof fn law_fill_appends(stream: HttpView, memory: Seq<u8>, size: nat)
    requires
        stream.wf(),
        memory.len() == stream.space(),
        size <= memory.len(),
    ensures
        stream.with_space(memory).filled(size).data() == stream.data() + memory.take(size as int),
        stream.with_space(memory).filled(size).wf(),
{
    assert(stream.with_space(memory).filled(size).data() =~= stream.data() + memory.take(
        size as int,
    ));
}

/// The output queue was made of the parsed data, front to back: each entry lies outside of the
/// storage or is a slice of the data in front of `head`, behind those before it.
pub open spec fn in_order(stream: HttpView) -> bool {
    &&& forall|i: int|
        0 <= i < stream.out.len() ==> match #[trigger] stream.out[i] {
            OutStore::Slice { start, len } => stream.start <= start && start + len <= stream.head,
            OutStore::Detached { .. } => false,
            _ => true,
        }
    &&& forall|i: int, j: int|
        0 <= i < j < stream.out.len() ==> match (#[trigger] stream.out[i], #[trigger] stream.out[j]) {
            (OutStore::Slice { start, len }, OutStore::Slice { start: later, .. }) => start + len
                <= later,
            _ => true,
        }
}

/// Of output that was made of the parsed data, front to back, any number of bytes that there are can
/// be counted as written.
pub proof fn law_ordered_output_can_be_written(stream: HttpView, amount: nat)
    requires
        stream.wf(),
        stream.start <= stream.head,
        stream.bytes.len() <= u32::MAX,
        forall|i: int| 0 <= i < stream.out.len() ==> (#[trigger] stream.out[i]).len() <= u32::MAX,
        in_order(stream),
        amount <= total_len(stream.out),
    ensures
        stream.releasable(amount),
{
    let unsent = stream.unsent(amount);
    let (first, gone) = lemma_drop_keeps_tail(stream.out, amount);
    assert forall|i: int| 0 <= i < unsent.len() implies match #[trigger] unsent[i] {
        OutStore::Slice { start, len } => stream.start <= start && start + len <= stream.head,
        OutStore::Detached { .. } => false,
        _ => true,
    } by {
        assert(unsent[i] == if i == 0 {
            stream.out[first as int].after(gone)
        } else {
            stream.out[first + i]
        });
        let _ = stream.out[first + i];
    }
    assert forall|i: int, j: int| 0 <= i < j < unsent.len() implies match (
        #[trigger] unsent[i],
        #[trigger] unsent[j],
    ) {
        (OutStore::Slice { start, len }, OutStore::Slice { start: later, .. }) => start + len
            <= later,
        _ => true,
    } by {
        assert(unsent[j] == stream.out[first + j]);
        if i > 0 {
            assert(unsent[i] == stream.out[first + i]);
        }
        let _ = (stream.out[first + i], stream.out[first + j]);
    }
    lemma_first_slice(unsent);
    assert(all_within(stream.out, stream.bytes.len()));
}

/// The first slice of a queue is one of its entries, and the entries before it are no slices.
proof fn lemma_first_slice(out: Seq<OutStore>)
    ensures
        match first_slice(out) {
            Some(start) => exists|i: int|
                0 <= i < out.len() && (#[trigger] out[i]) is Slice && out[i]->Slice_start == start
                    && forall|j: int| 0 <= j < i ==> !((#[trigger] out[j]) is Slice),
            None => forall|i: int| 0 <= i < out.len() ==> !((#[trigger] out[i]) is Slice),
        },
    decreases out.len(),
{
    if out.len() > 0 {
        let rest = out.drop_first();
        lemma_first_slice(rest);
        assert(forall|i: int| 0 <= i < rest.len() ==> rest[i] == out[i + 1]);
        assert(forall|i: int| 0 < i < out.len() ==> out[i] == rest[i - 1]);
        if !(out[0] is Slice) {
            if first_slice(out) is Some {
                let start = first_slice(out)->0;
                let i = choose|i: int|
                    0 <= i < rest.len() && (#[trigger] rest[i]) is Slice && rest[i]->Slice_start
                        == start && forall|j: int| 0 <= j < i ==> !((#[trigger] rest[j]) is Slice);
                assert(out[i + 1] is Slice && out[i + 1]->Slice_start == start);
                assert forall|j: int| 0 <= j < i + 1 implies !((#[trigger] out[j]) is Slice) by {
                    if j > 0 {
                        assert(out[j] == rest[j - 1]);
                    }
                }
            }
        } else {
            assert(out[0]->Slice_start == first_slice(out)->0);
        }
    }
}

/// Counting output as written makes the queue shorter by exactly that many bytes and leaves the
/// message, and the data from some byte on, as they were.
pub proof fn law_release_drops_a_prefix(stream: HttpView, amount: nat)
    requires
        stream.wf(),
        stream.releasable(amount),
    ensures
        ({
            let after = stream.released(amount);
            let dropped = stream.data().len() - after.data().len();
            &&& total_len(after.out) == total_len(stream.out) - amount
            &&& after.message == stream.message
            &&& after.bytes.len() == stream.bytes.len()
            &&& dropped >= 0
            &&& after.data() == stream.data().skip(dropped)
            &&& after.end - after.head == stream.end - stream.head
            &&& after.wf()
        }),
{
    let after = stream.released(amount);
    let dropped = stream.data().len() - after.data().len();
    let _ = lemma_drop_keeps_tail(stream.out, amount);
    if stream.shifts(amount) {
        let from = stream.kept_from(amount);
        lemma_same_total_len(stream.unsent(amount), after.out, from);
        assert(after.bytes.len() == stream.bytes.len());
    }
    assert(after.data() =~= stream.data().skip(dropped));
}

/// Entries stand for as many bytes once the storage moved.
proof fn lemma_same_total_len(out: Seq<OutStore>, moved: Seq<OutStore>, amount: nat)
    requires
        moved == out.map_values(|store: OutStore| store.shifted(amount)),
    ensures
        total_len(moved) == total_len(out),
    decreases out.len(),
{
    if out.len() > 0 {
        assert(moved.drop_first() =~= out.drop_first().map_values(
            |store: OutStore| store.shifted(amount),
        ));
        lemma_same_total_len(out.drop_first(), moved.drop_first(), amount);
    }
}

/// What is appended follows the data; nothing else changes.
pub proof fn law_append_extends_data(stream: HttpView, added: Seq<u8>)
    requires
        stream.wf(),
        added.len() <= stream.space(),
    ensures
        ({
            let after = stream.appended(added);
            &&& after.data() == stream.data() + added
            &&& after.bytes.len() == stream.bytes.len()
            &&& forall|i: int|
                0 <= i < stream.bytes.len() && !(stream.end <= i < stream.end + added.len())
                    ==> #[trigger] after.bytes[i] == stream.bytes[i]
            &&& (after.start, after.head, after.out, after.message) == (
                stream.start,
                stream.head,
                stream.out,
                stream.message,
            )
            &&& after.wf()
        }),
{
    assert(stream.appended(added).data() =~= stream.data() + added);
}

/// As long as the data does not move, any number of bytes that there are can be counted as written
/// of output that lies within the storage and not in front of the data, whatever its order.
pub proof fn law_output_can_be_written_in_place(stream: HttpView, amount: nat)
    requires
        stream.wf(),
        stream.start <= stream.head,
        stream.bytes.len() <= u32::MAX,
        all_within(stream.out, stream.bytes.len()),
        forall|i: int|
            0 <= i < stream.out.len() ==> (#[trigger] stream.out[i]).len() <= u32::MAX
                && stream.out[i].at_or_after(stream.start),
        amount <= total_len(stream.out),
        !stream.shifts(amount),
    ensures
        stream.releasable(amount),
{
    let unsent = stream.unsent(amount);
    let (first, gone) = lemma_drop_keeps_tail(stream.out, amount);
    assert forall|i: int| 0 <= i < unsent.len() implies (#[trigger] unsent[i]).at_or_after(
        stream.start,
    ) by {
        assert(unsent[i] == if i == 0 {
            stream.out[first as int].after(gone)
        } else {
            stream.out[first + i]
        });
        assert(stream.out[first + i].at_or_after(stream.start));
    }
    lemma_first_slice(unsent);
}

/// The storage is made of what lies in front of its data, its data and its space. Counting more bytes
/// as data than there is space for counts all of the space.
pub proof fn law_data_and_space(stream: HttpView, count: nat)
    requires
        stream.wf(),
    ensures
        stream.start + stream.data().len() + stream.space() == stream.bytes.len(),
        stream.bytes == stream.bytes.take(stream.start as int) + stream.data() + stream.bytes.skip(
            stream.end as int,
        ),
        stream.space() == stream.bytes.skip(stream.end as int).len(),
        count >= stream.space() ==> stream.filled(count) == stream.filled(stream.space()),
        count >= stream.space() ==> stream.filled(count).end == stream.bytes.len(),
        count <= stream.space() ==> stream.filled(count) == (HttpView {
            end: stream.end + count,
            ..stream
        }),
{
    assert(stream.bytes =~= stream.bytes.take(stream.start as int) + stream.data()
        + stream.bytes.skip(stream.end as int));
}

} // verus!
