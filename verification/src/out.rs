//! The queue of bytes that a stream has ready for its socket.

use vstd::prelude::*;

verus! {

/// One entry of the output queue.
pub enum OutStore {
    /// The end of what one write may take.
    Delimiter,
    /// A store that holds nothing, not even an empty run of bytes.
    Empty,
    /// `len` bytes of the storage, from `start`.
    Slice { start: nat, len: nat },
    /// `len` bytes of the storage, from `start`, left out when the storage is tidied.
    Detached { start: nat, len: nat },
    /// Bytes that lie outside of the storage.
    Owned(Seq<u8>),
}

impl OutStore {
    /// How many bytes the entry stands for.
    pub open spec fn len(self) -> nat {
        match self {
            OutStore::Slice { len, .. } => len,
            OutStore::Detached { len, .. } => len,
            OutStore::Owned(bytes) => bytes.len(),
            _ => 0,
        }
    }

    /// The bytes the entry stands for, over the bytes of the storage.
    pub open spec fn bytes(self, storage: Seq<u8>) -> Seq<u8> {
        match self {
            OutStore::Slice { start, len } => storage.subrange(start as int, (start + len) as int),
            OutStore::Detached { start, len } => storage.subrange(
                start as int,
                (start + len) as int,
            ),
            OutStore::Owned(bytes) => bytes,
            _ => Seq::empty(),
        }
    }

    /// The entry lies within a storage of `capacity` bytes.
    pub open spec fn within(self, capacity: nat) -> bool {
        match self {
            OutStore::Slice { start, len } => start + len <= capacity,
            OutStore::Detached { start, len } => start + len <= capacity,
            _ => true,
        }
    }

    /// What is left of the entry once its first `amount` bytes are gone.
    pub open spec fn after(self, amount: nat) -> OutStore {
        match self {
            OutStore::Slice { start, len } => OutStore::Slice {
                start: start + amount,
                len: (len - amount) as nat,
            },
            OutStore::Detached { start, len } => OutStore::Slice {
                start: start + amount,
                len: (len - amount) as nat,
            },
            OutStore::Owned(bytes) => OutStore::Owned(bytes.skip(amount as int)),
            _ => self,
        }
    }

    /// The entry refers to no byte of the storage before `start`.
    pub open spec fn at_or_after(self, bound: nat) -> bool {
        match self {
            OutStore::Slice { start, .. } => bound <= start,
            OutStore::Detached { start, .. } => bound <= start,
            _ => true,
        }
    }

    /// The entry once the storage moved `amount` bytes to the left.
    pub open spec fn shifted(self, amount: nat) -> OutStore {
        match self {
            OutStore::Slice { start, len } => OutStore::Slice {
                start: (start - amount) as nat,
                len,
            },
            OutStore::Detached { start, len } => OutStore::Detached {
                start: (start - amount) as nat,
                len,
            },
            _ => self,
        }
    }
}

/// How many bytes a queue stands for.
pub open spec fn total_len(out: Seq<OutStore>) -> nat
    decreases out.len(),
{
    if out.len() == 0 {
        0
    } else {
        out[0].len() + total_len(out.drop_first())
    }
}

/// The bytes a queue stands for, one entry after the other.
pub open spec fn all_bytes(out: Seq<OutStore>, storage: Seq<u8>) -> Seq<u8>
    decreases out.len(),
{
    if out.len() == 0 {
        Seq::empty()
    } else {
        out[0].bytes(storage) + all_bytes(out.drop_first(), storage)
    }
}

/// What one write may take: the bytes of each entry in front of the first delimiter.
pub open spec fn io_slices(out: Seq<OutStore>, storage: Seq<u8>) -> Seq<Seq<u8>>
    decreases out.len(),
{
    if out.len() == 0 || out[0] is Delimiter {
        Seq::empty()
    } else {
        seq![out[0].bytes(storage)] + io_slices(out.drop_first(), storage)
    }
}

/// In front of the first delimiter each entry has bytes, which lie within the storage.
pub open spec fn sendable(out: Seq<OutStore>, capacity: nat) -> bool
    decreases out.len(),
{
    out.len() == 0 || out[0] is Delimiter || {
        &&& !(out[0] is Empty)
        &&& out[0].within(capacity)
        &&& sendable(out.drop_first(), capacity)
    }
}

/// What is left of a queue once its first `amount` bytes are gone. Entries in front of which no
/// byte is left and that have none themselves go too.
pub open spec fn drop_bytes(out: Seq<OutStore>, amount: nat) -> Seq<OutStore>
    decreases out.len(),
{
    if out.len() == 0 {
        out
    } else if out[0].len() <= amount {
        drop_bytes(out.drop_first(), (amount - out[0].len()) as nat)
    } else {
        seq![out[0].after(amount)] + out.drop_first()
    }
}

/// Where the first entry that is a slice of the storage starts.
pub open spec fn first_slice(out: Seq<OutStore>) -> Option<nat>
    decreases out.len(),
{
    if out.len() == 0 {
        None
    } else {
        match out[0] {
            OutStore::Slice { start, .. } => Some(start),
            _ => first_slice(out.drop_first()),
        }
    }
}

/// Every entry of a queue lies within a storage of `capacity` bytes.
pub open spec fn all_within(out: Seq<OutStore>, capacity: nat) -> bool {
    forall|i: int| 0 <= i < out.len() ==> (#[trigger] out[i]).within(capacity)
}

/// A queue within its storage has as many bytes as its entries stand for.
pub proof fn lemma_all_bytes_len(out: Seq<OutStore>, storage: Seq<u8>)
    requires
        all_within(out, storage.len()),
    ensures
        all_bytes(out, storage).len() == total_len(out),
    decreases out.len(),
{
    if out.len() > 0 {
        assert(out[0].within(storage.len()));
        assert forall|i: int| 0 <= i < out.drop_first().len() implies (
        #[trigger] out.drop_first()[i]).within(storage.len()) by {
            assert(out.drop_first()[i] == out[i + 1]);
        }
        lemma_all_bytes_len(out.drop_first(), storage);
    }
}

/// Dropping bytes from a queue drops them from what the queue stands for, and leaves the rest of
/// the queue within the storage.
pub proof fn lemma_drop_bytes(out: Seq<OutStore>, amount: nat, storage: Seq<u8>)
    requires
        all_within(out, storage.len()),
        amount <= total_len(out),
    ensures
        all_bytes(drop_bytes(out, amount), storage) == all_bytes(out, storage).skip(amount as int),
        all_within(drop_bytes(out, amount), storage.len()),
    decreases out.len(),
{
    if out.len() > 0 {
        let rest = out.drop_first();
        assert(out[0].within(storage.len()));
        assert forall|i: int| 0 <= i < rest.len() implies (#[trigger] rest[i]).within(
            storage.len(),
        ) by {
            assert(rest[i] == out[i + 1]);
        }
        lemma_all_bytes_len(rest, storage);
        let first = out[0].bytes(storage);
        if out[0].len() <= amount {
            lemma_drop_bytes(rest, (amount - out[0].len()) as nat, storage);
            assert((first + all_bytes(rest, storage)).skip(amount as int) =~= all_bytes(
                rest,
                storage,
            ).skip(amount - out[0].len()));
        } else {
            let kept = out[0].after(amount);
            let left = seq![kept] + rest;
            assert(left.drop_first() =~= rest);
            assert(kept.bytes(storage) =~= first.skip(amount as int));
            assert((first + all_bytes(rest, storage)).skip(amount as int) =~= first.skip(
                amount as int,
            ) + all_bytes(rest, storage));
            assert forall|i: int| 0 <= i < left.len() implies (#[trigger] left[i]).within(
                storage.len(),
            ) by {
                if i > 0 {
                    assert(left[i] == rest[i - 1]);
                }
            }
        }
    } else {
        assert(all_bytes(out, storage).skip(0) =~= all_bytes(out, storage));
    }
}

/// A queue stands for the same bytes in two storages, if each of its entries does.
pub proof fn lemma_same_bytes(
    out: Seq<OutStore>,
    storage: Seq<u8>,
    moved: Seq<OutStore>,
    other: Seq<u8>,
)
    requires
        out.len() == moved.len(),
        forall|i: int|
            0 <= i < out.len() ==> (#[trigger] out[i]).bytes(storage) == moved[i].bytes(other),
    ensures
        all_bytes(out, storage) == all_bytes(moved, other),
    decreases out.len(),
{
    if out.len() > 0 {
        assert forall|i: int| 0 <= i < out.drop_first().len() implies (
        #[trigger] out.drop_first()[i]).bytes(storage) == moved.drop_first()[i].bytes(other) by {
            assert(out.drop_first()[i] == out[i + 1]);
        }
        lemma_same_bytes(out.drop_first(), storage, moved.drop_first(), other);
    }
}

/// The first `count` entries of a queue are those in front of its first delimiter.
pub open spec fn before_delimiter(out: Seq<OutStore>, count: nat) -> bool {
    &&& count <= out.len()
    &&& forall|i: int| 0 <= i < count ==> !((#[trigger] out[i]) is Delimiter)
    &&& count < out.len() ==> out[count as int] is Delimiter
}

/// One write may take the bytes of each entry in front of the first delimiter, in order, and of no
/// other. They can be sent exactly if each of those entries holds something and lies within the
/// storage.
pub proof fn law_one_write(out: Seq<OutStore>, storage: Seq<u8>, count: nat)
    requires
        before_delimiter(out, count),
    ensures
        io_slices(out, storage).len() == count,
        forall|i: int|
            0 <= i < count ==> #[trigger] io_slices(out, storage)[i] == out[i].bytes(storage),
        sendable(out, storage.len()) <==> forall|i: int|
            0 <= i < count ==> !((#[trigger] out[i]) is Empty) && out[i].within(storage.len()),
    decreases out.len(),
{
    if count > 0 {
        let rest = out.drop_first();
        let fewer = (count - 1) as nat;
        assert(!(out[0] is Delimiter));
        assert(forall|i: int| 0 <= i < rest.len() ==> rest[i] == out[i + 1]);
        law_one_write(rest, storage, fewer);
        assert forall|i: int| 0 <= i < count implies #[trigger] io_slices(out, storage)[i]
            == out[i].bytes(storage) by {
            if i > 0 {
                assert(io_slices(out, storage)[i] == io_slices(rest, storage)[i - 1]);
            }
        }
        if forall|i: int|
            0 <= i < count ==> !((#[trigger] out[i]) is Empty) && out[i].within(storage.len()) {
            assert forall|i: int| 0 <= i < fewer implies !((#[trigger] rest[i]) is Empty)
                && rest[i].within(storage.len()) by {
                assert(rest[i] == out[i + 1]);
            }
        }
        if sendable(out, storage.len()) {
            assert forall|i: int| 0 <= i < count implies !((#[trigger] out[i]) is Empty)
                && out[i].within(storage.len()) by {
                if i > 0 {
                    assert(out[i] == rest[i - 1]);
                }
            }
        }
    }
}

/// What is left of a queue is its tail from some entry on, that one without the bytes in front that
/// are gone.
pub proof fn lemma_drop_keeps_tail(out: Seq<OutStore>, amount: nat) -> (gone: (nat, nat))
    requires
        amount <= total_len(out),
    ensures
        gone.0 <= out.len(),
        gone.0 == out.len() ==> drop_bytes(out, amount).len() == 0,
        gone.0 < out.len() ==> {
            &&& gone.1 < out[gone.0 as int].len()
            &&& drop_bytes(out, amount).len() == out.len() - gone.0
            &&& drop_bytes(out, amount)[0] == out[gone.0 as int].after(gone.1)
            &&& forall|i: int|
                0 < i < out.len() - gone.0 ==> #[trigger] drop_bytes(out, amount)[i] == out[gone.0
                    + i]
        },
        total_len(drop_bytes(out, amount)) == total_len(out) - amount,
    decreases out.len(),
{
    if out.len() == 0 {
        (0, 0)
    } else if out[0].len() <= amount {
        let gone = lemma_drop_keeps_tail(out.drop_first(), (amount - out[0].len()) as nat);
        (gone.0 + 1, gone.1)
    } else {
        let left = drop_bytes(out, amount);
        assert(left.drop_first() =~= out.drop_first());
        (0, amount)
    }
}

} // verus!
