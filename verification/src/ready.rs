//! Readiness of a connection: the events its socket reported and the events it waits for.

use vstd::prelude::*;

verus! {

/// A set of socket events, one bit each.
#[derive(Clone, Copy, Debug, PartialEq, Eq, Structural)]
pub struct Ready(pub u16);

impl Ready {
    pub const READABLE: u16 = 0b0001;

    pub const WRITABLE: u16 = 0b0010;

    pub const ERROR: u16 = 0b0100;

    pub const HUP: u16 = 0b1000;

    /// Every one of `events` is in the set.
    pub open spec fn has(self, events: u16) -> bool {
        self.0 & events == events
    }

    /// The set with `events` added.
    pub open spec fn with(self, events: u16) -> Ready {
        Ready(self.0 | events)
    }

    /// The set with `events` taken out.
    pub open spec fn without(self, events: u16) -> Ready {
        Ready(self.0 & !events)
    }

    pub fn contains(&self, events: u16) -> (found: bool)
        ensures
            found == self.has(events),
    {
        self.0 & events == events
    }

    pub fn is_readable(&self) -> (found: bool)
        ensures
            found == self.has(Ready::READABLE),
    {
        self.contains(Ready::READABLE)
    }

    pub fn is_writable(&self) -> (found: bool)
        ensures
            found == self.has(Ready::WRITABLE),
    {
        self.contains(Ready::WRITABLE)
    }

    pub fn is_error(&self) -> (found: bool)
        ensures
            found == self.has(Ready::ERROR),
    {
        self.contains(Ready::ERROR)
    }

    pub fn is_hup(&self) -> (found: bool)
        ensures
            found == self.has(Ready::HUP),
    {
        self.contains(Ready::HUP)
    }

    pub fn insert(&mut self, events: u16)
        ensures
            *final(self) == old(self).with(events),
    {
        self.0 = self.0 | events;
    }

    pub fn remove(&mut self, events: u16)
        ensures
            *final(self) == old(self).without(events),
    {
        self.0 = self.0 & !events;
    }
}

/// What a socket reported (`event`) and what its connection waits for (`interest`).
#[derive(Clone, Copy, Debug, PartialEq, Eq, Structural)]
pub struct Readiness {
    pub event: Ready,
    pub interest: Ready,
}

impl Readiness {
    /// The reported events that the connection waits for.
    pub open spec fn filtered(self) -> Ready {
        Ready(self.event.0 & self.interest.0)
    }

    pub fn filter_interest(&self) -> (events: Ready)
        ensures
            events == self.filtered(),
    {
        Ready(self.event.0 & self.interest.0)
    }
}

/// An event is in a set after an insertion exactly if it was inserted or was there before.
pub proof fn law_insert(ready: Ready, events: u16, event: u16)
    requires
        event == Ready::READABLE || event == Ready::WRITABLE || event == Ready::ERROR || event
            == Ready::HUP,
    ensures
        ready.with(events).has(event) <==> ready.has(event) || Ready(events).has(event),
{
    let bits = ready.0;
    assert((bits | events) & event == event <==> bits & event == event || events & event == event)
        by (bit_vector)
        requires
            event == 1u16 || event == 2u16 || event == 4u16 || event == 8u16,
    ;
}

/// An event is in a set after a removal exactly if it was there before and was not removed.
pub proof fn law_remove(ready: Ready, events: u16, event: u16)
    requires
        event == Ready::READABLE || event == Ready::WRITABLE || event == Ready::ERROR || event
            == Ready::HUP,
    ensures
        ready.without(events).has(event) <==> ready.has(event) && !Ready(events).has(event),
{
    let bits = ready.0;
    assert((bits & !events) & event == event <==> bits & event == event && events & event != event)
        by (bit_vector)
        requires
            event == 1u16 || event == 2u16 || event == 4u16 || event == 8u16,
    ;
}

/// An event passes the filter exactly if it was reported and is waited for.
pub proof fn law_filter(readiness: Readiness, event: u16)
    ensures
        readiness.filtered().has(event) <==> readiness.event.has(event) && readiness.interest.has(
            event,
        ),
{
    let reported = readiness.event.0;
    let waited = readiness.interest.0;
    assert((reported & waited) & event == event <==> reported & event == event && waited & event
        == event) by (bit_vector);
}

/// Taking events out twice takes them out once.
pub proof fn lemma_without_twice(ready: Ready, events: u16)
    ensures
        ready.without(events).without(events) == ready.without(events),
{
    let bits = ready.0;
    assert(bits & !events & !events == bits & !events) by (bit_vector);
}

/// A set has an event exactly if the bit of the event is set: the lowest bit for readable, and then
/// one each for writable, error and hang-up.
pub proof fn law_one_bit_each(ready: Ready, at: u16)
    requires
        at < 16,
    ensures
        ready.has(1u16 << at) <==> (ready.0 >> at) & 1 == 1,
        Ready::READABLE == 1u16 << 0u16,
        Ready::WRITABLE == 1u16 << 1u16,
        Ready::ERROR == 1u16 << 2u16,
        Ready::HUP == 1u16 << 3u16,
{
    let bits = ready.0;
    assert(bits & (1u16 << at) == 1u16 << at <==> (bits >> at) & 1 == 1) by (bit_vector)
        requires
            at < 16,
    ;
    assert(1u16 << 0u16 == 1 && 1u16 << 1u16 == 2 && 1u16 << 2u16 == 4 && 1u16 << 3u16 == 8)
        by (bit_vector);
}

/// A set has several events exactly if it has each of them.
pub proof fn law_has_each(ready: Ready, first: u16, second: u16)
    ensures
        ready.has(first | second) <==> ready.has(first) && ready.has(second),
{
    let bits = ready.0;
    assert(bits & (first | second) == first | second <==> bits & first == first && bits & second
        == second) by (bit_vector);
}

/// Of all sixteen bits, those are set after an insertion that were set before or are inserted, and
/// those after a removal that were set before and are not removed.
pub proof fn law_changes_bit_by_bit(ready: Ready, events: u16, at: u16)
    requires
        at < 16,
    ensures
        (ready.with(events).0 >> at) & 1 == 1 <==> (ready.0 >> at) & 1 == 1 || (events >> at) & 1
            == 1,
        (ready.without(events).0 >> at) & 1 == 1 <==> (ready.0 >> at) & 1 == 1 && (events >> at) & 1
            == 0,
{
    let bits = ready.0;
    assert(((bits | events) >> at) & 1 == 1 <==> (bits >> at) & 1 == 1 || (events >> at) & 1 == 1)
        by (bit_vector);
    assert(((bits & !events) >> at) & 1 == 1 <==> (bits >> at) & 1 == 1 && (events >> at) & 1 == 0)
        by (bit_vector);
}

/// Of all sixteen bits, those pass the filter that are set both in what was reported and in what is
/// waited for.
pub proof fn law_filter_bit_by_bit(readiness: Readiness, at: u16)
    requires
        at < 16,
    ensures
        (readiness.filtered().0 >> at) & 1 == 1 <==> (readiness.event.0 >> at) & 1 == 1 && (
        readiness.interest.0 >> at) & 1 == 1,
{
    let reported = readiness.event.0;
    let waited = readiness.interest.0;
    assert(((reported & waited) >> at) & 1 == 1 <==> (reported >> at) & 1 == 1 && (waited >> at) & 1
        == 1) by (bit_vector);
}

} // verus!
