//! The event log of one instrumentation session.

use crate::message::{Event, Message};
use vstd::prelude::*;

verus! {

/// An append-only sequence of events. Events are never changed or removed
/// once appended; the order of appending is the order of the log.
pub struct EventLog {
    events: Vec<Message>,
}

/// The events that a sequence of messages records.
pub open spec fn events_of(messages: Seq<Message>) -> Seq<Event> {
    messages.map_values(|m: Message| m@)
}

impl View for EventLog {
    type V = Seq<Event>;

    closed spec fn view(&self) -> Seq<Event> {
        events_of(self.events@)
    }
}

impl EventLog {
    /// A log that holds no event.
    pub fn new() -> (log: EventLog)
        ensures
            log@ == Seq::<Event>::empty(),
    {
        EventLog { events: Vec::new() }
    }

    /// Number of events recorded so far.
    pub fn len(&self) -> (n: usize)
        ensures
            n == self@.len(),
    {
        self.events.len()
    }

    /// Adds one event at the end of the log. The log never holds more events
    /// than `usize` can count.
    pub fn append(&mut self, event: Message)
        ensures
            final(self)@ == old(self)@.push(event@),
            final(self)@.len() <= usize::MAX,
    {
        self.events.push(event);
        // the length of a vector is a `usize`
        let recorded = self.events.len();
        proof {
            assert(events_of(self.events@) =~= events_of(old(self).events@).push(event@));
            assert(events_of(self.events@).len() == recorded);
        }
    }

    /// An independent copy of all events recorded so far, in log order.
    pub fn snapshot(&self) -> (copy: Vec<Message>)
        ensures
            events_of(copy@) == self@,
    {
        let mut copy: Vec<Message> = Vec::new();
        let mut i: usize = 0;
        while i < self.events.len()
            invariant
                i <= self.events.len(),
                copy@.len() == i,
                forall|k: int| 0 <= k < i ==> copy@[k]@ == self.events@[k]@,
            decreases self.events.len() - i,
        {
            copy.push(self.events[i].clone());
            i = i + 1;
        }
        proof {
            assert(events_of(copy@) =~= events_of(self.events@));
        }
        copy
    }
}

/// Two snapshots of a log that nothing was appended to in between record the
/// same events in the same order.
pub proof fn lemma_snapshot_idempotent(log: EventLog, first: Vec<Message>, second: Vec<Message>)
    requires
        events_of(first@) == log@,
        events_of(second@) == log@,
    ensures
        events_of(first@) == events_of(second@),
        first@.len() == second@.len(),
        forall|i: int| 0 <= i < first@.len() ==> first@[i]@ == second@[i]@,
{
    assert(events_of(first@).len() == first@.len());
    assert(events_of(second@).len() == second@.len());
    assert forall|i: int| 0 <= i < first@.len() implies first@[i]@ == second@[i]@ by {
        assert(events_of(first@)[i] == first@[i]@);
        assert(events_of(second@)[i] == second@[i]@);
    }
}

} // verus!
