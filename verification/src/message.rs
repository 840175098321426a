//! The record of one lifecycle event.

use vstd::prelude::*;

verus! {

/// One recorded event of a task's life.
#[derive(Debug)]
pub struct Message {
    /// Time at which this event happened, in nanoseconds of a monotonic clock.
    pub timestamp: u64,
    /// Task that performed this event.
    pub task_id: usize,
    /// Worker thread that performed this event (zero if unknown).
    pub thread_id: usize,
    /// Task that created the task of this event (zero if not relevant).
    pub creator: usize,
    /// Short description of the event that happened.
    pub desc: String,
}

/// What a [`Message`] says, with its description as a sequence of characters.
pub ghost struct Event {
    pub timestamp: u64,
    pub task_id: usize,
    pub thread_id: usize,
    pub creator: usize,
    pub desc: Seq<char>,
}

impl View for Message {
    type V = Event;

    open spec fn view(&self) -> Event {
        Event {
            timestamp: self.timestamp,
            task_id: self.task_id,
            thread_id: self.thread_id,
            creator: self.creator,
            desc: self.desc@,
        }
    }
}

impl Clone for Message {
    fn clone(&self) -> (copy: Message)
        ensures
            copy@ == self@,
    {
        Message {
            timestamp: self.timestamp,
            task_id: self.task_id,
            thread_id: self.thread_id,
            creator: self.creator,
            desc: self.desc.clone(),
        }
    }
}

/// Description of the event that opens a task's life.
pub open spec fn spawn_desc() -> Seq<char> {
    "spawn"@
}

/// Description of the event that closes a task's life.
pub open spec fn death_desc() -> Seq<char> {
    "death"@
}

/// The event `e` was recorded by task `task_id` with creator `creator` under
/// the description `desc`. Its timestamp and thread are whatever the clock
/// and the scheduler gave.
pub open spec fn is_record(e: Event, task_id: usize, creator: usize, desc: Seq<char>) -> bool {
    e.task_id == task_id && e.creator == creator && e.desc == desc
}

impl Message {
    /// Builds the record of one event from its parts.
    pub fn new(timestamp: u64, task_id: usize, thread_id: usize, creator: usize, desc: &str) -> (m:
        Message)
        ensures
            m@ == (Event { timestamp, task_id, thread_id, creator, desc: desc@ }),
    {
        Message { timestamp, task_id, thread_id, creator, desc: desc.to_owned() }
    }
}

} // verus!
