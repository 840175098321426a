//! What a scheduler must offer to the tasks it runs.

use crate::log::EventLog;
use crate::message::Event;
use crate::trace::{confined, hosts};
use vstd::prelude::*;

verus! {

/// Handle on the I/O driver of the worker thread that runs a task.
pub struct LocalIo {
    /// Identifier of the worker thread. Zero is best left unused: a log
    /// shows it where the thread is unknown.
    pub worker: usize,
}

/// Handle on a task that has stopped running and waits to be woken.
pub struct BlockedTask {
    /// The scheduler's own name for the task.
    pub token: usize,
}

/// Options for a task about to be spawned.
pub struct TaskOpts {
    /// Name of the task, if it has one.
    pub name: Option<String>,
    /// Stack size wanted for the task, if any.
    pub stack_size: Option<usize>,
}

/// Why a scheduler did not create a task.
#[derive(Clone, Copy, Debug, PartialEq, Eq, Structural)]
pub enum SpawnError {
    /// The scheduler has no room for another task.
    Exhausted,
    /// The scheduler no longer takes tasks.
    ShutDown,
}

/// The operations of a cooperative scheduler, as one task sees them.
///
/// A task holds the handle of its scheduler by value. An operation that may
/// let other tasks run takes the handle and gives it back when the task runs
/// again. The session's log goes along, so that the tasks that run in between
/// can record their events; whoever holds the log only adds to it and keeps
/// it well formed. The tasks that run in between are tasks that start in
/// between: the caller waits on the stack, and nothing is recorded under its
/// name, or under the name of any task that waits as it does.
pub trait Runtime: Sized {
    /// The handle can be used: it holds what it needs to schedule.
    open spec fn ready(&self) -> bool {
        true
    }

    /// The task under whose name this handle records events; zero for a
    /// scheduler that records nothing.
    open spec fn task(&self) -> usize {
        0
    }

    /// The scheduler can resume a blocked task through `reawaken`.
    open spec fn can_reawaken(&self) -> bool {
        true
    }

    /// What the scheduler itself says of one `deschedule`: it was asked to
    /// try `times` times while the log held `before`, and gave `back` when
    /// the log held `after`. A scheduler that says nothing of it leaves this
    /// at `true`.
    open spec fn descheduled(
        self,
        times: usize,
        before: Seq<Event>,
        after: Seq<Event>,
        back: Self,
    ) -> bool {
        true
    }

    /// What the scheduler itself says of one `spawn_sibling`: it was asked
    /// for a task with the options `opts` while the log held `before`, and
    /// gave `back` when the log held `after`. A scheduler that says nothing
    /// of it leaves this at `true`.
    open spec fn spawned(
        self,
        opts: TaskOpts,
        before: Seq<Event>,
        after: Seq<Event>,
        back: (Self, Result<(), SpawnError>),
    ) -> bool {
        true
    }

    /// Gives up the worker so that other tasks can run; does not block.
    fn yield_now(self, log: &mut EventLog) -> (back: Self)
        requires
            self.ready(),
            hosts(old(log)@, self.task()),
        ensures
            back.ready(),
            back.task() == self.task(),
            hosts(final(log)@, back.task()),
            old(log)@.is_prefix_of(final(log)@),
            confined(old(log)@, final(log)@, self.task()),
    ;

    /// Hints that other tasks may run; whether they do is the scheduler's
    /// choice.
    fn maybe_yield(self, log: &mut EventLog) -> (back: Self)
        requires
            self.ready(),
            hosts(old(log)@, self.task()),
        ensures
            back.ready(),
            back.task() == self.task(),
            hosts(final(log)@, back.task()),
            old(log)@.is_prefix_of(final(log)@),
            confined(old(log)@, final(log)@, self.task()),
    ;

    /// Suspends the task. `block` gets the handle of the blocked task and
    /// answers `Ok` if the task stays blocked until something wakes it, or
    /// gives the handle back if the task is to go on at once. The scheduler
    /// may try to block up to `times` times.
    fn deschedule<F: FnOnce(BlockedTask) -> Result<(), BlockedTask>>(
        self,
        times: usize,
        log: &mut EventLog,
        block: F,
    ) -> (back: Self)
        requires
            self.ready(),
            hosts(old(log)@, self.task()),
            forall|task: BlockedTask| call_requires(block, (task,)),
        ensures
            back.ready(),
            back.task() == self.task(),
            hosts(final(log)@, back.task()),
            old(log)@.is_prefix_of(final(log)@),
            confined(old(log)@, final(log)@, self.task()),
            self.descheduled(times, old(log)@, final(log)@, back),
    ;

    /// Resumes a blocked task.
    fn reawaken(self, to_wake: BlockedTask, log: &mut EventLog) -> (back: Self)
        requires
            self.ready(),
            self.can_reawaken(),
            hosts(old(log)@, self.task()),
        ensures
            back.ready(),
            back.task() == self.task(),
            hosts(final(log)@, back.task()),
            old(log)@.is_prefix_of(final(log)@),
            confined(old(log)@, final(log)@, self.task()),
    ;

    /// Creates a task that runs `body` beside the caller, on the same pool of
    /// workers, and does not wait for it. `body` gets the new task's own
    /// scheduler handle and the log, and gives the handle back when it is
    /// done. The outcome says whether the task was created.
    fn spawn_sibling<F: FnOnce(Self, &mut EventLog) -> Self + Send + 'static>(
        self,
        opts: TaskOpts,
        log: &mut EventLog,
        body: F,
    ) -> (back: (Self, Result<(), SpawnError>))
        requires
            self.ready(),
            hosts(old(log)@, self.task()),
            forall|child: Self, l: &mut EventLog|
                child.ready() && hosts((*l)@, child.task()) && (self.task() == 0 ==> child.task()
                    == 0) && old(log)@.is_prefix_of((*l)@) ==> #[trigger] call_requires(
                    body,
                    (child, l),
                ),
            forall|child: Self, l: &mut EventLog, done: Self| #[trigger]
                call_ensures(body, (child, l), done) ==> done.ready() && done.task() == child.task()
                    && hosts((*final(l))@, done.task()) && (*l)@.is_prefix_of((*final(l))@)
                    && confined((*l)@, (*final(l))@, child.task()),
        ensures
            back.0.ready(),
            back.0.task() == self.task(),
            hosts(final(log)@, back.0.task()),
            old(log)@.is_prefix_of(final(log)@),
            confined(old(log)@, final(log)@, self.task()),
            self.spawned(opts, old(log)@, final(log)@, back),
    ;

    /// The I/O driver of the worker that runs the task, if there is one.
    fn local_io(&self) -> (io: Option<LocalIo>)
        requires
            self.ready(),
    ;

    /// Lowest and highest address of the task's stack.
    fn stack_bounds(&self) -> (bounds: (usize, usize))
        requires
            self.ready(),
    ;

    /// Whether the task may block.
    fn can_block(&self) -> (yes: bool)
        requires
            self.ready(),
    ;
}

/// The thread identifier that an I/O driver handle stands for: its worker, or
/// zero where there is no driver.
pub open spec fn thread_of(io: Option<LocalIo>) -> usize {
    match io {
        Some(io) => io.worker,
        None => 0,
    }
}

/// Computes [`thread_of`].
pub fn thread_of_io(io: Option<LocalIo>) -> (thread: usize)
    ensures
        thread == thread_of(io),
{
    match io {
        Some(io) => io.worker,
        None => 0,
    }
}

} // verus!
