//! The proxy that records what a task asks of its scheduler.

use crate::clock::precise_time_ns;
use crate::log::EventLog;
use crate::message::{death_desc, spawn_desc, Event, Message};
use crate::runtime::{thread_of, thread_of_io, BlockedTask, LocalIo, Runtime, SpawnError, TaskOpts};
use crate::trace::{
    admits, appended, between, bracketed, confined, follows, hosts, keeps, last_of,
    lemma_alive_extends, lemma_birth_keeps_well_formed, lemma_born_extends, lemma_bracket,
    lemma_last_of_step, lemma_lifetime, lemma_record_keeps_well_formed, lifetime,
};
use vstd::prelude::*;

verus! {

/// A scheduler handle that records every operation before and after handing
/// it to the scheduler it wraps.
///
/// A proxy is *active* while it holds its scheduler, *delegating* while the
/// scheduler is out on an operation, and *detached* once it was uninstalled.
pub struct InstrumentedRuntime<R> {
    inner: Option<R>,
    id: usize,
    alive: bool,
}

/// The descriptions that a proxy records between the birth and the death of
/// its task are neither "spawn" nor "death", and these two differ.
pub proof fn lemma_descriptions_differ()
    ensures
        "yield"@ != spawn_desc() && "yield"@ != death_desc(),
        "maybe-yield"@ != spawn_desc() && "maybe-yield"@ != death_desc(),
        "done-yield"@ != spawn_desc() && "done-yield"@ != death_desc(),
        "deschedule"@ != spawn_desc() && "deschedule"@ != death_desc(),
        "wakeup"@ != spawn_desc() && "wakeup"@ != death_desc(),
        "before-spawn"@ != spawn_desc() && "before-spawn"@ != death_desc(),
        "after-spawn"@ != spawn_desc() && "after-spawn"@ != death_desc(),
        death_desc() != spawn_desc(),
{
    reveal_strlit("spawn");
    reveal_strlit("death");
    reveal_strlit("yield");
    reveal_strlit("maybe-yield");
    reveal_strlit("done-yield");
    reveal_strlit("deschedule");
    reveal_strlit("wakeup");
    reveal_strlit("before-spawn");
    reveal_strlit("after-spawn");
    assert("yield"@[0] != "spawn"@[0]);
    assert("yield"@[0] != "death"@[0]);
    assert("done-yield"@.len() != "death"@.len());
    assert("deschedule"@.len() != "death"@.len());
    assert("death"@[0] != "spawn"@[0]);
}

impl<R: Runtime> InstrumentedRuntime<R> {
    /// The wrapped scheduler, while the proxy holds it.
    pub closed spec fn inner(&self) -> Option<R> {
        self.inner
    }

    /// The task that this proxy stands for.
    pub closed spec fn id(&self) -> usize {
        self.id
    }

    /// The proxy has not been uninstalled.
    pub closed spec fn alive(&self) -> bool {
        self.alive
    }

    /// The proxy holds its scheduler, which is ready and records nothing itself.
    pub open spec fn active(&self) -> bool {
        &&& self.alive()
        &&& self.id() != 0
        &&& self.inner() matches Some(rt)
        &&& rt.ready()
        &&& rt.task() == 0
    }

    /// The proxy's scheduler is out on an operation.
    pub open spec fn delegating(&self) -> bool {
        self.alive() && self.id() != 0 && self.inner() is None
    }

    /// The proxy was uninstalled and holds nothing.
    pub open spec fn detached(&self) -> bool {
        !self.alive() && self.inner() is None
    }

    /// `thread` is what the wrapped scheduler's I/O driver may give as the
    /// thread that runs the task: the worker of a driver that `local_io` can
    /// return, or zero if it can return none.
    pub open spec fn may_run_on(&self, thread: usize) -> bool {
        exists|io: Option<LocalIo>|
            #[trigger] call_ensures(R::local_io, (&self.inner()->0,), io) && thread == thread_of(io)
    }

    /// The identifier of the task that this proxy stands for.
    pub fn task_id(&self) -> (id: usize)
        ensures
            id == self.id(),
    {
        self.id
    }

    /// The identifier of the worker thread that runs the task, as the wrapped
    /// scheduler's I/O driver gives it; zero if there is no driver.
    pub fn thread_id(&self) -> (thread: usize)
        requires
            self.active(),
        ensures
            self.may_run_on(thread),
    {
        match &self.inner {
            Some(rt) => thread_of_io(rt.local_io()),
            None => 0,
        }
    }

    /// Records an event of the proxy's task with no creator.
    pub fn log(&self, msg: &str, log: &mut EventLog)
        requires
            self.active(),
        ensures
            appended(old(log)@, final(log)@, self.id(), 0, msg@),
            self.may_run_on(final(log)@.last().thread_id),
            last_of(final(log)@, self.id()) == Some(final(log)@.last()),
            msg@ != spawn_desc() && keeps(old(log)@, self.id()) && follows(
                last_of(old(log)@, self.id()),
                msg@,
            ) ==> admits(final(log)@, self.id()) && (msg@ != death_desc() ==> keeps(
                final(log)@,
                self.id(),
            )),
    {
        self.log2(msg, 0, log)
    }

    /// Records an event of the proxy's task, stamped with the time and the
    /// thread of the moment.
    pub fn log2(&self, msg: &str, creator: usize, log: &mut EventLog)
        requires
            self.active(),
        ensures
            appended(old(log)@, final(log)@, self.id(), creator, msg@),
            self.may_run_on(final(log)@.last().thread_id),
            last_of(final(log)@, self.id()) == Some(final(log)@.last()),
            msg@ != spawn_desc() && keeps(old(log)@, self.id()) && follows(
                last_of(old(log)@, self.id()),
                msg@,
            ) ==> admits(final(log)@, self.id()) && (msg@ != death_desc() ==> keeps(
                final(log)@,
                self.id(),
            )),
            final(log)@.len() <= usize::MAX,
    {
        let thread = self.thread_id();
        let event = Message::new(precise_time_ns(), self.id, thread, creator, msg);
        log.append(event);
        proof {
            assert(log@.drop_last() =~= old(log)@);
            lemma_last_of_step(log@, self.id());
            if msg@ != spawn_desc() && keeps(old(log)@, self.id()) && follows(
                last_of(old(log)@, self.id()),
                msg@,
            ) {
                lemma_record_keeps_well_formed(old(log)@, log@, event@);
                lemma_born_extends(old(log)@, log@, self.id());
                if msg@ != death_desc() {
                    assert forall|i: int| 0 <= i < log@.len() && crate::trace::is_death(
                        #[trigger] log@[i],
                    ) implies log@[i].task_id != self.id() by {
                        if i < old(log)@.len() {
                            assert(log@[i] == old(log)@[i]);
                        }
                    }
                }
            }
        }
    }

    /// Takes the wrapped scheduler out for an operation.
    pub fn take(&mut self) -> (rt: R)
        requires
            old(self).active(),
        ensures
            final(self).delegating(),
            final(self).id() == old(self).id(),
            old(self).inner() == Some(rt),
    {
        self.inner.take().unwrap()
    }

    /// Puts the scheduler back after an operation and records `msg`.
    pub fn put(self, inner: R, msg: &str, log: &mut EventLog) -> (back: Self)
        requires
            self.delegating(),
            inner.ready(),
            inner.task() == 0,
        ensures
            back.active(),
            back.id() == self.id(),
            back.inner() == Some(inner),
            appended(old(log)@, final(log)@, self.id(), 0, msg@),
            back.may_run_on(final(log)@.last().thread_id),
            last_of(final(log)@, self.id()) == Some(final(log)@.last()),
            msg@ != spawn_desc() && keeps(old(log)@, self.id()) && follows(
                last_of(old(log)@, self.id()),
                msg@,
            ) ==> admits(final(log)@, self.id()) && (msg@ != death_desc() ==> keeps(
                final(log)@,
                self.id(),
            )),
    {
        let mut back = self;
        back.inner = Some(inner);
        back.log(msg, log);
        back
    }
}

impl<R: Runtime> Runtime for InstrumentedRuntime<R> {
    /// A proxy is ready while it is active.
    open spec fn ready(&self) -> bool {
        self.active()
    }

    /// A proxy records under the name of its own task.
    open spec fn task(&self) -> usize {
        self.id()
    }

    /// No proxy takes part in waking a task: the wrapped scheduler does that
    /// without asking the proxy.
    open spec fn can_reawaken(&self) -> bool {
        false
    }

    /// A proxy's `deschedule` is that of the wrapped scheduler, asked to try
    /// the same number of times, between the proxy's two records: the
    /// scheduler saw the log up to the entry record and gave it back as it
    /// stands before the exit record.
    open spec fn descheduled(
        self,
        times: usize,
        before: Seq<Event>,
        after: Seq<Event>,
        back: Self,
    ) -> bool {
        &&& after.len() >= before.len() + 2
        &&& exists|rt: R|
            {
                &&& #[trigger] (self.inner()->0).descheduled(
                    times,
                    after.take(before.len() as int + 1),
                    after.drop_last(),
                    rt,
                )
                &&& back.inner() == Some(rt)
            }
    }

    /// A proxy's `spawn_sibling` is that of the wrapped scheduler, asked with
    /// the same options, between the proxy's two records; the outcome is the
    /// wrapped scheduler's.
    open spec fn spawned(
        self,
        opts: TaskOpts,
        before: Seq<Event>,
        after: Seq<Event>,
        back: (Self, Result<(), SpawnError>),
    ) -> bool {
        &&& after.len() >= before.len() + 2
        &&& exists|rt: R|
            {
                &&& #[trigger] (self.inner()->0).spawned(
                    opts,
                    after.take(before.len() as int + 1),
                    after.drop_last(),
                    (rt, back.1),
                )
                &&& back.0.inner() == Some(rt)
            }
    }

    /// Records "yield", lets the wrapped scheduler yield, and records
    /// "done-yield" when the task runs again.
    fn yield_now(self, log: &mut EventLog) -> (back: Self)
        ensures
            back.id() == self.id(),
            bracketed(old(log)@, final(log)@, self.id(), "yield"@, "done-yield"@),
            exists|l: &mut EventLog, rt: R|
                {
                    &&& #[trigger] call_ensures(R::yield_now, (self.inner()->0, l), rt)
                    &&& between(old(log)@, final(log)@, (*l)@, (*final(l))@)
                    &&& back.inner() == Some(rt)
                },
            self.may_run_on(final(log)@[old(log)@.len() as int].thread_id),
            back.may_run_on(final(log)@.last().thread_id),
    {
        proof {
            lemma_descriptions_differ();
        }
        let mut this = self;
        this.log("yield", log);
        let ghost entered = log@;
        let inner = this.take();
        let inner = inner.yield_now(log);
        let ghost returned = log@;
        proof {
            lemma_born_extends(entered, log@, this.id());
            lemma_alive_extends(entered, log@, this.id(), 0);
        }
        let back = this.put(inner, "done-yield", log);
        proof {
            lemma_bracket(old(log)@, entered, returned, log@, back.id(), "yield"@, "done-yield"@);
        }
        back
    }

    /// Records "maybe-yield", hands the hint to the wrapped scheduler, and
    /// records "done-yield" when the task runs again.
    fn maybe_yield(self, log: &mut EventLog) -> (back: Self)
        ensures
            back.id() == self.id(),
            bracketed(old(log)@, final(log)@, self.id(), "maybe-yield"@, "done-yield"@),
            exists|l: &mut EventLog, rt: R|
                {
                    &&& #[trigger] call_ensures(R::maybe_yield, (self.inner()->0, l), rt)
                    &&& between(old(log)@, final(log)@, (*l)@, (*final(l))@)
                    &&& back.inner() == Some(rt)
                },
            self.may_run_on(final(log)@[old(log)@.len() as int].thread_id),
            back.may_run_on(final(log)@.last().thread_id),
    {
        proof {
            lemma_descriptions_differ();
        }
        let mut this = self;
        this.log("maybe-yield", log);
        let ghost entered = log@;
        let inner = this.take();
        let inner = inner.maybe_yield(log);
        let ghost returned = log@;
        proof {
            lemma_born_extends(entered, log@, this.id());
            lemma_alive_extends(entered, log@, this.id(), 0);
        }
        let back = this.put(inner, "done-yield", log);
        proof {
            lemma_bracket(old(log)@, entered, returned, log@, back.id(), "maybe-yield"@, "done-yield"@);
        }
        back
    }

    /// Records "deschedule", lets the wrapped scheduler suspend the task with
    /// `block` as it is, and records "wakeup" when the task runs again,
    /// whether `block` left it blocked or not.
    fn deschedule<F: FnOnce(BlockedTask) -> Result<(), BlockedTask>>(
        self,
        times: usize,
        log: &mut EventLog,
        block: F,
    ) -> (back: Self)
        ensures
            back.id() == self.id(),
            bracketed(old(log)@, final(log)@, self.id(), "deschedule"@, "wakeup"@),
            self.may_run_on(final(log)@[old(log)@.len() as int].thread_id),
            back.may_run_on(final(log)@.last().thread_id),
    {
        proof {
            lemma_descriptions_differ();
        }
        let mut this = self;
        this.log("deschedule", log);
        let ghost entered = log@;
        let inner = this.take();
        let ghost wrapped = inner;
        let inner = inner.deschedule(times, log, block);
        let ghost woken = log@;
        proof {
            lemma_born_extends(entered, log@, this.id());
            lemma_alive_extends(entered, log@, this.id(), 0);
        }
        let back = this.put(inner, "wakeup", log);
        proof {
            lemma_bracket(old(log)@, entered, woken, log@, back.id(), "deschedule"@, "wakeup"@);
            assert(log@.take(old(log)@.len() as int + 1) =~= entered);
            assert(log@.drop_last() =~= woken);
            assert(wrapped.descheduled(times, entered, woken, inner));
        }
        back
    }

    /// Not offered: no caller can meet what this asks, since no proxy
    /// `can_reawaken`. A call that arrives all the same, from code that was
    /// not verified, ends in a panic.
    fn reawaken(self, to_wake: BlockedTask, log: &mut EventLog) -> (back: Self) {
        vstd::pervasive::unreached()
    }

    /// Records "before-spawn", asks the wrapped scheduler for a sibling that
    /// runs `body` under a proxy of its own, and records "after-spawn". The
    /// sibling's proxy shares the log and names the spawning task as its
    /// creator; it is installed before `body` runs and uninstalled when
    /// `body` is done.
    /// The wrapped scheduler's outcome is handed on as it is.
    fn spawn_sibling<F: FnOnce(Self, &mut EventLog) -> Self + Send + 'static>(
        self,
        opts: TaskOpts,
        log: &mut EventLog,
        body: F,
    ) -> (back: (Self, Result<(), SpawnError>))
        ensures
            back.0.id() == self.id(),
            bracketed(old(log)@, final(log)@, self.id(), "before-spawn"@, "after-spawn"@),
            self.may_run_on(final(log)@[old(log)@.len() as int].thread_id),
            back.0.may_run_on(final(log)@.last().thread_id),
    {
        proof {
            lemma_descriptions_differ();
        }
        let mut this = self;
        let me = this.task_id();
        this.log("before-spawn", log);
        let ghost entered = log@;
        let inner = this.take();
        let sibling = move |rt: R, l: &mut EventLog| -> (done: R)
            requires
                rt.ready(),
                rt.task() == 0,
                hosts((*old(l))@, 0),
                entered.is_prefix_of((*old(l))@),
            ensures
                done.ready(),
                done.task() == rt.task(),
                hosts((*final(l))@, done.task()),
                (*old(l))@.is_prefix_of((*final(l))@),
                confined((*old(l))@, (*final(l))@, rt.task()),
                lifetime((*old(l))@, (*final(l))@, ((*old(l))@.len() + 1) as usize, me),
            {
                proof {
                    lemma_born_extends(entered, l@, me);
                }
                run_sibling(rt, l, me, body)
            };
        let ghost wrapped = inner;
        let (inner, outcome) = inner.spawn_sibling(opts, log, sibling);
        let ghost spawned = log@;
        proof {
            lemma_born_extends(entered, log@, this.id());
            lemma_alive_extends(entered, log@, this.id(), 0);
        }
        let back = after_spawn(this, inner, outcome, log);
        proof {
            lemma_bracket(
                old(log)@,
                entered,
                spawned,
                log@,
                back.0.id(),
                "before-spawn"@,
                "after-spawn"@,
            );
            assert(log@.take(old(log)@.len() as int + 1) =~= entered);
            assert(log@.drop_last() =~= spawned);
            assert(wrapped.spawned(opts, entered, spawned, (inner, outcome)));
        }
        back
    }

    /// The I/O driver of the worker that runs the task, as the wrapped
    /// scheduler gives it.
    fn local_io(&self) -> (io: Option<LocalIo>)
        ensures
            self.inner() matches Some(rt) && call_ensures(R::local_io, (&rt,), io),
    {
        match &self.inner {
            Some(rt) => rt.local_io(),
            None => None,
        }
    }

    /// The stack bounds that the wrapped scheduler gives.
    fn stack_bounds(&self) -> (bounds: (usize, usize))
        ensures
            self.inner() matches Some(rt) && call_ensures(R::stack_bounds, (&rt,), bounds),
    {
        match &self.inner {
            Some(rt) => rt.stack_bounds(),
            None => (0, 0),
        }
    }

    /// Whether the task may block, as the wrapped scheduler says.
    fn can_block(&self) -> (yes: bool)
        ensures
            self.inner() matches Some(rt) && call_ensures(R::can_block, (&rt,), yes),
    {
        match &self.inner {
            Some(rt) => rt.can_block(),
            None => false,
        }
    }
}

/// No proxy can be asked to reawaken a task: what `reawaken` requires never
/// holds of a proxy, whatever state it is in.
pub proof fn lemma_reawaken_is_never_offered<R: Runtime>(proxy: InstrumentedRuntime<R>)
    ensures
        !proxy.can_reawaken(),
{
}

/// The whole life of a spawned sibling: installs a proxy on the scheduler
/// `rt` that the sibling was given, with `creator` as the task that spawned
/// it, runs `body` once under that proxy on the same log, uninstalls the
/// proxy and gives the plain scheduler back.
pub fn run_sibling<
    R: Runtime,
    F: FnOnce(InstrumentedRuntime<R>, &mut EventLog) -> InstrumentedRuntime<R>,
>(rt: R, log: &mut EventLog, creator: usize, body: F) -> (done: R)
    requires
        rt.ready(),
        rt.task() == 0,
        creator != 0,
        admits(old(log)@, creator),
        forall|child: InstrumentedRuntime<R>, l: &mut EventLog|
            child.active() && child.id() == old(log)@.len() + 1 && child.inner() == Some(rt)
                && hosts((*l)@, child.id()) && (*l)@.len() == old(log)@.len() + 1 && old(
                log,
            )@.is_prefix_of((*l)@) ==> #[trigger] call_requires(body, (child, l)),
        forall|child: InstrumentedRuntime<R>, l: &mut EventLog, back: InstrumentedRuntime<R>| #[trigger]
            call_ensures(body, (child, l), back) ==> back.ready() && back.task() == child.task()
                && hosts((*final(l))@, back.task()) && (*l)@.is_prefix_of((*final(l))@)
                && confined((*l)@, (*final(l))@, child.task()),
    ensures
        done.ready(),
        done.task() == 0,
        hosts(final(log)@, 0),
        old(log)@.is_prefix_of(final(log)@),
        confined(old(log)@, final(log)@, 0),
        lifetime(old(log)@, final(log)@, (old(log)@.len() + 1) as usize, creator),
        exists|child: InstrumentedRuntime<R>, l: &mut EventLog, back: InstrumentedRuntime<R>|
            {
                &&& #[trigger] call_ensures(body, (child, l), back)
                &&& child.id() == old(log)@.len() + 1
                &&& child.inner() == Some(rt)
                &&& child.may_run_on(final(log)@[old(log)@.len() as int].thread_id)
                &&& (*l)@ =~= final(log)@.take(old(log)@.len() as int + 1)
                &&& (*final(l))@ =~= final(log)@.drop_last()
                &&& back.inner() == Some(done)
                &&& back.may_run_on(final(log)@.last().thread_id)
            },
{
    let child = install(rt, log, creator);
    let ghost born_at = log@;
    let child = body(child, log);
    let ghost ended = log@;
    let (rt, _detached) = uninstall(child, log);
    proof {
        lemma_lifetime(old(log)@, born_at, ended, log@, child.id(), creator);
    }
    rt
}

/// Closes a spawn: puts the scheduler back, records "after-spawn" whether the
/// sibling was created or not, and hands on the scheduler's outcome.
pub fn after_spawn<R: Runtime>(
    proxy: InstrumentedRuntime<R>,
    inner: R,
    outcome: Result<(), SpawnError>,
    log: &mut EventLog,
) -> (back: (InstrumentedRuntime<R>, Result<(), SpawnError>))
    requires
        proxy.delegating(),
        inner.ready(),
        inner.task() == 0,
    ensures
        back.0.active(),
        back.0.id() == proxy.id(),
        back.0.inner() == Some(inner),
        back.1 == outcome,
        appended(old(log)@, final(log)@, proxy.id(), 0, "after-spawn"@),
        back.0.may_run_on(final(log)@.last().thread_id),
        keeps(old(log)@, proxy.id()) && (last_of(old(log)@, proxy.id()) matches Some(e) && e.desc
            == "before-spawn"@) ==> hosts(final(log)@, proxy.id()),
{
    proof {
        lemma_descriptions_differ();
    }
    (proxy.put(inner, "after-spawn", log), outcome)
}

/// Wraps the scheduler `rt` in a new proxy and records the birth of its task,
/// created by `creator` (zero for the root of a session). The task gets the
/// next identifier of the log.
pub fn install<R: Runtime>(rt: R, log: &mut EventLog, creator: usize) -> (proxy:
    InstrumentedRuntime<R>)
    requires
        rt.ready(),
        rt.task() == 0,
        admits(old(log)@, creator),
    ensures
        proxy.active(),
        proxy.inner() == Some(rt),
        proxy.id() == old(log)@.len() + 1,
        appended(old(log)@, final(log)@, proxy.id(), creator, spawn_desc()),
        proxy.may_run_on(final(log)@.last().thread_id),
        hosts(final(log)@, proxy.id()),
{
    let recorded = log.len();
    // A log that `usize` can count no further takes no further event, so
    // the second branch never names a task.
    let id = if recorded < usize::MAX {
        recorded + 1
    } else {
        usize::MAX
    };
    let proxy = InstrumentedRuntime { inner: Some(rt), id, alive: true };
    proxy.log2("spawn", creator, log);
    proof {
        lemma_descriptions_differ();
        assert(log@ =~= old(log)@.push(log@.last()));
        lemma_birth_keeps_well_formed(old(log)@, log@, log@.last());
    }
    proxy
}

/// Records the death of the proxy's task and takes the proxy off its
/// scheduler. Gives back the scheduler and the detached proxy.
pub fn uninstall<R: Runtime>(proxy: InstrumentedRuntime<R>, log: &mut EventLog) -> (back: (
    R,
    InstrumentedRuntime<R>,
))
    requires
        proxy.active(),
        hosts(old(log)@, proxy.id()),
    ensures
        proxy.inner() == Some(back.0),
        back.0.ready(),
        back.0.task() == 0,
        back.1.detached(),
        back.1.id() == proxy.id(),
        appended(old(log)@, final(log)@, proxy.id(), 0, death_desc()),
        proxy.may_run_on(final(log)@.last().thread_id),
        admits(final(log)@, proxy.id()),
{
    let mut proxy = proxy;
    proof {
        lemma_descriptions_differ();
    }
    proxy.log("death", log);
    let rt = proxy.take();
    proxy.alive = false;
    (rt, proxy)
}

} // verus!
