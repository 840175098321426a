//! One instrumentation session from start to end.

use crate::log::{events_of, EventLog};
use crate::message::Message;
use crate::proxy::{install, uninstall, InstrumentedRuntime};
use crate::runtime::Runtime;
use crate::trace::{hosts, lemma_born_extends, session};
use vstd::prelude::*;

verus! {

/// Runs `operation` under a proxy of the scheduler `rt` and returns the
/// events recorded, in order, together with the scheduler.
///
/// The session starts with an empty log. The root task is installed with no
/// creator, `operation` runs to its end with the proxy as its scheduler, and
/// the root task is uninstalled. Every task spawned through the proxy, or
/// through the proxy of a task so spawned, records into the same log.
pub fn instrument<
    R: Runtime,
    F: FnOnce(InstrumentedRuntime<R>, &mut EventLog) -> InstrumentedRuntime<R>,
>(rt: R, operation: F) -> (out: (Vec<Message>, R))
    requires
        rt.ready(),
        rt.task() == 0,
        forall|root: InstrumentedRuntime<R>, l: &mut EventLog|
            root.active() && root.id() == 1 && (*l)@.len() == 1 && hosts((*l)@, 1)
                ==> #[trigger] call_requires(operation, (root, l)),
        forall|root: InstrumentedRuntime<R>, l: &mut EventLog, done: InstrumentedRuntime<R>| #[trigger]
            call_ensures(operation, (root, l), done) ==> done.active() && done.id() == root.id()
                && hosts((*final(l))@, done.id()) && (*l)@.is_prefix_of((*final(l))@),
    ensures
        session(events_of(out.0@)),
        out.1.ready(),
        out.1.task() == 0,
        exists|root: InstrumentedRuntime<R>, l: &mut EventLog, done: InstrumentedRuntime<R>|
            {
                &&& #[trigger] call_ensures(operation, (root, l), done)
                &&& root.id() == 1
                &&& root.inner() == Some(rt)
                &&& root.may_run_on(events_of(out.0@)[0].thread_id)
                &&& (*l)@ =~= events_of(out.0@).take(1)
                &&& (*final(l))@ =~= events_of(out.0@).drop_last()
                &&& done.inner() == Some(out.1)
                &&& done.may_run_on(events_of(out.0@).last().thread_id)
            },
{
    let mut log = EventLog::new();
    let root = install(rt, &mut log, 0);
    let ghost opened = log@;
    let root = operation(root, &mut log);
    proof {
        lemma_born_extends(opened, log@, 1);
    }
    let (rt, _detached) = uninstall(root, &mut log);
    proof {
        assert(log@[0] == opened[0]);
    }
    (log.snapshot(), rt)
}

} // verus!
