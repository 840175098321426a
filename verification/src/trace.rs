//! What holds of the events of a session, whatever its tasks did.
//!
//! Task identifiers are issued by the log: the task whose "spawn" event is the
//! `n`-th event of the log is task `n`, counted from one. Zero names no task;
//! it stands for "no creator".

use crate::message::{death_desc, is_record, spawn_desc, Event};
use vstd::prelude::*;

verus! {

/// The event opens a task's life.
pub open spec fn is_spawn(e: Event) -> bool {
    e.desc == spawn_desc()
}

/// The event closes a task's life.
pub open spec fn is_death(e: Event) -> bool {
    e.desc == death_desc()
}

/// The description opens an operation of a proxy.
pub open spec fn is_entry(desc: Seq<char>) -> bool {
    desc == "yield"@ || desc == "maybe-yield"@ || desc == "deschedule"@ || desc == "before-spawn"@
}

/// The description closes an operation of a proxy.
pub open spec fn is_exit(desc: Seq<char>) -> bool {
    desc == "done-yield"@ || desc == "wakeup"@ || desc == "after-spawn"@
}

/// `exit` closes the operation that `entry` opens.
pub open spec fn closes(entry: Seq<char>, exit: Seq<char>) -> bool {
    ||| (entry == "yield"@ || entry == "maybe-yield"@) && exit == "done-yield"@
    ||| entry == "deschedule"@ && exit == "wakeup"@
    ||| entry == "before-spawn"@ && exit == "after-spawn"@
}

/// After the event the task is between two operations: it was just born or
/// has just closed an operation.
pub open spec fn rests(e: Event) -> bool {
    is_spawn(e) || is_exit(e.desc)
}

/// The last event of `task` in `trace`, if it has one.
#[verifier::opaque]
pub open spec fn last_of(trace: Seq<Event>, task: usize) -> Option<Event>
    decreases trace.len(),
{
    if trace.len() == 0 {
        None
    } else if trace.last().task_id == task {
        Some(trace.last())
    } else {
        last_of(trace.drop_last(), task)
    }
}

/// An event described by `desc` may come next in the life of a task whose
/// last event was `prev`: a life begins with "spawn"; a task at rest opens
/// an operation or dies; a task in an operation closes that operation.
pub open spec fn follows(prev: Option<Event>, desc: Seq<char>) -> bool {
    match prev {
        None => desc == spawn_desc(),
        Some(p) => {
            ||| (is_entry(desc) || desc == death_desc()) && rests(p)
            ||| is_exit(desc) && closes(p.desc, desc)
        },
    }
}

/// Task `task` was born in `trace`: its "spawn" event stands at position
/// `task - 1`.
pub open spec fn born(trace: Seq<Event>, task: usize) -> bool {
    &&& 1 <= task <= trace.len()
    &&& is_spawn(trace[task - 1])
    &&& trace[task - 1].task_id == task
}

/// The events of `trace` tell a consistent story:
/// every event belongs to a task that was born at or before it,
/// every "spawn" event is the birth of the task it names,
/// every creator named by a "spawn" event was born before it,
/// no task records anything after its "death",
/// and the events of each task, taken by themselves, read "spawn", then
/// operations that are opened and closed one after the other, then "death",
/// as far as the task has come.
pub open spec fn well_formed(trace: Seq<Event>) -> bool {
    &&& forall|i: int|
        0 <= i < trace.len() ==> follows(
            last_of(trace.take(i), (#[trigger] trace[i]).task_id),
            trace[i].desc,
        )
    &&& forall|i: int, j: int|
        0 <= i < j < trace.len() && is_death(#[trigger] trace[i]) ==> (#[trigger] trace[j]).task_id
            != trace[i].task_id
    &&& forall|i: int|
        0 <= i < trace.len() ==> {
            &&& 1 <= (#[trigger] trace[i]).task_id <= i + 1
            &&& born(trace, trace[i].task_id)
        }
    &&& forall|i: int|
        0 <= i < trace.len() && is_spawn(#[trigger] trace[i]) ==> trace[i].task_id == i + 1
    &&& forall|i: int|
        0 <= i < trace.len() && is_spawn(#[trigger] trace[i]) && trace[i].creator != 0 ==> {
            &&& trace[i].creator <= i
            &&& born(trace, trace[i].creator)
        }
}

/// `trace` is well formed and knows task `task`, unless `task` is zero.
pub open spec fn admits(trace: Seq<Event>, task: usize) -> bool {
    well_formed(trace) && (task != 0 ==> born(trace, task))
}

/// No death of `task` is recorded in `trace`.
pub open spec fn alive(trace: Seq<Event>, task: usize) -> bool {
    forall|i: int| 0 <= i < trace.len() && is_death(#[trigger] trace[i]) ==> trace[i].task_id != task
}

/// `trace` is well formed and, unless `task` is zero, knows `task` as a
/// task that has not died.
pub open spec fn keeps(trace: Seq<Event>, task: usize) -> bool {
    admits(trace, task) && (task != 0 ==> alive(trace, task))
}

/// `trace` keeps `task`, which is between two operations: `task` can open
/// an operation or die. Nothing is asked of task zero.
pub open spec fn hosts(trace: Seq<Event>, task: usize) -> bool {
    &&& keeps(trace, task)
    &&& task != 0 ==> (last_of(trace, task) matches Some(e) && rests(e))
}

/// What `new` holds beyond `old` was recorded by `task` or by tasks born
/// after `old`: no other task that `old` knows has recorded anything.
pub open spec fn confined(old: Seq<Event>, new: Seq<Event>, task: usize) -> bool {
    forall|i: int|
        old.len() <= i < new.len() ==> (#[trigger] new[i]).task_id == task || new[i].task_id
            > old.len()
}

/// `new` is `old` with one more event, recorded by `task` with creator
/// `creator` under the description `desc`.
pub open spec fn appended(
    old: Seq<Event>,
    new: Seq<Event>,
    task: usize,
    creator: usize,
    desc: Seq<char>,
) -> bool {
    &&& new.len() == old.len() + 1
    &&& new.drop_last() == old
    &&& is_record(new.last(), task, creator, desc)
}

/// `new` is `old`, then an event of `task` described by `entry`, then
/// whatever other tasks recorded in between, then an event of `task`
/// described by `exit`, which is the last. The two are all that `task` has
/// recorded beyond `old`.
pub open spec fn bracketed(
    old: Seq<Event>,
    new: Seq<Event>,
    task: usize,
    entry: Seq<char>,
    exit: Seq<char>,
) -> bool {
    &&& new.len() >= old.len() + 2
    &&& old.is_prefix_of(new)
    &&& is_record(new[old.len() as int], task, 0, entry)
    &&& is_record(new.last(), task, 0, exit)
    &&& forall|i: int| old.len() < i < new.len() - 1 ==> (#[trigger] new[i]).task_id != task
}

/// `during` and `after` are what the log held when the operation bracketed
/// in `new` was handed to the wrapped scheduler and when it came back: all
/// of `new` up to the entry event, and all of `new` but the exit event.
pub open spec fn between(
    old: Seq<Event>,
    new: Seq<Event>,
    during: Seq<Event>,
    after: Seq<Event>,
) -> bool {
    during =~= new.take(old.len() as int + 1) && after =~= new.drop_last()
}

/// A task that was born stays born when the trace grows.
pub proof fn lemma_born_extends(old: Seq<Event>, new: Seq<Event>, task: usize)
    requires
        born(old, task),
        old.is_prefix_of(new),
    ensures
        born(new, task),
{
    assert(new[task - 1] == old[task - 1]);
}

/// A task of which `old` holds no death has none in `new` either, if what
/// `new` holds beyond `old` is confined to another task and to tasks born
/// later.
pub proof fn lemma_alive_extends(old: Seq<Event>, new: Seq<Event>, task: usize, other: usize)
    requires
        alive(old, task),
        old.is_prefix_of(new),
        confined(old, new, other),
        other != task,
        task <= old.len(),
    ensures
        alive(new, task),
        forall|i: int| old.len() <= i < new.len() ==> (#[trigger] new[i]).task_id != task,
        last_of(new, task) == last_of(old, task),
{
    assert forall|i: int| 0 <= i < new.len() && is_death(#[trigger] new[i]) implies new[i].task_id
        != task by {
        if i < old.len() {
            assert(new[i] == old[i]);
        }
    }
    lemma_last_of_extends(old, new, task);
}

/// How the last event of a task is found: it is the last event of the trace
/// if that belongs to the task, and else the task's last event in the trace
/// without its last event.
pub proof fn lemma_last_of_step(trace: Seq<Event>, task: usize)
    ensures
        trace.len() == 0 ==> last_of(trace, task) is None,
        trace.len() > 0 && trace.last().task_id == task ==> last_of(trace, task) == Some(
            trace.last(),
        ),
        trace.len() > 0 && trace.last().task_id != task ==> last_of(trace, task) == last_of(
            trace.drop_last(),
            task,
        ),
{
    reveal(last_of);
}

/// The last event of a task stays its last event while other tasks record.
pub proof fn lemma_last_of_extends(old: Seq<Event>, new: Seq<Event>, task: usize)
    requires
        old.is_prefix_of(new),
        forall|i: int| old.len() <= i < new.len() ==> (#[trigger] new[i]).task_id != task,
    ensures
        last_of(new, task) == last_of(old, task),
    decreases new.len(),
{
    if new.len() == old.len() {
        assert(new =~= old);
    } else {
        let head = new.drop_last();
        assert(new[new.len() - 1].task_id != task);
        lemma_last_of_step(new, task);
        assert(old.is_prefix_of(head)) by {
            assert forall|i: int| 0 <= i < old.len() implies old[i] == head[i] by {
                assert(old[i] == new[i]);
            }
        }
        assert forall|i: int| old.len() <= i < head.len() implies (#[trigger] head[i]).task_id
            != task by {
            assert(head[i] == new[i]);
        }
        lemma_last_of_extends(old, head, task);
    }
}

/// A task of which a trace holds no event has no last event in it.
pub proof fn lemma_last_of_none(trace: Seq<Event>, task: usize)
    requires
        forall|i: int| 0 <= i < trace.len() ==> (#[trigger] trace[i]).task_id != task,
    ensures
        last_of(trace, task) is None,
    decreases trace.len(),
{
    lemma_last_of_step(trace, task);
    if trace.len() > 0 {
        let head = trace.drop_last();
        assert(trace[trace.len() - 1].task_id != task);
        assert forall|i: int| 0 <= i < head.len() implies (#[trigger] head[i]).task_id != task by {
            assert(head[i] == trace[i]);
        }
        lemma_last_of_none(head, task);
    }
}

/// What a proxy's operation leaves in the log: `task` records its entry
/// into `old`, which gives `entered`; other tasks, all born later, record
/// until the log is `returned`; `task` records its exit, which gives `new`.
pub proof fn lemma_bracket(
    old: Seq<Event>,
    entered: Seq<Event>,
    returned: Seq<Event>,
    new: Seq<Event>,
    task: usize,
    entry: Seq<char>,
    exit: Seq<char>,
)
    requires
        1 <= task <= old.len(),
        appended(old, entered, task, 0, entry),
        entered.is_prefix_of(returned),
        confined(entered, returned, 0),
        well_formed(returned),
        appended(returned, new, task, 0, exit),
    ensures
        bracketed(old, new, task, entry, exit),
        confined(old, new, task),
        between(old, new, entered, returned),
{
    assert(old.is_prefix_of(new)) by {
        assert forall|i: int| 0 <= i < old.len() implies old[i] == new[i] by {
            assert(old[i] == entered.drop_last()[i]);
            assert(entered[i] == returned[i]);
            assert(returned[i] == new.drop_last()[i]);
        }
    }
    assert(new[old.len() as int] == entered.last()) by {
        assert(entered[old.len() as int] == returned[old.len() as int]);
        assert(returned[old.len() as int] == new.drop_last()[old.len() as int]);
    }
    assert forall|i: int| old.len() < i < new.len() - 1 implies (#[trigger] new[i]).task_id > old.len()
        by {
        assert(new[i] == new.drop_last()[i]);
        assert(returned[i].task_id == 0 || returned[i].task_id > entered.len());
    }
    assert(new.take(old.len() as int + 1) =~= entered) by {
        assert forall|i: int| 0 <= i < entered.len() implies new[i] == entered[i] by {
            assert(entered[i] == returned[i]);
            assert(returned[i] == new.drop_last()[i]);
        }
    }
}

/// What the life of a spawned task leaves in the log: `child`, the next
/// task of `old`, is born, which gives `born_at`; it and tasks born later
/// record until the log is `ended`; `child` dies, which gives `new`.
pub proof fn lemma_lifetime(
    old: Seq<Event>,
    born_at: Seq<Event>,
    ended: Seq<Event>,
    new: Seq<Event>,
    child: usize,
    creator: usize,
)
    requires
        child == old.len() + 1,
        appended(old, born_at, child, creator, spawn_desc()),
        born_at.is_prefix_of(ended),
        confined(born_at, ended, child),
        appended(ended, new, child, 0, death_desc()),
    ensures
        lifetime(old, new, child, creator),
        confined(old, new, 0),
        new.take(old.len() as int + 1) =~= born_at,
{
    assert forall|i: int| 0 <= i < born_at.len() implies new[i] == born_at[i] by {
        assert(born_at[i] == ended[i]);
        assert(ended[i] == new.drop_last()[i]);
    }
    assert(old.is_prefix_of(new)) by {
        assert forall|i: int| 0 <= i < old.len() implies old[i] == new[i] by {
            assert(old[i] == born_at.drop_last()[i]);
        }
    }
    assert forall|i: int| old.len() <= i < new.len() implies (#[trigger] new[i]).task_id > old.len()
        by {
        if i < new.len() - 1 {
            assert(new[i] == new.drop_last()[i]);
            if i >= born_at.len() {
                assert(ended[i].task_id == child || ended[i].task_id > born_at.len());
            }
        }
    }
}

/// A well-formed trace stays well formed when a task that it knows, and
/// that has not died, records an event other than "spawn".
pub proof fn lemma_record_keeps_well_formed(old: Seq<Event>, new: Seq<Event>, e: Event)
    requires
        well_formed(old),
        new == old.push(e),
        born(old, e.task_id),
        alive(old, e.task_id),
        !is_spawn(e),
        follows(last_of(old, e.task_id), e.desc),
    ensures
        well_formed(new),
{
    assert forall|i: int| 0 <= i < new.len() implies follows(
        last_of(new.take(i), (#[trigger] new[i]).task_id),
        new[i].desc,
    ) by {
        if i < old.len() {
            assert(new[i] == old[i]);
            assert(new.take(i) =~= old.take(i));
        } else {
            assert(new.take(i) =~= old);
        }
    }
    assert forall|i: int, j: int|
        0 <= i < j < new.len() && is_death(#[trigger] new[i]) implies (#[trigger] new[j]).task_id
        != new[i].task_id by {
        assert(new[i] == old[i]);
        if j < old.len() {
            assert(new[j] == old[j]);
        }
    }
    assert forall|i: int| 0 <= i < new.len() implies {
        &&& 1 <= (#[trigger] new[i]).task_id <= i + 1
        &&& born(new, new[i].task_id)
    } by {
        if i < old.len() {
            assert(new[i] == old[i]);
            lemma_born_extends(old, new, old[i].task_id);
        } else {
            lemma_born_extends(old, new, e.task_id);
        }
    }
    assert forall|i: int| 0 <= i < new.len() && is_spawn(#[trigger] new[i]) implies new[i].task_id
        == i + 1 by {
        assert(new[i] == old[i]);
    }
    assert forall|i: int|
        0 <= i < new.len() && is_spawn(#[trigger] new[i]) && new[i].creator != 0 implies {
        &&& new[i].creator <= i
        &&& born(new, new[i].creator)
    } by {
        assert(new[i] == old[i]);
        lemma_born_extends(old, new, old[i].creator);
    }
}

/// A well-formed trace stays well formed when the next task is born into it,
/// created by nobody or by a task that the trace knows; and the new trace
/// knows the new task as one that has not died.
pub proof fn lemma_birth_keeps_well_formed(old: Seq<Event>, new: Seq<Event>, e: Event)
    requires
        well_formed(old),
        new == old.push(e),
        is_spawn(e),
        !is_death(e),
        e.task_id == old.len() + 1,
        e.creator != 0 ==> born(old, e.creator),
    ensures
        well_formed(new),
        born(new, e.task_id),
        alive(new, e.task_id),
{
    assert(new[e.task_id - 1] == e);
    assert forall|i: int| 0 <= i < new.len() implies follows(
        last_of(new.take(i), (#[trigger] new[i]).task_id),
        new[i].desc,
    ) by {
        if i < old.len() {
            assert(new[i] == old[i]);
            assert(new.take(i) =~= old.take(i));
        } else {
            assert(new.take(i) =~= old);
            lemma_last_of_none(old, e.task_id);
        }
    }
    assert forall|i: int| 0 <= i < new.len() && is_death(#[trigger] new[i]) implies new[i].task_id
        != e.task_id by {
        assert(new[i] == old[i]);
    }
    assert forall|i: int, j: int|
        0 <= i < j < new.len() && is_death(#[trigger] new[i]) implies (#[trigger] new[j]).task_id
        != new[i].task_id by {
        assert(new[i] == old[i]);
        if j < old.len() {
            assert(new[j] == old[j]);
        }
    }
    assert forall|i: int| 0 <= i < new.len() implies {
        &&& 1 <= (#[trigger] new[i]).task_id <= i + 1
        &&& born(new, new[i].task_id)
    } by {
        if i < old.len() {
            assert(new[i] == old[i]);
            lemma_born_extends(old, new, old[i].task_id);
        }
    }
    assert forall|i: int| 0 <= i < new.len() && is_spawn(#[trigger] new[i]) implies new[i].task_id
        == i + 1 by {
        if i < old.len() {
            assert(new[i] == old[i]);
        }
    }
    assert forall|i: int|
        0 <= i < new.len() && is_spawn(#[trigger] new[i]) && new[i].creator != 0 implies {
        &&& new[i].creator <= i
        &&& born(new, new[i].creator)
    } by {
        if i < old.len() {
            assert(new[i] == old[i]);
            lemma_born_extends(old, new, old[i].creator);
        } else {
            lemma_born_extends(old, new, e.creator);
        }
    }
}

/// The beginning of a well-formed trace is well formed.
pub proof fn lemma_prefix_well_formed(trace: Seq<Event>, n: int)
    requires
        well_formed(trace),
        0 <= n <= trace.len(),
    ensures
        well_formed(trace.take(n)),
{
    let head = trace.take(n);
    assert forall|i: int| 0 <= i < head.len() implies follows(
        last_of(head.take(i), (#[trigger] head[i]).task_id),
        head[i].desc,
    ) by {
        assert(head[i] == trace[i]);
        assert(head.take(i) =~= trace.take(i));
    }
    assert forall|i: int, j: int|
        0 <= i < j < head.len() && is_death(#[trigger] head[i]) implies (#[trigger] head[j]).task_id
        != head[i].task_id by {
        assert(head[i] == trace[i] && head[j] == trace[j]);
    }
    assert forall|i: int| 0 <= i < head.len() implies {
        &&& 1 <= (#[trigger] head[i]).task_id <= i + 1
        &&& born(head, head[i].task_id)
    } by {
        assert(head[i] == trace[i]);
        assert(head[head[i].task_id - 1] == trace[head[i].task_id - 1]);
    }
    assert forall|i: int| 0 <= i < head.len() && is_spawn(#[trigger] head[i]) implies head[i].task_id
        == i + 1 by {
        assert(head[i] == trace[i]);
    }
    assert forall|i: int|
        0 <= i < head.len() && is_spawn(#[trigger] head[i]) && head[i].creator != 0 implies {
        &&& head[i].creator <= i
        &&& born(head, head[i].creator)
    } by {
        assert(head[i] == trace[i]);
        assert(head[head[i].creator - 1] == trace[head[i].creator - 1]);
    }
}

/// Number of events of `trace` described by `desc`.
pub open spec fn count(trace: Seq<Event>, desc: Seq<char>) -> nat
    decreases trace.len(),
{
    if trace.len() == 0 {
        0
    } else {
        count(trace.drop_last(), desc) + if trace.last().desc == desc {
            1nat
        } else {
            0nat
        }
    }
}

/// The tasks that recorded an event in `trace`.
pub open spec fn tasks(trace: Seq<Event>) -> Set<usize> {
    Set::new(|task: usize| exists|i: int| 0 <= i < trace.len() && (#[trigger] trace[i]).task_id == task)
}

/// The tasks whose death is recorded in `trace`.
pub open spec fn dead(trace: Seq<Event>) -> Set<usize> {
    Set::new(
        |task: usize|
            exists|i: int|
                0 <= i < trace.len() && is_death(#[trigger] trace[i]) && trace[i].task_id == task,
    )
}

/// No task's death is recorded twice in `trace`.
pub open spec fn dies_once(trace: Seq<Event>) -> bool {
    forall|i: int, j: int|
        0 <= i < j < trace.len() && is_death(#[trigger] trace[i]) && is_death(#[trigger] trace[j])
            ==> trace[i].task_id != trace[j].task_id
}

/// `new` is `old`, then the birth of `task` created by `creator`, then
/// whatever was recorded during its life, then its death, which is the last.
pub open spec fn lifetime(old: Seq<Event>, new: Seq<Event>, task: usize, creator: usize) -> bool {
    &&& new.len() >= old.len() + 2
    &&& old.is_prefix_of(new)
    &&& is_record(new[old.len() as int], task, creator, spawn_desc())
    &&& is_record(new.last(), task, 0, death_desc())
}

/// A session of `operation` under a proxy: a well-formed trace that the
/// root task, task 1 with no creator, opens with its birth and closes with
/// its death.
pub open spec fn session(trace: Seq<Event>) -> bool {
    &&& well_formed(trace)
    &&& trace.len() >= 2
    &&& is_record(trace[0], 1, 0, spawn_desc())
    &&& is_record(trace.last(), 1, 0, death_desc())
}

/// No orphan creators: in a well-formed trace, the creator named by a
/// "spawn" event is the task of another event that stands earlier in the
/// trace, namely of the creator's own "spawn" event.
pub proof fn lemma_no_orphan_creators(trace: Seq<Event>, i: int) -> (j: int)
    requires
        well_formed(trace),
        0 <= i < trace.len(),
        is_spawn(trace[i]),
        trace[i].creator != 0,
    ensures
        0 <= j < i,
        trace[j].task_id == trace[i].creator,
        is_spawn(trace[j]),
{
    trace[i].creator - 1
}

/// In a well-formed trace a task's "spawn" event is its first event and its
/// only "spawn" event: no other event of the task stands before it, and no
/// other "spawn" event names the task.
pub proof fn lemma_spawn_comes_first(trace: Seq<Event>, i: int, j: int)
    requires
        well_formed(trace),
        0 <= i < trace.len(),
        0 <= j < trace.len(),
        i != j,
        is_spawn(trace[i]),
        trace[j].task_id == trace[i].task_id,
    ensures
        i < j,
        !is_spawn(trace[j]),
{
}

/// In a well-formed trace a task's "death" event is its last event and its
/// only "death" event: no other event of the task stands after it.
pub proof fn lemma_death_comes_last(trace: Seq<Event>, i: int, j: int)
    requires
        well_formed(trace),
        0 <= i < trace.len(),
        0 <= j < trace.len(),
        i != j,
        is_death(trace[i]),
        trace[j].task_id == trace[i].task_id,
    ensures
        j < i,
        !is_death(trace[j]),
{
}

/// In a well-formed trace the events of one task follow each other as a
/// life allows: if `trace[j]` and `trace[i]` belong to the same task and
/// the task records nothing between them, then `trace[i]` closes the
/// operation that `trace[j]` opened, or `trace[j]` left the task at rest
/// and `trace[i]` opens an operation or is the task's "death".
pub proof fn lemma_events_pair_up(trace: Seq<Event>, j: int, i: int)
    requires
        well_formed(trace),
        0 <= j < i < trace.len(),
        trace[j].task_id == trace[i].task_id,
        forall|k: int| j < k < i ==> (#[trigger] trace[k]).task_id != trace[i].task_id,
    ensures
        follows(Some(trace[j]), trace[i].desc),
        trace[i].desc != spawn_desc(),
{
    let task = trace[i].task_id;
    let upto = trace.take(j + 1);
    let before = trace.take(i);
    assert(upto.last() == trace[j]);
    lemma_last_of_step(upto, task);
    assert(last_of(upto, task) == Some(trace[j]));
    assert(upto.is_prefix_of(before)) by {
        assert forall|k: int| 0 <= k < upto.len() implies upto[k] == before[k] by {}
    }
    assert forall|k: int| upto.len() <= k < before.len() implies (#[trigger] before[k]).task_id
        != task by {
        assert(before[k] == trace[k]);
    }
    lemma_last_of_extends(upto, before, task);
    if is_spawn(trace[i]) {
        lemma_spawn_comes_first(trace, i, j);
    }
}

/// In a well-formed trace no task dies twice.
pub proof fn lemma_dies_once(trace: Seq<Event>)
    requires
        well_formed(trace),
    ensures
        dies_once(trace),
{
}

/// An operation of a proxy records its entry before its exit, after all
/// that the log held before, and both under the proxy's own task.
pub proof fn lemma_bracket_in_order(
    old: Seq<Event>,
    new: Seq<Event>,
    task: usize,
    entry: Seq<char>,
    exit: Seq<char>,
) -> (at: (int, int))
    requires
        bracketed(old, new, task, entry, exit),
    ensures
        old.len() <= at.0 < at.1 < new.len(),
        is_record(new[at.0], task, 0, entry),
        is_record(new[at.1], task, 0, exit),
        forall|k: int| 0 <= k < old.len() ==> new[k] == old[k],
        forall|k: int|
            old.len() <= k < new.len() && (#[trigger] new[k]).task_id == task ==> k == at.0 || k
                == at.1,
{
    assert forall|k: int| old.len() <= k < new.len() && (#[trigger] new[k]).task_id == task implies k
        == old.len() || k == new.len() - 1 by {
        if old.len() < k && k < new.len() - 1 {
            assert(new[k].task_id != task);
        }
    }
    (old.len() as int, new.len() - 1)
}

proof fn lemma_tasks_push(head: Seq<Event>, e: Event)
    ensures
        tasks(head.push(e)) == tasks(head).insert(e.task_id),
        dead(head.push(e)) == if is_death(e) {
            dead(head).insert(e.task_id)
        } else {
            dead(head)
        },
{
    let trace = head.push(e);
    assert forall|task: usize| tasks(trace).contains(task) <==> tasks(head).insert(
        e.task_id,
    ).contains(task) by {
        if tasks(trace).contains(task) {
            let i = choose|i: int| 0 <= i < trace.len() && (#[trigger] trace[i]).task_id == task;
            if i < head.len() {
                assert(head[i].task_id == task);
            }
        }
        if tasks(head).contains(task) {
            let i = choose|i: int| 0 <= i < head.len() && (#[trigger] head[i]).task_id == task;
            assert(trace[i].task_id == task);
        }
        if task == e.task_id {
            assert(trace[head.len() as int].task_id == task);
        }
    }
    assert(tasks(trace) =~= tasks(head).insert(e.task_id));
    let after = if is_death(e) {
        dead(head).insert(e.task_id)
    } else {
        dead(head)
    };
    assert forall|task: usize| dead(trace).contains(task) <==> after.contains(task) by {
        if dead(trace).contains(task) {
            let i = choose|i: int|
                0 <= i < trace.len() && is_death(#[trigger] trace[i]) && trace[i].task_id == task;
            if i < head.len() {
                assert(is_death(head[i]) && head[i].task_id == task);
            }
        }
        if dead(head).contains(task) {
            let i = choose|i: int|
                0 <= i < head.len() && is_death(#[trigger] head[i]) && head[i].task_id == task;
            assert(is_death(trace[i]) && trace[i].task_id == task);
        }
        if is_death(e) && task == e.task_id {
            assert(is_death(trace[head.len() as int]) && trace[head.len() as int].task_id == task);
        }
    }
    assert(dead(trace) =~= after);
}

/// In a well-formed trace there are exactly as many "spawn" events as tasks.
pub proof fn lemma_one_spawn_per_task(trace: Seq<Event>)
    requires
        well_formed(trace),
    ensures
        tasks(trace).finite(),
        count(trace, spawn_desc()) == tasks(trace).len(),
    decreases trace.len(),
{
    if trace.len() == 0 {
        assert(tasks(trace) =~= Set::<usize>::empty());
    } else {
        let head = trace.drop_last();
        let e = trace.last();
        assert(head == trace.take(trace.len() - 1));
        lemma_prefix_well_formed(trace, trace.len() - 1);
        lemma_one_spawn_per_task(head);
        assert(trace == head.push(e));
        lemma_tasks_push(head, e);
        if is_spawn(e) {
            assert(trace[trace.len() - 1].task_id == trace.len());
            if tasks(head).contains(e.task_id) {
                let i = choose|i: int| 0 <= i < head.len() && (#[trigger] head[i]).task_id == e.task_id;
                assert(head[i].task_id <= i + 1);
            }
        } else {
            let birth = e.task_id - 1;
            assert(born(trace, trace[trace.len() - 1].task_id));
            assert(is_spawn(trace[birth]));
            assert(head[birth].task_id == e.task_id);
        }
    }
}

/// In a trace in which no task dies twice there are exactly as many "death"
/// events as dead tasks.
pub proof fn lemma_one_death_per_dead_task(trace: Seq<Event>)
    requires
        dies_once(trace),
    ensures
        dead(trace).finite(),
        count(trace, death_desc()) == dead(trace).len(),
    decreases trace.len(),
{
    if trace.len() == 0 {
        assert(dead(trace) =~= Set::<usize>::empty());
    } else {
        let head = trace.drop_last();
        let e = trace.last();
        assert forall|i: int, j: int|
            0 <= i < j < head.len() && is_death(#[trigger] head[i]) && is_death(
                #[trigger] head[j],
            ) implies head[i].task_id != head[j].task_id by {
            assert(head[i] == trace[i] && head[j] == trace[j]);
        }
        lemma_one_death_per_dead_task(head);
        assert(trace == head.push(e));
        lemma_tasks_push(head, e);
        if is_death(e) && dead(head).contains(e.task_id) {
            let i = choose|i: int|
                0 <= i < head.len() && is_death(#[trigger] head[i]) && head[i].task_id == e.task_id;
            assert(head[i] == trace[i]);
            assert(is_death(trace[trace.len() - 1]));
        }
    }
}

/// One record adds one to the count of its own description and nothing to
/// any other count: an `install` adds one "spawn", an `uninstall` one
/// "death", and no other record of a proxy adds either.
pub proof fn lemma_count_appended(
    old: Seq<Event>,
    new: Seq<Event>,
    task: usize,
    creator: usize,
    desc: Seq<char>,
    counted: Seq<char>,
)
    requires
        appended(old, new, task, creator, desc),
    ensures
        count(new, counted) == count(old, counted) + if desc == counted {
            1nat
        } else {
            0nat
        },
{
}

/// In a well-formed trace every task is born once and dies at most once:
/// there are as many "spawn" events as tasks, as many "death" events as
/// dead tasks, and so no more deaths than births.
pub proof fn lemma_births_and_deaths(trace: Seq<Event>)
    requires
        well_formed(trace),
    ensures
        tasks(trace).finite(),
        dead(trace).finite(),
        count(trace, spawn_desc()) == tasks(trace).len(),
        count(trace, death_desc()) == dead(trace).len(),
        count(trace, death_desc()) <= count(trace, spawn_desc()),
{
    lemma_one_spawn_per_task(trace);
    lemma_dies_once(trace);
    lemma_one_death_per_dead_task(trace);
    assert forall|task: usize| dead(trace).contains(task) implies tasks(trace).contains(task) by {
        let i = choose|i: int|
            0 <= i < trace.len() && is_death(#[trigger] trace[i]) && trace[i].task_id == task;
        assert(trace[i].task_id == task);
    }
    vstd::set_lib::lemma_len_subset(dead(trace), tasks(trace));
}

/// One "spawn" and one "death" per task: a well-formed trace of a root and
/// `children` other tasks, all of which have died, holds exactly
/// `children + 1` "spawn" events and exactly `children + 1` "death" events.
pub proof fn lemma_spawn_and_death_per_task(trace: Seq<Event>, children: nat)
    requires
        well_formed(trace),
        tasks(trace).len() == children + 1,
        forall|task: usize| tasks(trace).contains(task) ==> dead(trace).contains(task),
    ensures
        count(trace, spawn_desc()) == children + 1,
        count(trace, death_desc()) == children + 1,
{
    lemma_one_spawn_per_task(trace);
    lemma_dies_once(trace);
    lemma_one_death_per_dead_task(trace);
    assert forall|task: usize| dead(trace).contains(task) implies tasks(trace).contains(task) by {
        let i = choose|i: int|
            0 <= i < trace.len() && is_death(#[trigger] trace[i]) && trace[i].task_id == task;
        assert(trace[i].task_id == task);
    }
    assert(dead(trace) =~= tasks(trace));
}

} // verus!
