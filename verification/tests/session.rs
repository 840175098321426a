use rtinstrument::proxy::{after_spawn, run_sibling};
use rtinstrument::{
    init, install, instrument, recv, send, thread_ring, uninstall, BlockedTask, EventLog,
    InstrumentedRuntime, LocalIo, Message, Pipe, RingTask, Runtime, SpawnError, TaskOpts,
};
use std::collections::VecDeque;
use std::sync::atomic::{AtomicUsize, Ordering};
use std::sync::mpsc::channel;
use std::sync::{Arc, Mutex};

type Job = Box<dyn FnOnce(Coop, &mut EventLog) -> Coop + Send>;

/// A cooperative scheduler on one worker: spawned tasks wait in a queue and
/// run, each to its end, when a running task yields or blocks.
struct Coop {
    queue: Arc<Mutex<VecDeque<Job>>>,
    worker: Option<usize>,
    room: Arc<AtomicUsize>,
    blocked: Arc<AtomicUsize>,
    resumed: Arc<AtomicUsize>,
}

impl Coop {
    fn new(worker: Option<usize>, room: usize) -> Coop {
        Coop {
            queue: Arc::new(Mutex::new(VecDeque::new())),
            worker,
            room: Arc::new(AtomicUsize::new(room)),
            blocked: Arc::new(AtomicUsize::new(0)),
            resumed: Arc::new(AtomicUsize::new(0)),
        }
    }

    fn sibling(&self) -> Coop {
        Coop {
            queue: self.queue.clone(),
            worker: self.worker,
            room: self.room.clone(),
            blocked: self.blocked.clone(),
            resumed: self.resumed.clone(),
        }
    }

    fn run_pending(&self, log: &mut EventLog) {
        loop {
            let job = self.queue.lock().unwrap().pop_front();
            match job {
                Some(job) => {
                    job(self.sibling(), log);
                }
                None => return,
            }
        }
    }
}

impl Runtime for Coop {
    fn yield_now(self, log: &mut EventLog) -> Coop {
        self.run_pending(log);
        self
    }

    fn maybe_yield(self, _log: &mut EventLog) -> Coop {
        self
    }

    fn deschedule<F: FnOnce(BlockedTask) -> Result<(), BlockedTask>>(
        self,
        _times: usize,
        log: &mut EventLog,
        block: F,
    ) -> Coop {
        match block(BlockedTask { token: 17 }) {
            Ok(()) => {
                self.blocked.fetch_add(1, Ordering::SeqCst);
                self.run_pending(log);
            }
            Err(task) => {
                assert_eq!(task.token, 17);
                self.resumed.fetch_add(1, Ordering::SeqCst);
            }
        }
        self
    }

    fn reawaken(self, _to_wake: BlockedTask, _log: &mut EventLog) -> Coop {
        self
    }

    fn spawn_sibling<F: FnOnce(Coop, &mut EventLog) -> Coop + Send + 'static>(
        self,
        _opts: TaskOpts,
        _log: &mut EventLog,
        body: F,
    ) -> (Coop, Result<(), SpawnError>) {
        if self.room.load(Ordering::SeqCst) == 0 {
            return (self, Err(SpawnError::Exhausted));
        }
        self.room.fetch_sub(1, Ordering::SeqCst);
        self.queue.lock().unwrap().push_back(Box::new(body));
        (self, Ok(()))
    }

    fn local_io(&self) -> Option<LocalIo> {
        self.worker.map(|worker| LocalIo { worker })
    }

    fn stack_bounds(&self) -> (usize, usize) {
        (4096, 8192)
    }

    fn can_block(&self) -> bool {
        true
    }
}

type Proxy = InstrumentedRuntime<Coop>;

fn opts() -> TaskOpts {
    TaskOpts { name: None, stack_size: None }
}

fn descs(trace: &[Message]) -> Vec<&str> {
    trace.iter().map(|m| m.desc.as_str()).collect()
}

fn count(trace: &[Message], desc: &str) -> usize {
    trace.iter().filter(|m| m.desc == desc).count()
}

fn tuples(trace: &[Message]) -> Vec<(usize, usize, &str)> {
    trace.iter().map(|m| (m.task_id, m.creator, m.desc.as_str())).collect()
}

#[test]
fn install_records_spawn_and_issues_the_next_id() {
    let mut log = EventLog::new();
    let first = install(Coop::new(Some(4), 8), &mut log, 0);
    assert_eq!(first.task_id(), 1);
    let second = install(Coop::new(Some(5), 8), &mut log, 1);
    assert_eq!(second.task_id(), 2);
    let trace = log.snapshot();
    assert_eq!(tuples(&trace), vec![(1, 0, "spawn"), (2, 1, "spawn")]);
    assert_eq!(trace[0].thread_id, 4);
    assert_eq!(trace[1].thread_id, 5);
}

#[test]
fn uninstall_records_death_and_gives_the_scheduler_back() {
    let mut log = EventLog::new();
    let proxy = install(Coop::new(Some(4), 8), &mut log, 0);
    let (rt, detached) = uninstall(proxy, &mut log);
    assert_eq!(rt.worker, Some(4));
    assert_eq!(detached.task_id(), 1);
    assert_eq!(tuples(&log.snapshot()), vec![(1, 0, "spawn"), (1, 0, "death")]);
}

#[test]
fn thread_id_is_zero_without_io_driver() {
    let mut log = EventLog::new();
    let proxy = install(Coop::new(None, 8), &mut log, 0);
    assert_eq!(proxy.thread_id(), 0);
    assert!(proxy.local_io().is_none());
    assert_eq!(log.snapshot()[0].thread_id, 0);
    let other = install(Coop::new(Some(31), 8), &mut log, 0);
    assert_eq!(other.thread_id(), 31);
    assert_eq!(other.local_io().unwrap().worker, 31);
}

#[test]
fn queries_pass_through() {
    let mut log = EventLog::new();
    let proxy = install(Coop::new(Some(1), 8), &mut log, 0);
    assert_eq!(proxy.stack_bounds(), (4096, 8192));
    assert!(proxy.can_block());
    assert_eq!(log.len(), 1);
}

#[test]
fn log_and_log2_record_under_the_proxys_task() {
    let mut log = EventLog::new();
    let proxy = install(Coop::new(Some(6), 8), &mut log, 0);
    proxy.log("note", &mut log);
    proxy.log2("longer", 1, &mut log);
    let trace = log.snapshot();
    assert_eq!(tuples(&trace), vec![(1, 0, "spawn"), (1, 0, "note"), (1, 1, "longer")]);
    assert_eq!(trace[2].thread_id, 6);
}

#[test]
fn take_and_put_go_through_delegating() {
    let mut log = EventLog::new();
    let mut proxy = install(Coop::new(Some(6), 8), &mut log, 0);
    let rt = proxy.take();
    assert_eq!(rt.worker, Some(6));
    let proxy = proxy.put(rt, "back", &mut log);
    assert_eq!(proxy.task_id(), 1);
    assert_eq!(proxy.thread_id(), 6);
    assert_eq!(tuples(&log.snapshot()), vec![(1, 0, "spawn"), (1, 0, "back")]);
}

#[test]
fn yields_are_bracketed() {
    let mut log = EventLog::new();
    let proxy = install(Coop::new(Some(2), 8), &mut log, 0);
    let proxy = proxy.yield_now(&mut log);
    let proxy = proxy.maybe_yield(&mut log);
    assert_eq!(proxy.task_id(), 1);
    assert_eq!(
        tuples(&log.snapshot()),
        vec![
            (1, 0, "spawn"),
            (1, 0, "yield"),
            (1, 0, "done-yield"),
            (1, 0, "maybe-yield"),
            (1, 0, "done-yield"),
        ]
    );
}

#[test]
fn deschedule_records_wakeup_whatever_the_callback_says() {
    let mut log = EventLog::new();
    let rt = Coop::new(Some(2), 8);
    let blocked = rt.blocked.clone();
    let resumed = rt.resumed.clone();
    let proxy = install(rt, &mut log, 0);
    let proxy = proxy.deschedule(1, &mut log, |_task: BlockedTask| Ok(()));
    assert_eq!(blocked.load(Ordering::SeqCst), 1);
    assert_eq!(resumed.load(Ordering::SeqCst), 0);
    let proxy = proxy.deschedule(3, &mut log, |task: BlockedTask| Err(task));
    assert_eq!(blocked.load(Ordering::SeqCst), 1);
    assert_eq!(resumed.load(Ordering::SeqCst), 1);
    assert_eq!(proxy.task_id(), 1);
    assert_eq!(
        descs(&log.snapshot()),
        vec!["spawn", "deschedule", "wakeup", "deschedule", "wakeup"]
    );
}

#[test]
fn spawned_sibling_is_instrumented_when_it_runs() {
    let mut log = EventLog::new();
    let proxy = install(Coop::new(Some(2), 8), &mut log, 0);
    let (proxy, outcome) = proxy.spawn_sibling(opts(), &mut log, |child: Proxy, l: &mut EventLog| {
        child.maybe_yield(l)
    });
    assert_eq!(outcome, Ok(()));
    // spawning does not wait for the sibling
    assert_eq!(
        tuples(&log.snapshot()),
        vec![(1, 0, "spawn"), (1, 0, "before-spawn"), (1, 0, "after-spawn")]
    );
    let proxy = proxy.yield_now(&mut log);
    let (_rt, _detached) = uninstall(proxy, &mut log);
    assert_eq!(
        tuples(&log.snapshot()),
        vec![
            (1, 0, "spawn"),
            (1, 0, "before-spawn"),
            (1, 0, "after-spawn"),
            (1, 0, "yield"),
            (5, 1, "spawn"),
            (5, 0, "maybe-yield"),
            (5, 0, "done-yield"),
            (5, 0, "death"),
            (1, 0, "done-yield"),
            (1, 0, "death"),
        ]
    );
}

#[test]
fn refused_spawn_is_handed_on_and_still_bracketed() {
    let mut log = EventLog::new();
    let proxy = install(Coop::new(Some(2), 0), &mut log, 0);
    let (proxy, outcome) = proxy.spawn_sibling(opts(), &mut log, |child: Proxy, _l: &mut EventLog| child);
    assert_eq!(outcome, Err(SpawnError::Exhausted));
    let proxy = proxy.yield_now(&mut log);
    assert_eq!(proxy.task_id(), 1);
    assert_eq!(
        descs(&log.snapshot()),
        vec!["spawn", "before-spawn", "after-spawn", "yield", "done-yield"]
    );
}

#[test]
fn after_spawn_hands_the_outcome_on() {
    let mut log = EventLog::new();
    let mut proxy = install(Coop::new(Some(2), 8), &mut log, 0);
    let rt = proxy.take();
    let (mut proxy, outcome) = after_spawn(proxy, rt, Err(SpawnError::ShutDown), &mut log);
    assert_eq!(outcome, Err(SpawnError::ShutDown));
    let rt = proxy.take();
    let (proxy, outcome) = after_spawn(proxy, rt, Ok(()), &mut log);
    assert_eq!(outcome, Ok(()));
    assert_eq!(proxy.task_id(), 1);
    assert_eq!(descs(&log.snapshot()), vec!["spawn", "after-spawn", "after-spawn"]);
}

#[test]
fn run_sibling_brackets_the_body_with_birth_and_death() {
    let mut log = EventLog::new();
    let root = install(Coop::new(Some(2), 8), &mut log, 0);
    let rt = run_sibling(Coop::new(Some(3), 8), &mut log, 1, |child: Proxy, l: &mut EventLog| {
        assert_eq!(child.task_id(), 2);
        child.maybe_yield(l)
    });
    assert_eq!(rt.worker, Some(3));
    assert_eq!(root.task_id(), 1);
    let trace = log.snapshot();
    assert_eq!(
        tuples(&trace),
        vec![
            (1, 0, "spawn"),
            (2, 1, "spawn"),
            (2, 0, "maybe-yield"),
            (2, 0, "done-yield"),
            (2, 0, "death"),
        ]
    );
    assert_eq!(trace[1].thread_id, 3);
    assert_eq!(trace[4].thread_id, 3);
}

#[test]
fn a_creator_may_be_dead_when_its_sibling_starts() {
    let (trace, _rt) = instrument(Coop::new(Some(1), 64), |root: Proxy, l: &mut EventLog| {
        let (root, _) = root.spawn_sibling(opts(), l, |child: Proxy, l: &mut EventLog| {
            // the grandchild waits in the queue and starts after its creator's death
            let (child, _) = child.spawn_sibling(opts(), l, |grand: Proxy, _l: &mut EventLog| grand);
            child
        });
        root.yield_now(l)
    });
    assert_eq!(
        tuples(&trace),
        vec![
            (1, 0, "spawn"),
            (1, 0, "before-spawn"),
            (1, 0, "after-spawn"),
            (1, 0, "yield"),
            (5, 1, "spawn"),
            (5, 0, "before-spawn"),
            (5, 0, "after-spawn"),
            (5, 0, "death"),
            (9, 5, "spawn"),
            (9, 0, "death"),
            (1, 0, "done-yield"),
            (1, 0, "death"),
        ]
    );
}

#[test]
fn instrument_with_an_idle_operation_records_birth_and_death() {
    let (trace, rt) = instrument(Coop::new(Some(9), 8), |root: Proxy, _l: &mut EventLog| root);
    assert_eq!(rt.worker, Some(9));
    assert_eq!(tuples(&trace), vec![(1, 0, "spawn"), (1, 0, "death")]);
    assert_eq!(trace[0].thread_id, 9);
    assert_eq!(trace[1].thread_id, 9);
}

fn spawn_leaves(n: usize) -> Vec<Message> {
    let (trace, _rt) = instrument(Coop::new(Some(1), 64), move |root: Proxy, l: &mut EventLog| {
        let mut root = root;
        for _ in 0..n {
            let (back, outcome) =
                root.spawn_sibling(opts(), l, |child: Proxy, _l: &mut EventLog| child);
            assert_eq!(outcome, Ok(()));
            root = back;
        }
        root.yield_now(l)
    });
    trace
}

#[test]
fn one_spawn_and_one_death_per_task() {
    for n in [0usize, 1, 3, 7] {
        let trace = spawn_leaves(n);
        assert_eq!(count(&trace, "spawn"), n + 1);
        assert_eq!(count(&trace, "death"), n + 1);
        let mut tasks: Vec<usize> = trace.iter().map(|m| m.task_id).collect();
        tasks.sort();
        tasks.dedup();
        assert_eq!(tasks.len(), n + 1);
        for task in tasks {
            assert_eq!(trace.iter().filter(|m| m.task_id == task && m.desc == "spawn").count(), 1);
            assert_eq!(trace.iter().filter(|m| m.task_id == task && m.desc == "death").count(), 1);
        }
    }
}

fn nested() -> Vec<Message> {
    let (trace, _rt) = instrument(Coop::new(Some(1), 64), |root: Proxy, l: &mut EventLog| {
        let (root, _) = root.spawn_sibling(opts(), l, |child: Proxy, l: &mut EventLog| {
            let (child, _) = child.spawn_sibling(opts(), l, |grand: Proxy, l: &mut EventLog| {
                grand.maybe_yield(l)
            });
            child.yield_now(l)
        });
        let (root, _) = root.spawn_sibling(opts(), l, |child: Proxy, _l: &mut EventLog| child);
        root.deschedule(1, l, |_task: BlockedTask| Ok(()))
    });
    trace
}

#[test]
fn no_spawn_names_an_unknown_creator() {
    let trace = nested();
    assert_eq!(count(&trace, "spawn"), 4);
    for (i, m) in trace.iter().enumerate() {
        if m.desc == "spawn" {
            assert_eq!(m.task_id, i + 1);
            if i == 0 {
                assert_eq!(m.creator, 0);
            } else {
                assert!(m.creator != 0);
                assert!(trace[..i].iter().any(|e| e.task_id == m.creator));
            }
        } else {
            assert_eq!(m.creator, 0);
        }
    }
}

#[test]
fn each_task_records_in_the_order_of_its_own_run() {
    let trace = nested();
    let mut tasks: Vec<usize> = trace.iter().map(|m| m.task_id).collect();
    tasks.sort();
    tasks.dedup();
    assert_eq!(tasks.len(), 4);
    for task in tasks {
        let own: Vec<&str> =
            trace.iter().filter(|m| m.task_id == task).map(|m| m.desc.as_str()).collect();
        assert_eq!(own[0], "spawn");
        assert_eq!(own[own.len() - 1], "death");
        let mut inner = own[1..own.len() - 1].iter();
        while let Some(entry) = inner.next() {
            let exit = inner.next().unwrap();
            let pair = (*entry, *exit);
            assert!(
                pair == ("yield", "done-yield")
                    || pair == ("maybe-yield", "done-yield")
                    || pair == ("deschedule", "wakeup")
                    || pair == ("before-spawn", "after-spawn")
            );
        }
    }
    // the first task's own events, exactly
    let root: Vec<&str> =
        trace.iter().filter(|m| m.task_id == 1).map(|m| m.desc.as_str()).collect();
    assert_eq!(
        root,
        vec![
            "spawn",
            "before-spawn",
            "after-spawn",
            "before-spawn",
            "after-spawn",
            "deschedule",
            "wakeup",
            "death",
        ]
    );
}

#[test]
fn timestamps_do_not_run_backwards() {
    let trace = nested();
    assert!(trace[0].timestamp > 0);
    for pair in trace.windows(2) {
        assert!(pair[0].timestamp <= pair[1].timestamp);
    }
}

#[test]
fn ten_siblings_send_one_token_each() {
    let (tx, rx) = channel::<()>();
    let (trace, _rt) = instrument(Coop::new(Some(1), 64), move |root: Proxy, l: &mut EventLog| {
        let mut root = root;
        for _ in 0..10 {
            let tx = tx.clone();
            let (back, outcome) =
                root.spawn_sibling(opts(), l, move |child: Proxy, _l: &mut EventLog| {
                    tx.send(()).unwrap();
                    child
                });
            assert_eq!(outcome, Ok(()));
            root = back;
        }
        let mut received = 0;
        while received < 10 {
            match rx.try_recv() {
                Ok(()) => received += 1,
                Err(_) => root = root.deschedule(1, l, |_task: BlockedTask| Ok(())),
            }
        }
        root
    });
    assert_eq!(count(&trace, "spawn"), 11);
    assert_eq!(count(&trace, "death"), 11);
    let root_id = trace[0].task_id;
    assert_eq!(trace[0].desc, "spawn");
    assert_eq!(trace[0].creator, 0);
    let last = &trace[trace.len() - 1];
    assert_eq!(last.desc, "death");
    assert_eq!(last.task_id, root_id);
    let last_of_root = trace.iter().rposition(|m| m.task_id == root_id).unwrap();
    assert_eq!(last_of_root, trace.len() - 1);
    for m in trace.iter().filter(|m| m.desc == "spawn" && m.task_id != root_id) {
        assert_eq!(m.creator, root_id);
    }
}

/// Runs a ring of `k` tasks that exchange `m` tokens each. Every task has a
/// proxy of its own; a task that finds its port empty deschedules, and the
/// tokens sent in one pass over the ring are delivered at its end.
fn ring(k: usize, m: usize) -> Vec<Message> {
    let (trace, _rt) = instrument(Coop::new(Some(1), 64), move |root: Proxy, l: &mut EventLog| {
        let me = root.task_id();
        let mut proxies: Vec<Option<Proxy>> = vec![Some(root)];
        for i in 1..k {
            proxies.push(Some(install(Coop::new(Some(i + 1), 64), l, me)));
        }
        let mut tasks: Vec<RingTask> = (0..k).map(|i| RingTask::new(i, m)).collect();
        let mut chans: Vec<Pipe> = (0..k).map(|_| init()).collect();
        let mut ports: Vec<Pipe> = (0..k).map(|_| init()).collect();
        let mut finished = vec![false; k];
        while finished.iter().any(|done| !done) {
            for i in 0..k {
                if finished[i] {
                    continue;
                }
                if thread_ring(&mut tasks[i], &mut chans[i], &mut ports[i]) {
                    finished[i] = true;
                    if i != 0 {
                        let (_rt, _detached) = uninstall(proxies[i].take().unwrap(), l);
                    }
                } else {
                    let proxy = proxies[i].take().unwrap();
                    proxies[i] = Some(proxy.deschedule(1, l, |_task: BlockedTask| Ok(())));
                }
            }
            // task i sends to the task before it in the ring; task 0 to the last
            for i in 0..k {
                let to = if i == 0 { k - 1 } else { i - 1 };
                let mut sent = Vec::new();
                while let Some(token) = recv(&mut chans[i]) {
                    sent.push(token);
                }
                for token in sent.into_iter().rev() {
                    send(&mut ports[to], token);
                }
            }
        }
        proxies[0].take().unwrap()
    });
    trace
}

#[test]
fn ring_tasks_bracket_every_exchange() {
    for (k, m) in [(1usize, 0usize), (1, 5), (2, 3), (4, 0), (4, 6), (10, 100)] {
        let trace = ring(k, m);
        assert_eq!(count(&trace, "spawn"), k);
        assert_eq!(count(&trace, "death"), k);
        let mut tasks: Vec<usize> = trace.iter().map(|e| e.task_id).collect();
        tasks.sort();
        tasks.dedup();
        assert_eq!(tasks.len(), k);
        for task in tasks {
            let switches = trace
                .iter()
                .filter(|e| {
                    e.task_id == task
                        && (e.desc == "yield"
                            || e.desc == "done-yield"
                            || e.desc == "maybe-yield"
                            || e.desc == "deschedule"
                            || e.desc == "wakeup")
                })
                .count();
            assert!(switches >= 2 * m);
            assert_eq!(switches, 2 * m);
        }
        assert_eq!(trace[trace.len() - 1].desc, "death");
        assert_eq!(trace[trace.len() - 1].task_id, 1);
    }
}
