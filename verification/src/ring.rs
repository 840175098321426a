//! A ring of tasks that pass tokens through pipes.

use vstd::prelude::*;

verus! {

/// A poor man's pipe: tokens are put on top and taken from the top.
pub struct Pipe {
    tokens: Vec<usize>,
}

impl View for Pipe {
    type V = Seq<usize>;

    closed spec fn view(&self) -> Seq<usize> {
        self.tokens@
    }
}

/// A new, empty pipe.
pub fn init() -> (p: Pipe)
    ensures
        p@ == Seq::<usize>::empty(),
{
    Pipe { tokens: Vec::new() }
}

/// Puts `msg` into the pipe.
pub fn send(p: &mut Pipe, msg: usize)
    ensures
        final(p)@ == old(p)@.push(msg),
{
    p.tokens.push(msg);
}

/// Takes the newest token out of the pipe. An empty pipe gives `None` and
/// stays as it is: the caller has to wait until something is sent.
pub fn recv(p: &mut Pipe) -> (msg: Option<usize>)
    ensures
        old(p)@.len() == 0 ==> msg is None && final(p)@ == old(p)@,
        old(p)@.len() > 0 ==> msg == Some(old(p)@.last()) && final(p)@ == old(p)@.drop_last(),
{
    p.tokens.pop()
}

/// Where one task of the ring stands in its exchange of tokens.
pub struct RingTask {
    /// Number of the task in the ring.
    pub i: usize,
    /// Number of rounds to go through.
    pub count: usize,
    /// Rounds completed so far.
    pub round: usize,
    /// The token of the current round is sent and the answer is awaited.
    pub waiting: bool,
}

impl RingTask {
    /// The state is one that a task of the ring can be in.
    pub open spec fn valid(&self) -> bool {
        self.round <= self.count && (self.waiting ==> self.round < self.count)
    }

    /// Task `i` of a ring, before the first of its `count` rounds.
    pub fn new(i: usize, count: usize) -> (task: RingTask)
        ensures
            task == (RingTask { i, count, round: 0, waiting: false }),
            task.valid(),
    {
        RingTask { i, count, round: 0, waiting: false }
    }
}

/// The token that task `i` sends in round `j`.
pub open spec fn token(i: usize, j: usize) -> usize {
    i.wrapping_mul(j)
}

/// The tokens that task `i` sends in the rounds from `from` up to, not
/// including, `to`.
pub open spec fn tokens(i: usize, from: int, to: int) -> Seq<usize> {
    Seq::new((to - from) as nat, |k: int| token(i, (from + k) as usize))
}

/// The number of rounds that a task completes in one go: those that are
/// left, or as many as there are tokens waiting for it, if that is less.
pub open spec fn rounds_now(task: RingTask, waiting_tokens: nat) -> int {
    if task.count - task.round <= waiting_tokens {
        task.count - task.round
    } else {
        waiting_tokens as int
    }
}

/// A task of the ring never waits in vain: a call of [`thread_ring`] that
/// finds a token in the port completes at least one round, unless none is
/// left; one that finds as many tokens as rounds are left completes them
/// all; and none completes more rounds than are left or than tokens wait.
pub proof fn lemma_ring_progress(task: RingTask, waiting_tokens: nat)
    requires
        task.valid(),
    ensures
        0 <= rounds_now(task, waiting_tokens) <= task.count - task.round,
        rounds_now(task, waiting_tokens) <= waiting_tokens,
        waiting_tokens >= 1 && task.round < task.count ==> rounds_now(task, waiting_tokens) >= 1,
        waiting_tokens >= task.count - task.round ==> task.round + rounds_now(task, waiting_tokens)
            == task.count,
{
}

/// Sends and receives tokens for one task of the ring: in each round it
/// sends the round's token into `num_chan` and takes one token from
/// `num_port`. It goes on until all rounds are done, and answers `true`, or
/// until a round finds `num_port` empty, and answers `false`: the task then
/// has to wait, and the next call takes up the round where it stopped,
/// without sending its token again.
pub fn thread_ring(task: &mut RingTask, num_chan: &mut Pipe, num_port: &mut Pipe) -> (done: bool)
    requires
        old(task).valid(),
    ensures
        final(task).valid(),
        final(task).i == old(task).i,
        final(task).count == old(task).count,
        final(task).round == old(task).round + rounds_now(*old(task), old(num_port)@.len()),
        done == (final(task).round == final(task).count),
        final(task).waiting == !done,
        final(num_port)@ == old(num_port)@.take(
            old(num_port)@.len() - rounds_now(*old(task), old(num_port)@.len()),
        ),
        final(num_chan)@ == old(num_chan)@ + tokens(
            old(task).i,
            old(task).round + if old(task).waiting {
                1int
            } else {
                0int
            },
            final(task).round + if done {
                0int
            } else {
                1int
            },
        ),
{
    let ghost first = old(task).round + if old(task).waiting {
        1int
    } else {
        0int
    };
    proof {
        assert(old(num_chan)@ + tokens(task.i, first, first) =~= old(num_chan)@);
        assert(old(num_port)@.take(old(num_port)@.len() as int) =~= old(num_port)@);
    }
    while task.round < task.count
        invariant
            task.valid(),
            task.i == old(task).i,
            task.count == old(task).count,
            old(task).round <= task.round,
            task.round - old(task).round <= old(num_port)@.len(),
            num_port@ == old(num_port)@.take(
                old(num_port)@.len() - (task.round - old(task).round),
            ),
            task.round > old(task).round ==> !task.waiting,
            task.round == old(task).round ==> task.waiting == old(task).waiting,
            num_chan@ == old(num_chan)@ + tokens(
                task.i,
                first,
                task.round + if task.waiting {
                    1int
                } else {
                    0int
                },
            ),
            first == old(task).round + if old(task).waiting {
                1int
            } else {
                0int
            },
        decreases task.count - task.round,
    {
        if !task.waiting {
            let ghost sent = num_chan@;
            send(num_chan, task.i.wrapping_mul(task.round));
            task.waiting = true;
            proof {
                assert(sent.push(token(task.i, task.round)) =~= old(num_chan)@ + tokens(
                    task.i,
                    first,
                    task.round + 1,
                ));
            }
        }
        let ghost port = num_port@;
        match recv(num_port) {
            Some(_) => {
                proof {
                    assert(port.drop_last() =~= old(num_port)@.take(
                        old(num_port)@.len() - (task.round + 1 - old(task).round),
                    ));
                }
                task.round = task.round + 1;
                task.waiting = false;
            },
            None => {
                return false;
            },
        }
    }
    true
}

} // verus!
