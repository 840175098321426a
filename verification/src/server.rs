//! A counting server: the work of a pool of producers on one shared channel.

use vstd::prelude::*;

verus! {

/// What a client asks of the server.
pub enum Request {
    /// Asks for the number of bytes counted so far.
    GetCount,
    /// Reports that so many bytes were sent.
    Bytes(usize),
    /// Announces that no byte will follow. The server takes no notice: it
    /// goes on until its channel is closed.
    Stop,
}

/// The bytes reported by `requests`, added up as `usize` adds, wrapping.
pub open spec fn counted(requests: Seq<Request>) -> usize
    decreases requests.len(),
{
    if requests.len() == 0 {
        0
    } else {
        let before = counted(requests.drop_last());
        match requests.last() {
            Request::Bytes(b) => before.wrapping_add(b),
            _ => before,
        }
    }
}

/// The answers to the `GetCount` requests among `requests`, in order: each
/// is the count of the bytes reported before it.
pub open spec fn replies(requests: Seq<Request>) -> Seq<usize>
    decreases requests.len(),
{
    if requests.len() == 0 {
        Seq::empty()
    } else {
        let before = replies(requests.drop_last());
        match requests.last() {
            Request::GetCount => before.push(counted(requests.drop_last())),
            _ => before,
        }
    }
}

/// Takes a value and lets it go.
pub fn move_out<T>(_x: T) {
}

/// Serves the requests that came in before the channel was closed: counts
/// the bytes reported, answers every `GetCount` with the count so far, and
/// at the end sends the final count. The answers are added to `responses`
/// in the order in which they are sent.
pub fn server(requests: &Vec<Request>, responses: &mut Vec<usize>)
    ensures
        final(responses)@ == old(responses)@ + replies(requests@).push(counted(requests@)),
{
    let mut count: usize = 0;
    let mut next: usize = 0;
    while next < requests.len()
        invariant
            next <= requests.len(),
            count == counted(requests@.take(next as int)),
            responses@ == old(responses)@ + replies(requests@.take(next as int)),
        decreases requests.len() - next,
    {
        proof {
            assert(requests@.take(next + 1).drop_last() =~= requests@.take(next as int));
        }
        match requests[next] {
            Request::GetCount => {
                responses.push(count);
            },
            Request::Bytes(b) => {
                count = count.wrapping_add(b);
            },
            Request::Stop => {},
        }
        next = next + 1;
    }
    proof {
        assert(requests@.take(next as int) =~= requests@);
    }
    responses.push(count);
}

} // verus!
