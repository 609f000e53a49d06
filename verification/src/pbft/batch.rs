//! How a primary gathers requests into one proposal.

use vstd::prelude::*;

use crate::pbft::Request;

verus! {

/// The most requests of a batch.
pub const MAX_BATCH: usize = 100;

/// Requests that will be proposed together, in the order in which they came.
/// There is always at least one.
#[derive(Debug)]
pub struct BatchSession {
    pub requests: Vec<Request>,
}

impl BatchSession {
    pub open spec fn wf(&self) -> bool {
        1 <= self.requests@.len() <= MAX_BATCH
    }

    /// A batch begins with its first request.
    pub fn start(request: Request) -> (r: Self)
        ensures
            r.wf(),
            r.requests@ == seq![request],
    {
        let mut requests: Vec<Request> = Vec::new();
        requests.push(request);
        assert(requests@ =~= seq![request]);
        BatchSession { requests }
    }

    /// Whether there is room for another request.
    pub fn accepts(&self) -> (r: bool)
        ensures
            r <==> self.requests@.len() < MAX_BATCH,
    {
        self.requests.len() < MAX_BATCH
    }

    /// Adds a request at the end.
    pub fn push(&mut self, request: Request)
        requires
            old(self).wf(),
            old(self).requests@.len() < MAX_BATCH,
        ensures
            final(self).wf(),
            final(self).requests@ == old(self).requests@.push(request),
    {
        self.requests.push(request);
    }

    /// Closes the batch, as soon as there is a permit to propose it.
    pub fn close(self) -> (r: Vec<Request>)
        requires
            self.wf(),
        ensures
            r@ == self.requests@,
    {
        self.requests
    }
}

/// How many waiting requests still fit in a batch that has its first one.
pub open spec fn num_filled(waiting: Seq<Request>) -> int {
    if waiting.len() < MAX_BATCH {
        waiting.len() as int
    } else {
        MAX_BATCH - 1
    }
}

/// Gathers a batch from its first request and those that wait behind it, as many
/// as fit. The rest goes on waiting.
pub fn fill(first: Request, waiting: &mut Vec<Request>) -> (r: Vec<Request>)
    ensures
        r@ == seq![first] + old(waiting)@.take(num_filled(old(waiting)@)),
        final(waiting)@ == old(waiting)@.skip(num_filled(old(waiting)@)),
{
    let ghost all = waiting@;
    let mut batch = BatchSession::start(first);
    let ghost mut k: int = 0;
    while batch.accepts() && waiting.len() > 0
        invariant
            batch.wf(),
            0 <= k <= all.len(),
            batch.requests@ == seq![first] + all.take(k),
            waiting@ == all.skip(k),
        decreases waiting@.len(),
    {
        batch.push(waiting.remove(0));
        proof {
            assert(all.take(k + 1) =~= all.take(k).push(all[k]));
            k = k + 1;
        }
    }
    batch.close()
}

/// No request is lost or overtaken when a batch is filled: the batch and what goes
/// on waiting are, one behind the other, what was there before.
pub proof fn law_fill_keeps_order(
    first: Request,
    waiting: Seq<Request>,
    batch: Seq<Request>,
    left: Seq<Request>,
)
    requires
        batch == seq![first] + waiting.take(num_filled(waiting)),
        left == waiting.skip(num_filled(waiting)),
    ensures
        batch + left == seq![first] + waiting,
        1 <= batch.len() <= MAX_BATCH,
        left.len() > 0 ==> batch.len() == MAX_BATCH,
{
    assert(batch + left =~= seq![first] + waiting);
}

} // verus!
