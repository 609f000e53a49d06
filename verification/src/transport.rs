//! How one message reaches many destinations.

use vstd::prelude::*;

use crate::addr::Addr;
use crate::error::Error;

verus! {

/// A message on its way to one destination.
#[derive(Debug)]
pub struct SendTo<M> {
    pub destination: Addr,
    pub message: M,
}

/// A message on its way to several destinations, one after the other.
#[derive(Debug)]
pub struct SendToAll<M> {
    pub destinations: Vec<Addr>,
    pub message: M,
    pub sent: usize,
}

impl<M> SendToAll<M> {
    /// The destinations that have been handed out are a part of all.
    pub open spec fn wf(&self) -> bool {
        self.sent <= self.destinations@.len()
    }

    pub fn new(destinations: Vec<Addr>, message: M) -> (r: Self)
        ensures
            r.wf(),
            r.destinations == destinations,
            r.message == message,
            r.sent == 0,
    {
        SendToAll { destinations, message, sent: 0 }
    }

    /// The next destination that the message is to be sent to from `local`, if
    /// there is one left. It is an error if that is `local` itself.
    pub fn next(&mut self, local: &Addr) -> (r: Result<Option<Addr>, Error>)
        requires
            old(self).wf(),
        ensures
            final(self).wf(),
            final(self).destinations == old(self).destinations,
            final(self).message == old(self).message,
            match r {
                Ok(Some(addr)) => {
                    &&& old(self).sent < old(self).destinations@.len()
                    &&& addr@ == old(self).destinations@[old(self).sent as int]@
                    &&& addr@ != local@
                    &&& final(self).sent == old(self).sent + 1
                },
                Ok(None) => {
                    &&& old(self).sent == old(self).destinations@.len()
                    &&& final(self).sent == old(self).sent
                },
                Err(e) => {
                    &&& e == Error::Loopback
                    &&& old(self).sent < old(self).destinations@.len()
                    &&& old(self).destinations@[old(self).sent as int]@ == local@
                    &&& final(self).sent == old(self).sent
                },
            },
    {
        if self.sent == self.destinations.len() {
            return Ok(None);
        }
        if self.destinations[self.sent] == *local {
            return Err(Error::Loopback);
        }
        let addr = self.destinations[self.sent].clone();
        self.sent += 1;
        Ok(Some(addr))
    }
}

} // verus!
