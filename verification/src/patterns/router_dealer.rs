//! Router/dealer messaging (not implemented yet).
use vstd::prelude::*;
use crate::unsupported::Unsupported;

verus! {

pub struct Router;

impl Router {
    /// Routes `message` to `target`; refused, routing is not implemented.
    pub fn route_message(&self, _target: &str, _message: &[u8]) -> (r: Result<(), Unsupported>)
        ensures
            r == Err::<(), Unsupported>(Unsupported::RouterRoute),
    {
        Err(Unsupported::RouterRoute)
    }
}

pub struct Dealer;

impl Dealer {
    /// Receives a message and its reply address; refused, dealing is not implemented.
    pub fn receive_and_reply(&self) -> (r: Result<(Vec<u8>, String), Unsupported>)
        ensures
            r == Err::<(Vec<u8>, String), Unsupported>(Unsupported::DealerReceive),
    {
        Err(Unsupported::DealerReceive)
    }
}

} // verus!
