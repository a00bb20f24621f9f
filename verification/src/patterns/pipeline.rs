//! Push/pull work distribution (not implemented yet).
use vstd::prelude::*;
use crate::unsupported::Unsupported;

verus! {

pub struct PipelinePushClient;

impl PipelinePushClient {
    /// Hands `work` to a worker; refused, the pipeline is not implemented.
    pub fn push(&self, _work: &[u8]) -> (r: Result<(), Unsupported>)
        ensures
            r == Err::<(), Unsupported>(Unsupported::PipelinePush),
    {
        Err(Unsupported::PipelinePush)
    }
}

pub struct PipelinePullWorker;

impl PipelinePullWorker {
    /// Takes the next piece of work; refused, the pipeline is not implemented.
    pub fn pull(&self) -> (r: Result<Vec<u8>, Unsupported>)
        ensures
            r == Err::<Vec<u8>, Unsupported>(Unsupported::PipelinePull),
    {
        Err(Unsupported::PipelinePull)
    }
}

} // verus!
