//! QUIC transport (not implemented yet).
use vstd::prelude::*;
use crate::unsupported::Unsupported;

verus! {

pub struct QuicTransportStub;

impl QuicTransportStub {
    pub fn new() -> (t: Self) {
        QuicTransportStub
    }

    /// Connects to `addr`; refused, QUIC is not implemented.
    pub fn connect(&self, _addr: &str) -> (r: Result<(), Unsupported>)
        ensures
            r == Err::<(), Unsupported>(Unsupported::Quic),
    {
        Err(Unsupported::Quic)
    }
}

impl Default for QuicTransportStub {
    fn default() -> (t: Self) {
        Self::new()
    }
}

} // verus!
