//! Port forwarding (not implemented yet).
use vstd::prelude::*;
use crate::unsupported::Unsupported;

verus! {

pub struct PortForwardStub;

impl PortForwardStub {
    /// Forwards `local_port` to `remote_addr`; refused, forwarding is not implemented.
    pub fn setup_forwarding(_local_port: u16, _remote_addr: &str) -> (r: Result<(), Unsupported>)
        ensures
            r == Err::<(), Unsupported>(Unsupported::PortForwarding),
    {
        Err(Unsupported::PortForwarding)
    }
}

} // verus!
