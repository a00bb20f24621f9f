//! Mutually authenticated (mTLS) cluster transport (not implemented yet).
//!
//! Building must parse the DER node certificate, key and cluster CA, trust
//! only that CA, require client certificates on the server side and present
//! the node's own; until that is wired up, building refuses rather than
//! hand out a transport that authenticates nobody.
use vstd::prelude::*;
use crate::unsupported::Unsupported;

verus! {

pub struct ClusterTransportBuilder;

impl ClusterTransportBuilder {
    /// Builds the cluster transport of type `T`; refused, mTLS is not wired up.
    pub fn build<T>(
        _node_cert_der: Vec<u8>,
        _node_key_der: Vec<u8>,
        _cluster_ca_der: Vec<u8>,
        _domain: String,
    ) -> (r: Result<T, Unsupported>)
        ensures
            r == Err::<T, Unsupported>(Unsupported::ClusterTransport),
    {
        Err(Unsupported::ClusterTransport)
    }
}

} // verus!
