//! Legacy mTLS pairing (not implemented).
//!
//! Authenticated pairing is provided by the post-quantum channel (`pqc`):
//! a one-time secret authenticates an exchange of pinned verifying keys.
//! These entry points refuse instead of handing out placeholder material.
use vstd::prelude::*;
use crate::unsupported::Unsupported;

verus! {

pub struct PairingManager;

impl PairingManager {
    /// mTLS pairing of `node_name`; refused, not implemented.
    pub fn mtls_pairing_procedure(_node_name: &str) -> (r: Result<(String, String), Unsupported>)
        ensures
            r == Err::<(String, String), Unsupported>(Unsupported::MtlsPairing),
    {
        Err(Unsupported::MtlsPairing)
    }

    /// Signing of a certificate request; refused, no CA is wired up.
    pub fn verify_and_sign_csr(_csr: &str) -> (r: Result<String, Unsupported>)
        ensures
            r == Err::<String, Unsupported>(Unsupported::CsrSigning),
    {
        Err(Unsupported::CsrSigning)
    }

    /// Cluster pairing of `node_name`; refused, not implemented.
    pub fn cluster_pairing_procedure(_node_name: &str) -> (r: Result<(), Unsupported>)
        ensures
            r == Err::<(), Unsupported>(Unsupported::ClusterPairing),
    {
        Err(Unsupported::ClusterPairing)
    }
}

} // verus!
