//! Features that the library names but does not provide yet.
use vstd::prelude::*;

verus! {

/// A feature that is not implemented; every entry point for it refuses.
#[derive(Debug, Clone, Copy, PartialEq, Eq, Structural)]
pub enum Unsupported {
    PipelinePush,
    PipelinePull,
    RouterRoute,
    DealerReceive,
    MtlsPairing,
    CsrSigning,
    ClusterPairing,
    StdinSecret,
    PortForwarding,
    Quic,
    ClusterTransport,
}

/// The text of a refusal.
pub open spec fn unsupported_text(u: Unsupported) -> Seq<char> {
    match u {
        Unsupported::PipelinePush => "Not implemented"@,
        Unsupported::PipelinePull => "Not implemented"@,
        Unsupported::RouterRoute => "Not implemented"@,
        Unsupported::DealerReceive => "Not implemented"@,
        Unsupported::MtlsPairing => "mTLS pairing is not implemented; use security::pqc for authenticated pairing"@,
        Unsupported::CsrSigning => "CSR signing is not implemented; no CA is wired up"@,
        Unsupported::ClusterPairing => "cluster pairing is not implemented; use security::pqc for authenticated pairing"@,
        Unsupported::StdinSecret => "Reading json secret from stdin not implemented"@,
        Unsupported::PortForwarding => "Port forwarding not yet implemented"@,
        Unsupported::Quic => "QUIC not yet implemented"@,
        Unsupported::ClusterTransport => "ClusterTransportBuilder::build is not implemented: mTLS cluster transport (cert parsing, CA trust root, client-auth verifier) is not yet wired up"@,
    }
}

impl Unsupported {
    /// The refusal as text.
    pub fn to_string(&self) -> (s: String)
        ensures
            s@ == unsupported_text(*self),
    {
        match self {
            Unsupported::PipelinePush => "Not implemented".to_owned(),
            Unsupported::PipelinePull => "Not implemented".to_owned(),
            Unsupported::RouterRoute => "Not implemented".to_owned(),
            Unsupported::DealerReceive => "Not implemented".to_owned(),
            Unsupported::MtlsPairing => "mTLS pairing is not implemented; use security::pqc for authenticated pairing".to_owned(),
            Unsupported::CsrSigning => "CSR signing is not implemented; no CA is wired up".to_owned(),
            Unsupported::ClusterPairing => "cluster pairing is not implemented; use security::pqc for authenticated pairing".to_owned(),
            Unsupported::StdinSecret => "Reading json secret from stdin not implemented".to_owned(),
            Unsupported::PortForwarding => "Port forwarding not yet implemented".to_owned(),
            Unsupported::Quic => "QUIC not yet implemented".to_owned(),
            Unsupported::ClusterTransport => "ClusterTransportBuilder::build is not implemented: mTLS cluster transport (cert parsing, CA trust root, client-auth verifier) is not yet wired up".to_owned(),
        }
    }
}

} // verus!
