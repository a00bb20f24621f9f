//! The plain TCP transport.
use vstd::prelude::*;

verus! {

/// Plain TCP: each message travels over one TCP stream, framed as
/// [`crate::transport::framing`] describes. The socket work itself is done by
/// the asynchronous runtime around this library.
pub struct TcpTransport;

} // verus!
