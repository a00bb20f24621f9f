pub mod cluster;
pub mod framing;
pub mod i2p;
pub mod port_forward;
pub mod quic;
pub mod tcp;
