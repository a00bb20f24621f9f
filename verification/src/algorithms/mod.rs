pub mod dht;
pub mod gossip;
pub mod raft;
pub mod swim;
pub mod twopc;
pub mod vector_clock;
pub mod crdt;
