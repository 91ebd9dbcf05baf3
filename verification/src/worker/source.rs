//! Receives datagrams through a bound UDP socket or an AF_PACKET capture
//! socket.

pub mod batch;
pub mod bpf;
pub mod normal;
pub mod silent;
pub mod wire;
