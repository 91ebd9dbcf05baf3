//! Sends each input datagram to every configured destination, using the
//! forwarder's address or preserving the original sender.

pub mod batch;
pub mod normal;
pub mod spoof;
