//! The decisions of a UDP forwarder: what a captured packet carries, which
//! datagrams are accepted, how a batch fans out to every destination, and how
//! the outcome of each system call moves the work on.
//!
//! Sockets and system calls stay with the program around this library. It
//! hands in plain values and carries out what the functions here return.

pub mod addr;
pub mod cli;
pub mod socket;
pub mod supervisor;
pub mod worker;
