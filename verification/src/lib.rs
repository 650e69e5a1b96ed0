//! HORD: HTTP carried over RDMA, as verified state machines and codecs.
//!
//! The crate holds everything a HORD endpoint decides or computes. It performs
//! no I/O: an operation that has to reach the NIC is split into a *plan* (which
//! work requests to post, in order) and a *commit* (what the state becomes, given
//! how many of them the queue pair accepted).

pub mod acceptor;
pub mod client;
pub mod cm;
pub mod config;
pub mod envelope;
pub mod gather;
pub mod handshake;
pub mod http;
pub mod pattern;
pub mod pool;
pub mod range;
pub mod reactor;
pub mod server;
pub mod stream;
pub mod text;
pub mod transfer;
pub mod verbs;
pub mod wire;
pub mod wr_id;
pub mod zerocopy;
