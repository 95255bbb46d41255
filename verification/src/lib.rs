//! Peer-to-peer messaging over unix domain sockets: the decisions a peer
//! takes while it binds a socket, accepts a connection, collects a byte
//! stream, listens for framed messages and hands them to a processor.
//!
//! The socket and actor plumbing lives outside this crate; every decision
//! that plumbing takes on what it reads is made, and proved, here.

pub mod error;
pub mod msg;
pub mod server;
pub mod peer;
pub mod processor;
