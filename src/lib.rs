//! Client request dispatch for a Paxos-style cluster: a client learns the
//! current leader from ballot notifications, buffers payloads while no
//! leader is known, and forwards each payload to the believed leader in the
//! first round in which one is known.
pub mod ballot;
pub mod buffer;
pub mod client;
pub mod tracker;
