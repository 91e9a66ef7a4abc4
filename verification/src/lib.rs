//! Core of a decentralized chat overlay.
//!
//! Peers locate each other through a distributed routing table, exchange
//! authenticated traffic, and disseminate chat messages over a topic-based
//! gossip mesh. This crate holds the overlay's logic — the wire codec, the
//! peer registry, the event-loop state machine, the command bridge and the
//! identity rules — each function with a verified contract. The asynchronous
//! transport around it hands this core plain values and performs the actions
//! it decides.

pub mod types;
pub mod codec;
pub mod registry;
pub mod topics;
pub mod digest;
pub mod engine;
pub mod bridge;
pub mod laws;
pub mod input;
pub mod identity;
pub mod bootstrap;

use vstd::prelude::*;

verus! {

/// Initialize the chat core library.
pub fn init() -> (r: Result<(), ()>)
    ensures
        r is Ok,
{
    Ok(())
}

} // verus!
