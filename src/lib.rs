//! Decentralised membership and best-effort message relay for peer-to-peer agents.
//!
//! The library holds the logic of an agent: the wire codec, the peer directory,
//! the inbox, the decisions of the listener and of the prober, and the agent
//! facade. Sockets and threads are left to the program that runs the agent.

/// The wire format of the messages exchanged between agents.
pub mod codec;

/// The set of peers an agent knows about.
pub mod directory;

/// The received application messages.
pub mod inbox;

/// What the listener does with one inbound request.
pub mod listener;

/// The decisions of one probe round.
pub mod prober;

/// The basic agent implementation.
pub mod agent;

/// The builder for the agent.
pub mod builder;
