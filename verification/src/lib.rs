//! Coordination layer for a fleet of independent workers.
//!
//! * [`gossip`] is the peer-to-peer core: node identity and certificates,
//!   framing and compression on the wire, address resolution, and the
//!   runtime that keeps the membership view and floods messages. It does no
//!   I/O: whoever drives it hands in what happened and when, and carries out
//!   what it returns.
//! * [`models`] holds what the models of the entity collection decide.
//! * [`rpc`] holds the errors that the request API reports to its clients.
//! * [`server`] holds what the request handlers decide.
//! * [`uuid`] holds the identifiers of entities, users, tasks and messages.

pub mod gossip;
pub mod models;
pub mod rpc;
pub mod server;
pub mod uuid;
