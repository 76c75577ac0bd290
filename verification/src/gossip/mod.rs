//! Peer-to-peer transport and gossip: node identity, wire framing,
//! compression, address resolution and the membership runtime.

pub mod codec;
pub mod compression;
pub mod ident;
pub mod pool;
pub mod resolver;
pub mod runtime;
pub mod table;
pub mod transport;
pub mod wire;

pub use ident::ID;
pub use transport::Certificates;
