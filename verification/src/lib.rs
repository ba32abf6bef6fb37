//! Building blocks for a peer-to-peer overlay node: configuration records
//! with builder-style setters, node and peer address models, the wire
//! header of overlay packets, the length-prefixed TCP stream framing,
//! the route table with its forwarding decision, and the pure parts of
//! DNS-based peer discovery.

pub mod codec;
pub mod config;
pub mod dns;
pub mod node;
pub mod packet;
pub mod route;
