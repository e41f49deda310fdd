//! A peer-to-peer cache whose nodes share a signed, block-chained log of
//! cache operations.
//!
//! The crate holds the wire codec, the Merkle and block builder, the node
//! engine and the client exchange. Sockets, clocks and the process entry
//! point live with the caller, which hands the engine plain values and
//! carries out the datagrams it asks for.
//!
//! - `wire`, `transaction`, `block`, `protocol`: the binary layouts.
//! - `crypto`: SHA-256, Ed25519 and random bytes.
//! - `cache`: the blob store of a node.
//! - `keyed`: sequences used as maps.
//! - `model`: what a node is and does, as mathematics.
//! - `node`: the engine that does it.
//! - `laws`: what follows for every node.
//! - `client`: the client's side of a request.
//! - `web`, `utils`: what the dashboard's server computes.

pub mod block;
pub mod cache;
pub mod client;
pub mod crypto;
pub mod keyed;
pub mod laws;
pub mod model;
pub mod node;
pub mod protocol;
pub mod transaction;
pub mod utils;
pub mod web;
pub mod wire;
