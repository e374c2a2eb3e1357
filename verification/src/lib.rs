//! A DNS message engine: wire codec, record store, answer cache, resolution
//! and datagram dispatch, with machine-checked contracts.

pub mod error;
pub mod name;
pub mod message;
pub mod wire;
pub mod decode;
pub mod encode;
pub mod codec_proofs;
pub mod store;
pub mod cache;
pub mod cache_proofs;
pub mod resolver;
pub mod config;
pub mod dns_server;
pub mod dispatch_proofs;
