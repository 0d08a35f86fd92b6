//! Verified core of a node that follows Uniswap V3-style pools on an EVM network:
//! calldata decoding, storage row encoding, the peer table and its receipt
//! fetching policy.

pub mod text;
pub mod primitives;
pub mod db;
pub mod pool;
pub mod config;
pub mod error;
pub mod network;
pub mod node;
