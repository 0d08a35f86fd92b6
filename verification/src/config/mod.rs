//! The pools that the node watches, as read from its configuration file.

use vstd::prelude::*;

verus! {

/// One token of a pool.
#[derive(Debug, Clone)]
pub struct TokenConfig {
    pub decimals: u8,
    pub address: String,
    pub symbol: String,
}

/// A watched pool: its address, tokens, router, exchange and the block in
/// which it was created.
#[derive(Debug, Clone)]
pub struct PoolConfig {
    pub fee_tier: u32,
    pub address: String,
    pub token0: TokenConfig,
    pub token1: TokenConfig,
    pub router: String,
    pub exchange: String,
    pub creation_block: u64,
}

} // verus!
