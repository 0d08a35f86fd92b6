use v3_node::config::{PoolConfig, TokenConfig};
use v3_node::db::schema::{migrations, next_migration_step, MigrationStep, MIGRATION_COUNT};
use v3_node::error::AppError;
use v3_node::node::node::{find_watched_pool, inspect_transaction, PoolInteraction};
use v3_node::pool::decoder::{PoolCall, SEL_MINT};
use v3_node::primitives::Address;

fn token(symbol: &str) -> TokenConfig {
    TokenConfig { decimals: 18, address: format!("0x{symbol}"), symbol: symbol.to_string() }
}

fn pool(address: &str) -> PoolConfig {
    PoolConfig {
        fee_tier: 3000,
        address: address.to_string(),
        token0: token("A"),
        token1: token("B"),
        router: "0xrouter".to_string(),
        exchange: "uniswap".to_string(),
        creation_block: 12_370_000,
    }
}

fn vitalik() -> Address {
    let hex = "d8da6bf26964af9d7eed9e03e53415d37aa96045";
    let mut bytes = [0u8; 20];
    for i in 0..20 {
        bytes[i] = u8::from_str_radix(&hex[2 * i..2 * i + 2], 16).unwrap();
    }
    Address { bytes }
}

#[test]
fn first_matching_pool_is_found() {
    let pools = vec![pool("0xaaa"), pool("0xbbb"), pool("0xbbb")];
    assert_eq!(find_watched_pool(&pools, "0xbbb"), Some(1));
    assert_eq!(find_watched_pool(&pools, "0xBBB"), Some(1));
    assert_eq!(find_watched_pool(&pools, "0xccc"), None);
    assert_eq!(find_watched_pool(&[].to_vec(), "0xaaa"), None);
}

#[test]
fn transactions_are_matched_by_recipient_address() {
    let pools = vec![pool("0x1111"), pool("0xd8dA6BF26964aF9D7eEd9e03E53415D37aA96045")];
    let input = SEL_MINT.to_be_bytes();
    assert_eq!(
        inspect_transaction(&pools, Some(vitalik()), &input),
        Some(PoolInteraction { pool: 1, call: Some(PoolCall::Mint) })
    );
    assert_eq!(
        inspect_transaction(&pools, Some(vitalik()), &[1, 2]),
        Some(PoolInteraction { pool: 1, call: None })
    );
}

#[test]
fn pools_match_whatever_the_letter_case() {
    for text in [
        "0xd8da6bf26964af9d7eed9e03e53415d37aa96045",
        "0xD8DA6BF26964AF9D7EED9E03E53415D37AA96045",
        "0XD8dA6BF26964aF9D7eEd9e03E53415D37aA96045",
    ] {
        let pools = vec![pool("0x1111"), pool(text)];
        assert_eq!(
            inspect_transaction(&pools, Some(vitalik()), &[]),
            Some(PoolInteraction { pool: 1, call: None })
        );
    }
}

#[test]
fn other_addresses_do_not_match() {
    let pools = vec![pool("0xd8da6bf26964af9d7eed9e03e53415d37aa96046"), pool("0xd8da")];
    assert_eq!(inspect_transaction(&pools, Some(vitalik()), &[]), None);
}

#[test]
fn transactions_without_recipient_match_nothing() {
    let pools = vec![pool("0xd8dA6BF26964aF9D7eEd9e03E53415D37aA96045")];
    assert_eq!(inspect_transaction(&pools, None, &SEL_MINT.to_be_bytes()), None);
}

#[test]
fn migrations_run_in_order_and_stop_on_failure() {
    let stmts = migrations();
    assert_eq!(stmts.len(), MIGRATION_COUNT);
    assert!(stmts[0].contains("CREATE TABLE IF NOT EXISTS swaps"));
    assert!(stmts[1].contains("idx_swaps_pool_block"));
    assert!(stmts[2].contains("CREATE TABLE IF NOT EXISTS liquidity_changes"));
    assert!(stmts[3].contains("idx_lc_pool_block"));
    assert!(stmts[4].contains("idx_lc_pool_owner_ticks"));
    for s in &stmts {
        assert!(s.contains("IF NOT EXISTS"));
    }
    let mut done = 0;
    let mut order = Vec::new();
    loop {
        match next_migration_step(done, false) {
            MigrationStep::Execute(i) => {
                order.push(i);
                done += 1;
            }
            MigrationStep::Complete => break,
            MigrationStep::Abort => panic!("nothing failed"),
        }
    }
    assert_eq!(order, vec![0, 1, 2, 3, 4]);
    assert_eq!(next_migration_step(2, true), MigrationStep::Abort);
}

#[test]
fn app_error_messages() {
    assert_eq!(AppError::Network("x".into()).message(), "network error: x");
    assert_eq!(AppError::Io("disk".into()).message(), "I/O error: disk");
    assert_eq!(AppError::Config("bad".into()).message(), "config error: bad");
    assert_eq!(AppError::Database("locked".into()).message(), "database error: locked");
    assert_eq!(AppError::Other("plain".into()).message(), "plain");
}
