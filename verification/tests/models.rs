use v3_node::db::models::{
    i128_to_str, u128_to_hex, u256_to_hex, LiquidityChangeKind, LiquidityChangeRow, SwapRow,
};
use v3_node::primitives::{Address, B256, U256};

fn address(fill: u8) -> Address {
    let mut bytes = [fill; 20];
    bytes[0] = 0x0a;
    Address { bytes }
}

#[test]
fn u128_hex_has_prefix_and_no_leading_zeros() {
    assert_eq!(u128_to_hex(0), "0x0");
    assert_eq!(u128_to_hex(255), "0xff");
    assert_eq!(u128_to_hex(0x1000), "0x1000");
    assert_eq!(u128_to_hex(u128::MAX), format!("0x{:x}", u128::MAX));
}

#[test]
fn u128_hex_reads_back() {
    for v in [0u128, 1, 15, 16, 4096, 123_456_789, u128::MAX / 3, u128::MAX] {
        let text = u128_to_hex(v);
        assert_eq!(u128::from_str_radix(&text[2..], 16).unwrap(), v);
    }
}

#[test]
fn u256_hex_of_small_and_wide_values() {
    assert_eq!(u256_to_hex(U256 { limbs: [0, 0, 0, 0] }), "0x0");
    assert_eq!(u256_to_hex(U256 { limbs: [0xabc, 0, 0, 0] }), "0xabc");
    assert_eq!(u256_to_hex(U256 { limbs: [0, 1, 0, 0] }), "0x10000000000000000");
    assert_eq!(
        u256_to_hex(U256 { limbs: [5, 0, 1, 0] }),
        "0x100000000000000000000000000000005"
    );
    assert_eq!(u256_to_hex(U256 { limbs: [u64::MAX; 4] }), format!("0x{}", "f".repeat(64)));
    assert_eq!(
        u256_to_hex(U256 { limbs: [0, 0, 0, 0x1234] }),
        format!("0x1234{}", "0".repeat(48))
    );
}

#[test]
fn u256_hex_agrees_with_u128_below_2_pow_128() {
    let v: u128 = 0xdead_beef_0000_0001_0000_0000_0000_0042;
    let limbs = [v as u64, (v >> 64) as u64, 0, 0];
    assert_eq!(u256_to_hex(U256 { limbs }), u128_to_hex(v));
}

#[test]
fn i128_decimal_keeps_the_sign() {
    assert_eq!(i128_to_str(0), "0");
    assert_eq!(i128_to_str(42), "42");
    assert_eq!(i128_to_str(-42), "-42");
    assert_eq!(i128_to_str(i128::MAX), i128::MAX.to_string());
    assert_eq!(i128_to_str(i128::MIN), "-170141183460469231731687303715884105728");
}

#[test]
fn i128_decimal_reads_back() {
    for v in [0i128, -1, 1, -9, 10, -1_000_000_007, i128::MIN, i128::MAX] {
        assert_eq!(i128_to_str(v).parse::<i128>().unwrap(), v);
    }
}

#[test]
fn different_amounts_have_different_texts() {
    assert_ne!(i128_to_str(5), i128_to_str(-5));
    assert_ne!(u128_to_hex(16), u128_to_hex(1));
}

#[test]
fn kind_text_round_trips() {
    for kind in [LiquidityChangeKind::Mint, LiquidityChangeKind::Burn] {
        assert_eq!(LiquidityChangeKind::from_str(kind.as_str()), Some(kind));
    }
    assert_eq!(LiquidityChangeKind::Mint.as_str(), "mint");
    assert_eq!(LiquidityChangeKind::Burn.as_str(), "burn");
}

#[test]
fn kind_from_unknown_text_is_none() {
    assert_eq!(LiquidityChangeKind::from_str("Mint"), None);
    assert_eq!(LiquidityChangeKind::from_str(""), None);
    assert_eq!(LiquidityChangeKind::from_str("mint "), None);
    assert_eq!(LiquidityChangeKind::from_str("collect"), None);
}

#[test]
fn kind_signs() {
    assert_eq!(LiquidityChangeKind::Mint.sign(), 1);
    assert_eq!(LiquidityChangeKind::Burn.sign(), -1);
}

#[test]
fn swap_row_encodes_every_field() {
    let mut hash = [0u8; 32];
    hash[31] = 0x01;
    hash[0] = 0xff;
    let row = SwapRow::new(
        address(0x11),
        18_000_000,
        1_700_000_000,
        B256 { bytes: hash },
        7,
        address(0x22),
        address(0x33),
        -1_000,
        2_500,
        U256 { limbs: [0, 0, 1, 0] },
        0xffff,
        -201_000,
    );
    assert_eq!(row.pool_address, format!("0x0a{}", "11".repeat(19)));
    assert_eq!(row.block_number, 18_000_000);
    assert_eq!(row.block_timestamp, 1_700_000_000);
    assert_eq!(row.tx_hash, format!("0xff{}01", "00".repeat(30)));
    assert_eq!(row.log_index, 7);
    assert_eq!(row.sender, format!("0x0a{}", "22".repeat(19)));
    assert_eq!(row.recipient, format!("0x0a{}", "33".repeat(19)));
    assert_eq!(row.amount0, "-1000");
    assert_eq!(row.amount1, "2500");
    assert_eq!(row.sqrt_price_x96, format!("0x1{}", "0".repeat(32)));
    assert_eq!(row.liquidity, "0xffff");
    assert_eq!(row.tick, -201_000);
}

#[test]
fn swap_row_wraps_huge_block_numbers_like_a_cast() {
    let row = SwapRow::new(
        address(1),
        u64::MAX,
        u64::MAX,
        B256 { bytes: [0; 32] },
        u32::MAX,
        address(2),
        address(3),
        0,
        0,
        U256 { limbs: [0; 4] },
        0,
        0,
    );
    assert_eq!(row.block_number, -1);
    assert_eq!(row.block_timestamp, -1);
    assert_eq!(row.log_index, -1);
}

#[test]
fn liquidity_change_rows_for_mint_and_burn() {
    let mint = LiquidityChangeRow::new(
        LiquidityChangeKind::Mint,
        address(0x44),
        100,
        200,
        B256 { bytes: [0xab; 32] },
        3,
        address(0x55),
        Some(address(0x66)),
        -60,
        60,
        1_000_000,
        15,
        0,
    );
    assert_eq!(mint.event_type, "mint");
    assert_eq!(mint.pool_address, format!("0x0a{}", "44".repeat(19)));
    assert_eq!(mint.block_number, 100);
    assert_eq!(mint.block_timestamp, 200);
    assert_eq!(mint.tx_hash, format!("0x{}", "ab".repeat(32)));
    assert_eq!(mint.log_index, 3);
    assert_eq!(mint.owner, format!("0x0a{}", "55".repeat(19)));
    assert_eq!(mint.sender, Some(format!("0x0a{}", "66".repeat(19))));
    assert_eq!(mint.tick_lower, -60);
    assert_eq!(mint.tick_upper, 60);
    assert_eq!(mint.amount, "0xf4240");
    assert_eq!(mint.amount0, "0xf");
    assert_eq!(mint.amount1, "0x0");

    let burn = LiquidityChangeRow::new(
        LiquidityChangeKind::Burn,
        address(0x44),
        101,
        201,
        B256 { bytes: [0; 32] },
        0,
        address(0x55),
        None,
        -60,
        60,
        1,
        u128::MAX,
        2,
    );
    assert_eq!(burn.event_type, "burn");
    assert_eq!(burn.sender, None);
    assert_eq!(burn.amount0, format!("0x{}", "f".repeat(32)));
    assert_eq!(LiquidityChangeKind::from_str(&burn.event_type), Some(LiquidityChangeKind::Burn));
}
