//! Plain structs that map one to one to SQLite rows, and the text encodings
//! of the wide integers they store.
//!
//! `u128` and `U256` values are stored as `0x`-prefixed lower-case
//! hexadecimal; signed `i128` amounts as decimal, so that the sign is kept
//! unambiguously. Addresses and hashes are stored as `0x` followed by two
//! lower-case hexadecimal digits per byte.

use vstd::prelude::*;

use crate::primitives::{prefixed_hex, prefixed_hex_text, Address, B256, U256};
use crate::text::{
    append_dec, append_hex, append_hex_padded, dec_digits, digits_value, hex_digits,
    lemma_dec_digits_shape, lemma_dec_digits_value, lemma_hex_digits_split, lemma_hex_digits_value,
    pow16, push_digit, same_text, signed_dec,
};

verus! {

/// Storage text of an unsigned integer: `0x` and its lower-case hexadecimal digits.
pub open spec fn hex_text(v: nat) -> Seq<char> {
    seq!['0', 'x'] + hex_digits(v)
}

/// The number that a storage text `0x…` stands for.
pub open spec fn read_hex_text(s: Seq<char>) -> int {
    digits_value(s.subrange(2, s.len() as int), 16)
}

/// The number that a signed decimal text stands for.
pub open spec fn read_signed_dec(s: Seq<char>) -> int {
    if s.len() > 0 && s[0] == '-' {
        -digits_value(s.drop_first(), 10)
    } else {
        digits_value(s, 10)
    }
}

/// The hexadecimal storage text of a number reads back as that number, so
/// `u128` and `U256` values survive storage.
pub proof fn law_hex_text_round_trip(v: nat)
    ensures
        read_hex_text(hex_text(v)) == v,
{
    assert(hex_text(v).subrange(2, hex_text(v).len() as int) =~= hex_digits(v));
    lemma_hex_digits_value(v);
}

/// Different numbers have different hexadecimal storage texts.
pub proof fn law_hex_text_injective(a: nat, b: nat)
    requires
        hex_text(a) == hex_text(b),
    ensures
        a == b,
{
    law_hex_text_round_trip(a);
    law_hex_text_round_trip(b);
}

/// The signed decimal storage text of a number reads back as that number,
/// sign included, so `i128` amounts survive storage.
pub proof fn law_signed_dec_round_trip(v: int)
    ensures
        read_signed_dec(signed_dec(v)) == v,
{
    if v < 0 {
        let m = (-v) as nat;
        assert((seq!['-'] + dec_digits(m)).drop_first() =~= dec_digits(m));
        lemma_dec_digits_value(m);
    } else {
        lemma_dec_digits_shape(v as nat);
        assert(48 <= dec_digits(v as nat)[0] as int);
        lemma_dec_digits_value(v as nat);
    }
}

/// Different signed numbers have different decimal storage texts.
pub proof fn law_signed_dec_injective(a: int, b: int)
    requires
        signed_dec(a) == signed_dec(b),
    ensures
        a == b,
{
    law_signed_dec_round_trip(a);
    law_signed_dec_round_trip(b);
}

fn start_hex() -> (s: String)
    ensures
        s@ == seq!['0', 'x'],
{
    let mut s = String::new();
    push_digit(&mut s, 0);
    s.append("x");
    proof {
        reveal_strlit("x");
    }
    s
}

/// Encode a `U256` as a lower-case `0x`-prefixed hex string for storage.
pub fn u256_to_hex(v: U256) -> (r: String)
    ensures
        r@ == hex_text(v.value()),
{
    let high: u128 = (v.limbs[3] as u128) * 0x1_0000_0000_0000_0000u128 + (v.limbs[2] as u128);
    let low: u128 = (v.limbs[1] as u128) * 0x1_0000_0000_0000_0000u128 + (v.limbs[0] as u128);
    let mut s = start_hex();
    proof {
        reveal_with_fuel(pow16, 33);
        assert(pow16(32) == 0x1_0000_0000_0000_0000_0000_0000_0000_0000);
        assert(v.value() == high as nat * pow16(32) + low as nat);
    }
    if high == 0 {
        append_hex(&mut s, low);
    } else {
        append_hex(&mut s, high);
        append_hex_padded(&mut s, low, 32);
        proof {
            lemma_hex_digits_split(high as nat, low as nat, 32);
        }
    }
    s
}

/// Encode an `i128` (signed) as a decimal string for storage.
///
/// Signed amounts can be negative (e.g. `amount0` / `amount1` on a swap), so
/// decimal rather than hex is used to preserve the sign unambiguously.
pub fn i128_to_str(v: i128) -> (r: String)
    ensures
        r@ == signed_dec(v as int),
{
    let mut s = String::new();
    if v < 0 {
        s.append("-");
        proof {
            reveal_strlit("-");
        }
        let magnitude: u128 = ((-(v + 1)) as u128) + 1;
        append_dec(&mut s, magnitude);
    } else {
        append_dec(&mut s, v as u128);
    }
    s
}

/// Encode a `u128` as a lower-case `0x`-prefixed hex string for storage.
pub fn u128_to_hex(v: u128) -> (r: String)
    ensures
        r@ == hex_text(v as nat),
{
    let mut s = start_hex();
    append_hex(&mut s, v);
    s
}

/// One row in the `swaps` table: a single
/// `Swap(address,address,int256,int256,uint160,uint128,int24)` log of a pool.
///
/// `sqrt_price_x96`, `liquidity` and `tick` hold the pool's state after the
/// swap, which fixes the spot price and the active-range liquidity.
#[derive(Debug, Clone)]
pub struct SwapRow {
    /// Address of the pool contract (`0x`-hex, lower case).
    pub pool_address: String,
    /// Block in which the swap was included.
    pub block_number: i64,
    /// Transaction hash (`0x`-hex).
    pub tx_hash: String,
    /// Position of the log within the transaction.
    pub log_index: i32,
    /// Unix timestamp of the block.
    pub block_timestamp: i64,
    /// Address that called `pool.swap()`.
    pub sender: String,
    /// Address that received the output tokens.
    pub recipient: String,
    /// Net change of the pool's token0 reserve (signed decimal).
    pub amount0: String,
    /// Net change of the pool's token1 reserve (signed decimal).
    pub amount1: String,
    /// `sqrtPriceX96` after the swap (`0x`-hex `U256`).
    pub sqrt_price_x96: String,
    /// Active liquidity after the swap (`0x`-hex `u128`).
    pub liquidity: String,
    /// Current tick after the swap.
    pub tick: i32,
}

impl SwapRow {
    /// Builds a [`SwapRow`] from the decoded fields of a swap log.
    #[allow(clippy::too_many_arguments)]
    pub fn new(
        pool: Address,
        block: u64,
        ts: u64,
        tx: B256,
        log_idx: u32,
        sender: Address,
        recipient: Address,
        amount0: i128,
        amount1: i128,
        sqrt_price: U256,
        liquidity: u128,
        tick: i32,
    ) -> (r: SwapRow)
        ensures
            r.pool_address@ == prefixed_hex(pool.bytes@),
            r.block_number == block as i64,
            r.block_timestamp == ts as i64,
            r.tx_hash@ == prefixed_hex(tx.bytes@),
            r.log_index == log_idx as i32,
            r.sender@ == prefixed_hex(sender.bytes@),
            r.recipient@ == prefixed_hex(recipient.bytes@),
            r.amount0@ == signed_dec(amount0 as int),
            r.amount1@ == signed_dec(amount1 as int),
            r.sqrt_price_x96@ == hex_text(sqrt_price.value()),
            r.liquidity@ == hex_text(liquidity as nat),
            r.tick == tick,
    {
        SwapRow {
            pool_address: prefixed_hex_text(&pool.bytes),
            block_number: block as i64,
            block_timestamp: ts as i64,
            tx_hash: prefixed_hex_text(&tx.bytes),
            log_index: log_idx as i32,
            sender: prefixed_hex_text(&sender.bytes),
            recipient: prefixed_hex_text(&recipient.bytes),
            amount0: i128_to_str(amount0),
            amount1: i128_to_str(amount1),
            sqrt_price_x96: u256_to_hex(sqrt_price),
            liquidity: u128_to_hex(liquidity),
            tick,
        }
    }
}

/// Discriminates between `Mint` and `Burn` events in the shared
/// `liquidity_changes` table.
#[derive(Debug, Clone, Copy, PartialEq, Eq, Structural)]
pub enum LiquidityChangeKind {
    /// Liquidity was added (`Mint` event).
    Mint,
    /// Liquidity was removed (`Burn` event).
    Burn,
}

/// The text stored in the `event_type` column for `kind`.
pub open spec fn kind_text(kind: LiquidityChangeKind) -> Seq<char> {
    match kind {
        LiquidityChangeKind::Mint => seq!['m', 'i', 'n', 't'],
        LiquidityChangeKind::Burn => seq!['b', 'u', 'r', 'n'],
    }
}

/// The kind whose `event_type` text is `s`, if any.
pub open spec fn kind_of_text(s: Seq<char>) -> Option<LiquidityChangeKind> {
    if s == kind_text(LiquidityChangeKind::Mint) {
        Some(LiquidityChangeKind::Mint)
    } else if s == kind_text(LiquidityChangeKind::Burn) {
        Some(LiquidityChangeKind::Burn)
    } else {
        None
    }
}

/// The sign with which a change of `kind` enters a liquidity sum.
pub open spec fn kind_sign(kind: LiquidityChangeKind) -> int {
    match kind {
        LiquidityChangeKind::Mint => 1,
        LiquidityChangeKind::Burn => -1,
    }
}

/// Parsing the stored text of a kind gives the kind back.
pub proof fn law_kind_text_round_trip(kind: LiquidityChangeKind)
    ensures
        kind_of_text(kind_text(kind)) == Some(kind),
{
    assert(kind_text(LiquidityChangeKind::Mint) != kind_text(LiquidityChangeKind::Burn)) by {
        assert(kind_text(LiquidityChangeKind::Mint)[0] != kind_text(LiquidityChangeKind::Burn)[0]);
    }
}

/// A text parses to a kind only if it is that kind's stored text.
pub proof fn law_kind_of_text_exact(s: Seq<char>)
    ensures
        kind_of_text(s) matches Some(k) ==> kind_text(k) == s,
{
}

/// Mints count up and burns count down.
pub proof fn law_kind_sign(kind: LiquidityChangeKind)
    ensures
        kind_sign(kind) == 1 <==> kind == LiquidityChangeKind::Mint,
        kind_sign(kind) == -1 <==> kind == LiquidityChangeKind::Burn,
{
}

impl LiquidityChangeKind {
    /// The string stored in the `event_type` column.
    pub fn as_str(self) -> (r: &'static str)
        ensures
            r@ == kind_text(self),
    {
        proof {
            reveal_strlit("mint");
            reveal_strlit("burn");
        }
        match self {
            LiquidityChangeKind::Mint => "mint",
            LiquidityChangeKind::Burn => "burn",
        }
    }

    /// Parse the `event_type` column back into a [`LiquidityChangeKind`].
    pub fn from_str(s: &str) -> (r: Option<LiquidityChangeKind>)
        ensures
            r == kind_of_text(s@),
    {
        proof {
            reveal_strlit("mint");
            reveal_strlit("burn");
            assert("mint"@ =~= kind_text(LiquidityChangeKind::Mint));
            assert("burn"@ =~= kind_text(LiquidityChangeKind::Burn));
        }
        if same_text(s, "mint") {
            Some(LiquidityChangeKind::Mint)
        } else if same_text(s, "burn") {
            Some(LiquidityChangeKind::Burn)
        } else {
            None
        }
    }

    /// Sign to apply when summing liquidity for a tick range:
    /// `+1` for mints, `-1` for burns.
    pub fn sign(self) -> (r: i64)
        ensures
            r == kind_sign(self),
    {
        match self {
            LiquidityChangeKind::Mint => 1,
            LiquidityChangeKind::Burn => -1,
        }
    }
}

/// One row in the `liquidity_changes` table.
///
/// Covers both `Mint(address,address,int24,int24,uint128,uint256,uint256)` and
/// `Burn(address,int24,int24,uint128,uint256,uint256)` events, told apart by
/// `event_type`.
#[derive(Debug, Clone)]
pub struct LiquidityChangeRow {
    /// `"mint"` or `"burn"`; see [`LiquidityChangeKind`].
    pub event_type: String,
    /// Address of the pool contract (`0x`-hex, lower case).
    pub pool_address: String,
    /// Block in which the event was included.
    pub block_number: i64,
    /// Transaction hash (`0x`-hex).
    pub tx_hash: String,
    /// Position of the log within the transaction.
    pub log_index: i32,
    /// Unix timestamp of the block.
    pub block_timestamp: i64,
    /// Owner of the position.
    pub owner: String,
    /// For a mint, the address that called `mint()`; `None` for a burn.
    pub sender: Option<String>,
    /// Lower tick of the position.
    pub tick_lower: i32,
    /// Upper tick of the position.
    pub tick_upper: i32,
    /// Liquidity units added or removed (`0x`-hex `u128`).
    pub amount: String,
    /// Token0 amount moved (`0x`-hex `u128`).
    pub amount0: String,
    /// Token1 amount moved (`0x`-hex `u128`).
    pub amount1: String,
}

impl LiquidityChangeRow {
    /// Builds a [`LiquidityChangeRow`] from the decoded fields of a mint or burn log.
    #[allow(clippy::too_many_arguments)]
    pub fn new(
        kind: LiquidityChangeKind,
        pool: Address,
        block: u64,
        ts: u64,
        tx: B256,
        log_idx: u32,
        owner: Address,
        sender: Option<Address>,
        tick_lower: i32,
        tick_upper: i32,
        amount: u128,
        amount0: u128,
        amount1: u128,
    ) -> (r: LiquidityChangeRow)
        ensures
            r.event_type@ == kind_text(kind),
            r.pool_address@ == prefixed_hex(pool.bytes@),
            r.block_number == block as i64,
            r.block_timestamp == ts as i64,
            r.tx_hash@ == prefixed_hex(tx.bytes@),
            r.log_index == log_idx as i32,
            r.owner@ == prefixed_hex(owner.bytes@),
            match sender {
                Some(a) => r.sender matches Some(t) && t@ == prefixed_hex(a.bytes@),
                None => r.sender is None,
            },
            r.tick_lower == tick_lower,
            r.tick_upper == tick_upper,
            r.amount@ == hex_text(amount as nat),
            r.amount0@ == hex_text(amount0 as nat),
            r.amount1@ == hex_text(amount1 as nat),
    {
        let sender_text = match sender {
            Some(a) => Some(prefixed_hex_text(&a.bytes)),
            None => None,
        };
        LiquidityChangeRow {
            event_type: String::from_str(kind.as_str()),
            pool_address: prefixed_hex_text(&pool.bytes),
            block_number: block as i64,
            block_timestamp: ts as i64,
            tx_hash: prefixed_hex_text(&tx.bytes),
            log_index: log_idx as i32,
            owner: prefixed_hex_text(&owner.bytes),
            sender: sender_text,
            tick_lower,
            tick_upper,
            amount: u128_to_hex(amount),
            amount0: u128_to_hex(amount0),
            amount1: u128_to_hex(amount1),
        }
    }
}

} // verus!
