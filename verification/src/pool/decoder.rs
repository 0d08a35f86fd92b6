//! Uniswap V3-style pool calldata decoder.

use vstd::prelude::*;

verus! {

/// Decoded pool function call.
#[derive(Debug, Clone, Copy, PartialEq, Eq, Structural)]
pub enum PoolCall {
    Swap { zero_for_one: bool, amount_specified: i128 },
    Mint,
    Burn,
    Collect,
    /// A selector that is not recognised.
    Unknown(u32),
}

/// Selector of `swap(address,bool,int256,uint160,bytes)`.
pub const SEL_SWAP: u32 = 0x128acb08;

/// Selector of `mint(address,int24,int24,uint128,bytes)`.
pub const SEL_MINT: u32 = 0x3c8a7d8d;

/// Selector of `burn(int24,int24,uint128)`.
pub const SEL_BURN: u32 = 0xa34123a7;

/// Selector of `collect(address,int24,int24,uint128,uint128)`.
pub const SEL_COLLECT: u32 = 0x4f1eb3d8;

/// The unsigned number that `bytes` encode, most significant byte first.
pub open spec fn be_value(bytes: Seq<u8>) -> nat
    decreases bytes.len(),
{
    if bytes.len() == 0 {
        0
    } else {
        be_value(bytes.drop_last()) * 256 + bytes.last() as nat
    }
}

/// `256^k`.
pub open spec fn pow256(k: nat) -> nat
    decreases k,
{
    if k == 0 {
        1
    } else {
        256 * pow256((k - 1) as nat)
    }
}

/// The two's-complement number that sixteen big-endian `bytes` encode.
pub open spec fn be_signed_128(bytes: Seq<u8>) -> int {
    let u = be_value(bytes);
    if u >= 0x8000_0000_0000_0000_0000_0000_0000_0000 {
        u - 0x1_0000_0000_0000_0000_0000_0000_0000_0000
    } else {
        u as int
    }
}

/// The two's-complement number that thirty-two big-endian `bytes` (an ABI
/// `int256` word) encode.
pub open spec fn be_signed_256(bytes: Seq<u8>) -> int {
    let u = be_value(bytes);
    if u >= 0x8000_0000_0000_0000_0000_0000_0000_0000_0000_0000_0000_0000_0000_0000_0000_0000int {
        u - 0x1_0000_0000_0000_0000_0000_0000_0000_0000_0000_0000_0000_0000_0000_0000_0000_0000int
    } else {
        u as int
    }
}

/// What [`decode_pool_calldata`] makes of `input`.
///
/// The first four bytes are the big-endian selector. A swap call
/// `swap(address,bool,int256,uint160,bytes)` carries its arguments in
/// 32-byte words after the selector: the recipient at offset 4, `zeroForOne`
/// at offset 36 and `amountSpecified` at offset 68. A swap whose calldata
/// ends before the amount word does (100 bytes) decodes with default fields.
/// Otherwise the direction is whether the low byte of the `zeroForOne` word
/// (byte 67) is non-zero, and the amount is the `int256` word read as an
/// `i128`: its low sixteen bytes (84 to 99) in two's complement. That is the
/// word's value whenever the value fits an `i128`; otherwise it is the value
/// truncated to 128 bits.
pub open spec fn spec_decode_pool_calldata(input: Seq<u8>) -> Option<PoolCall> {
    if input.len() < 4 {
        None
    } else {
        let selector = be_value(input.subrange(0, 4));
        if selector == SEL_SWAP {
            if input.len() < 100 {
                Some(PoolCall::Swap { zero_for_one: false, amount_specified: 0 })
            } else {
                Some(
                    PoolCall::Swap {
                        zero_for_one: input[67] != 0,
                        amount_specified: be_signed_128(input.subrange(84, 100)) as i128,
                    },
                )
            }
        } else if selector == SEL_MINT {
            Some(PoolCall::Mint)
        } else if selector == SEL_BURN {
            Some(PoolCall::Burn)
        } else if selector == SEL_COLLECT {
            Some(PoolCall::Collect)
        } else {
            Some(PoolCall::Unknown(selector as u32))
        }
    }
}

/// The number that sixteen big-endian bytes encode, written out byte by byte.
spec fn sixteen_byte_number(bytes: Seq<u8>) -> int {
    bytes[0] as int * 0x1000000000000000000000000000000 + bytes[1] as int * 0x10000000000000000000000000000 + bytes[2] as int * 0x100000000000000000000000000 + bytes[3] as int * 0x1000000000000000000000000 + bytes[4] as int * 0x10000000000000000000000 + bytes[5] as int * 0x100000000000000000000 + bytes[6] as int * 0x1000000000000000000 + bytes[7] as int * 0x10000000000000000 + bytes[8] as int * 0x100000000000000 + bytes[9] as int * 0x1000000000000 + bytes[10] as int * 0x10000000000 + bytes[11] as int * 0x100000000 + bytes[12] as int * 0x1000000 + bytes[13] as int * 0x10000 + bytes[14] as int * 0x100 + bytes[15] as int
}

proof fn lemma_be_value_sixteen(bytes: Seq<u8>)
    requires
        bytes.len() == 16,
    ensures
        be_value(bytes) == sixteen_byte_number(bytes),
{
    assert(bytes.subrange(0, 0) =~= Seq::<u8>::empty());
    assert(be_value(bytes.subrange(0, 0)) == 0);
    assert(bytes.subrange(0, 1).drop_last() =~= bytes.subrange(0, 0));
    assert(bytes.subrange(0, 1).last() == bytes[0]);
    assert(be_value(bytes.subrange(0, 1)) == be_value(bytes.subrange(0, 0)) * 256 + bytes[0] as nat);
    assert(bytes.subrange(0, 2).drop_last() =~= bytes.subrange(0, 1));
    assert(bytes.subrange(0, 2).last() == bytes[1]);
    assert(be_value(bytes.subrange(0, 2)) == be_value(bytes.subrange(0, 1)) * 256 + bytes[1] as nat);
    assert(bytes.subrange(0, 3).drop_last() =~= bytes.subrange(0, 2));
    assert(bytes.subrange(0, 3).last() == bytes[2]);
    assert(be_value(bytes.subrange(0, 3)) == be_value(bytes.subrange(0, 2)) * 256 + bytes[2] as nat);
    assert(bytes.subrange(0, 4).drop_last() =~= bytes.subrange(0, 3));
    assert(bytes.subrange(0, 4).last() == bytes[3]);
    assert(be_value(bytes.subrange(0, 4)) == be_value(bytes.subrange(0, 3)) * 256 + bytes[3] as nat);
    assert(bytes.subrange(0, 5).drop_last() =~= bytes.subrange(0, 4));
    assert(bytes.subrange(0, 5).last() == bytes[4]);
    assert(be_value(bytes.subrange(0, 5)) == be_value(bytes.subrange(0, 4)) * 256 + bytes[4] as nat);
    assert(bytes.subrange(0, 6).drop_last() =~= bytes.subrange(0, 5));
    assert(bytes.subrange(0, 6).last() == bytes[5]);
    assert(be_value(bytes.subrange(0, 6)) == be_value(bytes.subrange(0, 5)) * 256 + bytes[5] as nat);
    assert(bytes.subrange(0, 7).drop_last() =~= bytes.subrange(0, 6));
    assert(bytes.subrange(0, 7).last() == bytes[6]);
    assert(be_value(bytes.subrange(0, 7)) == be_value(bytes.subrange(0, 6)) * 256 + bytes[6] as nat);
    assert(bytes.subrange(0, 8).drop_last() =~= bytes.subrange(0, 7));
    assert(bytes.subrange(0, 8).last() == bytes[7]);
    assert(be_value(bytes.subrange(0, 8)) == be_value(bytes.subrange(0, 7)) * 256 + bytes[7] as nat);
    assert(bytes.subrange(0, 9).drop_last() =~= bytes.subrange(0, 8));
    assert(bytes.subrange(0, 9).last() == bytes[8]);
    assert(be_value(bytes.subrange(0, 9)) == be_value(bytes.subrange(0, 8)) * 256 + bytes[8] as nat);
    assert(bytes.subrange(0, 10).drop_last() =~= bytes.subrange(0, 9));
    assert(bytes.subrange(0, 10).last() == bytes[9]);
    assert(be_value(bytes.subrange(0, 10)) == be_value(bytes.subrange(0, 9)) * 256 + bytes[9] as nat);
    assert(bytes.subrange(0, 11).drop_last() =~= bytes.subrange(0, 10));
    assert(bytes.subrange(0, 11).last() == bytes[10]);
    assert(be_value(bytes.subrange(0, 11)) == be_value(bytes.subrange(0, 10)) * 256 + bytes[10] as nat);
    assert(bytes.subrange(0, 12).drop_last() =~= bytes.subrange(0, 11));
    assert(bytes.subrange(0, 12).last() == bytes[11]);
    assert(be_value(bytes.subrange(0, 12)) == be_value(bytes.subrange(0, 11)) * 256 + bytes[11] as nat);
    assert(bytes.subrange(0, 13).drop_last() =~= bytes.subrange(0, 12));
    assert(bytes.subrange(0, 13).last() == bytes[12]);
    assert(be_value(bytes.subrange(0, 13)) == be_value(bytes.subrange(0, 12)) * 256 + bytes[12] as nat);
    assert(bytes.subrange(0, 14).drop_last() =~= bytes.subrange(0, 13));
    assert(bytes.subrange(0, 14).last() == bytes[13]);
    assert(be_value(bytes.subrange(0, 14)) == be_value(bytes.subrange(0, 13)) * 256 + bytes[13] as nat);
    assert(bytes.subrange(0, 15).drop_last() =~= bytes.subrange(0, 14));
    assert(bytes.subrange(0, 15).last() == bytes[14]);
    assert(be_value(bytes.subrange(0, 15)) == be_value(bytes.subrange(0, 14)) * 256 + bytes[14] as nat);
    assert(bytes.subrange(0, 16).drop_last() =~= bytes.subrange(0, 15));
    assert(bytes.subrange(0, 16).last() == bytes[15]);
    assert(be_value(bytes.subrange(0, 16)) == be_value(bytes.subrange(0, 15)) * 256 + bytes[15] as nat);
    assert(bytes.subrange(0, 16) =~= bytes);
}

proof fn lemma_selector_value(input: Seq<u8>)
    requires
        input.len() >= 4,
    ensures
        be_value(input.subrange(0, 4)) == input[0] as int * 0x100_0000 + input[1] as int * 0x1_0000
            + input[2] as int * 0x100 + input[3] as int,
{
    let s = input.subrange(0, 4);
    assert(s.drop_last() =~= input.subrange(0, 3));
    assert(s.drop_last().drop_last() =~= input.subrange(0, 2));
    assert(s.drop_last().drop_last().drop_last() =~= input.subrange(0, 1));
    assert(s.drop_last().drop_last().drop_last().drop_last() =~= Seq::<u8>::empty());
    let s1 = input.subrange(0, 1);
    let s2 = input.subrange(0, 2);
    let s3 = input.subrange(0, 3);
    assert(s1.drop_last() =~= Seq::<u8>::empty());
    assert(s2.drop_last() =~= s1);
    assert(s3.drop_last() =~= s2);
    assert(be_value(Seq::<u8>::empty()) == 0);
    assert(s1.last() == input[0]);
    assert(be_value(s1) == be_value(s1.drop_last()) * 256 + s1.last() as nat);
    assert(be_value(s1) == input[0] as nat);
    assert(be_value(s2) == be_value(s1) * 256 + input[1] as nat);
    assert(be_value(s3) == be_value(s2) * 256 + input[2] as nat);
    assert(be_value(s) == be_value(s3) * 256 + input[3] as nat);
}

/// Calldata is told apart by its first four bytes alone: calldata shorter
/// than four bytes decodes to nothing; a mint, burn or collect selector
/// decodes to that call whatever follows it; a swap selector decodes to a
/// swap whose direction is the low byte of the `zeroForOne` word (byte 67)
/// and whose amount is bytes 84 to 99 in two's complement, or to a swap with
/// default fields when the calldata ends before byte 100; any other selector
/// decodes to `Unknown` carrying the four bytes as a big-endian number.
pub proof fn law_decode_by_selector(input: Seq<u8>)
    ensures
        input.len() < 4 ==> spec_decode_pool_calldata(input) is None,
        input.len() >= 4 && input[0] == 0x3c && input[1] == 0x8a && input[2] == 0x7d && input[3]
            == 0x8d ==> spec_decode_pool_calldata(input) == Some(PoolCall::Mint),
        input.len() >= 4 && input[0] == 0xa3 && input[1] == 0x41 && input[2] == 0x23 && input[3]
            == 0xa7 ==> spec_decode_pool_calldata(input) == Some(PoolCall::Burn),
        input.len() >= 4 && input[0] == 0x4f && input[1] == 0x1e && input[2] == 0xb3 && input[3]
            == 0xd8 ==> spec_decode_pool_calldata(input) == Some(PoolCall::Collect),
        input.len() >= 4 && input[0] == 0x12 && input[1] == 0x8a && input[2] == 0xcb && input[3]
            == 0x08 && input.len() < 100 ==> spec_decode_pool_calldata(input) == Some(
            PoolCall::Swap { zero_for_one: false, amount_specified: 0 },
        ),
        input.len() >= 100 && input[0] == 0x12 && input[1] == 0x8a && input[2] == 0xcb && input[3]
            == 0x08 ==> (spec_decode_pool_calldata(input) matches Some(
            PoolCall::Swap { zero_for_one, amount_specified },
        ) && zero_for_one == (input[67] != 0) && amount_specified as int == (input[84] as int * 0x1000000000000000000000000000000 + input[85] as int * 0x10000000000000000000000000000 + input[86] as int * 0x100000000000000000000000000 + input[87] as int * 0x1000000000000000000000000 + input[88] as int * 0x10000000000000000000000 + input[89] as int * 0x100000000000000000000 + input[90] as int * 0x1000000000000000000 + input[91] as int * 0x10000000000000000 + input[92] as int * 0x100000000000000 + input[93] as int * 0x1000000000000 + input[94] as int * 0x10000000000 + input[95] as int * 0x100000000 + input[96] as int * 0x1000000 + input[97] as int * 0x10000 + input[98] as int * 0x100 + input[99] as int) - (if input[84] >= 0x80 {
            0x1_0000_0000_0000_0000_0000_0000_0000_0000int
        } else {
            0
        })),
        input.len() >= 4 && !(input[0] == 0x3c && input[1] == 0x8a && input[2] == 0x7d && input[3]
            == 0x8d) && !(input[0] == 0xa3 && input[1] == 0x41 && input[2] == 0x23 && input[3]
            == 0xa7) && !(input[0] == 0x4f && input[1] == 0x1e && input[2] == 0xb3 && input[3]
            == 0xd8) && !(input[0] == 0x12 && input[1] == 0x8a && input[2] == 0xcb && input[3]
            == 0x08) ==> spec_decode_pool_calldata(input) == Some(
            PoolCall::Unknown(
                (input[0] as int * 0x100_0000 + input[1] as int * 0x1_0000 + input[2] as int * 0x100
                    + input[3] as int) as u32,
            ),
        ),
{
    if input.len() >= 4 {
        lemma_selector_value(input);
        if input.len() >= 100 {
            let w = input.subrange(84, 100);
            lemma_be_value_sixteen(w);
            assert(sixteen_byte_number(w) == input[84] as int * 0x1000000000000000000000000000000 + input[85] as int * 0x10000000000000000000000000000 + input[86] as int * 0x100000000000000000000000000 + input[87] as int * 0x1000000000000000000000000 + input[88] as int * 0x10000000000000000000000 + input[89] as int * 0x100000000000000000000 + input[90] as int * 0x1000000000000000000 + input[91] as int * 0x10000000000000000 + input[92] as int * 0x100000000000000 + input[93] as int * 0x1000000000000 + input[94] as int * 0x10000000000 + input[95] as int * 0x100000000 + input[96] as int * 0x1000000 + input[97] as int * 0x10000 + input[98] as int * 0x100 + input[99] as int);
        }
    }
}

/// Calldata decodes to a call exactly when it holds a four-byte selector.
pub proof fn law_decode_needs_selector(input: Seq<u8>)
    ensures
        spec_decode_pool_calldata(input) is None <==> input.len() < 4,
{
}

/// Decoding reads no byte past the 100th: calldata that agree on their
/// first 100 bytes decode alike.
pub proof fn law_decode_reads_prefix(a: Seq<u8>, b: Seq<u8>)
    requires
        a.len() >= 100,
        b.len() >= 100,
        a.subrange(0, 100) == b.subrange(0, 100),
    ensures
        spec_decode_pool_calldata(a) == spec_decode_pool_calldata(b),
{
    assert(a.subrange(0, 4) =~= a.subrange(0, 100).subrange(0, 4));
    assert(b.subrange(0, 4) =~= b.subrange(0, 100).subrange(0, 4));
    assert(a.subrange(84, 100) =~= a.subrange(0, 100).subrange(84, 100));
    assert(b.subrange(84, 100) =~= b.subrange(0, 100).subrange(84, 100));
    assert(a[67] == a.subrange(0, 100)[67]);
    assert(b[67] == b.subrange(0, 100)[67]);
}

proof fn lemma_be_value_bound(bytes: Seq<u8>)
    ensures
        be_value(bytes) < pow256(bytes.len()),
    decreases bytes.len(),
{
    if bytes.len() > 0 {
        lemma_be_value_bound(bytes.drop_last());
        lemma_be_step(be_value(bytes.drop_last()), bytes.last() as nat, bytes.drop_last().len());
    }
}

proof fn lemma_be_value_concat(a: Seq<u8>, b: Seq<u8>)
    ensures
        be_value(a + b) == be_value(a) * pow256(b.len()) + be_value(b),
    decreases b.len(),
{
    if b.len() == 0 {
        assert(a + b =~= a);
        assert(be_value(b) == 0);
        assert(pow256(b.len()) == 1);
    } else {
        let b2 = b.drop_last();
        lemma_be_value_concat(a, b2);
        assert((a + b).drop_last() =~= a + b2);
        assert((a + b).last() == b.last());
        let x = be_value(a);
        let p = pow256(b2.len());
        let y = be_value(b2);
        assert(be_value(a + b) == be_value(a + b2) * 256 + b.last());
        assert(be_value(b) == y * 256 + b.last());
        assert(pow256(b.len()) == 256 * p);
        assert(be_value(a + b2) == x * p + y);
        assert((x * p + y) * 256 == x * (256 * p) + y * 256) by (nonlinear_arith);
        assert(be_value(a + b) == x * (256 * p) + y * 256 + b.last() as nat);
    }
}

/// The amount of a swap is its `int256` word read as an `i128`: it equals
/// the word's value whenever that value fits an `i128`, and otherwise differs
/// from it by a multiple of `2^128` (the value truncated to 128 bits).
pub proof fn law_swap_amount_is_the_int256_word(word: Seq<u8>)
    requires
        word.len() == 32,
    ensures
        i128::MIN <= be_signed_256(word) <= i128::MAX ==> be_signed_128(word.subrange(16, 32))
            == be_signed_256(word),
        (be_signed_256(word) - be_signed_128(word.subrange(16, 32)))
            % 0x1_0000_0000_0000_0000_0000_0000_0000_0000int == 0,
{
    let high = word.subrange(0, 16);
    let low = word.subrange(16, 32);
    assert(word =~= high + low);
    lemma_be_value_concat(high, low);
    lemma_be_value_bound(high);
    lemma_be_value_bound(low);
    reveal_with_fuel(pow256, 17);
    let c: int = 0x1_0000_0000_0000_0000_0000_0000_0000_0000int;
    assert(pow256(16) == c);
    let h = be_value(high) as int;
    let l = be_value(low) as int;
    assert(be_value(word) == h * c + l);
    let s256 = be_signed_256(word);
    let s128 = be_signed_128(low);
    let big = be_value(word) >= c * (c / 2);
    let neg = l >= c / 2;
    let k: int = (if big {
        h - c
    } else {
        h
    }) + (if neg {
        1int
    } else {
        0int
    });
    let a: int = if big {
        c * c
    } else {
        0
    };
    let b: int = if neg {
        c
    } else {
        0
    };
    assert(c * (c / 2) == 0x8000_0000_0000_0000_0000_0000_0000_0000_0000_0000_0000_0000_0000_0000_0000_0000int);
    assert(c * c == 0x1_0000_0000_0000_0000_0000_0000_0000_0000_0000_0000_0000_0000_0000_0000_0000_0000int);
    assert(s256 == h * c + l - a);
    assert(s128 == l - b);
    assert(s256 - s128 == k * c) by (nonlinear_arith)
        requires
            s256 == h * c + l - a,
            s128 == l - b,
            k == (if big { h - c } else { h }) + (if neg { 1int } else { 0int }),
            a == (if big { c * c } else { 0 }),
            b == (if neg { c } else { 0 }),
    {
    }
    vstd::arithmetic::div_mod::lemma_mod_multiples_basic(k, c);
}

proof fn lemma_be_step(acc: nat, b: nat, k: nat)
    requires
        acc < pow256(k),
        b < 256,
    ensures
        acc * 256 + b < pow256(k + 1),
{
    let p = pow256(k);
    assert(pow256(k + 1) == 256 * p);
    assert(acc * 256 + b < 256 * p) by (nonlinear_arith)
        requires
            acc < p,
            b < 256,
    {
    }
}

/// Reads `len` bytes of `input` from `start` as a big-endian unsigned number.
fn read_be(input: &[u8], start: usize, len: usize) -> (r: u128)
    requires
        len <= 16,
        start + len <= input@.len(),
    ensures
        r == be_value(input@.subrange(start as int, start + len)),
        r < pow256(len as nat),
{
    let n = input.len();
    let mut acc: u128 = 0;
    let mut i: usize = 0;
    assert(input@.subrange(start as int, start as int) =~= Seq::<u8>::empty());
    while i < len
        invariant
            i <= len <= 16,
            start + len <= n,
            n == input@.len(),
            acc == be_value(input@.subrange(start as int, start + i)),
            acc < pow256(i as nat),
        decreases len - i,
    {
        let b = input[start + i];
        proof {
            lemma_be_step(acc as nat, b as nat, i as nat);
            lemma_pow256_le(i as nat + 1, 16);
            reveal_with_fuel(pow256, 17);
            assert(input@.subrange(start as int, start + i + 1).drop_last() =~= input@.subrange(
                start as int,
                start + i,
            ));
        }
        acc = acc * 256 + b as u128;
        i = i + 1;
    }
    acc
}

proof fn lemma_pow256_le(a: nat, b: nat)
    requires
        a <= b,
    ensures
        pow256(a) <= pow256(b),
    decreases b,
{
    if a < b {
        lemma_pow256_le(a, (b - 1) as nat);
        lemma_pow256_positive((b - 1) as nat);
    }
}

proof fn lemma_pow256_positive(k: nat)
    ensures
        pow256(k) >= 1,
    decreases k,
{
    if k > 0 {
        lemma_pow256_positive((k - 1) as nat);
    }
}

/// Decodes the function call that `input` makes on a pool, by its selector.
pub fn decode_pool_calldata(input: &[u8]) -> (r: Option<PoolCall>)
    ensures
        r == spec_decode_pool_calldata(input@),
        input@.len() >= 100 && be_value(input@.subrange(0, 4)) == SEL_SWAP && i128::MIN
            <= be_signed_256(input@.subrange(68, 100)) <= i128::MAX ==> r == Some(
            PoolCall::Swap {
                zero_for_one: input@[67] != 0,
                amount_specified: be_signed_256(input@.subrange(68, 100)) as i128,
            },
        ),
{
    if input.len() >= 100 {
        proof {
            law_swap_amount_is_the_int256_word(input@.subrange(68, 100));
            assert(input@.subrange(68, 100).subrange(16, 32) =~= input@.subrange(84, 100));
        }
    }
    if input.len() < 4 {
        return None;
    }
    let raw = read_be(input, 0, 4);
    proof {
        reveal_with_fuel(pow256, 5);
    }
    let selector = raw as u32;
    if selector == SEL_SWAP {
        if input.len() < 100 {
            return Some(PoolCall::Swap { zero_for_one: false, amount_specified: 0 });
        }
        let zero_for_one = input[67] != 0;
        let u = read_be(input, 84, 16);
        let amount_specified: i128 = if u < 0x8000_0000_0000_0000_0000_0000_0000_0000u128 {
            u as i128
        } else {
            ((u - 0x8000_0000_0000_0000_0000_0000_0000_0000u128) as i128) + i128::MIN
        };
        Some(PoolCall::Swap { zero_for_one, amount_specified })
    } else if selector == SEL_MINT {
        Some(PoolCall::Mint)
    } else if selector == SEL_BURN {
        Some(PoolCall::Burn)
    } else if selector == SEL_COLLECT {
        Some(PoolCall::Collect)
    } else {
        Some(PoolCall::Unknown(selector))
    }
}

} // verus!
